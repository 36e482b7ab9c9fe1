//! Odometry, expiry policy, command liveness and delta accumulation.

use planner::comms::accumulate_map_update;
use planner::comms::get_diagnostic;
use planner::comms::merge_pending_update;
use planner::comms::reset_map;
use planner::comms::select_drive_command;
use planner::comms::update_map;
use planner::comms::NetworkCommsData;
use planner::comms::Recorder;
use planner::config::ColourConfig;
use planner::config::Config;
use planner::config::ConfigReader;
use planner::config::DriveConfig;
use planner::config::LineColour;
use planner::messages::CommandMode;
use planner::messages::DriveCommand;
use planner::messages::MapPoint;
use planner::messages::MapPointWithTime;
use planner::messages::MapUpdate;
use planner::messages::SimpleDrive;
use planner::odom::BlindRelativeStateProvider;
use planner::points::GridPointMap;
use planner::points::PointType;
use planner::points::Pos;
use planner::pruner::expiry_for;
use planner::pruner::rescale;
use planner::pruner::should_keep_point;
use planner::pruner::Pruner;

#[test]
fn odometry_uses_oldest_retained_command() {
    // Commands A at t=0, B at t=0.1s, C at t=0.2s with a 0.2s modeled
    // delay: A has aged out, so the estimate rests on B, applied for the
    // span between B and C.
    let mut odom = BlindRelativeStateProvider::new();
    let a = SimpleDrive { curvature: 1_800_000, speed: 500_000 };
    let b = SimpleDrive { curvature: 0, speed: 1_000_000 };
    let c = SimpleDrive { curvature: 600_000, speed: 2_000_000 };
    odom.set_command(a, 0);
    odom.set_command(b, 100_000);
    odom.set_command(c, 200_000);
    assert_eq!(odom.commands_queue.len(), 2);
    assert_eq!(odom.commands_queue[0].command, b);
    let movement = odom.get_movement();
    // Straight at 1 m/s for 0.1 s: 0.1 m ahead.
    assert_eq!(movement.pos, Pos { x: 100_000, y: 0 });
    assert_eq!(movement.curvature, 0);
    assert_eq!(movement.speed, 1_000_000);
}

#[test]
fn odometry_single_command_moves_nothing() {
    let mut odom = BlindRelativeStateProvider::new();
    odom.set_command(SimpleDrive { curvature: 0, speed: 1_000_000 }, 0);
    let movement = odom.get_movement();
    assert_eq!(movement.pos, Pos { x: 0, y: 0 });
}

#[test]
fn odometry_never_empties_queue() {
    let mut odom = BlindRelativeStateProvider::new();
    odom.set_command(SimpleDrive { curvature: 0, speed: 0 }, 0);
    // Far later: every older sample is stale, the newest survives.
    odom.set_command(SimpleDrive { curvature: 600_000, speed: 300_000 }, 10_000_000);
    assert_eq!(odom.commands_queue.len(), 1);
    assert_eq!(odom.commands_queue[0].time, 10_000_000);
}

#[test]
fn rescale_maps_and_clamps() {
    // Forward range.
    assert_eq!(rescale(50, 0, 100, 0, 1_000), 500);
    assert_eq!(rescale(200, 0, 100, 0, 1_000), 1_000);
    // Backward range: larger inputs give smaller outputs.
    assert_eq!(rescale(0, 0, 100, 1_000, 100), 1_000);
    assert_eq!(rescale(100, 0, 100, 1_000, 100), 100);
    assert_eq!(rescale(-50, 0, 100, 1_000, 100), 1_000);
}

#[test]
fn expiry_shrinks_with_density() {
    // Unit jitter isolates the density term.
    let now: u64 = 1_000_000;
    assert_eq!(expiry_for(0, now, 1_000_000), now + 3_000_000);
    assert_eq!(expiry_for(50, now, 1_000_000), now + 1_650_000);
    assert_eq!(expiry_for(100, now, 1_000_000), now + 300_000);
    assert_eq!(expiry_for(1000, now, 1_000_000), now + 300_000);
    // Jitter scales the lifetime: three quarters of the sparse lifetime.
    assert_eq!(expiry_for(0, now, 750_000), now + 2_250_000);
}

#[test]
fn pruner_expiry_is_jittered_but_bounded() {
    let mut pruner = Pruner::new();
    let map = GridPointMap::new();
    let now: u64 = 5_000_000;
    let expiry = pruner.get_point_expiry(Pos { x: 0, y: 0 }, &map, now);
    // An empty cell grants three seconds scaled by a jitter in [0.75, 1.5).
    assert!(expiry >= now + 2_250_000);
    assert!(expiry < now + 4_500_000);
}

#[test]
fn keep_point_compares_expiry() {
    let p = planner::points::Point {
        pos: Pos { x: 0, y: 0 },
        expire_at: 1_000,
        point_type: PointType::Obstacle,
        id: 1,
    };
    assert!(should_keep_point(999, &p));
    assert!(!should_keep_point(1_000, &p));
    assert!(!should_keep_point(2_000, &p));
}

#[test]
fn latest_command_times_out_to_safe_off() {
    let last = DriveCommand {
        state: CommandMode::StateManual,
        throttle: 700_000,
        turn: -300_000,
        images_blue: 2,
        images_yellow: 1,
        images_frame: 4,
    };
    let data = NetworkCommsData { last_recieved: last, recived_at: 1_000_000, to_send: None };
    // Fresh enough: passed through unchanged.
    let fresh = data.get_latest_message(1_200_000);
    assert_eq!(fresh, last);
    // Silent past the timeout: a safe off command, image counters kept.
    let stale = data.get_latest_message(1_400_001);
    assert_eq!(stale.state, CommandMode::StateOff);
    assert_eq!(stale.throttle, 0);
    assert_eq!(stale.turn, 0);
    assert_eq!(stale.images_frame, 4);
}

fn map_point(id: u32) -> MapPoint {
    MapPoint { x: 0, y: 0, point_type: PointType::Obstacle, id }
}

#[test]
fn accumulate_cancels_unsent_points() {
    let mut existing = MapUpdate {
        points_added: vec![map_point(1), map_point(2)],
        removed_ids: vec![9],
    };
    let incoming = MapUpdate { points_added: vec![map_point(3)], removed_ids: vec![2, 7] };
    accumulate_map_update(&mut existing, &incoming);
    let added: Vec<u32> = existing.points_added.iter().map(|p| p.id).collect();
    // Point 2 was never sent: its addition and its removal cancel out.
    assert_eq!(added, vec![1, 3]);
    assert_eq!(existing.removed_ids, vec![9, 7]);
}

#[test]
fn accumulate_drops_repeated_cancelled_id() {
    let mut existing = MapUpdate { points_added: vec![map_point(2)], removed_ids: Vec::new() };
    let incoming = MapUpdate { points_added: Vec::new(), removed_ids: vec![2, 2] };
    accumulate_map_update(&mut existing, &incoming);
    assert!(existing.points_added.is_empty());
    // Both occurrences of the cancelled identifier are dropped.
    assert!(existing.removed_ids.is_empty());
}

#[test]
fn client_map_applies_delta_and_ages_out() {
    let now: u64 = 10_000_000;
    let mut map = vec![
        MapPointWithTime { inner: map_point(1), at: now - 6_000_000 }, // stale
        MapPointWithTime { inner: map_point(2), at: now - 1_000_000 }, // removed below
        MapPointWithTime { inner: map_point(3), at: now - 1_000_000 }, // kept
    ];
    let update = MapUpdate { points_added: vec![map_point(4)], removed_ids: vec![2] };
    update_map(&mut map, &update, now);
    let ids: Vec<u32> = map.iter().map(|mp| mp.inner.id).collect();
    assert_eq!(ids, vec![3, 4]);
    assert_eq!(map[1].at, now);
}

#[test]
fn recorder_counts_owed_snapshots() {
    let mut rec = Recorder::new();
    let cmd = DriveCommand {
        state: CommandMode::StateAuto,
        throttle: 0,
        turn: 0,
        images_blue: 1,
        images_yellow: 0,
        images_frame: 2,
    };
    rec.enqueue_images(&cmd);
    assert_eq!((rec.images, rec.blues, rec.yellows), (1, 1, 0));
    assert!(rec.needs_image && rec.needs_blue && !rec.needs_yellow);
    rec.enqueue_images(&cmd);
    assert_eq!((rec.images, rec.blues, rec.yellows), (2, 1, 0));
    rec.enqueue_images(&cmd);
    // All requested totals reached: nothing further owed.
    assert_eq!((rec.images, rec.blues, rec.yellows), (2, 1, 0));
}

fn sample_config(speed_fudge: i64) -> Config {
    Config {
        yellow_colour: ColourConfig { low: vec![20, 100, 100], high: vec![30, 255, 255] },
        blue_colour: ColourConfig { low: vec![100, 100, 100], high: vec![130, 255, 255] },
        drive_cfg: DriveConfig { odom_speed_fudge: speed_fudge, odom_turn_fudge: 1_000_000 },
    }
}

#[test]
fn config_reader_caches_and_reloads() {
    let mut reader = ConfigReader::new(sample_config(1_000_000), 1_000_000);
    assert_eq!(reader.get_value().drive_cfg.odom_speed_fudge, 1_000_000);
    // The file changed recently: worth checking; and a newer edit reloads.
    assert!(reader.should_check_file(1_100_000));
    assert!(!reader.should_check_file(1_300_000));
    assert!(reader.should_reload(1_500_000));
    assert!(!reader.should_reload(900_000));
    reader.store(sample_config(2_000_000), 1_500_000);
    assert_eq!(reader.get_value().drive_cfg.odom_speed_fudge, 2_000_000);
}

#[test]
fn config_selects_colour_for_line() {
    let cfg = sample_config(1_000_000);
    assert_eq!(cfg.colour_for_line(&LineColour::BLUE).low, vec![100, 100, 100]);
    assert_eq!(cfg.colour_for_line(&LineColour::YELLOW).high, vec![30, 255, 255]);
}

#[test]
fn drive_command_follows_mode() {
    let auto_cmd = SimpleDrive { curvature: 480_000, speed: 200_000 };
    let mut cmd = DriveCommand {
        state: CommandMode::StateAuto,
        throttle: 900_000,
        turn: -100_000,
        images_blue: 0,
        images_yellow: 0,
        images_frame: 0,
    };
    assert_eq!(select_drive_command(&cmd, auto_cmd), auto_cmd);
    cmd.state = CommandMode::StateManual;
    let manual = select_drive_command(&cmd, auto_cmd);
    assert_eq!(manual.curvature, -100_000);
    assert_eq!(manual.speed, 900_000);
    cmd.state = CommandMode::StateOff;
    let off = select_drive_command(&cmd, auto_cmd);
    assert_eq!(off, SimpleDrive { curvature: 0, speed: 0 });
}

#[test]
fn pending_delta_merges_and_resets() {
    let mut pending: Option<MapUpdate> = None;
    merge_pending_update(
        &mut pending,
        MapUpdate { points_added: vec![map_point(1)], removed_ids: Vec::new() },
    );
    // A later cycle removes the point before any client polled it.
    merge_pending_update(
        &mut pending,
        MapUpdate { points_added: Vec::new(), removed_ids: vec![1] },
    );
    let merged = pending.as_ref().expect("a pending delta");
    assert!(merged.points_added.is_empty());
    assert!(merged.removed_ids.is_empty());
    reset_map(&mut pending);
    assert!(pending.is_none());
}

#[test]
fn diagnostic_reports_rates_and_drive_values() {
    let state = planner::state::CarState {
        pos: Pos { x: 0, y: 0 },
        angle: 0,
        curvature: 600_000,
        speed: 200_000,
    };
    // Frame times of 20 ms, 40 ms and 60 ms: average 40 ms -> 25 Hz;
    // worst 60 ms -> 16.666 Hz.
    let times: Vec<u64> = vec![20_000, 40_000, 60_000];
    let d = get_diagnostic(&times, state);
    assert_eq!(d.actual_speed, 200_000);
    assert_eq!(d.actual_turn, 600_000);
    assert_eq!(d.framerate_avg_micro, 25_000_000);
    assert_eq!(d.framerate_90_micro, 16_666_666);
    // A window of zero frame times reports a zero rate, not a division.
    let zeros: Vec<u64> = vec![0];
    let dz = get_diagnostic(&zeros, state);
    assert_eq!(dz.framerate_avg_micro, 0);
    assert_eq!(dz.framerate_90_micro, 0);
}
