//! Command liveness and incremental map synchronization.
//!
//! The remote command source is polled; when it has gone quiet past a
//! short timeout, a safe "off" command is reported instead of stale data.
//! Map deltas accumulated between polls must never report a point as both
//! created and destroyed to a mirror that never saw it: a removal arriving
//! for a not-yet-sent point cancels the pending addition instead.

use vstd::prelude::*;

use crate::messages::DriveCommand;
use crate::messages::CommandMode;
use crate::messages::MapPoint;
use crate::messages::MapPointWithTime;
use crate::messages::MapUpdate;
use crate::messages::SimpleDrive;
use crate::state::CarState;

verus! {

/// The remote source is considered dead after this silence: 0.3 s.
pub const COMMAND_TIMEOUT_MICROS: u64 = 300_000;

/// Mirrored points older than this are dropped by the client: 5 s.
pub const CLIENT_POINT_TIMEOUT_MICROS: u64 = 5_000_000;

/// The shared state of the command/telemetry link: the last command
/// received, when it arrived, and the pending outgoing map delta.
pub struct NetworkCommsData {
    pub last_recieved: DriveCommand,
    pub recived_at: u64,
    pub to_send: Option<MapUpdate>,
}

impl NetworkCommsData {
    /// The liveness failsafe: the last received command while it is fresh,
    /// and the safe "off" command (image counters kept) once the source
    /// has been silent longer than the timeout.
    pub fn get_latest_message(&self, now_micros: u64) -> (r: DriveCommand)
        requires
            now_micros >= self.recived_at,
        ensures
            now_micros - self.recived_at > COMMAND_TIMEOUT_MICROS ==> r
                == self.last_recieved.spec_off_like(),
            now_micros - self.recived_at <= COMMAND_TIMEOUT_MICROS ==> r == self.last_recieved,
    {
        if now_micros - self.recived_at > COMMAND_TIMEOUT_MICROS {
            DriveCommand {
                state: CommandMode::StateOff,
                throttle: 0,
                turn: 0,
                images_blue: self.last_recieved.images_blue,
                images_yellow: self.last_recieved.images_yellow,
                images_frame: self.last_recieved.images_frame,
            }
        } else {
            self.last_recieved
        }
    }
}

/// Index of the first point of `s` carrying `id`, or `-1`.
pub open spec fn spec_first_index_with_id(s: Seq<MapPoint>, id: u32) -> int
    decreases s.len(),
{
    if s.len() == 0 {
        -1
    } else if s[0].id == id {
        0
    } else {
        let rest = spec_first_index_with_id(s.drop_first(), id);
        if rest == -1 {
            -1
        } else {
            rest + 1
        }
    }
}

/// The pending additions after cancelling, in order, each removal that
/// finds a pending point with its identifier.
pub open spec fn spec_cancelled_added(added: Seq<MapPoint>, removed: Seq<u32>) -> Seq<MapPoint>
    decreases removed.len(),
{
    if removed.len() == 0 {
        added
    } else {
        let idx = spec_first_index_with_id(added, removed[0]);
        let next = if idx >= 0 {
            added.remove(idx)
        } else {
            added
        };
        spec_cancelled_added(next, removed.drop_first())
    }
}

/// The removals that were spent cancelling a pending addition.
pub open spec fn spec_redundant_ids(added: Seq<MapPoint>, removed: Seq<u32>) -> Seq<u32>
    decreases removed.len(),
{
    if removed.len() == 0 {
        Seq::empty()
    } else {
        let idx = spec_first_index_with_id(added, removed[0]);
        if idx >= 0 {
            seq![removed[0]] + spec_redundant_ids(added.remove(idx), removed.drop_first())
        } else {
            spec_redundant_ids(added, removed.drop_first())
        }
    }
}

/// Processing removals in two batches is processing their concatenation.
proof fn lemma_cancel_split(added: Seq<MapPoint>, r1: Seq<u32>, r2: Seq<u32>)
    ensures
        spec_cancelled_added(added, r1 + r2) == spec_cancelled_added(
            spec_cancelled_added(added, r1),
            r2,
        ),
        spec_redundant_ids(added, r1 + r2) == spec_redundant_ids(added, r1)
            + spec_redundant_ids(spec_cancelled_added(added, r1), r2),
    decreases r1.len(),
{
    if r1.len() == 0 {
        assert(r1 + r2 =~= r2);
        assert(spec_redundant_ids(added, r1) + spec_redundant_ids(added, r2)
            =~= spec_redundant_ids(added, r2));
    } else {
        let idx = spec_first_index_with_id(added, r1[0]);
        let next = if idx >= 0 {
            added.remove(idx)
        } else {
            added
        };
        assert((r1 + r2).drop_first() =~= r1.drop_first() + r2);
        lemma_cancel_split(next, r1.drop_first(), r2);
        if idx >= 0 {
            assert(spec_redundant_ids(added, r1 + r2) =~= seq![r1[0]] + spec_redundant_ids(
                next,
                r1.drop_first() + r2,
            ));
            assert(seq![r1[0]] + (spec_redundant_ids(next, r1.drop_first())
                + spec_redundant_ids(spec_cancelled_added(next, r1.drop_first()), r2)) =~= (
            seq![r1[0]] + spec_redundant_ids(next, r1.drop_first())) + spec_redundant_ids(
                spec_cancelled_added(next, r1.drop_first()),
                r2,
            ));
        }
    }
}

/// The first exec match is the spec's first index.
proof fn lemma_first_index_found(s: Seq<MapPoint>, id: u32, i: int)
    requires
        0 <= i < s.len(),
        s[i].id == id,
        forall|k: int| 0 <= k < i ==> (#[trigger] s[k]).id != id,
    ensures
        spec_first_index_with_id(s, id) == i,
    decreases s.len(),
{
    if s[0].id == id {
        assert(i == 0);
    } else {
        let rest = s.drop_first();
        assert(rest[i - 1] == s[i]);
        assert(forall|k: int| 0 <= k < i - 1 ==> (#[trigger] rest[k]).id != id);
        lemma_first_index_found(rest, id, i - 1);
    }
}

/// With no match anywhere, the spec's first index is `-1`.
proof fn lemma_first_index_absent(s: Seq<MapPoint>, id: u32)
    requires
        forall|k: int| 0 <= k < s.len() ==> (#[trigger] s[k]).id != id,
    ensures
        spec_first_index_with_id(s, id) == -1,
    decreases s.len(),
{
    if s.len() > 0 {
        let rest = s.drop_first();
        assert(forall|k: int| 0 <= k < rest.len() ==> (#[trigger] rest[k]).id != id);
        lemma_first_index_absent(rest, id);
    }
}

/// Index of the first pending point with the given identifier.
fn find_first_with_id(v: &Vec<MapPoint>, id: u32) -> (r: Option<usize>)
    ensures
        match r {
            Some(i) => i < v@.len() && spec_first_index_with_id(v@, id) == i,
            None => spec_first_index_with_id(v@, id) == -1,
        },
{
    let n = v.len();
    let mut i: usize = 0;
    while i < n
        invariant
            n == v@.len(),
            i <= n,
            forall|k: int| 0 <= k < i ==> (#[trigger] v@[k]).id != id,
        decreases n - i,
    {
        if v[i].id == id {
            proof {
                lemma_first_index_found(v@, id, i as int);
            }
            return Some(i);
        }
        i += 1;
    }
    proof {
        lemma_first_index_absent(v@, id);
    }
    None
}

/// Whether the list holds the identifier.
fn contains_id(v: &Vec<u32>, id: u32) -> (r: bool)
    ensures
        r == v@.contains(id),
{
    let n = v.len();
    let mut i: usize = 0;
    while i < n
        invariant
            n == v@.len(),
            i <= n,
            forall|k: int| 0 <= k < i ==> v@[k] != id,
        decreases n - i,
    {
        if v[i] == id {
            return true;
        }
        i += 1;
    }
    false
}

/// Merges a fresh map delta into a pending one.  A removal whose point is
/// still waiting to be sent cancels that pending addition and is dropped
/// itself, so a mirror that never saw the point never hears of it; the
/// surviving additions and removals are appended in order.
pub fn accumulate_map_update(existing: &mut MapUpdate, new_update: &MapUpdate)
    ensures
        final(existing).points_added@ == spec_cancelled_added(
            old(existing).points_added@,
            new_update.removed_ids@,
        ) + new_update.points_added@,
        final(existing).removed_ids@ == old(existing).removed_ids@
            + new_update.removed_ids@.filter(
            |id: u32|
                !spec_redundant_ids(
                    old(existing).points_added@,
                    new_update.removed_ids@,
                ).contains(id),
        ),
{
    let ghost added0 = existing.points_added@;
    let ghost removed_new = new_update.removed_ids@;
    let mut redundant_ids: Vec<u32> = Vec::new();
    let n = new_update.removed_ids.len();
    let mut j: usize = 0;
    proof {
        assert(removed_new.take(0) =~= Seq::<u32>::empty());
        assert(spec_redundant_ids(added0, removed_new.take(0)) =~= Seq::<u32>::empty());
        assert(redundant_ids@ =~= Seq::<u32>::empty());
    }
    while j < n
        invariant
            n == new_update.removed_ids@.len(),
            removed_new == new_update.removed_ids@,
            j <= n,
            existing.points_added@ == spec_cancelled_added(added0, removed_new.take(j as int)),
            redundant_ids@ == spec_redundant_ids(added0, removed_new.take(j as int)),
            existing.removed_ids@ == old(existing).removed_ids@,
        decreases n - j,
    {
        let id = new_update.removed_ids[j];
        let ghost cur = existing.points_added@;
        proof {
            assert(removed_new.take(j as int + 1) =~= removed_new.take(j as int) + seq![id]);
            lemma_cancel_split(added0, removed_new.take(j as int), seq![id]);
            assert(seq![id].drop_first() =~= Seq::<u32>::empty());
            assert(seq![id][0] == id);
        }
        match find_first_with_id(&existing.points_added, id) {
            Some(idx) => {
                existing.points_added.remove(idx);
                proof {
                    assert(spec_cancelled_added(cur.remove(idx as int), Seq::<u32>::empty())
                        == cur.remove(idx as int));
                    assert(spec_cancelled_added(cur, seq![id]) == cur.remove(idx as int));
                    assert(spec_redundant_ids(cur.remove(idx as int), Seq::<u32>::empty())
                        =~= Seq::<u32>::empty());
                    assert(spec_redundant_ids(cur, seq![id]) =~= seq![id]
                        + Seq::<u32>::empty());
                    assert(spec_redundant_ids(cur, seq![id]) =~= seq![id]);
                }
                redundant_ids.push(id);
                proof {
                    assert(redundant_ids@ =~= spec_redundant_ids(
                        added0,
                        removed_new.take(j as int),
                    ) + seq![id]);
                }
            },
            None => {
                proof {
                    assert(spec_cancelled_added(cur, Seq::<u32>::empty()) == cur);
                    assert(spec_cancelled_added(cur, seq![id]) == cur);
                    assert(spec_redundant_ids(cur, Seq::<u32>::empty()) =~= Seq::<u32>::empty());
                    assert(spec_redundant_ids(cur, seq![id]) =~= Seq::<u32>::empty());
                    assert(redundant_ids@ =~= spec_redundant_ids(
                        added0,
                        removed_new.take(j as int),
                    ) + Seq::<u32>::empty());
                }
            },
        }
        j += 1;
    }
    proof {
        assert(removed_new.take(n as int) =~= removed_new);
    }
    // Append the incoming additions to the surviving pending ones.
    let ghost survivors = existing.points_added@;
    let m = new_update.points_added.len();
    let mut k: usize = 0;
    while k < m
        invariant
            m == new_update.points_added@.len(),
            k <= m,
            existing.points_added@ == survivors + new_update.points_added@.take(k as int),
            existing.removed_ids@ == old(existing).removed_ids@,
        decreases m - k,
    {
        existing.points_added.push(new_update.points_added[k]);
        proof {
            assert(survivors + new_update.points_added@.take(k as int + 1) =~= (survivors
                + new_update.points_added@.take(k as int)).push(
                new_update.points_added@[k as int],
            ));
        }
        k += 1;
    }
    proof {
        assert(new_update.points_added@.take(m as int) =~= new_update.points_added@);
    }
    // Append the removals that did not cancel a pending addition.
    let ghost keep_id = |id: u32|
        !spec_redundant_ids(added0, removed_new).contains(id);
    let mut l: usize = 0;
    proof {
        broadcast use Seq::<_>::lemma_filter_push;

        assert(removed_new.take(0) =~= Seq::<u32>::empty());
        assert(Seq::<u32>::empty().filter(keep_id) =~= Seq::<u32>::empty());
        assert(existing.removed_ids@ =~= old(existing).removed_ids@ + removed_new.take(
            0,
        ).filter(keep_id));
    }
    while l < n
        invariant
            n == new_update.removed_ids@.len(),
            removed_new == new_update.removed_ids@,
            l <= n,
            redundant_ids@ == spec_redundant_ids(added0, removed_new),
            keep_id == (|id: u32| !spec_redundant_ids(added0, removed_new).contains(id)),
            existing.points_added@ == spec_cancelled_added(added0, removed_new)
                + new_update.points_added@,
            existing.removed_ids@ == old(existing).removed_ids@ + removed_new.take(
                l as int,
            ).filter(keep_id),
        decreases n - l,
    {
        let id = new_update.removed_ids[l];
        proof {
            broadcast use Seq::<_>::lemma_filter_push;

            assert(removed_new.take(l as int + 1) =~= removed_new.take(l as int).push(id));
        }
        if !contains_id(&redundant_ids, id) {
            existing.removed_ids.push(id);
        } else {
            proof {
                assert(removed_new.take(l as int + 1).filter(keep_id) =~= removed_new.take(
                    l as int,
                ).filter(keep_id));
            }
        }
        l += 1;
    }
    proof {
        assert(removed_new.take(n as int) =~= removed_new);
    }
}

/// Applies a received map delta to the client's mirrored point list:
/// fresh points are stamped and appended, then every point that the delta
/// removes, and every point older than the client timeout, is dropped.
pub fn update_map(map: &mut Vec<MapPointWithTime>, map_update: &MapUpdate, now_micros: u64)
    ensures
        final(map)@ == (old(map)@ + map_update.points_added@.map_values(
            |p: MapPoint| MapPointWithTime { inner: p, at: now_micros },
        )).filter(
            |mp: MapPointWithTime|
                !map_update.removed_ids@.contains(mp.inner.id) && now_micros - mp.at
                    <= CLIENT_POINT_TIMEOUT_MICROS,
        ),
{
    let ghost keep = |mp: MapPointWithTime|
        !map_update.removed_ids@.contains(mp.inner.id) && now_micros - mp.at
            <= CLIENT_POINT_TIMEOUT_MICROS;
    let n = map_update.points_added.len();
    let mut k: usize = 0;
    let ghost stamped = map_update.points_added@.map_values(
        |p: MapPoint| MapPointWithTime { inner: p, at: now_micros },
    );
    while k < n
        invariant
            n == map_update.points_added@.len(),
            stamped == map_update.points_added@.map_values(
                |p: MapPoint| MapPointWithTime { inner: p, at: now_micros },
            ),
            k <= n,
            map@ == old(map)@ + stamped.take(k as int),
        decreases n - k,
    {
        let mp = MapPointWithTime { inner: map_update.points_added[k], at: now_micros };
        map.push(mp);
        proof {
            assert(old(map)@ + stamped.take(k as int + 1) =~= (old(map)@ + stamped.take(
                k as int,
            )).push(mp));
        }
        k += 1;
    }
    proof {
        assert(stamped.take(n as int) =~= stamped);
    }
    // Retain only live, not-removed points.
    let ghost full = map@;
    let mut out: Vec<MapPointWithTime> = Vec::new();
    let m = map.len();
    let mut i: usize = 0;
    proof {
        broadcast use Seq::<_>::lemma_filter_push;

        assert(full.take(0) =~= Seq::<MapPointWithTime>::empty());
        assert(Seq::<MapPointWithTime>::empty().filter(keep)
            =~= Seq::<MapPointWithTime>::empty());
    }
    while i < m
        invariant
            m == map@.len(),
            full == map@,
            i <= m,
            keep == (|mp: MapPointWithTime|
                !map_update.removed_ids@.contains(mp.inner.id) && now_micros - mp.at
                    <= CLIENT_POINT_TIMEOUT_MICROS),
            out@ == full.take(i as int).filter(keep),
        decreases m - i,
    {
        let mp = map[i];
        proof {
            broadcast use Seq::<_>::lemma_filter_push;

            assert(full.take(i as int + 1) =~= full.take(i as int).push(mp));
        }
        let removed = contains_id(&map_update.removed_ids, mp.inner.id);
        let stale = if mp.at > now_micros {
            false
        } else {
            now_micros - mp.at > CLIENT_POINT_TIMEOUT_MICROS
        };
        if !removed && !stale {
            out.push(mp);
        }
        i += 1;
    }
    proof {
        assert(full.take(m as int) =~= full);
    }
    *map = out;
}

/// Book-keeping for operator-requested debug snapshots: counts how many
/// of each kind were taken and which kinds are currently owed.
#[derive(Clone, Copy, PartialEq, Eq, Structural, Debug)]
pub struct Recorder {
    pub images: u32,
    pub blues: u32,
    pub yellows: u32,
    pub needs_image: bool,
    pub needs_blue: bool,
    pub needs_yellow: bool,
}

impl Recorder {
    /// A recorder with nothing taken and nothing owed.
    pub fn new() -> (r: Recorder)
        ensures
            r == (Recorder {
                images: 0,
                blues: 0,
                yellows: 0,
                needs_image: false,
                needs_blue: false,
                needs_yellow: false,
            }),
    {
        Recorder {
            images: 0,
            blues: 0,
            yellows: 0,
            needs_image: false,
            needs_blue: false,
            needs_yellow: false,
        }
    }

    /// Notes one more owed snapshot of each kind whose requested total
    /// exceeds what has been taken so far.
    pub fn enqueue_images(&mut self, cmd: &DriveCommand)
        ensures
            final(self).images == old(self).images + (if old(self).images < cmd.images_frame {
                1int
            } else {
                0int
            }),
            final(self).needs_image == (old(self).needs_image || old(self).images
                < cmd.images_frame),
            final(self).blues == old(self).blues + (if old(self).blues < cmd.images_blue {
                1int
            } else {
                0int
            }),
            final(self).needs_blue == (old(self).needs_blue || old(self).blues
                < cmd.images_blue),
            final(self).yellows == old(self).yellows + (if old(self).yellows
                < cmd.images_yellow {
                1int
            } else {
                0int
            }),
            final(self).needs_yellow == (old(self).needs_yellow || old(self).yellows
                < cmd.images_yellow),
    {
        if self.images < cmd.images_frame {
            self.images = self.images + 1;
            self.needs_image = true;
        }
        if self.blues < cmd.images_blue {
            self.blues = self.blues + 1;
            self.needs_blue = true;
        }
        if self.yellows < cmd.images_yellow {
            self.yellows = self.yellows + 1;
            self.needs_yellow = true;
        }
    }
}


/// The per-cycle drive decision: in auto mode the follower's command, in
/// manual mode the operator's stick values, and a full stop when the
/// source is off (or has timed out into the off state).
pub fn select_drive_command(command: &DriveCommand, auto_cmd: SimpleDrive) -> (r: SimpleDrive)
    ensures
        command.state == CommandMode::StateAuto ==> r == auto_cmd,
        command.state == CommandMode::StateManual ==> r == (SimpleDrive {
            curvature: command.turn,
            speed: command.throttle,
        }),
        command.state == CommandMode::StateOff ==> r == SimpleDrive::spec_stop(),
{
    match command.state {
        CommandMode::StateAuto => auto_cmd,
        CommandMode::StateManual => SimpleDrive { curvature: command.turn, speed: command.throttle },
        CommandMode::StateOff => SimpleDrive { curvature: 0, speed: 0 },
    }
}

/// Folds this cycle's map delta into the one still waiting to be sent.
pub fn merge_pending_update(pending: &mut Option<MapUpdate>, new_update: MapUpdate)
    ensures
        *old(pending) is None ==> (*final(pending) matches Some(m) && m.points_added@
            == new_update.points_added@ && m.removed_ids@ == new_update.removed_ids@),
        *old(pending) matches Some(m0) ==> (*final(pending) matches Some(m) && m.points_added@
            == spec_cancelled_added(m0.points_added@, new_update.removed_ids@)
            + new_update.points_added@ && m.removed_ids@ == m0.removed_ids@
            + new_update.removed_ids@.filter(
            |id: u32| !spec_redundant_ids(m0.points_added@, new_update.removed_ids@).contains(id),
        )),
{
    match pending {
        None => {
            *pending = Some(new_update);
        },
        Some(existing) => {
            accumulate_map_update(existing, &new_update);
        },
    }
}

/// Clears the pending map delta once it has been handed to a client.
pub fn reset_map(pending: &mut Option<MapUpdate>)
    ensures
        *final(pending) is None,
{
    *pending = None;
}


/// One tick of telemetry: the drive values actually in force and the
/// frame-rate statistics of the last few cycles, in micro-hertz.
#[derive(Clone, Copy, PartialEq, Eq, Structural, Debug)]
pub struct Diagnostic {
    pub actual_speed: i64,
    pub actual_turn: i64,
    pub framerate_avg_micro: u64,
    pub framerate_90_micro: u64,
}

/// Sum of a sequence of frame times.
pub open spec fn spec_sum_of(s: Seq<u64>) -> int
    decreases s.len(),
{
    if s.len() == 0 {
        0
    } else {
        spec_sum_of(s.drop_last()) + s.last()
    }
}

/// Largest of a sequence of frame times (zero when empty).
pub open spec fn spec_max_of(s: Seq<u64>) -> int
    decreases s.len(),
{
    if s.len() == 0 {
        0
    } else {
        let rest = spec_max_of(s.drop_last());
        if s.last() > rest {
            s.last() as int
        } else {
            rest
        }
    }
}

/// A frame time in microseconds turned into a rate in micro-hertz; a zero
/// frame time reports a zero rate rather than an infinite one.
pub open spec fn spec_rate_micro(frame_time: int) -> int {
    if frame_time == 0 {
        0
    } else {
        1_000_000_000_000int / frame_time
    }
}

/// The per-cycle diagnostic summary: the commanded drive values in force
/// and the average and worst-case frame rates over the recent window.
pub fn get_diagnostic(frame_times_micros: &Vec<u64>, state: CarState) -> (r: Diagnostic)
    requires
        1 <= frame_times_micros@.len() <= 1_000_000,
    ensures
        r.actual_speed == state.speed,
        r.actual_turn == state.curvature,
        r.framerate_avg_micro == spec_rate_micro(
            spec_sum_of(frame_times_micros@) / (frame_times_micros@.len() as int),
        ),
        r.framerate_90_micro == spec_rate_micro(spec_max_of(frame_times_micros@)),
{
    let n = frame_times_micros.len();
    let mut sum: u128 = 0;
    let mut worst: u64 = 0;
    let mut i: usize = 0;
    proof {
        assert(frame_times_micros@.take(0) =~= Seq::<u64>::empty());
    }
    while i < n
        invariant
            n == frame_times_micros@.len(),
            n <= 1_000_000,
            i <= n,
            sum == spec_sum_of(frame_times_micros@.take(i as int)),
            sum <= i * 0xFFFF_FFFF_FFFF_FFFF,
            worst == spec_max_of(frame_times_micros@.take(i as int)),
        decreases n - i,
    {
        let t = frame_times_micros[i];
        proof {
            assert(frame_times_micros@.take(i as int + 1).drop_last()
                =~= frame_times_micros@.take(i as int));
            assert(frame_times_micros@.take(i as int + 1).last()
                == frame_times_micros@[i as int]);
            assert((i + 1) * 0xFFFF_FFFF_FFFF_FFFF == i * 0xFFFF_FFFF_FFFF_FFFF
                + 0xFFFF_FFFF_FFFF_FFFF) by (nonlinear_arith);
            assert(1_000_001 * 0xFFFF_FFFF_FFFF_FFFF < 0xFFFF_FFFF_FFFF_FFFF_FFFF_FFFF_FFFF_FFFF)
                by (nonlinear_arith);
            assert(i * 0xFFFF_FFFF_FFFF_FFFF <= 1_000_000 * 0xFFFF_FFFF_FFFF_FFFF)
                by (nonlinear_arith)
                requires
                    0 <= i <= 1_000_000,
            ;
        }
        sum = sum + (t as u128);
        if t > worst {
            worst = t;
        }
        i += 1;
    }
    proof {
        assert(frame_times_micros@.take(n as int) =~= frame_times_micros@);
        assert(sum <= 1_000_000 * 0xFFFF_FFFF_FFFF_FFFF) by (nonlinear_arith)
            requires
                sum <= n * 0xFFFF_FFFF_FFFF_FFFF,
                0 <= n <= 1_000_000,
        ;
        assert(spec_sum_of(frame_times_micros@) >= 0) by {
            lemma_sum_of_nonneg(frame_times_micros@);
        }
        vstd::arithmetic::div_mod::lemma_div_pos_is_pos(sum as int, n as int);
        vstd::arithmetic::div_mod::lemma_div_is_ordered(
            sum as int,
            1_000_000int * 0xFFFF_FFFF_FFFF_FFFF,
            n as int,
        );
        vstd::arithmetic::div_mod::lemma_div_is_ordered_by_denominator(
            1_000_000int * 0xFFFF_FFFF_FFFF_FFFF,
            1,
            n as int,
        );
    }
    let avg_u128: u128 = sum / (n as u128);
    proof {
        assert(avg_u128 <= 0xFFFF_FFFF_FFFF_FFFF) by {
            vstd::arithmetic::div_mod::lemma_div_is_ordered(
                sum as int,
                n as int * 0xFFFF_FFFF_FFFF_FFFF,
                n as int,
            );
            assert(n as int * 0xFFFF_FFFF_FFFF_FFFF == 0xFFFF_FFFF_FFFF_FFFF * (n as int))
                by (nonlinear_arith);
            vstd::arithmetic::div_mod::lemma_div_multiples_vanish(
                0xFFFF_FFFF_FFFF_FFFF,
                n as int,
            );
        }
    }
    let avg: u64 = avg_u128 as u64;
    let framerate_avg_micro: u64 = if avg == 0 {
        0
    } else {
        1_000_000_000_000 / avg
    };
    let framerate_90_micro: u64 = if worst == 0 {
        0
    } else {
        1_000_000_000_000 / worst
    };
    Diagnostic {
        actual_speed: state.speed,
        actual_turn: state.curvature,
        framerate_avg_micro,
        framerate_90_micro,
    }
}

/// Frame-time sums never go negative.
proof fn lemma_sum_of_nonneg(s: Seq<u64>)
    ensures
        spec_sum_of(s) >= 0,
    decreases s.len(),
{
    if s.len() > 0 {
        lemma_sum_of_nonneg(s.drop_last());
    }
}

} // verus!
