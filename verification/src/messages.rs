//! Plain data carried between the core and its collaborators.
//!
//! These are the in-memory forms of the values the host serializes for
//! actuation, telemetry and remote command; the core itself never touches
//! a wire format.

use vstd::prelude::*;

use crate::math::COORD_LIMIT;
use crate::points::PointType;
use crate::state::CURV_LIMIT;
use crate::state::SPEED_LIMIT;

verus! {

/// A single drive command: curvature in micro-inverse-meters and speed in
/// micrometers per second.
#[derive(Clone, Copy, PartialEq, Eq, Structural, Debug)]
pub struct SimpleDrive {
    pub curvature: i64,
    pub speed: i64,
}

impl SimpleDrive {
    pub open spec fn wf(self) -> bool {
        &&& -CURV_LIMIT <= self.curvature <= CURV_LIMIT
        &&& -SPEED_LIMIT <= self.speed <= SPEED_LIMIT
    }

    /// The safe all-stop command.
    pub open spec fn spec_stop() -> SimpleDrive {
        SimpleDrive { curvature: 0, speed: 0 }
    }

    pub fn stop() -> (r: SimpleDrive)
        ensures
            r == SimpleDrive::spec_stop(),
            r.wf(),
    {
        SimpleDrive { curvature: 0, speed: 0 }
    }
}

/// Mode of the polled remote command.
#[derive(Clone, Copy, PartialEq, Eq, Structural, Debug)]
pub enum CommandMode {
    StateOff,
    StateAuto,
    StateManual,
}

/// The latest remote command: mode, manual drive values and how many
/// debug images of each kind the operator has requested so far.
#[derive(Clone, Copy, PartialEq, Eq, Structural, Debug)]
pub struct DriveCommand {
    pub state: CommandMode,
    pub throttle: i64,
    pub turn: i64,
    pub images_blue: u32,
    pub images_yellow: u32,
    pub images_frame: u32,
}

impl DriveCommand {
    /// The safe command reported when the remote source has gone quiet;
    /// the image request counters are kept so no requests are lost.
    pub open spec fn spec_off_like(self) -> DriveCommand {
        DriveCommand {
            state: CommandMode::StateOff,
            throttle: 0,
            turn: 0,
            images_blue: self.images_blue,
            images_yellow: self.images_yellow,
            images_frame: self.images_frame,
        }
    }
}

/// One map point as reported to the telemetry mirror.
#[derive(Clone, Copy, PartialEq, Eq, Structural, Debug)]
pub struct MapPoint {
    pub x: i64,
    pub y: i64,
    pub point_type: PointType,
    pub id: u32,
}

impl MapPoint {
    pub open spec fn wf(self) -> bool {
        &&& -COORD_LIMIT <= self.x <= COORD_LIMIT
        &&& -COORD_LIMIT <= self.y <= COORD_LIMIT
    }
}

/// The incremental map synchronization record: points newly added and
/// identifiers newly removed since the last report.
#[derive(Clone, Debug)]
pub struct MapUpdate {
    pub points_added: Vec<MapPoint>,
    pub removed_ids: Vec<u32>,
}

/// A mirrored map point on the client side, stamped with its arrival time.
#[derive(Clone, Copy, PartialEq, Eq, Structural, Debug)]
pub struct MapPointWithTime {
    pub inner: MapPoint,
    pub at: u64,
}

} // verus!
