//! Dead-reckoning odometry from the issued command history.
//!
//! Actuators respond late: using the newest command to estimate motion
//! over-predicts responsiveness.  The estimator keeps a short queue of
//! recent commands and reads the oldest one still inside the modeled
//! actuation delay as "what the vehicle is actually executing".

use std::collections::VecDeque;

use vstd::prelude::*;

use crate::messages::SimpleDrive;
use crate::points::Pos;
use crate::state::CarState;
use crate::state::TIME_STEP_LIMIT;

verus! {

/// Modeled actuation delay in microseconds.
pub const ODOM_DELAY_MICROS: u64 = 200_000;

/// One issued command with the time it was issued.
#[derive(Clone, Copy, PartialEq, Eq, Structural, Debug)]
pub struct CommandInTime {
    pub command: SimpleDrive,
    pub time: u64,
}

/// The command history with samples older than `now - delay` dropped from
/// the front, except that the newest sample always survives.
pub open spec fn spec_drop_stale(q: Seq<CommandInTime>, now: u64, delay: u64) -> Seq<
    CommandInTime,
>
    decreases q.len(),
{
    if q.len() == 0 {
        q
    } else if q[0].time + delay <= now {
        spec_drop_stale(q.drop_first(), now, delay)
    } else {
        q
    }
}

/// Estimates the incremental pose change from the issued command history,
/// without physical sensing.
pub struct BlindRelativeStateProvider {
    pub delay_micros: u64,
    pub commands_queue: VecDeque<CommandInTime>,
}

impl BlindRelativeStateProvider {
    pub open spec fn wf(self) -> bool {
        &&& self.delay_micros > 0
        &&& forall|i: int, j: int|
            0 <= i < j < self.commands_queue@.len() ==> (#[trigger] self.commands_queue@[i]).time
                <= (#[trigger] self.commands_queue@[j]).time
        &&& forall|i: int|
            0 <= i < self.commands_queue@.len() ==> (#[trigger] self.commands_queue@[i]).command.wf()
    }

    /// The motion the front of the queue commands, applied for the span
    /// between the two oldest retained samples (zero with fewer than two).
    pub open spec fn spec_movement(self) -> CarState {
        let cmd = if self.commands_queue@.len() >= 1 {
            self.commands_queue@[0].command
        } else {
            SimpleDrive::spec_stop()
        };
        let dt = if self.commands_queue@.len() >= 2 {
            let span = self.commands_queue@[1].time - self.commands_queue@[0].time;
            if span > TIME_STEP_LIMIT {
                TIME_STEP_LIMIT as int
            } else {
                span
            }
        } else {
            0
        };
        (CarState {
            pos: Pos { x: 0, y: 0 },
            angle: 0,
            curvature: cmd.curvature,
            speed: cmd.speed,
        }).spec_step_time(dt)
    }

    /// An estimator with the fixed modeled delay and no history.
    pub fn new() -> (r: BlindRelativeStateProvider)
        ensures
            r.wf(),
            r.delay_micros == ODOM_DELAY_MICROS,
            r.commands_queue@ == Seq::<CommandInTime>::empty(),
    {
        BlindRelativeStateProvider {
            delay_micros: ODOM_DELAY_MICROS,
            commands_queue: VecDeque::new(),
        }
    }

    /// Appends the new command at the current time, then drops every
    /// sample that has been queued longer than the modeled delay; the
    /// sample just appended never qualifies, so the queue never empties.
    pub fn set_command(&mut self, command: SimpleDrive, now_micros: u64)
        requires
            old(self).wf(),
            command.wf(),
            forall|i: int|
                0 <= i < old(self).commands_queue@.len() ==> (#[trigger] old(
                    self,
                ).commands_queue@[i]).time <= now_micros,
            now_micros <= u64::MAX - old(self).delay_micros,
        ensures
            final(self).wf(),
            final(self).delay_micros == old(self).delay_micros,
            final(self).commands_queue@ == spec_drop_stale(
                old(self).commands_queue@.push(
                    CommandInTime { command, time: now_micros },
                ),
                now_micros,
                old(self).delay_micros,
            ),
            final(self).commands_queue@.len() >= 1,
    {
        let sample = CommandInTime { command, time: now_micros };
        self.commands_queue.push_back(sample);
        let ghost q1 = self.commands_queue@;
        let delay = self.delay_micros;
        loop
            invariant
                self.delay_micros == old(self).delay_micros,
                delay == self.delay_micros,
                delay > 0,
                self.commands_queue@.len() >= 1,
                self.commands_queue@.last() == sample,
                sample.time == now_micros,
                forall|i: int, j: int|
                    0 <= i < j < self.commands_queue@.len() ==> (
                    #[trigger] self.commands_queue@[i]).time
                        <= (#[trigger] self.commands_queue@[j]).time,
                forall|i: int|
                    0 <= i < self.commands_queue@.len() ==> (
                    #[trigger] self.commands_queue@[i]).command.wf()
                        && self.commands_queue@[i].time <= now_micros,
                spec_drop_stale(q1, now_micros, delay) == spec_drop_stale(
                    self.commands_queue@,
                    now_micros,
                    delay,
                ),
            ensures
                self.commands_queue@ == spec_drop_stale(q1, now_micros, delay),
            decreases self.commands_queue@.len(),
        {
            let front_time = self.commands_queue[0].time;
            if now_micros - front_time < delay {
                proof {
                    assert(spec_drop_stale(self.commands_queue@, now_micros, delay)
                        == self.commands_queue@);
                }
                break;
            }
            proof {
                // The newest sample is never stale, so the queue cannot be
                // emptied: something older sits in front of it.
                assert(self.commands_queue@.len() > 1) by {
                    assert(self.commands_queue@.last() == sample);
                    if self.commands_queue@.len() == 1 {
                        assert(self.commands_queue@[0] == sample);
                    }
                }
            }
            let ghost before = self.commands_queue@;
            self.commands_queue.pop_front();
            proof {
                assert(self.commands_queue@ =~= before.drop_first());
            }
        }
    }

    /// The estimated relative motion since the previous cycle: the front
    /// command's curvature and speed, applied for the span between the two
    /// oldest retained samples.
    pub fn get_movement(&self) -> (r: CarState)
        requires
            self.wf(),
        ensures
            r == self.spec_movement(),
            r.wf(),
    {
        let cmd: SimpleDrive = if self.commands_queue.len() >= 1 {
            self.commands_queue[0].command
        } else {
            SimpleDrive::stop()
        };
        let dt: i64 = if self.commands_queue.len() >= 2 {
            let span = self.commands_queue[1].time - self.commands_queue[0].time;
            if span > TIME_STEP_LIMIT as u64 {
                TIME_STEP_LIMIT
            } else {
                span as i64
            }
        } else {
            0
        };
        let base = CarState {
            pos: Pos { x: 0, y: 0 },
            angle: 0,
            curvature: cmd.curvature,
            speed: cmd.speed,
        };
        base.step_time(dt)
    }
}

} // verus!
