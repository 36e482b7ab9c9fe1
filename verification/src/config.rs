//! Tunable configuration and its cached reader.
//!
//! The host reads the configuration file and watches its modification
//! time; the core only holds the parsed values and decides, from plain
//! timestamps, when a fresh read is worth making.

use vstd::prelude::*;

verus! {

/// How recently the file must have changed for a re-check to be made:
/// 200 ms.
pub const FILE_READ_MIN_MICROS: u64 = 200_000;

/// Colour band of one detected line class, as two channel triples.
#[derive(Clone, Debug)]
pub struct ColourConfig {
    pub low: Vec<i32>,
    pub high: Vec<i32>,
}

/// Calibration of the dead-reckoning estimator, in fixed-point ticks.
#[derive(Clone, Copy, PartialEq, Eq, Structural, Debug)]
pub struct DriveConfig {
    pub odom_speed_fudge: i64,
    pub odom_turn_fudge: i64,
}

/// Which boundary line a colour band belongs to.
#[derive(Clone, Copy, PartialEq, Eq, Structural, Debug)]
pub enum LineColour {
    YELLOW,
    BLUE,
}

/// All tunable values the core consumes.
#[derive(Clone, Debug)]
pub struct Config {
    pub yellow_colour: ColourConfig,
    pub blue_colour: ColourConfig,
    pub drive_cfg: DriveConfig,
}

impl Config {
    /// The colour band configured for the given line.
    pub fn colour_for_line(&self, col: &LineColour) -> (r: &ColourConfig)
        ensures
            *col == LineColour::BLUE ==> r == &self.blue_colour,
            *col == LineColour::YELLOW ==> r == &self.yellow_colour,
    {
        match col {
            LineColour::BLUE => &self.blue_colour,
            LineColour::YELLOW => &self.yellow_colour,
        }
    }
}

/// Caches the last parsed configuration together with the file
/// modification time it came from; the host performs the actual reads.
pub struct ConfigReader {
    pub last_edit_time: u64,
    pub last_value: Config,
}

impl ConfigReader {
    /// A reader primed with an initial value and its modification time.
    pub fn new(value: Config, edit_time_micros: u64) -> (r: ConfigReader)
        ensures
            r.last_edit_time == edit_time_micros,
            r.last_value == value,
    {
        ConfigReader { last_edit_time: edit_time_micros, last_value: value }
    }

    /// The currently cached configuration.
    pub fn get_value(&self) -> (r: &Config)
        ensures
            r == &self.last_value,
    {
        &self.last_value
    }

    /// Whether the host should stat the file at all: only while the last
    /// known edit is recent; a file quiet for longer is returned from
    /// cache without touching the filesystem.
    pub fn should_check_file(&self, now_micros: u64) -> (r: bool)
        requires
            now_micros >= self.last_edit_time,
        ensures
            r == (now_micros - self.last_edit_time <= FILE_READ_MIN_MICROS),
    {
        now_micros - self.last_edit_time <= FILE_READ_MIN_MICROS
    }

    /// Whether a newly observed modification time calls for a re-read.
    pub fn should_reload(&self, new_edit_time_micros: u64) -> (r: bool)
        ensures
            r == (new_edit_time_micros > self.last_edit_time),
    {
        new_edit_time_micros > self.last_edit_time
    }

    /// Installs a freshly read configuration and its modification time.
    pub fn store(&mut self, value: Config, edit_time_micros: u64)
        ensures
            final(self).last_edit_time == edit_time_micros,
            final(self).last_value == value,
    {
        self.last_edit_time = edit_time_micros;
        self.last_value = value;
    }
}

} // verus!
