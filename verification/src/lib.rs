//! Navigation core of a small autonomous track vehicle: exact-arc vehicle
//! kinematics, a spatial point map with aging and change tracking, a
//! time-budgeted best-first trajectory search and a latency-compensating
//! dead-reckoning odometry estimator.

pub mod math;
pub mod points;
pub mod state;
pub mod planner;
pub mod clock;
pub mod messages;
pub mod odom;
pub mod follower;
pub mod pruner;
pub mod comms;
pub mod config;
pub mod laws;
