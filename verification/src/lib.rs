//! Fixed-point pit-call timing: a bounded window of recent speed samples, an
//! estimator of the time left before the pit call must be made, and the
//! per-connection decisions of the service that streams those estimates.
//!
//! Every quantity is an integer in thousandths of its everyday unit:
//! distances in millimetres, speeds in millimetres per second (or metres per
//! hour where a speed is reported in km/h), times in milliseconds.

pub mod engine;
pub mod estimator;
pub mod integrate;
pub mod integrate_laws;
pub mod model;
pub mod profile;
pub mod units;
