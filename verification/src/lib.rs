//! A host memory watchdog: samples memory counters, derives the used
//! percentage, and gates alert e-mails to at most one per hour.

pub mod alert;
pub mod analyzer;
pub mod args;
pub mod binary64;
pub mod clock;
pub mod config;
pub mod decimal;
pub mod monitor;
pub mod notifier;
pub mod records;
pub mod rounding;
pub mod sampler;
pub mod snapshot;
pub mod text;
pub mod tolerance;
