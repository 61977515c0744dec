//! The spine that lets platforms share one capture pipeline: the [`Platform`]
//! abstraction, the dispatcher and the live statistics.  No vendor logic.

pub mod dispatcher;
pub mod live_stats;
pub mod platform;

pub use platform::{Platform, PlatformSnapshot};
