//! Video catalog: duration normalisation, paginated collection, ordering and
//! watch-marking rules.

pub mod catalog;
pub mod collector;
pub mod duration;
pub mod text;
pub mod watch;
