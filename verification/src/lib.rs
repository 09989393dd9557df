//! Collection of the operation counters that gluster dumps per brick.
//!
//! Once per scan interval the stats directory is listed, the dumps of the
//! known bricks are picked out, each dump is decoded into its aggregate and
//! its per-translator counters, and each set of counters becomes one tagged,
//! timestamped measurement that is written as one line to a time-series
//! backend.
//!
//! This library holds every decision of that pipeline and none of its input
//! or output: directory listings, file contents and the backend's answers
//! come in as plain values, and what is to be posted goes out as one.
//!
//! - [`matcher`] picks the dumps of the known bricks out of a listing.
//! - [`dump`] cuts a dump in two and has gluster decode the halves;
//!   [`decodable`] says which halves its decoder can be handed.
//! - [`counters`] holds the decoded counters.
//! - [`measurement`] tags and timestamps a set of counters.
//! - [`sink`] writes a measurement as a line and addresses it.
//! - [`scanner`] is the loop that drives the rest.
//! - [`config`] resolves the settings; [`error`] names the failures;
//!   [`text`] holds what the others share.

pub mod config;
pub mod counters;
pub mod decodable;
pub mod dump;
pub mod error;
pub mod matcher;
pub mod measurement;
pub mod scanner;
pub mod sink;
pub mod text;

pub use config::Args;
pub use scanner::initialize_brick_scanner;
pub use sink::record_measurement;
