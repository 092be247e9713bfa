//! Decoder and batcher for SBS-1/BaseStation aircraft-surveillance records.
//!
//! A raw text line is decoded into a typed message by fixed field position,
//! with per-field coercion that degrades to an absent field on failure;
//! decoded messages are then grouped into fixed-size batches.

pub mod batch;
pub mod clock;
pub mod coerce;
pub mod datetime;
pub mod message;
pub mod numfmt;
pub mod text;

pub use batch::BatchAggregator;
pub use coerce::{parse_bool, parse_float, parse_int, parse_string};
pub use datetime::{parse_date_time, DateTime};
pub use message::{parse, SBS1Message};
