//! Verified core of an event-log search tool.
//!
//! A record arrives as a flat stream of structural callbacks (element start,
//! characters, element end).  This crate rebuilds the record as a navigable
//! document tree, compiles typed field selectors into a single path predicate,
//! evaluates that predicate against the rebuilt tree, and serializes matched
//! records to an indented textual form, optionally buffered and sorted by
//! record id.  Decoding the binary log format, argument parsing and all I/O
//! live outside this crate.

pub mod casefold;
pub mod document;
pub mod emitter;
pub mod eval;
pub mod events;
pub mod filter;
pub mod grep;
pub mod pipeline;
pub mod record_info;
pub mod text;
