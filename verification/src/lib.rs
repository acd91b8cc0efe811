//! Regex-filtered collection of key/value streams.
//!
//! A record type may declare that one of its map-like fields absorbs every
//! key/value pair of the enclosing object whose key matches a pattern, while
//! the remaining fields bind through the ordinary single-field mechanism.
//! This crate holds the logic behind that feature:
//!
//! * [`pattern`] wraps a compiled regular expression behind a single
//!   boolean predicate;
//! * [`collect`] is the decode loop that partitions an incoming stream of
//!   key/value pairs into the matching field's collection and the entries
//!   left for the host's own handling;
//! * [`decl`] classifies the fields of a declared record once, at
//!   declaration time, and rejects malformed declarations.

pub mod collect;
pub mod decl;
pub mod pattern;
