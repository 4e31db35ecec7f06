//! Conversion of zone records in a legacy flat-file DNS dialect into a
//! normalized, deduplicated set of provider-style DNS resource records.
//!
//! The pipeline has two halves: a line-grammar parser that expands each
//! input line into zero, one, two or three typed records depending on a
//! one-character prefix (`tinydns`), and an aggregation engine that folds
//! those records into a canonically keyed, deduplicated map while
//! detecting invalid merges (`route53`). A simplified single-record
//! variant of the parser lives in `route53_parser`.

pub mod ipv4;
pub mod num;
pub mod route53;
pub mod route53_parser;
pub mod text;
pub mod tinydns;
pub mod types;
