//! Scrapes a university job-listings table into typed postings and tracks,
//! across runs, when each posting was first observed.
//!
//! The crate is organised leaf-first:
//! - [`domain`]: the closed `Campus` and `Faculty` enumerations and their
//!   label conversions.
//! - [`text`]: character-level helpers (whitespace collapsing, entity
//!   stripping) with exact specifications.
//! - [`date`]: a calendar-date type and the strict deadline-format parser.
//! - [`fingerprint`]: the deterministic 64-bit identity hash of a posting.
//! - [`html`]: the posting record, a tree model of parsed HTML, and the
//!   strict row-to-posting conversion and post-order traversal.
//! - [`memory`]: the persisted fingerprint-to-first-seen store and its
//!   round-tripping text codec.
//! - [`pipeline`]: the dedup/enrichment pass and the whole-document entry
//!   points.

pub mod date;
pub mod domain;
pub mod fingerprint;
pub mod html;
pub mod json;
pub mod memory;
pub mod pipeline;
pub mod position;
pub mod text;

pub use date::Date;
pub use domain::Campus;
pub use domain::Faculty;
pub use domain::ValidationError;
pub use memory::Memory;
pub use pipeline::DocError;
pub use pipeline::enrich;
pub use pipeline::parse_dom;
pub use pipeline::parse_positions;
pub use position::Position;
