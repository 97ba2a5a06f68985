//! A dynamic-to-typed row projection engine.
//!
//! A database row arrives as an ordered sequence of named columns whose
//! values belong to a closed set of wire-level kinds.  The library walks
//! the columns in order, decodes the legacy fixed-point date/time encoding
//! where one occurs, renders every value into an intermediate document,
//! and finally binds that document to a caller-declared record shape.
//! Any value kind outside the supported set fails the whole projection
//! loudly rather than truncating or defaulting data.

pub mod bind;
pub mod config;
pub mod datetime;
pub mod error;
pub mod row;

pub use config::AppConfig;
pub use error::RowError;
