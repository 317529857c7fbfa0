//! Verified core of a geodesic address-report pipeline.
//!
//! The library parses semicolon-delimited address rows (decoded from the
//! legacy windows-1252 encoding), models each row as a [`record::Record`],
//! provides the quadrant-correction decisions of the spherical bearing
//! computation, sorts records by computed distance, and renders each record
//! to its fixed-width report line.

pub mod calculations;
pub mod de_float;
pub mod encoding;
pub mod parse;
pub mod record;
pub mod sort;
