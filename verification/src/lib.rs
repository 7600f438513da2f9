//! Conversion between geodetic coordinates, Universal Transverse Mercator
//! (UTM) coordinates, and Military Grid Reference System (MGRS) grid
//! references.
//!
//! Angles are carried as `i64` nanodegrees (10⁻⁹ degree) and projected
//! coordinates as `u64` micrometers (10⁻⁶ meter), so that zone and band
//! classification, angle reduction, and the whole MGRS encoder and decoder
//! are exact integer computations with proved contracts.  The numeric
//! transverse Mercator series itself is floating point and lives outside
//! this library.

/// Geodetic coordinate pairs.
pub mod coord;
/// The grid-letter and digit alphabets of the MGRS notation.
pub mod letters;
/// Angle reduction helpers shared by the coordinate types.
pub mod math;
/// The MGRS grid-reference codec.
pub mod mgrs;
/// UTM coordinates and zone/band classification.
pub mod utm;
