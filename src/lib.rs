//! Maps RDF quads to elements of a prime field: every term becomes a decimal
//! string whose value lies below a fixed public modulus.
pub mod digits;
pub mod encoder;
pub mod field;
pub mod input;
pub mod quad;
pub mod laws;
