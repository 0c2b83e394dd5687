//! A runtime codec core for CBOR data matching a declared schema: an error
//! taxonomy with dotted location paths, primitive and composite encoders and
//! decoders over a byte cursor, choice resolution with aggregated failures,
//! and sample schema types exercising each composite shape.

pub mod cbor;
pub mod choices;
pub mod error;
pub mod nested;
pub mod table;
pub mod types;
