//! Readers for the `.leech` and LEECHQ24 weight containers, and the host side
//! of the layers that run on them.

pub mod bytes;
pub mod half_float;
pub mod json;
pub mod leech;
pub mod leech_q24;
pub mod quant;
pub mod text;
