//! Host side of the quantized layers: argument checks, launch plans and the
//! index arrays that the kernels read.

pub mod bit_extract;
pub mod leech_cpu;
pub mod leech_cuda;
pub mod leech_layer;
pub mod leech_linear;
pub mod leech_q24_cpu;
pub mod leech_q24_cuda;
pub mod parity;
