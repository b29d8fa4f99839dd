//! Constructors of a `.leech` linear layer.

use vstd::prelude::*;

use crate::quant::leech_layer::{LeechConfig, LeechLayer, LeechLayerError, Tensor};
use crate::text::cat;

verus! {

/// A model's quantization settings.
#[derive(Debug)]
pub enum QuantizedConfig {
    Leech { ms_used: u8, idx_bits: u8, has_offset: bool },
    /// Another method's settings, as they print.
    Other(String),
}

/// Builds a `.leech` layer from a model's settings. The container's tensors
/// are not reachable from here, so it always ends in the text of an error.
pub fn leech_linear(config: &QuantizedConfig) -> (r: Result<(), String>)
    ensures
        r matches Err(e) && e@ == match *config {
            QuantizedConfig::Leech { .. } =>
                "leech_linear: full loader integration is Phase 5b (mistralrs-core sidecar). Dispatch wiring is in place; the .leech → tensor pump is not."@,
            QuantizedConfig::Other(text) =>
                "leech_linear: expected QuantizedConfig::Leech, got "@ + text@,
        },
{
    match config {
        QuantizedConfig::Leech { .. } => Err(
            "leech_linear: full loader integration is Phase 5b (mistralrs-core sidecar). Dispatch wiring is in place; the .leech → tensor pump is not.".to_owned(),
        ),
        QuantizedConfig::Other(text) => Err(
            cat("leech_linear: expected QuantizedConfig::Leech, got ", text.as_str()),
        ),
    }
}

/// Builds a `LeechLayer` directly from already-loaded tensors.
pub fn leech_linear_from_tensors<T>(
    packed_stream: Tensor<T>,
    beta_codebook: Tensor<T>,
    offset_codebook: Option<Tensor<T>>,
    rows: u32,
    blocks_per_row: u32,
    idx_bits: u8,
    has_offset: bool,
    ms_used: u8,
    leftover_bf16: Option<Tensor<T>>,
    bias: Option<Tensor<T>>,
) -> (r: Result<LeechLayer<T>, LeechLayerError>)
    ensures
        ({
            let config = LeechConfig {
                packed_stream,
                beta_codebook,
                offset_codebook,
                rows,
                blocks_per_row,
                idx_bits,
                has_offset,
                ms_used,
                leftover_bf16,
                bias,
            };
            match config.fault() {
                Some(e) => r matches Err(f) && f@ == e,
                None => r matches Ok(layer) && layer@ == config,
            }
        }),
{
    LeechLayer::new(
        LeechConfig {
            packed_stream,
            beta_codebook,
            offset_codebook,
            rows,
            blocks_per_row,
            idx_bits,
            has_offset,
            ms_used,
            leftover_bf16,
            bias,
        },
    )
}

} // verus!
