//! The `.leech` LLVQ-quantized linear layer: what it is made of, what it
//! accepts, and how a forward pass over it is carried out.
//!
//! The tensors themselves live on a device; `T` is a handle to one. The layer
//! reads only their shapes and element types.

use vstd::prelude::*;

use crate::quant::parity::{build_parity_perm, parity_perm};
use crate::text::{cat, cat3, cat4, cat5, decimal, to_decimal};

verus! {

/// Element type of a tensor.
#[derive(Debug, Clone, Copy, PartialEq, Eq, Structural)]
pub enum DType {
    U8,
    U32,
    I16,
    I32,
    I64,
    BF16,
    F16,
    F32,
    F64,
    F8E4M3,
    F6E2M3,
    F6E3M2,
    F4,
    F8E8M0,
}

impl DType {
    /// How an element type prints.
    pub open spec fn text(self) -> Seq<char> {
        match self {
            DType::U8 => "U8"@,
            DType::U32 => "U32"@,
            DType::I16 => "I16"@,
            DType::I32 => "I32"@,
            DType::I64 => "I64"@,
            DType::BF16 => "BF16"@,
            DType::F16 => "F16"@,
            DType::F32 => "F32"@,
            DType::F64 => "F64"@,
            DType::F8E4M3 => "F8E4M3"@,
            DType::F6E2M3 => "F6E2M3"@,
            DType::F6E3M2 => "F6E3M2"@,
            DType::F4 => "F4"@,
            DType::F8E8M0 => "F8E8M0"@,
        }
    }

    /// How the element type prints.
    pub fn name(&self) -> (r: &'static str)
        ensures
            r@ == self.text(),
    {
        match self {
            DType::U8 => "U8",
            DType::U32 => "U32",
            DType::I16 => "I16",
            DType::I32 => "I32",
            DType::I64 => "I64",
            DType::BF16 => "BF16",
            DType::F16 => "F16",
            DType::F32 => "F32",
            DType::F64 => "F64",
            DType::F8E4M3 => "F8E4M3",
            DType::F6E2M3 => "F6E2M3",
            DType::F6E3M2 => "F6E3M2",
            DType::F4 => "F4",
            DType::F8E8M0 => "F8E8M0",
        }
    }
}

/// Where a tensor lives.
#[derive(Debug, Clone, Copy, PartialEq, Eq, Structural)]
pub enum Device {
    Cpu,
    Cuda,
    Metal,
}

/// A device tensor: a handle, and what the layer reads of it.
#[derive(Debug)]
pub struct Tensor<T> {
    pub handle: T,
    pub dims: Vec<usize>,
    pub dtype: DType,
    pub device: Device,
}

/// The parts of a `.leech` layer.
#[derive(Debug)]
pub struct LeechConfig<T> {
    /// Packed LLVQ block bit-stream (u8 device buffer). Has 8 B tail-pad.
    pub packed_stream: Tensor<T>,
    /// Per-row beta codebook (fp16, `[rows, K_beta]`).
    pub beta_codebook: Tensor<T>,
    /// Per-row offset codebook (fp16, `[rows, K_offset]`). Absent if
    /// `!has_offset`.
    pub offset_codebook: Option<Tensor<T>>,
    /// Row count of the decoded weight matrix.
    pub rows: u32,
    /// LLVQ blocks per row.
    pub blocks_per_row: u32,
    /// Per-block i_global bit width. 54 at ms=18, 48 at ms=13.
    pub idx_bits: u8,
    /// Whether each block carries a 3-bit offset codebook index.
    pub has_offset: bool,
    /// Encoder ms_used; selects the kernel template specialization.
    pub ms_used: u8,
    /// Optional bf16 leftover slab for in_features % 24 != 0 tensors.
    pub leftover_bf16: Option<Tensor<T>>,
    /// Optional bias (bf16 / fp16).
    pub bias: Option<Tensor<T>>,
}

/// What a layer refuses.
#[derive(Debug, Clone, PartialEq, Eq)]
pub enum LeechLayerError {
    OffsetInconsistent { has_offset: bool, present: bool },
    UnsupportedIdxBits(u8),
    UnsupportedMsUsed(u8),
    DequantizeNeedsCuda,
    ForwardNeedsCuda,
    DequantizeDeviceNotCuda,
    GemvDeviceNotCuda,
    BetaCodebookNotOnCuda,
    OffsetCodebookNotOnCuda,
    ActivationNotOnCuda,
    /// A tensor of another element type than the kernels read.
    UnexpectedDType { expected: DType, got: DType },
    /// A codebook of this shape, which has no second dimension.
    NoSecondDimension { shape: Vec<usize> },
    /// An activation of shape `lhs`, which has not the elements of shape `rhs`.
    ReshapeMismatch { lhs: Vec<usize>, rhs: Vec<usize> },
    NoLoraMerge,
    NoIsq,
}

/// What a layer refuses, over plain sequences.
pub enum LeechLayerErrorView {
    OffsetInconsistent { has_offset: bool, present: bool },
    UnsupportedIdxBits(u8),
    UnsupportedMsUsed(u8),
    DequantizeNeedsCuda,
    ForwardNeedsCuda,
    DequantizeDeviceNotCuda,
    GemvDeviceNotCuda,
    BetaCodebookNotOnCuda,
    OffsetCodebookNotOnCuda,
    ActivationNotOnCuda,
    /// A tensor of another element type than the kernels read.
    UnexpectedDType { expected: DType, got: DType },
    /// A codebook of this shape, which has no second dimension.
    NoSecondDimension { shape: Seq<usize> },
    /// An activation of shape `lhs`, which has not the elements of shape `rhs`.
    ReshapeMismatch { lhs: Seq<usize>, rhs: Seq<usize> },
    NoLoraMerge,
    NoIsq,
}

impl View for LeechLayerError {
    type V = LeechLayerErrorView;

    open spec fn view(&self) -> LeechLayerErrorView {
        match *self {
            LeechLayerError::OffsetInconsistent { has_offset, present } =>
                LeechLayerErrorView::OffsetInconsistent { has_offset, present },
            LeechLayerError::UnsupportedIdxBits(b) => LeechLayerErrorView::UnsupportedIdxBits(b),
            LeechLayerError::UnsupportedMsUsed(m) => LeechLayerErrorView::UnsupportedMsUsed(m),
            LeechLayerError::DequantizeNeedsCuda => LeechLayerErrorView::DequantizeNeedsCuda,
            LeechLayerError::ForwardNeedsCuda => LeechLayerErrorView::ForwardNeedsCuda,
            LeechLayerError::DequantizeDeviceNotCuda => LeechLayerErrorView::DequantizeDeviceNotCuda,
            LeechLayerError::GemvDeviceNotCuda => LeechLayerErrorView::GemvDeviceNotCuda,
            LeechLayerError::BetaCodebookNotOnCuda => LeechLayerErrorView::BetaCodebookNotOnCuda,
            LeechLayerError::OffsetCodebookNotOnCuda => LeechLayerErrorView::OffsetCodebookNotOnCuda,
            LeechLayerError::ActivationNotOnCuda => LeechLayerErrorView::ActivationNotOnCuda,
            LeechLayerError::UnexpectedDType { expected, got } =>
                LeechLayerErrorView::UnexpectedDType { expected, got },
            LeechLayerError::NoSecondDimension { shape } =>
                LeechLayerErrorView::NoSecondDimension { shape: shape@ },
            LeechLayerError::ReshapeMismatch { lhs, rhs } =>
                LeechLayerErrorView::ReshapeMismatch { lhs: lhs@, rhs: rhs@ },
            LeechLayerError::NoLoraMerge => LeechLayerErrorView::NoLoraMerge,
            LeechLayerError::NoIsq => LeechLayerErrorView::NoIsq,
        }
    }
}

/// How a `bool` prints.
pub open spec fn bool_text(b: bool) -> Seq<char> {
    if b {
        "true"@
    } else {
        "false"@
    }
}

fn bool_str(b: bool) -> (r: &'static str)
    ensures
        r@ == bool_text(b),
{
    if b {
        "true"
    } else {
        "false"
    }
}

/// How the first `n` dimensions print, separated by commas.
pub open spec fn dims_text(dims: Seq<usize>, n: int) -> Seq<char>
    decreases n,
{
    if n <= 0 {
        Seq::empty()
    } else if n == 1 {
        decimal(dims[0] as nat)
    } else {
        dims_text(dims, n - 1) + ", "@ + decimal(dims[n - 1] as nat)
    }
}

/// How a shape prints.
pub open spec fn shape_text(dims: Seq<usize>) -> Seq<char> {
    "["@ + dims_text(dims, dims.len() as int) + "]"@
}

/// How a shape prints.
fn shape_string(dims: &[usize]) -> (r: String)
    ensures
        r@ == shape_text(dims@),
{
    let mut items: String = String::new();
    let mut i: usize = 0;
    while i < dims.len()
        invariant
            i <= dims.len(),
            items@ == dims_text(dims@, i as int),
        decreases dims.len() - i,
    {
        let item: String = to_decimal(dims[i] as u64);
        items = if i == 0 {
            item
        } else {
            cat3(items.as_str(), ", ", item.as_str())
        };
        i = i + 1;
    }
    cat3("[", items.as_str(), "]")
}

impl LeechLayerErrorView {
    /// The text shown to users.
    pub open spec fn text(self) -> Seq<char> {
        match self {
            LeechLayerErrorView::OffsetInconsistent { has_offset, present } =>
                "leech: has_offset ("@ + bool_text(has_offset)
                    + ") inconsistent with offset_codebook presence ("@ + bool_text(present)
                    + ")"@,
            LeechLayerErrorView::UnsupportedIdxBits(b) =>
                "leech: unsupported idx_bits "@ + decimal(b as nat)
                    + " — kernel templates are {48, 54}"@,
            LeechLayerErrorView::UnsupportedMsUsed(m) =>
                "leech: unsupported ms_used "@ + decimal(m as nat)
                    + " — kernel templates are {13, 18}"@,
            LeechLayerErrorView::DequantizeNeedsCuda =>
                "leech: dequantize_w requires the cuda feature — CPU path not yet implemented"@,
            LeechLayerErrorView::ForwardNeedsCuda =>
                "leech: forward_raw requires the cuda feature — CPU path not yet implemented"@,
            LeechLayerErrorView::DequantizeDeviceNotCuda =>
                "LeechLayer::dequantize_w_cuda: device is not CUDA"@,
            LeechLayerErrorView::GemvDeviceNotCuda => "LeechLayer::forward_raw_gemv: not CUDA"@,
            LeechLayerErrorView::BetaCodebookNotOnCuda => "beta_codebook not on CUDA"@,
            LeechLayerErrorView::OffsetCodebookNotOnCuda => "offset_codebook not on CUDA"@,
            LeechLayerErrorView::ActivationNotOnCuda => "activation not on CUDA"@,
            LeechLayerErrorView::UnexpectedDType { expected, got } =>
                "unexpected dtype, expected: "@ + expected.text() + ", got: "@ + got.text(),
            LeechLayerErrorView::NoSecondDimension { shape } =>
                "dim: dimension index 1 out of range for shape "@ + shape_text(shape),
            LeechLayerErrorView::ReshapeMismatch { lhs, rhs } =>
                "shape mismatch in reshape, lhs: "@ + shape_text(lhs) + ", rhs: "@ + shape_text(rhs),
            LeechLayerErrorView::NoLoraMerge =>
                "LeechLayer does not support LoRA merge (use overlay block instead)."@,
            LeechLayerErrorView::NoIsq =>
                "LeechLayer does not support ISQ. .leech files are pre-quantized; re-encode offline if needed."@,
        }
    }
}

impl LeechLayerError {
    /// The text shown to users.
    pub fn message(&self) -> (r: String)
        ensures
            r@ == self@.text(),
    {
        match self {
            LeechLayerError::OffsetInconsistent { has_offset, present } => cat5(
                "leech: has_offset (",
                bool_str(*has_offset),
                ") inconsistent with offset_codebook presence (",
                bool_str(*present),
                ")",
            ),
            LeechLayerError::UnsupportedIdxBits(b) => cat3(
                "leech: unsupported idx_bits ",
                to_decimal(*b as u64).as_str(),
                " — kernel templates are {48, 54}",
            ),
            LeechLayerError::UnsupportedMsUsed(m) => cat3(
                "leech: unsupported ms_used ",
                to_decimal(*m as u64).as_str(),
                " — kernel templates are {13, 18}",
            ),
            LeechLayerError::DequantizeNeedsCuda =>
                "leech: dequantize_w requires the cuda feature — CPU path not yet implemented".to_owned(),
            LeechLayerError::ForwardNeedsCuda =>
                "leech: forward_raw requires the cuda feature — CPU path not yet implemented".to_owned(),
            LeechLayerError::DequantizeDeviceNotCuda =>
                "LeechLayer::dequantize_w_cuda: device is not CUDA".to_owned(),
            LeechLayerError::GemvDeviceNotCuda =>
                "LeechLayer::forward_raw_gemv: not CUDA".to_owned(),
            LeechLayerError::BetaCodebookNotOnCuda => "beta_codebook not on CUDA".to_owned(),
            LeechLayerError::OffsetCodebookNotOnCuda => "offset_codebook not on CUDA".to_owned(),
            LeechLayerError::ActivationNotOnCuda => "activation not on CUDA".to_owned(),
            LeechLayerError::UnexpectedDType { expected, got } => cat4(
                "unexpected dtype, expected: ",
                expected.name(),
                ", got: ",
                got.name(),
            ),
            LeechLayerError::NoSecondDimension { shape } => cat(
                "dim: dimension index 1 out of range for shape ",
                shape_string(shape.as_slice()).as_str(),
            ),
            LeechLayerError::ReshapeMismatch { lhs, rhs } => cat4(
                "shape mismatch in reshape, lhs: ",
                shape_string(lhs.as_slice()).as_str(),
                ", rhs: ",
                shape_string(rhs.as_slice()).as_str(),
            ),
            LeechLayerError::NoLoraMerge =>
                "LeechLayer does not support LoRA merge (use overlay block instead).".to_owned(),
            LeechLayerError::NoIsq =>
                "LeechLayer does not support ISQ. .leech files are pre-quantized; re-encode offline if needed.".to_owned(),
        }
    }
}

impl<T> LeechConfig<T> {
    /// What is wrong with the parts of a layer, if anything.
    pub open spec fn fault(self) -> Option<LeechLayerErrorView> {
        if self.has_offset != (self.offset_codebook is Some) {
            Some(
                LeechLayerErrorView::OffsetInconsistent {
                    has_offset: self.has_offset,
                    present: self.offset_codebook is Some,
                },
            )
        } else if self.idx_bits != 48 && self.idx_bits != 54 {
            Some(LeechLayerErrorView::UnsupportedIdxBits(self.idx_bits))
        } else if self.ms_used != 13 && self.ms_used != 18 {
            Some(LeechLayerErrorView::UnsupportedMsUsed(self.ms_used))
        } else {
            None
        }
    }

    /// Columns of the leftover slab: its last dimension.
    pub open spec fn leftover_cols(self) -> int {
        match self.leftover_bf16 {
            Some(t) => if t.dims@.len() == 0 {
                0
            } else {
                t.dims@.last() as int
            },
            None => 0,
        }
    }

    /// Columns of the weight matrix.
    pub open spec fn columns(self) -> int {
        self.blocks_per_row * 24 + self.leftover_cols()
    }
}

/// The product of the first `n` dimensions.
pub open spec fn dim_product(dims: Seq<usize>, n: int) -> int
    decreases n,
{
    if n <= 0 {
        1
    } else {
        dim_product(dims, n - 1) * dims[n - 1]
    }
}

/// All dimensions but the last.
pub open spec fn batch_dims(dims: Seq<usize>) -> Seq<usize> {
    if dims.len() == 0 {
        dims
    } else {
        dims.drop_last()
    }
}

/// Rows of an activation: the product of all its dimensions but the last, and
/// at least 1.
pub open spec fn batch_rows(dims: Seq<usize>) -> int {
    let m = dim_product(dims, dims.len() - 1);
    if m < 1 {
        1
    } else {
        m
    }
}

/// Whether the rows of an activation can be counted in a `usize`.
pub open spec fn batch_countable(dims: Seq<usize>) -> bool {
    forall|n: int| 0 <= n < dims.len() ==> #[trigger] dim_product(dims, n) <= usize::MAX
}

/// Elements of a tensor.
pub open spec fn elem_count(dims: Seq<usize>) -> int {
    dim_product(dims, dims.len() as int)
}

/// Whether the elements of a tensor can be counted in a `usize`.
pub open spec fn elems_countable(dims: Seq<usize>) -> bool {
    forall|n: int| 0 <= n <= dims.len() ==> #[trigger] dim_product(dims, n) <= usize::MAX
}

/// Rows up to which the fused kernel is used.
pub const GEMV_MAX_ROWS: usize = 8;

/// How the product with the weight matrix is computed.
#[derive(Debug, Clone, Copy, PartialEq, Eq, Structural)]
pub enum ForwardPath {
    /// The fused decode + multiply kernel.
    Gemv,
    /// Decode the whole matrix, then multiply.
    Dequantize,
}

/// The steps of a forward pass.
#[derive(Debug, Clone, Copy, PartialEq, Eq, Structural)]
pub struct ForwardPlan {
    /// Convert the activation to bf16 first.
    pub cast_activation: bool,
    /// Rows of the activation.
    pub m: usize,
    pub path: ForwardPath,
    /// Add the bias at the end.
    pub add_bias: bool,
    /// Convert the bias to bf16 before it is added.
    pub cast_bias: bool,
}

/// The decode of a whole weight matrix.
#[derive(Debug, Clone, Copy, PartialEq, Eq, Structural)]
pub struct DequantizePlan {
    pub rows: usize,
    /// Decoded columns, without the leftover slab.
    pub n_done: usize,
    /// Elements of the decoded matrix.
    pub out_elems: usize,
    pub k_beta: u32,
    pub k_offset: u32,
    /// Join the leftover slab on at the right.
    pub join_leftover: bool,
    /// Convert the leftover slab to bf16 before it is joined on.
    pub cast_leftover: bool,
}

/// A launch of the fused kernel.
#[derive(Debug)]
pub struct GemvPlan {
    /// Shape that the activation is flattened to: `[m, k_total]`.
    pub m: usize,
    pub k_total: usize,
    pub out_elems: usize,
    /// Shape of the result.
    pub out_shape: Vec<usize>,
    pub k_beta: u32,
    pub k_offset: u32,
}

/// `.leech` LLVQ-quantized linear layer.
#[derive(Debug)]
pub struct LeechLayer<T> {
    parts: LeechConfig<T>,
    dtype: DType,
    device: Device,
}

impl<T> View for LeechLayer<T> {
    type V = LeechConfig<T>;

    closed spec fn view(&self) -> LeechConfig<T> {
        self.parts
    }
}

/// A codebook's entries per row: its second dimension, cut to 32 bits.
pub open spec fn codebook_width<T>(t: Tensor<T>) -> u32 {
    t.dims@[1] as u32
}

/// The offset codebook's entries per row, 0 when there is none.
pub open spec fn offset_width<T>(t: Option<Tensor<T>>) -> u32 {
    match t {
        Some(t) => codebook_width(t),
        None => 0,
    }
}

impl<T> LeechLayer<T> {
    #[verifier::type_invariant]
    spec fn inv(self) -> bool {
        &&& self.parts.fault() is None
        &&& self.dtype == match self.parts.bias {
            Some(b) => b.dtype,
            None => DType::BF16,
        }
        &&& self.device == self.parts.packed_stream.device
    }

    /// The name of the method.
    pub fn name(&self) -> (r: &'static str)
        ensures
            r@ == "leech"@,
    {
        "leech"
    }

    pub fn isq_serde_supported(&self) -> (r: bool)
        ensures
            !r,
    {
        false
    }

    /// Puts a layer together.
    pub fn new(config: LeechConfig<T>) -> (r: Result<Self, LeechLayerError>)
        ensures
            match config.fault() {
                Some(e) => r matches Err(f) && f@ == e,
                None => r matches Ok(layer) && layer@ == config,
            },
    {
        let present: bool = config.offset_codebook.is_some();
        if config.has_offset != present {
            return Err(
                LeechLayerError::OffsetInconsistent { has_offset: config.has_offset, present },
            );
        }
        if config.idx_bits != 48 && config.idx_bits != 54 {
            return Err(LeechLayerError::UnsupportedIdxBits(config.idx_bits));
        }
        if config.ms_used != 13 && config.ms_used != 18 {
            return Err(LeechLayerError::UnsupportedMsUsed(config.ms_used));
        }
        let dtype: DType = match &config.bias {
            Some(b) => b.dtype,
            None => DType::BF16,
        };
        let device: Device = config.packed_stream.device;
        Ok(LeechLayer { parts: config, dtype, device })
    }

    /// Activations are read as bf16.
    pub fn quantized_act_type(&self) -> (r: Option<DType>)
        ensures
            r == Some(DType::BF16),
    {
        Some(DType::BF16)
    }

    /// The weight's element type (the bias's, or bf16) and its device.
    pub fn dtype_and_device(&self) -> (r: (DType, Device))
        ensures
            r.0 == match self@.bias {
                Some(b) => b.dtype,
                None => DType::BF16,
            },
            r.1 == self@.packed_stream.device,
    {
        proof {
            use_type_invariant(self);
        }
        (self.dtype, self.device)
    }

    /// LoRA deltas cannot be merged in.
    pub fn add_delta_w(&self) -> (r: Result<(), LeechLayerError>)
        ensures
            r == Err::<(), LeechLayerError>(LeechLayerError::NoLoraMerge),
    {
        Err(LeechLayerError::NoLoraMerge)
    }

    /// The weights cannot be quantized in place.
    pub fn apply_isq(&self) -> (r: Result<(), LeechLayerError>)
        ensures
            r == Err::<(), LeechLayerError>(LeechLayerError::NoIsq),
    {
        Err(LeechLayerError::NoIsq)
    }

    pub fn packed_stream(&self) -> (r: &Tensor<T>)
        ensures
            *r == self@.packed_stream,
    {
        &self.parts.packed_stream
    }

    pub fn beta_codebook(&self) -> (r: &Tensor<T>)
        ensures
            *r == self@.beta_codebook,
    {
        &self.parts.beta_codebook
    }

    pub fn offset_codebook(&self) -> (r: Option<&Tensor<T>>)
        ensures
            match self@.offset_codebook {
                Some(t) => r matches Some(s) && *s == t,
                None => r is None,
            },
            r is Some <==> self@.has_offset,
    {
        proof {
            use_type_invariant(self);
        }
        match &self.parts.offset_codebook {
            Some(t) => Some(t),
            None => None,
        }
    }

    pub fn rows(&self) -> (r: u32)
        ensures
            r == self@.rows,
    {
        self.parts.rows
    }

    pub fn blocks_per_row(&self) -> (r: u32)
        ensures
            r == self@.blocks_per_row,
    {
        self.parts.blocks_per_row
    }

    pub fn idx_bits(&self) -> (r: u8)
        ensures
            r == self@.idx_bits,
            r == 48 || r == 54,
    {
        proof {
            use_type_invariant(self);
        }
        self.parts.idx_bits
    }

    pub fn has_offset(&self) -> (r: bool)
        ensures
            r == self@.has_offset,
    {
        self.parts.has_offset
    }

    pub fn ms_used(&self) -> (r: u8)
        ensures
            r == self@.ms_used,
            r == 13 || r == 18,
    {
        proof {
            use_type_invariant(self);
        }
        self.parts.ms_used
    }

    pub fn leftover_bf16(&self) -> (r: Option<&Tensor<T>>)
        ensures
            match self@.leftover_bf16 {
                Some(t) => r matches Some(s) && *s == t,
                None => r is None,
            },
    {
        match &self.parts.leftover_bf16 {
            Some(t) => Some(t),
            None => None,
        }
    }

    pub fn bias(&self) -> (r: Option<&Tensor<T>>)
        ensures
            match self@.bias {
                Some(t) => r matches Some(s) && *s == t,
                None => r is None,
            },
    {
        match &self.parts.bias {
            Some(t) => Some(t),
            None => None,
        }
    }

    /// Total in-features represented by this weight
    /// = blocks_per_row * 24 + leftover_cols.
    pub fn in_features(&self) -> (r: usize)
        requires
            self@.columns() <= usize::MAX,
        ensures
            r == self@.columns(),
    {
        let n_done: usize = (self.parts.blocks_per_row as usize) * 24;
        let leftover_cols: usize = match &self.parts.leftover_bf16 {
            Some(t) => if t.dims.len() == 0 {
                0
            } else {
                t.dims[t.dims.len() - 1]
            },
            None => 0,
        };
        n_done + leftover_cols
    }

    /// Output features = rows.
    pub fn out_features(&self) -> (r: usize)
        ensures
            r == self@.rows,
    {
        self.parts.rows as usize
    }

    /// What keeps the kernels from reading the packed stream and the beta
    /// codebook of a layer whose device is a CUDA one, if anything.
    pub open spec fn storage_fault(parts: LeechConfig<T>) -> Option<LeechLayerErrorView> {
        let beta = parts.beta_codebook;
        if parts.packed_stream.dtype != DType::U8 {
            Some(
                LeechLayerErrorView::UnexpectedDType {
                    expected: DType::U8,
                    got: parts.packed_stream.dtype,
                },
            )
        } else if beta.device != Device::Cuda {
            Some(LeechLayerErrorView::BetaCodebookNotOnCuda)
        } else if beta.dtype != DType::F16 {
            Some(LeechLayerErrorView::UnexpectedDType { expected: DType::F16, got: beta.dtype })
        } else if beta.dims@.len() < 2 {
            Some(LeechLayerErrorView::NoSecondDimension { shape: beta.dims@ })
        } else {
            None
        }
    }

    /// What keeps the kernels from reading the offset codebook, if anything.
    pub open spec fn offset_fault(parts: LeechConfig<T>) -> Option<LeechLayerErrorView> {
        match parts.offset_codebook {
            Some(t) => if t.device != Device::Cuda {
                Some(LeechLayerErrorView::OffsetCodebookNotOnCuda)
            } else if t.dtype != DType::F16 {
                Some(LeechLayerErrorView::UnexpectedDType { expected: DType::F16, got: t.dtype })
            } else {
                None
            },
            None => None,
        }
    }

    fn check_storage(&self) -> (r: Result<(), LeechLayerError>)
        ensures
            match Self::storage_fault(self@) {
                Some(e) => r matches Err(f) && f@ == e,
                None => r is Ok,
            },
    {
        let packed: &Tensor<T> = &self.parts.packed_stream;
        let beta: &Tensor<T> = &self.parts.beta_codebook;
        if packed.dtype != DType::U8 {
            return Err(
                LeechLayerError::UnexpectedDType { expected: DType::U8, got: packed.dtype },
            );
        }
        if beta.device != Device::Cuda {
            return Err(LeechLayerError::BetaCodebookNotOnCuda);
        }
        if beta.dtype != DType::F16 {
            return Err(LeechLayerError::UnexpectedDType { expected: DType::F16, got: beta.dtype });
        }
        if beta.dims.len() < 2 {
            let shape: Vec<usize> = copy_dims(beta.dims.as_slice(), beta.dims.len());
            return Err(LeechLayerError::NoSecondDimension { shape });
        }
        Ok(())
    }

    fn check_offset(&self) -> (r: Result<(), LeechLayerError>)
        ensures
            match Self::offset_fault(self@) {
                Some(e) => r matches Err(f) && f@ == e,
                None => r is Ok,
            },
    {
        if let Some(t) = &self.parts.offset_codebook {
            if t.device != Device::Cuda {
                return Err(LeechLayerError::OffsetCodebookNotOnCuda);
            }
            if t.dtype != DType::F16 {
                return Err(
                    LeechLayerError::UnexpectedDType { expected: DType::F16, got: t.dtype },
                );
            }
        }
        Ok(())
    }

    /// What stops a decode of the whole matrix, if anything: the first fault in
    /// the order in which the layer's tensors are read.
    pub open spec fn dequantize_fault(parts: LeechConfig<T>) -> Option<LeechLayerErrorView> {
        if parts.packed_stream.device != Device::Cuda {
            Some(LeechLayerErrorView::DequantizeDeviceNotCuda)
        } else if Self::storage_fault(parts) is Some {
            Self::storage_fault(parts)
        } else {
            Self::offset_fault(parts)
        }
    }

    /// Plans the decode of the whole matrix into `[rows, blocks_per_row * 24]`
    /// bf16 cells, with the leftover slab joined on at the right.
    pub fn plan_dequantize(&self) -> (r: Result<DequantizePlan, LeechLayerError>)
        requires
            self@.packed_stream.device == Device::Cuda && Self::storage_fault(self@) is None ==> {
                &&& self@.offset_codebook matches Some(t) ==> t.dims@.len() >= 2
                &&& self@.blocks_per_row * 24 <= usize::MAX
                &&& self@.rows * (self@.blocks_per_row * 24) <= usize::MAX
            },
        ensures
            match Self::dequantize_fault(self@) {
                Some(e) => r matches Err(f) && f@ == e,
                None => r == Ok::<DequantizePlan, LeechLayerError>(
                    DequantizePlan {
                        rows: self@.rows as usize,
                        n_done: (self@.blocks_per_row * 24) as usize,
                        out_elems: (self@.rows * (self@.blocks_per_row * 24)) as usize,
                        k_beta: codebook_width(self@.beta_codebook),
                        k_offset: offset_width(self@.offset_codebook),
                        join_leftover: self@.leftover_bf16 is Some,
                        cast_leftover: self@.leftover_bf16 matches Some(t) && t.dtype
                            != DType::BF16,
                    },
                ),
            },
    {
        proof {
            use_type_invariant(self);
        }
        if self.device != Device::Cuda {
            return Err(LeechLayerError::DequantizeDeviceNotCuda);
        }
        if let Err(e) = self.check_storage() {
            return Err(e);
        }
        let k_beta: u32 = self.parts.beta_codebook.dims[1] as u32;
        let k_offset: u32 = match &self.parts.offset_codebook {
            Some(t) => t.dims[1] as u32,
            None => 0,
        };
        let n_done: usize = self.parts.blocks_per_row as usize * 24;
        let out_elems: usize = self.parts.rows as usize * n_done;
        if let Err(e) = self.check_offset() {
            return Err(e);
        }
        let (join_leftover, cast_leftover): (bool, bool) = match &self.parts.leftover_bf16 {
            Some(t) => (true, t.dtype != DType::BF16),
            None => (false, false),
        };
        Ok(
            DequantizePlan {
                rows: self.parts.rows as usize,
                n_done,
                out_elems,
                k_beta,
                k_offset,
                join_leftover,
                cast_leftover,
            },
        )
    }

    /// Plans a forward pass. Up to 8 rows (typical generation) go through the
    /// fused kernel, which cannot handle leftover columns; more rows (prefill,
    /// batches) decode the matrix once and multiply.
    pub fn plan_forward(&self, a_dims: &[usize], a_dtype: DType) -> (r: ForwardPlan)
        requires
            batch_countable(a_dims@),
        ensures
            r == (ForwardPlan {
                cast_activation: a_dtype != DType::BF16,
                m: batch_rows(a_dims@) as usize,
                path: if self@.leftover_bf16 is None && batch_rows(a_dims@) <= GEMV_MAX_ROWS {
                    ForwardPath::Gemv
                } else {
                    ForwardPath::Dequantize
                },
                add_bias: self@.bias is Some,
                cast_bias: self@.bias matches Some(t) && t.dtype != DType::BF16,
            }),
            batch_rows(a_dims@) <= usize::MAX,
            r.path == ForwardPath::Gemv <==> r.m <= 8 && self@.leftover_bf16 is None,
            a_dims@.len() > 0 && elem_count(a_dims@.drop_last()) > 0 ==> r.m == elem_count(
                a_dims@.drop_last(),
            ),
    {
        proof {
            if a_dims@.len() > 0 {
                assert(a_dims@.drop_last().push(a_dims@.last()) =~= a_dims@);
                all_but_the_last_dimension_are_rows(a_dims@.drop_last(), a_dims@.last());
            }
        }
        let m: usize = count_rows(a_dims);
        let supports_gemv: bool = self.parts.leftover_bf16.is_none() && m <= GEMV_MAX_ROWS;
        let path: ForwardPath = if supports_gemv {
            ForwardPath::Gemv
        } else {
            ForwardPath::Dequantize
        };
        let (add_bias, cast_bias): (bool, bool) = match &self.parts.bias {
            Some(t) => (true, t.dtype != DType::BF16),
            None => (false, false),
        };
        ForwardPlan { cast_activation: a_dtype != DType::BF16, m, path, add_bias, cast_bias }
    }

    /// What stops a launch of the fused kernel on a bf16 activation, if
    /// anything: the first fault in the order in which the launch reads things.
    pub open spec fn gemv_fault(
        parts: LeechConfig<T>,
        m: usize,
        a_dims: Seq<usize>,
        a_device: Device,
    ) -> Option<LeechLayerErrorView> {
        let k_total = parts.blocks_per_row * 24;
        if parts.packed_stream.device != Device::Cuda {
            Some(LeechLayerErrorView::GemvDeviceNotCuda)
        } else if elem_count(a_dims) != m * k_total {
            Some(
                LeechLayerErrorView::ReshapeMismatch {
                    lhs: a_dims,
                    rhs: seq![m, k_total as usize],
                },
            )
        } else if a_device != Device::Cuda {
            Some(LeechLayerErrorView::ActivationNotOnCuda)
        } else if Self::storage_fault(parts) is Some {
            Self::storage_fault(parts)
        } else {
            Self::offset_fault(parts)
        }
    }

    /// Plans a launch of the fused kernel on a bf16 activation of shape
    /// `a_dims`, taken as `m` rows. The result has the activation's shape with
    /// its last dimension replaced by the layer's rows.
    pub fn plan_gemv(&self, m: usize, a_dims: &[usize], a_device: Device) -> (r: Result<
        GemvPlan,
        LeechLayerError,
    >)
        requires
            self@.packed_stream.device == Device::Cuda ==> {
                &&& self@.blocks_per_row * 24 <= usize::MAX
                &&& m * (self@.blocks_per_row * 24) <= usize::MAX
                &&& elems_countable(a_dims@)
            },
            self@.packed_stream.device == Device::Cuda && elem_count(a_dims@) == m * (
            self@.blocks_per_row * 24) && a_device == Device::Cuda && Self::storage_fault(self@)
                is None ==> {
                &&& self@.offset_codebook matches Some(t) ==> t.dims@.len() >= 2
                &&& m * self@.rows <= usize::MAX
            },
        ensures
            match Self::gemv_fault(self@, m, a_dims@, a_device) {
                Some(e) => r matches Err(f) && f@ == e,
                None => r matches Ok(p) && {
                    &&& p.m == m
                    &&& p.k_total == self@.blocks_per_row * 24
                    &&& p.out_elems == m * self@.rows
                    &&& p.out_shape@ == batch_dims(a_dims@).push(self@.rows as usize)
                    &&& a_dims@.len() > 0 ==> p.out_shape@ == a_dims@.update(
                        a_dims@.len() - 1,
                        self@.rows as usize,
                    )
                    &&& p.k_beta == codebook_width(self@.beta_codebook)
                    &&& p.k_offset == offset_width(self@.offset_codebook)
                },
            },
    {
        proof {
            use_type_invariant(self);
        }
        if self.device != Device::Cuda {
            return Err(LeechLayerError::GemvDeviceNotCuda);
        }
        let k_total: usize = self.parts.blocks_per_row as usize * 24;
        let elems: usize = multiply_dims(a_dims, a_dims.len());
        if elems != m * k_total {
            let lhs: Vec<usize> = copy_dims(a_dims, a_dims.len());
            let rhs: Vec<usize> = vec![m, k_total];
            assert(rhs@ =~= seq![m, k_total]);
            return Err(LeechLayerError::ReshapeMismatch { lhs, rhs });
        }
        if a_device != Device::Cuda {
            return Err(LeechLayerError::ActivationNotOnCuda);
        }
        if let Err(e) = self.check_storage() {
            return Err(e);
        }
        let k_beta: u32 = self.parts.beta_codebook.dims[1] as u32;
        let k_offset: u32 = match &self.parts.offset_codebook {
            Some(t) => t.dims[1] as u32,
            None => 0,
        };
        let out_elems: usize = m * self.parts.rows as usize;
        if let Err(e) = self.check_offset() {
            return Err(e);
        }
        let batch: usize = if a_dims.len() == 0 {
            0
        } else {
            a_dims.len() - 1
        };
        let mut out_shape: Vec<usize> = copy_dims(a_dims, batch);
        assert(out_shape@ =~= batch_dims(a_dims@));
        out_shape.push(self.parts.rows as usize);
        assert(a_dims@.len() > 0 ==> out_shape@ =~= a_dims@.update(
            a_dims@.len() - 1,
            self.parts.rows as usize,
        ));
        Ok(GemvPlan { m, k_total, out_elems, out_shape, k_beta, k_offset })
    }

    /// The order in which the fused kernel goes through the blocks, from the
    /// blocks' parities: each row's even blocks first. `None` stands for an
    /// unsorted pass: on a device that is not a CUDA one, or where the parities
    /// could not be had.
    pub fn parity_order(&self, parity: Option<&[u8]>) -> (r: Option<Vec<u16>>)
        requires
            self@.packed_stream.device == Device::Cuda ==> (parity matches Some(p) ==> self@.rows
                * self@.blocks_per_row <= p@.len()),
        ensures
            match parity {
                Some(p) if self@.packed_stream.device == Device::Cuda => r matches Some(perm)
                    && perm@ == parity_perm(
                    p@,
                    self@.blocks_per_row as int,
                    self@.rows as int,
                ),
                _ => r is None,
            },
    {
        proof {
            use_type_invariant(self);
        }
        if self.device != Device::Cuda {
            return None;
        }
        match parity {
            Some(p) => Some(
                build_parity_perm(p, self.parts.rows as usize, self.parts.blocks_per_row as usize),
            ),
            None => None,
        }
    }
}

proof fn lemma_dim_product_prefix(a: Seq<usize>, b: Seq<usize>, n: int)
    requires
        n <= a.len(),
        n <= b.len(),
        forall|i: int| 0 <= i < n ==> a[i] == b[i],
    ensures
        dim_product(a, n) == dim_product(b, n),
    decreases n,
{
    if n > 0 {
        lemma_dim_product_prefix(a, b, n - 1);
    }
}

proof fn lemma_dim_product_nonnegative(dims: Seq<usize>, n: int)
    ensures
        dim_product(dims, n) >= 0,
    decreases n,
{
    if n > 0 {
        lemma_dim_product_nonnegative(dims, n - 1);
        assert(dim_product(dims, n - 1) * dims[n - 1] >= 0) by (nonlinear_arith)
            requires
                dim_product(dims, n - 1) >= 0,
                dims[n - 1] >= 0,
        ;
    }
}

/// Every dimension multiplies a tensor's elements, and a tensor without
/// dimensions has one.
pub proof fn dimensions_multiply(dims: Seq<usize>, last: usize)
    ensures
        elem_count(Seq::empty()) == 1,
        elem_count(dims.push(last)) == elem_count(dims) * last,
        elem_count(dims) >= 0,
{
    let n = dims.len() as int;
    lemma_dim_product_prefix(dims.push(last), dims, n);
    lemma_dim_product_nonnegative(dims, n);
    assert(elem_count(Seq::<usize>::empty()) == dim_product(Seq::<usize>::empty(), 0));
    assert(elem_count(dims.push(last)) == dim_product(dims.push(last), n) * last);
}

/// An activation's last dimension is its row length, and all the others count
/// its rows: they are its batch shape, their elements are its rows, and rows
/// times row length are its elements. Where they count none there is one row
/// all the same, as for an activation without dimensions.
pub proof fn all_but_the_last_dimension_are_rows(batch: Seq<usize>, last: usize)
    ensures
        batch_dims(batch.push(last)) == batch,
        elem_count(batch) > 0 ==> {
            &&& batch_rows(batch.push(last)) == elem_count(batch)
            &&& batch_rows(batch.push(last)) * last == elem_count(batch.push(last))
        },
        elem_count(batch) == 0 ==> batch_rows(batch.push(last)) == 1,
        batch_dims(Seq::empty()) == Seq::<usize>::empty(),
        batch_rows(Seq::empty()) == 1,
{
    dimensions_multiply(batch, last);
    let n = batch.len() as int;
    lemma_dim_product_prefix(batch.push(last), batch, n);
    assert(batch.push(last).drop_last() =~= batch);
    assert(dim_product(Seq::<usize>::empty(), -1) == 1);
}

/// The rows of an activation do not depend on its row length, on the order of
/// two batch dimensions, or on batch dimensions of one.
pub proof fn rows_ignore_unit_dimensions(front: Seq<usize>, a: usize, b: usize, last: usize)
    ensures
        batch_rows(front.push(a).push(last)) == batch_rows(front.push(a).push(b)),
        batch_rows(front.push(a).push(b).push(last)) == batch_rows(front.push(b).push(a).push(last)),
        batch_rows(front.push(1).push(last)) == batch_rows(front.push(last)),
{
    all_but_the_last_dimension_are_rows(front.push(a), last);
    all_but_the_last_dimension_are_rows(front.push(a), b);
    all_but_the_last_dimension_are_rows(front.push(a).push(b), last);
    all_but_the_last_dimension_are_rows(front.push(b).push(a), last);
    all_but_the_last_dimension_are_rows(front.push(1), last);
    all_but_the_last_dimension_are_rows(front, last);
    dimensions_multiply(front.push(a).push(b), last);
    dimensions_multiply(front.push(b).push(a), last);
    dimensions_multiply(front.push(a), b);
    dimensions_multiply(front.push(b), a);
    dimensions_multiply(front, a);
    dimensions_multiply(front, b);
    dimensions_multiply(front, 1);
    let n = elem_count(front);
    assert(n * a * b == n * b * a) by (nonlinear_arith);
}

/// The columns of a weight matrix are 24 for each block of a row, and the
/// columns of the leftover slab, which are its last dimension.
pub proof fn columns_are_blocks_and_leftover<T>(parts: LeechConfig<T>, front: Seq<usize>, cols: usize)
    ensures
        parts.leftover_bf16 is None ==> parts.columns() == 24 * parts.blocks_per_row,
        parts.leftover_bf16 matches Some(t) && t.dims@ == front.push(cols) ==> parts.columns() == 24
            * parts.blocks_per_row + cols,
        parts.leftover_bf16 matches Some(t) && t.dims@.len() == 0 ==> parts.columns() == 24
            * parts.blocks_per_row,
{
}

/// A layer is put together exactly when it carries an offset codebook just
/// where it says so and there is a kernel for its index width and its shells;
/// otherwise the first of these that is wrong is what is refused.
pub proof fn config_refusals_are_true<T>(parts: LeechConfig<T>)
    ensures
        parts.fault() is None <==> {
            &&& parts.has_offset <==> parts.offset_codebook is Some
            &&& parts.idx_bits == 48 || parts.idx_bits == 54
            &&& parts.ms_used == 13 || parts.ms_used == 18
        },
        match parts.fault() {
            Some(LeechLayerErrorView::OffsetInconsistent { has_offset, present }) => {
                &&& has_offset != present
                &&& has_offset == parts.has_offset
                &&& present == (parts.offset_codebook is Some)
            },
            Some(LeechLayerErrorView::UnsupportedIdxBits(bits)) => {
                &&& bits == parts.idx_bits && bits != 48 && bits != 54
                &&& parts.has_offset <==> parts.offset_codebook is Some
            },
            Some(LeechLayerErrorView::UnsupportedMsUsed(ms)) => {
                &&& ms == parts.ms_used && ms != 13 && ms != 18
                &&& parts.idx_bits == 48 || parts.idx_bits == 54
                &&& parts.has_offset <==> parts.offset_codebook is Some
            },
            Some(_) => false,
            None => true,
        },
{
}

/// The kernels can read a layer's tensors exactly when the stream is one of
/// bytes and the codebooks are half floats on a CUDA device, the beta codebook
/// with entries per row; the first thing that is wrong is what is refused: the
/// stream, then of a codebook its device, its element type and its shape.
pub proof fn tensor_refusals_are_true<T>(parts: LeechConfig<T>)
    ensures
        LeechLayer::storage_fault(parts) is None <==> {
            &&& parts.packed_stream.dtype == DType::U8
            &&& parts.beta_codebook.device == Device::Cuda
            &&& parts.beta_codebook.dtype == DType::F16
            &&& parts.beta_codebook.dims@.len() >= 2
        },
        match LeechLayer::storage_fault(parts) {
            Some(LeechLayerErrorView::BetaCodebookNotOnCuda) => {
                &&& parts.packed_stream.dtype == DType::U8
                &&& parts.beta_codebook.device != Device::Cuda
            },
            Some(LeechLayerErrorView::NoSecondDimension { shape }) => {
                &&& parts.packed_stream.dtype == DType::U8
                &&& parts.beta_codebook.device == Device::Cuda
                &&& parts.beta_codebook.dtype == DType::F16
                &&& shape == parts.beta_codebook.dims@ && shape.len() < 2
            },
            Some(LeechLayerErrorView::UnexpectedDType { expected, got }) => got != expected && {
                ||| expected == DType::U8 && got == parts.packed_stream.dtype
                ||| {
                    &&& parts.packed_stream.dtype == DType::U8
                    &&& parts.beta_codebook.device == Device::Cuda
                    &&& expected == DType::F16 && got == parts.beta_codebook.dtype
                }
            },
            Some(_) => false,
            None => true,
        },
        LeechLayer::offset_fault(parts) is None <==> (parts.offset_codebook matches Some(t) ==> {
            &&& t.device == Device::Cuda
            &&& t.dtype == DType::F16
        }),
        match LeechLayer::offset_fault(parts) {
            Some(LeechLayerErrorView::OffsetCodebookNotOnCuda) => parts.offset_codebook matches Some(
                t,
            ) && t.device != Device::Cuda,
            Some(LeechLayerErrorView::UnexpectedDType { expected, got }) => got != expected
                && expected == DType::F16 && (parts.offset_codebook matches Some(t) && got
                == t.dtype && t.device == Device::Cuda),
            Some(_) => false,
            None => true,
        },
{
}

/// A decode of the whole matrix is planned exactly when the layer is on a CUDA
/// device and its tensors can be read; what is refused is the device, else the
/// first tensor that cannot be.
pub proof fn dequantize_refusals_are_true<T>(parts: LeechConfig<T>)
    ensures
        LeechLayer::dequantize_fault(parts) is None <==> {
            &&& parts.packed_stream.device == Device::Cuda
            &&& LeechLayer::storage_fault(parts) is None
            &&& LeechLayer::offset_fault(parts) is None
        },
        match LeechLayer::dequantize_fault(parts) {
            Some(LeechLayerErrorView::DequantizeDeviceNotCuda) => parts.packed_stream.device
                != Device::Cuda,
            Some(e) => parts.packed_stream.device == Device::Cuda && {
                ||| LeechLayer::storage_fault(parts) == Some(e)
                ||| LeechLayer::storage_fault(parts) is None && LeechLayer::offset_fault(parts)
                    == Some(e)
            },
            None => true,
        },
{
}

/// A launch of the fused kernel is planned exactly when the layer and the
/// activation are on a CUDA device, the activation has `m` rows of the decoded
/// columns, and the layer's tensors can be read; what is refused is the layer's
/// device, else the activation's shape, else its device, else the first tensor
/// that cannot be read.
pub proof fn gemv_refusals_are_true<T>(
    parts: LeechConfig<T>,
    m: usize,
    a_dims: Seq<usize>,
    a_device: Device,
)
    requires
        parts.blocks_per_row * 24 <= usize::MAX,
    ensures
        LeechLayer::gemv_fault(parts, m, a_dims, a_device) is None <==> {
            &&& parts.packed_stream.device == Device::Cuda
            &&& a_device == Device::Cuda
            &&& elem_count(a_dims) == m * (24 * parts.blocks_per_row)
            &&& LeechLayer::storage_fault(parts) is None
            &&& LeechLayer::offset_fault(parts) is None
        },
        match LeechLayer::gemv_fault(parts, m, a_dims, a_device) {
            Some(LeechLayerErrorView::GemvDeviceNotCuda) => parts.packed_stream.device
                != Device::Cuda,
            Some(LeechLayerErrorView::ReshapeMismatch { lhs, rhs }) => {
                &&& parts.packed_stream.device == Device::Cuda
                &&& lhs == a_dims
                &&& rhs.len() == 2 && rhs[0] == m && rhs[1] == 24 * parts.blocks_per_row
                &&& elem_count(lhs) != rhs[0] * rhs[1]
            },
            Some(LeechLayerErrorView::ActivationNotOnCuda) => {
                &&& parts.packed_stream.device == Device::Cuda
                &&& elem_count(a_dims) == m * (24 * parts.blocks_per_row)
                &&& a_device != Device::Cuda
            },
            Some(e) => {
                &&& parts.packed_stream.device == Device::Cuda
                &&& elem_count(a_dims) == m * (24 * parts.blocks_per_row)
                &&& a_device == Device::Cuda
                &&& {
                    ||| LeechLayer::storage_fault(parts) == Some(e)
                    ||| LeechLayer::storage_fault(parts) is None && LeechLayer::offset_fault(parts)
                        == Some(e)
                }
            },
            None => true,
        },
{
}

/// A codebook of shape `[rows, width]` has `width` entries per row, and a layer
/// without an offset codebook has none of that.
pub proof fn codebook_width_is_second_dimension<T>(
    codebook: Tensor<T>,
    rows: usize,
    width: u32,
    rest: Seq<usize>,
)
    requires
        codebook.dims@ == seq![rows, width as usize] + rest,
    ensures
        codebook_width(codebook) == width,
        offset_width(Some(codebook)) == width,
        offset_width(None::<Tensor<T>>) == 0,
{
    assert(codebook.dims@[1] == width as usize);
}

/// The result of a launch that is planned has as many elements as its shape
/// says; provided that the decoded matrix has columns, or no rows, or that no
/// batch dimension of the activation is 0.
pub proof fn gemv_shape_holds_result(a_dims: Seq<usize>, k_total: int, rows: usize)
    requires
        elem_count(a_dims) == batch_rows(a_dims) * k_total,
        k_total > 0 || rows == 0 || dim_product(a_dims, a_dims.len() - 1) > 0,
    ensures
        elem_count(batch_dims(a_dims).push(rows)) == batch_rows(a_dims) * rows,
{
    let shape = batch_dims(a_dims).push(rows);
    let n = shape.len() - 1;
    dimensions_multiply(batch_dims(a_dims), rows);
    if a_dims.len() > 0 {
        lemma_dim_product_prefix(shape, a_dims, n);
        lemma_dim_product_nonnegative(a_dims, n);
        let batch = batch_dims(a_dims);
        let last = a_dims.last();
        assert(batch.push(last) =~= a_dims);
        dimensions_multiply(batch, last);
        all_but_the_last_dimension_are_rows(batch, last);
        lemma_dim_product_prefix(a_dims, batch, n);
        if elem_count(batch) == 0 {
            assert(0 * last == 0);
            assert(rows == 0);
        }
    } else {
        assert(batch_dims(a_dims) =~= Seq::empty());
    }
}

/// The first `n` dimensions.
fn copy_dims(dims: &[usize], n: usize) -> (r: Vec<usize>)
    requires
        n <= dims.len(),
    ensures
        r@ == dims@.subrange(0, n as int),
        n == dims.len() ==> r@ == dims@,
{
    let mut r: Vec<usize> = Vec::new();
    let mut i: usize = 0;
    while i < n
        invariant
            i <= n <= dims.len(),
            r@ == dims@.subrange(0, i as int),
        decreases n - i,
    {
        r.push(dims[i]);
        assert(dims@.subrange(0, i + 1) =~= dims@.subrange(0, i as int).push(dims@[i as int]));
        i = i + 1;
    }
    assert(dims@.subrange(0, dims@.len() as int) =~= dims@);
    r
}

/// The product of the first `n` dimensions.
fn multiply_dims(dims: &[usize], n: usize) -> (r: usize)
    requires
        n <= dims.len(),
        forall|k: int| 0 <= k <= n ==> #[trigger] dim_product(dims@, k) <= usize::MAX,
    ensures
        r == dim_product(dims@, n as int),
{
    let mut r: usize = 1;
    let mut i: usize = 0;
    while i < n
        invariant
            i <= n <= dims.len(),
            forall|k: int| 0 <= k <= n ==> #[trigger] dim_product(dims@, k) <= usize::MAX,
            r == dim_product(dims@, i as int),
        decreases n - i,
    {
        assert(dim_product(dims@, i + 1) == r * dims@[i as int]);
        r = r * dims[i];
        i = i + 1;
    }
    r
}

/// Rows of an activation: the product of all its dimensions but the last, and
/// at least 1.
fn count_rows(dims: &[usize]) -> (m: usize)
    requires
        batch_countable(dims@),
    ensures
        m == batch_rows(dims@),
{
    let m: usize = if dims.len() == 0 {
        1
    } else {
        multiply_dims(dims, dims.len() - 1)
    };
    if m < 1 {
        1
    } else {
        m
    }
}

} // verus!
