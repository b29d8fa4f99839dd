//! Layer checks, launch plans and index arrays.

use mistralrs_leech::quant::bit_extract::{batch_extract, v0_per_bit_loop};
use mistralrs_leech::quant::leech_cpu;
use mistralrs_leech::quant::leech_cuda::{check_decode_v_int, LeechDecodeError};
use mistralrs_leech::quant::leech_layer::{
    DType, Device, ForwardPath, LeechConfig, LeechLayer, LeechLayerError, Tensor,
};
use mistralrs_leech::quant::leech_linear::{
    leech_linear, leech_linear_from_tensors, QuantizedConfig,
};
use mistralrs_leech::quant::leech_q24_cpu;
use mistralrs_leech::quant::leech_q24_cuda::{
    check_kernel_params, compute_substream_bit_offsets, compute_tile_bit_offsets,
    plan_init_tables, DeviceTables, LeechQ24DecodeError,
};
use mistralrs_leech::quant::parity::build_parity_perm;

/// Minimal xorshift64* RNG so this test has no external deps.
struct XorShift64(u64);

impl XorShift64 {
    fn new(seed: u64) -> Self {
        // Avoid zero state.
        Self(if seed == 0 { 0x9E3779B97F4A7C15 } else { seed })
    }
    fn next_u64(&mut self) -> u64 {
        let mut x = self.0;
        x ^= x << 13;
        x ^= x >> 7;
        x ^= x << 17;
        self.0 = x;
        x.wrapping_mul(0x2545F4914F6CDD1D)
    }
    fn gen_range_u32(&mut self, lo: u32, hi_inclusive: u32) -> u32 {
        let span = (hi_inclusive - lo + 1) as u64;
        ((self.next_u64() % span) as u32) + lo
    }
    fn gen_range_u64(&mut self, lo: u64, hi_inclusive: u64) -> u64 {
        let span = hi_inclusive - lo + 1;
        (self.next_u64() % span) + lo
    }
}

#[test]
fn oracle_3ab_nb3() {
    //   bitstream = [0x3AB], bit_off=0, nb_left=10, nb=3
    //   bits = positions [7, 8, 9] of 0b 11_1010_1011 = 0b111 = 7
    let bitstream: &[u64] = &[0x3AB];
    let v0 = v0_per_bit_loop(bitstream, 0, 10, 3);
    let bx = batch_extract(bitstream, 0, 10, 3);
    assert_eq!(v0, 7, "v0 oracle: 0x3AB / nb_left=10 / nb=3 must be 7");
    assert_eq!(bx, 7, "batch oracle: 0x3AB / nb_left=10 / nb=3 must be 7");
    assert_eq!(v0, bx);
}

#[test]
fn cross_boundary_at_word_seam() {
    // Construct a bitstream where the next 8 bits begin at absolute
    // position 60 — straddling the 64-bit word boundary (bits 60..67).
    // Low word bits 60..63 = 0b1011, high word bits 0..3 = 0b1101.
    // Whole 8-bit slab packed LSB-first = 0b1101_1011 = 0xDB.
    let mut bitstream = [0u64; 2];
    bitstream[0] = 0b1011u64 << 60;
    bitstream[1] = 0b1101u64;
    // Frame as nb_left=68, nb=8 so low_pos = 0 + 68 - 8 = 60 (straddle).
    let v0 = v0_per_bit_loop(&bitstream, 0, 68, 8);
    let bx = batch_extract(&bitstream, 0, 68, 8);
    assert_eq!(v0, 0xDB);
    assert_eq!(bx, 0xDB);
}

#[test]
fn nb_eq_1_is_lsb_of_top_position() {
    // For nb=1, bits_val is just the bit at absolute position
    // (bit_off + nb_left - 1).
    let bitstream: &[u64] = &[0xAA55_AA55_AA55_AA55u64, 0x0123_4567_89AB_CDEFu64];
    for nb_left in 1..=128i32 {
        for bit_off in [0u64, 1, 7, 32, 63, 64, 65, 100] {
            // Skip out-of-range frames.
            if (bit_off + nb_left as u64) > 128 {
                continue;
            }
            let v0 = v0_per_bit_loop(bitstream, bit_off, nb_left, 1);
            let bx = batch_extract(bitstream, bit_off, nb_left, 1);
            assert_eq!(v0, bx, "mismatch at nb_left={} bit_off={}", nb_left, bit_off);
        }
    }
}

#[test]
fn random_million_triples_match_v0() {
    // Bitstream: 64 u64 words = 4096 bits. Enough to exercise mid- and
    // end-of-buffer accesses without huge memory traffic. Random content.
    let mut rng = XorShift64::new(0xC0FFEE_BABE_CAFEu64);
    const N_WORDS: usize = 64;
    const N_BITS: u64 = (N_WORDS as u64) * 64;
    let mut bitstream = [0u64; N_WORDS];
    for w in bitstream.iter_mut() {
        *w = rng.next_u64();
    }

    let n_iters = 1_000_000u32;
    let mut straddle_count = 0u32;
    for _ in 0..n_iters {
        let nb: u32 = rng.gen_range_u32(1, 11);
        // nb_left ≥ nb, bit_off + nb_left ≤ N_BITS so the high bit
        // (bit_off + nb_left - 1) is in range. low_pos = bit_off + nb_left - nb
        // is ≥ bit_off ≥ 0, so always valid.
        let max_nb_left = N_BITS - 1; // leave room for bit_off=0
        let nb_left = rng.gen_range_u64(nb as u64, max_nb_left.min(256)) as i32;
        let max_bit_off = N_BITS - (nb_left as u64);
        let bit_off = rng.gen_range_u64(0, max_bit_off);

        let v0 = v0_per_bit_loop(&bitstream, bit_off, nb_left, nb);
        let bx = batch_extract(&bitstream, bit_off, nb_left, nb);
        if v0 != bx {
            panic!(
                "mismatch: bit_off={} nb_left={} nb={} v0={:#x} bx={:#x}",
                bit_off, nb_left, nb, v0, bx
            );
        }

        // Count straddles to confirm the test exercises the two-word path.
        let low_pos = bit_off + (nb_left as u64) - (nb as u64);
        if (low_pos & 63) as u32 + nb > 64 {
            straddle_count += 1;
        }
    }

    // ~nb/64 of triples should straddle on average; for nb ∈ [1,11] mean
    // is roughly 5% — assert at least a few thousand to confirm coverage.
    assert!(
        straddle_count > 5_000,
        "expected substantial cross-word coverage, got {}",
        straddle_count
    );
}

#[test]
fn widest_window() {
    let words = [0x0123_4567_89AB_CDEFu64, 0xFEDC_BA98_7654_3210];
    assert_eq!(batch_extract(&words, 0, 32, 32), 0x89AB_CDEF);
    assert_eq!(batch_extract(&words, 16, 64, 32), 0x3210_0123);
    assert_eq!(v0_per_bit_loop(&words, 16, 64, 32), 0x3210_0123);
    // Of more bits, the low 32 are kept.
    assert_eq!(batch_extract(&words, 0, 63, 63), 0x89AB_CDEF);
    assert_eq!(batch_extract(&words, 4, 60, 40), 0x2345_6789);
    assert_eq!(v0_per_bit_loop(&words, 4, 60, 40), batch_extract(&words, 4, 60, 40));
    assert_eq!(v0_per_bit_loop(&words, 0, 128, 100), batch_extract(&words, 28, 32, 32));
}

#[test]
fn empty_window() {
    let words = [u64::MAX, u64::MAX];
    for nb_left in [0, 1, 64, 127] {
        assert_eq!(v0_per_bit_loop(&words, 0, nb_left, 0), 0);
        assert_eq!(batch_extract(&words, 0, nb_left, 0), 0);
    }
    // Bit by bit, nothing is read at all.
    assert_eq!(v0_per_bit_loop(&words, 0, 128, 0), 0);
    assert_eq!(v0_per_bit_loop(&[], u64::MAX, -1, 0), 0);
}

#[test]
fn window_below_the_tile() {
    let words = [0x0123_4567_89AB_CDEFu64];
    assert_eq!(batch_extract(&words, 16, 8, 16), 0xABCD);
}

#[test]
fn cpu_builds_refuse_to_decode() {
    assert_eq!(leech_cpu::init_tables(), Err(leech_cpu::LeechDecodeError::CudaRequired));
    let mut out = [5i8; 24];
    assert_eq!(
        leech_cpu::leech_decode_v_int(&[0u8; 16], &mut out, 1, 54, true),
        Err(leech_cpu::LeechDecodeError::CudaRequired)
    );
    assert_eq!(out, [5i8; 24]);
    assert_eq!(
        leech_cpu::LeechDecodeError::CudaRequired.message(),
        ".leech decode requires the `cuda` feature; rebuild with `--features cuda`"
    );
    assert_eq!(
        leech_q24_cpu::init_tables(&[], 0),
        Err(leech_q24_cpu::LeechQ24DecodeError::CpuNotImplemented)
    );
    let refused = Err(leech_q24_cpu::LeechQ24DecodeError::CpuNotImplemented);
    assert_eq!(leech_q24_cpu::leech_q24_decode_v_int(1, 1, -3, 256), refused);
    assert_eq!(leech_q24_cpu::leech_q24_gemv_bf16(1, 1, 1, 1, 8, 8, -3, 256, true), refused);
    assert_eq!(
        leech_q24_cpu::leech_q24_gemv_bf16_warpcoop(1, 1, 1, 1, 8, 8, -3, 256, false),
        refused
    );
    assert_eq!(
        leech_q24_cpu::LeechQ24DecodeError::CpuNotImplemented.message(),
        "Q24-tANS CPU decoder is not provided by this crate — \
         build with `--features cuda` or use the Python reference in \
         production/packer/q24_tans/core/codec.py"
    );
    assert_eq!(leech_q24_cpu::compute_tile_bit_offsets(&[2, 1]), vec![0, 2]);
}

#[test]
fn decode_arguments() {
    // 2 blocks of 60 bits: 15 bytes and an 8-byte pad.
    assert_eq!(check_decode_v_int(23, 48, 2, 54, true), Ok(()));
    let e = check_decode_v_int(23, 47, 2, 54, true).unwrap_err();
    assert_eq!(e, LeechDecodeError::OutputBufferTooSmall { needed: 48, got: 47 });
    assert_eq!(e.message(), "out_v_int too small: need 48 bytes, got 47");
    let e = check_decode_v_int(22, 48, 2, 54, true).unwrap_err();
    assert_eq!(e, LeechDecodeError::PackedStreamTooShort { needed: 23, got: 22 });
    assert_eq!(
        e.message(),
        "packed_stream too short: need ≥ 23 bytes (incl. 8B tail-pad), got 22"
    );
    assert_eq!(check_decode_v_int(21, 48, 2, 48, false), Ok(()));
    let e = check_decode_v_int(1000, 48, 2, 50, false).unwrap_err();
    assert_eq!(e, LeechDecodeError::UnsupportedIdxBits(50));
    assert_eq!(
        e.message(),
        "unsupported idx_bits 50: kernel templates exist for {48, 54} only"
    );
    assert_eq!(check_decode_v_int(8, 0, 0, 54, true), Ok(()));
}

#[test]
fn tile_offsets_are_prefix_sums() {
    assert_eq!(compute_tile_bit_offsets(&[]), Vec::<u64>::new());
    assert_eq!(compute_tile_bit_offsets(&[7]), vec![0]);
    assert_eq!(compute_tile_bit_offsets(&[3, 0, 65535, 1]), vec![0, 3, 3, 65538]);
}

#[test]
fn substream_offsets_follow_the_tiles() {
    let tiles = [3u16, 9, 4];
    assert_eq!(
        compute_substream_bit_offsets(&tiles, &tiles, 1),
        compute_tile_bit_offsets(&tiles)
    );
    // Two substreams per tile.
    assert_eq!(
        compute_substream_bit_offsets(&[10, 6], &[4, 6, 1, 5], 2),
        vec![0, 4, 10, 11]
    );
    // Tiles may be longer than their substreams together.
    assert_eq!(
        compute_substream_bit_offsets(&[16, 6], &[4, 6, 1, 5], 2),
        vec![0, 4, 16, 17]
    );
    assert!(compute_substream_bit_offsets(&[], &[], 4).is_empty());
}

#[test]
fn q24_launch_checks() {
    assert_eq!(check_kernel_params(3, 32), Ok(()));
    assert_eq!(check_kernel_params(4, 32), Ok(()));
    let e = check_kernel_params(5, 16).unwrap_err();
    assert_eq!(e, LeechQ24DecodeError::UnsupportedTileSize(16));
    assert_eq!(e.message(), "unsupported tile_size 16: production kernel hard-codes 32");
    let e = check_kernel_params(-1, 32).unwrap_err();
    assert_eq!(e, LeechQ24DecodeError::UnsupportedWOffset(-1));
    assert_eq!(
        e.message(),
        "unsupported w_offset -1: ms=13 → 3, ms=18 → 4 are the only supported values"
    );
    assert_eq!(
        check_kernel_params(3, i32::MIN).unwrap_err().message(),
        "unsupported tile_size -2147483648: production kernel hard-codes 32"
    );
}

#[test]
fn q24_tables_are_copied_once_per_symbol_set() {
    assert_eq!(plan_init_tables(4096, 0, None), Ok(true));
    assert_eq!(plan_init_tables(4096, 0, Some(0)), Ok(false));
    assert_eq!(plan_init_tables(4096, 1, Some(0)), Ok(true));
    let e = plan_init_tables(4095, 0, None).unwrap_err();
    assert_eq!(e, LeechQ24DecodeError::DecodeTablesWrongSize { needed: 4096, got: 4095 });
    assert_eq!(e.message(), "decode_tables wrong size: need 4096 u32s (4 × 1024), got 4095");
    assert_eq!(
        LeechQ24DecodeError::OutputBufferTooSmall { needed: 24, got: 0 }.message(),
        "out_v too small: need 24 bytes, got 0"
    );
    assert_eq!(
        LeechQ24DecodeError::TileBitOffsetsTooSmall { needed: 2, got: 1 }.message(),
        "tile_bit_offsets too small: need 2 u64s, got 1"
    );
}

#[test]
fn device_tables_follow_the_last_copy() {
    let mut tables = DeviceTables::new();
    assert_eq!(tables.symbol_set(), None);
    let first = vec![1u32; 4096];
    let second = vec![2u32; 4096];
    assert_eq!(
        tables.init_tables(&first[..4095], 7),
        Err(LeechQ24DecodeError::DecodeTablesWrongSize { needed: 4096, got: 4095 })
    );
    assert_eq!(tables.symbol_set(), None);
    assert_eq!(tables.init_tables(&first, 7), Ok(true));
    assert_eq!(tables.init_tables(&second, 7), Ok(false));
    assert_eq!(tables.symbol_set(), Some(7));
    assert_eq!(tables.init_tables(&second, 8), Ok(true));
    assert_eq!(tables.symbol_set(), Some(8));
    assert!(tables.init_tables(&[], 7).is_err());
    assert_eq!(tables.symbol_set(), Some(8));
    assert_eq!(tables.init_tables(&first, 7), Ok(true));
}

#[test]
fn parity_permutation() {
    // Two rows of four blocks.
    assert_eq!(
        build_parity_perm(&[1, 0, 1, 0, 0, 0, 0, 1], 2, 4),
        vec![1, 3, 0, 2, 0, 1, 2, 3]
    );
    assert!(build_parity_perm(&[], 0, 4).is_empty());
    // A parity outside {0, 1} is listed nowhere.
    assert_eq!(build_parity_perm(&[2, 1, 0], 1, 3), vec![2, 1]);
    let parity: Vec<u8> = (0..60).map(|i| ((i * 7 + i / 3) % 2) as u8).collect();
    let perm = build_parity_perm(&parity, 5, 12);
    assert_eq!(perm.len(), 60);
    for r in 0..5 {
        let row = &perm[r * 12..(r + 1) * 12];
        let mut seen = vec![false; 12];
        for k in row {
            assert!((*k as usize) < 12);
            assert!(!seen[*k as usize]);
            seen[*k as usize] = true;
        }
        let sorted: Vec<u8> = row.iter().map(|k| parity[r * 12 + *k as usize]).collect();
        assert!(sorted.windows(2).all(|w| w[0] <= w[1]));
    }
}

fn tensor(handle: &'static str, dims: &[usize], dtype: DType) -> Tensor<&'static str> {
    Tensor { handle, dims: dims.to_vec(), dtype, device: Device::Cuda }
}

fn config() -> LeechConfig<&'static str> {
    LeechConfig {
        packed_stream: tensor("packed", &[23], DType::U8),
        beta_codebook: tensor("beta", &[2, 8], DType::F16),
        offset_codebook: Some(tensor("offset", &[2, 4], DType::F16)),
        rows: 2,
        blocks_per_row: 1,
        idx_bits: 54,
        has_offset: true,
        ms_used: 18,
        leftover_bf16: None,
        bias: None,
    }
}

#[test]
fn layer_parts() {
    let mut c = config();
    c.leftover_bf16 = Some(tensor("leftover", &[2, 5], DType::BF16));
    c.bias = Some(tensor("bias", &[2], DType::F16));
    let l = LeechLayer::new(c).unwrap();
    assert_eq!(l.name(), "leech");
    assert!(!l.isq_serde_supported());
    assert_eq!(l.quantized_act_type(), Some(DType::BF16));
    assert_eq!(l.dtype_and_device(), (DType::F16, Device::Cuda));
    assert_eq!(l.packed_stream().handle, "packed");
    assert_eq!(l.beta_codebook().handle, "beta");
    assert_eq!(l.offset_codebook().unwrap().handle, "offset");
    assert_eq!((l.rows(), l.blocks_per_row(), l.idx_bits(), l.ms_used()), (2, 1, 54, 18));
    assert!(l.has_offset());
    assert_eq!(l.leftover_bf16().unwrap().handle, "leftover");
    assert_eq!(l.bias().unwrap().handle, "bias");
    assert_eq!(l.in_features(), 29);
    assert_eq!(l.out_features(), 2);
    assert_eq!(
        l.add_delta_w().unwrap_err().message(),
        "LeechLayer does not support LoRA merge (use overlay block instead)."
    );
    assert_eq!(
        l.apply_isq().unwrap_err().message(),
        "LeechLayer does not support ISQ. .leech files are pre-quantized; re-encode offline if needed."
    );
    let l = LeechLayer::new(config()).unwrap();
    assert_eq!(l.dtype_and_device(), (DType::BF16, Device::Cuda));
    assert_eq!(l.in_features(), 24);
    assert!(l.leftover_bf16().is_none() && l.bias().is_none());
}

#[test]
fn layer_refusals() {
    let mut c = config();
    c.offset_codebook = None;
    c.idx_bits = 1;
    let e = LeechLayer::new(c).unwrap_err();
    assert_eq!(e, LeechLayerError::OffsetInconsistent { has_offset: true, present: false });
    assert_eq!(
        e.message(),
        "leech: has_offset (true) inconsistent with offset_codebook presence (false)"
    );
    let mut c = config();
    c.idx_bits = 53;
    c.ms_used = 1;
    let e = LeechLayer::new(c).unwrap_err();
    assert_eq!(e, LeechLayerError::UnsupportedIdxBits(53));
    assert_eq!(e.message(), "leech: unsupported idx_bits 53 — kernel templates are {48, 54}");
    let mut c = config();
    c.ms_used = 14;
    let e = LeechLayer::new(c).unwrap_err();
    assert_eq!(e, LeechLayerError::UnsupportedMsUsed(14));
    assert_eq!(e.message(), "leech: unsupported ms_used 14 — kernel templates are {13, 18}");
}

#[test]
fn layer_from_tensors() {
    let c = config();
    let l = leech_linear_from_tensors(
        c.packed_stream,
        c.beta_codebook,
        c.offset_codebook,
        c.rows,
        c.blocks_per_row,
        48,
        c.has_offset,
        13,
        c.leftover_bf16,
        c.bias,
    )
    .unwrap();
    assert_eq!((l.idx_bits(), l.ms_used()), (48, 13));
    let r = leech_linear(&QuantizedConfig::Leech { ms_used: 18, idx_bits: 54, has_offset: true });
    assert_eq!(
        r.unwrap_err(),
        "leech_linear: full loader integration is Phase 5b (mistralrs-core sidecar). \
         Dispatch wiring is in place; the .leech → tensor pump is not."
    );
    assert_eq!(
        leech_linear(&QuantizedConfig::Other("Gptq".to_owned())).unwrap_err(),
        "leech_linear: expected QuantizedConfig::Leech, got Gptq"
    );
}

#[test]
fn forward_dispatch() {
    let l = LeechLayer::new(config()).unwrap();
    let p = l.plan_forward(&[2, 4, 24], DType::F32);
    assert_eq!((p.m, p.path, p.cast_activation), (8, ForwardPath::Gemv, true));
    assert!(!p.add_bias && !p.cast_bias);
    let p = l.plan_forward(&[9, 24], DType::BF16);
    assert_eq!((p.m, p.path, p.cast_activation), (9, ForwardPath::Dequantize, false));
    assert_eq!(l.plan_forward(&[24], DType::BF16).m, 1);
    assert_eq!(l.plan_forward(&[], DType::BF16).m, 1);
    assert_eq!(l.plan_forward(&[0, 24], DType::BF16).m, 1);
    let mut c = config();
    c.leftover_bf16 = Some(tensor("leftover", &[2, 5], DType::F32));
    c.bias = Some(tensor("bias", &[2], DType::F16));
    let l = LeechLayer::new(c).unwrap();
    let p = l.plan_forward(&[1, 29], DType::BF16);
    assert_eq!((p.m, p.path), (1, ForwardPath::Dequantize));
    assert!(p.add_bias && p.cast_bias);
    let d = l.plan_dequantize().unwrap();
    assert_eq!((d.rows, d.n_done, d.out_elems, d.k_beta, d.k_offset), (2, 24, 48, 8, 4));
    assert!(d.join_leftover && d.cast_leftover);
}

#[test]
fn gemv_launch() {
    let l = LeechLayer::new(config()).unwrap();
    let g = l.plan_gemv(6, &[2, 3, 24], Device::Cuda).unwrap();
    assert_eq!((g.m, g.k_total, g.out_elems, g.k_beta, g.k_offset), (6, 24, 12, 8, 4));
    assert_eq!(g.out_shape, vec![2, 3, 2]);
    let count: usize = g.out_shape.iter().product();
    assert_eq!(count, g.out_elems);
    assert_eq!(l.plan_gemv(1, &[24], Device::Cuda).unwrap().out_shape, vec![2]);
    assert_eq!(
        l.plan_gemv(1, &[24], Device::Cpu).unwrap_err(),
        LeechLayerError::ActivationNotOnCuda
    );
    let mut c = config();
    c.packed_stream.device = Device::Cpu;
    let l = LeechLayer::new(c).unwrap();
    assert_eq!(
        l.plan_gemv(1, &[24], Device::Cpu).unwrap_err().message(),
        "LeechLayer::forward_raw_gemv: not CUDA"
    );
    assert_eq!(
        l.plan_dequantize().unwrap_err().message(),
        "LeechLayer::dequantize_w_cuda: device is not CUDA"
    );
    let mut c = config();
    c.beta_codebook.device = Device::Metal;
    let l = LeechLayer::new(c).unwrap();
    assert_eq!(l.plan_dequantize().unwrap_err().message(), "beta_codebook not on CUDA");
    let mut c = config();
    c.beta_codebook.dims = vec![16];
    let l = LeechLayer::new(c).unwrap();
    let e = l.plan_dequantize().unwrap_err();
    assert_eq!(e, LeechLayerError::NoSecondDimension { shape: vec![16] });
    assert_eq!(e.message(), "dim: dimension index 1 out of range for shape [16]");
    assert_eq!(l.plan_gemv(1, &[24], Device::Cuda).unwrap_err(), e);
    assert_eq!(
        LeechLayerError::NoSecondDimension { shape: vec![] }.message(),
        "dim: dimension index 1 out of range for shape []"
    );
    let mut c = config();
    if let Some(t) = c.offset_codebook.as_mut() {
        t.device = Device::Cpu;
    }
    let l = LeechLayer::new(c).unwrap();
    assert_eq!(l.plan_dequantize().unwrap_err().message(), "offset_codebook not on CUDA");
    assert_eq!(
        l.plan_gemv(1, &[24], Device::Cuda).unwrap_err(),
        LeechLayerError::OffsetCodebookNotOnCuda
    );
    assert_eq!(LeechLayerError::ActivationNotOnCuda.message(), "activation not on CUDA");
    assert_eq!(
        LeechLayerError::DequantizeNeedsCuda.message(),
        "leech: dequantize_w requires the cuda feature — CPU path not yet implemented"
    );
    assert_eq!(
        LeechLayerError::ForwardNeedsCuda.message(),
        "leech: forward_raw requires the cuda feature — CPU path not yet implemented"
    );
}

#[test]
fn refusals_come_in_reading_order() {
    let mut c = config();
    c.packed_stream.dtype = DType::U32;
    c.beta_codebook.device = Device::Cpu;
    c.beta_codebook.dtype = DType::BF16;
    c.beta_codebook.dims = vec![];
    if let Some(t) = c.offset_codebook.as_mut() {
        t.device = Device::Cpu;
        t.dtype = DType::F32;
    }
    let l = LeechLayer::new(c).unwrap();
    // The activation's shape is looked at before its device.
    let e = l.plan_gemv(2, &[2, 5, 5], Device::Cpu).unwrap_err();
    assert_eq!(
        e,
        LeechLayerError::ReshapeMismatch { lhs: vec![2, 5, 5], rhs: vec![2, 24] }
    );
    assert_eq!(
        e.message(),
        "shape mismatch in reshape, lhs: [2, 5, 5], rhs: [2, 24]"
    );
    assert_eq!(
        l.plan_gemv(1, &[], Device::Cpu).unwrap_err().message(),
        "shape mismatch in reshape, lhs: [], rhs: [1, 24]"
    );
    assert_eq!(
        l.plan_gemv(1, &[0, 24], Device::Cuda).unwrap_err().message(),
        "shape mismatch in reshape, lhs: [0, 24], rhs: [1, 24]"
    );
    assert_eq!(
        l.plan_gemv(1, &[24], Device::Metal).unwrap_err(),
        LeechLayerError::ActivationNotOnCuda
    );
    // Then the packed stream, the beta codebook and the offset codebook.
    let e = l.plan_gemv(1, &[24], Device::Cuda).unwrap_err();
    assert_eq!(
        e,
        LeechLayerError::UnexpectedDType { expected: DType::U8, got: DType::U32 }
    );
    assert_eq!(e.message(), "unexpected dtype, expected: U8, got: U32");
    assert_eq!(l.plan_dequantize().unwrap_err(), e);

    let mut c = config();
    c.beta_codebook.device = Device::Cpu;
    c.beta_codebook.dtype = DType::BF16;
    let l = LeechLayer::new(c).unwrap();
    assert_eq!(l.plan_dequantize().unwrap_err(), LeechLayerError::BetaCodebookNotOnCuda);

    let mut c = config();
    c.beta_codebook.dtype = DType::BF16;
    c.beta_codebook.dims = vec![16];
    let l = LeechLayer::new(c).unwrap();
    assert_eq!(
        l.plan_dequantize().unwrap_err().message(),
        "unexpected dtype, expected: F16, got: BF16"
    );

    let mut c = config();
    c.beta_codebook.dims = vec![16];
    if let Some(t) = c.offset_codebook.as_mut() {
        t.dtype = DType::F32;
    }
    let l = LeechLayer::new(c).unwrap();
    assert_eq!(
        l.plan_dequantize().unwrap_err(),
        LeechLayerError::NoSecondDimension { shape: vec![16] }
    );

    let mut c = config();
    if let Some(t) = c.offset_codebook.as_mut() {
        t.dtype = DType::F8E4M3;
    }
    let l = LeechLayer::new(c).unwrap();
    assert_eq!(
        l.plan_gemv(1, &[24], Device::Cuda).unwrap_err().message(),
        "unexpected dtype, expected: F16, got: F8E4M3"
    );
}

#[test]
fn parity_order_falls_back_to_unsorted() {
    let mut c = config();
    c.rows = 2;
    c.blocks_per_row = 3;
    let l = LeechLayer::new(c).unwrap();
    assert_eq!(l.parity_order(Some(&[1, 0, 1, 0, 1, 0])), Some(vec![1, 0, 2, 0, 2, 1]));
    assert_eq!(l.parity_order(None), None);
    let mut c = config();
    c.packed_stream.device = Device::Cpu;
    let l = LeechLayer::new(c).unwrap();
    assert_eq!(l.parity_order(Some(&[1, 0])), None);
}
