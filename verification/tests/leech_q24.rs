//! The LEECHQ24 reader on hand-made files and records.

use byteorder::{ByteOrder, LittleEndian as LE};
use mistralrs_leech::leech_q24::bucket_unpack::{
    packed_buckets_byte_count, patch_sentinels, split_bucket, unpack_bucket, unpack_buckets_13bit,
    BUCKET_BITS, BUCKET_MASK,
};
use mistralrs_leech::leech_q24::container::{
    HEADER_STRUCT_SIZE, TENSOR_NAME_BYTES, TOC_STRUCT_SIZE, TOC_STRUCT_SIZE_V4,
};
use mistralrs_leech::leech_q24::file::json_result;
use mistralrs_leech::leech_q24::{
    parse_codebook_blob, validate_role_dtype, DecodeEntry, DtypeTag, Header, LeechQ24Error,
    LeechQ24File, OpenOptions, Role, TocEntry, FIXED_PREFIX_SIZE, FORMAT_VERSION,
    FORMAT_VERSION_V3_COMPAT, HEADER_SIZE, MAGIC, M_TABLE, N_CODEBOOKS, SENTINEL_BUCKET, TABLE_LOG,
    TOC_ENTRY_SIZE,
};

// ── Constants and tags ───────────────────────────────────────────────────

#[test]
fn container_magic_bytes() {
    assert_eq!(&MAGIC, b"LEECHQ24");
}

#[test]
fn magic_constant_is_leechq24() {
    assert_eq!(&MAGIC, b"LEECHQ24");
}

#[test]
fn sizes() {
    assert_eq!(HEADER_SIZE, 256);
    assert_eq!(HEADER_STRUCT_SIZE, 128);
    assert_eq!(TOC_ENTRY_SIZE, 448);
    assert_eq!(TOC_STRUCT_SIZE, 428);
}

#[test]
fn more_sizes() {
    assert_eq!(FIXED_PREFIX_SIZE, 136);
    assert_eq!(TOC_STRUCT_SIZE_V4, 444);
    assert_eq!(TENSOR_NAME_BYTES, 200);
    assert_eq!((N_CODEBOOKS, TABLE_LOG, M_TABLE), (4, 10, 1024));
    assert_eq!(SENTINEL_BUCKET, 0xFFFF);
}

#[test]
fn header_layout_constants() {
    assert_eq!(HEADER_SIZE, 256);
    // Version 3 files are still accepted (see TocEntry::unpack).
    assert_eq!(FORMAT_VERSION, 4);
    assert_eq!(FORMAT_VERSION_V3_COMPAT, 3);
}

#[test]
fn container_role_roundtrip() {
    for v in 0..=3u8 {
        let r = Role::from_u8(v).unwrap();
        assert_eq!(r as u8, v);
        assert_eq!(r.to_u8(), v);
    }
    assert!(Role::from_u8(99).is_err());
}

#[test]
fn container_dtype_tag_roundtrip() {
    for v in 0..=6u8 {
        let d = DtypeTag::from_u8(v).unwrap();
        assert_eq!(d as u8, v);
    }
    assert!(DtypeTag::from_u8(99).is_err());
}

#[test]
fn open_options_default() {
    let o = OpenOptions::default();
    assert!(!o.verify_crc);
    assert!(o.validate_toc);
}

#[test]
fn q24_unknown_tags_name_the_byte() {
    match Role::from_u8(4) {
        Err(LeechQ24Error::BadTocEntry { idx, reason }) => {
            assert_eq!((idx, reason.as_str()), (0, "unknown role 4"));
        }
        other => panic!("unexpected {:?}", other),
    }
    match DtypeTag::from_u8(7) {
        Err(LeechQ24Error::BadTocEntry { idx, reason }) => {
            assert_eq!((idx, reason.as_str()), (0, "unknown dtype_tag 7"));
        }
        other => panic!("unexpected {:?}", other),
    }
}

#[test]
fn q24_elem_sizes() {
    assert_eq!(DtypeTag::Bf16.elem_size(), Some(2));
    assert_eq!(DtypeTag::Fp8E4m3.elem_size(), Some(1));
    assert_eq!(DtypeTag::Fp16.elem_size(), Some(2));
    assert_eq!(DtypeTag::Fp32.elem_size(), Some(4));
    assert_eq!(DtypeTag::Int8.elem_size(), Some(1));
    assert_eq!(DtypeTag::Packed.elem_size(), None);
    assert_eq!(DtypeTag::Uint8.elem_size(), Some(1));
}

#[test]
fn q24_role_dtype_matrix() {
    for r in 0..=3u8 {
        for d in 0..=6u8 {
            let role = Role::from_u8(r).unwrap();
            let dtype = DtypeTag::from_u8(d).unwrap();
            let expected = match role {
                Role::LlvqTans => d == 5,
                Role::Fp8Passthrough => d == 1,
                Role::Bf16Passthrough => d == 0 || d == 2 || d == 3,
                Role::Fp16Overlay => true,
            };
            match validate_role_dtype(role, dtype) {
                Ok(()) => assert!(expected),
                Err(LeechQ24Error::BadTocEntry { idx, reason }) => {
                    assert!(!expected);
                    assert_eq!(idx, 0);
                    assert_eq!(
                        reason,
                        format!("invalid (role={:?}, dtype={:?}) combination", role, dtype)
                    );
                }
                other => panic!("unexpected {:?}", other),
            }
        }
    }
}

// ── Buckets ──────────────────────────────────────────────────────────────

#[test]
fn packed_bytes_formula_matches_python() {
    assert_eq!(packed_buckets_byte_count(0), 1);
    assert_eq!(packed_buckets_byte_count(1), 3); // (13+7)/8 + 1 = 2 + 1
    assert_eq!(packed_buckets_byte_count(8), 14); // (104+7)/8 + 1 = 13 + 1
    assert_eq!(packed_buckets_byte_count(287_000_000), 466_375_001);
}

fn pack(vals: &[u16]) -> Vec<u8> {
    let mut packed = vec![0u8; packed_buckets_byte_count(vals.len())];
    for (i, &v) in vals.iter().enumerate() {
        let v = (v & BUCKET_MASK) as u64;
        let bit_pos = i * BUCKET_BITS;
        let bi = bit_pos >> 3;
        let bo = bit_pos & 7;
        packed[bi] |= ((v << bo) & 0xFF) as u8;
        if bo + BUCKET_BITS > 8 {
            packed[bi + 1] |= ((v >> (8 - bo)) & 0xFF) as u8;
        }
        if bo + BUCKET_BITS > 16 {
            packed[bi + 2] |= ((v >> (16 - bo)) & 0xFF) as u8;
        }
    }
    packed
}

#[test]
fn roundtrip_aligned_values() {
    // Mirror packer's pack_buckets_13bit for a small set, then unpack.
    let vals = [0u16, 1, 8191, 0x1ABC, 42, 0x0FFF];
    let n = vals.len();
    let mut packed = vec![0u8; packed_buckets_byte_count(n)];
    for (i, &v) in vals.iter().enumerate() {
        let v = (v & BUCKET_MASK) as u64;
        let bit_pos = i * BUCKET_BITS;
        let bi = bit_pos >> 3;
        let bo = bit_pos & 7;
        packed[bi] |= ((v << bo) & 0xFF) as u8;
        if bo + BUCKET_BITS > 8 {
            packed[bi + 1] |= ((v >> (8 - bo)) & 0xFF) as u8;
        }
        if bo + BUCKET_BITS > 16 {
            packed[bi + 2] |= ((v >> (16 - bo)) & 0xFF) as u8;
        }
    }
    let mut out = vec![0u16; n];
    unpack_buckets_13bit(&packed, n, &mut out).unwrap();
    let expected: Vec<u16> = vals.iter().map(|&v| v & BUCKET_MASK).collect();
    assert_eq!(out, expected);
}

#[test]
fn packed_buckets_come_back_at_every_bit_offset() {
    let vals: Vec<u16> = (0..100u32).map(|i| (i * 2654435761u32 >> 17) as u16).collect();
    let packed = pack(&vals);
    for (i, v) in vals.iter().enumerate() {
        assert_eq!(unpack_bucket(&packed, i).unwrap(), v & BUCKET_MASK);
    }
}

#[test]
fn bucket_errors() {
    assert!(matches!(
        unpack_bucket(&[0, 0, 0], 1),
        Err(LeechQ24Error::Truncated { offset: 1, needed: 3, len: 3 })
    ));
    assert_eq!(unpack_bucket(&[0xFF, 0xFF, 0], 0).unwrap(), 0x1FFF);
    let mut out = vec![7u16; 2];
    assert!(matches!(
        unpack_buckets_13bit(&[0; 10], 3, &mut out),
        Err(LeechQ24Error::BucketUnpackOob { idx: 2, n: 3 })
    ));
    assert!(matches!(
        unpack_buckets_13bit(&[0; 4], 2, &mut out),
        Err(LeechQ24Error::Truncated { offset: 0, needed: 5, len: 4 })
    ));
    assert_eq!(out, vec![7, 7]);
}

#[test]
fn split_bucket_decomposes() {
    // bucket = (parity<<12) | (h<<6) | f
    let parity = 1u16;
    let h = 0x2Au16;
    let f = 0x15u16;
    let bucket = (parity << 12) | (h << 6) | f;
    let (p, hh, ff) = split_bucket(bucket);
    assert_eq!(p, parity as u8);
    assert_eq!(hh, h as u8);
    assert_eq!(ff, f as u8);
}

#[test]
fn split_buckets_recombine() {
    for bucket in 0..0x2000u16 {
        let (p, h, f) = split_bucket(bucket);
        assert_eq!((p as u16) * 0x1000 + (h as u16) * 0x40 + f as u16, bucket);
    }
}

#[test]
fn patch_sentinels_restores_ffff() {
    let mut buckets = vec![0u16, 1, 2, 3, 4];
    let idx_bytes = {
        let mut v = Vec::new();
        v.extend_from_slice(&1u32.to_le_bytes());
        v.extend_from_slice(&3u32.to_le_bytes());
        v
    };
    patch_sentinels(&mut buckets, &idx_bytes).unwrap();
    assert_eq!(buckets, vec![0, 0xFFFF, 2, 0xFFFF, 4]);
}

#[test]
fn patch_errors() {
    let mut buckets = vec![1u16, 2];
    match patch_sentinels(&mut buckets, &[0; 5]) {
        Err(LeechQ24Error::BadCodebookHeader { offset, reason }) => {
            assert_eq!(offset, 0);
            assert_eq!(reason, "sentinel_indices byte length 5 not multiple of 4");
        }
        other => panic!("unexpected {:?}", other),
    }
    assert_eq!(buckets, vec![1, 2]);
    // Index 1 is patched before index 2 fails; index 0 never comes.
    let bytes = [1u8, 0, 0, 0, 2, 0, 0, 0, 0, 0, 0, 0];
    assert!(matches!(
        patch_sentinels(&mut buckets, &bytes),
        Err(LeechQ24Error::BucketUnpackOob { idx: 2, n: 2 })
    ));
    assert_eq!(buckets, vec![1, 0xFFFF]);
}

// ── Codebooks ────────────────────────────────────────────────────────────

#[test]
fn decode_entry_unpack() {
    // sym=7, nb_bits=3, base=0x1234
    let raw = 0x1234_03_07u32;
    let e = DecodeEntry::from_raw(raw);
    assert_eq!(e.sym, 0x07);
    assert_eq!(e.nb_bits, 0x03);
    assert_eq!(e.base, 0x1234);
}

/// One symbol set: its header and its tables, entry `e` holding `seed + e`.
fn codebook(id: u32, w_min: i32, w_max: i32, seed: u32) -> Vec<u8> {
    let mut v = vec![0u8; 32];
    LE::write_u32(&mut v[0..4], id);
    LE::write_u32(&mut v[4..8], 4);
    LE::write_u32(&mut v[8..12], (w_max - w_min + 1) as u32);
    LE::write_u32(&mut v[12..16], 10);
    LE::write_u32(&mut v[16..20], 4);
    LE::write_i32(&mut v[20..24], w_min);
    LE::write_i32(&mut v[24..28], w_max);
    LE::write_u32(&mut v[28..32], 1);
    for e in 0..4 * 1024u32 {
        v.extend_from_slice(&(seed + e).to_le_bytes());
    }
    v
}

fn codebook_reason(r: Result<Vec<mistralrs_leech::leech_q24::CodebookSet>, LeechQ24Error>) -> (u64, String) {
    match r {
        Err(LeechQ24Error::BadCodebookHeader { offset, reason }) => (offset, reason),
        other => panic!("unexpected {:?}", other),
    }
}

#[test]
fn codebook_blob_of_two_sets() {
    let mut file = vec![9u8; 64];
    file.extend(codebook(7, -3, 4, 0));
    file.extend(codebook(8, -5, 5, 0x0102_0304));
    let blob_len = file.len() as u64 - 64;
    file.extend(vec![0u8; 40]);
    let sets = parse_codebook_blob(&file, 64, blob_len + 40).unwrap();
    assert_eq!(sets.len(), 2);
    assert_eq!((sets[0].symbol_set_id, sets[1].symbol_set_id), (7, 8));
    assert_eq!((sets[1].w_min, sets[1].w_max, sets[1].n_symbols), (-5, 5, 11));
    assert_eq!(sets[0].w_offset, 4);
    assert!(sets[0].has_encoder_tables);
    assert_eq!(sets[0].decode_tables_offset, 96);
    assert_eq!(sets[0].decode_tables_bytes, 16384);
    assert_eq!(sets[0].total_size(), 16416);
    assert_eq!(sets[1].decode_tables_offset, 64 + 16416 + 32);
    // Without the padding and with fewer than 32 bytes left over.
    assert_eq!(parse_codebook_blob(&file, 64, blob_len).unwrap().len(), 2);
    assert_eq!(parse_codebook_blob(&file, 64, 31).unwrap().len(), 0);
    assert_eq!(parse_codebook_blob(&file, 64, 0).unwrap().len(), 0);
}

#[test]
fn codebook_errors() {
    let good = codebook(1, 0, 1, 0);
    let n = good.len() as u64;
    assert_eq!(
        codebook_reason(parse_codebook_blob(&good, u64::MAX, 1)),
        (u64::MAX, "blob_offset + blob_len overflow".to_owned())
    );
    assert!(matches!(
        parse_codebook_blob(&good, 1, n),
        Err(LeechQ24Error::Truncated { offset: 1, needed: 16416, len: 16416 })
    ));
    let mut bad = good.clone();
    LE::write_u32(&mut bad[4..8], 3);
    assert_eq!(
        codebook_reason(parse_codebook_blob(&bad, 0, n)),
        (0, "n_codebooks 3 != 4 (only 4-codebook tANS supported)".to_owned())
    );
    let mut bad = good.clone();
    LE::write_u32(&mut bad[12..16], 11);
    assert_eq!(
        codebook_reason(parse_codebook_blob(&bad, 0, n)),
        (0, "table_log 11 != 10 (TABLE_LOG hardcoded for now)".to_owned())
    );
    assert!(matches!(
        parse_codebook_blob(&good, 0, n - 1),
        Err(LeechQ24Error::Truncated { offset: 32, needed: 16384, len: 16416 })
    ));
}

#[test]
fn table_lookups() {
    let file = codebook(1, 0, 1, 0x0AB0_0000);
    let set = parse_codebook_blob(&file, 0, file.len() as u64).unwrap()[0];
    let tables = &file[32..];
    // Entry 3 * 1024 + 1023 = 4095 = 0x0FFF.
    let e = set.decode_entry(tables, 3, 1023).unwrap();
    assert_eq!((e.sym, e.nb_bits, e.base), (0xFF, 0x0F, 0x0AB0));
    match set.decode_entry(tables, 4, 0) {
        Err(LeechQ24Error::BadCodebookHeader { offset, reason }) => {
            assert_eq!(offset, 32);
            assert_eq!(reason, "cb_idx 4 ≥ n_codebooks 4");
        }
        other => panic!("unexpected {:?}", other),
    }
    match set.decode_entry(tables, 0, 1024) {
        Err(LeechQ24Error::BadCodebookHeader { offset, reason }) => {
            assert_eq!(offset, 32);
            assert_eq!(reason, "state 1024 ≥ M 1024");
        }
        other => panic!("unexpected {:?}", other),
    }
    assert!(matches!(
        set.decode_entry(&tables[..100], 0, 25),
        Err(LeechQ24Error::Truncated { offset: 132, needed: 4, len: 100 })
    ));
}

#[test]
fn table_lookup_at_the_far_end_of_the_address_space() {
    let file = codebook(1, 0, 1, 0);
    let mut set = parse_codebook_blob(&file, 0, file.len() as u64).unwrap()[0];
    set.decode_tables_offset = u64::MAX;
    let e = set.decode_entry(&[0, 0, 0, 0, 9, 8, 7, 6], 0, 1).unwrap();
    assert_eq!((e.sym, e.nb_bits, e.base), (9, 8, 0x0607));
}

// ── TOC entries ──────────────────────────────────────────────────────────

#[test]
fn synthetic_v4_toc_entry_parses() {
    // Construct a synthetic v4 TOC entry byte-buffer with num_streams=4
    // and verify the parser reads the new fields.
    let mut buf = vec![0u8; TOC_ENTRY_SIZE];
    // name: "synthetic_v4"
    let name = b"synthetic_v4";
    buf[..name.len()].copy_from_slice(name);
    // role=LlvqTans (0)
    buf[200] = 0;
    // dtype_tag=Packed (5)
    buf[201] = 5;
    // rank=2
    buf[202..204].copy_from_slice(&2u16.to_le_bytes());
    // shape[0]=64, shape[1]=24
    buf[204..208].copy_from_slice(&64u32.to_le_bytes());
    buf[208..212].copy_from_slice(&24u32.to_le_bytes());
    // flags=0 @236
    // symbol_set_id=0 @240
    // tile_size=32 @244
    buf[244..248].copy_from_slice(&32u32.to_le_bytes());
    // k_beta=8 @248
    buf[248..252].copy_from_slice(&8u32.to_le_bytes());
    // k_offset=0 @252
    // R=2 @256
    buf[256..260].copy_from_slice(&2u32.to_le_bytes());
    // B=32 @260
    buf[260..264].copy_from_slice(&32u32.to_le_bytes());
    // num_streams=4 @264..268
    buf[264..268].copy_from_slice(&4u32.to_le_bytes());
    // n_blocks=64 @268
    buf[268..276].copy_from_slice(&64u64.to_le_bytes());
    // n_tiles=2 @276
    buf[276..284].copy_from_slice(&2u64.to_le_bytes());
    // buckets_offset=0x1000 @284
    buf[284..292].copy_from_slice(&0x1000u64.to_le_bytes());
    // tile_states_offset=0x2000 @316
    buf[316..324].copy_from_slice(&0x2000u64.to_le_bytes());
    // tile_nb_totals_offset=0x2100 @324
    buf[324..332].copy_from_slice(&0x2100u64.to_le_bytes());
    // tile_bitstream_offset=0x3000 @332
    buf[332..340].copy_from_slice(&0x3000u64.to_le_bytes());
    // substream_states_offset=0x4000 @428
    buf[428..436].copy_from_slice(&0x4000u64.to_le_bytes());
    // substream_nb_totals_offset=0x4100 @436
    buf[436..444].copy_from_slice(&0x4100u64.to_le_bytes());

    let entry = TocEntry::unpack(&buf, 0, FORMAT_VERSION).expect("parse v4 synthetic");
    assert_eq!(entry.name, "synthetic_v4");
    assert_eq!(entry.num_streams, 4);
    assert_eq!(entry.tile_size, 32);
    assert_eq!(entry.substream_states_offset, 0x4000);
    assert_eq!(entry.substream_nb_totals_offset, 0x4100);
    assert_eq!(entry.tile_states_offset, 0x2000);
    assert_eq!(entry.tile_nb_totals_offset, 0x2100);

    // Now rebuild with num_streams=24 (NOT a power of two ≤ 32) → must error.
    let mut bad = buf.clone();
    bad[264..268].copy_from_slice(&24u32.to_le_bytes());
    let err = TocEntry::unpack(&bad, 0, FORMAT_VERSION);
    assert!(err.is_err(), "K=24 must be rejected");

    // num_streams=8 but tile_size=4 (K does not divide T) → must error.
    let mut bad2 = buf.clone();
    bad2[264..268].copy_from_slice(&8u32.to_le_bytes());
    bad2[244..248].copy_from_slice(&4u32.to_le_bytes());
    let err2 = TocEntry::unpack(&bad2, 0, FORMAT_VERSION);
    assert!(err2.is_err(), "K=8, T=4 (K not dividing T) must be rejected");

    // Same buffer but read as v3-compat: num_streams must be forced to 1
    // and substream_*_offset must alias tile_*_offset.
    let entry_v3 =
        TocEntry::unpack(&buf, 0, FORMAT_VERSION_V3_COMPAT).expect("parse v3 compat");
    assert_eq!(entry_v3.num_streams, 1);
    assert_eq!(
        entry_v3.substream_states_offset, entry_v3.tile_states_offset,
        "v3 compat shim must alias substream_states_offset to tile_states_offset"
    );
    assert_eq!(
        entry_v3.substream_nb_totals_offset, entry_v3.tile_nb_totals_offset,
        "v3 compat shim must alias substream_nb_totals_offset to tile_nb_totals_offset"
    );
}

/// A record whose 32-bit field at `236 + 4 i` is `100 + i` and whose 64-bit
/// fields are told apart the same way.
fn numbered_record() -> Vec<u8> {
    let mut buf = vec![0u8; TOC_ENTRY_SIZE];
    buf[0] = b'n';
    buf[200] = 1;
    buf[201] = 1;
    LE::write_u16(&mut buf[202..204], 8);
    for i in 0..8 {
        LE::write_u32(&mut buf[204 + 4 * i..208 + 4 * i], 1000 + i as u32);
    }
    for i in 0..8 {
        LE::write_u32(&mut buf[236 + 4 * i..240 + 4 * i], 100 + i as u32);
    }
    for i in 0..5 {
        LE::write_u64(&mut buf[268 + 8 * i..276 + 8 * i], 200 + i as u64);
    }
    LE::write_u32(&mut buf[308..312], 300);
    for i in 0..16 {
        LE::write_u64(&mut buf[316 + 8 * i..324 + 8 * i], 400 + i as u64);
    }
    buf
}

#[test]
fn toc_entry_layout() {
    let e = TocEntry::unpack(&numbered_record(), 0, 4).unwrap();
    assert_eq!(e.name, "n");
    assert!(!e.is_llvq_tans());
    assert_eq!((e.role, e.dtype_tag, e.rank), (Role::Fp8Passthrough, DtypeTag::Fp8E4m3, 8));
    assert_eq!(e.shape, (1000..1008).collect::<Vec<u32>>());
    assert_eq!((e.flags, e.symbol_set_id, e.tile_size, e.k_beta), (100, 101, 102, 103));
    // The stream count of a tensor without streams is not judged.
    assert_eq!((e.k_offset, e.r, e.b, e.num_streams), (104, 105, 106, 107));
    assert_eq!((e.n_blocks, e.n_tiles), (200, 201));
    assert_eq!((e.buckets_offset, e.buckets_packed_bytes), (202, 203));
    assert_eq!((e.sentinel_indices_offset, e.sentinel_count), (204, 300));
    assert_eq!((e.tile_states_offset, e.tile_nb_totals_offset), (400, 401));
    assert_eq!((e.tile_bitstream_offset, e.tile_bitstream_words), (402, 403));
    assert_eq!((e.beta_idx_offset, e.beta_idx_bytes), (404, 405));
    assert_eq!((e.offset_idx_offset, e.offset_idx_bytes), (406, 407));
    assert_eq!((e.beta_lloyd_offset, e.offset_lloyd_offset), (408, 409));
    assert_eq!((e.beta_lloyd_bytes, e.offset_lloyd_bytes), (410, 411));
    assert_eq!((e.passthrough_offset, e.passthrough_size), (412, 413));
    assert_eq!((e.substream_states_offset, e.substream_nb_totals_offset), (414, 415));
}

fn entry_reason(buf: &[u8], version: u32) -> (usize, String) {
    match TocEntry::unpack(buf, 5, version) {
        Err(LeechQ24Error::BadTocEntry { idx, reason }) => (idx, reason),
        other => panic!("unexpected {:?}", other),
    }
}

#[test]
fn toc_entry_errors() {
    let good = numbered_record();
    assert_eq!(entry_reason(&good[..427], 3), (5, "entry too short: 427 < 428".to_owned()));
    assert_eq!(entry_reason(&good[..428], 4), (5, "entry too short: 428 < 444".to_owned()));
    assert!(TocEntry::unpack(&good[..428], 5, 3).is_ok());
    let mut b = good.clone();
    b[0] = 0x80;
    assert!(matches!(TocEntry::unpack(&b, 5, 4), Err(LeechQ24Error::Utf8(_))));
    let mut b = good.clone();
    b[200] = 4;
    assert_eq!(entry_reason(&b, 4), (5, "unknown role byte 4".to_owned()));
    let mut b = good.clone();
    b[201] = 7;
    assert_eq!(entry_reason(&b, 4), (5, "unknown dtype_tag byte 7".to_owned()));
    let mut b = good.clone();
    LE::write_u16(&mut b[202..204], 9);
    assert_eq!(entry_reason(&b, 4), (5, "rank 9 exceeds 8".to_owned()));
    let mut b = good.clone();
    b[200] = 0;
    assert_eq!(
        entry_reason(&b, 4),
        (5, "num_streams 107 is not a power of two up to 32".to_owned())
    );
    LE::write_u32(&mut b[264..268], 4);
    assert_eq!(
        entry_reason(&b, 4),
        (5, "num_streams 4 does not divide tile_size 102".to_owned())
    );
    LE::write_u32(&mut b[264..268], 2);
    assert!(TocEntry::unpack(&b, 5, 4).is_ok());
    LE::write_u32(&mut b[264..268], 0);
    assert_eq!(
        entry_reason(&b, 4),
        (5, "num_streams 0 is not a power of two up to 32".to_owned())
    );
    assert!(TocEntry::unpack(&b, 5, 3).is_ok());
}

#[test]
fn q24_header_fields() {
    let mut buf = vec![0u8; HEADER_STRUCT_SIZE];
    for i in 0..2 {
        LE::write_u32(&mut buf[4 * i..4 * i + 4], 10 + i as u32);
    }
    for i in 0..6 {
        LE::write_u64(&mut buf[8 + 8 * i..16 + 8 * i], 20 + i as u64);
    }
    LE::write_u32(&mut buf[56..60], 30);
    LE::write_u32(&mut buf[60..64], 31);
    LE::write_u64(&mut buf[64..72], 40);
    LE::write_u64(&mut buf[72..80], 41);
    for i in 0..6 {
        LE::write_u32(&mut buf[80 + 4 * i..84 + 4 * i], 50 + i as u32);
    }
    LE::write_u64(&mut buf[104..112], 60);
    for i in 0..16 {
        buf[112 + i] = i as u8;
    }
    let h = Header::unpack(&buf).unwrap();
    assert_eq!((h.format_version, h.header_size), (10, 11));
    assert_eq!((h.manifest_offset, h.manifest_size), (20, 21));
    assert_eq!((h.codebook_offset, h.codebook_size), (22, 23));
    assert_eq!((h.toc_offset, h.toc_size), (24, 25));
    assert_eq!((h.toc_entry_count, h.tile_size_default), (30, 31));
    assert_eq!((h.payload_offset, h.payload_size), (40, 41));
    assert_eq!((h.n_codebook_sets, h.n_llvq_tensors, h.n_fp8_tensors), (50, 51, 52));
    assert_eq!((h.n_bf16_tensors, h.n_overlay_tensors, h.reserved_u32), (53, 54, 55));
    assert_eq!(h.total_blocks, 60);
    assert_eq!(h.pattern_table_blake3.to_vec(), (0..16).collect::<Vec<u8>>());
    assert!(matches!(
        Header::unpack(&buf[..127]),
        Err(LeechQ24Error::Truncated { offset: 8, needed: 128, len: 127 })
    ));
}

// ── Whole files ──────────────────────────────────────────────────────────

const BLOCKS: u64 = 64;
const TILES: u64 = 2;

fn put_u64(rec: &mut [u8], at: usize, v: usize) {
    LE::write_u64(&mut rec[at..at + 8], v as u64);
}

/// An LLVQ_TANS record and its sections, appended to `out`.
fn llvq_record(out: &mut Vec<u8>, name: &str, streams: u32, with_offsets: bool) -> Vec<u8> {
    let mut rec = vec![0u8; TOC_ENTRY_SIZE];
    rec[..name.len()].copy_from_slice(name.as_bytes());
    rec[201] = 5;
    LE::write_u16(&mut rec[202..204], 2);
    LE::write_u32(&mut rec[204..208], 2);
    LE::write_u32(&mut rec[208..212], 32 * 24);
    LE::write_u32(&mut rec[240..244], 7);
    LE::write_u32(&mut rec[244..248], 32);
    LE::write_u32(&mut rec[248..252], 8);
    LE::write_u32(&mut rec[252..256], if with_offsets { 4 } else { 0 });
    LE::write_u32(&mut rec[256..260], 2);
    LE::write_u32(&mut rec[260..264], 32);
    LE::write_u32(&mut rec[264..268], streams);
    put_u64(&mut rec, 268, BLOCKS as usize);
    put_u64(&mut rec, 276, TILES as usize);

    let buckets: Vec<u16> = (0..BLOCKS as u16).map(|i| (i * 113) & BUCKET_MASK).collect();
    let packed = pack(&buckets);
    put_u64(&mut rec, 284, out.len());
    put_u64(&mut rec, 292, packed.len());
    out.extend_from_slice(&packed);
    put_u64(&mut rec, 300, out.len());
    LE::write_u32(&mut rec[308..312], 2);
    out.extend_from_slice(&[3, 0, 0, 0, 5, 0, 0, 0]);
    put_u64(&mut rec, 316, out.len());
    out.extend_from_slice(&[1, 2, 3, 4]);
    put_u64(&mut rec, 324, out.len());
    out.extend_from_slice(&[64, 0, 128, 0]);
    put_u64(&mut rec, 332, out.len());
    put_u64(&mut rec, 340, 3);
    out.extend((0..24).map(|i| i as u8));
    put_u64(&mut rec, 348, out.len());
    put_u64(&mut rec, 356, 24);
    out.extend(vec![0xB1u8; 24]);
    if with_offsets {
        put_u64(&mut rec, 364, out.len());
        put_u64(&mut rec, 372, 24);
        out.extend(vec![0xB2u8; 24]);
    }
    put_u64(&mut rec, 380, out.len());
    for i in 0..16 {
        out.extend_from_slice(&(i as f32 * 0.5).to_le_bytes());
    }
    put_u64(&mut rec, 396, 64);
    if with_offsets {
        put_u64(&mut rec, 388, out.len());
        for i in 0..8 {
            out.extend_from_slice(&(-(i as f32)).to_le_bytes());
        }
        put_u64(&mut rec, 404, 32);
    }
    put_u64(&mut rec, 428, out.len());
    out.extend((0..4 * streams).map(|i| i as u8));
    put_u64(&mut rec, 436, out.len());
    out.extend((0..4 * streams).map(|i| 100 + i as u8));
    rec
}

fn plain_record(out: &mut Vec<u8>, name: &str, role: u8, dtype: u8, bytes: &[u8]) -> Vec<u8> {
    let mut rec = vec![0u8; TOC_ENTRY_SIZE];
    rec[..name.len()].copy_from_slice(name.as_bytes());
    rec[200] = role;
    rec[201] = dtype;
    LE::write_u16(&mut rec[202..204], 2);
    LE::write_u32(&mut rec[204..208], 3);
    LE::write_u32(&mut rec[208..212], 2);
    put_u64(&mut rec, 412, out.len());
    put_u64(&mut rec, 420, bytes.len());
    out.extend_from_slice(bytes);
    rec
}

fn seal(out: &mut Vec<u8>) {
    let crc = crc32fast::hash(out);
    out.extend_from_slice(&crc.to_le_bytes());
}

/// Two LLVQ_TANS tensors, one fp8, two bf16 and one overlay, and two symbol
/// sets.
fn q24_file(version: u32) -> Vec<u8> {
    let mut out = vec![0u8; HEADER_SIZE];
    let manifest = b"{\"model\":\"tiny\",\"blocks\":128}";
    let m_off = out.len();
    out.extend_from_slice(manifest);
    while out.len() % 64 != 0 {
        out.push(0);
    }
    let cb_off = out.len();
    out.extend(codebook(7, -3, 4, 0));
    out.extend(codebook(9, -8, 8, 500));
    while out.len() % 64 != 0 {
        out.push(0);
    }
    let cb_len = out.len() - cb_off;
    let toc_off = out.len();
    out.extend(vec![0u8; 6 * TOC_ENTRY_SIZE]);
    let payload_off = out.len();
    let streams = if version == 3 { 1 } else { 4 };
    let recs = vec![
        plain_record(&mut out, "norm.a", 2, 0, &[1; 12]),
        llvq_record(&mut out, "blk.0", streams, true),
        plain_record(&mut out, "head", 1, 1, &[2, 3, 4, 5, 6, 7]),
        llvq_record(&mut out, "blk.1", streams, false),
        plain_record(&mut out, "norm.b", 2, 3, &[8; 24]),
        plain_record(&mut out, "patch", 3, 6, &[9]),
    ];
    for (i, rec) in recs.iter().enumerate() {
        let at = toc_off + i * TOC_ENTRY_SIZE;
        out[at..at + TOC_ENTRY_SIZE].copy_from_slice(rec);
    }
    let payload_len = out.len() - payload_off;
    out[..8].copy_from_slice(b"LEECHQ24");
    let h = &mut out[8..136];
    LE::write_u32(&mut h[0..4], version);
    LE::write_u32(&mut h[4..8], 256);
    put_u64(h, 8, m_off);
    put_u64(h, 16, manifest.len());
    put_u64(h, 24, cb_off);
    put_u64(h, 32, cb_len);
    put_u64(h, 40, toc_off);
    put_u64(h, 48, 6 * TOC_ENTRY_SIZE);
    LE::write_u32(&mut h[56..60], 6);
    LE::write_u32(&mut h[60..64], 32);
    put_u64(h, 64, payload_off);
    put_u64(h, 72, payload_len);
    LE::write_u32(&mut h[80..84], 2);
    LE::write_u32(&mut h[84..88], 2);
    LE::write_u32(&mut h[88..92], 1);
    LE::write_u32(&mut h[92..96], 2);
    LE::write_u32(&mut h[96..100], 1);
    put_u64(h, 104, 128);
    seal(&mut out);
    out
}

const CHECKED: OpenOptions = OpenOptions { verify_crc: true, validate_toc: true };
const UNCHECKED: OpenOptions = OpenOptions { verify_crc: false, validate_toc: true };

fn open(bytes: &[u8]) -> LeechQ24File<'_> {
    LeechQ24File::from_bytes(bytes, CHECKED).expect("failed to load")
}

fn load_error(bytes: &[u8], opts: OpenOptions) -> LeechQ24Error {
    match LeechQ24File::from_bytes(bytes, opts) {
        Err(e) => e,
        Ok(_) => panic!("loaded"),
    }
}

#[test]
fn header_parses() {
    for version in [3, 4] {
        let bytes = q24_file(version);
        let f = open(&bytes);
        let h = f.header();
        assert!(
            h.format_version == FORMAT_VERSION || h.format_version == FORMAT_VERSION_V3_COMPAT,
            "header.format_version {} not in {{{FORMAT_VERSION}, {FORMAT_VERSION_V3_COMPAT}}}",
            h.format_version,
        );
        assert_eq!(h.format_version, version);
        assert_eq!(h.header_size, HEADER_SIZE as u32);
        assert!(h.toc_entry_count > 0);
        assert!(h.manifest_size > 0);
        assert!(h.codebook_size > 0);
        assert!(h.payload_size > 0);
        assert!(h.tile_size_default >= 1);
    }
}

#[test]
fn manifest_is_valid_json() {
    let bytes = q24_file(3);
    let f = open(&bytes);
    let v = f.manifest_value().expect("manifest is not JSON");
    assert!(v.is_object(), "manifest top-level is not a JSON object");
    assert_eq!(v["model"].as_str(), Some("tiny"));
    assert_eq!(v["blocks"].as_u64(), Some(128));
    assert_eq!(f.manifest_json(), b"{\"model\":\"tiny\",\"blocks\":128}");
}

#[test]
fn manifest_that_is_not_json() {
    let mut bytes = q24_file(4);
    bytes[256] = b'[';
    let f = LeechQ24File::from_bytes(&bytes, UNCHECKED).unwrap();
    assert!(matches!(f.manifest_value(), Err(LeechQ24Error::Json(_))));
    let parsed: Result<serde_json::Value, serde_json::Error> = serde_json::from_str("{");
    assert!(matches!(json_result(parsed), Err(LeechQ24Error::Json(_))));
    let parsed: Result<serde_json::Value, serde_json::Error> = serde_json::from_str("3");
    assert_eq!(json_result(parsed).unwrap().as_u64(), Some(3));
}

#[test]
fn codebooks_parse_and_count_matches_header() {
    let bytes = q24_file(3);
    let f = open(&bytes);
    let cbs = f.codebooks();
    let h = f.header();
    assert_eq!(
        cbs.len() as u32,
        h.n_codebook_sets,
        "parsed codebook count != header.n_codebook_sets"
    );
    for cb in cbs {
        assert_eq!(cb.n_codebooks as usize, N_CODEBOOKS);
        assert_eq!(cb.table_log, TABLE_LOG);
        assert!(cb.w_max >= cb.w_min, "w_min..w_max range invalid");
        // n_symbols == w_max - w_min + 1
        assert_eq!(cb.n_symbols as i64, (cb.w_max - cb.w_min + 1) as i64);
    }
}

#[test]
fn toc_role_counts_match_header() {
    let bytes = q24_file(3);
    let f = open(&bytes);
    let h = f.header();
    let mut n_llvq = 0u32;
    let mut n_fp8 = 0u32;
    let mut n_bf16 = 0u32;
    let mut n_overlay = 0u32;
    for e in f.toc() {
        match e.role {
            Role::LlvqTans => n_llvq += 1,
            Role::Fp8Passthrough => n_fp8 += 1,
            Role::Bf16Passthrough => n_bf16 += 1,
            Role::Fp16Overlay => n_overlay += 1,
        }
    }
    assert_eq!(n_llvq, h.n_llvq_tensors, "LLVQ count");
    assert_eq!(n_fp8, h.n_fp8_tensors, "FP8 count");
    assert_eq!(n_bf16, h.n_bf16_tensors, "BF16 count");
    assert_eq!(n_overlay, h.n_overlay_tensors, "OVERLAY count");
}

#[test]
fn total_blocks_sum_matches_header() {
    let bytes = q24_file(3);
    let f = open(&bytes);
    let h = f.header();
    let sum: u64 = f.toc().iter().filter(|e| e.is_llvq_tans()).map(|e| e.n_blocks).sum();
    assert_eq!(sum, h.total_blocks, "Σ n_blocks (LLVQ) != header.total_blocks");
}

#[test]
fn first_llvq_payload_parses_and_decodes_one_bucket() {
    for version in [3, 4] {
        let bytes = q24_file(version);
        let f = open(&bytes);
        let (idx, entry) = f
            .toc()
            .iter()
            .enumerate()
            .find(|(_, e)| e.is_llvq_tans())
            .expect("no LLVQ_TANS tensor in file");
        assert_eq!(entry.dtype_tag, DtypeTag::Packed);
        assert!(f.payload_sizes_fit(idx));
        let p = f.llvq_tans_payload(idx).expect("payload parse");

        // Section sizes look sane.
        let expected_packed = packed_buckets_byte_count(p.n_blocks as usize);
        assert!(
            p.buckets_packed.len() >= expected_packed,
            "buckets_packed.len()={} < expected {}",
            p.buckets_packed.len(),
            expected_packed,
        );
        assert_eq!(p.tile_states.len(), (p.n_tiles * 2) as usize);
        assert_eq!(p.tile_nb_totals.len(), (p.n_tiles * 2) as usize);
        assert_eq!(p.tile_bitstream.len(), (p.tile_bitstream_words * 8) as usize);
        assert!(!p.beta_lloyd.is_empty());

        // β centroids look like sensible f32s (no NaNs, finite).
        for k in 0..p.k_beta.min(4) {
            let v = f32::from_bits(p.beta_lloyd_at(0, k).expect("beta_lloyd_at"));
            assert!(v.is_finite(), "beta_lloyd[0,{}] = {:?} is non-finite", k, v);
        }

        // Decode 8 buckets via the CPU reference and confirm they're in [0, 8192).
        let n_probe = 8usize.min(p.n_blocks as usize);
        let mut buf = vec![0u16; n_probe];
        unpack_buckets_13bit(p.buckets_packed, n_probe, &mut buf).expect("unpack");
        for (i, &b) in buf.iter().enumerate() {
            // Sentinels are stored out-of-band; raw stream never contains 0xFFFF
            // for the on-disk indices (they were masked to 0 before packing).
            assert!(b < 8192, "bucket {} = {} out of 13-bit range", i, b);
            assert_eq!(b, i as u16 * 113);
        }
        patch_sentinels(&mut buf, p.sentinel_indices).expect("patch");
        assert_eq!(buf, vec![0, 113, 226, 0xFFFF, 452, 0xFFFF, 678, 791]);
    }
}

#[test]
fn first_fp8_passthrough_byte_count_matches_dtype() {
    let bytes = q24_file(3);
    let f = open(&bytes);
    let (idx, entry) = f
        .toc()
        .iter()
        .enumerate()
        .find(|(_, e)| e.role == Role::Fp8Passthrough)
        .expect("no FP8_PASSTHROUGH in file");
    let raw = f.passthrough_bytes(idx).expect("passthrough bytes");
    let elem: usize = entry.shape.iter().map(|&d| d as usize).product();
    let expected = elem.checked_mul(entry.dtype_tag.elem_size().unwrap_or(1)).unwrap();
    assert_eq!(
        raw.len() as u64,
        entry.passthrough_size,
        "TOC.passthrough_size does not match slice length"
    );
    assert_eq!(
        raw.len(),
        expected,
        "FP8 raw byte count does not match (Π shape × elem_size)"
    );
}

#[test]
fn v3_compat_shim_forces_num_streams_one() {
    let bytes = q24_file(3);
    let f = open(&bytes);
    let h = f.header();
    assert_eq!(h.format_version, FORMAT_VERSION_V3_COMPAT);
    let mut checked = 0usize;
    for e in f.toc() {
        if !e.is_llvq_tans() {
            continue;
        }
        assert_eq!(
            e.num_streams, 1,
            "v3 compat shim must force num_streams=1, got {} for {:?}",
            e.num_streams, e.name
        );
        assert_eq!(
            e.substream_states_offset, e.tile_states_offset,
            "v3 substream_states_offset must alias tile_states_offset"
        );
        assert_eq!(
            e.substream_nb_totals_offset, e.tile_nb_totals_offset,
            "v3 substream_nb_totals_offset must alias tile_nb_totals_offset"
        );
        checked += 1;
        if checked >= 5 {
            break;
        }
    }
    assert!(checked > 0, "no LLVQ tensors found to validate");
}

#[test]
fn v3_compat_payload_aliases_tile_arrays() {
    let bytes = q24_file(3);
    let f = open(&bytes);
    assert_eq!(f.header().format_version, FORMAT_VERSION_V3_COMPAT);
    let (idx, _) = f
        .toc()
        .iter()
        .enumerate()
        .find(|(_, e)| e.is_llvq_tans())
        .expect("no LLVQ tensor");
    let p = f.llvq_tans_payload(idx).expect("payload");
    assert_eq!(p.num_streams, 1);
    assert_eq!(p.substream_states.len(), p.tile_states.len());
    assert_eq!(p.substream_nb_totals.len(), p.tile_nb_totals.len());
    assert_eq!(
        p.substream_states, p.tile_states,
        "v3 substream_states must byte-equal tile_states"
    );
    assert_eq!(
        p.substream_nb_totals, p.tile_nb_totals,
        "v3 substream_nb_totals must byte-equal tile_nb_totals"
    );
}

#[test]
fn v4_payload_sections() {
    let bytes = q24_file(4);
    let f = open(&bytes);
    let p = f.llvq_tans_payload(1).unwrap();
    assert_eq!((p.n_blocks, p.n_tiles, p.num_streams, p.tile_bitstream_words), (64, 2, 4, 3));
    assert_eq!((p.sentinel_count, p.symbol_set_id, p.tile_size), (2, 7, 32));
    assert_eq!((p.r, p.b, p.k_beta, p.k_offset), (2, 32, 8, 4));
    assert_eq!(p.n_beta_idx(), 64);
    assert_eq!(p.sentinel_indices, &[3, 0, 0, 0, 5, 0, 0, 0]);
    assert_eq!(p.tile_states, &[1, 2, 3, 4]);
    assert_eq!(p.tile_nb_totals, &[64, 0, 128, 0]);
    assert_eq!(p.substream_states.to_vec(), (0..16).collect::<Vec<u8>>());
    assert_eq!(p.substream_nb_totals.to_vec(), (100..116).collect::<Vec<u8>>());
    assert_eq!(p.tile_bitstream.to_vec(), (0..24).collect::<Vec<u8>>());
    assert_eq!(p.beta_idx_packed, &[0xB1; 24]);
    assert_eq!(p.offset_idx_packed, &[0xB2; 24]);
    assert_eq!(p.beta_lloyd_at(1, 3).map(f32::from_bits), Some(5.5));
    assert_eq!(p.beta_lloyd_at(2, 0), None);
    assert_eq!(p.beta_lloyd_at(0, 8), None);
    assert_eq!(p.offset_lloyd_at(1, 2).map(f32::from_bits), Some(-6.0));
    assert_eq!(p.offset_lloyd_at(1, 4), None);
    let q = f.llvq_tans_payload(3).unwrap();
    assert!(q.offset_idx_packed.is_empty() && q.offset_lloyd.is_empty());
    assert_eq!(q.offset_lloyd_at(0, 0), None);
}

#[test]
fn lookups() {
    let bytes = q24_file(4);
    let f = open(&bytes);
    assert_eq!(f.as_bytes(), &bytes[..]);
    let (idx, e) = f.find_tensor("blk.1").unwrap();
    assert_eq!((idx, e.name.as_str()), (3, "blk.1"));
    assert!(f.find_tensor("blk").is_none());
    assert_eq!(f.codebook_set(9).unwrap().w_max, 8);
    assert!(f.codebook_set(8).is_none());
    let tables = f.decode_tables_bytes(9).unwrap();
    assert_eq!(tables.len(), 4 * 1024 * 4);
    assert_eq!(LE::read_u32(&tables[..4]), 500);
    assert_eq!(f.codebook_set(9).unwrap().decode_entry(tables, 0, 12).unwrap().nb_bits, 2);
    assert!(f.decode_tables_bytes(0).is_none());
    assert_eq!(f.passthrough_bytes(5).unwrap(), &[9]);
}

#[test]
fn lookups_find_the_first() {
    let mut bytes = q24_file(4);
    let rec = toc_at(&bytes, 3);
    bytes[rec..rec + 5].copy_from_slice(b"blk.0");
    let second_set = LE::read_u64(&bytes[32..40]) as usize + 16416;
    LE::write_u32(&mut bytes[second_set..second_set + 4], 7);
    let f = LeechQ24File::from_bytes(&bytes, UNCHECKED).unwrap();
    assert_eq!(f.toc()[3].name, "blk.0");
    assert_eq!(f.find_tensor("blk.0").unwrap().0, 1);
    assert_eq!(f.codebooks()[1].symbol_set_id, 7);
    assert_eq!(f.codebook_set(7).unwrap().w_max, 4);
}

#[test]
fn tensor_access_errors() {
    let bytes = q24_file(4);
    let f = open(&bytes);
    match f.passthrough_bytes(1) {
        Err(LeechQ24Error::BadTocEntry { idx, reason }) => {
            assert_eq!(idx, 1);
            assert_eq!(reason, "tensor \"blk.0\" is LLVQ_TANS (not passthrough)");
        }
        _ => panic!("passthrough"),
    }
    match f.llvq_tans_payload(2) {
        Err(LeechQ24Error::NotLlvqTans { name, role }) => {
            assert_eq!((name.as_str(), role), ("head", 1));
        }
        _ => panic!("role"),
    }
    assert!(f.payload_sizes_fit(6));
    assert!(matches!(f.llvq_tans_payload(6), Err(LeechQ24Error::BadTocEntry { idx: 6, .. })));
    match f.passthrough_bytes(6) {
        Err(LeechQ24Error::BadTocEntry { idx, reason }) => {
            assert_eq!((idx, reason.as_str()), (6, "index out of range"));
        }
        _ => panic!("index"),
    }
}

fn toc_at(bytes: &[u8], idx: usize) -> usize {
    LE::read_u64(&bytes[48..56]) as usize + idx * TOC_ENTRY_SIZE
}

#[test]
fn payload_sections_that_are_not_there() {
    let base = q24_file(4);
    let len = base.len() as u64;
    // Each section of blk.0 in turn is moved past the end of the file.
    for (at, size) in [
        (284usize, 105usize),
        (300, 8),
        (316, 4),
        (324, 4),
        (428, 16),
        (436, 16),
        (332, 24),
        (348, 24),
        (364, 24),
        (380, 64),
        (388, 32),
    ] {
        let mut bytes = base.clone();
        let rec = toc_at(&bytes, 1);
        put_u64(&mut bytes, rec + at, len as usize);
        let f = LeechQ24File::from_bytes(&bytes, UNCHECKED).unwrap();
        match f.llvq_tans_payload(1) {
            Err(LeechQ24Error::Truncated { offset, needed, len: l }) => {
                assert_eq!((offset, needed, l), (len, size, len), "section at {at}");
            }
            _ => panic!("section at {at}"),
        }
    }
}

#[test]
fn section_sizes_that_do_not_fit_are_told_in_advance() {
    let mut bytes = q24_file(4);
    let rec = toc_at(&bytes, 1);
    LE::write_u64(&mut bytes[rec + 276..rec + 284], u64::MAX);
    let f = LeechQ24File::from_bytes(&bytes, UNCHECKED).unwrap();
    assert!(!f.payload_sizes_fit(1));
    assert!(f.payload_sizes_fit(3));
    let mut bytes = q24_file(4);
    LE::write_u64(&mut bytes[rec + 340..rec + 348], 1 << 61);
    let f = LeechQ24File::from_bytes(&bytes, UNCHECKED).unwrap();
    assert!(!f.payload_sizes_fit(1));
    // Behind a section that is not there no size matters.
    LE::write_u64(&mut bytes[rec + 284..rec + 292], 1 << 40);
    let f = LeechQ24File::from_bytes(&bytes, UNCHECKED).unwrap();
    assert!(f.payload_sizes_fit(1));
    assert!(f.llvq_tans_payload(1).is_err());
}

#[test]
fn load_errors_in_order() {
    let base = q24_file(4);
    assert!(matches!(
        load_error(&base[..259], CHECKED),
        LeechQ24Error::Truncated { offset: 0, needed: 260, len: 259 }
    ));
    let mut b = base.clone();
    b[0] = b'X';
    LE::write_u32(&mut b[8..12], 5);
    LE::write_u32(&mut b[12..16], 128);
    match load_error(&b, CHECKED) {
        LeechQ24Error::BadMagic { got } => assert_eq!(&got, b"XEECHQ24"),
        other => panic!("unexpected {:?}", other),
    }
    b[0] = b'L';
    assert!(matches!(load_error(&b, CHECKED), LeechQ24Error::UnsupportedVersion(5)));
    LE::write_u32(&mut b[8..12], 4);
    match load_error(&b, CHECKED) {
        LeechQ24Error::BadTocEntry { idx, reason } => {
            assert_eq!((idx, reason.as_str()), (0, "header.header_size 128 != 256"));
        }
        other => panic!("unexpected {:?}", other),
    }
    LE::write_u32(&mut b[12..16], 256);
    assert!(LeechQ24File::from_bytes(&b, CHECKED).is_ok());
    LE::write_u64(&mut b[24..32], 1 << 40);
    assert!(matches!(load_error(&b, CHECKED), LeechQ24Error::CrcMismatch { .. }));
    assert!(matches!(
        load_error(&b, UNCHECKED),
        LeechQ24Error::Truncated { offset: 256, needed: 0x100_0000_0000, .. }
    ));
    let mut b = base.clone();
    LE::write_u64(&mut b[32..40], u64::MAX);
    assert!(matches!(
        load_error(&b, UNCHECKED),
        LeechQ24Error::BadCodebookHeader { offset: u64::MAX, .. }
    ));
    let mut b = base.clone();
    LE::write_u32(&mut b[64..68], 1_000_000);
    assert!(matches!(
        load_error(&b, UNCHECKED),
        LeechQ24Error::Truncated { needed: 448_000_000, .. }
    ));
}

#[test]
fn disallowed_pairs_are_refused_on_request() {
    let mut b = q24_file(4);
    let rec = toc_at(&b, 2);
    b[rec + 201] = 0;
    match load_error(&b, UNCHECKED) {
        LeechQ24Error::BadTocEntry { idx, reason } => {
            assert_eq!(idx, 2);
            assert_eq!(reason, "invalid (role=Fp8Passthrough, dtype=Bf16) for tensor \"head\"");
        }
        other => panic!("unexpected {:?}", other),
    }
    let lax = OpenOptions { verify_crc: false, validate_toc: false };
    let f = LeechQ24File::from_bytes(&b, lax).unwrap();
    assert_eq!(f.toc()[2].dtype_tag, DtypeTag::Bf16);
    b[rec + 200] = 44;
    match load_error(&b, lax) {
        LeechQ24Error::BadTocEntry { idx, reason } => {
            assert_eq!((idx, reason.as_str()), (2, "unknown role byte 44"));
        }
        other => panic!("unexpected {:?}", other),
    }
}

#[test]
fn q24_checksums() {
    let mut bytes = q24_file(3);
    let f = open(&bytes);
    let stored = f.stored_crc();
    let computed = f.compute_crc();
    assert_eq!(stored, computed, "CRC32 mismatch");
    assert_eq!(computed, crc32fast::hash(&bytes[..bytes.len() - 4]));
    let last = bytes.len() - 5;
    bytes[last] ^= 1;
    let f = LeechQ24File::from_bytes(&bytes, UNCHECKED).unwrap();
    assert_eq!(f.stored_crc(), stored);
    let changed = f.compute_crc();
    assert_ne!(changed, stored);
    match load_error(&bytes, CHECKED) {
        LeechQ24Error::CrcMismatch { file, computed } => {
            assert_eq!((file, computed), (stored, changed));
        }
        other => panic!("unexpected {:?}", other),
    }
}
