//! The `.leech` reader on hand-made files and records.

use byteorder::{ByteOrder, LittleEndian as LE};
use half::bf16;
use mistralrs_leech::leech::container::{validate_role_dtype, FLAG_HAS_OVERLAYS, TOC_NAME_LEN};
use mistralrs_leech::leech::fp8::{
    build_lut, fp8_byte_to_bf16, fp8_byte_to_bf16_bits, fp8_bytes_to_bf16, fp8_bytes_to_bf16_into,
};
use mistralrs_leech::leech::overlay::OVERLAY_HEADER_SIZE;
use mistralrs_leech::leech::payload::{idx_bits_for_total, PAYLOAD_HEADER_SIZE};
use mistralrs_leech::leech::{
    parse_overlay_block, slice_or_truncated, DtypeTag, GlobalInfo, Header, LeechError, LeechFile,
    LlvqPayload, Manifest, OpenOptions, OverlayKind, Role, TocEntry, EXPECTED_SCHEMA,
    FIXED_PREFIX_SIZE, HEADER_SIZE, MAGIC, TOC_ENTRY_SIZE,
};

// ── Container records ────────────────────────────────────────────────────

#[test]
fn magic_bytes() {
    assert_eq!(&MAGIC, b"LEECHv01");
}

#[test]
fn header_size_constants() {
    assert_eq!(HEADER_SIZE, 64);
    assert_eq!(FIXED_PREFIX_SIZE, 72);
    assert_eq!(TOC_ENTRY_SIZE, 128);
}

#[test]
fn role_roundtrip() {
    for v in 0..=3u8 {
        let r = Role::from_u8(v).unwrap();
        assert_eq!(r as u8, v);
    }
    assert!(Role::from_u8(99).is_err());
}

#[test]
fn dtype_tag_roundtrip() {
    for v in 0..=5u8 {
        let d = DtypeTag::from_u8(v).unwrap();
        assert_eq!(d as u8, v);
    }
    assert!(DtypeTag::from_u8(99).is_err());
}

fn toc_reason(r: Result<TocEntry, LeechError>) -> (usize, String) {
    match r {
        Err(LeechError::BadTocEntry { idx, reason }) => (idx, reason),
        other => panic!("unexpected {:?}", other),
    }
}

#[test]
fn unknown_tags_name_the_byte() {
    match Role::from_u8(4) {
        Err(LeechError::BadTocEntry { idx, reason }) => {
            assert_eq!(idx, 0);
            assert_eq!(reason, "unknown role 4");
        }
        other => panic!("unexpected {:?}", other),
    }
    match DtypeTag::from_u8(255) {
        Err(LeechError::BadTocEntry { idx, reason }) => {
            assert_eq!(idx, 0);
            assert_eq!(reason, "unknown dtype_tag 255");
        }
        other => panic!("unexpected {:?}", other),
    }
    match OverlayKind::from_u8(2) {
        Err(LeechError::BadOverlay(reason)) => assert_eq!(reason, "unknown overlay kind 2"),
        other => panic!("unexpected {:?}", other),
    }
}

#[test]
fn elem_sizes() {
    assert_eq!(DtypeTag::Bf16.elem_size(), Some(2));
    assert_eq!(DtypeTag::Fp8E4m3.elem_size(), Some(1));
    assert_eq!(DtypeTag::Fp16.elem_size(), Some(2));
    assert_eq!(DtypeTag::Fp32.elem_size(), Some(4));
    assert_eq!(DtypeTag::Int8.elem_size(), Some(1));
    assert_eq!(DtypeTag::Packed.elem_size(), None);
}

#[test]
fn role_dtype_matrix() {
    let roles = [Role::Llvq, Role::Fp8E4m3, Role::Bf16, Role::Fp16Overlay];
    let dtypes = [
        DtypeTag::Bf16,
        DtypeTag::Fp8E4m3,
        DtypeTag::Fp16,
        DtypeTag::Fp32,
        DtypeTag::Int8,
        DtypeTag::Packed,
    ];
    for role in roles {
        for dtype in dtypes {
            let expected = match role {
                Role::Llvq => dtype == DtypeTag::Packed,
                Role::Fp8E4m3 => dtype == DtypeTag::Fp8E4m3,
                Role::Bf16 => dtype == DtypeTag::Bf16,
                Role::Fp16Overlay => dtype == DtypeTag::Fp16,
            };
            match validate_role_dtype(role, dtype) {
                Ok(()) => assert!(expected),
                Err(LeechError::BadTocEntry { idx, reason }) => {
                    assert!(!expected);
                    assert_eq!(idx, 0);
                    assert_eq!(
                        reason,
                        format!("invalid (role={:?}, dtype={:?}) combination", role, dtype)
                    );
                }
                other => panic!("unexpected {:?}", other),
            }
        }
    }
}

#[test]
fn header_fields_are_little_endian() {
    let mut buf = vec![0u8; HEADER_SIZE];
    LE::write_u32(&mut buf[0..4], 1);
    LE::write_u32(&mut buf[4..8], 64);
    LE::write_u64(&mut buf[8..16], 0x0102_0304_0506_0708);
    LE::write_u64(&mut buf[16..24], 17);
    LE::write_u64(&mut buf[24..32], 18);
    LE::write_u64(&mut buf[32..40], 19);
    LE::write_u64(&mut buf[40..48], 20);
    LE::write_u32(&mut buf[48..52], 21);
    LE::write_u32(&mut buf[52..56], 0xDEAD_BEEF);
    LE::write_u32(&mut buf[56..60], 0x0000_0012);
    LE::write_u32(&mut buf[60..64], FLAG_HAS_OVERLAYS);
    let h = Header::unpack(&buf).unwrap();
    assert_eq!(h.format_version, 1);
    assert_eq!(h.header_size, 64);
    assert_eq!(h.manifest_json_offset, 0x0102_0304_0506_0708);
    assert_eq!(h.manifest_json_size, 17);
    assert_eq!(h.toc_offset, 18);
    assert_eq!(h.toc_entry_count, 19);
    assert_eq!(h.payload_offset, 20);
    assert_eq!(h.static_tables_offset, 21);
    assert_eq!(h.overlay_block_offset, 0x0000_0012_DEAD_BEEF);
    assert!(h.has_overlays());
    LE::write_u32(&mut buf[60..64], 0xFFFF_FFFE);
    assert!(!Header::unpack(&buf).unwrap().has_overlays());
    assert!(matches!(
        Header::unpack(&buf[..63]),
        Err(LeechError::Truncated { offset: 8, needed: 64, len: 63 })
    ));
}

fn toc_record(name: &[u8], role: u8, dtype: u8, shape: &[u32], off: u64, size: u64) -> Vec<u8> {
    let mut buf = vec![0u8; TOC_ENTRY_SIZE];
    buf[..name.len()].copy_from_slice(name);
    buf[64] = role;
    buf[65] = dtype;
    LE::write_u16(&mut buf[66..68], shape.len() as u16);
    for (i, d) in shape.iter().enumerate() {
        LE::write_u32(&mut buf[68 + 4 * i..72 + 4 * i], *d);
    }
    LE::write_u64(&mut buf[100..108], off);
    LE::write_u64(&mut buf[108..116], size);
    buf
}

#[test]
fn toc_entry_fields() {
    let mut buf = toc_record(b"blk.0", 0, 5, &[7, 48, 3], 1000, 2000);
    LE::write_u32(&mut buf[116..120], 31);
    LE::write_u32(&mut buf[120..124], 32);
    LE::write_u32(&mut buf[124..128], 0xABCD_EF01);
    let e = TocEntry::unpack(&buf, 9).unwrap();
    assert_eq!(e.name, "blk.0");
    assert_eq!(e.role, Role::Llvq);
    assert_eq!(e.dtype_tag, DtypeTag::Packed);
    assert_eq!(e.rank, 3);
    assert_eq!(e.shape, vec![7, 48, 3]);
    assert_eq!(e.payload_offset, 1000);
    assert_eq!(e.payload_size, 2000);
    assert_eq!(e.static_table_offset, 31);
    assert_eq!(e.static_table_size, 32);
    assert_eq!(e.crc32, 0xABCD_EF01);
}

#[test]
fn toc_entry_name_may_fill_its_field() {
    let name = [b'n'; TOC_NAME_LEN];
    let e = TocEntry::unpack(&toc_record(&name, 2, 0, &[], 0, 0), 0).unwrap();
    assert_eq!(e.name.len(), 64);
    let accented = "caf\u{e9}";
    let e = TocEntry::unpack(&toc_record(accented.as_bytes(), 2, 0, &[1; 8], 0, 0), 0).unwrap();
    assert_eq!(e.name, accented);
    assert_eq!(e.shape, vec![1; 8]);
}

#[test]
fn toc_entry_errors_in_order() {
    let short = vec![0u8; 100];
    assert_eq!(
        toc_reason(TocEntry::unpack(&short, 3)),
        (3, "entry too short: 100 < 128".to_owned())
    );
    // A bad name comes before a bad role, a bad role before a bad dtype, and a
    // bad dtype before a bad rank.
    let mut buf = toc_record(b"x", 9, 9, &[], 0, 0);
    LE::write_u16(&mut buf[66..68], 9);
    buf[0] = 0xFF;
    match TocEntry::unpack(&buf, 3) {
        Err(LeechError::Utf8(e)) => assert_eq!(e.valid_up_to(), 0),
        other => panic!("unexpected {:?}", other),
    }
    buf[0] = b'x';
    assert_eq!(toc_reason(TocEntry::unpack(&buf, 3)), (3, "unknown role byte 9".to_owned()));
    buf[64] = 1;
    assert_eq!(toc_reason(TocEntry::unpack(&buf, 3)), (3, "unknown dtype_tag byte 9".to_owned()));
    buf[65] = 1;
    assert_eq!(toc_reason(TocEntry::unpack(&buf, 3)), (3, "rank 9 exceeds 8".to_owned()));
    LE::write_u16(&mut buf[66..68], 8);
    assert!(TocEntry::unpack(&buf, 3).is_ok());
}

// ── fp8 ──────────────────────────────────────────────────────────────────

#[test]
fn zero_and_neg_zero() {
    assert_eq!(fp8_byte_to_bf16_bits(0x00), 0x0000);
    assert_eq!(fp8_byte_to_bf16_bits(0x80), 0x8000);
}

#[test]
fn nan_encoding() {
    // 0x7F = 0 1111 111 → NaN
    let pos = fp8_byte_to_bf16(0x7F);
    let neg = fp8_byte_to_bf16(0xFF);
    assert!(pos.is_nan());
    assert!(neg.is_nan());
}

#[test]
fn one_dot_zero() {
    // fp8 1.0 = 0 0111 000 = 0x38
    let v = fp8_byte_to_bf16(0x38);
    assert_eq!(v, bf16::from_f32(1.0));
}

#[test]
fn negative_one() {
    // fp8 -1.0 = 1 0111 000 = 0xB8
    let v = fp8_byte_to_bf16(0xB8);
    assert_eq!(v, bf16::from_f32(-1.0));
}

#[test]
fn power_of_two() {
    // fp8 2.0 = 0 1000 000 = 0x40
    let v = fp8_byte_to_bf16(0x40);
    assert_eq!(v, bf16::from_f32(2.0));
    // fp8 0.5 = 0 0110 000 = 0x30
    let v = fp8_byte_to_bf16(0x30);
    assert_eq!(v, bf16::from_f32(0.5));
}

#[test]
fn subnormal_smallest() {
    // fp8 smallest positive subnormal = 0 0000 001 = 0x01 → 2^-9
    let v = fp8_byte_to_bf16(0x01);
    let expected = bf16::from_f32(1.0f32 / 512.0);
    assert_eq!(v, expected);
}

#[test]
fn lut_is_initialized_lazily() {
    let _ = fp8_byte_to_bf16_bits(0);
    let _ = fp8_byte_to_bf16_bits(1);
}

#[test]
fn every_fp8_number_keeps_its_value() {
    let lut = build_lut();
    for b in 0..=255u8 {
        assert_eq!(lut[b as usize], fp8_byte_to_bf16_bits(b));
        let sign = if b & 0x80 != 0 { -1.0f32 } else { 1.0 };
        let exp = ((b >> 3) & 0xF) as i32;
        let mant = (b & 7) as f32;
        let v = fp8_byte_to_bf16(b);
        if exp == 15 && mant == 7.0 {
            assert!(v.is_nan());
            assert_eq!(v.to_bits() & 0x7FFF, 0x7FC0);
        } else if exp == 0 {
            assert_eq!(v.to_f32(), sign * mant / 512.0);
        } else {
            assert_eq!(v.to_f32(), sign * (1.0 + mant / 8.0) * 2f32.powi(exp - 7));
        }
    }
}

#[test]
fn bulk_conversion_goes_byte_by_byte() {
    let bytes = [0x38u8, 0xB8, 0x00, 0x01];
    let out = fp8_bytes_to_bf16(&bytes);
    let bits: Vec<u16> = out.iter().map(|v| v.to_bits()).collect();
    assert_eq!(bits, vec![0x3F80, 0xBF80, 0x0000, 0x3B00]);
    let mut dst = vec![bf16::from_f32(9.0); 4];
    fp8_bytes_to_bf16_into(&bytes, &mut dst);
    assert_eq!(dst, out);
    assert!(fp8_bytes_to_bf16(&[]).is_empty());
}

// ── Payload ──────────────────────────────────────────────────────────────

#[test]
fn header_size_locked() {
    assert_eq!(PAYLOAD_HEADER_SIZE, 24);
}

#[test]
fn idx_bits_basics() {
    assert_eq!(idx_bits_for_total(1), 1);
    assert_eq!(idx_bits_for_total(2), 1);
    assert_eq!(idx_bits_for_total(3), 2);
    assert_eq!(idx_bits_for_total(4), 2);
    assert_eq!(idx_bits_for_total(5), 3);
    // ms=18 lives in the (2^53, 2^54] range → 54 bits.
    assert_eq!(idx_bits_for_total((1u64 << 53) + 1), 54);
}

#[test]
fn idx_bits_at_the_ends() {
    assert_eq!(idx_bits_for_total(0), 1);
    assert_eq!(idx_bits_for_total(1u64 << 54), 54);
    assert_eq!(idx_bits_for_total((1u64 << 54) + 1), 55);
    assert_eq!(idx_bits_for_total(1u64 << 63), 63);
    assert_eq!(idx_bits_for_total(u64::MAX), 64);
}

fn payload_header(r: u32, b: u32, has_offset: bool, idx_bits: u16, leftover_kind: u8) -> Vec<u8> {
    let mut p = vec![0u8; PAYLOAD_HEADER_SIZE];
    LE::write_u32(&mut p[0..4], r);
    LE::write_u32(&mut p[4..8], b * 24);
    LE::write_u32(&mut p[8..12], b);
    p[12] = 18;
    p[13] = 8;
    p[14] = if has_offset { 8 } else { 0 };
    p[15] = has_offset as u8;
    LE::write_u16(&mut p[16..18], idx_bits);
    p[18] = leftover_kind;
    p
}

/// R=2, B=1, 54-bit indices, offsets: 32 + 32 codebook bytes and
/// ceil(2 * 60 / 8) = 15 stream bytes.
fn small_payload(leftover_kind: u8, leftover: usize) -> Vec<u8> {
    let mut p = payload_header(2, 1, true, 54, leftover_kind);
    p.extend((0..32).map(|i| i as u8));
    p.extend((0..32).map(|i| 100 + i as u8));
    p.extend((0..15).map(|i| 200 + i as u8));
    p.extend(vec![0xEEu8; leftover]);
    p
}

#[test]
fn payload_sections_in_order() {
    let p = small_payload(2, 6);
    assert!(LlvqPayload::sizes_fit(&p));
    let v = LlvqPayload::parse(&p, "t").unwrap();
    assert_eq!((v.r, v.n_done, v.b), (2, 24, 1));
    assert_eq!((v.ms_used, v.k_beta, v.k_offset), (18, 8, 8));
    assert!(v.has_offset);
    assert_eq!((v.idx_bits, v.leftover_kind, v.per_block_bits), (54, 2, 60));
    assert_eq!(v.beta_codebook, &p[24..56]);
    assert_eq!(v.offset_codebook, &p[56..88]);
    assert_eq!(v.packed_stream, &p[88..103]);
    assert_eq!(v.leftover, &p[103..109]);
    let mut joined = p[..24].to_vec();
    joined.extend_from_slice(v.beta_codebook);
    joined.extend_from_slice(v.offset_codebook);
    joined.extend_from_slice(v.packed_stream);
    joined.extend_from_slice(v.leftover);
    assert_eq!(joined, p);
    let beta = v.beta_codebook_f16();
    assert_eq!(beta.len(), 16);
    assert_eq!(beta[0], 0x0100);
    assert_eq!(beta[15], 0x1F1E);
    let offset = v.offset_codebook_f16();
    assert_eq!(offset.len(), 16);
    assert_eq!(offset[0], 0x6564);
}

#[test]
fn payload_without_offsets_or_leftover() {
    let mut p = payload_header(1, 2, false, 48, 1);
    p.extend(vec![1u8; 16]);
    // 2 * 51 = 102 bits: 13 bytes; what follows is not leftover.
    p.extend(vec![2u8; 13]);
    p.extend(vec![3u8; 5]);
    let v = LlvqPayload::parse(&p, "t").unwrap();
    assert_eq!(v.per_block_bits, 51);
    assert!(v.offset_codebook.is_empty());
    assert!(v.offset_codebook_f16().is_empty());
    assert_eq!(v.packed_stream, &[2u8; 13]);
    assert!(v.leftover.is_empty());
}

fn payload_reason(p: &[u8]) -> String {
    match LlvqPayload::parse(p, "blk") {
        Err(LeechError::BadPayloadHeader { name, reason }) => {
            assert_eq!(name, "blk");
            reason
        }
        other => panic!("unexpected {:?}", other),
    }
}

#[test]
fn payload_errors() {
    assert_eq!(payload_reason(&[0u8; 23]), "payload too short for header: 23 < 24");
    let good = small_payload(0, 0);
    let mut p = good.clone();
    LE::write_u16(&mut p[16..18], 65);
    assert_eq!(payload_reason(&p), "idx_bits out of range: 65");
    LE::write_u16(&mut p[16..18], 0);
    assert_eq!(payload_reason(&p), "idx_bits out of range: 0");
    let mut p = good.clone();
    p[18] = 3;
    assert_eq!(payload_reason(&p), "leftover_kind out of range: 3");
    let mut p = good.clone();
    LE::write_u32(&mut p[4..8], 25);
    assert_eq!(
        payload_reason(&p),
        "n_done 25 / B 1 mismatch (must satisfy n_done = B * 24)"
    );
    LE::write_u32(&mut p[4..8], 48);
    assert_eq!(
        payload_reason(&p),
        "n_done 48 / B 1 mismatch (must satisfy n_done = B * 24)"
    );
    let mut p = good.clone();
    p[13] = 0;
    assert_eq!(payload_reason(&p), "k_beta must be > 0");
    let mut p = good.clone();
    p[14] = 0;
    assert_eq!(payload_reason(&p), "has_offset=1 but k_offset=0");
    let mut p = good.clone();
    p[15] = 0;
    assert_eq!(payload_reason(&p), "has_offset=0 but k_offset=8");
    assert_eq!(
        payload_reason(&good[..40]),
        "payload truncated reading beta_codebook: need 32 at 24, have 16"
    );
    assert_eq!(
        payload_reason(&good[..60]),
        "payload truncated reading offset_codebook: need 32 at 56, have 4"
    );
    assert_eq!(
        payload_reason(&good[..102]),
        "payload truncated reading packed_stream: need 15 at 88, have 14"
    );
    assert!(LlvqPayload::parse(&good, "blk").is_ok());
}

#[test]
fn payload_sizes_that_do_not_fit_are_told_in_advance() {
    assert!(LlvqPayload::sizes_fit(&[]));
    let mut p = payload_header(u32::MAX, 1, false, 64, 0);
    LE::write_u32(&mut p[4..8], 178_956_970 * 24);
    LE::write_u32(&mut p[8..12], 178_956_970);
    // The beta codebook is not there, so the stream's size is never needed.
    assert!(LlvqPayload::sizes_fit(&p));
    assert!(LlvqPayload::parse(&p, "t").is_err());
}

// ── Overlays ─────────────────────────────────────────────────────────────

#[test]
fn empty_block_is_empty() {
    assert!(parse_overlay_block(&[]).unwrap().is_empty());
}

#[test]
fn truncated_header_fails() {
    let bad = [0u8; 8];
    assert!(parse_overlay_block(&bad).is_err());
}

/// Synthesize a minimal overlay block with one entry and verify it roundtrips.
#[test]
fn synthetic_single_entry() {
    let name = "block24.safetensors";
    let payload = b"\x01\x02\x03\x04\x05";
    // entry header: 4 B + name_len = 4 + 19 = 23, pad to 24, +16 = 40.
    let entry_header_unpadded = 4 + name.len();
    let pad = (4 - (entry_header_unpadded % 4)) % 4; // = 1
    let entry_header_total = entry_header_unpadded + pad + 16; // 40
    let payload_offset = OVERLAY_HEADER_SIZE + entry_header_total; // 56
    let total = payload_offset + payload.len();

    let mut block = vec![0u8; total];
    LE::write_u32(&mut block[0..4], 1); // overlay_count
    LE::write_u32(&mut block[4..8], total as u32);
    // bytes 8..16 reserved 0.

    let mut cur = OVERLAY_HEADER_SIZE;
    block[cur] = OverlayKind::Block24 as u8;
    // block[cur+1] reserved
    LE::write_u16(&mut block[cur + 2..cur + 4], name.len() as u16);
    cur += 4;
    block[cur..cur + name.len()].copy_from_slice(name.as_bytes());
    cur += name.len();
    cur += pad;
    LE::write_u64(&mut block[cur..cur + 8], payload_offset as u64);
    LE::write_u64(&mut block[cur + 8..cur + 16], payload.len() as u64);
    cur += 16;
    assert_eq!(cur, payload_offset);
    block[payload_offset..payload_offset + payload.len()].copy_from_slice(payload);

    let parsed = parse_overlay_block(&block).unwrap();
    assert_eq!(parsed.len(), 1);
    assert_eq!(parsed[0].kind, OverlayKind::Block24);
    assert_eq!(parsed[0].name, name);
    assert_eq!(parsed[0].payload, payload);
}

/// Lays out an overlay block: header, entry headers, payloads.
fn overlay_block(entries: &[(u8, &str, &[u8])]) -> Vec<u8> {
    let mut heads = OVERLAY_HEADER_SIZE;
    for (_, name, _) in entries {
        heads = (heads + 4 + name.len() + 3) / 4 * 4 + 16;
    }
    let mut block = vec![0u8; OVERLAY_HEADER_SIZE];
    let mut at = heads;
    for (kind, name, payload) in entries {
        block.push(*kind);
        block.push(0);
        block.extend_from_slice(&(name.len() as u16).to_le_bytes());
        block.extend_from_slice(name.as_bytes());
        while block.len() % 4 != 0 {
            block.push(0);
        }
        block.extend_from_slice(&(at as u64).to_le_bytes());
        block.extend_from_slice(&(payload.len() as u64).to_le_bytes());
        at += payload.len();
    }
    for (_, _, payload) in entries {
        block.extend_from_slice(payload);
    }
    let total = block.len() as u32;
    LE::write_u32(&mut block[0..4], entries.len() as u32);
    LE::write_u32(&mut block[4..8], total);
    block
}

#[test]
fn several_overlays_roundtrip() {
    let entries: [(u8, &str, &[u8]); 3] =
        [(0, "block24.safetensors", b"abc"), (1, "", b""), (1, "lora", b"\x00\xff")];
    let block = overlay_block(&entries);
    let parsed = parse_overlay_block(&block).unwrap();
    assert_eq!(parsed.len(), 3);
    for (p, (kind, name, payload)) in parsed.iter().zip(entries.iter()) {
        assert_eq!(p.kind as u8, *kind);
        assert_eq!(&p.name, name);
        assert_eq!(&p.payload, payload);
    }
}

fn overlay_reason(block: &[u8]) -> String {
    match parse_overlay_block(block) {
        Err(LeechError::BadOverlay(reason)) => reason,
        other => panic!("unexpected {:?}", other),
    }
}

#[test]
fn overlay_errors() {
    assert_eq!(overlay_reason(&[0u8; 15]), "overlay block too short: 15 < 16");
    let good = overlay_block(&[(0, "abcd", b"xyz")]);
    let len = good.len();
    let mut b = good.clone();
    LE::write_u32(&mut b[4..8], 5);
    assert_eq!(overlay_reason(&b), format!("overlay total_size 5 != block length {len}"));
    let mut b = good.clone();
    LE::write_u32(&mut b[0..4], 2);
    // The second entry would start inside the payload.
    assert_eq!(overlay_reason(&b), "truncated overlay entry header at idx 1");
    let mut b = good.clone();
    b[16] = 7;
    assert_eq!(overlay_reason(&b), "unknown overlay kind 7");
    let mut b = good.clone();
    LE::write_u16(&mut b[18..20], 60_000);
    assert_eq!(overlay_reason(&b), "overlay name truncated at idx 0");
    let mut b = good.clone();
    b[20] = 0xC0;
    assert!(matches!(parse_overlay_block(&b), Err(LeechError::Utf8(_))));
    let mut b = good.clone();
    LE::write_u16(&mut b[18..20], 20);
    assert_eq!(overlay_reason(&b), "overlay payload header truncated at idx 0");
    let mut b = good.clone();
    LE::write_u64(&mut b[24..32], u64::MAX);
    assert_eq!(overlay_reason(&b), "payload offset overflow at idx 0");
    let mut b = good.clone();
    LE::write_u64(&mut b[32..40], 4);
    assert_eq!(
        overlay_reason(&b),
        format!("overlay payload 0 extends past block: {} > {len}", len + 1)
    );
}

// ── Whole files ──────────────────────────────────────────────────────────

#[test]
fn schema_constant_is_canonical() {
    assert_eq!(EXPECTED_SCHEMA, "LLVQ_NIEMEIER_G24_v1");
}

#[test]
fn slice_truncated_detects_overflow() {
    let bytes = vec![0u8; 100];
    assert!(slice_or_truncated(&bytes, 50, 60).is_err());
    assert!(slice_or_truncated(&bytes, 50, 50).is_ok());
}

#[test]
fn slice_reports_what_it_needed() {
    let bytes = [1u8, 2, 3, 4];
    assert_eq!(slice_or_truncated(&bytes, 1, 2).unwrap(), &[2, 3]);
    assert!(slice_or_truncated(&bytes, 4, 0).unwrap().is_empty());
    assert!(matches!(
        slice_or_truncated(&bytes, 3, 2),
        Err(LeechError::Truncated { offset: 3, needed: 2, len: 4 })
    ));
    assert!(matches!(
        slice_or_truncated(&bytes, usize::MAX, 2),
        Err(LeechError::Truncated { offset: u64::MAX, needed: 2, len: 4 })
    ));
}

struct Spec {
    name: String,
    role: u8,
    dtype: u8,
    shape: Vec<u32>,
    payload: Vec<u8>,
    static_table: (u32, u32),
}

fn spec(name: &str, role: u8, dtype: u8, shape: &[u32], payload: Vec<u8>) -> Spec {
    Spec { name: name.to_owned(), role, dtype, shape: shape.to_vec(), payload, static_table: (0, 0) }
}

fn pad64(out: &mut Vec<u8>) {
    while out.len() % 64 != 0 {
        out.push(0);
    }
}

/// Writes a `.leech` file.
fn leech_file(manifest: &str, specs: &[Spec], overlays: &[(u8, &str, &[u8])]) -> Vec<u8> {
    let mut out = MAGIC.to_vec();
    out.extend(vec![0u8; HEADER_SIZE]);
    let m_off = out.len();
    out.extend_from_slice(manifest.as_bytes());
    pad64(&mut out);
    let toc_off = out.len();
    out.extend(vec![0u8; specs.len() * TOC_ENTRY_SIZE]);
    pad64(&mut out);
    let tables_off = out.len();
    out.extend((0..64).map(|i| i as u8));
    let payload_off = out.len();
    for (i, s) in specs.iter().enumerate() {
        let at = out.len() as u64;
        let mut rec =
            toc_record(s.name.as_bytes(), s.role, s.dtype, &s.shape, at, s.payload.len() as u64);
        LE::write_u32(&mut rec[116..120], s.static_table.0);
        LE::write_u32(&mut rec[120..124], s.static_table.1);
        out[toc_off + i * TOC_ENTRY_SIZE..toc_off + (i + 1) * TOC_ENTRY_SIZE].copy_from_slice(&rec);
        out.extend_from_slice(&s.payload);
        pad64(&mut out);
    }
    let overlay_off = out.len();
    if !overlays.is_empty() {
        out.extend_from_slice(&overlay_block(overlays));
    }
    let h = &mut out[8..72];
    LE::write_u32(&mut h[0..4], 1);
    LE::write_u32(&mut h[4..8], 64);
    LE::write_u64(&mut h[8..16], m_off as u64);
    LE::write_u64(&mut h[16..24], manifest.len() as u64);
    LE::write_u64(&mut h[24..32], toc_off as u64);
    LE::write_u64(&mut h[32..40], specs.len() as u64);
    LE::write_u64(&mut h[40..48], payload_off as u64);
    LE::write_u32(&mut h[48..52], tables_off as u32);
    if !overlays.is_empty() {
        LE::write_u32(&mut h[52..56], overlay_off as u32);
        LE::write_u32(&mut h[60..64], FLAG_HAS_OVERLAYS);
    }
    let crc = crc32fast::hash(&out);
    out.extend_from_slice(&crc.to_le_bytes());
    out
}

const MANIFEST: &str =
    "{\"format_version\":1,\"structural_schema_version\":\"LLVQ_NIEMEIER_G24_v1\",\"tool\":\"t\"}";

fn parse_manifest(text: &[u8]) -> Result<Manifest, serde_json::Error> {
    let v: serde_json::Value = serde_json::from_slice(text)?;
    let mut m = Manifest::default();
    m.format_version = v["format_version"].as_u64().unwrap_or(0) as u32;
    m.structural_schema_version =
        v["structural_schema_version"].as_str().unwrap_or("").to_owned();
    Ok(m)
}

fn load(bytes: &[u8], opts: OpenOptions) -> Result<LeechFile<'_>, LeechError> {
    let text = LeechFile::manifest_bytes(bytes)?;
    LeechFile::from_bytes(bytes, parse_manifest(text), opts)
}

/// The tensor mix of the base bundle: 248 LLVQ, 2 fp8 and 177 bf16 tensors.
fn fixture() -> Vec<u8> {
    let mut specs = Vec::new();
    for i in 0..248 {
        specs.push(spec(&format!("blk.{i}.weight"), 0, 5, &[2, 24], small_payload(0, 0)));
    }
    specs.push(spec("lm_head.weight", 1, 1, &[2, 2], vec![0x38; 4]));
    specs.push(spec("embed.weight", 1, 1, &[2, 2], vec![0x40; 4]));
    for i in 0..177 {
        specs.push(spec(&format!("norm.{i}"), 2, 0, &[3], vec![i as u8; 6]));
    }
    leech_file(MANIFEST, &specs, &[(0, "block24", b"B"), (1, "lora", b"LL")])
}

const CHECKED: OpenOptions = OpenOptions { verify_crc: true, require_schema: true };

#[test]
fn parse_qwopus_fixture_basics() {
    let bytes = fixture();
    let f = load(&bytes, OpenOptions::default()).expect("open .leech");

    // Header sanity.
    let h = f.header();
    assert_eq!(h.format_version, 1);
    assert!(h.toc_entry_count > 0);
    assert!(h.payload_offset >= h.toc_offset + h.toc_entry_count * 128);

    // Manifest sanity.
    let m = f.manifest();
    assert_eq!(m.format_version, 1);
    assert_eq!(m.structural_schema_version, "LLVQ_NIEMEIER_G24_v1");

    // 248 LLVQ + 2 fp8 + 177 bf16 = 427 tensors for V6-base.
    println!("tensor_count = {}", f.tensor_count());
    let mut role_counts = [0usize; 4];
    for entry in f.toc() {
        role_counts[entry.role as usize] += 1;
    }
    // Hard floors based on V6-base bundle.
    assert!(role_counts[Role::Llvq as usize] >= 200);
    assert!(role_counts[Role::Bf16 as usize] >= 100);
    assert_eq!(f.tensor_count(), 427);
    assert_eq!(role_counts, [248, 2, 177, 0]);
}

#[test]
fn parse_one_llvq_payload() {
    let bytes = fixture();
    let f = load(&bytes, OpenOptions::default()).expect("open .leech");

    // Find the first LLVQ tensor and parse its payload header.
    let (idx, entry) = f
        .toc()
        .iter()
        .enumerate()
        .find(|(_, e)| e.role == Role::Llvq)
        .expect("at least one LLVQ tensor");

    assert_eq!(entry.dtype_tag, DtypeTag::Packed);
    let p = f.parse_llvq_payload(idx).expect("parse payload");

    // ms_used must be ≤ 18 for V6.
    assert!(p.ms_used <= 18, "ms_used out of expected range: {}", p.ms_used);
    // idx_bits must match per-block bit width arithmetic.
    let expected_bits = p.idx_bits as u32 + 3 + if p.has_offset { 3 } else { 0 };
    assert_eq!(p.per_block_bits, expected_bits);

    // β codebook length cross-check.
    let beta = p.beta_codebook_f16();
    assert_eq!(beta.len(), p.r as usize * p.k_beta as usize);

    // Packed stream length cross-check.
    let total_bits = p.r as usize * p.b as usize * p.per_block_bits as usize;
    let expected_stream = (total_bits + 7) / 8;
    assert_eq!(p.packed_stream.len(), expected_stream);
}

#[test]
fn crc_verifies() {
    let bytes = fixture();
    let _f = load(&bytes, OpenOptions { verify_crc: true, require_schema: true })
        .expect("CRC must verify");
}

#[test]
fn overlay_present_for_ft_bundle() {
    let bytes = fixture();
    let f = load(&bytes, OpenOptions::default()).expect("open .leech");
    if f.header().has_overlays() {
        let overlays = f.overlays().expect("parse overlays");
        println!("overlay_count = {}", overlays.len());
        // V6b has block24 + lora = 2 overlays.
        assert!(!overlays.is_empty());
    }
    let overlays = f.overlays().expect("parse overlays");
    assert_eq!(overlays.len(), 2);
    assert_eq!(overlays[0].name, "block24");
    assert_eq!(overlays[0].payload, b"B");
    assert_eq!(overlays[1].kind, OverlayKind::Lora);
    assert_eq!(overlays[1].payload, b"LL");
}

#[test]
fn default_options_enforce_the_schema() {
    let o = OpenOptions::default();
    assert!(!o.verify_crc);
    assert!(o.require_schema);
}

#[test]
fn default_manifest_is_empty() {
    let m = Manifest::default();
    assert_eq!(m.format_version, 0);
    assert_eq!(m.structural_schema_version, "");
    assert!(m.extra.is_empty());
    let g = GlobalInfo::default();
    assert!(g.ms_bulk.is_none() && g.overlay_count.is_none() && g.leftover_columns_zero.is_none());
}

#[test]
fn cloned_manifest_is_the_same() {
    let mut m = Manifest::default();
    m.format_version = 3;
    m.structural_schema_version = "schema".to_owned();
    m.global.ms_bulk = Some(18);
    m.extra.insert("note".to_owned(), serde_json::Value::from(7));
    let c = m.clone();
    assert_eq!(c.format_version, 3);
    assert_eq!(c.structural_schema_version, "schema");
    assert_eq!(c.global.ms_bulk, Some(18));
    assert_eq!(c.extra, m.extra);
    assert_eq!(c.extra["note"], 7);
}

#[test]
fn prefix_errors_in_order() {
    let bytes = fixture();
    let at_least = FIXED_PREFIX_SIZE + 4;
    assert!(matches!(
        load(&bytes[..75], CHECKED),
        Err(LeechError::Truncated { offset: 0, needed: 76, len: 75 })
    ));
    assert_eq!(at_least, 76);
    let mut b = bytes.clone();
    b[7] = b'2';
    LE::write_u32(&mut b[8..12], 2);
    match load(&b, CHECKED) {
        Err(LeechError::BadMagic { got }) => assert_eq!(&got, b"LEECHv02"),
        _ => panic!("bad magic"),
    }
    b[7] = b'1';
    assert!(matches!(load(&b, CHECKED), Err(LeechError::UnsupportedVersion(2))));
    LE::write_u32(&mut b[8..12], 1);
    LE::write_u64(&mut b[24..32], 1 << 40);
    let len = b.len() as u64;
    match load(&b, CHECKED) {
        Err(LeechError::Truncated { offset, needed, len: l }) => {
            assert_eq!((offset, needed, l), (72, 1 << 40, len));
        }
        _ => panic!("manifest range"),
    }
}

#[test]
fn manifest_errors() {
    let bad = leech_file("{", &[], &[]);
    assert!(matches!(load(&bad, CHECKED), Err(LeechError::Json(_))));
    let foreign = leech_file("{\"structural_schema_version\":\"E8\"}", &[], &[]);
    match load(&foreign, CHECKED) {
        Err(LeechError::SchemaMismatch { got, expected }) => {
            assert_eq!(got, "E8");
            assert_eq!(expected, "LLVQ_NIEMEIER_G24_v1");
        }
        _ => panic!("schema"),
    }
    let lax = OpenOptions { verify_crc: false, require_schema: false };
    assert_eq!(load(&foreign, lax).unwrap().tensor_count(), 0);
}

#[test]
fn toc_errors_name_the_entry() {
    let good = spec("a", 2, 0, &[1], vec![0; 2]);
    let mixed = leech_file(MANIFEST, &[good, spec("b", 0, 0, &[1], vec![])], &[]);
    match load(&mixed, CHECKED) {
        Err(LeechError::BadTocEntry { idx, reason }) => {
            assert_eq!(idx, 1);
            assert_eq!(reason, "invalid (role=Llvq, dtype=Bf16) combination");
        }
        _ => panic!("pair"),
    }
    let good = spec("a", 2, 0, &[1], vec![0; 2]);
    let unknown = leech_file(MANIFEST, &[good, spec("b", 77, 0, &[1], vec![])], &[]);
    match load(&unknown, CHECKED) {
        Err(LeechError::BadTocEntry { idx, reason }) => {
            assert_eq!(idx, 1);
            assert_eq!(reason, "unknown role byte 77");
        }
        _ => panic!("role"),
    }
    let mut huge = leech_file(MANIFEST, &[], &[]);
    let len = huge.len() as u64;
    LE::write_u64(&mut huge[40..48], u64::MAX);
    match load(&huge, CHECKED) {
        Err(LeechError::Truncated { offset, needed, len: l }) => {
            assert_eq!(offset, LE::read_u64(&huge[32..40]));
            assert_eq!((needed, l), (usize::MAX, len));
        }
        _ => panic!("count"),
    }
    LE::write_u64(&mut huge[40..48], 1000);
    assert!(matches!(load(&huge, CHECKED), Err(LeechError::Truncated { needed: 128000, .. })));
}

#[test]
fn crc_is_checked_only_on_request() {
    let mut bytes = fixture();
    let f = load(&bytes, CHECKED).unwrap();
    let stored = f.stored_crc();
    assert_eq!(stored, f.compute_crc());
    assert_eq!(f.compute_crc(), crc32fast::hash(&bytes[..bytes.len() - 4]));
    let last = bytes.len() - 1;
    bytes[last] ^= 0x80;
    let lax = OpenOptions { verify_crc: false, require_schema: true };
    let f = load(&bytes, lax).unwrap();
    assert_eq!(f.stored_crc(), stored ^ 0x8000_0000);
    assert_eq!(f.compute_crc(), stored);
    match load(&bytes, CHECKED) {
        Err(LeechError::CrcMismatch { file, computed }) => {
            assert_eq!(file, stored ^ 0x8000_0000);
            assert_eq!(computed, stored);
        }
        _ => panic!("crc"),
    }
}

/// The IEEE CRC-32, a bit at a time.
fn crc32_by_bits(data: &[u8]) -> u32 {
    let mut register = u32::MAX;
    for byte in data {
        register ^= u32::from(*byte);
        for _ in 0..8 {
            let carry = register & 1 == 1;
            register >>= 1;
            if carry {
                register ^= 0xEDB8_8320;
            }
        }
    }
    !register
}

#[test]
fn crc_is_the_ieee_one() {
    assert_eq!(crc32_by_bits(b"123456789"), 0xCBF4_3926);
    let bytes = fixture();
    let f = load(&bytes, CHECKED).unwrap();
    assert_eq!(f.compute_crc(), crc32_by_bits(&bytes[..bytes.len() - 4]));
    let bytes = leech_file(MANIFEST, &[], &[]);
    let f = load(&bytes, CHECKED).unwrap();
    assert_eq!(f.compute_crc(), crc32_by_bits(&bytes[..bytes.len() - 4]));
}

#[test]
fn known_crc_value() {
    // The CRC-32 check value.
    let mut bytes = leech_file(MANIFEST, &[], &[]);
    assert_eq!(crc32fast::hash(b"123456789"), 0xCBF4_3926);
    let n = bytes.len();
    LE::write_u32(&mut bytes[n - 4..], 0x1234_5678);
    let lax = OpenOptions { verify_crc: false, require_schema: true };
    assert_eq!(load(&bytes, lax).unwrap().stored_crc(), 0x1234_5678);
}

#[test]
fn tensor_bytes() {
    let mut with_table = spec("t", 0, 5, &[2, 24], small_payload(0, 0));
    with_table.static_table = (4, 6);
    let mut far_table = spec("u", 0, 5, &[2, 24], small_payload(0, 0));
    far_table.static_table = (4, u32::MAX);
    let plain = spec("n", 2, 0, &[3], vec![9; 6]);
    let bytes = leech_file(MANIFEST, &[with_table, far_table, plain], &[]);
    let f = load(&bytes, CHECKED).unwrap();
    assert_eq!(f.as_bytes(), &bytes[..]);
    assert_eq!(f.payload(2).unwrap(), &[9u8; 6]);
    assert_eq!(f.static_table(0).unwrap(), &[4, 5, 6, 7, 8, 9]);
    assert!(matches!(f.static_table(1), Err(LeechError::Truncated { needed: 0xFFFF_FFFF, .. })));
    assert!(f.static_table(2).unwrap().is_empty());
    for r in [f.payload(3), f.static_table(3)] {
        match r {
            Err(LeechError::BadTocEntry { idx, reason }) => {
                assert_eq!(idx, 3);
                assert_eq!(reason, "index out of range");
            }
            _ => panic!("index"),
        }
    }
    match f.parse_llvq_payload(2) {
        Err(LeechError::BadTocEntry { idx, reason }) => {
            assert_eq!(idx, 2);
            assert_eq!(reason, "tensor \"n\" is not LLVQ (role=Bf16)");
        }
        _ => panic!("role"),
    }
}

#[test]
fn quoted_names_are_escaped() {
    let bytes = leech_file(MANIFEST, &[spec("a\"b\n", 2, 0, &[1], vec![0; 2])], &[]);
    let f = load(&bytes, CHECKED).unwrap();
    match f.parse_llvq_payload(0) {
        Err(LeechError::BadTocEntry { reason, .. }) => {
            assert_eq!(reason, "tensor \"a\\\"b\\n\" is not LLVQ (role=Bf16)");
        }
        _ => panic!("role"),
    }
}

#[test]
fn files_without_overlays() {
    let bytes = leech_file(MANIFEST, &[], &[]);
    let f = load(&bytes, CHECKED).unwrap();
    assert!(f.overlay_bytes().is_none());
    assert!(f.overlays().unwrap().is_empty());
    // The flag alone is not enough, nor is a block that runs into the checksum.
    let lax = OpenOptions { verify_crc: false, require_schema: true };
    let mut b = bytes.clone();
    LE::write_u32(&mut b[68..72], 1);
    assert!(load(&b, lax).unwrap().overlay_bytes().is_none());
    let mut b = fixture();
    let off = LE::read_u32(&b[60..64]) as usize;
    let total = LE::read_u32(&b[off + 4..off + 8]);
    assert_eq!(load(&b, lax).unwrap().overlay_bytes().unwrap().len(), total as usize);
    LE::write_u32(&mut b[off + 4..off + 8], total + 1);
    assert!(load(&b, lax).unwrap().overlay_bytes().is_none());
    let len = b.len() as u32;
    LE::write_u32(&mut b[60..64], len - 15);
    assert!(load(&b, lax).unwrap().overlay_bytes().is_none());
}
