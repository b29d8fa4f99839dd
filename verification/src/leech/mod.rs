//! `.leech` container reader.
//!
//! Parses MAGIC + HEADER + TOC of a `.leech` file, optionally verifies the
//! trailing CRC32 over `[0, file_size - 4)`, and exposes per-tensor payload
//! slices. The manifest's JSON text is handed out, and its parsed form taken
//! back, when a file is loaded.

pub mod container;
pub mod error;
pub mod file;
pub mod fp8;
pub mod overlay;
pub mod payload;

pub use crate::leech::container::{
    DtypeTag, Header, Role, TocEntry, FIXED_PREFIX_SIZE, HEADER_SIZE, MAGIC, TOC_ENTRY_SIZE,
};
pub use crate::leech::error::{LeechError, Result};
pub use crate::leech::file::{
    slice_or_truncated, GlobalInfo, LeechFile, Manifest, OpenOptions, EXPECTED_SCHEMA,
};
pub use crate::leech::overlay::{parse_overlay_block, OverlayEntry, OverlayKind};
pub use crate::leech::payload::LlvqPayload;
