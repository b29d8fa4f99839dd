//! LEECHQ24 container reader (Forney-Q24 + 4-codebook tANS).

pub mod bucket_unpack;
pub mod codebook;
pub mod container;
pub mod error;
pub mod file;
pub mod payload;

pub use crate::leech_q24::codebook::{
    parse_codebook_blob, CodebookSet, DecodeEntry, M_TABLE, N_CODEBOOKS, TABLE_LOG,
};
pub use crate::leech_q24::container::{
    validate_role_dtype, DtypeTag, Header, Role, TocEntry, FIXED_PREFIX_SIZE, FORMAT_VERSION,
    FORMAT_VERSION_V3_COMPAT, HEADER_SIZE, MAGIC, SENTINEL_BUCKET, TOC_ENTRY_SIZE,
};
pub use crate::leech_q24::error::{LeechQ24Error, Result};
pub use crate::leech_q24::file::{LeechQ24File, OpenOptions};
pub use crate::leech_q24::payload::LlvqTansPayload;
