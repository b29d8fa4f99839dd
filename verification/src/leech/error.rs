//! What can be wrong with a `.leech` file.

use vstd::prelude::*;

verus! {

#[allow(inconsistent_fields)]
#[derive(Debug)]
pub enum LeechError {
    BadMagic { got: [u8; 8] },
    UnsupportedVersion(u32),
    SchemaMismatch { got: String, expected: String },
    Json(serde_json::Error),
    Utf8(core::str::Utf8Error),
    CrcMismatch { file: u32, computed: u32 },
    BadTocEntry { idx: usize, reason: String },
    BadPayloadHeader { name: String, reason: String },
    Truncated { offset: u64, needed: usize, len: u64 },
    BadOverlay(String),
}

pub type Result<T> = core::result::Result<T, LeechError>;

/// A [`LeechError`] with its texts as character sequences.
#[allow(inconsistent_fields)]
pub enum LeechErrorView {
    BadMagic { got: Seq<u8> },
    UnsupportedVersion(u32),
    SchemaMismatch { got: Seq<char>, expected: Seq<char> },
    Json(serde_json::Error),
    Utf8(core::str::Utf8Error),
    CrcMismatch { file: u32, computed: u32 },
    BadTocEntry { idx: usize, reason: Seq<char> },
    BadPayloadHeader { name: Seq<char>, reason: Seq<char> },
    Truncated { offset: u64, needed: usize, len: u64 },
    BadOverlay(Seq<char>),
}

impl View for LeechError {
    type V = LeechErrorView;

    open spec fn view(&self) -> LeechErrorView {
        match *self {
            LeechError::BadMagic { got } => LeechErrorView::BadMagic { got: got@ },
            LeechError::UnsupportedVersion(v) => LeechErrorView::UnsupportedVersion(v),
            LeechError::SchemaMismatch { got, expected } => LeechErrorView::SchemaMismatch {
                got: got@,
                expected: expected@,
            },
            LeechError::Json(e) => LeechErrorView::Json(e),
            LeechError::Utf8(e) => LeechErrorView::Utf8(e),
            LeechError::CrcMismatch { file, computed } => LeechErrorView::CrcMismatch {
                file,
                computed,
            },
            LeechError::BadTocEntry { idx, reason } => LeechErrorView::BadTocEntry {
                idx,
                reason: reason@,
            },
            LeechError::BadPayloadHeader { name, reason } => LeechErrorView::BadPayloadHeader {
                name: name@,
                reason: reason@,
            },
            LeechError::Truncated { offset, needed, len } => LeechErrorView::Truncated {
                offset,
                needed,
                len,
            },
            LeechError::BadOverlay(reason) => LeechErrorView::BadOverlay(reason@),
        }
    }
}

/// A result with its error seen through [`LeechErrorView`].
pub open spec fn outcome<T>(r: Result<T>) -> core::result::Result<T, LeechErrorView> {
    match r {
        Ok(v) => Ok(v),
        Err(e) => Err(e@),
    }
}

/// A result with its value and its error seen through their views.
pub open spec fn outcome_view<T: View>(r: Result<T>) -> core::result::Result<T::V, LeechErrorView> {
    match r {
        Ok(v) => Ok(v@),
        Err(e) => Err(e@),
    }
}

} // verus!
