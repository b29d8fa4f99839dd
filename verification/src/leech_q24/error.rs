//! What can be wrong with a LEECHQ24 file.

use vstd::prelude::*;

verus! {

#[derive(Debug)]
pub enum LeechQ24Error {
    BadMagic { got: [u8; 8] },
    UnsupportedVersion(u32),
    Json(serde_json::Error),
    Utf8(core::str::Utf8Error),
    CrcMismatch { file: u32, computed: u32 },
    BadTocEntry { idx: usize, reason: String },
    BadCodebookHeader { offset: u64, reason: String },
    Truncated { offset: u64, needed: usize, len: u64 },
    NotLlvqTans { name: String, role: u8 },
    BucketUnpackOob { idx: usize, n: usize },
}

pub type Result<T> = core::result::Result<T, LeechQ24Error>;

/// A [`LeechQ24Error`] with its texts as character sequences.
pub enum LeechQ24ErrorView {
    BadMagic { got: Seq<u8> },
    UnsupportedVersion(u32),
    Json(serde_json::Error),
    Utf8(core::str::Utf8Error),
    CrcMismatch { file: u32, computed: u32 },
    BadTocEntry { idx: usize, reason: Seq<char> },
    BadCodebookHeader { offset: u64, reason: Seq<char> },
    Truncated { offset: u64, needed: usize, len: u64 },
    NotLlvqTans { name: Seq<char>, role: u8 },
    BucketUnpackOob { idx: usize, n: usize },
}

impl View for LeechQ24Error {
    type V = LeechQ24ErrorView;

    open spec fn view(&self) -> LeechQ24ErrorView {
        match *self {
            LeechQ24Error::BadMagic { got } => LeechQ24ErrorView::BadMagic { got: got@ },
            LeechQ24Error::UnsupportedVersion(v) => LeechQ24ErrorView::UnsupportedVersion(v),
            LeechQ24Error::Json(e) => LeechQ24ErrorView::Json(e),
            LeechQ24Error::Utf8(e) => LeechQ24ErrorView::Utf8(e),
            LeechQ24Error::CrcMismatch { file, computed } => LeechQ24ErrorView::CrcMismatch {
                file,
                computed,
            },
            LeechQ24Error::BadTocEntry { idx, reason } => LeechQ24ErrorView::BadTocEntry {
                idx,
                reason: reason@,
            },
            LeechQ24Error::BadCodebookHeader {
                offset,
                reason,
            } => LeechQ24ErrorView::BadCodebookHeader { offset, reason: reason@ },
            LeechQ24Error::Truncated { offset, needed, len } => LeechQ24ErrorView::Truncated {
                offset,
                needed,
                len,
            },
            LeechQ24Error::NotLlvqTans { name, role } => LeechQ24ErrorView::NotLlvqTans {
                name: name@,
                role,
            },
            LeechQ24Error::BucketUnpackOob { idx, n } => LeechQ24ErrorView::BucketUnpackOob {
                idx,
                n,
            },
        }
    }
}

/// A result with its error seen through [`LeechQ24ErrorView`].
pub open spec fn outcome<T>(r: Result<T>) -> core::result::Result<T, LeechQ24ErrorView> {
    match r {
        Ok(v) => Ok(v),
        Err(e) => Err(e@),
    }
}

/// A result with its value and its error seen through their views.
pub open spec fn outcome_view<T: View>(r: Result<T>) -> core::result::Result<
    T::V,
    LeechQ24ErrorView,
> {
    match r {
        Ok(v) => Ok(v@),
        Err(e) => Err(e@),
    }
}

} // verus!
