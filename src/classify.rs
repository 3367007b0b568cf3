//! Text/binary classification of a file from a sample of its first bytes.

use vstd::prelude::*;

verus! {

/// The largest number of bytes read from the start of a file to classify it.
pub const SAMPLE_LIMIT: u64 = 2048;

/// Number of leading bytes that the zero-byte heuristic looks at.
pub const ZERO_SCAN_LIMIT: u64 = 1024;

/// What the content heuristic reports for a byte sample.
#[derive(Clone, Copy, Debug, PartialEq, Eq, Structural)]
pub enum ContentKind {
    Binary,
    Utf8,
    Utf8Bom,
    Utf16Le,
    Utf16Be,
    Utf32Le,
    Utf32Be,
}

/// Whether a file is searched line by line or skipped.
#[derive(Clone, Copy, Debug, PartialEq, Eq, Structural)]
pub enum Classification {
    Text,
    Binary,
}

pub open spec fn starts_with(b: Seq<u8>, prefix: Seq<u8>) -> bool {
    prefix.len() <= b.len() && b.subrange(0, prefix.len() as int) == prefix
}

pub open spec fn has_zero_in_scan_window(b: Seq<u8>) -> bool {
    exists|i: int| 0 <= i < b.len() && i < ZERO_SCAN_LIMIT && b[i] == 0u8
}

pub open spec fn has_binary_magic(b: Seq<u8>) -> bool {
    starts_with(b, seq![0x25u8, 0x50u8, 0x44u8, 0x46u8])
        || starts_with(b, seq![0x89u8, 0x50u8, 0x4Eu8, 0x47u8])
}

/// The content heuristic: a byte-order mark decides first (UTF-32 marks before the
/// UTF-16 marks they extend), then a zero byte among the first 1024 bytes or a
/// PDF/PNG signature means binary, and anything else is UTF-8 text.
pub open spec fn content_kind_spec(b: Seq<u8>) -> ContentKind {
    if starts_with(b, seq![0xEFu8, 0xBBu8, 0xBFu8]) {
        ContentKind::Utf8Bom
    } else if starts_with(b, seq![0x00u8, 0x00u8, 0xFEu8, 0xFFu8]) {
        ContentKind::Utf32Be
    } else if starts_with(b, seq![0xFFu8, 0xFEu8, 0x00u8, 0x00u8]) {
        ContentKind::Utf32Le
    } else if starts_with(b, seq![0xFEu8, 0xFFu8]) {
        ContentKind::Utf16Be
    } else if starts_with(b, seq![0xFFu8, 0xFEu8]) {
        ContentKind::Utf16Le
    } else if has_zero_in_scan_window(b) || has_binary_magic(b) {
        ContentKind::Binary
    } else {
        ContentKind::Utf8
    }
}

pub open spec fn classification_of(k: ContentKind) -> Classification {
    if k == ContentKind::Binary {
        Classification::Binary
    } else {
        Classification::Text
    }
}

pub open spec fn classify_spec(sample: Seq<u8>) -> Classification {
    classification_of(content_kind_spec(sample))
}

/// Relies on content_inspector::inspect: byte-order marks first, then a zero byte
/// in the first 1024 bytes or a PDF/PNG signature for binary, else UTF-8.
#[verifier::external_body]
fn inspect_sample(b: &[u8]) -> (r: ContentKind)
    ensures
        r == content_kind_spec(b@),
{
    match content_inspector::inspect(b) {
        content_inspector::ContentType::BINARY => ContentKind::Binary,
        content_inspector::ContentType::UTF_8 => ContentKind::Utf8,
        content_inspector::ContentType::UTF_8_BOM => ContentKind::Utf8Bom,
        content_inspector::ContentType::UTF_16LE => ContentKind::Utf16Le,
        content_inspector::ContentType::UTF_16BE => ContentKind::Utf16Be,
        content_inspector::ContentType::UTF_32LE => ContentKind::Utf32Le,
        content_inspector::ContentType::UTF_32BE => ContentKind::Utf32Be,
    }
}

/// Every recognised text encoding counts as text; only binary content is skipped.
pub fn classification_of_kind(k: ContentKind) -> (r: Classification)
    ensures
        r == classification_of(k),
{
    match k {
        ContentKind::Binary => Classification::Binary,
        _ => Classification::Text,
    }
}

/// Classifies a file from the sample of its first bytes.
pub fn classify_sample(sample: &[u8]) -> (r: Classification)
    ensures
        r == classify_spec(sample@),
{
    let k = inspect_sample(sample);
    classification_of_kind(k)
}

/// How many bytes to read from a file of `file_length` bytes to classify it.
pub fn sample_length(file_length: u64) -> (r: usize)
    ensures
        r as int == if file_length < SAMPLE_LIMIT { file_length as int } else { SAMPLE_LIMIT as int },
        r as u64 <= SAMPLE_LIMIT,
{
    if file_length < SAMPLE_LIMIT {
        file_length as usize
    } else {
        SAMPLE_LIMIT as usize
    }
}

} // verus!
