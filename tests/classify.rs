use hunt::classify::{classify_sample, classification_of_kind, sample_length, Classification, ContentKind};

#[test]
fn plain_text_is_text() {
    assert_eq!(classify_sample(b"hello world\n"), Classification::Text);
}

#[test]
fn empty_sample_is_text() {
    assert_eq!(classify_sample(b""), Classification::Text);
}

#[test]
fn zero_byte_is_binary() {
    assert_eq!(classify_sample(b"abc\x00def"), Classification::Binary);
}

#[test]
fn zero_byte_past_scan_window_is_text() {
    let mut sample = vec![b'a'; 1500];
    sample[1200] = 0;
    assert_eq!(classify_sample(&sample), Classification::Text);
}

#[test]
fn utf16_with_mark_is_text() {
    assert_eq!(classify_sample(b"\xFF\xFEh\x00i\x00"), Classification::Text);
    assert_eq!(classify_sample(b"\xFE\xFF\x00h\x00i"), Classification::Text);
}

#[test]
fn utf32_and_utf8_marks_are_text() {
    assert_eq!(classify_sample(b"\x00\x00\xFE\xFF\x00\x00\x00h"), Classification::Text);
    assert_eq!(classify_sample(b"\xFF\xFE\x00\x00h\x00\x00\x00"), Classification::Text);
    assert_eq!(classify_sample(b"\xEF\xBB\xBFhello"), Classification::Text);
}

#[test]
fn pdf_and_png_signatures_are_binary() {
    assert_eq!(classify_sample(b"%PDF-1.4 text"), Classification::Binary);
    assert_eq!(classify_sample(b"\x89PNG\r\n"), Classification::Binary);
}

#[test]
fn high_bytes_without_zero_are_text() {
    assert_eq!(classify_sample(&[0xFFu8; 64]), Classification::Text);
}

#[test]
fn only_binary_kind_is_skipped() {
    assert_eq!(classification_of_kind(ContentKind::Binary), Classification::Binary);
    assert_eq!(classification_of_kind(ContentKind::Utf16Le), Classification::Text);
    assert_eq!(classification_of_kind(ContentKind::Utf8), Classification::Text);
}

#[test]
fn sample_is_capped_at_limit() {
    assert_eq!(sample_length(0), 0);
    assert_eq!(sample_length(10), 10);
    assert_eq!(sample_length(2048), 2048);
    assert_eq!(sample_length(1 << 40), 2048);
}
