use shiori::markdown_adapter::{count_words, estimate_pages, extract_first_heading, MarkdownFormatAdapter};

#[test]
fn test_count_words() {
    assert_eq!(count_words("Hello world"), 2);
    assert_eq!(count_words("  Multiple   spaces  "), 2);
}

#[test]
fn test_extract_first_heading() {
    assert_eq!(
        extract_first_heading("# My Book\n\nSome text"),
        Some("My Book".to_string())
    );
    assert_eq!(
        extract_first_heading("## Chapter One\n\nText"),
        Some("Chapter One".to_string())
    );
    assert_eq!(extract_first_heading("No heading here\nJust text"), None);
}

#[test]
fn count_words_unicode_whitespace_and_empty() {
    assert_eq!(count_words(""), 0);
    assert_eq!(count_words("a\u{3000}b\u{a0}c\td\r\ne"), 5);
}

#[test]
fn estimate_pages_has_floor_of_one() {
    assert_eq!(estimate_pages(""), 1);
    let text = "word ".repeat(749);
    assert_eq!(estimate_pages(&text), 2);
    let text = "word ".repeat(750);
    assert_eq!(estimate_pages(&text), 3);
}

#[test]
fn extract_first_heading_skips_empty_and_deep_headings() {
    assert_eq!(extract_first_heading("#   \n#### Deep\n  ### Third  \r\n"), Some("Third".to_string()));
    assert_eq!(extract_first_heading("#NoSpace\n"), None);
    assert_eq!(extract_first_heading(""), None);
}

#[test]
fn metadata_falls_back_to_stem_then_untitled() {
    let a = MarkdownFormatAdapter::new();
    let m = a.metadata_from_content("no heading", Some("my_book"), 10);
    assert_eq!(m.title, "my_book");
    assert_eq!(m.language.as_deref(), Some("en"));
    assert_eq!(m.file_format, "markdown");
    assert_eq!(m.word_count, Some(2));
    assert_eq!(m.page_count, Some(1));
    let m = a.metadata_from_content("", None, 0);
    assert_eq!(m.title, "Untitled");
    let m = a.metadata_from_content("# Real Title\ntext", Some("stem"), 0);
    assert_eq!(m.title, "Real Title");
}

#[test]
fn markdown_adapter_conversion_capabilities() {
    let a = MarkdownFormatAdapter::new();
    assert_eq!(a.format_id(), "markdown");
    assert!(a.can_convert_to("epub"));
    assert!(!a.can_convert_to("pdf"));
    assert!(a.extract_cover().is_none());
    let caps = a.capabilities();
    assert!(caps.supports_toc && !caps.supports_images && caps.is_readable && !caps.supports_metadata);
    match a.convert_to("pdf") {
        Err(shiori::markdown_adapter::FormatError::ConversionNotSupported { from, to }) => {
            assert_eq!(from, "markdown");
            assert_eq!(to, "pdf");
        }
        _ => panic!("expected ConversionNotSupported"),
    }
    match a.convert_to("epub") {
        Err(shiori::markdown_adapter::FormatError::ConversionError(msg)) => {
            assert_eq!(msg, "Conversion not yet implemented. Use ConversionEngine.");
        }
        _ => panic!("expected ConversionError"),
    }
}

#[test]
fn validate_reports_counts_or_the_utf8_error() {
    let a = MarkdownFormatAdapter::new();
    assert_eq!(a.validate("# Title\n\nsome words here".as_bytes()), Ok((5, 1)));
    assert_eq!(
        a.validate(&[b'a', 0xFF]),
        Err("Invalid UTF-8 encoding: invalid utf-8 sequence of 1 bytes from index 1".to_string())
    );
}

#[test]
fn validate_accepts_a_character_across_the_4k_boundary() {
    let a = MarkdownFormatAdapter::new();
    let text = format!("{}é", "a".repeat(4095));
    assert_eq!(a.validate(text.as_bytes()), Ok((1, 1)));
    let text = format!("{}€ b", "a".repeat(4094));
    assert_eq!(a.validate(text.as_bytes()), Ok((2, 1)));
}

#[test]
fn validate_checks_only_the_first_4k() {
    let a = MarkdownFormatAdapter::new();
    let mut data = "word ".repeat(1000).into_bytes();
    data.push(0xFF);
    assert_eq!(a.validate(&data), Ok((1001, 4)));
}
