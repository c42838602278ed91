use varde::launcher::clipboard::{
    entry_id, history, image_dimensions, parse_dimensions, parse_line, parse_list,
};
use varde::launcher::preview::is_multiline;
use varde::launcher::source::LoadedVisual;

#[test]
fn parses_text_and_images_in_history_order() {
    let items = parse_list(
        "42\tmost recent text\n41\t[[ binary data 12 KiB png 474x598 ]]\n40\tolder\n",
    )
    .unwrap();
    assert_eq!(
        items
            .iter()
            .map(|item| item.id.as_str())
            .collect::<Vec<_>>(),
        ["42", "41", "40"]
    );
    assert_eq!(items[1].title, "Image · 474×598");
    assert!(matches!(items[1].visual, LoadedVisual::Image));
}

#[test]
fn ignores_malformed_lines_but_rejects_unparseable_output() {
    assert_eq!(parse_list("bad\n1\tvalid\n").unwrap().len(), 1);
    assert!(parse_list("bad\n").is_err());
    assert!(parse_list("").unwrap().is_empty());
}

#[test]
fn recognizes_supported_image_metadata() {
    let dimensions = image_dimensions("[[ binary data 2 MiB jpeg 1920x1080 ]]").unwrap();
    assert_eq!(parse_dimensions(&dimensions), Some((1920, 1080)));
    assert!(image_dimensions("[[ binary data 2 MiB JPEG 1920x1080 ]]").is_some());
    assert!(image_dimensions("[[ binary data 2 KiB pdf ]]").is_none());
}

#[test]
fn reads_dimensions_only_when_both_are_positive() {
    assert_eq!(parse_dimensions("474x598"), Some((474, 598)));
    assert_eq!(parse_dimensions("+4x5"), Some((4, 5)));
    assert_eq!(parse_dimensions("0x5"), None);
    assert_eq!(parse_dimensions("-4x5"), None);
    assert_eq!(parse_dimensions("4x5x6"), None);
    assert_eq!(parse_dimensions("45"), None);
    assert_eq!(parse_dimensions("3000000000x1"), None);
}

#[test]
fn image_metadata_needs_markers_and_a_format_before_the_size() {
    assert_eq!(
        image_dimensions("[[ binary data 1 KiB WebP 16x9 ]]").as_deref(),
        Some("16x9")
    );
    assert!(image_dimensions("[[ binary data 16x9 ]]").is_none());
    assert!(image_dimensions("[[ binary data 1 KiB svg 16x9 ]]").is_none());
    assert!(image_dimensions("binary data 1 KiB png 16x9").is_none());
    assert!(image_dimensions("[[ binary data 1 KiB png 16x9").is_none());
    assert!(image_dimensions("[[ binary data ]]").is_none());
}

#[test]
fn titles_entries_by_their_preview() {
    let text = parse_line("7\tsome words").unwrap();
    assert_eq!((text.id.as_str(), text.title.as_str()), ("7", "some words"));
    assert!(matches!(text.visual, LoadedVisual::Text));
    assert!(text.search_terms.is_empty());

    let empty = parse_line("8\t").unwrap();
    assert_eq!(empty.title, "Empty text");
    assert!(matches!(empty.visual, LoadedVisual::Text));

    let binary = parse_line("9\t[[ binary data 2 KiB pdf ]]").unwrap();
    assert_eq!(binary.title, "[[ binary data 2 KiB pdf ]]");
    assert!(matches!(binary.visual, LoadedVisual::Blank));

    let image = parse_line("10\t[[ binary data 1 KiB gif 3x4 ]]").unwrap();
    assert_eq!(image.title, "Image · 3×4");
    assert_eq!(image.search_terms, vec!["image", "[[ binary data 1 KiB gif 3x4 ]]"]);

    assert!(parse_line("x1\ttext").is_none());
    assert!(parse_line("no tab").is_none());
    assert!(parse_line("18446744073709551616\ttoo big").is_none());
    assert_eq!(parse_line("3\ta\tb").unwrap().title, "a\tb");
}

#[test]
fn history_needs_output_in_valid_utf8() {
    assert_eq!(
        history(None).err().as_deref(),
        Some("Could not read clipboard history")
    );
    assert_eq!(
        history(Some(vec![0xff, b'\n'])).err().as_deref(),
        Some("Clipboard history contains invalid text")
    );
    assert_eq!(
        history(Some(b"bad\n".to_vec())).err().as_deref(),
        Some("Could not parse clipboard history")
    );
    assert!(history(Some(Vec::new())).unwrap().is_empty());
    let items = history(Some("5\tcafé\n".as_bytes().to_vec())).unwrap();
    assert_eq!(items[0].title, "café");
}

#[test]
fn restores_only_numeric_entries() {
    assert_eq!(entry_id("42"), Ok(42));
    assert_eq!(entry_id("4a").err().as_deref(), Some("Invalid clipboard entry"));
    assert!(entry_id("").is_err());
}

#[test]
fn previews_only_multiline_text() {
    assert!(!is_multiline("one line"));
    assert!(is_multiline("first\nsecond"));
    assert!(is_multiline("first\r\nsecond"));
    assert!(is_multiline("first\rsecond"));
}
