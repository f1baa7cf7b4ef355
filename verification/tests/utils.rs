use snb::common::utils::{
    default_extension, editor_program, filename_with_timestamp, get_current_timestamp,
    get_filename, get_filename_from_index, get_simple_title, get_title_from_extension, mark_for,
    pager_program,
};

#[test]
fn test_get_simple_title() {
    // Test markdown
    assert_eq!(
        get_simple_title("# Hello World\nContent", "test.md"),
        "Hello World"
    );

    // Test org mode
    assert_eq!(
        get_simple_title("* Hello World\nContent", "test.org"),
        "Hello World"
    );

    // Test asciidoc
    assert_eq!(
        get_simple_title("= Hello World\nContent", "test.adoc"),
        "Hello World"
    );

    // Test unknown extension
    assert_eq!(
        get_simple_title("Hello World\nContent", "test.txt"),
        "Hello World"
    );

    // Test empty content
    assert_eq!(get_simple_title("", "test.md"), "");

    // Test content without markup
    assert_eq!(
        get_simple_title("Hello World\nContent", "test.md"),
        "Hello World"
    );
}

#[test]
fn test_get_filename() {
    // When filename is provided
    let filename = Some("test.md".to_string());
    let title = None;
    assert_eq!(get_filename(filename, title, "md"), "test.md");

    // When filename is None (uses timestamp)
    let result = get_filename(None, None, "md");
    assert!(result.ends_with(".md"));
    assert_eq!(result.len(), 17);

    // With another extension
    let result = get_filename(None, None, "org");
    assert!(result.ends_with(".org"));
    assert_eq!(result.len(), 18);

    // title is provided
    let title = Some("Test Title".to_string());
    let result = get_filename(None, title, "md");
    assert!(result.ends_with(".md"));
    assert_eq!(result.len(), 13);
    assert!(!result.contains(" "));
    assert!(result.contains("_"));
    assert_eq!(result, "test_title.md");

    // if filename contains extension, use that extension
    let filename = Some("test.txt".to_string());
    let result = get_filename(filename, None, "md");
    println!("result: {}", result);
    assert!(result.ends_with(".txt"));
    assert_eq!(result.len(), 8);
}

#[test]
fn filename_prefers_name_over_title() {
    let r = get_filename(
        Some("keep.me".to_string()),
        Some("Some Title".to_string()),
        "org",
    );
    assert_eq!(r, "keep.me");
}

#[test]
fn filename_with_given_timestamp() {
    assert_eq!(
        filename_with_timestamp(None, None, "md", "20240131120000"),
        "20240131120000.md"
    );
    assert_eq!(
        filename_with_timestamp(None, Some("My  Big NOTE".to_string()), "adoc", "x"),
        "my__big_note.adoc"
    );
    assert_eq!(
        filename_with_timestamp(Some("a".to_string()), Some("T".to_string()), "md", "x"),
        "a"
    );
}

#[test]
fn filename_title_is_lowercased_beyond_ascii() {
    assert_eq!(
        filename_with_timestamp(None, Some("ÄRGER Über".to_string()), "md", ""),
        "ärger_über.md"
    );
}

#[test]
fn timestamp_is_fourteen_digits() {
    let now = get_current_timestamp();
    assert_eq!(now.len(), 14);
    assert!(now.chars().all(|c| c.is_ascii_digit()));
}

#[test]
fn title_line_by_extension() {
    assert_eq!(get_title_from_extension("Hello", "a.md"), "# Hello");
    assert_eq!(get_title_from_extension("Hello", "a.org"), "* Hello");
    assert_eq!(get_title_from_extension("Hello", "a.adoc"), "= Hello");
    assert_eq!(get_title_from_extension("Hello", "a.txt"), "Hello");
    assert_eq!(get_title_from_extension("Hello", "md"), "# Hello");
    assert_eq!(get_title_from_extension("Hello", "a.md.bak"), "Hello");
    assert_eq!(get_title_from_extension("Hello", "a."), "Hello");
    assert_eq!(get_title_from_extension("", "dir.d/a.org"), "* ");
}

#[test]
fn mark_of_each_extension() {
    assert_eq!(mark_for("md"), "# ");
    assert_eq!(mark_for("org"), "* ");
    assert_eq!(mark_for("adoc"), "= ");
    assert_eq!(mark_for("MD"), "");
    assert_eq!(mark_for(""), "");
}

#[test]
fn simple_title_strips_repeated_marks_and_space() {
    assert_eq!(get_simple_title("  # # Twice  \nrest", "n.md"), "Twice");
    assert_eq!(get_simple_title("## Not a mark", "n.md"), "## Not a mark");
    assert_eq!(get_simple_title("# Kept", "n.org"), "# Kept");
    assert_eq!(get_simple_title("* Star\r\nbody", "n.org"), "Star");
    assert_eq!(get_simple_title("\nsecond", "n.md"), "");
    assert_eq!(get_simple_title("= \t", "n.adoc"), "=");
}

#[test]
fn programs_and_extension_defaults() {
    assert_eq!(default_extension(None), "md");
    assert_eq!(default_extension(Some("org".to_string())), "org");
    assert_eq!(editor_program(None, None), "vi");
    assert_eq!(editor_program(None, Some("nano".to_string())), "nano");
    assert_eq!(
        editor_program(Some("emacs".to_string()), Some("nano".to_string())),
        "emacs"
    );
    assert_eq!(pager_program(None), "less");
    assert_eq!(pager_program(Some("more".to_string())), "more");
}

#[test]
fn filename_from_index_content() {
    let content = "a.md\nb.md\n\nd.md\n";
    assert_eq!(get_filename_from_index(content, 1), Ok("a.md".to_string()));
    assert_eq!(get_filename_from_index(content, 2), Ok("b.md".to_string()));
    assert_eq!(get_filename_from_index(content, 3), Ok("".to_string()));
    assert_eq!(get_filename_from_index(content, 4), Ok("d.md".to_string()));
    assert!(get_filename_from_index(content, 0).is_err());
    assert!(get_filename_from_index(content, 5).is_err());
    assert!(get_filename_from_index("", 1).is_err());
}
