use doctave::frontmatter::{end_pos, parse, without};

#[test]
fn basic_parse() {
    let input = "---\ntitle: Runbooks\n---\n\n# Runbooks\n";

    let values = parse(input).unwrap();

    assert_eq!(values.get("title"), Some(&"Runbooks".to_string()));
}

#[test]
fn missing_frontmatter() {
    let input = "# Some content\n";

    let values = parse(input).unwrap();

    assert!(values.is_empty());
}

#[test]
fn invalid_yaml() {
    let input = "---\n:::blarg: @@!~\n---\n\n# Some content\n";

    assert!(parse(input).is_err());
}

#[test]
fn never_ending_frontmatter() {
    let input = "---\ntitle: Runbooks\n\n# Runbooks\n";

    assert!(parse(input).unwrap().is_empty());
}

#[test]
fn without_basic() {
    let input = "---\ntitle: Runbooks\n---\n\n# Runbooks\n";

    let without_frontmatter = without(input);

    assert_eq!(without_frontmatter, "\n# Runbooks\n");
}

#[test]
fn windows_line_endings() {
    let input = "---\r\ntitle: Runbooks\r\n---\r\n\r\n# More content\r\n";

    let values = parse(input).unwrap();

    assert_eq!(values.get("title"), Some(&"Runbooks".to_string()));

    let without_frontmatter = without(input);

    assert_eq!(without_frontmatter, "\r\n# More content\r\n");
}

#[test]
fn end_pos_of_unix_section() {
    let input = "---\ntitle: X\n---\nbody";
    assert_eq!(end_pos(input), 17);
    assert_eq!(&input[17..], "body");
}

#[test]
fn end_pos_without_section() {
    assert_eq!(end_pos("# Just a heading\n"), 0);
}
