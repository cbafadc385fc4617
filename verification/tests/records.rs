use exchange_pipeline::record::parse_fallback_record;
use exchange_pipeline::record::render_fallback_record;
use exchange_pipeline::text::count_symbols;

#[test]
fn renders_the_pretty_record() {
    let r = render_fallback_record("https://kemono.cr/data/a/b.mp4", "clip");
    assert_eq!(r, "{\n  \"name\": \"clip\",\n  \"url\": \"https://kemono.cr/data/a/b.mp4\"\n}");
}

#[test]
fn escapes_quotes_backslashes_and_controls() {
    let r = render_fallback_record("u", "a\"b\\c\nd\te\u{1}f");
    assert_eq!(r, "{\n  \"name\": \"a\\\"b\\\\c\\nd\\te\\u0001f\",\n  \"url\": \"u\"\n}");
}

#[test]
fn the_record_agrees_with_a_json_library() {
    let url = "https://coomer.st/data/x y\".png";
    let name = "x y\"";
    let rendered = render_fallback_record(url, name);

    let mut obj = serde_json::Map::new();
    obj.insert("url".to_string(), serde_json::Value::String(url.to_string()));
    obj.insert("name".to_string(), serde_json::Value::String(name.to_string()));
    let expected = serde_json::to_string_pretty(&serde_json::Value::Object(obj)).unwrap();
    assert_eq!(rendered, expected);

    let back: serde_json::Value = serde_json::from_str(&rendered).unwrap();
    assert_eq!(back.get("url").and_then(|v| v.as_str()), Some(url));
    assert_eq!(back.get("name").and_then(|v| v.as_str()), Some(name));
}

#[test]
fn counts_grapheme_clusters_not_bytes() {
    assert_eq!(count_symbols(""), 0);
    assert_eq!(count_symbols("hello"), 5);
    assert_eq!(count_symbols("h\u{e9}llo"), 5);
    assert_eq!(count_symbols("e\u{301}"), 1);
    let flags = "\u{1f1e6}\u{1f1e9}";
    assert!(count_symbols(flags) >= 1);
    assert!(count_symbols(flags) <= flags.chars().count());
}

#[test]
fn empty_fields_still_render_a_record() {
    assert_eq!(render_fallback_record("", ""), "{\n  \"name\": \"\",\n  \"url\": \"\"\n}");
}

#[test]
fn trimming_strips_both_ends_only() {
    assert_eq!(exchange_pipeline::text::trim_text("  a b \n"), "a b");
    assert_eq!(exchange_pipeline::text::trim_text("\u{a0} x \u{3000}"), "x");
    assert_eq!(exchange_pipeline::text::trim_text("   "), "");
}

#[test]
fn a_record_reads_back_with_its_fields() {
    let text = render_fallback_record("https://kemono.cr/data/a b\".mp4", "a b\"\n\u{1}");
    let f = parse_fallback_record(&text).unwrap();
    assert_eq!(f.url, "https://kemono.cr/data/a b\".mp4");
    assert_eq!(f.name, "a b\"\n\u{1}");
}

#[test]
fn only_rendered_records_parse() {
    assert!(parse_fallback_record("").is_none());
    assert!(parse_fallback_record("{}").is_none());
    assert!(parse_fallback_record("{\n  \"name\": \"a\",\n  \"url\": \"u\"\n} ").is_none());
    assert!(parse_fallback_record("{\n  \"name\": \"a\",\n  \"url\": \"u\"\n}").is_some());
    // A working but non-canonical escape is refused: this text is not
    // the rendering of any field pair.
    assert!(parse_fallback_record("{\n  \"name\": \"\\u0041\",\n  \"url\": \"u\"\n}").is_none());
}
