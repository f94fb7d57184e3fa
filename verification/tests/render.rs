use git_ents::asciicast::{
    asciicast_header, event_data, extract_output, push_event, push_json_string,
    recording_has_no_output, unescape_json_string,
};
use git_ents::render::{
    asciidoc_html, doc_html, highlight, is_asciidoc, is_doc, is_markdown, mime_for_name, to_html, to_text,
};

#[test]
fn documents_are_known_by_their_extension() {
    assert_eq!(mime_for_name("README.ADOC"), "text/asciidoc");
    assert_eq!(mime_for_name("a.b.mkd"), "text/markdown");
    assert_eq!(mime_for_name("main.rs"), "text/plain");
    assert_eq!(mime_for_name("adoc"), "text/plain");
    assert!(is_asciidoc("x.adc"));
    assert!(is_markdown("x.Markdown"));
    assert!(is_doc("x.md"));
    assert!(!is_doc("x.txt"));
}

#[test]
fn markdown_is_converted_with_its_extensions() {
    assert_eq!(to_html("text/markdown", "~~a~~", None), "<p><del>a</del></p>\n");
    assert!(to_html("text/markdown", "|a|\n|-|\n|b|", None).contains("<table>"));
    assert!(to_html("text/markdown", "- [x] a", None).contains("checkbox"));
    assert!(to_html("text/markdown", "a[^1]\n\n[^1]: b", None).contains("footnote"));
    assert_eq!(doc_html("a.md", "*x*", None).as_deref(), Some("<p><em>x</em></p>\n"));
    assert_eq!(doc_html("a.rs", "x", Some("y".to_owned())), None);
}

#[test]
fn what_is_not_converted_is_escaped() {
    assert_eq!(
        to_html("text/plain", "<a href=\"x\">&'", None),
        "<pre>&lt;a href=&quot;x&quot;&gt;&amp;'</pre>"
    );
    assert_eq!(to_html("text/asciidoc", "x", None), "<pre>x</pre>");
    assert_eq!(to_html("text/asciidoc", "x", Some("<p>".to_owned())), "<p>");
    assert_eq!(to_text("text/asciidoc", "x", Some("y".to_owned())), "y");
    assert_eq!(to_text("text/asciidoc", "x", None), "x");
    assert_eq!(to_text("text/markdown", "x", Some("y".to_owned())), "x");
}

#[test]
fn sources_are_highlighted_by_their_grammar() {
    let html = highlight("src/main.rs", "fn main() {}").unwrap();
    assert_ne!(html, "fn main() {}");
    assert!(html.contains("main"));
    assert!(html.contains('<'));
    assert_ne!(highlight("a.json", "[1]"), highlight("a.rs", "[1]"));
}

#[test]
fn a_document_keeps_its_title() {
    let body = || Some("<p>x</p>".to_owned());
    assert_eq!(
        asciidoc_html(Some("A & B"), Some("<sub>"), body()).unwrap(),
        "<h1>A &amp; B</h1><p class=\"doc-subtitle\">&lt;sub&gt;</p><p>x</p>"
    );
    assert_eq!(asciidoc_html(Some("T"), None, body()).unwrap(), "<h1>T</h1><p>x</p>");
    assert_eq!(asciidoc_html(None, Some("s"), body()).unwrap(), "<p>x</p>");
    assert_eq!(asciidoc_html(Some("T"), None, None), None);
}

#[test]
fn sources_without_a_grammar_are_not_highlighted() {
    assert_eq!(highlight("notes.unknown", "x"), None);
    assert_eq!(highlight("Makefile", "all:"), None);
}

#[test]
fn recordings_round_trip() {
    let mut recording = asciicast_header();
    assert!(recording.starts_with("{\"version\": 2, \"width\": 80, \"height\": 24"));
    assert!(recording_has_no_output(&recording));
    push_event(&mut recording, "0.25", "a\"b\\\n\u{1b}[1m\u{20ac}");
    push_event(&mut recording, "0.5", "\t\r");
    assert_eq!(extract_output(&recording), "a\"b\\\n\u{1b}[1m\u{20ac}\t\r");
    assert!(!recording_has_no_output(&recording));
}

#[test]
fn json_strings_are_escaped_and_read_back() {
    let mut out = String::new();
    push_json_string("a\u{1}\n\"", &mut out);
    assert_eq!(out, "\"a\\u0001\\n\\\"\"");
    assert_eq!(unescape_json_string("\\u0041\\n\\q\\"), "A\nq");
    assert_eq!(unescape_json_string("\\ud800x"), "x");
    assert_eq!(event_data("[0.1, \"o\", \"hi\"]").as_deref(), Some("hi"));
    assert_eq!(event_data("[0.1, \"i\", \"hi\"]"), None);
}
