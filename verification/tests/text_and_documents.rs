use kitchensink::documents::{
    content_search_text, ensure_document_markup, escape_html, extract_document_references,
    graph_node_record_key, imported_document_markup, imported_url_markup, normalize_node_id,
    paragraphize, parse_node_reference, slugify_node_id, DocumentReference,
};
use kitchensink::extract::{
    clean_text, extract_text, extract_text_from_html, make_summary, needs_pdf_reader, ExtractError,
    PdfReading,
};

#[test]
fn clean_text_collapses_whitespace() {
    assert_eq!(clean_text("  a \t b\n\nc  "), "a b c");
    assert_eq!(clean_text(""), "");
    assert_eq!(clean_text(" \u{00a0}\u{3000} "), "");
    assert_eq!(clean_text("x\u{2003}y"), "x y");
}

#[test]
fn clean_text_is_idempotent() {
    let once = clean_text("\t one  two \r\n three ");
    assert_eq!(clean_text(&once), once);
    assert_eq!(once, "one two three");
}

#[test]
fn normalize_node_id_builds_slugs() {
    assert_eq!(normalize_node_id("Hello, World!"), Some("hello-world".to_string()));
    assert_eq!(normalize_node_id("Hello World"), Some("hello-world".to_string()));
    assert_eq!(normalize_node_id("--A__b--"), Some("a-b".to_string()));
    assert_eq!(normalize_node_id("path/to:file.txt"), Some("path-to-file-txt".to_string()));
    assert_eq!(normalize_node_id("!!!"), None);
    assert_eq!(normalize_node_id(""), None);
    assert_eq!(normalize_node_id("  --  "), None);
    assert_eq!(normalize_node_id("Ünïcode Ok"), Some("ncode-ok".to_string()));
}

#[test]
fn normalize_node_id_is_idempotent() {
    let first = normalize_node_id(" My  Great/Doc. ").unwrap();
    assert_eq!(first, "my-great-doc");
    assert_eq!(normalize_node_id(&first), Some(first.clone()));
}

#[test]
fn slugify_falls_back_to_node() {
    assert_eq!(slugify_node_id("???"), "node");
    assert_eq!(slugify_node_id("Quarterly Report"), "quarterly-report");
}

#[test]
fn record_key_joins_kind_and_id() {
    assert_eq!(graph_node_record_key("topic", "rust"), "topic--rust");
}

#[test]
fn parse_node_reference_cases() {
    assert_eq!(
        parse_node_reference(" Topic : Rust Lang "),
        Some(("topic".to_string(), "rust-lang".to_string()))
    );
    assert_eq!(parse_node_reference("a:b:c"), Some(("a".to_string(), "b-c".to_string())));
    assert_eq!(parse_node_reference("nocolon"), None);
    assert_eq!(parse_node_reference(":rust"), None);
    assert_eq!(parse_node_reference("topic:"), None);
}

#[test]
fn escape_html_replaces_special_characters() {
    assert_eq!(
        escape_html("<a href=\"x\">'&'</a>"),
        "&lt;a href=&quot;x&quot;&gt;&#39;&amp;&#39;&lt;/a&gt;"
    );
    assert_eq!(escape_html("plain"), "plain");
    let escaped = escape_html("<>\"'");
    assert!(!escaped.contains('<') && !escaped.contains('>') && !escaped.contains('"') && !escaped.contains('\''));
}

#[test]
fn paragraphize_splits_on_blank_lines() {
    assert_eq!(paragraphize("hello\r\n\r\nworld  "), "<p>hello</p><p>world</p>");
    assert_eq!(paragraphize("a  b\nc\n\n\n\n<x>"), "<p>a b c</p><p>&lt;x&gt;</p>");
    assert_eq!(paragraphize(" \n\n \n"), "");
}

#[test]
fn ensure_document_markup_cases() {
    assert_eq!(ensure_document_markup("  "), "");
    assert_eq!(ensure_document_markup("  <div>x</div> "), "<div>x</div>");
    assert_eq!(ensure_document_markup("one\n\ntwo"), "<p>one</p><p>two</p>");
    assert_eq!(ensure_document_markup("<no close"), "<p>&lt;no close</p>");
}

#[test]
fn imported_document_markup_cases() {
    assert_eq!(
        imported_document_markup("A&B", "x"),
        Some("<hirsel-card eyebrow=\"Imported document\" heading=\"A&amp;B\"><p>x</p></hirsel-card>".to_string())
    );
    assert_eq!(imported_document_markup("A", "   "), None);
}

#[test]
fn imported_url_markup_cases() {
    assert_eq!(
        imported_url_markup("Page", "https://e.com/?a=1&b=2", ""),
        Some("<hirsel-card eyebrow=\"Source URL\" heading=\"Page\"><p><a href=\"https://e.com/?a=1&amp;b=2\">https://e.com/?a=1&amp;b=2</a></p></hirsel-card>".to_string())
    );
    assert_eq!(
        imported_url_markup("Page", "u", "body"),
        Some("<hirsel-card eyebrow=\"Source URL\" heading=\"Page\"><p><a href=\"u\">u</a></p><p>body</p></hirsel-card>".to_string())
    );
}

#[test]
fn extract_document_references_sorted_and_unique() {
    let html = "<hirsel-node-ref node=\"topic:Rust\"></hirsel-node-ref>\
                <hirsel-doc-target node=\" document:Intro \"></hirsel-doc-target>\
                <hirsel-node-ref node=\"topic:rust\"></hirsel-node-ref>\
                <hirsel-doc-link node=\"bad\"></hirsel-doc-link>\
                <p node=\"topic:ignored\"></p>";
    let refs = extract_document_references(html);
    assert_eq!(
        refs,
        vec![
            DocumentReference {
                kind: "document".to_string(),
                node_id: "intro".to_string(),
                relation: "documents".to_string(),
            },
            DocumentReference {
                kind: "topic".to_string(),
                node_id: "rust".to_string(),
                relation: "references".to_string(),
            },
        ]
    );
    assert!(extract_document_references("   ").is_empty());
}

#[test]
fn extract_text_from_html_joins_text_nodes() {
    assert_eq!(
        extract_text_from_html("<html><body><p>Hello</p><p>World  again</p></body></html>"),
        "Hello World again"
    );
}

#[test]
fn content_search_text_cases() {
    assert_eq!(content_search_text("<p>Hi</p><p>there</p>"), "Hi there");
    assert_eq!(content_search_text("  plain   text "), "plain text");
}

#[test]
fn make_summary_cases() {
    assert_eq!(make_summary("First one. Second!  Third?"), Some("First one. Second.".to_string()));
    assert_eq!(make_summary("   "), None);
    assert_eq!(make_summary("..."), Some("...".to_string()));
    assert_eq!(make_summary("no terminator here"), Some("no terminator here.".to_string()));
    let long: String = "x".repeat(300);
    assert_eq!(make_summary(&format!("{long}.")), Some(format!("{long}.")));
    assert_eq!(make_summary(". . ."), Some(". . .".chars().take(280).collect()));
}

#[test]
fn extract_text_by_content_type() {
    assert_eq!(extract_text("text/plain", b"  a \n b ", None).ok(), Some("a b".to_string()));
    assert_eq!(
        extract_text("text/html; charset=utf-8", b"<p>x</p>  <p>y</p>", None).ok(),
        Some("x y".to_string())
    );
    assert_eq!(extract_text("text/plain", &[0x66, 0xff, 0x6f], None).ok(), Some("f\u{fffd}o".to_string()));
    match extract_text("application/pdf", b"not a pdf", Some(PdfReading::Failed("bad".to_string()))) {
        Err(ExtractError::Pdf(reason)) => assert_eq!(reason, "bad"),
        Ok(_) => panic!("invalid PDF accepted"),
    }
    assert_eq!(
        extract_text("application/pdf", b"%PDF", Some(PdfReading::Text(" page\n one ".to_string()))).ok(),
        Some("page one".to_string())
    );
    assert!(needs_pdf_reader("application/pdf"));
    assert!(!needs_pdf_reader("text/plain"));
}

#[test]
fn record_keys_of_distinct_nodes_differ() {
    let a = graph_node_record_key("topic", "a-b");
    let b = graph_node_record_key("topic-a", "b");
    assert_eq!(a, "topic--a-b");
    assert_eq!(b, "topic-a--b");
    assert_ne!(a, b);
    assert_ne!(graph_node_record_key("url", "x"), graph_node_record_key("image", "x"));
}

#[test]
fn record_key_splits_back_into_kind_and_id() {
    let key = graph_node_record_key("document", "my-doc");
    assert_eq!(key.split_once("--"), Some(("document", "my-doc")));
    let key = graph_node_record_key("topic", "a--b");
    assert_eq!(key.split_once("--"), Some(("topic", "a--b")));
}

fn unescape(text: &str) -> String {
    text.replace("&lt;", "<")
        .replace("&gt;", ">")
        .replace("&quot;", "\"")
        .replace("&#39;", "'")
        .replace("&amp;", "&")
}

#[test]
fn escape_html_round_trips_and_leaves_plain_text() {
    for value in ["a<b>&\"c'", "&amp;", "x &lt; y", "plain text", ""] {
        assert_eq!(unescape(&escape_html(value)), value);
    }
    assert_eq!(escape_html("plain text"), "plain text");
    assert_ne!(escape_html("a&b"), "a&b");
}
