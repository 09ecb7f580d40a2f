use pandorust::readers::markdown::read_markdown;
use pandorust::writers::docx::heading_size;
use pandorust::writers::docx::parse_fontsize;
use pandorust::writers::docx::write_docx;
use std::io::Cursor;
use std::io::Read;

#[test]
fn test_docx_generates_valid_zip() {
    let doc = read_markdown("# Hello\n\nTest paragraph.").unwrap();
    let bytes = write_docx(&doc).unwrap();
    assert!(bytes.len() > 100);
    assert_eq!(&bytes[0..2], b"PK");
}

#[test]
fn test_docx_with_table() {
    let doc = read_markdown("| A | B |\n|---|---|\n| 1 | 2 |").unwrap();
    let bytes = write_docx(&doc).unwrap();
    assert!(bytes.len() > 100);
    assert_eq!(&bytes[0..2], b"PK");
}

#[test]
fn test_docx_with_metadata() {
    let md = "---\ntitle: Test\nauthor: Me\n---\n\nContent.";
    let doc = read_markdown(md).unwrap();
    let bytes = write_docx(&doc).unwrap();
    assert!(bytes.len() > 100);
}

#[test]
fn test_docx_with_lists() {
    let doc = read_markdown("- One\n- Two\n- Three").unwrap();
    let bytes = write_docx(&doc).unwrap();
    assert!(bytes.len() > 100);
}

#[test]
fn test_docx_with_code_block() {
    let doc = read_markdown("```rust\nfn main() {}\n```").unwrap();
    let bytes = write_docx(&doc).unwrap();
    assert!(bytes.len() > 100);
}

#[test]
fn test_docx_body_text_has_font() {
    let doc = read_markdown("Hello world").unwrap();
    let bytes = write_docx(&doc).unwrap();
    let content = String::from_utf8_lossy(&bytes);
    assert!(content.contains("Calibri") || content.contains("Arial"),
        "DOCX body text should use Calibri or Arial font");
}

#[test]
fn test_docx_has_paragraph_spacing() {
    let md = "# Heading\n\nFirst paragraph.\n\nSecond paragraph.\n\n- Item one\n- Item two";
    let doc = read_markdown(md).unwrap();
    let bytes = write_docx(&doc).unwrap();
    let cursor = Cursor::new(bytes);
    let mut archive = zip::ZipArchive::new(cursor).unwrap();
    let mut doc_xml = String::new();
    archive.by_name("word/document.xml").unwrap().read_to_string(&mut doc_xml).unwrap();
    assert!(doc_xml.contains("w:before") || doc_xml.contains("w:after"),
        "DOCX paragraphs should have spacing, XML snippet: {}", &doc_xml[..2000.min(doc_xml.len())]);
}

#[test]
fn test_docx_respects_fontsize_meta() {
    let md = "---\nfontsize: 11pt\n---\n\nHello";
    let doc = read_markdown(md).unwrap();
    let bytes = write_docx(&doc).unwrap();
    let content = String::from_utf8_lossy(&bytes);
    assert!(content.contains("22") || content.contains("w:sz"),
        "DOCX should set font size from metadata");
}

#[test]
fn test_parse_fontsize_values() {
    assert_eq!(parse_fontsize(Some("11pt")), 22);
    assert_eq!(parse_fontsize(Some("12pt")), 24);
    assert_eq!(parse_fontsize(None), 24);
    assert_eq!(parse_fontsize(Some("huge")), 24);
    assert_eq!(parse_fontsize(Some("")), 24);
    assert_eq!(parse_fontsize(Some("9")), 18);
}

#[test]
fn test_heading_size_offsets() {
    let base = 24;
    assert_eq!(heading_size(1, base), base + 14);
    assert_eq!(heading_size(2, base), base + 8);
    assert_eq!(heading_size(3, base), base + 4);
    assert_eq!(heading_size(4, base), base + 2);
    assert_eq!(heading_size(5, base), base);
    assert_eq!(heading_size(6, base), base - 2);
}
