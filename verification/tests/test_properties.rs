use pandorust::formats::detect_format;
use pandorust::formats::input_format_supported;
use pandorust::formats::output_format_supported;
use pandorust::readers::grid_table::preprocess_grid_tables;
use pandorust::readers::markdown::read_markdown;
use pandorust::utils::error::PandorustError;
use pandorust::writers::docx::docx_elements;
use pandorust::writers::docx::write_docx;
use pandorust::writers::html::write_html;

#[test]
fn test_render_same_document_twice_is_identical() {
    let md = "---\ntitle: T\n---\n\n# A\n\nSome **text** and a [link](https://example.com).\n";
    let doc = read_markdown(md).unwrap();
    let html_one = write_html(&doc);
    let html_two = write_html(&doc);
    assert_eq!(html_one, html_two);
    let docx_one = write_docx(&doc).unwrap();
    let docx_two = write_docx(&doc).unwrap();
    assert_eq!(docx_one, docx_two);
}

#[test]
fn test_grid_table_exact_conversion() {
    let input = "\
+-----+-----+
| A   | B   |
+=====+=====+
| 1   | 2   |
+-----+-----+
| 3   | 4   |
+-----+-----+";
    let result = preprocess_grid_tables(input);
    assert_eq!(result, "| A | B |\n| --- | --- |\n| 1 | 2 |\n| 3 | 4 |");
}

#[test]
fn test_multiline_join_exact() {
    let input = "\
+-----+---------+
| H   | K       |
+=====+=========+
| one | a       |
| two | b       |
|     | c       |
+-----+---------+";
    let result = preprocess_grid_tables(input);
    assert!(result.contains("| one two | a b c |"), "Got: {}", result);
}

#[test]
fn test_fenced_div_markers_never_survive() {
    let input = "start\n\n::: {custom-style=\"X\"}\ninner line\n:::\n\n::: plain\nmore\n:::\nend";
    let result = preprocess_grid_tables(input);
    assert!(!result.contains(":::"), "Got: {}", result);
    assert!(result.contains("inner line"));
    assert!(result.contains("more"));
}

#[test]
fn test_metadata_optionality_in_outputs() {
    let doc = read_markdown("Just text").unwrap();
    let html = write_html(&doc);
    assert!(!html.contains("<title>"));
    assert!(!html.contains("<header>"));
    assert!(!html.contains("class=\"author\""));
    let elements = docx_elements(&doc);
    // Only the single body paragraph: no metadata paragraphs precede it.
    assert_eq!(elements.len(), 1);

    let doc2 = read_markdown("---\nauthor: A. Person\n---\n\nBody").unwrap();
    let html2 = write_html(&doc2);
    assert!(!html2.contains("<title>"));
    assert!(html2.contains("class=\"author\""));
    let elements2 = docx_elements(&doc2);
    assert_eq!(elements2.len(), 2);
}

#[test]
fn test_end_to_end_scenario_markup() {
    let doc = read_markdown("# Hello\n\nThis is **bold**.").unwrap();
    let html = write_html(&doc);
    assert!(html.contains("<h1>Hello</h1>"));
    assert!(html.contains("<strong>bold</strong>"));
    let bytes = write_docx(&doc).unwrap();
    assert_eq!(&bytes[0..2], b"PK");
}

#[test]
fn test_detect_format_from_paths() {
    assert_eq!(detect_format("input.md"), "md");
    assert_eq!(detect_format("out.HTML"), "html");
    assert_eq!(detect_format("archive.tar.gz"), "gz");
    assert_eq!(detect_format("no_extension"), "");
    assert_eq!(detect_format("dir.d/file"), "");
    assert_eq!(detect_format("a/b/c.DOCX"), "docx");
}

#[test]
fn test_format_token_predicates() {
    assert!(input_format_supported("md"));
    assert!(input_format_supported("markdown"));
    assert!(!input_format_supported("rst"));
    assert!(output_format_supported("html"));
    assert!(output_format_supported("docx"));
    assert!(!output_format_supported("pdf"));
}

#[test]
fn test_error_messages() {
    assert_eq!(
        PandorustError::Io("gone".to_string()).message(),
        "IO error: gone"
    );
    assert_eq!(
        PandorustError::UnsupportedInputFormat("rst".to_string()).message(),
        "Unsupported input format: rst"
    );
    assert_eq!(
        PandorustError::UnsupportedOutputFormat("pdf".to_string()).message(),
        "Unsupported output format: pdf"
    );
    assert_eq!(
        PandorustError::YamlError("bad".to_string()).message(),
        "YAML front matter parse error: bad"
    );
    assert_eq!(
        PandorustError::DocxError("boom".to_string()).message(),
        "DOCX generation error: boom"
    );
}

#[test]
fn test_grid_table_shape_survives_parsing() {
    // A grid table with a header separator and three data rows keeps one
    // head row and the remaining rows in a single body section.
    let md = "\
+-----+-----+
| H1  | H2  |
+=====+=====+
| a   | b   |
+-----+-----+
| c   | d   |
+-----+-----+
| e   | f   |
+-----+-----+";
    let doc = read_markdown(md).unwrap();
    match &doc.blocks[0] {
        pandorust::ast::block::Block::Table(table) => {
            assert_eq!(table.head.rows.len(), 1);
            assert_eq!(table.bodies.len(), 1);
            assert_eq!(table.bodies[0].body.len(), 3);
        }
        other => panic!("Expected Table, got {:?}", other),
    }
}
