use pandorust::readers::grid_table::find_column_boundaries;
use pandorust::readers::grid_table::is_border_line;
use pandorust::readers::grid_table::is_data_line;
use pandorust::readers::grid_table::is_header_separator;
use pandorust::readers::grid_table::preprocess_grid_tables;

#[test]
fn test_is_border_line() {
    assert!(is_border_line("+-----+-----+"));
    assert!(is_border_line("+=====+=====+"));
    assert!(is_border_line("+---+---+---+"));
    assert!(!is_border_line("| A | B |"));
    assert!(!is_border_line("not a border"));
    assert!(!is_border_line("+"));
    assert!(!is_border_line("++"));
}

#[test]
fn test_is_data_line() {
    assert!(is_data_line("| A   | B   |"));
    assert!(is_data_line("|     | test |"));
    assert!(!is_data_line("+---+---+"));
    assert!(!is_data_line("no pipes"));
}

#[test]
fn test_is_header_separator() {
    assert!(is_header_separator("+=====+=====+"));
    assert!(is_header_separator("+===+===+===+"));
    assert!(!is_header_separator("+-----+-----+"));
    assert!(!is_header_separator("| A | B |"));
}

#[test]
fn test_find_column_boundaries() {
    assert_eq!(find_column_boundaries("+---+---+"), vec![0, 4, 8]);
    assert_eq!(
        find_column_boundaries("+-----+--------+----------+"),
        vec![0, 6, 15, 26]
    );
}

#[test]
fn test_preprocess_simple_grid_table() {
    let input = "\
+-----+-----+
| A   | B   |
+=====+=====+
| 1   | 2   |
+-----+-----+
| 3   | 4   |
+-----+-----+";
    let result = preprocess_grid_tables(input);
    assert!(result.contains("| A | B |"), "Got: {}", result);
    assert!(result.contains("| --- | --- |"), "Got: {}", result);
    assert!(result.contains("| 1 | 2 |"), "Got: {}", result);
    assert!(result.contains("| 3 | 4 |"), "Got: {}", result);
}

#[test]
fn test_preprocess_newpage() {
    let input = "Above\n\n\\newpage\n\nBelow";
    let result = preprocess_grid_tables(input);
    assert!(
        result.contains("<div style=\"page-break-after: always;\"></div>"),
        "Got: {}",
        result
    );
    assert!(result.contains("Above"), "Got: {}", result);
    assert!(result.contains("Below"), "Got: {}", result);
}

#[test]
fn test_preprocess_multiline_cells() {
    let input = "\
+-----+---------------------------+
| No. | Description               |
+=====+===========================+
| 1   | **First item**            |
|     | With extra detail         |
+-----+---------------------------+";
    let result = preprocess_grid_tables(input);
    assert!(
        result.contains("**First item** With extra detail"),
        "Got: {}",
        result
    );
}

#[test]
fn test_preprocess_preserves_non_table_content() {
    let input = "# Title\n\nSome paragraph.\n\n- list item";
    let result = preprocess_grid_tables(input);
    assert_eq!(result, input);
}

#[test]
fn test_preprocess_no_header_separator() {
    let input = "\
+-----+-----+
| A   | B   |
+-----+-----+
| 1   | 2   |
+-----+-----+";
    let result = preprocess_grid_tables(input);
    assert!(result.contains("| A | B |"), "Got: {}", result);
    assert!(result.contains("| --- | --- |"), "Got: {}", result);
    assert!(result.contains("| 1 | 2 |"), "Got: {}", result);
}
