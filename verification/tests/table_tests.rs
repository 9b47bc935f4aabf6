use mdview::table::{render_table, split_cells};

const RESET: &str = "\x1b[0m";
const BOLD: &str = "\x1b[1m";

fn rows(v: &[&str]) -> Vec<String> {
    v.iter().map(|s| s.to_string()).collect()
}

#[test]
fn two_row_table_header_and_separator() {
    let out = render_table(&rows(&["a|bb|c", "1|2|3"]));
    let expected = format!("{}a | bb | c{}\n--+----+--\n", BOLD, RESET);
    assert_eq!(out, expected);
}

#[test]
fn one_row_table_is_diagnosed() {
    let out = render_table(&rows(&["a|b"]));
    assert_eq!(out, "Invalid table format.\n");
}

#[test]
fn empty_block_is_diagnosed() {
    let out = render_table(&rows(&[]));
    assert_eq!(out, "Invalid table format.\n");
}

#[test]
fn data_rows_are_padded_plain() {
    let out = render_table(&rows(&["| a | bb |", "| 1 | 2 |", "| x | yyy |"]));
    let expected = format!("{}a | bb {}\n--+----\nx | yyy\n", BOLD, RESET);
    assert_eq!(out, expected);
}

#[test]
fn short_rows_are_filled_with_empty_cells() {
    let out = render_table(&rows(&["a|b|c", "s", "x"]));
    let expected = format!("{}a | b | c{}\n--+---+--\nx |   |  \n", BOLD, RESET);
    assert_eq!(out, expected);
}

#[test]
fn long_rows_are_truncated_to_header_columns() {
    let out = render_table(&rows(&["a|b", "s", "x|y|z"]));
    let expected = format!("{}a | b{}\n--+--\nx | y\n", BOLD, RESET);
    assert_eq!(out, expected);
}

#[test]
fn separator_row_content_is_discarded() {
    let out = render_table(&rows(&["h1|h2", "--|--", "d1|d2"]));
    let expected = format!("{}h1 | h2{}\n---+---\nd1 | d2\n", BOLD, RESET);
    assert_eq!(out, expected);
}

#[test]
fn cells_are_trimmed_and_pipes_stripped() {
    let cells = split_cells("|| a  |\tb ||");
    let views: Vec<&str> = cells.iter().map(|c| c.as_str()).collect();
    assert_eq!(views, vec!["a", "b"]);
}

#[test]
fn splitting_keeps_empty_cells() {
    let cells = split_cells("a||b");
    let views: Vec<&str> = cells.iter().map(|c| c.as_str()).collect();
    assert_eq!(views, vec!["a", "", "b"]);
}
