use mdview::renderer::render_markdown;

const RESET: &str = "\x1b[0m";
const BOLD: &str = "\x1b[1m";
const UNDERLINE: &str = "\x1b[4m";
const GREEN: &str = "\x1b[32m";
const YELLOW: &str = "\x1b[33m";
const CYAN: &str = "\x1b[36m";

#[test]
fn empty_input_renders_empty() {
    assert_eq!(render_markdown(""), "");
}

#[test]
fn plain_line_is_verbatim() {
    assert_eq!(render_markdown("hello world"), "hello world\n");
}

#[test]
fn plain_lines_keep_order_and_characters() {
    assert_eq!(render_markdown("one\ntwo\nthree"), "one\ntwo\nthree\n");
}

#[test]
fn level_one_heading_drops_marker() {
    let expected = format!("\n{}{}{}Title{}\n\n", BOLD, UNDERLINE, CYAN, RESET);
    assert_eq!(render_markdown("# Title"), expected);
}

#[test]
fn level_two_heading_keeps_marker() {
    let expected = format!("\n{}{}## Title{}\n\n", BOLD, CYAN, RESET);
    assert_eq!(render_markdown("## Title"), expected);
}

#[test]
fn level_four_heading_uses_generic_style() {
    let expected = format!("\n{}#### Deep{}\n\n", BOLD, RESET);
    assert_eq!(render_markdown("#### Deep"), expected);
}

#[test]
fn hash_without_space_is_plain_text() {
    assert_eq!(render_markdown("#nospace"), "#nospace\n");
}

#[test]
fn fenced_code_block_is_highlighted() {
    let expected = format!(
        "{}```{}\n{}let x = 1;{}\n{}```{}\n",
        YELLOW, RESET, GREEN, RESET, YELLOW, RESET
    );
    assert_eq!(render_markdown("```\nlet x = 1;\n```"), expected);
}

#[test]
fn code_block_suppresses_other_rules() {
    let input = "```\n# not a heading\n```";
    let expected = format!(
        "{}```{}\n{}# not a heading{}\n{}```{}\n",
        YELLOW, RESET, GREEN, RESET, YELLOW, RESET
    );
    assert_eq!(render_markdown(input), expected);
}

#[test]
fn block_quote_line() {
    let expected = format!("{}> {}quoted{}\n", GREEN, CYAN, RESET);
    assert_eq!(render_markdown("> quoted"), expected);
}

#[test]
fn thematic_break_draws_divider() {
    let expected = format!("\n{}\n\n", "-".repeat(40));
    assert_eq!(render_markdown("---"), expected);
}

#[test]
fn rendering_is_idempotent() {
    let input = "# Head\nplain\n| a | b |\n| 1 | 2 |\n```\ncode\n```\n> q\n---";
    let first = render_markdown(input);
    let second = render_markdown(input);
    assert_eq!(first, second);
}

#[test]
fn table_block_inside_document() {
    let input = "| a | bb |\n| 1 | 2 |\n| x | yyy |";
    let expected = format!("{}a | bb {}\n--+----\nx | yyy\n", BOLD, RESET);
    assert_eq!(render_markdown(input), expected);
}

#[test]
fn single_table_line_gets_diagnostic() {
    assert_eq!(render_markdown("| alone |"), "Invalid table format.\n");
}

#[test]
fn task_list_markers() {
    assert_eq!(mdview::renderer::task_list_marker(true), "[x] ");
    assert_eq!(mdview::renderer::task_list_marker(false), "[ ] ");
}
