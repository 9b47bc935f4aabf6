//! The line-scanning renderer.
//!
//! Raw text is cut into lines and dispatched block by block: a run of
//! lines opening with the table delimiter goes to the table formatter,
//! fenced code toggles a per-pass code state, and headings, block quotes
//! and thematic breaks each have a dedicated rule. Any line no rule
//! claims is echoed verbatim. The whole pass is a pure function of the
//! input, pinned by `render_spec`.

use vstd::prelude::*;
use vstd::string::*;
use crate::ansi_styles::{Style, code_seq, code_str, reset_seq, reset_str};
use crate::scan::{
    append_repeat, is_prefix, is_ws, is_ws_char, lemma_trim_start_skip, nl, repeat_char,
    split_lines, split_lines_exec, trim_of, trim_spec, trim_start_spec, views_of,
};
use crate::table::{render_table, render_table_spec};

verus! {

/// The fence marker that opens and closes a code block.
pub open spec fn fence() -> Seq<char> {
    seq!['`', '`', '`']
}

/// A line that opens or closes a fenced code block.
pub open spec fn is_fence_line(l: Seq<char>) -> bool {
    is_prefix(fence(), l)
}

/// A line belongs to a table block exactly when, after its leading
/// whitespace, it starts with the table delimiter.
pub open spec fn is_table_line(l: Seq<char>) -> bool {
    trim_start_spec(l).len() > 0 && trim_start_spec(l)[0] == '|'
}

/// The marker that opens a heading of level `n`.
pub open spec fn heading_prefix(n: nat) -> Seq<char> {
    repeat_char('#', n) + seq![' ']
}

/// The heading level a line opens, or zero for no heading; only levels
/// one to six exist.
pub open spec fn heading_level(l: Seq<char>) -> nat {
    if is_prefix(heading_prefix(1), l) {
        1
    } else if is_prefix(heading_prefix(2), l) {
        2
    } else if is_prefix(heading_prefix(3), l) {
        3
    } else if is_prefix(heading_prefix(4), l) {
        4
    } else if is_prefix(heading_prefix(5), l) {
        5
    } else if is_prefix(heading_prefix(6), l) {
        6
    } else {
        0
    }
}

/// A block-quote line: it opens with the quote marker.
pub open spec fn is_quote_line(l: Seq<char>) -> bool {
    is_prefix(seq!['>', ' '], l)
}

/// A thematic break: three dashes alone on their line.
pub open spec fn is_rule_line(l: Seq<char>) -> bool {
    trim_spec(l) == seq!['-', '-', '-']
}

/// The style prefix of each heading level: bold plus the level's color
/// and underline; every level past three shares the generic style.
pub open spec fn heading_codes(level: nat) -> Seq<char> {
    if level == 1 {
        code_seq(Style::Bold) + code_seq(Style::Underline) + code_seq(Style::Cyan)
    } else if level == 2 {
        code_seq(Style::Bold) + code_seq(Style::Cyan)
    } else if level == 3 {
        code_seq(Style::Bold) + code_seq(Style::Blue)
    } else {
        code_seq(Style::Bold)
    }
}

/// A heading framed by blank lines: the level's codes, then the content
/// — level one drops its marker text, deeper levels keep theirs — then
/// the reset.
pub open spec fn heading_out(l: Seq<char>, level: nat) -> Seq<char> {
    let content = if level == 1 {
        l.skip(2)
    } else {
        l
    };
    nl() + heading_codes(level) + content + reset_seq() + nl() + nl()
}

/// A block-quote line: the quote marker in one color, the quoted text in
/// the body color, then the reset.
pub open spec fn quote_out(l: Seq<char>) -> Seq<char> {
    code_seq(Style::Green) + seq!['>', ' '] + code_seq(Style::Cyan) + l.skip(2) + reset_seq() + nl()
}

/// The width of the horizontal divider a thematic break draws.
pub open spec fn rule_width() -> nat {
    40
}

/// A thematic break: a fixed-width dash line framed by blank lines.
pub open spec fn rule_out() -> Seq<char> {
    nl() + repeat_char('-', rule_width()) + nl() + nl()
}

/// A fence marker line, shown in the fence color.
pub open spec fn fence_out(l: Seq<char>) -> Seq<char> {
    code_seq(Style::Yellow) + l + reset_seq() + nl()
}

/// A line inside a code block, shown in the highlight color.
pub open spec fn code_line_out(l: Seq<char>) -> Seq<char> {
    code_seq(Style::Green) + l + reset_seq() + nl()
}

/// One line outside tables and code blocks: heading, quote or rule when
/// one matches, else the line itself, verbatim.
pub open spec fn line_out(l: Seq<char>) -> Seq<char> {
    let lev = heading_level(l);
    if lev > 0 {
        heading_out(l, lev)
    } else if is_quote_line(l) {
        quote_out(l)
    } else if is_rule_line(l) {
        rule_out()
    } else {
        l + nl()
    }
}

/// How many table lines open `ls`.
pub open spec fn table_run(ls: Seq<Seq<char>>) -> nat
    decreases ls.len(),
{
    if ls.len() > 0 && is_table_line(ls[0]) {
        1 + table_run(ls.skip(1))
    } else {
        0
    }
}

/// A table run never outruns the lines.
pub proof fn lemma_table_run_le(ls: Seq<Seq<char>>)
    ensures
        table_run(ls) <= ls.len(),
    decreases ls.len(),
{
    if ls.len() > 0 && is_table_line(ls[0]) {
        lemma_table_run_le(ls.skip(1));
    }
}

/// The table run is the count of leading table lines.
pub proof fn lemma_table_run_is(ls: Seq<Seq<char>>, m: int)
    requires
        0 <= m <= ls.len(),
        forall|x: int| 0 <= x < m ==> is_table_line(ls[x]),
        m < ls.len() ==> !is_table_line(ls[m]),
    ensures
        table_run(ls) == m,
    decreases m,
{
    if m > 0 {
        lemma_table_run_is(ls.skip(1), m - 1);
    }
}

/// The whole pass over the lines: a fold that carries the code-block
/// state, dispatching each block to its rule.
pub open spec fn render_lines_spec(ls: Seq<Seq<char>>, in_code: bool) -> Seq<char>
    decreases ls.len(),
    via render_lines_spec_decreases
{
    if ls.len() == 0 {
        Seq::empty()
    } else if in_code {
        if is_fence_line(ls[0]) {
            fence_out(ls[0]) + render_lines_spec(ls.skip(1), false)
        } else {
            code_line_out(ls[0]) + render_lines_spec(ls.skip(1), true)
        }
    } else if is_fence_line(ls[0]) {
        fence_out(ls[0]) + render_lines_spec(ls.skip(1), true)
    } else if is_table_line(ls[0]) {
        let n = table_run(ls) as int;
        render_table_spec(ls.take(n)) + render_lines_spec(ls.skip(n), false)
    } else {
        line_out(ls[0]) + render_lines_spec(ls.skip(1), false)
    }
}

#[via_fn]
proof fn render_lines_spec_decreases(ls: Seq<Seq<char>>, in_code: bool) {
    if ls.len() > 0 && !in_code && !is_fence_line(ls[0]) && is_table_line(ls[0]) {
        lemma_table_run_le(ls);
    }
}

/// The full rendering of raw input text.
pub open spec fn render_spec(s: Seq<char>) -> Seq<char> {
    render_lines_spec(split_lines(s), false)
}

/// The inline task-list marker: checked or unchecked.
pub open spec fn task_marker_seq(checked: bool) -> Seq<char> {
    if checked {
        seq!['[', 'x', ']', ' ']
    } else {
        seq!['[', ' ', ']', ' ']
    }
}

/// The task-list marker as text. Inline content, not a block.
pub fn task_list_marker(checked: bool) -> (r: &'static str)
    ensures
        r@ == task_marker_seq(checked),
{
    if checked {
        proof {
            reveal_strlit("[x] ");
            assert("[x] "@ =~= task_marker_seq(true));
        }
        "[x] "
    } else {
        proof {
            reveal_strlit("[ ] ");
            assert("[ ] "@ =~= task_marker_seq(false));
        }
        "[ ] "
    }
}

/// Whether the line opens or closes a fenced code block.
fn is_fence_line_exec(s: &str) -> (b: bool)
    ensures
        b == is_fence_line(s@),
{
    proof {
        reveal_strlit("```");
        assert("```"@ =~= fence());
    }
    crate::scan::has_prefix(s, "```")
}

/// Whether the line belongs to a table block.
fn is_table_line_exec(s: &str) -> (b: bool)
    ensures
        b == is_table_line(s@),
{
    let n = s.unicode_len();
    let mut a: usize = 0;
    while a < n && is_ws_char(s.get_char(a))
        invariant
            a <= n,
            n == s@.len(),
            forall|j: int| 0 <= j < a ==> is_ws(s@[j]),
        decreases n - a,
    {
        a = a + 1;
    }
    proof {
        lemma_trim_start_skip(s@, a as int);
    }
    if a < n {
        s.get_char(a) == '|'
    } else {
        false
    }
}

/// The heading level the line opens, or zero.
fn heading_level_exec(s: &str) -> (lev: usize)
    ensures
        lev as nat == heading_level(s@),
{
    proof {
        reveal_strlit("# ");
        reveal_strlit("## ");
        reveal_strlit("### ");
        reveal_strlit("#### ");
        reveal_strlit("##### ");
        reveal_strlit("###### ");
        assert(repeat_char('#', 0) =~= Seq::<char>::empty());
        assert(repeat_char('#', 1) =~= seq!['#']);
        assert(repeat_char('#', 2) =~= seq!['#', '#']);
        assert(repeat_char('#', 3) =~= seq!['#', '#', '#']);
        assert(repeat_char('#', 4) =~= seq!['#', '#', '#', '#']);
        assert(repeat_char('#', 5) =~= seq!['#', '#', '#', '#', '#']);
        assert(repeat_char('#', 6) =~= seq!['#', '#', '#', '#', '#', '#']);
        assert("# "@ =~= heading_prefix(1));
        assert("## "@ =~= heading_prefix(2));
        assert("### "@ =~= heading_prefix(3));
        assert("#### "@ =~= heading_prefix(4));
        assert("##### "@ =~= heading_prefix(5));
        assert("###### "@ =~= heading_prefix(6));
    }
    if crate::scan::has_prefix(s, "# ") {
        1
    } else if crate::scan::has_prefix(s, "## ") {
        2
    } else if crate::scan::has_prefix(s, "### ") {
        3
    } else if crate::scan::has_prefix(s, "#### ") {
        4
    } else if crate::scan::has_prefix(s, "##### ") {
        5
    } else if crate::scan::has_prefix(s, "###### ") {
        6
    } else {
        0
    }
}

/// Whether the line is a thematic break.
fn is_rule_line_exec(s: &str) -> (b: bool)
    ensures
        b == is_rule_line(s@),
{
    let t = trim_of(s);
    let ts = t.as_str();
    let n = ts.unicode_len();
    if n == 3 {
        let b = ts.get_char(0) == '-' && ts.get_char(1) == '-' && ts.get_char(2) == '-';
        proof {
            if b {
                assert(trim_spec(s@) =~= seq!['-', '-', '-']);
            }
        }
        b
    } else {
        false
    }
}

/// Appends the line wrapped in one color and closed with a reset.
fn emit_wrapped(out: &mut String, color: Style, line: &str)
    ensures
        final(out)@ == old(out)@ + code_seq(color) + line@ + reset_seq() + nl(),
{
    out.append(code_str(color));
    out.append(line);
    out.append(reset_str());
    out.append("\n");
    proof {
        reveal_strlit("\n");
        assert("\n"@ =~= nl());
    }
}

/// Appends the rendering of one line outside tables and code blocks.
fn emit_line(out: &mut String, line: &str)
    ensures
        final(out)@ == old(out)@ + line_out(line@),
{
    let ghost base = out@;
    proof {
        reveal_strlit("> ");
        assert("> "@ =~= seq!['>', ' ']);
    }
    let lev = heading_level_exec(line);
    if lev > 0 {
        let n = line.unicode_len();
        out.append("\n");
        out.append(code_str(Style::Bold));
        if lev == 1 {
            out.append(code_str(Style::Underline));
            out.append(code_str(Style::Cyan));
            out.append(line.substring_char(2, n));
            proof {
                assert(line@.subrange(2, n as int) =~= line@.skip(2));
            }
        } else if lev == 2 {
            out.append(code_str(Style::Cyan));
            out.append(line);
        } else if lev == 3 {
            out.append(code_str(Style::Blue));
            out.append(line);
        } else {
            out.append(line);
        }
        out.append(reset_str());
        out.append("\n");
        out.append("\n");
        proof {
            reveal_strlit("\n");
            assert("\n"@ =~= nl());
            assert(out@ =~= base + heading_out(line@, lev as nat));
        }
    } else if crate::scan::has_prefix(line, "> ") {
        let n = line.unicode_len();
        out.append(code_str(Style::Green));
        out.append("> ");
        out.append(code_str(Style::Cyan));
        out.append(line.substring_char(2, n));
        out.append(reset_str());
        out.append("\n");
        proof {
            reveal_strlit("\n");
            assert("\n"@ =~= nl());
            assert(line@.subrange(2, n as int) =~= line@.skip(2));
            assert(out@ =~= base + quote_out(line@));
        }
    } else if is_rule_line_exec(line) {
        out.append("\n");
        proof {
            reveal_strlit("-");
        }
        append_repeat(out, "-", 40);
        out.append("\n");
        out.append("\n");
        proof {
            reveal_strlit("\n");
            assert("\n"@ =~= nl());
            assert("-"@[0] == '-');
            assert(out@ =~= base + rule_out());
        }
    } else {
        out.append(line);
        out.append("\n");
        proof {
            reveal_strlit("\n");
            assert("\n"@ =~= nl());
            assert(out@ =~= base + line_out(line@));
        }
    }
}

/// Renders raw markup text to a styled terminal stream. The output is a
/// pure function of the input: the scan dispatches table runs to the
/// table formatter, tracks fenced code, and renders headings, quotes,
/// rules and plain text line by line.
pub fn render_markdown(input: &str) -> (out: String)
    ensures
        out@ == render_spec(input@),
{
    let lines = split_lines_exec(input);
    let ghost lsv = views_of(lines@);
    let mut out = String::new();
    let mut in_code = false;
    let mut i: usize = 0;
    proof {
        assert(lsv.skip(0) =~= lsv);
        assert(out@ + render_lines_spec(lsv, false) =~= render_lines_spec(lsv, false));
    }
    while i < lines.len()
        invariant
            i <= lines@.len(),
            lsv == views_of(lines@),
            render_lines_spec(lsv, false) == out@ + render_lines_spec(lsv.skip(i as int), in_code),
        decreases lines@.len() - i,
    {
        let ghost rest = lsv.skip(i as int);
        proof {
            assert(rest[0] == lsv[i as int]);
            assert(rest.skip(1) =~= lsv.skip(i as int + 1));
        }
        let line = &lines[i];
        if in_code {
            if is_fence_line_exec(line.as_str()) {
                emit_wrapped(&mut out, Style::Yellow, line.as_str());
                in_code = false;
            } else {
                emit_wrapped(&mut out, Style::Green, line.as_str());
            }
            i = i + 1;
        } else if is_fence_line_exec(line.as_str()) {
            emit_wrapped(&mut out, Style::Yellow, line.as_str());
            in_code = true;
            i = i + 1;
        } else if is_table_line_exec(line.as_str()) {
            let mut block: Vec<String> = Vec::new();
            let mut j = i;
            proof {
                assert(views_of(block@) =~= lsv.subrange(i as int, i as int));
            }
            while j < lines.len() && is_table_line_exec(lines[j].as_str())
                invariant
                    i <= j <= lines@.len(),
                    lsv == views_of(lines@),
                    views_of(block@) == lsv.subrange(i as int, j as int),
                    forall|x: int| i <= x < j ==> is_table_line(lsv[x]),
                decreases lines@.len() - j,
            {
                let ghost before = block@;
                block.push(lines[j].clone());
                proof {
                    assert(views_of(block@) =~= views_of(before).push(lsv[j as int]));
                    assert(views_of(block@) =~= lsv.subrange(i as int, j as int + 1));
                }
                j = j + 1;
            }
            proof {
                lemma_table_run_is(rest, (j - i) as int);
                assert(rest.take((j - i) as int) =~= lsv.subrange(i as int, j as int));
                assert(rest.skip((j - i) as int) =~= lsv.skip(j as int));
            }
            let piece = render_table(&block);
            out.append(piece.as_str());
            i = j;
        } else {
            emit_line(&mut out, line.as_str());
            i = i + 1;
        }
    }
    proof {
        assert(lsv.skip(lines@.len() as int) =~= Seq::<Seq<char>>::empty());
        assert(out@ + Seq::<char>::empty() =~= out@);
    }
    out
}

/// Outside code blocks and quotes, a text line that no block rule claims
/// passes through the renderer verbatim: its characters appear unchanged
/// and in order, with no escape codes, followed only by the line break.
pub proof fn lemma_plain_line_verbatim(l: Seq<char>)
    requires
        !is_fence_line(l),
        !is_table_line(l),
        heading_level(l) == 0,
        !is_quote_line(l),
        !is_rule_line(l),
    ensures
        line_out(l) == l + nl(),
        render_lines_spec(seq![l], false) == l + nl(),
{
    let ls = seq![l];
    assert(ls[0] == l);
    assert(ls.skip(1) =~= Seq::<Seq<char>>::empty());
    assert(render_lines_spec(ls, false) == line_out(ls[0]) + render_lines_spec(ls.skip(1), false));
    assert(render_lines_spec(ls.skip(1), false) == Seq::<char>::empty());
    assert(l + nl() + Seq::<char>::empty() =~= l + nl());
}

/// One render pass is a pure function of its input: no counter or other
/// state survives a call, so repeated renders of identical input produce
/// byte-identical output.
pub proof fn lemma_render_deterministic(a: Seq<char>, b: Seq<char>)
    requires
        a == b,
    ensures
        render_spec(a) == render_spec(b),
{
}

} // verus!
