use mdview::ansi_styles::Style;
use mdview::style_stack::StyleStack;

const RESET: &str = "\x1b[0m";
const BOLD: &str = "\x1b[1m";
const ITALIC: &str = "\x1b[3m";

#[test]
fn open_then_close_is_balanced() {
    let mut stack = StyleStack::new();
    let mut out = String::new();
    stack.on_style_open(Style::Bold, &mut out);
    stack.on_style_close(Style::Bold, &mut out);
    assert_eq!(out, format!("{}{}", BOLD, RESET));
    assert_eq!(stack.len(), 0);
}

#[test]
fn closing_inner_style_restores_outer() {
    let mut stack = StyleStack::new();
    let mut out = String::new();
    stack.on_style_open(Style::Bold, &mut out);
    stack.on_style_open(Style::Italic, &mut out);
    stack.on_style_close(Style::Italic, &mut out);
    // the reset is followed by the still-active bold code, not plain text
    assert_eq!(out, format!("{}{}{}{}", BOLD, ITALIC, RESET, BOLD));
    assert_eq!(stack.len(), 1);
}

#[test]
fn opening_twice_emits_twice() {
    let mut stack = StyleStack::new();
    let mut out = String::new();
    stack.on_style_open(Style::Bold, &mut out);
    stack.on_style_open(Style::Bold, &mut out);
    assert_eq!(out, format!("{}{}", BOLD, BOLD));
    assert_eq!(stack.len(), 2);
}

#[test]
fn close_without_open_still_emits_reset() {
    let mut stack = StyleStack::new();
    let mut out = String::new();
    stack.on_style_close(Style::Italic, &mut out);
    assert_eq!(out, RESET);
    assert_eq!(stack.len(), 0);
}

#[test]
fn close_without_open_replays_active_styles() {
    let mut stack = StyleStack::new();
    let mut out = String::new();
    stack.on_style_open(Style::Bold, &mut out);
    out.clear();
    stack.on_style_close(Style::Italic, &mut out);
    assert_eq!(out, format!("{}{}", RESET, BOLD));
    assert_eq!(stack.len(), 1);
}

#[test]
fn deep_nesting_replays_remaining_stack() {
    let mut stack = StyleStack::new();
    let mut out = String::new();
    stack.on_style_open(Style::Bold, &mut out);
    stack.on_style_open(Style::Underline, &mut out);
    stack.on_style_open(Style::Italic, &mut out);
    out.clear();
    stack.on_style_close(Style::Underline, &mut out);
    // the most recent occurrence of underline leaves; bold and italic replay in order
    assert_eq!(out, format!("{}{}{}", RESET, BOLD, ITALIC));
    assert_eq!(stack.len(), 2);
}
