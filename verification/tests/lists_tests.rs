use mdview::lists::{u64_to_dec, ListState};

#[test]
fn depth_counts_opens_minus_closes() {
    let mut state = ListState::new();
    state.on_list_open(None);
    state.on_list_open(Some(1));
    state.on_list_open(None);
    assert_eq!(state.depth(), 3);
    state.on_list_close();
    state.on_list_close();
    assert_eq!(state.depth(), 1);
}

#[test]
fn depth_is_clamped_at_zero() {
    let mut state = ListState::new();
    state.on_list_close();
    assert_eq!(state.depth(), 0);
    state.on_list_open(None);
    state.on_list_close();
    state.on_list_close();
    assert_eq!(state.depth(), 0);
}

#[test]
fn ordered_items_count_up() {
    let mut state = ListState::new();
    let mut out = String::new();
    state.on_list_open(Some(1));
    state.on_item_open(&mut out);
    state.on_item_open(&mut out);
    state.on_item_open(&mut out);
    assert_eq!(out, "1. 2. 3. ");
}

#[test]
fn ordered_list_honors_start_number() {
    let mut state = ListState::new();
    let mut out = String::new();
    state.on_list_open(Some(7));
    state.on_item_open(&mut out);
    assert_eq!(out, "7. ");
}

#[test]
fn unordered_items_use_bullet() {
    let mut state = ListState::new();
    let mut out = String::new();
    state.on_list_open(None);
    state.on_item_open(&mut out);
    assert_eq!(out, "* ");
}

#[test]
fn nested_items_are_indented() {
    let mut state = ListState::new();
    let mut out = String::new();
    state.on_list_open(None);
    state.on_list_open(None);
    state.on_item_open(&mut out);
    assert_eq!(out, "    * ");
}

#[test]
fn outer_numbering_resumes_after_nested_list() {
    let mut state = ListState::new();
    let mut out = String::new();
    state.on_list_open(Some(1));
    state.on_item_open(&mut out); // 1.
    state.on_list_open(None);
    state.on_item_open(&mut out); // indented bullet
    state.on_list_close();
    state.on_item_open(&mut out); // 2., not a restart
    assert_eq!(out, "1.     * 2. ");
}

#[test]
fn item_without_open_list_is_recovered() {
    let mut state = ListState::new();
    let mut out = String::new();
    state.on_item_open(&mut out);
    assert_eq!(out, "* ");
    assert_eq!(state.depth(), 0);
}

#[test]
fn ordinal_saturates_at_the_largest_number() {
    let mut state = ListState::new();
    let mut out = String::new();
    state.on_list_open(Some(u64::MAX));
    state.on_item_open(&mut out);
    state.on_item_open(&mut out);
    assert_eq!(out, "18446744073709551615. 18446744073709551615. ");
}

#[test]
fn decimal_rendering() {
    assert_eq!(u64_to_dec(0), "0");
    assert_eq!(u64_to_dec(9), "9");
    assert_eq!(u64_to_dec(10), "10");
    assert_eq!(u64_to_dec(12345), "12345");
    assert_eq!(u64_to_dec(u64::MAX), "18446744073709551615");
}
