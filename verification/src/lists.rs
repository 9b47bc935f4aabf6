//! The list formatter.
//!
//! Nested lists carry one ordinal state per nesting level: `Some(n)` for
//! an ordered list whose next item is numbered `n`, `None` for an
//! unordered one. The states form a stack, pushed when a list opens and
//! popped when it closes, so an outer ordered list resumes its own
//! numbering after a nested list ends. A close with no open list is
//! recovered by doing nothing: the depth is clamped at zero.

use vstd::prelude::*;
use vstd::string::*;

verus! {

/// The decimal digit character for `d`.
pub open spec fn digit_char(d: nat) -> char {
    if d == 0 {
        '0'
    } else if d == 1 {
        '1'
    } else if d == 2 {
        '2'
    } else if d == 3 {
        '3'
    } else if d == 4 {
        '4'
    } else if d == 5 {
        '5'
    } else if d == 6 {
        '6'
    } else if d == 7 {
        '7'
    } else if d == 8 {
        '8'
    } else {
        '9'
    }
}

/// The decimal digits of `n`, most significant first, no leading zeros
/// (a single `'0'` for zero).
pub open spec fn dec_digits(n: nat) -> Seq<char>
    decreases n,
{
    if n < 10 {
        seq![digit_char(n)]
    } else {
        dec_digits(n / 10).push(digit_char(n % 10))
    }
}

/// One indentation unit is four spaces; `units` of them.
pub open spec fn indent_seq(units: nat) -> Seq<char>
    decreases units,
{
    if units == 0 {
        Seq::empty()
    } else {
        indent_seq((units - 1) as nat) + seq![' ', ' ', ' ', ' ']
    }
}

/// Opening a list deepens the nesting by one.
pub open spec fn open_step(d: nat) -> nat {
    d + 1
}

/// Closing a list shallows the nesting by one, clamped at zero: a close
/// with no matching open never drives the depth negative.
pub open spec fn close_step(d: nat) -> nat {
    if d > 0 {
        (d - 1) as nat
    } else {
        0
    }
}

/// A list nesting event.
pub enum ListEvent {
    Open,
    Close,
}

/// The nesting depth after folding `evs` over `open_step`/`close_step`
/// starting from depth `d`.
pub open spec fn depth_after(d: nat, evs: Seq<ListEvent>) -> nat
    decreases evs.len(),
{
    if evs.len() == 0 {
        d
    } else {
        let d1 = match evs[0] {
            ListEvent::Open => open_step(d),
            ListEvent::Close => close_step(d),
        };
        depth_after(d1, evs.skip(1))
    }
}

/// `n` opens followed by `m` closes.
pub open spec fn opens_then_closes(n: nat, m: nat) -> Seq<ListEvent> {
    Seq::new(n + m, |i: int| if i < n { ListEvent::Open } else { ListEvent::Close })
}

proof fn lemma_depth_after_otc(d: nat, n: nat, m: nat)
    requires
        m <= d + n,
    ensures
        depth_after(d, opens_then_closes(n, m)) == d + n - m,
    decreases n + m,
{
    let evs = opens_then_closes(n, m);
    if n > 0 {
        assert(evs[0] == ListEvent::Open);
        assert(evs.skip(1) =~= opens_then_closes((n - 1) as nat, m));
        lemma_depth_after_otc(d + 1, (n - 1) as nat, m);
    } else if m > 0 {
        assert(evs[0] == ListEvent::Close);
        assert(evs.skip(1) =~= opens_then_closes(0, (m - 1) as nat));
        lemma_depth_after_otc((d - 1) as nat, 0, (m - 1) as nat);
    } else {
        assert(evs =~= Seq::<ListEvent>::empty());
    }
}

/// After `n` list opens followed by `m` list closes with `m <= n`, the
/// nesting depth is exactly `n - m`; being a natural number folded over
/// the clamped steps, it is never negative.
pub proof fn lemma_list_nesting_depth(n: nat, m: nat)
    requires
        m <= n,
    ensures
        depth_after(0, opens_then_closes(n, m)) == n - m,
{
    lemma_depth_after_otc(0, n, m);
}

/// How many of the events open a list.
pub open spec fn count_opens(evs: Seq<ListEvent>) -> nat
    decreases evs.len(),
{
    if evs.len() == 0 {
        0
    } else {
        (match evs[0] {
            ListEvent::Open => 1 as nat,
            ListEvent::Close => 0 as nat,
        }) + count_opens(evs.skip(1))
    }
}

/// How many of the events close a list.
pub open spec fn count_closes(evs: Seq<ListEvent>) -> nat
    decreases evs.len(),
{
    if evs.len() == 0 {
        0
    } else {
        (match evs[0] {
            ListEvent::Open => 0 as nat,
            ListEvent::Close => 1 as nat,
        }) + count_closes(evs.skip(1))
    }
}

/// In any order of events in which the closes never outnumber the opens
/// so far, the clamp never fires: the nesting depth is exactly the opens
/// minus the closes, and in particular never negative.
pub proof fn lemma_balanced_nesting_depth(d: nat, evs: Seq<ListEvent>)
    requires
        forall|i: int|
            0 <= i <= evs.len() ==> count_closes(#[trigger] evs.take(i)) <= d + count_opens(
                evs.take(i),
            ),
    ensures
        depth_after(d, evs) == d + count_opens(evs) - count_closes(evs),
    decreases evs.len(),
{
    assert(count_closes(Seq::<ListEvent>::empty()) == 0);
    assert(count_opens(Seq::<ListEvent>::empty()) == 0);
    if evs.len() == 0 {
        assert(evs =~= Seq::<ListEvent>::empty());
    } else {
        let t = evs.skip(1);
        let d1 = match evs[0] {
            ListEvent::Open => open_step(d),
            ListEvent::Close => close_step(d),
        };
        if evs[0] is Close {
            assert(evs.take(1) =~= seq![evs[0]]);
            assert(seq![evs[0]].skip(1) =~= Seq::<ListEvent>::empty());
            assert(count_closes(evs.take(1)) == 1);
            assert(count_opens(evs.take(1)) == 0);
            assert(d >= 1);
        }
        let ghost d2: nat = match evs[0] {
            ListEvent::Open => d + 1,
            ListEvent::Close => (d - 1) as nat,
        };
        assert(d1 == d2);
        assert forall|i: int| 0 <= i <= t.len() implies count_closes(#[trigger] t.take(i)) <= d2
            + count_opens(t.take(i)) by {
            assert(evs.take(i + 1)[0] == evs[0]);
            assert(evs.take(i + 1).skip(1) =~= t.take(i));
            assert(count_closes(evs.take(i + 1)) <= d + count_opens(evs.take(i + 1)));
        }
        lemma_balanced_nesting_depth(d2, t);
    }
}

/// The ordinal saturates rather than wrapping at the largest number.
pub open spec fn next_ordinal(n: u64) -> u64 {
    if n < u64::MAX {
        (n + 1) as u64
    } else {
        n
    }
}

/// The state stack after an item is emitted: the innermost ordered list
/// advances its ordinal; an unordered list, or no open list, is unchanged.
pub open spec fn item_state_spec(s: Seq<Option<u64>>) -> Seq<Option<u64>> {
    if s.len() > 0 {
        match s.last() {
            Some(n) => s.drop_last().push(Some(next_ordinal(n))),
            None => s,
        }
    } else {
        s
    }
}

/// The text an item marker emits: one indentation unit per nesting level
/// above the first, then `"n. "` for an ordered list or `"* "` for an
/// unordered one (also for an item with no open list).
pub open spec fn item_text_spec(s: Seq<Option<u64>>) -> Seq<char> {
    let units: nat = if s.len() > 0 {
        (s.len() - 1) as nat
    } else {
        0
    };
    let marker: Seq<char> = if s.len() > 0 {
        match s.last() {
            Some(n) => dec_digits(n as nat) + seq!['.', ' '],
            None => seq!['*', ' '],
        }
    } else {
        seq!['*', ' ']
    };
    indent_seq(units) + marker
}

/// One decimal digit as text.
fn digit_str(d: u64) -> (r: &'static str)
    requires
        d < 10,
    ensures
        r@ == seq![digit_char(d as nat)],
{
    if d == 0 {
        proof {
            reveal_strlit("0");
            assert("0"@ =~= seq![digit_char(0)]);
        }
        "0"
    } else if d == 1 {
        proof {
            reveal_strlit("1");
            assert("1"@ =~= seq![digit_char(1)]);
        }
        "1"
    } else if d == 2 {
        proof {
            reveal_strlit("2");
            assert("2"@ =~= seq![digit_char(2)]);
        }
        "2"
    } else if d == 3 {
        proof {
            reveal_strlit("3");
            assert("3"@ =~= seq![digit_char(3)]);
        }
        "3"
    } else if d == 4 {
        proof {
            reveal_strlit("4");
            assert("4"@ =~= seq![digit_char(4)]);
        }
        "4"
    } else if d == 5 {
        proof {
            reveal_strlit("5");
            assert("5"@ =~= seq![digit_char(5)]);
        }
        "5"
    } else if d == 6 {
        proof {
            reveal_strlit("6");
            assert("6"@ =~= seq![digit_char(6)]);
        }
        "6"
    } else if d == 7 {
        proof {
            reveal_strlit("7");
            assert("7"@ =~= seq![digit_char(7)]);
        }
        "7"
    } else if d == 8 {
        proof {
            reveal_strlit("8");
            assert("8"@ =~= seq![digit_char(8)]);
        }
        "8"
    } else {
        proof {
            reveal_strlit("9");
            assert("9"@ =~= seq![digit_char(9)]);
        }
        "9"
    }
}

/// The decimal rendering of `n`.
pub fn u64_to_dec(n: u64) -> (s: String)
    ensures
        s@ == dec_digits(n as nat),
    decreases n,
{
    if n < 10 {
        String::from_str(digit_str(n))
    } else {
        let mut s = u64_to_dec(n / 10);
        s.append(digit_str(n % 10));
        proof {
            assert(s@ =~= dec_digits(n as nat));
        }
        s
    }
}

/// The per-level ordinal states of the currently open lists, outermost
/// first: `Some(n)` for an ordered list whose next item is `n`, `None`
/// for an unordered one.
pub struct ListState {
    ordinals: Vec<Option<u64>>,
}

impl View for ListState {
    type V = Seq<Option<u64>>;

    closed spec fn view(&self) -> Seq<Option<u64>> {
        self.ordinals@
    }
}

impl ListState {
    /// The current nesting depth.
    pub open spec fn depth_spec(&self) -> nat {
        self@.len()
    }

    /// A state with no list open.
    pub fn new() -> (s: ListState)
        ensures
            s@ == Seq::<Option<u64>>::empty(),
    {
        ListState { ordinals: Vec::new() }
    }

    /// The current nesting depth.
    pub fn depth(&self) -> (d: usize)
        ensures
            d == self.depth_spec(),
    {
        self.ordinals.len()
    }

    /// Opens a list: deepens the nesting and records `start` as the
    /// ordinal state of the new level (`None` for an unordered list).
    pub fn on_list_open(&mut self, start: Option<u64>)
        ensures
            final(self)@ == old(self)@.push(start),
            final(self).depth_spec() == open_step(old(self).depth_spec()),
    {
        self.ordinals.push(start);
    }

    /// Closes the innermost list and discards its ordinal state. A close
    /// with no open list is a no-op: the depth is clamped at zero.
    pub fn on_list_close(&mut self)
        ensures
            final(self)@ == (if old(self)@.len() > 0 {
                old(self)@.drop_last()
            } else {
                old(self)@
            }),
            final(self).depth_spec() == close_step(old(self).depth_spec()),
    {
        if self.ordinals.len() > 0 {
            self.ordinals.pop();
            proof {
                assert(self.ordinals@ =~= old(self)@.drop_last());
            }
        }
    }

    /// Emits an item marker: `depth - 1` indentation units, then the
    /// innermost level's `"n. "` (advancing that ordinal) or `"* "`.
    pub fn on_item_open(&mut self, out: &mut String)
        ensures
            final(self)@ == item_state_spec(old(self)@),
            final(out)@ == old(out)@ + item_text_spec(old(self)@),
    {
        let ghost orig = self@;
        let ghost base = out@;
        let depth = self.ordinals.len();
        let units = if depth > 0 {
            depth - 1
        } else {
            0
        };
        let mut u: usize = 0;
        while u < units
            invariant
                u <= units,
                out@ == base + indent_seq(u as nat),
            decreases units - u,
        {
            out.append("    ");
            proof {
                reveal_strlit("    ");
                assert(indent_seq((u + 1) as nat) =~= indent_seq(u as nat) + "    "@);
                assert(out@ =~= base + indent_seq((u + 1) as nat));
            }
            u = u + 1;
        }
        if depth > 0 {
            let top = self.ordinals[depth - 1];
            match top {
                Some(n) => {
                    let num = u64_to_dec(n);
                    out.append(num.as_str());
                    out.append(". ");
                    self.ordinals.pop();
                    let next = if n < u64::MAX {
                        n + 1
                    } else {
                        n
                    };
                    self.ordinals.push(Some(next));
                    proof {
                        reveal_strlit(". ");
                        assert(orig.last() == Some(n));
                        assert(self.ordinals@ =~= item_state_spec(orig));
                        assert(out@ =~= base + item_text_spec(orig));
                    }
                },
                None => {
                    out.append("* ");
                    proof {
                        reveal_strlit("* ");
                        assert(orig.last() == None::<u64>);
                        assert(out@ =~= base + item_text_spec(orig));
                    }
                },
            }
        } else {
            out.append("* ");
            proof {
                reveal_strlit("* ");
                assert(out@ =~= base + item_text_spec(orig));
            }
        }
    }
}

} // verus!
