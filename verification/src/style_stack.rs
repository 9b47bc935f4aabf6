//! The style-stack engine.
//!
//! Overlapping inline styles (emphasis inside strong, and deeper nests)
//! are tracked as an ordered stack of active style names. Opening a style
//! pushes it and emits its code at once; closing one removes its most
//! recent occurrence, emits a reset, and then replays the codes of every
//! style still active, so that closing an inner style never visually
//! clears an outer one.

use vstd::prelude::*;
use vstd::string::*;
use crate::ansi_styles::{Style, code_seq, code_str, reset_seq, reset_str};

verus! {

/// What replaying a stack emits: the codes of its styles, oldest first.
pub open spec fn replay_seq(styles: Seq<Style>) -> Seq<char>
    decreases styles.len(),
{
    if styles.len() == 0 {
        Seq::empty()
    } else {
        replay_seq(styles.drop_last()) + code_seq(styles.last())
    }
}

/// The stack after closing `kind`: its most recently opened occurrence is
/// removed; closing a style that is not open leaves the stack as it was.
pub open spec fn close_spec(styles: Seq<Style>, kind: Style) -> Seq<Style>
    decreases styles.len(),
{
    if styles.len() == 0 {
        styles
    } else if styles.last() == kind {
        styles.drop_last()
    } else {
        close_spec(styles.drop_last(), kind).push(styles.last())
    }
}

/// The ordered set of currently open styles, oldest at the bottom.
pub struct StyleStack {
    active: Vec<Style>,
}

impl View for StyleStack {
    type V = Seq<Style>;

    closed spec fn view(&self) -> Seq<Style> {
        self.active@
    }
}

impl StyleStack {
    /// A stack with no style open.
    pub fn new() -> (s: StyleStack)
        ensures
            s@ == Seq::<Style>::empty(),
    {
        StyleStack { active: Vec::new() }
    }

    /// How many styles are open.
    pub fn len(&self) -> (n: usize)
        ensures
            n == self@.len(),
    {
        self.active.len()
    }

    /// Marks `kind` active and emits its code. Append-only and not
    /// idempotent: opening the same style twice emits its code twice.
    pub fn on_style_open(&mut self, kind: Style, out: &mut String)
        ensures
            final(self)@ == old(self)@.push(kind),
            final(out)@ == old(out)@ + code_seq(kind),
    {
        self.active.push(kind);
        out.append(code_str(kind));
    }

    /// Marks `kind` inactive, emits a reset, then replays the codes of
    /// every style still active, oldest first. Closing a style that was
    /// never opened changes no state but still emits the reset and replay.
    pub fn on_style_close(&mut self, kind: Style, out: &mut String)
        ensures
            final(self)@ == close_spec(old(self)@, kind),
            final(out)@ == old(out)@ + reset_seq() + replay_seq(close_spec(old(self)@, kind)),
    {
        let ghost orig = self.active@;
        let mut i: usize = self.active.len();
        let mut found = false;
        while i > 0 && !found
            invariant
                self.active@ == orig,
                i <= orig.len(),
                found ==> (i < orig.len() && orig[i as int] == kind && (forall|j: int|
                    i < j < orig.len() ==> orig[j] != kind)),
                !found ==> (forall|j: int| i <= j < orig.len() ==> orig[j] != kind),
            decreases i + (if found { 0int } else { 1int }),
        {
            i = i - 1;
            if self.active[i] == kind {
                found = true;
            }
        }
        if found {
            self.active.remove(i);
            proof {
                lemma_close_removes_last(orig, kind, i as int);
            }
        } else {
            proof {
                lemma_close_absent(orig, kind);
            }
        }
        out.append(reset_str());
        let ghost base = out@;
        let mut j: usize = 0;
        while j < self.active.len()
            invariant
                self.active@ == close_spec(orig, kind),
                out@ == base + replay_seq(self.active@.take(j as int)),
                j <= self.active.len(),
            decreases self.active.len() - j,
        {
            let k = self.active[j];
            out.append(code_str(k));
            proof {
                assert(self.active@.take(j + 1).drop_last() =~= self.active@.take(j as int));
                assert(self.active@.take(j + 1).last() == k);
            }
            j = j + 1;
        }
        proof {
            assert(self.active@.take(self.active@.len() as int) =~= self.active@);
        }
    }
}

/// Closing removes exactly the most recent occurrence: if `idx` is the
/// last position holding `kind`, the closed stack is the stack with that
/// position removed.
proof fn lemma_close_removes_last(styles: Seq<Style>, kind: Style, idx: int)
    requires
        0 <= idx < styles.len(),
        styles[idx] == kind,
        forall|j: int| idx < j < styles.len() ==> styles[j] != kind,
    ensures
        close_spec(styles, kind) == styles.remove(idx),
    decreases styles.len(),
{
    if idx == styles.len() - 1 {
        assert(styles.last() == kind);
        assert(styles.drop_last() =~= styles.remove(idx));
    } else {
        assert(styles.last() != kind);
        let head = styles.drop_last();
        assert(head[idx] == kind);
        lemma_close_removes_last(head, kind, idx);
        assert(close_spec(styles, kind) == head.remove(idx).push(styles.last()));
        assert(head.remove(idx).push(styles.last()) =~= styles.remove(idx));
    }
}

/// Closing a style that is not on the stack leaves the stack unchanged.
proof fn lemma_close_absent(styles: Seq<Style>, kind: Style)
    requires
        forall|j: int| 0 <= j < styles.len() ==> styles[j] != kind,
    ensures
        close_spec(styles, kind) == styles,
    decreases styles.len(),
{
    if styles.len() > 0 {
        lemma_close_absent(styles.drop_last(), kind);
        assert(styles.drop_last().push(styles.last()) =~= styles);
    }
}

/// Opening a style and closing the same style straight after restores the
/// stack exactly; from an empty stack the two calls emit the style's code
/// followed by the bare reset: one balanced open/reset pair.
pub proof fn lemma_open_close_balanced(styles: Seq<Style>, kind: Style)
    ensures
        close_spec(styles.push(kind), kind) == styles,
        styles.len() == 0 ==> code_seq(kind) + (reset_seq() + replay_seq(
            close_spec(styles.push(kind), kind),
        )) == code_seq(kind) + reset_seq(),
{
    assert(styles.push(kind).last() == kind);
    assert(styles.push(kind).drop_last() =~= styles);
    if styles.len() == 0 {
        assert(replay_seq(styles) =~= Seq::<char>::empty());
        assert(reset_seq() + Seq::<char>::empty() =~= reset_seq());
    }
}

/// Closing the inner of two nested styles restores the outer one: the
/// stack falls back to the outer style, and the replay emitted with the
/// reset ends with the outer style's code, so the outer style stays
/// visually active.
pub proof fn lemma_close_inner_restores_outer(styles: Seq<Style>, outer: Style, inner: Style)
    ensures
        close_spec(styles.push(outer).push(inner), inner) == styles.push(outer),
        replay_seq(styles.push(outer)) == replay_seq(styles) + code_seq(outer),
{
    assert(styles.push(outer).push(inner).last() == inner);
    assert(styles.push(outer).push(inner).drop_last() =~= styles.push(outer));
    assert(styles.push(outer).drop_last() =~= styles);
    assert(styles.push(outer).last() == outer);
}

} // verus!
