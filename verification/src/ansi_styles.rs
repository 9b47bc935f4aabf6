//! The escape-code table: semantic style names and their ANSI sequences.

use vstd::prelude::*;

verus! {

/// A semantic style name: text attributes and the eight foreground colors.
#[derive(Clone, Copy, PartialEq, Eq, Structural)]
pub enum Style {
    Bold,
    Italic,
    Underline,
    Black,
    Red,
    Green,
    Yellow,
    Blue,
    Magenta,
    Cyan,
    White,
}

/// The escape sequence that clears every active style.
pub open spec fn reset_seq() -> Seq<char> {
    seq!['\x1b', '[', '0', 'm']
}

/// The escape sequence that turns one style on.
pub open spec fn code_seq(s: Style) -> Seq<char> {
    match s {
        Style::Bold => seq!['\x1b', '[', '1', 'm'],
        Style::Italic => seq!['\x1b', '[', '3', 'm'],
        Style::Underline => seq!['\x1b', '[', '4', 'm'],
        Style::Black => seq!['\x1b', '[', '3', '0', 'm'],
        Style::Red => seq!['\x1b', '[', '3', '1', 'm'],
        Style::Green => seq!['\x1b', '[', '3', '2', 'm'],
        Style::Yellow => seq!['\x1b', '[', '3', '3', 'm'],
        Style::Blue => seq!['\x1b', '[', '3', '4', 'm'],
        Style::Magenta => seq!['\x1b', '[', '3', '5', 'm'],
        Style::Cyan => seq!['\x1b', '[', '3', '6', 'm'],
        Style::White => seq!['\x1b', '[', '3', '7', 'm'],
    }
}

/// The reset code as text.
pub fn reset_str() -> (r: &'static str)
    ensures
        r@ == reset_seq(),
{
    proof {
        reveal_strlit("\x1b[0m");
        assert("\x1b[0m"@ =~= reset_seq());
    }
    "\x1b[0m"
}

/// The code that turns `s` on, as text.
pub fn code_str(s: Style) -> (r: &'static str)
    ensures
        r@ == code_seq(s),
{
    match s {
        Style::Bold => {
            proof {
                reveal_strlit("\x1b[1m");
                assert("\x1b[1m"@ =~= code_seq(Style::Bold));
            }
            "\x1b[1m"
        },
        Style::Italic => {
            proof {
                reveal_strlit("\x1b[3m");
                assert("\x1b[3m"@ =~= code_seq(Style::Italic));
            }
            "\x1b[3m"
        },
        Style::Underline => {
            proof {
                reveal_strlit("\x1b[4m");
                assert("\x1b[4m"@ =~= code_seq(Style::Underline));
            }
            "\x1b[4m"
        },
        Style::Black => {
            proof {
                reveal_strlit("\x1b[30m");
                assert("\x1b[30m"@ =~= code_seq(Style::Black));
            }
            "\x1b[30m"
        },
        Style::Red => {
            proof {
                reveal_strlit("\x1b[31m");
                assert("\x1b[31m"@ =~= code_seq(Style::Red));
            }
            "\x1b[31m"
        },
        Style::Green => {
            proof {
                reveal_strlit("\x1b[32m");
                assert("\x1b[32m"@ =~= code_seq(Style::Green));
            }
            "\x1b[32m"
        },
        Style::Yellow => {
            proof {
                reveal_strlit("\x1b[33m");
                assert("\x1b[33m"@ =~= code_seq(Style::Yellow));
            }
            "\x1b[33m"
        },
        Style::Blue => {
            proof {
                reveal_strlit("\x1b[34m");
                assert("\x1b[34m"@ =~= code_seq(Style::Blue));
            }
            "\x1b[34m"
        },
        Style::Magenta => {
            proof {
                reveal_strlit("\x1b[35m");
                assert("\x1b[35m"@ =~= code_seq(Style::Magenta));
            }
            "\x1b[35m"
        },
        Style::Cyan => {
            proof {
                reveal_strlit("\x1b[36m");
                assert("\x1b[36m"@ =~= code_seq(Style::Cyan));
            }
            "\x1b[36m"
        },
        Style::White => {
            proof {
                reveal_strlit("\x1b[37m");
                assert("\x1b[37m"@ =~= code_seq(Style::White));
            }
            "\x1b[37m"
        },
    }
}

} // verus!
