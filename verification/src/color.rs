//! Console colouring: wraps a string in an ANSI escape pair that sets the
//! foreground colour and resets all formatting at the end.

use vstd::prelude::*;

verus! {

/// The six supported foreground colours, in the order of their ANSI codes.
pub enum Color {
    Red,
    Green,
    Yellow,
    Blue,
    Purple,
    Cyan,
}

/// The escape sequence that sets the foreground colour for `c`.
pub open spec fn color_prefix(c: Color) -> Seq<char> {
    match c {
        Color::Red => seq!['\x1b', '[', '3', '1', 'm'],
        Color::Green => seq!['\x1b', '[', '3', '2', 'm'],
        Color::Yellow => seq!['\x1b', '[', '3', '3', 'm'],
        Color::Blue => seq!['\x1b', '[', '3', '4', 'm'],
        Color::Purple => seq!['\x1b', '[', '3', '5', 'm'],
        Color::Cyan => seq!['\x1b', '[', '3', '6', 'm'],
    }
}

/// The escape sequence that cancels all colours and formatting.
pub open spec fn color_suffix() -> Seq<char> {
    seq!['\x1b', '[', '0', 'm']
}

/// `s` wrapped in the escape pair for colour `c`.
pub open spec fn colored(c: Color, s: Seq<char>) -> Seq<char> {
    color_prefix(c) + s + color_suffix()
}

impl Color {
    /// Wraps `string` in the escape pair for this colour: the result is the
    /// colour-setting prefix, then `string` unchanged, then the reset suffix.
    pub fn color(&self, string: &str) -> (r: String)
        ensures
            r@ == color_prefix(*self) + string@ + color_suffix(),
    {
        let mut out: String = match self {
            Color::Red => {
                proof {
                    reveal_strlit("\x1b[31m");
                }
                String::from_str("\x1b[31m")
            },
            Color::Green => {
                proof {
                    reveal_strlit("\x1b[32m");
                }
                String::from_str("\x1b[32m")
            },
            Color::Yellow => {
                proof {
                    reveal_strlit("\x1b[33m");
                }
                String::from_str("\x1b[33m")
            },
            Color::Blue => {
                proof {
                    reveal_strlit("\x1b[34m");
                }
                String::from_str("\x1b[34m")
            },
            Color::Purple => {
                proof {
                    reveal_strlit("\x1b[35m");
                }
                String::from_str("\x1b[35m")
            },
            Color::Cyan => {
                proof {
                    reveal_strlit("\x1b[36m");
                }
                String::from_str("\x1b[36m")
            },
        };
        proof {
            reveal_strlit("\x1b[0m");
        }
        out.append(string);
        out.append("\x1b[0m");
        proof {
            assert(out@ =~= color_prefix(*self) + string@ + color_suffix());
        }
        out
    }
}

} // verus!
