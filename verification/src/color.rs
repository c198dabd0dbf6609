//! Extended colour parameters of SGR (`38`/`48`/`58`).

use vstd::prelude::*;

verus! {

/// One of the sixteen ANSI colours.
#[derive(Debug, Clone, Copy, PartialEq, Eq, Structural)]
pub enum NamedColor {
    Black,
    Red,
    Green,
    Yellow,
    Blue,
    Magenta,
    Cyan,
    White,
    BrightBlack,
    BrightRed,
    BrightGreen,
    BrightYellow,
    BrightBlue,
    BrightMagenta,
    BrightCyan,
    BrightWhite,
}

/// The ANSI colour with number `n` (0 to 7 the normal colours, 8 to 15 their
/// bright forms).
pub open spec fn ansi_color(n: int) -> NamedColor {
    if n == 0 {
        NamedColor::Black
    } else if n == 1 {
        NamedColor::Red
    } else if n == 2 {
        NamedColor::Green
    } else if n == 3 {
        NamedColor::Yellow
    } else if n == 4 {
        NamedColor::Blue
    } else if n == 5 {
        NamedColor::Magenta
    } else if n == 6 {
        NamedColor::Cyan
    } else if n == 7 {
        NamedColor::White
    } else if n == 8 {
        NamedColor::BrightBlack
    } else if n == 9 {
        NamedColor::BrightRed
    } else if n == 10 {
        NamedColor::BrightGreen
    } else if n == 11 {
        NamedColor::BrightYellow
    } else if n == 12 {
        NamedColor::BrightBlue
    } else if n == 13 {
        NamedColor::BrightMagenta
    } else if n == 14 {
        NamedColor::BrightCyan
    } else {
        NamedColor::BrightWhite
    }
}

/// The ANSI colour with number `n`.
pub fn ansi_color_of(n: u8) -> (c: NamedColor)
    requires
        n < 16,
    ensures
        c == ansi_color(n as int),
{
    match n {
        0 => NamedColor::Black,
        1 => NamedColor::Red,
        2 => NamedColor::Green,
        3 => NamedColor::Yellow,
        4 => NamedColor::Blue,
        5 => NamedColor::Magenta,
        6 => NamedColor::Cyan,
        7 => NamedColor::White,
        8 => NamedColor::BrightBlack,
        9 => NamedColor::BrightRed,
        10 => NamedColor::BrightGreen,
        11 => NamedColor::BrightYellow,
        12 => NamedColor::BrightBlue,
        13 => NamedColor::BrightMagenta,
        14 => NamedColor::BrightCyan,
        _ => NamedColor::BrightWhite,
    }
}

/// A colour of a cell or of the pen.
#[derive(Debug, Clone, Copy, PartialEq, Eq, Structural)]
pub enum Color {
    /// The terminal's default colour.
    Default,
    /// One of the sixteen ANSI colours.
    Named(NamedColor),
    /// An entry of the 256-colour palette.
    Indexed(u8),
    /// A direct RGB colour.
    Rgb(u8, u8, u8),
}

/// The first value of group `i` as a colour channel, 0 when there is no
/// such group.
pub open spec fn channel_at(groups: Seq<Seq<u16>>, i: int) -> u8 {
    if 0 <= i < groups.len() {
        groups[i][0] as u8
    } else {
        0
    }
}

/// Value `i` of a group as a colour channel, 0 when the group is shorter.
pub open spec fn sub_channel(g: Seq<u16>, i: int) -> u8 {
    if i < g.len() {
        g[i] as u8
    } else {
        0
    }
}

/// The colour that the parameter groups from `pos` on select, and the
/// position after the groups it reads: `5;N` (or `5:N`) is palette entry
/// `N`, `2;R;G;B` (or `2:R:G:B`) a direct colour (missing channels 0);
/// anything else is the default colour. Values are truncated to a byte.
pub open spec fn extended_color(groups: Seq<Seq<u16>>, pos: int) -> (Color, int) {
    if pos >= groups.len() {
        (Color::Default, pos)
    } else {
        let g = groups[pos];
        if g == seq![5u16] {
            if pos + 1 < groups.len() {
                (
                    if groups[pos + 1].len() == 1 {
                        Color::Indexed(groups[pos + 1][0] as u8)
                    } else {
                        Color::Default
                    },
                    pos + 2,
                )
            } else {
                (Color::Default, pos + 1)
            }
        } else if g == seq![2u16] {
            (
                Color::Rgb(
                    channel_at(groups, pos + 1),
                    channel_at(groups, pos + 2),
                    channel_at(groups, pos + 3),
                ),
                if pos + 4 <= groups.len() {
                    pos + 4
                } else {
                    groups.len() as int
                },
            )
        } else if g.len() >= 2 && g[0] == 2 {
            (Color::Rgb(g[1] as u8, sub_channel(g, 2), sub_channel(g, 3)), pos + 1)
        } else if g.len() >= 2 && g[0] == 5 {
            (Color::Indexed(#[verifier::truncate] (g[1] as u8)), pos + 1)
        } else {
            (Color::Default, pos + 1)
        }
    }
}

/// The first value of group `pos + k` as a colour channel, 0 when there is
/// no such group.
fn channel(groups: &Vec<Vec<u16>>, pos: usize, k: usize) -> (c: u8)
    requires
        forall|j: int| 0 <= j < groups@.len() ==> groups@[j]@.len() >= 1,
        pos < groups@.len(),
    ensures
        c == channel_at(groups@.map_values(|g: Vec<u16>| g@), pos + k),
{
    if groups.len() - pos > k {
        #[verifier::truncate]
        (groups[pos + k][0] as u8)
    } else {
        0
    }
}

/// Parse extended color (38/48/58 ; 5;N or 38/48/58 ; 2;R;G;B) from the
/// parameter groups at `pos` on. Returns the colour and the position after
/// the groups it read.
pub fn parse_extended_color(groups: &Vec<Vec<u16>>, pos: usize) -> (r: (Color, usize))
    requires
        forall|k: int| 0 <= k < groups@.len() ==> groups@[k]@.len() >= 1,
    ensures
        (r.0, r.1 as int) == extended_color(groups@.map_values(|g: Vec<u16>| g@), pos as int),
{
    let ghost gs = groups@.map_values(|g: Vec<u16>| g@);
    let n = groups.len();
    if pos >= n {
        return (Color::Default, pos);
    }
    let g = &groups[pos];
    proof {
        assert(gs[pos as int] == g@);
    }
    if g.len() == 1 && g[0] == 5 {
        proof {
            assert(g@ =~= seq![5u16]);
        }
        if pos + 1 < n {
            let next = &groups[pos + 1];
            proof {
                assert(gs[pos + 1] == next@);
            }
            if next.len() == 1 {
                (Color::Indexed(#[verifier::truncate] (next[0] as u8)), pos + 2)
            } else {
                (Color::Default, pos + 2)
            }
        } else {
            (Color::Default, pos + 1)
        }
    } else if g.len() == 1 && g[0] == 2 {
        proof {
            assert(g@ =~= seq![2u16]);
        }
        let r = channel(groups, pos, 1);
        let gr = channel(groups, pos, 2);
        let b = channel(groups, pos, 3);
        let end = if n - pos >= 4 {
            pos + 4
        } else {
            n
        };
        (Color::Rgb(r, gr, b), end)
    } else {
        if g.len() >= 2 && g[0] == 2 {
            let gr = if g.len() > 2 {
                #[verifier::truncate]
                (g[2] as u8)
            } else {
                0
            };
            let b = if g.len() > 3 {
                #[verifier::truncate]
                (g[3] as u8)
            } else {
                0
            };
            (Color::Rgb(#[verifier::truncate] (g[1] as u8), gr, b), pos + 1)
        } else if g.len() >= 2 && g[0] == 5 {
            (Color::Indexed(#[verifier::truncate] (g[1] as u8)), pos + 1)
        } else {
            (Color::Default, pos + 1)
        }
    }
}

} // verus!
