//! Character widths on screen, as the Unicode width tables give them.

use vstd::prelude::*;

verus! {

/// The width in columns that the Unicode East Asian Width tables give a
/// character from U+00A0 on.
pub uninterp spec fn table_width(c: char) -> usize;

/// The width of `c` in columns: one for printable ASCII, none for control
/// characters, the table's width for everything from U+00A0 on.
pub open spec fn char_columns(c: char) -> Option<nat> {
    if (c as u32) < 0x7F {
        if (c as u32) >= 0x20 {
            Some(1)
        } else {
            None
        }
    } else if (c as u32) >= 0xA0 {
        Some(table_width(c) as nat)
    } else {
        None
    }
}

/// `UnicodeWidthChar::width`: the columns `c` takes, `None` for control
/// characters (below U+0020 and from U+007F to U+009F), one for printable
/// ASCII, and the width tables' value from U+00A0 on.
#[verifier::external_body]
fn unicode_char_width(c: char) -> (res: Option<usize>)
    ensures
        res == (if (c as u32) < 0x20 {
            None
        } else if (c as u32) < 0x7F {
            Some(1usize)
        } else if (c as u32) < 0xA0 {
            None
        } else {
            Some(table_width(c))
        }),
{
    unicode_width::UnicodeWidthChar::width(c)
}

/// How wide a character is drawn.
#[derive(Clone, Copy, PartialEq, Eq, Debug)]
pub enum GlyphWidth {
    /// Not drawn (a control character).
    Zero,
    /// One column.
    Narrow,
    /// More than one column (such as CJK characters).
    Wide,
}

/// How wide `c` is drawn.
pub open spec fn glyph_width_of(c: char) -> GlyphWidth {
    match char_columns(c) {
        Some(w) => if w > 1 {
            GlyphWidth::Wide
        } else {
            GlyphWidth::Narrow
        },
        None => GlyphWidth::Zero,
    }
}

/// How wide `c` is drawn: wide when it takes more than one column, zero
/// when it is a control character, narrow otherwise.
pub fn glyph_width(c: char) -> (res: GlyphWidth)
    ensures
        res == glyph_width_of(c),
{
    let r = unicode_char_width(c);
    proof {
        assert(match r {
            Some(w) => char_columns(c) == Some(w as nat),
            None => char_columns(c) is None,
        });
    }
    match r {
        Some(w) => if w > 1 {
            GlyphWidth::Wide
        } else {
            GlyphWidth::Narrow
        },
        None => GlyphWidth::Zero,
    }
}

} // verus!
