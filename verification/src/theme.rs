//! The theme's fixed colors and fonts.

use vstd::prelude::*;

use crate::display::{Color, Font, FontM, MAX_GLYPH_WIDTH};

verus! {

pub const FONT_NORMAL_ID: u32 = 1;
pub const FONT_BOLD_ID: u32 = 2;
pub const FONT_MONO_ID: u32 = 3;

pub const NORMAL_GLYPH_WIDTH: i32 = 8;
pub const BOLD_GLYPH_WIDTH: i32 = 9;
pub const MONO_GLYPH_WIDTH: i32 = 8;
pub const LINE_HEIGHT: i32 = 16;

pub open spec fn bg_spec() -> Color {
    Color(0x0000)
}

/// The theme's background color.
pub fn bg() -> (c: Color)
    ensures
        c == bg_spec(),
{
    Color(0x0000)
}

pub open spec fn fg_spec() -> Color {
    Color(0xffff)
}

/// The theme's foreground color.
pub fn fg() -> (c: Color)
    ensures
        c == fg_spec(),
{
    Color(0xffff)
}

pub open spec fn grey_light_spec() -> Color {
    Color(0xc618)
}

/// The theme's muted light-grey color.
pub fn grey_light() -> (c: Color)
    ensures
        c == grey_light_spec(),
{
    Color(0xc618)
}

/// A theme font: every glyph `width` pixels wide, one line height.
pub open spec fn theme_font_spec(id: u32, width: i32) -> FontM {
    FontM {
        id: id as int,
        line_height: LINE_HEIGHT as int,
        widths: Seq::new(256, |_i: int| width as int),
    }
}

fn theme_font(id: u32, width: i32) -> (f: Font)
    requires
        1 <= width <= MAX_GLYPH_WIDTH,
    ensures
        f@ == theme_font_spec(id, width),
        f@.wf(),
{
    let mut widths: Vec<i32> = Vec::new();
    let mut i: usize = 0;
    while i < 256
        invariant
            0 <= i <= 256,
            widths@.len() == i,
            forall|k: int| 0 <= k < i ==> #[trigger] widths@[k] == width,
        decreases 256 - i,
    {
        widths.push(width);
        i = i + 1;
    }
    let f = Font::new(id, LINE_HEIGHT, widths);
    proof {
        assert(f@.widths =~= theme_font_spec(id, width).widths);
    }
    f
}

pub open spec fn font_normal_spec() -> FontM {
    theme_font_spec(FONT_NORMAL_ID, NORMAL_GLYPH_WIDTH)
}

/// The theme's regular text font.
pub fn font_normal() -> (f: Font)
    ensures
        f@ == font_normal_spec(),
        f@.wf(),
{
    theme_font(FONT_NORMAL_ID, NORMAL_GLYPH_WIDTH)
}

pub open spec fn font_bold_spec() -> FontM {
    theme_font_spec(FONT_BOLD_ID, BOLD_GLYPH_WIDTH)
}

/// The theme's bold font.
pub fn font_bold() -> (f: Font)
    ensures
        f@ == font_bold_spec(),
        f@.wf(),
{
    theme_font(FONT_BOLD_ID, BOLD_GLYPH_WIDTH)
}

pub open spec fn font_mono_spec() -> FontM {
    theme_font_spec(FONT_MONO_ID, MONO_GLYPH_WIDTH)
}

/// The theme's monospace font.
pub fn font_mono() -> (f: Font)
    ensures
        f@ == font_mono_spec(),
        f@.wf(),
{
    theme_font(FONT_MONO_ID, MONO_GLYPH_WIDTH)
}

} // verus!
