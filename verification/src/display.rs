//! Display-side values: colors, glyph metrics, and the draw requests a
//! rendering pass produces for a display driver.

use vstd::prelude::*;

use crate::geometry::Point;

verus! {

/// Widest glyph (and tallest line) a well-formed font may declare, in pixels.
pub const MAX_GLYPH_WIDTH: i32 = 1024;

/// Longest byte run a single layout pass accepts. Together with
/// `MAX_GLYPH_WIDTH` this keeps every accumulated pixel width inside `i32`.
pub const MAX_TEXT_LEN: usize = 1_000_000;

/// A 16-bit display color.
#[derive(Clone, Copy, PartialEq, Eq, Structural, Debug)]
pub struct Color(pub u16);

/// Mathematical model of a font: an identifier, a line height, and one
/// advance width per byte value.
pub struct FontM {
    pub id: int,
    pub line_height: int,
    pub widths: Seq<int>,
}

impl FontM {
    pub open spec fn wf(&self) -> bool {
        &&& self.widths.len() == 256
        &&& forall|i: int| 0 <= i < 256 ==> 0 <= #[trigger] self.widths[i] <= MAX_GLYPH_WIDTH as int
        &&& 1 <= self.line_height <= MAX_GLYPH_WIDTH as int
    }
}

/// Pixel width of a byte run under font `f`: the sum of the glyph widths.
pub open spec fn width_of(f: FontM, t: Seq<u8>) -> int
    decreases t.len(),
{
    if t.len() == 0 {
        0
    } else {
        width_of(f, t.drop_last()) + f.widths[t.last() as int]
    }
}

pub proof fn lemma_width_of_bounds(f: FontM, t: Seq<u8>)
    requires
        f.wf(),
    ensures
        0 <= width_of(f, t) <= t.len() * (MAX_GLYPH_WIDTH as int),
    decreases t.len(),
{
    if t.len() > 0 {
        lemma_width_of_bounds(f, t.drop_last());
        assert(t.drop_last().len() * (MAX_GLYPH_WIDTH as int) + MAX_GLYPH_WIDTH as int
            == t.len() * (MAX_GLYPH_WIDTH as int)) by (nonlinear_arith)
            requires t.len() >= 1 && t.drop_last().len() == t.len() - 1;
    }
}

/// Extending a run by one byte adds that byte's glyph width.
pub proof fn lemma_width_of_push(f: FontM, t: Seq<u8>, b: u8)
    ensures
        width_of(f, t.push(b)) == width_of(f, t) + f.widths[b as int],
{
    assert(t.push(b).drop_last() =~= t);
}

/// Glyph metrics for one font: an identifier, the line height, and an
/// advance width for each of the 256 byte values.
pub struct Font {
    pub id: u32,
    pub line_height: i32,
    pub glyph_widths: Vec<i32>,
}

impl View for Font {
    type V = FontM;

    open spec fn view(&self) -> FontM {
        FontM {
            id: self.id as int,
            line_height: self.line_height as int,
            widths: self.glyph_widths@.map(|_i: int, w: i32| w as int),
        }
    }
}

impl Font {
    pub fn new(id: u32, line_height: i32, glyph_widths: Vec<i32>) -> (r: Font)
        requires
            glyph_widths@.len() == 256,
            forall|i: int| 0 <= i < 256 ==> 0 <= #[trigger] glyph_widths@[i] <= MAX_GLYPH_WIDTH,
            1 <= line_height <= MAX_GLYPH_WIDTH,
        ensures
            r == (Font { id, line_height, glyph_widths }),
            r@.wf(),
    {
        Font { id, line_height, glyph_widths }
    }

    /// Advance width of one byte's glyph.
    pub fn byte_width(&self, b: u8) -> (w: i32)
        requires
            self@.wf(),
        ensures
            w as int == self@.widths[b as int],
            0 <= w <= MAX_GLYPH_WIDTH,
    {
        proof {
            assert(self@.widths[b as int] == self.glyph_widths@[b as int] as int);
            assert(0 <= self@.widths[b as int] <= MAX_GLYPH_WIDTH as int);
        }
        self.glyph_widths[b as usize]
    }

    /// Pixel width of a byte run: the sum of its glyph widths.
    pub fn text_width(&self, text: &[u8]) -> (w: i32)
        requires
            self@.wf(),
            text@.len() <= MAX_TEXT_LEN as int,
        ensures
            w as int == width_of(self@, text@),
    {
        let mut w: i32 = 0;
        let mut i: usize = 0;
        while i < text.len()
            invariant
                self@.wf(),
                text@.len() <= MAX_TEXT_LEN as int,
                0 <= i <= text@.len(),
                w as int == width_of(self@, text@.subrange(0, i as int)),
                0 <= w as int <= i * (MAX_GLYPH_WIDTH as int),
            decreases text@.len() - i,
        {
            let cw = self.byte_width(text[i]);
            proof {
                assert(text@.subrange(0, i as int).push(text@[i as int])
                    =~= text@.subrange(0, i + 1 as int));
                lemma_width_of_push(self@, text@.subrange(0, i as int), text@[i as int]);
                assert((i as int) * (MAX_GLYPH_WIDTH as int) + MAX_GLYPH_WIDTH as int
                    == (i + 1 as int) * (MAX_GLYPH_WIDTH as int)) by (nonlinear_arith);
                assert((i + 1 as int) * (MAX_GLYPH_WIDTH as int)
                    <= (MAX_TEXT_LEN as int) * (MAX_GLYPH_WIDTH as int)) by (nonlinear_arith)
                    requires i + 1 as int <= MAX_TEXT_LEN as int;
            }
            w = w + cw;
            i = i + 1;
        }
        proof {
            assert(text@.subrange(0, text@.len() as int) =~= text@);
        }
        w
    }

    /// An equal font: same identifier and the same metrics.
    pub fn working_copy(&self) -> (r: Font)
        ensures
            r@ == self@,
    {
        let mut widths: Vec<i32> = Vec::new();
        let mut i: usize = 0;
        while i < self.glyph_widths.len()
            invariant
                0 <= i <= self.glyph_widths@.len(),
                widths@ =~= self.glyph_widths@.subrange(0, i as int),
            decreases self.glyph_widths@.len() - i,
        {
            widths.push(self.glyph_widths[i]);
            i = i + 1;
        }
        proof {
            assert(widths@ =~= self.glyph_widths@);
        }
        let r = Font { id: self.id, line_height: self.line_height, glyph_widths: widths };
        proof {
            assert(r@.widths =~= self@.widths);
        }
        r
    }
}

/// One glyph-run draw request, as handed to a display driver: a byte run at
/// a pixel position in a font, with foreground and background colors.
pub struct DisplayCommand {
    pub pos: Point,
    pub bytes: Vec<u8>,
    pub font_id: u32,
    pub fg: Color,
    pub bg: Color,
}

/// Mathematical model of one draw request.
pub struct CommandM {
    pub x: int,
    pub y: int,
    pub bytes: Seq<u8>,
    pub font: int,
    pub fg: Color,
    pub bg: Color,
}

impl View for DisplayCommand {
    type V = CommandM;

    open spec fn view(&self) -> CommandM {
        CommandM {
            x: self.pos.x as int,
            y: self.pos.y as int,
            bytes: self.bytes@,
            font: self.font_id as int,
            fg: self.fg,
            bg: self.bg,
        }
    }
}

} // verus!
