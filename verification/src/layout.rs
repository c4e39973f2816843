//! The layout engine: the per-run and per-stream layout passes, the sink
//! visitors that receive their events, and the laws the passes obey.

use vstd::prelude::*;

use crate::display::{Color, DisplayCommand, Font, FontM, MAX_GLYPH_WIDTH, MAX_TEXT_LEN};
use crate::geometry::{Point, Rect, MAX_COORD};
use crate::op::{ops_view, Op, OpM};
use crate::span::{fit_spec, lemma_fit_spec_facts, LineBreaking, Span};
use crate::token::{
    lemma_next_token_facts, lemma_tokens_from_count, tokens_from, Token, TokenM, Tokenizer,
};
use vstd::string::StringSliceAdditionalSpecFns;

verus! {

/// Longest byte run a single resolved argument value or literal may
/// contribute to one pass.
pub const MAX_ARG_LEN: usize = 1000;

/// Longest format string one pass accepts, in bytes.
pub const MAX_FORMAT_LEN: usize = 1000;

/// Strategy for reaching the bottom edge of the bounds with content left.
#[derive(Clone, Copy, PartialEq, Eq, Structural, Debug)]
pub enum PageBreaking {
    /// Stop after hitting the bottom-right edge of the bounds.
    Cut,
    /// Before stopping at the bottom-right edge, insert an ellipsis to
    /// signify more content is available, but only if no hyphen has just
    /// been inserted.
    CutAndInsertEllipsis,
}

/// Mathematical model of the layout configuration.
pub struct LayoutM {
    pub bounds: Rect,
    pub background_color: Color,
    pub text_color: Color,
    pub text_font: FontM,
    pub line_breaking: LineBreaking,
    pub hyphen_font: FontM,
    pub hyphen_color: Color,
    pub page_breaking: PageBreaking,
    pub ellipsis_font: FontM,
    pub ellipsis_color: Color,
}

impl LayoutM {
    pub open spec fn wf(&self) -> bool {
        &&& self.bounds.wf()
        &&& self.text_font.wf()
        &&& self.hyphen_font.wf()
        &&& self.ellipsis_font.wf()
    }
}

/// Visual instructions for laying out a formatted block of text.
pub struct TextLayout {
    /// Bounding box restricting the layout dimensions.
    pub bounds: Rect,
    /// Background color.
    pub background_color: Color,
    /// Text color. Can be overridden by `Op::Color`.
    pub text_color: Color,
    /// Text font. Can be overridden by `Op::Font`.
    pub text_font: Font,
    /// Which line-breaking strategy to use.
    pub line_breaking: LineBreaking,
    /// Font used for drawing the word-breaking hyphen.
    pub hyphen_font: Font,
    /// Foreground color used for drawing the hyphen.
    pub hyphen_color: Color,
    /// What to do at the end of the page.
    pub page_breaking: PageBreaking,
    /// Font used for drawing the ellipsis.
    pub ellipsis_font: Font,
    /// Foreground color used for drawing the ellipsis.
    pub ellipsis_color: Color,
}

impl View for TextLayout {
    type V = LayoutM;

    open spec fn view(&self) -> LayoutM {
        LayoutM {
            bounds: self.bounds,
            background_color: self.background_color,
            text_color: self.text_color,
            text_font: self.text_font@,
            line_breaking: self.line_breaking,
            hyphen_font: self.hyphen_font@,
            hyphen_color: self.hyphen_color,
            page_breaking: self.page_breaking,
            ellipsis_font: self.ellipsis_font@,
            ellipsis_color: self.ellipsis_color,
        }
    }
}

/// The terminal result of a layout pass.
#[derive(Clone, Copy, PartialEq, Eq, Structural, Debug)]
pub enum LayoutFit {
    /// Everything fit within the bounds; all bytes were processed.
    Fitting { processed_chars: usize },
    /// The bounds ran out with content left; `processed_chars` bytes were
    /// consumed before that.
    OutOfBounds { processed_chars: usize },
}

/// One layout event, as seen by a sink: a text run at a cursor position in
/// the current style, a hyphen or an ellipsis glyph, a line break, or the
/// out-of-bounds signal.
pub enum Ev {
    Text { x: int, y: int, bytes: Seq<u8>, font: int, fg: Color, bg: Color },
    Hyphen { x: int, y: int, font: int, fg: Color, bg: Color },
    Ellipsis { x: int, y: int, font: int, fg: Color, bg: Color },
    LineBreak { x: int, y: int },
    OutOfBounds,
}

pub open spec fn text_event(lay: LayoutM, cx: int, cy: int, bytes: Seq<u8>) -> Ev {
    Ev::Text {
        x: cx,
        y: cy,
        bytes,
        font: lay.text_font.id,
        fg: lay.text_color,
        bg: lay.background_color,
    }
}

pub open spec fn hyphen_event(lay: LayoutM, cx: int, cy: int) -> Ev {
    Ev::Hyphen {
        x: cx,
        y: cy,
        font: lay.hyphen_font.id,
        fg: lay.hyphen_color,
        bg: lay.background_color,
    }
}

pub open spec fn ellipsis_event(lay: LayoutM, cx: int, cy: int) -> Ev {
    Ev::Ellipsis {
        x: cx,
        y: cy,
        font: lay.ellipsis_font.id,
        fg: lay.ellipsis_color,
        bg: lay.background_color,
    }
}

/// Visitor for text segment operations. Every layout pass reports each event
/// to its sink exactly once, in order; a sink's `events` view records them.
pub trait LayoutSink: Sized {
    /// The events this sink has received so far.
    spec fn events(&self) -> Seq<Ev>;

    /// The sink's internal consistency; layout passes preserve it.
    spec fn inv(&self) -> bool;

    fn text(&mut self, cursor: Point, layout: &TextLayout, text: &[u8])
        requires
            old(self).inv(),
        ensures
            final(self).inv(),
            final(self).events() == old(self).events().push(
                text_event(layout@, cursor.x as int, cursor.y as int, text@)),
    ;

    fn hyphen(&mut self, cursor: Point, layout: &TextLayout)
        requires
            old(self).inv(),
        ensures
            final(self).inv(),
            final(self).events() == old(self).events().push(
                hyphen_event(layout@, cursor.x as int, cursor.y as int)),
    ;

    fn ellipsis(&mut self, cursor: Point, layout: &TextLayout)
        requires
            old(self).inv(),
        ensures
            final(self).inv(),
            final(self).events() == old(self).events().push(
                ellipsis_event(layout@, cursor.x as int, cursor.y as int)),
    ;

    fn line_break(&mut self, cursor: Point)
        requires
            old(self).inv(),
        ensures
            final(self).inv(),
            final(self).events() == old(self).events().push(
                (Ev::LineBreak { x: cursor.x as int, y: cursor.y as int })),
    ;

    fn out_of_bounds(&mut self)
        requires
            old(self).inv(),
        ensures
            final(self).inv(),
            final(self).events() == old(self).events().push(Ev::OutOfBounds),
    ;
}

/// Outcome of laying out one byte run: whether the bounds ran out, how many
/// bytes were consumed, the final cursor, and the events reported.
pub struct LayoutRun {
    pub oob: bool,
    pub processed: int,
    pub cx: int,
    pub cy: int,
    pub events: Seq<Ev>,
}

/// One pass of the layout loop over `text` with the cursor at `(cx, cy)`:
/// fit a span against the remaining horizontal budget, report it, advance,
/// and on a line break either wrap or, when the vertical room is exhausted,
/// finish out of bounds (with an ellipsis first, under the
/// cut-and-insert-ellipsis policy, when text remains and no hyphen was just
/// reported).
pub open spec fn layout_text_rec(lay: LayoutM, text: Seq<u8>, cx: int, cy: int) -> LayoutRun
    decreases
        text.len(),
        (if cy <= lay.bounds.y1 {
            lay.bounds.y1 - cy + 1
        } else {
            0
        }),
{
    if text.len() == 0 {
        LayoutRun { oob: false, processed: 0, cx, cy, events: Seq::empty() }
    } else {
        let span = fit_spec(
            text,
            lay.bounds.x1 - cx,
            lay.text_font,
            lay.hyphen_font,
            lay.line_breaking,
        );
        let slen = if 0 <= span.length <= text.len() {
            span.length
        } else {
            0
        };
        let consumed0 = if span.skip >= 0 {
            slen + span.skip
        } else {
            slen
        };
        let consumed = if consumed0 <= text.len() {
            consumed0
        } else {
            text.len() as int
        };
        let ev0 = text_event(lay, cx, cy, text.subrange(0, slen));
        let cx2 = cx + span.adv_x;
        let rest = text.skip(consumed);
        if span.adv_y <= 0 {
            if consumed < 1 {
                // A zero-progress span without a line break cannot happen
                // under a well-formed layout (a font's line height is at
                // least one); stop rather than loop.
                LayoutRun { oob: false, processed: 0, cx: cx2, cy, events: seq![ev0] }
            } else {
                let r = layout_text_rec(lay, rest, cx2, cy);
                LayoutRun {
                    oob: r.oob,
                    processed: consumed + r.processed,
                    cx: r.cx,
                    cy: r.cy,
                    events: seq![ev0] + r.events,
                }
            }
        } else {
            let hyph = if span.hyphen {
                seq![hyphen_event(lay, cx2, cy)]
            } else {
                Seq::<Ev>::empty()
            };
            if cy + span.adv_y > lay.bounds.y1 {
                let ell = if rest.len() > 0 && lay.page_breaking is CutAndInsertEllipsis
                    && !span.hyphen {
                    seq![ellipsis_event(lay, cx2, cy)]
                } else {
                    Seq::<Ev>::empty()
                };
                LayoutRun {
                    oob: true,
                    processed: consumed,
                    cx: cx2,
                    cy,
                    events: seq![ev0] + hyph + ell + seq![Ev::OutOfBounds],
                }
            } else {
                let cx3 = lay.bounds.x0 as int;
                let cy3 = cy + span.adv_y;
                let lb = seq![(Ev::LineBreak { x: cx3, y: cy3 })];
                if consumed >= 1 {
                    let r = layout_text_rec(lay, rest, cx3, cy3);
                    LayoutRun {
                        oob: r.oob,
                        processed: consumed + r.processed,
                        cx: r.cx,
                        cy: r.cy,
                        events: seq![ev0] + hyph + lb + r.events,
                    }
                } else {
                    let r = layout_text_rec(lay, text, cx3, cy3);
                    LayoutRun {
                        oob: r.oob,
                        processed: r.processed,
                        cx: r.cx,
                        cy: r.cy,
                        events: seq![ev0] + hyph + lb + r.events,
                    }
                }
            }
        }
    }
}


/// A font directive carries a well-formed font; other directives are fine.
pub open spec fn op_font_ok(op: OpM) -> bool {
    match op {
        OpM::Font(f) => f.wf(),
        _ => true,
    }
}

/// Every font a directive stream switches to is well formed.
pub open spec fn ops_wf(ops: Seq<OpM>) -> bool {
    forall|k: int| 0 <= k < ops.len() ==> op_font_ok(#[trigger] ops[k])
}

/// Total byte length of the text content of a directive stream.
pub open spec fn ops_total_text(ops: Seq<OpM>) -> int
    decreases ops.len(),
{
    if ops.len() == 0 {
        0
    } else {
        (match ops[0] {
            OpM::Text(t) => t.len() as int,
            _ => 0,
        }) + ops_total_text(ops.skip(1))
    }
}

pub proof fn lemma_ops_total_text_nonneg(ops: Seq<OpM>)
    ensures
        0 <= ops_total_text(ops),
    decreases ops.len(),
{
    if ops.len() > 0 {
        lemma_ops_total_text_nonneg(ops.skip(1));
    }
}

/// Outcome of laying out a whole directive stream.
pub struct StreamRun {
    pub oob: bool,
    pub processed: int,
    pub cx: int,
    pub cy: int,
    pub events: Seq<Ev>,
}

/// One pass over a directive stream: color and font directives restyle the
/// local working copy of the layout, text directives are laid out in turn,
/// and the first out-of-bounds text aborts the stream with the cumulative
/// processed count.
pub open spec fn stream_rec(lay: LayoutM, ops: Seq<OpM>, cx: int, cy: int) -> StreamRun
    decreases ops.len(),
{
    if ops.len() == 0 {
        StreamRun { oob: false, processed: 0, cx, cy, events: Seq::empty() }
    } else {
        match ops[0] {
            OpM::Color(c) => stream_rec(
                LayoutM { text_color: c, ..lay },
                ops.skip(1),
                cx,
                cy,
            ),
            OpM::Font(f) => stream_rec(LayoutM { text_font: f, ..lay }, ops.skip(1), cx, cy),
            OpM::Text(t) => {
                let m = layout_text_rec(lay, t, cx, cy);
                if m.oob {
                    StreamRun {
                        oob: true,
                        processed: m.processed,
                        cx: m.cx,
                        cy: m.cy,
                        events: m.events,
                    }
                } else {
                    let r = stream_rec(lay, ops.skip(1), m.cx, m.cy);
                    StreamRun {
                        oob: r.oob,
                        processed: m.processed + r.processed,
                        cx: r.cx,
                        cy: r.cy,
                        events: m.events + r.events,
                    }
                }
            },
        }
    }
}

/// What `layout_text_rec` guarantees: the processed count stays within the
/// text (and covers all of it when everything fit), and the cursor stays
/// within the budgeted region.
pub proof fn lemma_layout_text_rec_facts(lay: LayoutM, text: Seq<u8>, cx: int, cy: int)
    requires
        lay.wf(),
        lay.bounds.x0 <= cx,
        0 <= cy,
    ensures
        ({
            let r = layout_text_rec(lay, text, cx, cy);
            &&& 0 <= r.processed <= text.len()
            &&& (!r.oob ==> r.processed == text.len())
            &&& lay.bounds.x0 <= r.cx <= cx + text.len() * (MAX_GLYPH_WIDTH as int)
            &&& cy <= r.cy
            &&& r.cy <= (if cy <= lay.bounds.y1 {
                lay.bounds.y1 as int
            } else {
                cy
            })
        }),
    decreases
        text.len(),
        (if cy <= lay.bounds.y1 {
            lay.bounds.y1 - cy + 1
        } else {
            0
        }),
{
    if text.len() > 0 {
        let span = fit_spec(
            text,
            lay.bounds.x1 - cx,
            lay.text_font,
            lay.hyphen_font,
            lay.line_breaking,
        );
        lemma_fit_spec_facts(text, lay.bounds.x1 - cx, lay.text_font, lay.hyphen_font,
            lay.line_breaking);
        let consumed = span.length + span.skip;
        let rest = text.skip(consumed);
        assert(consumed * (MAX_GLYPH_WIDTH as int) + rest.len() * (MAX_GLYPH_WIDTH as int)
            == text.len() * (MAX_GLYPH_WIDTH as int)) by (nonlinear_arith)
            requires consumed + rest.len() == text.len();
        if span.adv_y <= 0 {
            if consumed >= 1 {
                lemma_layout_text_rec_facts(lay, rest, cx + span.adv_x, cy);
            }
        } else {
            if cy + span.adv_y > lay.bounds.y1 {
            } else {
                if consumed >= 1 {
                    lemma_layout_text_rec_facts(lay, rest, lay.bounds.x0 as int, cy + span.adv_y);
                } else {
                    lemma_layout_text_rec_facts(lay, text, lay.bounds.x0 as int, cy + span.adv_y);
                }
            }
        }
    }
}

/// What `stream_rec` guarantees: the cumulative processed count stays within
/// the stream's total text (and covers all of it when everything fit), and
/// the cursor stays within the budgeted region.
pub proof fn lemma_stream_rec_facts(lay: LayoutM, ops: Seq<OpM>, cx: int, cy: int)
    requires
        lay.wf(),
        ops_wf(ops),
        lay.bounds.x0 <= cx,
        0 <= cy,
    ensures
        ({
            let r = stream_rec(lay, ops, cx, cy);
            &&& 0 <= r.processed <= ops_total_text(ops)
            &&& (!r.oob ==> r.processed == ops_total_text(ops))
            &&& lay.bounds.x0 <= r.cx <= cx + ops_total_text(ops) * (MAX_GLYPH_WIDTH as int)
            &&& cy <= r.cy
            &&& r.cy <= (if cy <= lay.bounds.y1 {
                lay.bounds.y1 as int
            } else {
                cy
            })
        }),
    decreases ops.len(),
{
    lemma_ops_total_text_nonneg(ops);
    if ops.len() > 0 {
        lemma_ops_total_text_nonneg(ops.skip(1));
        assert(forall|k: int| 0 <= k < ops.skip(1).len()
            ==> #[trigger] ops.skip(1)[k] == ops[k + 1]);
        match ops[0] {
            OpM::Color(c) => {
                lemma_stream_rec_facts(LayoutM { text_color: c, ..lay }, ops.skip(1), cx, cy);
            },
            OpM::Font(f) => {
                lemma_stream_rec_facts(LayoutM { text_font: f, ..lay }, ops.skip(1), cx, cy);
            },
            OpM::Text(t) => {
                let m = layout_text_rec(lay, t, cx, cy);
                lemma_layout_text_rec_facts(lay, t, cx, cy);
                if !m.oob {
                    lemma_stream_rec_facts(lay, ops.skip(1), m.cx, m.cy);
                    let r = stream_rec(lay, ops.skip(1), m.cx, m.cy);
                    assert(r.cx <= m.cx + ops_total_text(ops.skip(1)) * (MAX_GLYPH_WIDTH as int));
                    assert(t.len() * (MAX_GLYPH_WIDTH as int) + ops_total_text(ops.skip(1))
                        * (MAX_GLYPH_WIDTH as int)
                        == ops_total_text(ops) * (MAX_GLYPH_WIDTH as int)) by (nonlinear_arith)
                        requires t.len() + ops_total_text(ops.skip(1)) == ops_total_text(ops);
                }
            },
        }
    }
}


/// Maps each token of a format string to at most one drawing directive:
/// the argument-resolution capability a caller supplies to a layout pass.
pub trait OpResolver: Sized {
    /// What this resolver turns a token into.
    spec fn resolve_spec(&self, t: TokenM) -> Option<OpM>;

    fn resolve<'a>(&'a self, token: Token<'a>) -> (r: Option<Op<'a>>)
        ensures
            match r {
                Some(op) => self.resolve_spec(token@) == Some(op@),
                None => self.resolve_spec(token@) is None,
            },
    ;
}

/// The directive stream a resolver yields for a token stream, dropping
/// tokens that resolve to nothing.
pub open spec fn resolve_ops_spec<R: OpResolver>(r: &R, toks: Seq<TokenM>) -> Seq<OpM>
    decreases toks.len(),
{
    if toks.len() == 0 {
        Seq::empty()
    } else {
        (match r.resolve_spec(toks[0]) {
            Some(op) => seq![op],
            None => Seq::<OpM>::empty(),
        }) + resolve_ops_spec(r, toks.skip(1))
    }
}

/// What a layout pass asks of a resolver, over the tokens it will see: a
/// font directive carries a well-formed font, and a text directive stays
/// within the per-directive length limit.
pub open spec fn resolver_ok<R: OpResolver>(r: &R, toks: Seq<TokenM>) -> bool {
    forall|k: int|
        0 <= k < toks.len() ==> (match r.resolve_spec(#[trigger] toks[k]) {
            Some(OpM::Font(f)) => f.wf(),
            Some(OpM::Text(t)) => t.len() <= MAX_ARG_LEN as int,
            _ => true,
        })
}

pub proof fn lemma_resolve_ops_props<R: OpResolver>(r: &R, toks: Seq<TokenM>)
    requires
        resolver_ok(r, toks),
    ensures
        ops_wf(resolve_ops_spec(r, toks)),
        0 <= ops_total_text(resolve_ops_spec(r, toks)) <= toks.len() * (MAX_ARG_LEN as int),
    decreases toks.len(),
{
    let ops = resolve_ops_spec(r, toks);
    lemma_ops_total_text_nonneg(ops);
    if toks.len() > 0 {
        assert(forall|j: int| 0 <= j < toks.skip(1).len()
            ==> #[trigger] toks.skip(1)[j] == toks[j + 1]);
        lemma_resolve_ops_props(r, toks.skip(1));
        let rest = resolve_ops_spec(r, toks.skip(1));
        match r.resolve_spec(toks[0]) {
            Some(op) => {
                assert(ops == seq![op] + rest);
                assert(ops.skip(1) =~= rest);
                assert(forall|j: int| 0 <= j < ops.len() ==> #[trigger] ops[j] == (
                    if j == 0 {
                        op
                    } else {
                        rest[j - 1]
                    }));
            },
            None => {
                assert(ops =~= rest);
            },
        }
        assert((toks.len() - 1) * (MAX_ARG_LEN as int) + MAX_ARG_LEN as int
            == toks.len() * (MAX_ARG_LEN as int)) by (nonlinear_arith);
    }
}

/// The theme's default layout over `bounds`: whitespace line breaking and
/// cut-with-ellipsis page breaking.
pub open spec fn default_layout_spec(bounds: Rect) -> LayoutM {
    LayoutM {
        bounds,
        background_color: crate::theme::bg_spec(),
        text_color: crate::theme::fg_spec(),
        text_font: crate::theme::font_normal_spec(),
        line_breaking: LineBreaking::BreakAtWhitespace,
        hyphen_font: crate::theme::font_bold_spec(),
        hyphen_color: crate::theme::grey_light_spec(),
        page_breaking: PageBreaking::CutAndInsertEllipsis,
        ellipsis_font: crate::theme::font_bold_spec(),
        ellipsis_color: crate::theme::grey_light_spec(),
    }
}

impl TextLayout {
    /// A fresh layout over `bounds` in the theme's default style:
    /// whitespace line breaking and cut-with-ellipsis page breaking.
    pub fn new(bounds: Rect) -> (r: TextLayout)
        ensures
            r@ == default_layout_spec(bounds),
            bounds.wf() ==> r@.wf(),
    {
        TextLayout {
            bounds,
            background_color: crate::theme::bg(),
            text_color: crate::theme::fg(),
            text_font: crate::theme::font_normal(),
            line_breaking: LineBreaking::BreakAtWhitespace,
            hyphen_font: crate::theme::font_bold(),
            hyphen_color: crate::theme::grey_light(),
            page_breaking: PageBreaking::CutAndInsertEllipsis,
            ellipsis_font: crate::theme::font_bold(),
            ellipsis_color: crate::theme::grey_light(),
        }
    }

    /// An equal layout to mutate as one pass's local working copy, leaving
    /// the stored configuration untouched.
    pub fn working_copy(&self) -> (r: TextLayout)
        ensures
            r@ == self@,
    {
        TextLayout {
            bounds: self.bounds,
            background_color: self.background_color,
            text_color: self.text_color,
            text_font: self.text_font.working_copy(),
            line_breaking: self.line_breaking,
            hyphen_font: self.hyphen_font.working_copy(),
            hyphen_color: self.hyphen_color,
            page_breaking: self.page_breaking,
            ellipsis_font: self.ellipsis_font.working_copy(),
            ellipsis_color: self.ellipsis_color,
        }
    }

    /// Where a pass starts: the left bound, one line height below the top.
    pub fn initial_cursor(&self) -> (r: Point)
        requires
            self@.wf(),
        ensures
            r.x as int == self@.bounds.x0,
            r.y as int == self@.bounds.y0 + self@.text_font.line_height,
    {
        Point::new(
            self.bounds.top_left().x,
            self.bounds.top_left().y + self.text_font.line_height,
        )
    }

    /// Lay out one byte run from the cursor on, reporting every event to
    /// `sink`, and return whether it all fit; the cursor is left where the
    /// run ended.
    #[verifier::rlimit(100)]
    #[verifier::loop_isolation(false)]
    pub fn layout_text<S: LayoutSink>(
        &self,
        text: &[u8],
        cursor: &mut Point,
        sink: &mut S,
    ) -> (r: LayoutFit)
        requires
            self@.wf(),
            text@.len() <= MAX_TEXT_LEN as int,
            0 <= old(cursor).x,
            old(cursor).x + (text@.len() as int) * (MAX_GLYPH_WIDTH as int) <= i32::MAX as int,
            0 <= old(cursor).y <= 2 * (MAX_COORD as int),
            old(sink).inv(),
        ensures
            final(sink).inv(),
            ({
                let m = layout_text_rec(self@, text@, old(cursor).x as int, old(cursor).y as int);
                &&& final(cursor).x as int == m.cx
                &&& final(cursor).y as int == m.cy
                &&& final(sink).events() == old(sink).events() + m.events
                &&& match r {
                    LayoutFit::Fitting { processed_chars } => !m.oob && processed_chars as int
                        == m.processed && processed_chars == text@.len(),
                    LayoutFit::OutOfBounds { processed_chars } => m.oob && processed_chars as int
                        == m.processed,
                }
            }),
    {
        let ghost m_full = layout_text_rec(self@, text@, old(cursor).x as int, old(cursor).y as int);
        let ghost sink0 = old(sink).events();
        let ghost mut emitted: Seq<Ev> = Seq::empty();

        let mut remaining_text: &[u8] = text;

        while remaining_text.len() > 0
            invariant
                self@.wf(),
                text@.len() <= MAX_TEXT_LEN as int,
                remaining_text@.len() <= text@.len(),
                0 <= cursor.x,
                self@.bounds.x1 <= MAX_COORD,
                cursor.x as int + (remaining_text@.len() as int) * (MAX_GLYPH_WIDTH as int)
                    <= i32::MAX as int,
                0 <= cursor.y <= 2 * (MAX_COORD as int),
                sink.inv(),
                sink.events() == sink0 + emitted,
                m_full == ({
                    let m_rem = layout_text_rec(
                        self@, remaining_text@, cursor.x as int, cursor.y as int);
                    LayoutRun {
                        oob: m_rem.oob,
                        processed: (text@.len() - remaining_text@.len()) + m_rem.processed,
                        cx: m_rem.cx,
                        cy: m_rem.cy,
                        events: emitted + m_rem.events,
                    }
                }),
            decreases
                remaining_text@.len(),
                (if cursor.y <= self@.bounds.y1 {
                    self@.bounds.y1 - cursor.y + 1
                } else {
                    0
                }),
        {
            let ghost rem0 = remaining_text@;
            let ghost cx0 = cursor.x as int;
            let ghost cy0 = cursor.y as int;
            let ghost emitted0 = emitted;
            let ghost m_rem0 = layout_text_rec(self@, rem0, cx0, cy0);
            let span = Span::fit_horizontally(
                remaining_text,
                self.bounds.x1 - cursor.x,
                &self.text_font,
                &self.hyphen_font,
                self.line_breaking,
            );
            proof {
                lemma_fit_spec_facts(
                    rem0,
                    self@.bounds.x1 - cx0,
                    self@.text_font,
                    self@.hyphen_font,
                    self@.line_breaking,
                );
            }

            // Report the span at the cursor position.
            sink.text(*cursor, self, &remaining_text[0..span.length]);
            proof {
                emitted = emitted.push(
                    text_event(self@, cx0, cy0, rem0.subrange(0, span.length as int)));
            }

            // Continue with the rest of the text.
            let rem_len = remaining_text.len();
            remaining_text = &remaining_text[span.length + span.skip_next_chars..rem_len];

            // Advance the cursor horizontally.
            proof {
                crate::display::lemma_width_of_bounds(
                    self@.text_font,
                    rem0.subrange(0, span.length + span.skip_next_chars as int),
                );
            }
            cursor.x = cursor.x + span.advance.x;

            if span.advance.y > 0 {
                // A line break is happening.
                if span.insert_hyphen_before_line_break {
                    sink.hyphen(*cursor, self);
                    proof {
                        emitted = emitted.push(hyphen_event(self@, cursor.x as int, cy0));
                    }
                }
                if cursor.y + span.advance.y > self.bounds.y1 {
                    // The vertical space is exhausted.
                    if remaining_text.len() > 0 {
                        // Signal that more content is available, unless a
                        // hyphen was just reported.
                        let should_append_ellipsis = matches!(
                            self.page_breaking, PageBreaking::CutAndInsertEllipsis)
                            && !span.insert_hyphen_before_line_break;
                        if should_append_ellipsis {
                            sink.ellipsis(*cursor, self);
                            proof {
                                emitted = emitted.push(
                                    ellipsis_event(self@, cursor.x as int, cy0));
                            }
                        }
                    }
                    sink.out_of_bounds();
                    proof {
                        emitted = emitted.push(Ev::OutOfBounds);
                        assert(remaining_text@
                            =~= rem0.skip(span@.length + span@.skip));
                        assert(m_rem0.oob);
                        assert(m_rem0.processed == span@.length + span@.skip);
                        assert(m_rem0.events == seq![
                            text_event(self@, cx0, cy0, rem0.subrange(0, span@.length))]
                            + (if span@.hyphen {
                                seq![hyphen_event(self@, cursor.x as int, cy0)]
                            } else {
                                Seq::<Ev>::empty()
                            })
                            + (if remaining_text@.len() > 0
                                && self@.page_breaking is CutAndInsertEllipsis
                                && !span@.hyphen {
                                seq![ellipsis_event(self@, cursor.x as int, cy0)]
                            } else {
                                Seq::<Ev>::empty()
                            }) + seq![Ev::OutOfBounds]);
                        assert(emitted =~= emitted0 + m_rem0.events);
                        assert(m_full.events == emitted0 + m_rem0.events);
                        assert(sink.events() =~= sink0 + m_full.events);
                    }
                    return LayoutFit::OutOfBounds {
                        processed_chars: text.len() - remaining_text.len(),
                    };
                } else {
                    // Advance the cursor to the beginning of the next line.
                    cursor.x = self.bounds.x0;
                    cursor.y = cursor.y + span.advance.y;
                    sink.line_break(*cursor);
                    proof {
                        emitted = emitted.push(
                            (Ev::LineBreak { x: cursor.x as int, y: cursor.y as int }));
                    }
                }
            }
            proof {
                let consumed = span@.length + span@.skip;
                assert(rem0.skip(consumed)
                    =~= rem0.subrange(consumed, rem0.len() as int));
                if consumed == 0 {
                    assert(rem0.skip(0) =~= rem0);
                }
                let m_rem1 = layout_text_rec(
                    self@, remaining_text@, cursor.x as int, cursor.y as int);
                assert(emitted0 + m_rem0.events =~= emitted + m_rem1.events);
                assert(m_full == (LayoutRun {
                    oob: m_rem1.oob,
                    processed: (text@.len() - remaining_text@.len()) + m_rem1.processed,
                    cx: m_rem1.cx,
                    cy: m_rem1.cy,
                    events: emitted + m_rem1.events,
                }));
            }
        }
        proof {
            assert(emitted + layout_text_rec(
                self@, remaining_text@, cursor.x as int, cursor.y as int).events =~= emitted);
        }
        LayoutFit::Fitting { processed_chars: text.len() }
    }


    /// Tokenize `format`, resolve each token to directives, and lay out the
    /// resulting stream from the initial cursor.
    #[verifier::rlimit(100)]
    #[verifier::loop_isolation(false)]
    pub fn layout_formatted<'f, R: OpResolver, S: LayoutSink>(
        self,
        format: &'f str,
        resolve: &'f R,
        sink: &mut S,
    ) -> (r: LayoutFit)
        requires
            self@.wf(),
            format.spec_bytes().len() <= MAX_FORMAT_LEN as int,
            resolver_ok(resolve, tokens_from(format.spec_bytes(), 0)),
            old(sink).inv(),
        ensures
            final(sink).inv(),
            ({
                let ops = resolve_ops_spec(resolve, tokens_from(format.spec_bytes(), 0));
                let m = stream_rec(
                    self@,
                    ops,
                    self@.bounds.x0 as int,
                    self@.bounds.y0 + self@.text_font.line_height,
                );
                &&& final(sink).events() == old(sink).events() + m.events
                &&& match r {
                    LayoutFit::Fitting { processed_chars } => !m.oob && processed_chars as int
                        == m.processed,
                    LayoutFit::OutOfBounds { processed_chars } => m.oob && processed_chars as int
                        == m.processed,
                }
            }),
    {
        let ghost s_bytes = format.spec_bytes();
        let mut cursor = self.initial_cursor();
        let mut tokenizer = Tokenizer::new(format);
        let mut ops_vec: Vec<Op<'f>> = Vec::new();

        proof {
            assert(ops_view(ops_vec@) + resolve_ops_spec(resolve, tokens_from(s_bytes, 0))
                =~= resolve_ops_spec(resolve, tokens_from(s_bytes, 0)));
        }

        while tokenizer.pos < tokenizer.input.len()
            invariant
                tokenizer.wf(),
                tokenizer.input@ == s_bytes,
                resolve_ops_spec(resolve, tokens_from(s_bytes, 0)) == ops_view(ops_vec@)
                    + resolve_ops_spec(
                    resolve,
                    tokens_from(s_bytes, tokenizer.pos as int),
                ),
            decreases s_bytes.len() - tokenizer.pos,
        {
            let ghost pos0 = tokenizer.pos as int;
            let ghost toks0 = tokens_from(s_bytes, pos0);
            proof {
                lemma_next_token_facts(s_bytes, pos0);
            }
            let t = tokenizer.next();
            match t {
                None => {
                    proof {
                        assert(tokens_from(s_bytes, pos0) =~= Seq::<TokenM>::empty());
                        assert(tokens_from(s_bytes, tokenizer.pos as int)
                            =~= Seq::<TokenM>::empty());
                        assert(ops_view(ops_vec@) + Seq::<OpM>::empty() =~= ops_view(ops_vec@));
                    }
                },
                Some(token) => {
                    let ghost out0 = ops_vec@;
                    proof {
                        assert(toks0[0] == token@);
                        assert(toks0.skip(1) =~= tokens_from(s_bytes, tokenizer.pos as int));
                    }
                    match resolve.resolve(token) {
                        Some(op) => {
                            ops_vec.push(op);
                            proof {
                                assert(ops_view(ops_vec@)
                                    =~= ops_view(out0) + seq![ops_vec@[out0.len() as int]@]);
                                assert(ops_view(out0) + (seq![op@] + resolve_ops_spec(
                                    resolve, toks0.skip(1)))
                                    =~= ops_view(ops_vec@) + resolve_ops_spec(
                                    resolve, toks0.skip(1)));
                            }
                        },
                        None => {
                            proof {
                                assert(ops_view(ops_vec@) + (Seq::<OpM>::empty()
                                    + resolve_ops_spec(resolve, toks0.skip(1)))
                                    =~= ops_view(ops_vec@) + resolve_ops_spec(
                                    resolve, toks0.skip(1)));
                            }
                        },
                    }
                },
            }
        }

        let ghost toks = tokens_from(s_bytes, 0);
        proof {
            assert(tokens_from(s_bytes, tokenizer.pos as int) =~= Seq::<TokenM>::empty());
            assert(ops_view(ops_vec@) + Seq::<OpM>::empty() =~= ops_view(ops_vec@));
            lemma_tokens_from_count(s_bytes, 0);
            lemma_resolve_ops_props(resolve, toks);
            assert(toks.len() * (MAX_ARG_LEN as int)
                <= (MAX_FORMAT_LEN as int) * (MAX_ARG_LEN as int)) by (nonlinear_arith)
                requires toks.len() <= MAX_FORMAT_LEN as int;
        }
        self.layout_op_stream(ops_vec.as_slice(), &mut cursor, sink)
    }

    /// Lay out a whole directive stream: color and font directives restyle
    /// this local working copy only, text directives are laid out in turn,
    /// and the first out-of-bounds text aborts the stream, returning the
    /// cumulative processed count.
    #[verifier::rlimit(100)]
    #[verifier::loop_isolation(false)]
    pub fn layout_op_stream<S: LayoutSink>(
        self,
        ops: &[Op],
        cursor: &mut Point,
        sink: &mut S,
    ) -> (r: LayoutFit)
        requires
            self@.wf(),
            ops_wf(ops_view(ops@)),
            ops_total_text(ops_view(ops@)) <= MAX_TEXT_LEN as int,
            self@.bounds.x0 <= old(cursor).x,
            old(cursor).x + ops_total_text(ops_view(ops@)) * (MAX_GLYPH_WIDTH as int)
                <= i32::MAX as int,
            0 <= old(cursor).y <= 2 * (MAX_COORD as int),
            old(sink).inv(),
        ensures
            final(sink).inv(),
            ({
                let m = stream_rec(
                    self@, ops_view(ops@), old(cursor).x as int, old(cursor).y as int);
                &&& final(cursor).x as int == m.cx
                &&& final(cursor).y as int == m.cy
                &&& final(sink).events() == old(sink).events() + m.events
                &&& match r {
                    LayoutFit::Fitting { processed_chars } => !m.oob && processed_chars as int
                        == m.processed,
                    LayoutFit::OutOfBounds { processed_chars } => m.oob && processed_chars as int
                        == m.processed,
                }
            }),
    {
        let ghost m_full = stream_rec(
            self@, ops_view(ops@), old(cursor).x as int, old(cursor).y as int);
        let ghost sink0 = old(sink).events();
        let ghost mut emitted: Seq<Ev> = Seq::empty();

        let mut working = self;
        let mut total_processed: usize = 0;
        let mut k: usize = 0;

        proof {
            assert(ops_view(ops@.skip(0)) =~= ops_view(ops@));
            assert(emitted + m_full.events =~= m_full.events);
            lemma_stream_rec_facts(
                working@, ops_view(ops@), old(cursor).x as int, old(cursor).y as int);
        }

        while k < ops.len()
            invariant
                0 <= k <= ops@.len(),
                working@.wf(),
                working@.bounds == self@.bounds,
                self@.bounds.x0 <= cursor.x,
                cursor.x as int + ops_total_text(ops_view(ops@.skip(k as int)))
                    * (MAX_GLYPH_WIDTH as int) <= i32::MAX as int,
                ops_total_text(ops_view(ops@.skip(k as int))) <= MAX_TEXT_LEN as int,
                0 <= cursor.y <= 2 * (MAX_COORD as int),
                total_processed as int <= MAX_TEXT_LEN as int,
                sink.inv(),
                sink.events() == sink0 + emitted,
                m_full == ({
                    let m_rem = stream_rec(
                        working@,
                        ops_view(ops@.skip(k as int)),
                        cursor.x as int,
                        cursor.y as int,
                    );
                    StreamRun {
                        oob: m_rem.oob,
                        processed: total_processed as int + m_rem.processed,
                        cx: m_rem.cx,
                        cy: m_rem.cy,
                        events: emitted + m_rem.events,
                    }
                }),
            decreases ops@.len() - k,
        {
            let ghost rem_ops = ops_view(ops@.skip(k as int));
            let ghost m_rem0 = stream_rec(working@, rem_ops, cursor.x as int, cursor.y as int);
            let ghost w0 = working@;
            let ghost cx0 = cursor.x as int;
            let ghost cy0 = cursor.y as int;
            let ghost emitted0 = emitted;
            proof {
                assert(rem_ops[0] == ops@[k as int]@);
                assert(rem_ops.skip(1) =~= ops_view(ops@.skip(k + 1 as int)));
                lemma_ops_total_text_nonneg(ops_view(ops@.skip(k + 1 as int)));
                assert forall|j: int| 0 <= j < rem_ops.len() implies op_font_ok(
                    #[trigger] rem_ops[j]) by {
                    assert(rem_ops[j] == ops_view(ops@)[k as int + j]);
                }
                assert(ops_wf(rem_ops));
            }
            let op = &ops[k];
            match op {
                Op::Color(color) => {
                    working.text_color = *color;
                    proof {
                        assert(working@ == (LayoutM { text_color: *color, ..w0 }));
                    }
                },
                Op::Font(font) => {
                    working.text_font = font.working_copy();
                    proof {
                        assert(working@ == (LayoutM { text_font: font@, ..w0 }));
                    }
                },
                Op::Text(text) => {
                    proof {
                        lemma_layout_text_rec_facts(w0, text@, cx0, cy0);
                        lemma_stream_rec_facts(w0, rem_ops, cx0, cy0);
                    }
                    let fit = working.layout_text(text, cursor, sink);
                    let ghost m_t = layout_text_rec(w0, text@, cx0, cy0);
                    proof {
                        emitted = emitted + m_t.events;
                        assert(emitted0 + (m_t.events + stream_rec(
                            w0, rem_ops.skip(1), m_t.cx, m_t.cy).events)
                            =~= emitted + stream_rec(
                            w0, rem_ops.skip(1), m_t.cx, m_t.cy).events);
                        assert(emitted0 + m_t.events =~= emitted);
                    }
                    match fit {
                        LayoutFit::Fitting { processed_chars } => {
                            proof {
                                lemma_stream_rec_facts(
                                    w0, rem_ops.skip(1), m_t.cx, m_t.cy);
                            }
                            total_processed = total_processed + processed_chars;
                        },
                        LayoutFit::OutOfBounds { processed_chars } => {
                            total_processed = total_processed + processed_chars;
                            proof {
                                assert(m_full.events == emitted0 + m_rem0.events);
                                assert(m_full.events == emitted);
                            }
                            return LayoutFit::OutOfBounds {
                                processed_chars: total_processed,
                            };
                        },
                    }
                },
            }
            k = k + 1;
        }
        proof {
            assert(ops_view(ops@.skip(k as int)).len() == 0);
            assert(emitted + Seq::<Ev>::empty() =~= emitted);
        }
        LayoutFit::Fitting { processed_chars: total_processed }
    }
}


/// A measurement probe: receives every event and does nothing, useful for
/// computing a `LayoutFit` without visible side effects.
pub struct TextNoop {
    pub log: Ghost<Seq<Ev>>,
}

impl TextNoop {
    pub fn new() -> (r: TextNoop)
        ensures
            r.events() == Seq::<Ev>::empty(),
            r.inv(),
    {
        TextNoop { log: Ghost(Seq::empty()) }
    }
}

impl LayoutSink for TextNoop {
    open spec fn events(&self) -> Seq<Ev> {
        self.log@
    }

    open spec fn inv(&self) -> bool {
        true
    }

    fn text(&mut self, cursor: Point, layout: &TextLayout, text: &[u8]) {
        self.log = Ghost(
            self.log@.push(text_event(layout@, cursor.x as int, cursor.y as int, text@)),
        );
    }

    fn hyphen(&mut self, cursor: Point, layout: &TextLayout) {
        self.log = Ghost(self.log@.push(hyphen_event(layout@, cursor.x as int, cursor.y as int)));
    }

    fn ellipsis(&mut self, cursor: Point, layout: &TextLayout) {
        self.log = Ghost(
            self.log@.push(ellipsis_event(layout@, cursor.x as int, cursor.y as int)),
        );
    }

    fn line_break(&mut self, cursor: Point) {
        self.log = Ghost(
            self.log@.push((Ev::LineBreak { x: cursor.x as int, y: cursor.y as int })),
        );
    }

    fn out_of_bounds(&mut self) {
        self.log = Ghost(self.log@.push(Ev::OutOfBounds));
    }
}

/// One recorded layout event, the executable mirror of `Ev`.
#[derive(PartialEq, Eq, Debug)]
pub enum LayoutEvent {
    Text { pos: Point, bytes: Vec<u8>, font: u32, fg: Color, bg: Color },
    Hyphen { pos: Point, font: u32, fg: Color, bg: Color },
    Ellipsis { pos: Point, font: u32, fg: Color, bg: Color },
    LineBreak { pos: Point },
    OutOfBounds,
}

impl View for LayoutEvent {
    type V = Ev;

    open spec fn view(&self) -> Ev {
        match self {
            LayoutEvent::Text { pos, bytes, font, fg, bg } => Ev::Text {
                x: pos.x as int,
                y: pos.y as int,
                bytes: bytes@,
                font: *font as int,
                fg: *fg,
                bg: *bg,
            },
            LayoutEvent::Hyphen { pos, font, fg, bg } => Ev::Hyphen {
                x: pos.x as int,
                y: pos.y as int,
                font: *font as int,
                fg: *fg,
                bg: *bg,
            },
            LayoutEvent::Ellipsis { pos, font, fg, bg } => Ev::Ellipsis {
                x: pos.x as int,
                y: pos.y as int,
                font: *font as int,
                fg: *fg,
                bg: *bg,
            },
            LayoutEvent::LineBreak { pos } => Ev::LineBreak {
                x: pos.x as int,
                y: pos.y as int,
            },
            LayoutEvent::OutOfBounds => Ev::OutOfBounds,
        }
    }
}

/// A trace collector: records every event it receives, in order, as a plain
/// value a caller can inspect.
pub struct EventRecorder {
    pub received: Vec<LayoutEvent>,
}

impl EventRecorder {
    pub fn new() -> (r: EventRecorder)
        ensures
            r.events() == Seq::<Ev>::empty(),
            r.inv(),
    {
        let r = EventRecorder { received: Vec::new() };
        proof {
            assert(r.events() =~= Seq::<Ev>::empty());
        }
        r
    }
}

impl LayoutSink for EventRecorder {
    open spec fn events(&self) -> Seq<Ev> {
        self.received@.map(|_i: int, e: LayoutEvent| e@)
    }

    open spec fn inv(&self) -> bool {
        true
    }

    fn text(&mut self, cursor: Point, layout: &TextLayout, text: &[u8]) {
        self.received.push(
            LayoutEvent::Text {
                pos: cursor,
                bytes: vstd::slice::slice_to_vec(text),
                font: layout.text_font.id,
                fg: layout.text_color,
                bg: layout.background_color,
            },
        );
        proof {
            assert(self.events() =~= old(self).events().push(
                text_event(layout@, cursor.x as int, cursor.y as int, text@)));
        }
    }

    fn hyphen(&mut self, cursor: Point, layout: &TextLayout) {
        self.received.push(
            LayoutEvent::Hyphen {
                pos: cursor,
                font: layout.hyphen_font.id,
                fg: layout.hyphen_color,
                bg: layout.background_color,
            },
        );
        proof {
            assert(self.events() =~= old(self).events().push(
                hyphen_event(layout@, cursor.x as int, cursor.y as int)));
        }
    }

    fn ellipsis(&mut self, cursor: Point, layout: &TextLayout) {
        self.received.push(
            LayoutEvent::Ellipsis {
                pos: cursor,
                font: layout.ellipsis_font.id,
                fg: layout.ellipsis_color,
                bg: layout.background_color,
            },
        );
        proof {
            assert(self.events() =~= old(self).events().push(
                ellipsis_event(layout@, cursor.x as int, cursor.y as int)));
        }
    }

    fn line_break(&mut self, cursor: Point) {
        self.received.push((LayoutEvent::LineBreak { pos: cursor }));
        proof {
            assert(self.events() =~= old(self).events().push(
                (Ev::LineBreak { x: cursor.x as int, y: cursor.y as int })));
        }
    }

    fn out_of_bounds(&mut self) {
        self.received.push(LayoutEvent::OutOfBounds);
        proof {
            assert(self.events() =~= old(self).events().push(Ev::OutOfBounds));
        }
    }
}

/// The bytes a trace of `evs` serializes to: text runs verbatim, `-` for a
/// hyphen, `...` for an ellipsis, a newline for a line break.
pub open spec fn trace_render(evs: Seq<Ev>) -> Seq<u8>
    decreases evs.len(),
{
    if evs.len() == 0 {
        Seq::empty()
    } else {
        trace_render(evs.drop_last()) + (match evs.last() {
            Ev::Text { bytes, .. } => bytes,
            Ev::Hyphen { .. } => seq![45u8],
            Ev::Ellipsis { .. } => seq![46u8, 46u8, 46u8],
            Ev::LineBreak { .. } => seq![10u8],
            Ev::OutOfBounds => Seq::<u8>::empty(),
        })
    }
}

/// Append a byte run to a buffer.
fn push_bytes(out: &mut Vec<u8>, bytes: &[u8])
    ensures
        final(out)@ == old(out)@ + bytes@,
{
    let mut i: usize = 0;
    while i < bytes.len()
        invariant
            0 <= i <= bytes@.len(),
            out@ == old(out)@ + bytes@.subrange(0, i as int),
        decreases bytes@.len() - i,
    {
        let ghost pre = out@;
        out.push(bytes[i]);
        proof {
            assert(out@ =~= old(out)@ + bytes@.subrange(0, i + 1 as int));
        }
        i = i + 1;
    }
    proof {
        assert(out@ =~= old(out)@ + bytes@);
    }
}


/// The hyphen glyph's byte.
fn hyphen_bytes() -> (r: Vec<u8>)
    ensures
        r@ == seq![45u8],
{
    let mut v: Vec<u8> = Vec::new();
    v.push(45u8);
    proof {
        assert(v@ =~= seq![45u8]);
    }
    v
}

/// The ellipsis glyph run's bytes.
fn ellipsis_bytes() -> (r: Vec<u8>)
    ensures
        r@ == seq![46u8, 46u8, 46u8],
{
    let mut v: Vec<u8> = Vec::new();
    v.push(46u8);
    v.push(46u8);
    v.push(46u8);
    proof {
        assert(v@ =~= seq![46u8, 46u8, 46u8]);
    }
    v
}

/// A trace sink: serializes the events it receives into a byte buffer, for
/// debugging.
pub struct TraceSink {
    pub output: Vec<u8>,
    pub log: Ghost<Seq<Ev>>,
}

impl TraceSink {
    pub fn new() -> (r: TraceSink)
        ensures
            r.events() == Seq::<Ev>::empty(),
            r.inv(),
            r.output@ == Seq::<u8>::empty(),
    {
        let r = TraceSink { output: Vec::new(), log: Ghost(Seq::empty()) };
        proof {
            assert(trace_render(r.log@) =~= Seq::<u8>::empty());
        }
        r
    }
}

impl LayoutSink for TraceSink {
    open spec fn events(&self) -> Seq<Ev> {
        self.log@
    }

    /// The buffer is exactly the serialization of the events received.
    open spec fn inv(&self) -> bool {
        self.output@ == trace_render(self.log@)
    }

    fn text(&mut self, cursor: Point, layout: &TextLayout, text: &[u8]) {
        push_bytes(&mut self.output, text);
        self.log = Ghost(
            self.log@.push(text_event(layout@, cursor.x as int, cursor.y as int, text@)),
        );
        proof {
            assert(self.log@.drop_last() =~= old(self).log@);
        }
    }

    fn hyphen(&mut self, cursor: Point, layout: &TextLayout) {
        self.output.push(45u8);
        self.log = Ghost(self.log@.push(hyphen_event(layout@, cursor.x as int, cursor.y as int)));
        proof {
            assert(self.log@.drop_last() =~= old(self).log@);
            assert(self.output@ =~= trace_render(self.log@));
        }
    }

    fn ellipsis(&mut self, cursor: Point, layout: &TextLayout) {
        self.output.push(46u8);
        self.output.push(46u8);
        self.output.push(46u8);
        self.log = Ghost(
            self.log@.push(ellipsis_event(layout@, cursor.x as int, cursor.y as int)),
        );
        proof {
            assert(self.log@.drop_last() =~= old(self).log@);
            assert(self.output@ =~= trace_render(self.log@));
        }
    }

    fn line_break(&mut self, cursor: Point) {
        self.output.push(10u8);
        self.log = Ghost(
            self.log@.push((Ev::LineBreak { x: cursor.x as int, y: cursor.y as int })),
        );
        proof {
            assert(self.log@.drop_last() =~= old(self).log@);
            assert(self.output@ =~= trace_render(self.log@));
        }
    }

    fn out_of_bounds(&mut self) {
        self.log = Ghost(self.log@.push(Ev::OutOfBounds));
        proof {
            assert(self.log@.drop_last() =~= old(self).log@);
            assert(self.output@ =~= trace_render(self.log@));
        }
    }
}

/// The draw requests `evs` turn into: one per text run, hyphen and ellipsis
/// glyph; line breaks and the out-of-bounds signal draw nothing.
pub open spec fn render_spec(evs: Seq<Ev>) -> Seq<crate::display::CommandM>
    decreases evs.len(),
{
    if evs.len() == 0 {
        Seq::empty()
    } else {
        render_spec(evs.drop_last()) + (match evs.last() {
            Ev::Text { x, y, bytes, font, fg, bg } => seq![
                (crate::display::CommandM { x, y, bytes, font, fg, bg })],
            Ev::Hyphen { x, y, font, fg, bg } => seq![
                (crate::display::CommandM { x, y, bytes: seq![45u8], font, fg, bg })],
            Ev::Ellipsis { x, y, font, fg, bg } => seq![
                (crate::display::CommandM { x, y, bytes: seq![46u8, 46u8, 46u8], font, fg, bg })],
            Ev::LineBreak { .. } => Seq::<crate::display::CommandM>::empty(),
            Ev::OutOfBounds => Seq::<crate::display::CommandM>::empty(),
        })
    }
}

/// The rendering sink: turns every text, hyphen and ellipsis event into a
/// draw request for a display driver.
pub struct TextRenderer {
    pub commands: Vec<DisplayCommand>,
    pub log: Ghost<Seq<Ev>>,
}

impl TextRenderer {
    pub fn new() -> (r: TextRenderer)
        ensures
            r.events() == Seq::<Ev>::empty(),
            r.inv(),
            r.commands@ == Seq::<DisplayCommand>::empty(),
    {
        let r = TextRenderer { commands: Vec::new(), log: Ghost(Seq::empty()) };
        proof {
            assert(r.commands@.map(|_i: int, c: DisplayCommand| c@)
                =~= render_spec(r.log@));
        }
        r
    }
}

impl LayoutSink for TextRenderer {
    open spec fn events(&self) -> Seq<Ev> {
        self.log@
    }

    /// The draw requests are exactly the rendering of the events received.
    open spec fn inv(&self) -> bool {
        self.commands@.map(|_i: int, c: DisplayCommand| c@) == render_spec(self.log@)
    }

    fn text(&mut self, cursor: Point, layout: &TextLayout, text: &[u8]) {
        self.commands.push(
            DisplayCommand {
                pos: cursor,
                bytes: vstd::slice::slice_to_vec(text),
                font_id: layout.text_font.id,
                fg: layout.text_color,
                bg: layout.background_color,
            },
        );
        self.log = Ghost(
            self.log@.push(text_event(layout@, cursor.x as int, cursor.y as int, text@)),
        );
        proof {
            assert(self.log@.drop_last() =~= old(self).log@);
            assert(self.commands@.map(|_i: int, c: DisplayCommand| c@)
                =~= render_spec(self.log@));
        }
    }

    fn hyphen(&mut self, cursor: Point, layout: &TextLayout) {
        self.commands.push(
            DisplayCommand {
                pos: cursor,
                bytes: hyphen_bytes(),
                font_id: layout.hyphen_font.id,
                fg: layout.hyphen_color,
                bg: layout.background_color,
            },
        );
        self.log = Ghost(self.log@.push(hyphen_event(layout@, cursor.x as int, cursor.y as int)));
        proof {
            assert(self.log@.drop_last() =~= old(self).log@);
            assert(self.commands@.map(|_i: int, c: DisplayCommand| c@)
                =~= render_spec(self.log@));
        }
    }

    fn ellipsis(&mut self, cursor: Point, layout: &TextLayout) {
        self.commands.push(
            DisplayCommand {
                pos: cursor,
                bytes: ellipsis_bytes(),
                font_id: layout.ellipsis_font.id,
                fg: layout.ellipsis_color,
                bg: layout.background_color,
            },
        );
        self.log = Ghost(
            self.log@.push(ellipsis_event(layout@, cursor.x as int, cursor.y as int)),
        );
        proof {
            assert(self.log@.drop_last() =~= old(self).log@);
            assert(self.commands@.map(|_i: int, c: DisplayCommand| c@)
                =~= render_spec(self.log@));
        }
    }

    fn line_break(&mut self, cursor: Point) {
        self.log = Ghost(
            self.log@.push((Ev::LineBreak { x: cursor.x as int, y: cursor.y as int })),
        );
        proof {
            assert(self.log@.drop_last() =~= old(self).log@);
            assert(self.commands@.map(|_i: int, c: DisplayCommand| c@)
                =~= render_spec(self.log@));
        }
    }

    fn out_of_bounds(&mut self) {
        self.log = Ghost(self.log@.push(Ev::OutOfBounds));
        proof {
            assert(self.log@.drop_last() =~= old(self).log@);
            assert(self.commands@.map(|_i: int, c: DisplayCommand| c@)
                =~= render_spec(self.log@));
        }
    }
}


/// How many out-of-bounds signals a run of events holds.
pub open spec fn count_oob(evs: Seq<Ev>) -> int
    decreases evs.len(),
{
    if evs.len() == 0 {
        0
    } else {
        count_oob(evs.drop_last()) + (if evs.last() is OutOfBounds {
            1int
        } else {
            0
        })
    }
}

/// How many ellipsis events a run of events holds.
pub open spec fn count_ellipsis(evs: Seq<Ev>) -> int
    decreases evs.len(),
{
    if evs.len() == 0 {
        0
    } else {
        count_ellipsis(evs.drop_last()) + (if evs.last() is Ellipsis {
            1int
        } else {
            0
        })
    }
}

proof fn lemma_counts_concat(a: Seq<Ev>, b: Seq<Ev>)
    ensures
        count_oob(a + b) == count_oob(a) + count_oob(b),
        count_ellipsis(a + b) == count_ellipsis(a) + count_ellipsis(b),
    decreases b.len(),
{
    if b.len() == 0 {
        assert(a + b =~= a);
    } else {
        assert((a + b).drop_last() =~= a + b.drop_last());
        lemma_counts_concat(a, b.drop_last());
    }
}

proof fn lemma_counts_singleton(e: Ev)
    ensures
        count_oob(seq![e]) == (if e is OutOfBounds {
            1int
        } else {
            0
        }),
        count_ellipsis(seq![e]) == (if e is Ellipsis {
            1int
        } else {
            0
        }),
{
    assert(seq![e].drop_last() =~= Seq::<Ev>::empty());
    assert(count_oob(Seq::<Ev>::empty()) == 0);
    assert(count_ellipsis(Seq::<Ev>::empty()) == 0);
    assert(seq![e].last() == e);
}

/// A layout pass reports the out-of-bounds event exactly once when its
/// result is out of bounds, and never otherwise.
pub proof fn lemma_out_of_bounds_reported_once(lay: LayoutM, text: Seq<u8>, cx: int, cy: int)
    requires
        lay.wf(),
    ensures
        ({
            let r = layout_text_rec(lay, text, cx, cy);
            count_oob(r.events) == (if r.oob {
                1int
            } else {
                0
            })
        }),
    decreases
        text.len(),
        (if cy <= lay.bounds.y1 {
            lay.bounds.y1 - cy + 1
        } else {
            0
        }),
{
    let r = layout_text_rec(lay, text, cx, cy);
    if text.len() == 0 {
    } else {
        let span = fit_spec(
            text,
            lay.bounds.x1 - cx,
            lay.text_font,
            lay.hyphen_font,
            lay.line_breaking,
        );
        lemma_fit_spec_facts(text, lay.bounds.x1 - cx, lay.text_font, lay.hyphen_font,
            lay.line_breaking);
        let consumed = span.length + span.skip;
        let rest = text.skip(consumed);
        let ev0 = text_event(lay, cx, cy, text.subrange(0, span.length));
        let cx2 = cx + span.adv_x;
        let hyph = if span.hyphen {
            seq![hyphen_event(lay, cx2, cy)]
        } else {
            Seq::<Ev>::empty()
        };
        lemma_counts_singleton(ev0);
        if span.hyphen {
            lemma_counts_singleton(hyphen_event(lay, cx2, cy));
        }
        if span.adv_y <= 0 {
            if consumed >= 1 {
                lemma_out_of_bounds_reported_once(lay, rest, cx2, cy);
                lemma_counts_concat(seq![ev0], layout_text_rec(lay, rest, cx2, cy).events);
            }
        } else {
            if cy + span.adv_y > lay.bounds.y1 {
                let ell = if rest.len() > 0 && lay.page_breaking is CutAndInsertEllipsis
                    && !span.hyphen {
                    seq![ellipsis_event(lay, cx2, cy)]
                } else {
                    Seq::<Ev>::empty()
                };
                if rest.len() > 0 && lay.page_breaking is CutAndInsertEllipsis && !span.hyphen {
                    lemma_counts_singleton(ellipsis_event(lay, cx2, cy));
                }
                lemma_counts_singleton(Ev::OutOfBounds);
                lemma_counts_concat(seq![ev0], hyph);
                lemma_counts_concat(seq![ev0] + hyph, ell);
                lemma_counts_concat(seq![ev0] + hyph + ell, seq![Ev::OutOfBounds]);
            } else {
                let cx3 = lay.bounds.x0 as int;
                let cy3 = cy + span.adv_y;
                let lb = seq![(Ev::LineBreak { x: cx3, y: cy3 })];
                lemma_counts_singleton((Ev::LineBreak { x: cx3, y: cy3 }));
                let tail = if consumed >= 1 {
                    rest
                } else {
                    text
                };
                lemma_out_of_bounds_reported_once(lay, tail, cx3, cy3);
                let rr = layout_text_rec(lay, tail, cx3, cy3);
                lemma_counts_concat(seq![ev0], hyph);
                lemma_counts_concat(seq![ev0] + hyph, lb);
                lemma_counts_concat(seq![ev0] + hyph + lb, rr.events);
            }
        }
    }
}

/// An ellipsis is reported exactly when the pass ran out of bounds under the
/// cut-and-insert-ellipsis policy with unconsumed text remaining and without
/// a hyphen just before the out-of-bounds signal — and then exactly once.
pub proof fn lemma_ellipsis_exactly_when_cut_with_more_text(
    lay: LayoutM,
    text: Seq<u8>,
    cx: int,
    cy: int,
)
    requires
        lay.wf(),
    ensures
        ({
            let r = layout_text_rec(lay, text, cx, cy);
            &&& (r.oob ==> r.events.len() >= 2 && r.events.last() is OutOfBounds)
            &&& count_ellipsis(r.events) == (if r.oob && lay.page_breaking
                is CutAndInsertEllipsis && r.processed < text.len() && !(r.events[r.events.len()
                - 2] is Hyphen) {
                1int
            } else {
                0
            })
        }),
    decreases
        text.len(),
        (if cy <= lay.bounds.y1 {
            lay.bounds.y1 - cy + 1
        } else {
            0
        }),
{
    let r = layout_text_rec(lay, text, cx, cy);
    if text.len() == 0 {
    } else {
        let span = fit_spec(
            text,
            lay.bounds.x1 - cx,
            lay.text_font,
            lay.hyphen_font,
            lay.line_breaking,
        );
        lemma_fit_spec_facts(text, lay.bounds.x1 - cx, lay.text_font, lay.hyphen_font,
            lay.line_breaking);
        let consumed = span.length + span.skip;
        let rest = text.skip(consumed);
        let ev0 = text_event(lay, cx, cy, text.subrange(0, span.length));
        let cx2 = cx + span.adv_x;
        let hyph = if span.hyphen {
            seq![hyphen_event(lay, cx2, cy)]
        } else {
            Seq::<Ev>::empty()
        };
        lemma_counts_singleton(ev0);
        if span.hyphen {
            lemma_counts_singleton(hyphen_event(lay, cx2, cy));
        }
        if span.adv_y <= 0 {
            if consumed >= 1 {
                lemma_ellipsis_exactly_when_cut_with_more_text(lay, rest, cx2, cy);
                let rr = layout_text_rec(lay, rest, cx2, cy);
                lemma_counts_concat(seq![ev0], rr.events);
                if rr.oob {
                    assert(r.events[r.events.len() - 2] == rr.events[rr.events.len() - 2]);
                    assert(r.events.last() == rr.events.last());
                }
            }
        } else {
            if cy + span.adv_y > lay.bounds.y1 {
                let ell = if rest.len() > 0 && lay.page_breaking is CutAndInsertEllipsis
                    && !span.hyphen {
                    seq![ellipsis_event(lay, cx2, cy)]
                } else {
                    Seq::<Ev>::empty()
                };
                if rest.len() > 0 && lay.page_breaking is CutAndInsertEllipsis && !span.hyphen {
                    lemma_counts_singleton(ellipsis_event(lay, cx2, cy));
                }
                lemma_counts_singleton(Ev::OutOfBounds);
                lemma_counts_concat(seq![ev0], hyph);
                lemma_counts_concat(seq![ev0] + hyph, ell);
                lemma_counts_concat(seq![ev0] + hyph + ell, seq![Ev::OutOfBounds]);
                assert(r.events == seq![ev0] + hyph + ell + seq![Ev::OutOfBounds]);
                assert(r.events.last() is OutOfBounds);
                assert(r.processed < text.len() <==> rest.len() > 0);
                if span.hyphen {
                    assert(r.events[r.events.len() - 2] == hyphen_event(lay, cx2, cy));
                } else if rest.len() > 0 && lay.page_breaking is CutAndInsertEllipsis {
                    assert(r.events[r.events.len() - 2] == ellipsis_event(lay, cx2, cy));
                } else {
                    assert(r.events[r.events.len() - 2] == ev0);
                }
            } else {
                let cx3 = lay.bounds.x0 as int;
                let cy3 = cy + span.adv_y;
                let lb = seq![(Ev::LineBreak { x: cx3, y: cy3 })];
                lemma_counts_singleton((Ev::LineBreak { x: cx3, y: cy3 }));
                let tail = if consumed >= 1 {
                    rest
                } else {
                    text
                };
                lemma_ellipsis_exactly_when_cut_with_more_text(lay, tail, cx3, cy3);
                let rr = layout_text_rec(lay, tail, cx3, cy3);
                lemma_counts_concat(seq![ev0], hyph);
                lemma_counts_concat(seq![ev0] + hyph, lb);
                lemma_counts_concat(seq![ev0] + hyph + lb, rr.events);
                if rr.oob {
                    assert(r.events[r.events.len() - 2] == rr.events[rr.events.len() - 2]);
                    assert(r.events.last() == rr.events.last());
                }
            }
        }
    }
}

} // verus!
