//! The span fitter: the greedy scan that finds the longest run of bytes
//! fitting a line's remaining pixel budget, with its break metadata.

use vstd::prelude::*;

use crate::display::{
    lemma_width_of_bounds, lemma_width_of_push, width_of, Font, FontM, MAX_GLYPH_WIDTH,
    MAX_TEXT_LEN,
};
use crate::geometry::Offset;

verus! {

pub const ASCII_LF: u8 = 10;
pub const ASCII_CR: u8 = 13;
pub const ASCII_SPACE: u8 = 32;
pub const ASCII_HYPHEN: u8 = 45;

/// Strategy for breaking a line that has run out of horizontal room.
#[derive(Clone, Copy, PartialEq, Eq, Structural, Debug)]
pub enum LineBreaking {
    /// Break the line only at whitespace, if possible. If the text has no
    /// whitespace, break words.
    BreakAtWhitespace,
    /// Break words, adding a hyphen before the line-break. No smart
    /// algorithm, just char-by-char.
    BreakWordsAndInsertHyphen,
}

pub open spec fn is_whitespace(b: u8) -> bool {
    b == ASCII_SPACE || b == ASCII_LF || b == ASCII_CR
}

/// Mathematical model of a fitted span.
pub struct SpanM {
    /// How many bytes of the input this span lays out.
    pub length: int,
    /// How many bytes to discard after the span (a consumed whitespace
    /// delimiter).
    pub skip: int,
    /// Horizontal cursor advance, in pixels.
    pub adv_x: int,
    /// Vertical cursor advance; positive exactly when the line breaks.
    pub adv_y: int,
    /// Whether a hyphen is drawn right after the span to mark a word break.
    pub hyphen: bool,
}

/// The break used when no text at all fits: zero length, zero width, a full
/// line break.
pub open spec fn initial_candidate(f: FontM) -> SpanM {
    SpanM { length: 0, skip: 0, adv_x: 0, adv_y: f.line_height, hyphen: false }
}

/// One forward scan from byte `i`, carrying the accumulated width `w`, the
/// most recently recorded break candidate `cand`, and whether any whitespace
/// was seen yet. Mirrors the greedy fitting rules:
/// - whitespace records a "break before it" candidate (LF and CR return it
///   at once, CR with a halved vertical advance);
/// - the first byte that exceeds `max_width` returns the last candidate;
/// - otherwise, when hyphenation is permitted and the hyphen still fits, a
///   "break after this byte, insert hyphen" candidate is recorded;
/// - a scan that reaches the end means the whole text fits on the line.
pub open spec fn fit_loop(
    text: Seq<u8>,
    i: int,
    w: int,
    cand: SpanM,
    found_ws: bool,
    max_width: int,
    f: FontM,
    hyphen_w: int,
    breaking: LineBreaking,
) -> SpanM
    decreases text.len() - i,
{
    if i < 0 || i >= text.len() {
        SpanM { length: text.len() as int, skip: 0, adv_x: w, adv_y: 0, hyphen: false }
    } else {
        let ch = text[i];
        let cw = f.widths[ch as int];
        if is_whitespace(ch) {
            let ws_cand = SpanM {
                length: i,
                skip: 1,
                adv_x: w,
                adv_y: if ch == ASCII_CR {
                    f.line_height / 2
                } else {
                    f.line_height
                },
                hyphen: false,
            };
            if ch == ASCII_LF || ch == ASCII_CR {
                ws_cand
            } else {
                fit_loop(text, i + 1, w + cw, ws_cand, true, max_width, f, hyphen_w, breaking)
            }
        } else if w + cw > max_width {
            cand
        } else {
            let room = w + cw + hyphen_w <= max_width;
            let can_break = breaking is BreakWordsAndInsertHyphen || !found_ws;
            let next_cand = if room && can_break {
                SpanM { length: i + 1, skip: 0, adv_x: w + cw, adv_y: f.line_height, hyphen: true }
            } else {
                cand
            };
            fit_loop(text, i + 1, w + cw, next_cand, found_ws, max_width, f, hyphen_w, breaking)
        }
    }
}

/// The span the fitter returns for `text` against a pixel budget of
/// `max_width`, measured in font `f`, with the hyphen measured in `hf`.
pub open spec fn fit_spec(
    text: Seq<u8>,
    max_width: int,
    f: FontM,
    hf: FontM,
    breaking: LineBreaking,
) -> SpanM {
    fit_loop(
        text,
        0,
        0,
        initial_candidate(f),
        false,
        max_width,
        f,
        hf.widths[ASCII_HYPHEN as int],
        breaking,
    )
}

/// Everything the layout loop needs to know about a candidate that `fit_loop`
/// threads through the scan or returns: sizes stay inside the text, the
/// horizontal advance never exceeds the width of the bytes consumed, and the
/// vertical advance stays within one line height.
pub open spec fn span_ok(text: Seq<u8>, bound: int, f: FontM, s: SpanM) -> bool {
    &&& 0 <= s.skip <= 1
    &&& 0 <= s.length
    &&& s.length + s.skip <= bound
    &&& 0 <= s.adv_x <= width_of(f, text.subrange(0, s.length + s.skip))
    &&& 0 <= s.adv_y <= f.line_height
    &&& (s.adv_y == 0 ==> s.skip == 1 || s.length == text.len())
}

proof fn lemma_fit_loop_facts(
    text: Seq<u8>,
    i: int,
    w: int,
    cand: SpanM,
    found_ws: bool,
    max_width: int,
    f: FontM,
    hyphen_w: int,
    breaking: LineBreaking,
)
    requires
        f.wf(),
        0 <= i <= text.len(),
        w == width_of(f, text.subrange(0, i)),
        span_ok(text, i, f, cand),
        cand.adv_y > 0,
    ensures
        span_ok(text, text.len() as int, f, fit_loop(text, i, w, cand, found_ws, max_width, f, hyphen_w, breaking)),
    decreases text.len() - i,
{
    let r = fit_loop(text, i, w, cand, found_ws, max_width, f, hyphen_w, breaking);
    lemma_width_of_bounds(f, text.subrange(0, i));
    if i >= text.len() {
        assert(text.subrange(0, i) =~= text.subrange(0, text.len() as int));
    } else {
        let ch = text[i];
        let cw = f.widths[ch as int];
        assert(text.subrange(0, i).push(ch) =~= text.subrange(0, i + 1));
        lemma_width_of_push(f, text.subrange(0, i), ch);
        if is_whitespace(ch) {
            let ws_cand = SpanM {
                length: i,
                skip: 1,
                adv_x: w,
                adv_y: if ch == ASCII_CR {
                    f.line_height / 2
                } else {
                    f.line_height
                },
                hyphen: false,
            };
            assert(width_of(f, text.subrange(0, i + 1)) == w + cw);
            assert(span_ok(text, i + 1, f, ws_cand));
            if ch == ASCII_LF || ch == ASCII_CR {
                if ws_cand.adv_y == 0 {
                    assert(ws_cand.skip == 1);
                }
            } else {
                assert(ws_cand.adv_y == f.line_height);
                lemma_fit_loop_facts(
                    text, i + 1, w + cw, ws_cand, true, max_width, f, hyphen_w, breaking);
            }
        } else if w + cw > max_width {
        } else {
            let room = w + cw + hyphen_w <= max_width;
            let can_break = breaking is BreakWordsAndInsertHyphen || !found_ws;
            let next_cand = if room && can_break {
                SpanM { length: i + 1, skip: 0, adv_x: w + cw, adv_y: f.line_height, hyphen: true }
            } else {
                cand
            };
            assert(span_ok(text, i + 1, f, next_cand));
            lemma_fit_loop_facts(
                text, i + 1, w + cw, next_cand, found_ws, max_width, f, hyphen_w, breaking);
        }
    }
}

/// `fit_spec` stays inside the text, never advances wider than the bytes it
/// consumed, and breaks by at most one line height.
pub proof fn lemma_fit_spec_facts(
    text: Seq<u8>,
    max_width: int,
    f: FontM,
    hf: FontM,
    breaking: LineBreaking,
)
    requires
        f.wf(),
    ensures
        span_ok(text, text.len() as int, f, fit_spec(text, max_width, f, hf, breaking)),
        fit_spec(text, max_width, f, hf, breaking).adv_x
            <= (fit_spec(text, max_width, f, hf, breaking).length
                + fit_spec(text, max_width, f, hf, breaking).skip) * (MAX_GLYPH_WIDTH as int),
{
    assert(text.subrange(0, 0) =~= Seq::<u8>::empty());
    assert(width_of(f, text.subrange(0, 0)) == 0);
    lemma_fit_loop_facts(
        text,
        0,
        0,
        initial_candidate(f),
        false,
        max_width,
        f,
        hf.widths[ASCII_HYPHEN as int],
        breaking,
    );
    let r = fit_spec(text, max_width, f, hf, breaking);
    lemma_width_of_bounds(f, text.subrange(0, r.length + r.skip));
    assert(text.subrange(0, r.length + r.skip).len() == r.length + r.skip);
}

/// A prefix of a byte run is never wider than the whole run.
pub proof fn lemma_width_of_prefix_le(f: FontM, t: Seq<u8>, i: int)
    requires
        f.wf(),
        0 <= i <= t.len(),
    ensures
        width_of(f, t.subrange(0, i)) <= width_of(f, t),
    decreases t.len() - i,
{
    if i < t.len() {
        assert(t.subrange(0, i).push(t[i]) =~= t.subrange(0, i + 1));
        lemma_width_of_push(f, t.subrange(0, i), t[i]);
        lemma_width_of_prefix_le(f, t, i + 1);
    } else {
        assert(t.subrange(0, i) =~= t);
    }
}

proof fn lemma_fit_loop_no_whitespace(
    text: Seq<u8>,
    i: int,
    cand: SpanM,
    found_ws: bool,
    max_width: int,
    f: FontM,
    hyphen_w: int,
    breaking: LineBreaking,
)
    requires
        f.wf(),
        0 <= i <= text.len(),
        forall|j: int| 0 <= j < text.len() ==> !is_whitespace(#[trigger] text[j]),
        width_of(f, text) <= max_width,
    ensures
        fit_loop(text, i, width_of(f, text.subrange(0, i)), cand, found_ws, max_width, f,
            hyphen_w, breaking)
            == (SpanM {
            length: text.len() as int,
            skip: 0,
            adv_x: width_of(f, text),
            adv_y: 0,
            hyphen: false,
        }),
    decreases text.len() - i,
{
    let w = width_of(f, text.subrange(0, i));
    if i >= text.len() {
        assert(text.subrange(0, i) =~= text);
    } else {
        let ch = text[i];
        assert(text.subrange(0, i).push(ch) =~= text.subrange(0, i + 1));
        lemma_width_of_push(f, text.subrange(0, i), ch);
        lemma_width_of_prefix_le(f, text, i + 1);
        let cw = f.widths[ch as int];
        assert(w + cw == width_of(f, text.subrange(0, i + 1)) <= max_width);
        let room = w + cw + hyphen_w <= max_width;
        let can_break = breaking is BreakWordsAndInsertHyphen || !found_ws;
        let next_cand = if room && can_break {
            SpanM { length: i + 1, skip: 0, adv_x: w + cw, adv_y: f.line_height, hyphen: true }
        } else {
            cand
        };
        lemma_fit_loop_no_whitespace(
            text, i + 1, next_cand, found_ws, max_width, f, hyphen_w, breaking);
    }
}

/// Text with no whitespace that is narrow enough for the budget fits whole:
/// the span covers all of it, skips nothing, advances by exactly its width,
/// and does not break the line.
pub proof fn lemma_fit_no_whitespace_fits(
    text: Seq<u8>,
    max_width: int,
    f: FontM,
    hf: FontM,
    breaking: LineBreaking,
)
    requires
        f.wf(),
        forall|j: int| 0 <= j < text.len() ==> !is_whitespace(#[trigger] text[j]),
        width_of(f, text) <= max_width,
    ensures
        fit_spec(text, max_width, f, hf, breaking)
            == (SpanM {
            length: text.len() as int,
            skip: 0,
            adv_x: width_of(f, text),
            adv_y: 0,
            hyphen: false,
        }),
{
    assert(text.subrange(0, 0) =~= Seq::<u8>::empty());
    lemma_fit_loop_no_whitespace(
        text,
        0,
        initial_candidate(f),
        false,
        max_width,
        f,
        hf.widths[ASCII_HYPHEN as int],
        breaking,
    );
}

proof fn lemma_fit_loop_newline(
    text: Seq<u8>,
    k: int,
    i: int,
    cand: SpanM,
    found_ws: bool,
    max_width: int,
    f: FontM,
    hyphen_w: int,
    breaking: LineBreaking,
)
    requires
        f.wf(),
        0 <= k <= i < text.len(),
        text[i] == ASCII_LF || text[i] == ASCII_CR,
        forall|j: int| 0 <= j < i ==> #[trigger] text[j] != ASCII_LF && text[j] != ASCII_CR,
        width_of(f, text.subrange(0, i)) <= max_width,
    ensures
        fit_loop(text, k, width_of(f, text.subrange(0, k)), cand, found_ws, max_width, f,
            hyphen_w, breaking)
            == (SpanM {
            length: i,
            skip: 1,
            adv_x: width_of(f, text.subrange(0, i)),
            adv_y: if text[i] == ASCII_CR {
                f.line_height / 2
            } else {
                f.line_height
            },
            hyphen: false,
        }),
    decreases i - k,
{
    let w = width_of(f, text.subrange(0, k));
    let ch = text[k];
    let cw = f.widths[ch as int];
    assert(text.subrange(0, k).push(ch) =~= text.subrange(0, k + 1));
    lemma_width_of_push(f, text.subrange(0, k), ch);
    if k == i {
    } else {
        lemma_width_of_prefix_le(f, text.subrange(0, i), k + 1);
        assert(text.subrange(0, i).subrange(0, k + 1) =~= text.subrange(0, k + 1));
        assert(w + cw == width_of(f, text.subrange(0, k + 1)) <= max_width);
        if is_whitespace(ch) {
            let ws_cand = SpanM {
                length: k,
                skip: 1,
                adv_x: w,
                adv_y: f.line_height,
                hyphen: false,
            };
            lemma_fit_loop_newline(
                text, k + 1, i, ws_cand, true, max_width, f, hyphen_w, breaking);
        } else {
            let room = w + cw + hyphen_w <= max_width;
            let can_break = breaking is BreakWordsAndInsertHyphen || !found_ws;
            let next_cand = if room && can_break {
                SpanM { length: k + 1, skip: 0, adv_x: w + cw, adv_y: f.line_height, hyphen: true }
            } else {
                cand
            };
            lemma_fit_loop_newline(
                text, k + 1, i, next_cand, found_ws, max_width, f, hyphen_w, breaking);
        }
    }
}

/// A bare LF or CR at offset `i` — the first one in the text, with the bytes
/// before it within the budget — always forces a break exactly there:
/// `length = i`, `skip = 1`, no hyphen; CR halves the vertical advance that
/// LF would report.
pub proof fn lemma_fit_breaks_at_newline(
    text: Seq<u8>,
    i: int,
    max_width: int,
    f: FontM,
    hf: FontM,
    breaking: LineBreaking,
)
    requires
        f.wf(),
        0 <= i < text.len(),
        text[i] == ASCII_LF || text[i] == ASCII_CR,
        forall|j: int| 0 <= j < i ==> #[trigger] text[j] != ASCII_LF && text[j] != ASCII_CR,
        width_of(f, text.subrange(0, i)) <= max_width,
    ensures
        fit_spec(text, max_width, f, hf, breaking)
            == (SpanM {
            length: i,
            skip: 1,
            adv_x: width_of(f, text.subrange(0, i)),
            adv_y: if text[i] == ASCII_CR {
                f.line_height / 2
            } else {
                f.line_height
            },
            hyphen: false,
        }),
{
    assert(text.subrange(0, 0) =~= Seq::<u8>::empty());
    lemma_fit_loop_newline(
        text,
        0,
        i,
        initial_candidate(f),
        false,
        max_width,
        f,
        hf.widths[ASCII_HYPHEN as int],
        breaking,
    );
}


proof fn lemma_fit_loop_skip(
    text: Seq<u8>,
    i: int,
    w: int,
    cand: SpanM,
    found_ws: bool,
    max_width: int,
    f: FontM,
    hyphen_w: int,
    breaking: LineBreaking,
)
    requires
        0 <= i <= text.len(),
        cand.skip == 1 ==> 0 <= cand.length < text.len() && is_whitespace(text[cand.length])
            && !cand.hyphen,
        cand.skip == 0 || cand.skip == 1,
    ensures
        ({
            let r = fit_loop(text, i, w, cand, found_ws, max_width, f, hyphen_w, breaking);
            &&& r.skip == 0 || r.skip == 1
            &&& (r.skip == 1 ==> 0 <= r.length < text.len() && is_whitespace(text[r.length])
                && !r.hyphen)
        }),
    decreases text.len() - i,
{
    if 0 <= i < text.len() {
        let ch = text[i];
        let cw = f.widths[ch as int];
        if is_whitespace(ch) {
            let ws_cand = SpanM {
                length: i,
                skip: 1,
                adv_x: w,
                adv_y: if ch == ASCII_CR {
                    f.line_height / 2
                } else {
                    f.line_height
                },
                hyphen: false,
            };
            if !(ch == ASCII_LF || ch == ASCII_CR) {
                lemma_fit_loop_skip(
                    text, i + 1, w + cw, ws_cand, true, max_width, f, hyphen_w, breaking);
            }
        } else if w + cw > max_width {
        } else {
            let room = w + cw + hyphen_w <= max_width;
            let can_break = breaking is BreakWordsAndInsertHyphen || !found_ws;
            let next_cand = if room && can_break {
                SpanM { length: i + 1, skip: 0, adv_x: w + cw, adv_y: f.line_height, hyphen: true }
            } else {
                cand
            };
            lemma_fit_loop_skip(
                text, i + 1, w + cw, next_cand, found_ws, max_width, f, hyphen_w, breaking);
        }
    }
}

/// The skip count is 1 exactly on a whitespace break — the byte right after
/// the span is the consumed whitespace delimiter, and no hyphen is drawn —
/// and 0 otherwise.
pub proof fn lemma_skip_only_on_whitespace_break(
    text: Seq<u8>,
    max_width: int,
    f: FontM,
    hf: FontM,
    breaking: LineBreaking,
)
    ensures
        ({
            let r = fit_spec(text, max_width, f, hf, breaking);
            &&& r.skip == 0 || r.skip == 1
            &&& (r.skip == 1 ==> 0 <= r.length < text.len() && is_whitespace(text[r.length])
                && !r.hyphen)
        }),
{
    lemma_fit_loop_skip(
        text,
        0,
        0,
        initial_candidate(f),
        false,
        max_width,
        f,
        hf.widths[ASCII_HYPHEN as int],
        breaking,
    );
}

/// The longest run of bytes that fits the current line's remaining pixel
/// budget, with the metadata needed to continue the layout after it.
pub struct Span {
    /// How many bytes from the input text this span is laying out.
    pub length: usize,
    /// How many bytes from the input text to skip before fitting the next
    /// span.
    pub skip_next_chars: usize,
    /// By how much to offset the cursor after this span. A positive vertical
    /// offset means the line is breaking.
    pub advance: Offset,
    /// If the line is breaking, whether a hyphen is drawn right after this
    /// span to indicate a word-break.
    pub insert_hyphen_before_line_break: bool,
}

impl View for Span {
    type V = SpanM;

    open spec fn view(&self) -> SpanM {
        SpanM {
            length: self.length as int,
            skip: self.skip_next_chars as int,
            adv_x: self.advance.x as int,
            adv_y: self.advance.y as int,
            hyphen: self.insert_hyphen_before_line_break,
        }
    }
}

impl Span {
    /// Scan `text` forward against the pixel budget `max_width` and return
    /// the greedy fit: the most recently recorded break candidate wins, a
    /// later whitespace break overwrites an earlier hyphen break, and text
    /// that fits entirely comes back with no vertical advance.
    pub fn fit_horizontally(
        text: &[u8],
        max_width: i32,
        text_font: &Font,
        hyphen_font: &Font,
        breaking: LineBreaking,
    ) -> (r: Span)
        requires
            text_font@.wf(),
            hyphen_font@.wf(),
            text@.len() <= MAX_TEXT_LEN as int,
        ensures
            r@ == fit_spec(text@, max_width as int, text_font@, hyphen_font@, breaking),
    {
        let ghost f = text_font@;
        let ghost hw_spec = hyphen_font@.widths[ASCII_HYPHEN as int];
        let hyphen_width = hyphen_font.byte_width(ASCII_HYPHEN);
        let mut line = Span {
            length: 0,
            advance: Offset::new(0, text_font.line_height),
            insert_hyphen_before_line_break: false,
            skip_next_chars: 0,
        };
        assert(line@ == initial_candidate(f));

        let mut span_width: i32 = 0;
        let mut found_any_whitespace = false;
        let mut i: usize = 0;

        while i < text.len()
            invariant
                text_font@.wf(),
                hyphen_font@.wf(),
                text@.len() <= MAX_TEXT_LEN as int,
                f == text_font@,
                hw_spec == hyphen_width as int,
                0 <= i <= text@.len(),
                span_width as int == width_of(f, text@.subrange(0, i as int)),
                0 <= span_width as int <= i * (MAX_GLYPH_WIDTH as int),
                line.length <= usize::MAX - 1,
                line@.adv_y == f.line_height,
                fit_loop(text@, i as int, span_width as int, line@, found_any_whitespace,
                    max_width as int, f, hw_spec, breaking)
                    == fit_spec(text@, max_width as int, f, hyphen_font@, breaking),
            decreases text@.len() - i,
        {
            let ch = text[i];
            let char_width = text_font.byte_width(ch);
            proof {
                assert(text@.subrange(0, i as int).push(text@[i as int])
                    =~= text@.subrange(0, i + 1 as int));
                lemma_width_of_push(f, text@.subrange(0, i as int), text@[i as int]);
                assert((i as int) * (MAX_GLYPH_WIDTH as int) + MAX_GLYPH_WIDTH as int
                    == (i + 1 as int) * (MAX_GLYPH_WIDTH as int)) by (nonlinear_arith);
                assert((i + 1 as int) * (MAX_GLYPH_WIDTH as int)
                    <= (MAX_TEXT_LEN as int) * (MAX_GLYPH_WIDTH as int)) by (nonlinear_arith)
                    requires i + 1 as int <= MAX_TEXT_LEN as int;
            }

            if ch == ASCII_SPACE || ch == ASCII_LF || ch == ASCII_CR {
                // Break before the whitespace, without a hyphen.
                line.length = i;
                line.advance.x = span_width;
                line.insert_hyphen_before_line_break = false;
                line.skip_next_chars = 1;
                if ch == ASCII_CR {
                    // A line break, but the cursor advances only by half of
                    // the regular line height.
                    line.advance.y = text_font.line_height / 2;
                }
                if ch == ASCII_LF || ch == ASCII_CR {
                    // End of line, break immediately.
                    return line;
                }
                found_any_whitespace = true;
            } else if span_width + char_width > max_width {
                // Return the last breakpoint.
                return line;
            } else {
                let have_space_for_break =
                    span_width as i64 + char_width as i64 + hyphen_width as i64
                        <= max_width as i64;
                let can_break_word = matches!(breaking, LineBreaking::BreakWordsAndInsertHyphen)
                    || !found_any_whitespace;
                if have_space_for_break && can_break_word {
                    // Break after this character, append a hyphen.
                    line.length = i + 1;
                    line.advance.x = span_width + char_width;
                    line.insert_hyphen_before_line_break = true;
                    line.skip_next_chars = 0;
                }
            }

            span_width = span_width + char_width;
            i = i + 1;
        }

        // The whole text fits.
        proof {
            assert(text@.subrange(0, text@.len() as int) =~= text@);
        }
        Span {
            length: text.len(),
            advance: Offset::new(span_width, 0),
            insert_hyphen_before_line_break: false,
            skip_next_chars: 0,
        }
    }
}

} // verus!
