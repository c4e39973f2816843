use textflow::display::Font;
use textflow::geometry::{Point, Rect};
use textflow::layout::{
    EventRecorder, LayoutEvent, LayoutFit, PageBreaking, TextLayout, TextNoop, TextRenderer,
};
use textflow::span::LineBreaking;

fn fixed_font(id: u32, line_height: i32, width: i32) -> Font {
    Font::new(id, line_height, vec![width; 256])
}

fn layout_over(rect: Rect) -> TextLayout {
    let mut layout = TextLayout::new(rect);
    layout.text_font = fixed_font(1, 16, 8);
    layout.hyphen_font = fixed_font(2, 16, 8);
    layout.ellipsis_font = fixed_font(2, 16, 8);
    layout
}

fn oob_count(events: &[LayoutEvent]) -> usize {
    events.iter().filter(|e| matches!(e, LayoutEvent::OutOfBounds)).count()
}

fn ellipsis_count(events: &[LayoutEvent]) -> usize {
    events.iter().filter(|e| matches!(e, LayoutEvent::Ellipsis { .. })).count()
}

#[test]
fn fitting_text_reports_every_byte() {
    let layout = layout_over(Rect::new(0, 0, 100, 100));
    let mut cursor = layout.initial_cursor();
    let mut sink = TextNoop::new();
    let fit = layout.layout_text(b"hello", &mut cursor, &mut sink);
    assert_eq!(fit, LayoutFit::Fitting { processed_chars: 5 });
    assert_eq!(cursor, Point::new(40, 16));
}

#[test]
fn out_of_bounds_fires_exactly_once() {
    // Three 16px lines do not fit a 40px-tall area: the pass stops out of
    // bounds with fewer bytes processed than given, and the sink's
    // out-of-bounds event fires exactly once.
    let layout = layout_over(Rect::new(0, 0, 80, 40));
    let mut cursor = layout.initial_cursor();
    let mut sink = EventRecorder::new();
    let text = b"aaaaaaaaaa bbbbbbbbbb cccccccccc";
    let fit = layout.layout_text(text, &mut cursor, &mut sink);
    match fit {
        LayoutFit::OutOfBounds { processed_chars } => {
            assert!(processed_chars < text.len());
        }
        LayoutFit::Fitting { .. } => panic!("expected an out-of-bounds result"),
    }
    assert_eq!(oob_count(&sink.received), 1);
    assert_eq!(sink.received.iter().filter(|e| matches!(e, LayoutEvent::OutOfBounds)).count(), 1);
}

#[test]
fn ellipsis_fires_under_cut_and_insert_policy() {
    let layout = layout_over(Rect::new(0, 0, 80, 40));
    let mut cursor = layout.initial_cursor();
    let mut sink = EventRecorder::new();
    let fit = layout.layout_text(b"aaaaaaaaaa bbbbbbbbbb cccccccccc", &mut cursor, &mut sink);
    assert!(matches!(fit, LayoutFit::OutOfBounds { .. }));
    assert_eq!(ellipsis_count(&sink.received), 1);
    // The ellipsis comes right before the out-of-bounds signal.
    let n = sink.received.len();
    assert!(matches!(sink.received[n - 1], LayoutEvent::OutOfBounds));
    assert!(matches!(sink.received[n - 2], LayoutEvent::Ellipsis { .. }));
}

#[test]
fn no_ellipsis_under_cut_policy() {
    let mut layout = layout_over(Rect::new(0, 0, 80, 40));
    layout.page_breaking = PageBreaking::Cut;
    let mut cursor = layout.initial_cursor();
    let mut sink = EventRecorder::new();
    let fit = layout.layout_text(b"aaaaaaaaaa bbbbbbbbbb cccccccccc", &mut cursor, &mut sink);
    assert!(matches!(fit, LayoutFit::OutOfBounds { .. }));
    assert_eq!(ellipsis_count(&sink.received), 0);
    assert_eq!(oob_count(&sink.received), 1);
}

#[test]
fn no_ellipsis_right_after_a_hyphen() {
    // Word-breaking inserts a hyphen on the overflowing line, so the
    // ellipsis stays away even under the cut-and-insert-ellipsis policy.
    let mut layout = layout_over(Rect::new(0, 0, 80, 20));
    layout.line_breaking = LineBreaking::BreakWordsAndInsertHyphen;
    let mut cursor = layout.initial_cursor();
    let mut sink = EventRecorder::new();
    let fit = layout.layout_text(b"aaaaaaaaaaaaaaaaaaaaaaaa", &mut cursor, &mut sink);
    assert!(matches!(fit, LayoutFit::OutOfBounds { .. }));
    assert_eq!(ellipsis_count(&sink.received), 0);
    let n = sink.received.len();
    assert!(matches!(sink.received[n - 1], LayoutEvent::OutOfBounds));
    assert!(matches!(sink.received[n - 2], LayoutEvent::Hyphen { .. }));
}

#[test]
fn ten_glyphs_in_a_35px_area_hyphenate_after_every_third() {
    // Ten 10px glyphs in a 35px-wide area under break-words: three glyphs
    // (30px) plus a 5px hyphen fit, four would not, so the text hyphenates
    // after every third glyph, producing four lines with hyphens on the
    // first three.
    let mut layout = TextLayout::new(Rect::new(0, 0, 35, 100));
    layout.text_font = fixed_font(1, 16, 10);
    layout.hyphen_font = fixed_font(2, 16, 5);
    layout.ellipsis_font = fixed_font(2, 16, 5);
    layout.line_breaking = LineBreaking::BreakWordsAndInsertHyphen;
    let mut cursor = layout.initial_cursor();
    let mut sink = EventRecorder::new();
    let fit = layout.layout_text(b"aaaaaaaaaa", &mut cursor, &mut sink);
    assert_eq!(fit, LayoutFit::Fitting { processed_chars: 10 });

    let texts: Vec<&Vec<u8>> = sink
        .received
        .iter()
        .filter_map(|e| match e {
            LayoutEvent::Text { bytes, .. } => Some(bytes),
            _ => None,
        })
        .collect();
    assert_eq!(texts.len(), 4);
    assert_eq!(texts[0].as_slice(), b"aaa");
    assert_eq!(texts[1].as_slice(), b"aaa");
    assert_eq!(texts[2].as_slice(), b"aaa");
    assert_eq!(texts[3].as_slice(), b"a");
    assert_eq!(
        sink.received.iter().filter(|e| matches!(e, LayoutEvent::Hyphen { .. })).count(),
        3
    );
    assert_eq!(
        sink.received.iter().filter(|e| matches!(e, LayoutEvent::LineBreak { .. })).count(),
        3
    );
}

#[test]
fn renderer_draws_hyphen_glyphs() {
    let mut layout = TextLayout::new(Rect::new(0, 0, 35, 100));
    layout.text_font = fixed_font(1, 16, 10);
    layout.hyphen_font = fixed_font(2, 16, 5);
    layout.ellipsis_font = fixed_font(2, 16, 5);
    layout.line_breaking = LineBreaking::BreakWordsAndInsertHyphen;
    let mut cursor = layout.initial_cursor();
    let mut renderer = TextRenderer::new();
    let fit = layout.layout_text(b"aaaaaaaaaa", &mut cursor, &mut renderer);
    assert_eq!(fit, LayoutFit::Fitting { processed_chars: 10 });
    // 4 text runs and 3 hyphen glyphs; line breaks draw nothing.
    assert_eq!(renderer.commands.len(), 7);
    let hyphens: Vec<_> = renderer
        .commands
        .iter()
        .filter(|c| c.bytes.as_slice() == b"-")
        .collect();
    assert_eq!(hyphens.len(), 3);
    // Hyphens are drawn at the line's right edge, in the hyphen font.
    for h in hyphens {
        assert_eq!(h.pos.x, 30);
        assert_eq!(h.font_id, 2);
    }
}

#[test]
fn empty_text_lays_out_nothing() {
    let layout = layout_over(Rect::new(0, 0, 100, 100));
    let mut cursor = layout.initial_cursor();
    let mut sink = EventRecorder::new();
    let fit = layout.layout_text(b"", &mut cursor, &mut sink);
    assert_eq!(fit, LayoutFit::Fitting { processed_chars: 0 });
    assert!(sink.received.is_empty());
}
