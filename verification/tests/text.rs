use textflow::display::Color;
use textflow::geometry::Rect;
use textflow::layout::{LayoutFit, OpResolver, PageBreaking, TextNoop, TextRenderer};
use textflow::op::Op;
use textflow::span::LineBreaking;
use textflow::text::{Text, TraceText};
use textflow::theme;
use textflow::token::Token;

fn wide_area() -> Rect {
    Rect::new(0, 0, 1000, 100)
}

#[test]
fn formatted_line_reaches_the_sink_in_order() {
    // The bold keyword switches the font; the literal, the argument value
    // and the trailing literal arrive as three text runs, in order, and
    // everything fits on one line.
    let text = Text::new(wide_area())
        .format("{bold}Pay {amount} BTC?")
        .with(b"amount", b"0.001");

    // The keyword resolves to a font directive before any text.
    match text.resolve(Token::Argument(b"bold")) {
        Some(Op::Font(f)) => assert_eq!(f.id, theme::FONT_BOLD_ID),
        _ => panic!("the bold keyword must resolve to a font directive"),
    }

    let renderer: TextRenderer = text.paint();
    let runs: Vec<&[u8]> = renderer.commands.iter().map(|c| c.bytes.as_slice()).collect();
    assert_eq!(runs, vec![b"Pay ".as_slice(), b"0.001".as_slice(), b" BTC?".as_slice()]);
    // All three runs are drawn in the bold font the stream switched to.
    for c in &renderer.commands {
        assert_eq!(c.font_id, theme::FONT_BOLD_ID);
    }
    // They sit left to right on one line.
    assert_eq!(renderer.commands[0].pos.y, renderer.commands[1].pos.y);
    assert_eq!(renderer.commands[1].pos.y, renderer.commands[2].pos.y);
    assert!(renderer.commands[0].pos.x < renderer.commands[1].pos.x);
    assert!(renderer.commands[1].pos.x < renderer.commands[2].pos.x);
}

#[test]
fn seventh_distinct_argument_is_dropped_silently() {
    assert_eq!(Text::new(wide_area()).arg_count(), 0);
    let text = Text::new(wide_area())
        .with(b"k1", b"v1")
        .with(b"k2", b"v2")
        .with(b"k3", b"v3")
        .with(b"k4", b"v4")
        .with(b"k5", b"v5")
        .with(b"k6", b"v6");
    assert_eq!(text.arg_count(), 6);

    // The seventh distinct key: the builder call still succeeds, the table
    // stays at exactly six entries, and the new key resolves to nothing.
    let text = text.with(b"k7", b"v7");
    assert_eq!(text.arg_count(), 6);
    assert!(text.resolve(Token::Argument(b"k7")).is_none());

    // The six existing keys are untouched.
    for (k, v) in [
        (b"k1".as_slice(), b"v1".as_slice()),
        (b"k2", b"v2"),
        (b"k3", b"v3"),
        (b"k4", b"v4"),
        (b"k5", b"v5"),
        (b"k6", b"v6"),
    ] {
        match text.resolve(Token::Argument(k)) {
            Some(Op::Text(value)) => assert_eq!(value, v),
            _ => panic!("an existing key must still resolve"),
        }
    }

    // Re-binding an existing key replaces its value without growing the
    // table.
    let text = text.with(b"k3", b"replaced");
    assert_eq!(text.arg_count(), 6);
    match text.resolve(Token::Argument(b"k3")) {
        Some(Op::Text(value)) => assert_eq!(value, b"replaced"),
        _ => panic!("the re-bound key must resolve"),
    }
}

#[test]
fn unknown_argument_yields_no_directive() {
    let text = Text::new(wide_area()).format("a{missing}b");
    assert!(text.resolve(Token::Argument(b"missing")).is_none());
    let renderer = text.paint();
    let runs: Vec<&[u8]> = renderer.commands.iter().map(|c| c.bytes.as_slice()).collect();
    assert_eq!(runs, vec![b"a".as_slice(), b"b".as_slice()]);
}

#[test]
fn font_keywords_resolve_to_theme_fonts() {
    let text = Text::new(wide_area());
    match text.resolve(Token::Argument(b"mono")) {
        Some(Op::Font(f)) => assert_eq!(f.id, theme::FONT_MONO_ID),
        _ => panic!("mono must resolve to a font"),
    }
    match text.resolve(Token::Argument(b"normal")) {
        Some(Op::Font(f)) => assert_eq!(f.id, theme::FONT_NORMAL_ID),
        _ => panic!("normal must resolve to a font"),
    }
    match text.resolve(Token::Literal(b"lit")) {
        Some(Op::Text(t)) => assert_eq!(t, b"lit"),
        _ => panic!("a literal passes through as text"),
    }
}

#[test]
fn trace_serializes_breaks_and_hyphens() {
    // A narrow tall area: "aaaa" hyphenates after "aa" under break-words
    // with 8px glyphs and a 9px hyphen in a 25px-wide area (16 + 9 <= 25).
    let text = Text::new(Rect::new(0, 0, 25, 100))
        .format("aaaa")
        .with_line_breaking(LineBreaking::BreakWordsAndInsertHyphen);
    let trace = TraceText(&text).trace();
    assert_eq!(trace.output.as_slice(), b"aa-\naa");
}

#[test]
fn builder_configuration_is_kept() {
    let mut text = Text::new(wide_area())
        .with_text_color(Color(7))
        .with_page_breaking(PageBreaking::Cut);
    assert_eq!(text.layout_mut().text_color, Color(7));
    assert_eq!(text.layout_mut().page_breaking, PageBreaking::Cut);
}

#[test]
fn paint_reports_styled_runs() {
    // Styles persist from the directive that set them to the next one.
    let text = Text::new(wide_area()).format("one {mono}two");
    let renderer = text.paint();
    assert_eq!(renderer.commands.len(), 2);
    assert_eq!(renderer.commands[0].bytes.as_slice(), b"one ");
    assert_eq!(renderer.commands[0].font_id, theme::FONT_NORMAL_ID);
    assert_eq!(renderer.commands[1].bytes.as_slice(), b"two");
    assert_eq!(renderer.commands[1].font_id, theme::FONT_MONO_ID);
}

#[test]
fn skip_n_text_bytes_drops_the_leading_content() {
    let font = theme::font_bold();
    let ops: Vec<Op> = vec![
        Op::Text(b"hello"),
        Op::Color(Color(3)),
        Op::Font(font),
        Op::Text(b"world"),
    ];
    let skipped = Op::skip_n_text_bytes(&ops, 7);
    assert_eq!(skipped.len(), 3);
    assert!(matches!(skipped[0], Op::Color(Color(3))));
    assert!(matches!(skipped[1], Op::Font(_)));
    match &skipped[2] {
        Op::Text(t) => assert_eq!(*t, b"rld"),
        _ => panic!("the partially skipped run keeps its tail"),
    }

    // Skipping nothing passes everything through.
    let kept = Op::skip_n_text_bytes(&ops, 0);
    assert_eq!(kept.len(), 4);
    assert!(matches!(kept[0], Op::Text(b"hello")));

    // Skipping more than the total text drops every text directive.
    let all = Op::skip_n_text_bytes(&ops, 100);
    assert_eq!(all.len(), 2);
    assert!(matches!(all[0], Op::Color(_)));
    assert!(matches!(all[1], Op::Font(_)));
}

#[test]
fn measurement_probe_detects_overflow() {
    // 30 glyphs of 8px in an 80px-wide, 40px-tall area cannot fit.
    let text = Text::new(Rect::new(0, 0, 80, 40))
        .format("aaaaaaaaaa bbbbbbbbbb cccccccccc");
    let mut probe = TextNoop::new();
    let fit = text.layout_content(&mut probe);
    assert!(matches!(fit, LayoutFit::OutOfBounds { .. }));
}
