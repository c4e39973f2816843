//! The text block: a format string, a bounded argument table and a layout
//! configuration, with the built-in argument resolution rules.

use vstd::prelude::*;
use vstd::string::StringSliceAdditionalSpecFns;

use crate::display::Font;
use crate::geometry::Rect;
use crate::layout::{
    resolve_ops_spec, resolver_ok, stream_rec, trace_render, LayoutFit, LayoutM, LayoutSink,
    OpResolver, PageBreaking, StreamRun, TextLayout, TextRenderer, TraceSink, MAX_ARG_LEN,
    MAX_FORMAT_LEN,
};
use crate::span::LineBreaking;
use crate::op::{Op, OpM};
use crate::theme;
use crate::token::{lemma_tokens_from_lens, token_bytes, tokens_from, Token, TokenM};

verus! {

/// The argument table's fixed capacity: a seventh distinct key is silently
/// dropped.
pub const MAX_ARGUMENTS: usize = 6;

/// Fixed-capacity argument table with unique keys: a `heapless` linear map
/// from argument names to argument values, capacity `MAX_ARGUMENTS`.
#[verifier::external_body]
pub struct ArgTable {
    inner: heapless::LinearMap<&'static [u8], &'static [u8], 6>,
}

/// What the table holds: its entries, as a map from key bytes to value
/// bytes.
pub uninterp spec fn arg_entries(t: ArgTable) -> Map<Seq<u8>, Seq<u8>>;

impl View for ArgTable {
    type V = Map<Seq<u8>, Seq<u8>>;

    open spec fn view(&self) -> Map<Seq<u8>, Seq<u8>> {
        arg_entries(*self)
    }
}

/// A table with no entries.
pub open spec fn no_args() -> Map<Seq<u8>, Seq<u8>> {
    Map::empty()
}

/// Relies on heapless::LinearMap::new; what a fresh map holds is stated by
/// `arg_table_clear`, which every construction goes through.
#[verifier::external_body]
fn arg_table_new() -> ArgTable {
    ArgTable { inner: heapless::LinearMap::new() }
}

/// Relies on heapless::LinearMap::clear: afterwards the map holds nothing.
#[verifier::external_body]
fn arg_table_clear(t: &mut ArgTable)
    ensures
        final(t)@ == no_args(),
        final(t)@.dom().finite(),
{
    t.inner.clear()
}

/// Relies on heapless::LinearMap::insert: an existing key's value is
/// replaced; a new key is added while there is room, and refused when the
/// map is full.
#[verifier::external_body]
fn arg_table_insert(t: &mut ArgTable, key: &'static [u8], value: &'static [u8]) -> (r: bool)
    ensures
        final(t)@.dom().finite(),
        final(t)@.dom().len() <= MAX_ARGUMENTS as int,
        ({
            let e = old(t)@;
            &&& (e.dom().contains(key@) || e.dom().len() < MAX_ARGUMENTS as int ==> r
                && final(t)@ == e.insert(key@, value@))
            &&& (!e.dom().contains(key@) && e.dom().len() >= MAX_ARGUMENTS as int ==> !r
                && final(t)@ == e)
        }),
{
    match t.inner.insert(key, value) {
        Ok(_) => true,
        Err(_) => false,
    }
}

/// Relies on heapless::LinearMap::get: the value stored under a key, if any.
#[verifier::external_body]
fn arg_table_get(t: &ArgTable, key: &[u8]) -> (r: Option<&'static [u8]>)
    ensures
        match r {
            Some(v) => t@.dom().contains(key@) && v@ == t@[key@],
            None => !t@.dom().contains(key@),
        },
{
    match t.inner.get(key) {
        Some(v) => Some(v),
        None => None,
    }
}

/// Relies on heapless::LinearMap::len: the number of entries.
#[verifier::external_body]
fn arg_table_len(t: &ArgTable) -> (n: usize)
    ensures
        n as int == arg_entries(*t).dom().len(),
{
    t.inner.len()
}

/// What inserting into the table leaves behind: the entry goes in when its
/// key is already present or there is room; a seventh distinct key is
/// silently dropped.
pub open spec fn table_insert_spec(
    e: Map<Seq<u8>, Seq<u8>>,
    k: Seq<u8>,
    v: Seq<u8>,
) -> Map<Seq<u8>, Seq<u8>> {
    if e.dom().contains(k) || e.dom().len() < MAX_ARGUMENTS as int {
        e.insert(k, v)
    } else {
        e
    }
}

/// Inserting a distinct seventh key into a table that already holds six
/// entries leaves the table exactly as it was.
pub proof fn lemma_full_table_drops_new_key(e: Map<Seq<u8>, Seq<u8>>, k: Seq<u8>, v: Seq<u8>)
    requires
        e.dom().finite(),
        e.dom().len() == MAX_ARGUMENTS as int,
        !e.dom().contains(k),
    ensures
        table_insert_spec(e, k, v) == e,
{
}

pub open spec fn kw_mono() -> Seq<u8> {
    seq![109u8, 111u8, 110u8, 111u8]
}

pub open spec fn kw_bold() -> Seq<u8> {
    seq![98u8, 111u8, 108u8, 100u8]
}

pub open spec fn kw_normal() -> Seq<u8> {
    seq![110u8, 111u8, 114u8, 109u8, 97u8, 108u8]
}

fn is_mono(name: &[u8]) -> (r: bool)
    ensures
        r == (name@ == kw_mono()),
{
    if name.len() == 4 && name[0] == 109 && name[1] == 111 && name[2] == 110 && name[3] == 111 {
        proof {
            assert(name@ =~= kw_mono());
        }
        true
    } else {
        proof {
            assert(name@ != kw_mono());
        }
        false
    }
}

fn is_bold(name: &[u8]) -> (r: bool)
    ensures
        r == (name@ == kw_bold()),
{
    if name.len() == 4 && name[0] == 98 && name[1] == 111 && name[2] == 108 && name[3] == 100 {
        proof {
            assert(name@ =~= kw_bold());
        }
        true
    } else {
        proof {
            assert(name@ != kw_bold());
        }
        false
    }
}

fn is_normal(name: &[u8]) -> (r: bool)
    ensures
        r == (name@ == kw_normal()),
{
    if name.len() == 6 && name[0] == 110 && name[1] == 111 && name[2] == 114 && name[3] == 109
        && name[4] == 97 && name[5] == 108 {
        proof {
            assert(name@ =~= kw_normal());
        }
        true
    } else {
        proof {
            assert(name@ != kw_normal());
        }
        false
    }
}

/// Mathematical model of a `Text` component: its layout configuration, its
/// format string's bytes, and its argument table's entries.
pub struct TextM {
    pub layout: LayoutM,
    pub format: Seq<u8>,
    pub args: Map<Seq<u8>, Seq<u8>>,
}

/// A block of formatted text with argument substitution: a format string, a
/// bounded argument table, and the layout configuration.
pub struct Text {
    layout: TextLayout,
    format: &'static str,
    args: ArgTable,
}

impl View for Text {
    type V = TextM;

    closed spec fn view(&self) -> TextM {
        TextM {
            layout: self.layout@,
            format: self.format.spec_bytes(),
            args: self.args@,
        }
    }
}

impl Text {
    pub open spec fn wf(&self) -> bool {
        &&& self@.layout.wf()
        &&& self@.format.len() <= MAX_FORMAT_LEN as int
        &&& self@.args.dom().finite()
        &&& self@.args.dom().len() <= MAX_ARGUMENTS as int
        &&& forall|k: Seq<u8>| self@.args.dom().contains(k)
            ==> #[trigger] self@.args[k].len() <= MAX_ARG_LEN as int
    }

    /// A new text block over `area`, with an empty format string, no
    /// arguments, and the theme's default layout.
    pub fn new(area: Rect) -> (r: Text)
        ensures
            r@.layout == crate::layout::default_layout_spec(area),
            r@.format == Seq::<u8>::empty(),
            r@.args == Map::<Seq<u8>, Seq<u8>>::empty(),
            area.wf() ==> r.wf(),
    {
        let mut args = arg_table_new();
        arg_table_clear(&mut args);
        let r = Text { layout: TextLayout::new(area), format: "", args };
        proof {
            reveal_strlit("");
            assert(r@.format =~= Seq::<u8>::empty());
            assert(Map::<Seq<u8>, Seq<u8>>::empty().dom() =~= Set::<Seq<u8>>::empty());
        }
        r
    }

    /// Set the format string.
    pub fn format(self, format: &'static str) -> (r: Text)
        ensures
            r@ == (TextM { format: format.spec_bytes(), ..self@ }),
            self.wf() && format.spec_bytes().len() <= MAX_FORMAT_LEN as int ==> r.wf(),
    {
        Text { format, ..self }
    }

    /// Bind an argument value to a key. An existing key's value is replaced;
    /// a seventh distinct key is silently ignored, and the builder still
    /// succeeds.
    pub fn with(self, key: &'static [u8], value: &'static [u8]) -> (r: Text)
        ensures
            r@ == (TextM { args: table_insert_spec(self@.args, key@, value@), ..self@ }),
            self.wf() && value@.len() <= MAX_ARG_LEN as int ==> r.wf(),
    {
        let mut this = self;
        let ok = arg_table_insert(&mut this.args, key, value);
        if !ok {
            // The table is full: the entry is dropped.
        }
        this
    }

    /// Set the text font.
    pub fn with_text_font(self, text_font: Font) -> (r: Text)
        ensures
            r@ == (TextM {
                layout: (LayoutM { text_font: text_font@, ..self@.layout }),
                ..self@
            }),
            self.wf() && text_font@.wf() ==> r.wf(),
    {
        let mut this = self;
        this.layout.text_font = text_font;
        this
    }

    /// Set the text color.
    pub fn with_text_color(self, text_color: crate::display::Color) -> (r: Text)
        ensures
            r@ == (TextM {
                layout: (LayoutM { text_color, ..self@.layout }),
                ..self@
            }),
            self.wf() ==> r.wf(),
    {
        let mut this = self;
        this.layout.text_color = text_color;
        this
    }

    /// Set the line-breaking strategy.
    pub fn with_line_breaking(self, line_breaking: LineBreaking) -> (r: Text)
        ensures
            r@ == (TextM {
                layout: (LayoutM { line_breaking, ..self@.layout }),
                ..self@
            }),
            self.wf() ==> r.wf(),
    {
        let mut this = self;
        this.layout.line_breaking = line_breaking;
        this
    }

    /// Set the page-breaking strategy.
    pub fn with_page_breaking(self, page_breaking: PageBreaking) -> (r: Text)
        ensures
            r@ == (TextM {
                layout: (LayoutM { page_breaking, ..self@.layout }),
                ..self@
            }),
            self.wf() ==> r.wf(),
    {
        let mut this = self;
        this.layout.page_breaking = page_breaking;
        this
    }

    /// Direct access to the stored layout configuration.
    pub fn layout_mut(&mut self) -> (r: &mut TextLayout)
        ensures
            r@ == old(self)@.layout,
            final(self)@.layout == final(r)@,
            final(self)@.format == old(self)@.format,
            final(self)@.args == old(self)@.args,
    {
        &mut self.layout
    }

    /// How many arguments the table holds.
    pub fn arg_count(&self) -> (n: usize)
        ensures
            n as int == self@.args.dom().len(),
    {
        arg_table_len(&self.args)
    }

    /// The layout events one pass over this block produces.
    pub open spec fn content_model(&self) -> StreamRun {
        stream_rec(
            self@.layout,
            resolve_ops_spec(self, tokens_from(self@.format, 0)),
            self@.layout.bounds.x0 as int,
            self@.layout.bounds.y0 + self@.layout.text_font.line_height,
        )
    }

    /// Run one layout pass over a working copy of the stored configuration,
    /// reporting every event to `sink`.
    pub fn layout_content<S: LayoutSink>(&self, sink: &mut S) -> (r: LayoutFit)
        requires
            self.wf(),
            old(sink).inv(),
        ensures
            final(sink).inv(),
            final(sink).events() == old(sink).events() + self.content_model().events,
            match r {
                LayoutFit::Fitting { processed_chars } => !self.content_model().oob
                    && processed_chars as int == self.content_model().processed,
                LayoutFit::OutOfBounds { processed_chars } => self.content_model().oob
                    && processed_chars as int == self.content_model().processed,
            },
    {
        proof {
            let toks = tokens_from(self@.format, 0);
            lemma_tokens_from_lens(self@.format, 0);
            assert(theme::font_mono_spec().wf());
            assert(theme::font_bold_spec().wf());
            assert(theme::font_normal_spec().wf());
            assert forall|k: int| 0 <= k < toks.len() implies (match self.resolve_spec(
                #[trigger] toks[k]) {
                Some(OpM::Font(f)) => f.wf(),
                Some(OpM::Text(t)) => t.len() <= MAX_ARG_LEN as int,
                _ => true,
            }) by {
                let t = toks[k];
                assert(token_bytes(t).len() <= self@.format.len());
                match t {
                    TokenM::Literal(_s) => {},
                    TokenM::Argument(name) => {
                        if self@.args.dom().contains(name) {
                            assert(self@.args[name].len() <= MAX_ARG_LEN as int);
                        }
                    },
                }
            }
            assert(resolver_ok(self, toks));
        }
        self.layout.working_copy().layout_formatted(self.format, self, sink)
    }

    /// Run one layout pass with the rendering sink and return it; its draw
    /// requests are what a display driver paints. The pass's fit result is
    /// discarded.
    pub fn paint(&self) -> (r: TextRenderer)
        requires
            self.wf(),
        ensures
            r.inv(),
            r.events() == self.content_model().events,
    {
        let mut renderer = TextRenderer::new();
        let _fit = self.layout_content(&mut renderer);
        proof {
            assert(Seq::<crate::layout::Ev>::empty() + self.content_model().events
                =~= self.content_model().events);
        }
        renderer
    }
}

impl OpResolver for Text {
    /// The built-in resolution rules: a literal passes through as text, the
    /// three font keywords switch the font, any other name is looked up in
    /// the argument table, and an unknown name yields nothing.
    open spec fn resolve_spec(&self, t: TokenM) -> Option<OpM> {
        match t {
            TokenM::Literal(s) => Some(OpM::Text(s)),
            TokenM::Argument(name) => {
                if name == kw_mono() {
                    Some(OpM::Font(theme::font_mono_spec()))
                } else if name == kw_bold() {
                    Some(OpM::Font(theme::font_bold_spec()))
                } else if name == kw_normal() {
                    Some(OpM::Font(theme::font_normal_spec()))
                } else if self@.args.dom().contains(name) {
                    Some(OpM::Text(self@.args[name]))
                } else {
                    None
                }
            },
        }
    }

    fn resolve<'a>(&'a self, token: Token<'a>) -> (r: Option<Op<'a>>) {
        match token {
            Token::Literal(literal) => Some(Op::Text(literal)),
            Token::Argument(name) => {
                if is_mono(name) {
                    Some(Op::Font(theme::font_mono()))
                } else if is_bold(name) {
                    Some(Op::Font(theme::font_bold()))
                } else if is_normal(name) {
                    Some(Op::Font(theme::font_normal()))
                } else {
                    match arg_table_get(&self.args, name) {
                        Some(value) => Some(Op::Text(value)),
                        None => None,
                    }
                }
            },
        }
    }
}

/// Serializes a text block's layout events for debugging.
pub struct TraceText<'a>(pub &'a Text);

impl<'a> TraceText<'a> {
    /// One pass over the block with a trace sink: the returned sink's
    /// output buffer holds the serialized events.
    pub fn trace(&self) -> (t: TraceSink)
        requires
            self.0.wf(),
        ensures
            t.inv(),
            t.events() == self.0.content_model().events,
            t.output@ == trace_render(self.0.content_model().events),
    {
        let mut sink = TraceSink::new();
        let _fit = self.0.layout_content(&mut sink);
        proof {
            assert(Seq::<crate::layout::Ev>::empty() + self.0.content_model().events
                =~= self.0.content_model().events);
        }
        sink
    }
}

} // verus!
