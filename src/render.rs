//! Turns hover contents into one flat text with styled byte ranges and links.
//!
//! The renderer is specified as a fold: `render_seq` over the blocks, and
//! `md_fold` over the events of each markdown block. Syntax highlighting of
//! code is an input: the i-th code segment met (see `code_segments`) takes the
//! i-th entry of the highlight table, `None` when its language is unknown.

use crate::markdown::{markdown_events, parse_markdown, MdEvent, MdTag};
use crate::style::HighlightStyle;
use crate::text::{
    byte_len, ends_in_blank_line, is_prefix, lemma_boundary_encode, lemma_boundary_shift, lemma_encode_concat,
    lemma_prefix_grow, lemma_prefix_refl, lemma_prefix_trans, on_boundary, TextBuf,
};
use std::ops::Range;
use vstd::prelude::*;
use vstd::utf8::{encode_utf8, is_char_boundary};

verus! {

/// How the text of a hover block is to be read.
#[derive(Clone, Debug, PartialEq, Eq)]
pub enum HoverBlockKind {
    PlainText,
    Markdown,
    Code { language: String },
}

/// One piece of hover contents, as the language backend returned it.
#[derive(Clone, Debug, PartialEq, Eq)]
pub struct HoverBlock {
    pub text: String,
    pub kind: HoverBlockKind,
}

/// A stretch of code to be syntax highlighted, with its language name.
#[derive(Clone, Debug, PartialEq, Eq)]
pub struct CodeSegment {
    pub language: String,
    pub text: String,
}

/// Rendered hover contents: flat text, styled byte ranges of it, and links.
#[derive(Debug)]
pub struct RenderedInfo {
    pub theme_id: usize,
    pub text: String,
    pub highlights: Vec<(Range<usize>, HighlightStyle)>,
    pub link_ranges: Vec<Range<usize>>,
    pub link_urls: Vec<String>,
}

/// What rendering has produced so far.
pub struct Output {
    pub text: Seq<char>,
    pub highlights: Seq<(Range<usize>, HighlightStyle)>,
    pub link_ranges: Seq<Range<usize>>,
    pub link_urls: Seq<String>,
    pub segments: Seq<CodeSegment>,
}

/// The nesting state while scanning one markdown block.
pub struct Scan {
    pub bold: nat,
    pub italic: nat,
    /// The open link: where its text starts, and its URL.
    pub link: Option<(usize, String)>,
    /// The language of the open fenced code block.
    pub fence: Option<String>,
    /// Open lists, innermost last: the next number of an ordered one.
    pub lists: Seq<Option<u64>>,
}

pub open spec fn empty_output() -> Output {
    Output {
        text: Seq::empty(),
        highlights: Seq::empty(),
        link_ranges: Seq::empty(),
        link_urls: Seq::empty(),
        segments: Seq::empty(),
    }
}

pub open spec fn fresh_scan() -> Scan {
    Scan { bold: 0, italic: 0, link: None, fence: None, lists: Seq::empty() }
}

/// Byte offset of the end of the text so far.
pub open spec fn offset(o: Output) -> usize {
    byte_len(o.text) as usize
}

/// Starts a new paragraph: the text, unless empty, ends in a blank line; a
/// blank line already there is kept as it is.
pub open spec fn paragraph_break(t: Seq<char>) -> Seq<char> {
    if t.len() == 0 || ends_in_blank_line(t) {
        t
    } else if t.last() == '\n' {
        t.push('\n')
    } else {
        t.push('\n').push('\n')
    }
}

pub open spec fn paragraph(o: Output) -> Output {
    Output { text: paragraph_break(o.text), ..o }
}

/// The highlight table's entry for the code segment numbered `k`.
pub open spec fn code_spans(
    table: Seq<Option<Vec<(Range<usize>, HighlightStyle)>>>,
    k: int,
) -> Option<Seq<(Range<usize>, HighlightStyle)>> {
    if 0 <= k < table.len() {
        match table[k] {
            Some(v) => Some(v@),
            None => None,
        }
    } else {
        None
    }
}

/// Spans of a code segment, moved to start at `base`. A span is kept only
/// where it lies within the segment, starts and ends on a character
/// boundary of it, and starts at or after the end of the last span kept.
pub open spec fn shift_spans(base: nat, content: Seq<char>, spans: Seq<(Range<usize>, HighlightStyle)>) -> Seq<
    (Range<usize>, HighlightStyle),
>
    decreases spans.len(),
{
    if spans.len() == 0 {
        Seq::empty()
    } else {
        let rest = shift_spans(base, content, spans.drop_last());
        let r = spans.last().0;
        let bytes = encode_utf8(content);
        if r.start <= r.end && r.end <= bytes.len() && is_char_boundary(bytes, r.start as int)
            && is_char_boundary(bytes, r.end as int) && (rest.len() == 0 || rest.last().0.end <= base
            + r.start) {
            rest.push(
                (Range { start: (base + r.start) as usize, end: (base + r.end) as usize }, spans.last().1),
            )
        } else {
            rest
        }
    }
}

/// Highlights lie within the first `bound` bytes, and come in text order
/// without overlapping.
pub open spec fn highlights_wf(h: Seq<(Range<usize>, HighlightStyle)>, bound: nat) -> bool {
    &&& forall|i: int| 0 <= i < h.len() ==> (#[trigger] h[i]).0.start <= h[i].0.end && h[i].0.end <= bound
    &&& forall|i: int, j: int| 0 <= i < j < h.len() ==> (#[trigger] h[i]).0.end <= (#[trigger] h[j]).0.start
}

/// Link ranges pair up with URLs by index and lie within the first `bound` bytes.
pub open spec fn links_wf(ranges: Seq<Range<usize>>, urls: Seq<String>, bound: nat) -> bool {
    &&& ranges.len() == urls.len()
    &&& forall|i: int| 0 <= i < ranges.len() ==> (#[trigger] ranges[i]).start <= ranges[i].end && ranges[i].end
        <= bound
}

/// The rendering invariant: highlights and links are valid ranges of the text.
pub open spec fn output_wf(o: Output) -> bool {
    &&& highlights_wf(o.highlights, byte_len(o.text))
    &&& links_wf(o.link_ranges, o.link_urls, byte_len(o.text))
    &&& boundaries_wf(o)
}

/// Highlights and links start and end on character boundaries of the text.
pub open spec fn boundaries_wf(o: Output) -> bool {
    &&& forall|i: int|
        0 <= i < o.highlights.len() ==> on_boundary(o.text, (#[trigger] o.highlights[i]).0.start as int)
            && on_boundary(o.text, o.highlights[i].0.end as int)
    &&& forall|i: int|
        0 <= i < o.link_ranges.len() ==> on_boundary(o.text, (#[trigger] o.link_ranges[i]).start as int)
            && on_boundary(o.text, o.link_ranges[i].end as int)
}

/// The invariant survives text appended after it.
proof fn lemma_grow(o: Output, t: Seq<char>)
    requires
        output_wf(o),
        is_prefix(o.text, t),
    ensures
        output_wf(Output { text: t, ..o }),
        byte_len(o.text) <= byte_len(t),
        on_boundary(t, byte_len(o.text) as int),
        on_boundary(t, byte_len(t) as int),
{
    lemma_prefix_grow(o.text, t);
}

pub open spec fn push_highlighted(
    o: Output,
    content: Seq<char>,
    spans: Seq<(Range<usize>, HighlightStyle)>,
) -> Output {
    Output {
        text: o.text + content,
        highlights: o.highlights + shift_spans(byte_len(o.text), content, spans),
        ..o
    }
}

/// Appends `t` in `style`; a plain style adds no highlight, and a highlight
/// that ends where `t` starts, in the same style, is extended over it.
pub open spec fn push_styled(o: Output, t: Seq<char>, style: HighlightStyle) -> Output {
    let start = offset(o);
    let end = byte_len(o.text + t) as usize;
    let text = o.text + t;
    let n = o.highlights.len();
    if style == HighlightStyle::plain() {
        Output { text, ..o }
    } else if n > 0 && o.highlights[n - 1].0.end == start && o.highlights[n - 1].1 == style {
        Output {
            text,
            highlights: o.highlights.update(
                n - 1,
                (Range { start: o.highlights[n - 1].0.start, end }, style),
            ),
            ..o
        }
    } else {
        Output { text, highlights: o.highlights.push((Range { start, end }, style)), ..o }
    }
}

pub open spec fn code_span_style() -> HighlightStyle {
    HighlightStyle { color: Some(crate::style::CODE_SPAN_COLOR), bold: false, italic: false, underline: false }
}

/// Appends an inline code span with its fixed style.
pub open spec fn push_code_span(o: Output, t: Seq<char>) -> Output {
    Output {
        text: o.text + t,
        highlights: o.highlights.push(
            (Range { start: offset(o), end: byte_len(o.text + t) as usize }, code_span_style()),
        ),
        ..o
    }
}

pub open spec fn push_segment(o: Output, language: String, text: String) -> Output {
    Output { segments: o.segments.push(CodeSegment { language, text }), ..o }
}

/// Appends a code segment: highlighted where its language is known, else verbatim.
pub open spec fn push_code(
    o: Output,
    language: String,
    content: String,
    table: Seq<Option<Vec<(Range<usize>, HighlightStyle)>>>,
) -> Output {
    let o1 = push_segment(o, language, content);
    match code_spans(table, o.segments.len() as int) {
        Some(spans) => push_highlighted(o1, content@, spans),
        None => Output { text: o1.text + content@, ..o1 },
    }
}

pub open spec fn prose_style(s: Scan) -> HighlightStyle {
    HighlightStyle::nesting(s.bold > 0, s.italic > 0, s.link is Some)
}

pub open spec fn spaces(n: nat) -> Seq<char> {
    Seq::new(n, |i: int| ' ')
}

pub open spec fn digit_char(d: nat) -> char {
    if d == 0 { '0' } else if d == 1 { '1' } else if d == 2 { '2' } else if d == 3 { '3' }
    else if d == 4 { '4' } else if d == 5 { '5' } else if d == 6 { '6' } else if d == 7 { '7' }
    else if d == 8 { '8' } else { '9' }
}

/// Decimal digits of `n`, most significant first.
pub open spec fn decimal(n: nat) -> Seq<char>
    decreases n,
{
    if n < 10 {
        seq![digit_char(n)]
    } else {
        decimal(n / 10).push(digit_char(n % 10))
    }
}

/// The prefix of a list item: `"<n>. "` in an ordered list, `"* "` otherwise.
pub open spec fn item_marker(n: Option<u64>) -> Seq<char> {
    match n {
        Some(k) => decimal(k as nat) + seq!['.', ' '],
        None => seq!['*', ' '],
    }
}

pub open spec fn next_number(n: u64) -> u64 {
    if n == u64::MAX { 0 } else { (n + 1) as u64 }
}

pub open spec fn less_one(n: nat) -> nat {
    if n > 0 { (n - 1) as nat } else { 0 }
}

/// Starts a list item in the innermost open list; outside a list, nothing.
pub open spec fn start_item(o: Output, s: Scan) -> (Output, Scan) {
    if s.lists.len() > 0 {
        let last = s.lists.len() - 1;
        let n = s.lists[last];
        let text = paragraph_break(o.text) + spaces(2 * last as nat) + item_marker(n);
        let lists = match n {
            Some(k) => s.lists.update(last, Some(next_number(k))),
            None => s.lists,
        };
        (Output { text, ..o }, Scan { lists, ..s })
    } else {
        (o, s)
    }
}

pub open spec fn end_link(o: Output, s: Scan) -> (Output, Scan) {
    match s.link {
        Some(l) => (
            Output {
                link_ranges: o.link_ranges.push(Range { start: l.0, end: offset(o) }),
                link_urls: o.link_urls.push(l.1),
                ..o
            },
            Scan { link: None, ..s },
        ),
        None => (o, s),
    }
}

/// The effect of one markdown event.
pub open spec fn md_step(
    o: Output,
    s: Scan,
    e: MdEvent,
    table: Seq<Option<Vec<(Range<usize>, HighlightStyle)>>>,
) -> (Output, Scan) {
    match e {
        MdEvent::Text(t) => match s.fence {
            Some(lang) => match code_spans(table, o.segments.len() as int) {
                Some(spans) => (push_highlighted(push_segment(o, lang, t), t@, spans), s),
                None => (push_styled(push_segment(o, lang, t), t@, prose_style(s)), s),
            },
            None => (push_styled(o, t@, prose_style(s)), s),
        },
        MdEvent::Code(t) => (push_code_span(o, t@), s),
        MdEvent::Start(tag) => match tag {
            MdTag::Paragraph => (paragraph(o), s),
            MdTag::Heading => (paragraph(o), Scan { bold: s.bold + 1, ..s }),
            MdTag::FencedCode(l) => (paragraph(o), Scan { fence: Some(l), ..s }),
            MdTag::IndentedCode => (paragraph(o), s),
            MdTag::Emphasis => (o, Scan { italic: s.italic + 1, ..s }),
            MdTag::Strong => (o, Scan { bold: s.bold + 1, ..s }),
            MdTag::Link(url) => (o, Scan { link: Some((offset(o), url)), ..s }),
            MdTag::List(n) => (o, Scan { lists: s.lists.push(n), ..s }),
            MdTag::Item => start_item(o, s),
            MdTag::Other => (o, s),
        },
        MdEvent::End(tag) => match tag {
            MdTag::Heading => (o, Scan { bold: less_one(s.bold), ..s }),
            MdTag::Strong => (o, Scan { bold: less_one(s.bold), ..s }),
            MdTag::Emphasis => (o, Scan { italic: less_one(s.italic), ..s }),
            MdTag::FencedCode(_) => (o, Scan { fence: None, ..s }),
            MdTag::IndentedCode => (o, Scan { fence: None, ..s }),
            MdTag::Link(_) => end_link(o, s),
            MdTag::List(_) => (o, Scan { lists: if s.lists.len() > 0 { s.lists.drop_last() } else { s.lists }, ..s }),
            _ => (o, s),
        },
        MdEvent::HardBreak => (Output { text: o.text.push('\n'), ..o }, s),
        MdEvent::SoftBreak => (Output { text: o.text.push(' '), ..o }, s),
        MdEvent::Other => (o, s),
    }
}

/// The effect of a run of markdown events, in order.
pub open spec fn md_fold(
    o: Output,
    s: Scan,
    events: Seq<MdEvent>,
    table: Seq<Option<Vec<(Range<usize>, HighlightStyle)>>>,
) -> (Output, Scan)
    decreases events.len(),
{
    if events.len() == 0 {
        (o, s)
    } else {
        let p = md_fold(o, s, events.drop_last(), table);
        md_step(p.0, p.1, events.last(), table)
    }
}

/// The effect of one hover block.
pub open spec fn render_block(
    o: Output,
    b: HoverBlock,
    table: Seq<Option<Vec<(Range<usize>, HighlightStyle)>>>,
) -> Output {
    match b.kind {
        HoverBlockKind::PlainText => Output { text: paragraph_break(o.text) + b.text@, ..o },
        HoverBlockKind::Markdown => md_fold(o, fresh_scan(), markdown_events(b.text@), table).0,
        HoverBlockKind::Code { language } => push_code(o, language, b.text, table),
    }
}

/// The rendering of a sequence of hover blocks, in order.
pub open spec fn render_seq(
    blocks: Seq<HoverBlock>,
    table: Seq<Option<Vec<(Range<usize>, HighlightStyle)>>>,
) -> Output
    decreases blocks.len(),
{
    if blocks.len() == 0 {
        empty_output()
    } else {
        render_block(render_seq(blocks.drop_last(), table), blocks.last(), table)
    }
}

/// Starts a new paragraph: unless the text is empty or already ends in a
/// blank line, it is made to end in one.
pub fn new_paragraph(text: &mut TextBuf)
    requires
        old(text).wf(),
    ensures
        final(text).wf(),
        final(text).chars@ == paragraph_break(old(text).chars@),
        is_prefix(old(text).chars@, final(text).chars@),
{
    proof {
        lemma_prefix_refl(text.chars@);
    }
    if !text.is_empty() && !text.ends_with_blank_line() {
        if !text.ends_with_newline() {
            text.push_ascii('\n');
        }
        let ghost mid = text.chars@;
        text.push_ascii('\n');
        proof {
            lemma_prefix_trans(old(text).chars@, mid, text.chars@);
        }
    }
}

/// Appends the decimal digits of `n`.
fn push_decimal(text: &mut TextBuf, n: u64)
    requires
        old(text).wf(),
    ensures
        final(text).wf(),
        final(text).chars@ == old(text).chars@ + decimal(n as nat),
        is_prefix(old(text).chars@, final(text).chars@),
    decreases n,
{
    proof {
        lemma_prefix_refl(text.chars@);
    }
    if n >= 10 {
        push_decimal(text, n / 10);
    }
    let ghost mid = text.chars@;
    let d = n % 10;
    let c = if d == 0 { '0' } else if d == 1 { '1' } else if d == 2 { '2' } else if d == 3 { '3' }
        else if d == 4 { '4' } else if d == 5 { '5' } else if d == 6 { '6' } else if d == 7 { '7' }
        else if d == 8 { '8' } else { '9' };
    text.push_ascii(c);
    proof {
        lemma_prefix_trans(old(text).chars@, mid, text.chars@);
        if n >= 10 {
            assert(decimal(n as nat) == decimal((n / 10) as nat).push(digit_char((n % 10) as nat)));
        }
        assert(text.chars@ =~= old(text).chars@ + decimal(n as nat));
    }
}

/// Rendering in progress.
struct Renderer {
    text: TextBuf,
    highlights: Vec<(Range<usize>, HighlightStyle)>,
    link_ranges: Vec<Range<usize>>,
    link_urls: Vec<String>,
    segments: Vec<CodeSegment>,
}

/// Scan state of one markdown block.
struct ScanState {
    bold: usize,
    italic: usize,
    link: Option<(usize, String)>,
    fence: Option<String>,
    lists: Vec<Option<u64>>,
}

impl ScanState {
    spec fn view(&self) -> Scan {
        Scan {
            bold: self.bold as nat,
            italic: self.italic as nat,
            link: self.link,
            fence: self.fence,
            lists: self.lists@,
        }
    }
}

impl Renderer {
    spec fn wf(&self) -> bool {
        self.text.wf()
    }

    spec fn inv(&self) -> bool {
        self.wf() && output_wf(self.model())
    }

    spec fn model(&self) -> Output {
        Output {
            text: self.text.chars@,
            highlights: self.highlights@,
            link_ranges: self.link_ranges@,
            link_urls: self.link_urls@,
            segments: self.segments@,
        }
    }

    fn new() -> (r: Renderer)
        ensures
            r.inv(),
            r.model() == empty_output(),
    {
        Renderer {
            text: TextBuf::new(),
            highlights: Vec::new(),
            link_ranges: Vec::new(),
            link_urls: Vec::new(),
            segments: Vec::new(),
        }
    }

    fn paragraph(&mut self)
        requires
            old(self).inv(),
        ensures
            final(self).inv(),
            is_prefix(old(self).text.chars@, final(self).text.chars@),
            final(self).model() == paragraph(old(self).model()),
    {
        new_paragraph(&mut self.text);
        proof {
            lemma_grow(old(self).model(), self.text.chars@);
        }
    }

    fn push_plain(&mut self, t: &str)
        requires
            old(self).inv(),
        ensures
            final(self).inv(),
            is_prefix(old(self).text.chars@, final(self).text.chars@),
            final(self).model() == (Output { text: old(self).model().text + t@, ..old(self).model() }),
    {
        self.text.push_str(t);
        proof {
            lemma_grow(old(self).model(), self.text.chars@);
        }
    }

    fn push_styled(&mut self, t: &str, style: HighlightStyle)
        requires
            old(self).inv(),
        ensures
            final(self).inv(),
            is_prefix(old(self).text.chars@, final(self).text.chars@),
            final(self).model() == push_styled(old(self).model(), t@, style),
    {
        let start = self.text.len();
        self.text.push_str(t);
        let end = self.text.len();
        proof {
            lemma_grow(old(self).model(), self.text.chars@);
        }
        if style == HighlightStyle::default_style() {
            return;
        }
        let n = self.highlights.len();
        if n > 0 && self.highlights[n - 1].0.end == start && self.highlights[n - 1].1 == style {
            let first = self.highlights[n - 1].0.start;
            self.highlights.pop();
            self.highlights.push((Range { start: first, end }, style));
            assert(self.highlights@ =~= old(self).highlights@.update(
                n - 1,
                (Range { start: first, end }, style),
            ));
            assert(highlights_wf(self.highlights@, byte_len(self.text.chars@))) by {
                let h0 = old(self).highlights@;
                let h = self.highlights@;
                assert forall|i: int, j: int| 0 <= i < j < h.len() implies (#[trigger] h[i]).0.end <= (
                #[trigger] h[j]).0.start by {
                    assert(h0[i].0.end <= h0[j].0.start);
                }
            }
        } else {
            self.highlights.push((Range { start, end }, style));
            assert(highlights_wf(self.highlights@, byte_len(self.text.chars@))) by {
                let h0 = old(self).highlights@;
                let h = self.highlights@;
                assert forall|i: int, j: int| 0 <= i < j < h.len() implies (#[trigger] h[i]).0.end <= (
                #[trigger] h[j]).0.start by {
                    if j < h0.len() {
                        assert(h0[i].0.end <= h0[j].0.start);
                    } else {
                        assert(h0[i].0.end <= start);
                    }
                }
            }
        }
    }

    fn push_code_span(&mut self, t: &str)
        requires
            old(self).inv(),
        ensures
            final(self).inv(),
            is_prefix(old(self).text.chars@, final(self).text.chars@),
            final(self).model() == push_code_span(old(self).model(), t@),
    {
        let start = self.text.len();
        self.text.push_str(t);
        let end = self.text.len();
        self.highlights.push((Range { start, end }, HighlightStyle::code_span()));
        proof {
            lemma_grow(old(self).model(), self.text.chars@);
            let h0 = old(self).highlights@;
            let h = self.highlights@;
            assert forall|i: int, j: int| 0 <= i < j < h.len() implies (#[trigger] h[i]).0.end <= (
            #[trigger] h[j]).0.start by {
                if j < h0.len() {
                    assert(h0[i].0.end <= h0[j].0.start);
                } else {
                    assert(h0[i].0.end <= start);
                }
            }
        }
    }

    /// Appends `content` with syntax highlight spans relative to its start.
    fn push_highlighted(&mut self, content: &str, spans: &Vec<(Range<usize>, HighlightStyle)>)
        requires
            old(self).inv(),
        ensures
            final(self).inv(),
            is_prefix(old(self).text.chars@, final(self).text.chars@),
            final(self).model() == push_highlighted(old(self).model(), content@, spans@),
    {
        let base = self.text.len();
        self.text.push_str(content);
        let total = self.text.len();
        proof {
            lemma_encode_concat(old(self).text.chars@, content@);
        }
        let limit = total - base;
        let ghost h0 = self.highlights@;
        proof {
            lemma_grow(old(self).model(), self.text.chars@);
        }
        let mut last_end: usize = base;
        let mut j: usize = 0;
        while j < spans.len()
            invariant
                self.wf(),
                j <= spans@.len(),
                base as nat == byte_len(old(self).text.chars@),
                limit as nat == byte_len(content@),
                base + limit == total,
                total as nat == byte_len(self.text.chars@),
                self.text.chars@ == old(self).text.chars@ + content@,
                self.link_ranges == old(self).link_ranges,
                self.link_urls == old(self).link_urls,
                self.segments == old(self).segments,
                output_wf(self.model()),
                h0 == old(self).highlights@,
                self.highlights@ == h0 + shift_spans(base as nat, content@, spans@.subrange(0, j as int)),
                shift_spans(base as nat, content@, spans@.subrange(0, j as int)).len() == 0 ==> last_end == base,
                shift_spans(base as nat, content@, spans@.subrange(0, j as int)).len() > 0 ==> last_end
                    == shift_spans(base as nat, content@, spans@.subrange(0, j as int)).last().0.end,
                base <= last_end <= total,
                forall|i: int| 0 <= i < self.highlights@.len() ==> (#[trigger] self.highlights@[i]).0.end <= last_end,
            decreases spans@.len() - j,
        {
            let r = &spans[j].0;
            let ghost sub = spans@.subrange(0, j as int + 1);
            assert(sub.drop_last() =~= spans@.subrange(0, j as int));
            if r.start <= r.end && r.end <= limit && content.is_char_boundary(r.start)
                && content.is_char_boundary(r.end) && base + r.start >= last_end {
                let ghost hb = self.highlights@;
                let start = base + r.start;
                self.highlights.push((Range { start, end: base + r.end }, spans[j].1));
                last_end = base + r.end;
                proof {
                    let h = self.highlights@;
                    lemma_boundary_encode(content@, r.start as int);
                    lemma_boundary_encode(content@, r.end as int);
                    lemma_boundary_shift(old(self).text.chars@, content@, r.start as int);
                    lemma_boundary_shift(old(self).text.chars@, content@, r.end as int);
                    assert forall|i: int| 0 <= i < h.len() implies on_boundary(self.text.chars@, (
                    #[trigger] h[i]).0.start as int) && on_boundary(self.text.chars@, h[i].0.end as int) by {
                        if i < hb.len() {
                            assert(h[i] == hb[i]);
                        }
                    }
                    assert forall|i: int, k: int| 0 <= i < k < h.len() implies (#[trigger] h[i]).0.end <= (
                    #[trigger] h[k]).0.start by {
                        if k < hb.len() {
                            assert(hb[i].0.end <= hb[k].0.start);
                        } else {
                            assert(hb[i].0.end <= start);
                        }
                    }
                    assert forall|i: int| 0 <= i < h.len() implies (#[trigger] h[i]).0.end <= last_end by {
                        if i < hb.len() {
                            assert(hb[i].0.end <= start);
                        }
                    }
                }
            }
            j = j + 1;
            assert(self.highlights@ =~= h0 + shift_spans(base as nat, content@, spans@.subrange(0, j as int)));
        }
        assert(spans@.subrange(0, j as int) =~= spans@);
        proof {
            crate::text::lemma_prefix_append(old(self).text.chars@, content@);
        }
    }

    /// Appends a code segment: highlighted where the table knows its
    /// language, else verbatim.
    fn push_code(&mut self, language: &String, content: &String, table: &Vec<Option<Vec<(Range<usize>, HighlightStyle)>>>)
        requires
            old(self).inv(),
        ensures
            final(self).inv(),
            is_prefix(old(self).text.chars@, final(self).text.chars@),
            final(self).model() == push_code(old(self).model(), *language, *content, table@),
    {
        let k = self.segments.len();
        self.segments.push(CodeSegment { language: language.clone(), text: content.clone() });
        if k < table.len() {
            match &table[k] {
                Some(spans) => {
                    self.push_highlighted(content.as_str(), spans);
                    return;
                },
                None => {},
            }
        }
        self.push_plain(content.as_str());
    }

    /// Starts a list item in the innermost open list.
    fn start_item(&mut self, scan: &mut ScanState)
        requires
            old(self).inv(),
        ensures
            final(self).inv(),
            is_prefix(old(self).text.chars@, final(self).text.chars@),
            (final(self).model(), final(scan).view()) == start_item(old(self).model(), old(scan).view()),
            final(scan).bold == old(scan).bold,
            final(scan).italic == old(scan).italic,
    {
        let len = scan.lists.len();
        if len == 0 {
            proof {
                lemma_prefix_refl(self.text.chars@);
            }
            return;
        }
        self.paragraph();
        let ghost p = self.text.chars@;
        let mut k: usize = 0;
        while k < len - 1
            invariant
                self.wf(),
                k <= len - 1,
                self.text.chars@ == p + spaces(2 * k as nat),
                self.highlights@ == old(self).highlights@,
                self.link_ranges@ == old(self).link_ranges@,
                self.link_urls@ == old(self).link_urls@,
                self.segments@ == old(self).segments@,
            decreases len - 1 - k,
        {
            self.text.push_ascii(' ');
            self.text.push_ascii(' ');
            k = k + 1;
            assert(self.text.chars@ =~= p + spaces(2 * k as nat));
        }
        let ghost q = self.text.chars@;
        match scan.lists[len - 1] {
            Some(n) => {
                push_decimal(&mut self.text, n);
                self.text.push_ascii('.');
                self.text.push_ascii(' ');
                let next = if n == u64::MAX { 0 } else { n + 1 };
                scan.lists.pop();
                scan.lists.push(Some(next));
                assert(scan.lists@ =~= old(scan).lists@.update(len - 1, Some(next)));
            },
            None => {
                self.text.push_ascii('*');
                self.text.push_ascii(' ');
            },
        }
        assert(self.text.chars@ =~= q + item_marker(old(scan).lists@[len - 1]));
        proof {
            let tail = spaces(2 * (len - 1) as nat) + item_marker(old(scan).lists@[len - 1]);
            assert(self.text.chars@ =~= p + tail);
            crate::text::lemma_prefix_append(p, tail);
            lemma_prefix_trans(old(self).text.chars@, p, self.text.chars@);
            lemma_grow(old(self).model(), self.text.chars@);
        }
    }

    /// Applies one markdown event.
    fn md_step(&mut self, scan: &mut ScanState, e: &MdEvent, table: &Vec<Option<Vec<(Range<usize>, HighlightStyle)>>>)
        requires
            old(self).inv(),
            old(scan).bold < usize::MAX,
            old(scan).italic < usize::MAX,
            old(scan).link matches Some(l) ==> l.0 <= byte_len(old(self).text.chars@) && on_boundary(
                old(self).text.chars@,
                l.0 as int,
            ),
        ensures
            final(scan).link matches Some(l) ==> l.0 <= byte_len(final(self).text.chars@) && on_boundary(
                final(self).text.chars@,
                l.0 as int,
            ),
            final(self).inv(),
            is_prefix(old(self).text.chars@, final(self).text.chars@),
            (final(self).model(), final(scan).view()) == md_step(old(self).model(), old(scan).view(), *e, table@),
            final(scan).bold <= old(scan).bold + 1,
            final(scan).italic <= old(scan).italic + 1,
    {
        proof {
            lemma_prefix_refl(self.text.chars@);
        }
        match e {
            MdEvent::Text(t) => {
                let style = HighlightStyle {
                    color: None,
                    bold: scan.bold > 0,
                    italic: scan.italic > 0,
                    underline: scan.link.is_some(),
                };
                match &scan.fence {
                    Some(lang) => {
                        let k = self.segments.len();
                        self.segments.push(CodeSegment { language: lang.clone(), text: t.clone() });
                        let highlighted = if k < table.len() {
                            match &table[k] {
                                Some(spans) => {
                                    self.push_highlighted(t.as_str(), spans);
                                    true
                                },
                                None => false,
                            }
                        } else {
                            false
                        };
                        if !highlighted {
                            self.push_styled(t.as_str(), style);
                        }
                    },
                    None => {
                        self.push_styled(t.as_str(), style);
                    },
                }
            },
            MdEvent::Code(t) => {
                self.push_code_span(t.as_str());
            },
            MdEvent::Start(tag) => match tag {
                MdTag::Paragraph => self.paragraph(),
                MdTag::Heading => {
                    self.paragraph();
                    scan.bold = scan.bold + 1;
                },
                MdTag::FencedCode(l) => {
                    self.paragraph();
                    scan.fence = Some(l.clone());
                },
                MdTag::IndentedCode => self.paragraph(),
                MdTag::Emphasis => scan.italic = scan.italic + 1,
                MdTag::Strong => scan.bold = scan.bold + 1,
                MdTag::Link(url) => {
                    let start = self.text.len();
                    scan.link = Some((start, url.clone()));
                },
                MdTag::List(n) => scan.lists.push(*n),
                MdTag::Item => self.start_item(scan),
                MdTag::Other => {},
            },
            MdEvent::End(tag) => match tag {
                MdTag::Heading | MdTag::Strong => {
                    if scan.bold > 0 {
                        scan.bold = scan.bold - 1;
                    }
                },
                MdTag::Emphasis => {
                    if scan.italic > 0 {
                        scan.italic = scan.italic - 1;
                    }
                },
                MdTag::FencedCode(_) | MdTag::IndentedCode => scan.fence = None,
                MdTag::Link(_) => {
                    match &scan.link {
                        Some(l) => {
                            let end = self.text.len();
                            self.link_ranges.push(Range { start: l.0, end });
                            self.link_urls.push(l.1.clone());
                            proof {
                                lemma_prefix_grow(self.text.chars@, self.text.chars@);
                                let r0 = old(self).link_ranges@;
                                let r = self.link_ranges@;
                                assert forall|i: int| 0 <= i < r.len() implies on_boundary(
                                    self.text.chars@,
                                    (#[trigger] r[i]).start as int,
                                ) && on_boundary(self.text.chars@, r[i].end as int) by {
                                    if i < r0.len() {
                                        assert(r[i] == r0[i]);
                                    }
                                }
                                assert forall|i: int| 0 <= i < r.len() implies (#[trigger] r[i]).start <= r[i].end
                                    && r[i].end <= byte_len(self.text.chars@) by {
                                    if i < r0.len() {
                                        assert(r[i] == r0[i]);
                                    }
                                }
                            }
                        },
                        None => {},
                    }
                    scan.link = None;
                },
                MdTag::List(_) => {
                    if scan.lists.len() > 0 {
                        scan.lists.pop();
                    }
                },
                _ => {},
            },
            MdEvent::HardBreak => {
                self.text.push_ascii('\n');
                proof {
                    lemma_grow(old(self).model(), self.text.chars@);
                }
            },
            MdEvent::SoftBreak => {
                self.text.push_ascii(' ');
                proof {
                    lemma_grow(old(self).model(), self.text.chars@);
                }
            },
            MdEvent::Other => {},
        }
        proof {
            lemma_prefix_grow(old(self).text.chars@, self.text.chars@);
        }
    }

    /// Applies the events of one markdown block, in order.
    fn md_events(&mut self, events: &Vec<MdEvent>, table: &Vec<Option<Vec<(Range<usize>, HighlightStyle)>>>)
        requires
            old(self).inv(),
        ensures
            final(self).inv(),
            is_prefix(old(self).text.chars@, final(self).text.chars@),
            final(self).model() == md_fold(old(self).model(), fresh_scan(), events@, table@).0,
    {
        let mut scan = ScanState { bold: 0, italic: 0, link: None, fence: None, lists: Vec::new() };
        proof {
            lemma_prefix_refl(self.text.chars@);
        }
        assert(scan.view() == fresh_scan());
        let mut i: usize = 0;
        while i < events.len()
            invariant
                self.inv(),
                is_prefix(old(self).text.chars@, self.text.chars@),
                scan.link matches Some(l) ==> l.0 <= byte_len(self.text.chars@) && on_boundary(
                    self.text.chars@,
                    l.0 as int,
                ),
                i <= events@.len(),
                scan.bold <= i,
                scan.italic <= i,
                (self.model(), scan.view()) == md_fold(old(self).model(), fresh_scan(), events@.subrange(0, i as int), table@),
            decreases events@.len() - i,
        {
            let ghost sub = events@.subrange(0, i as int + 1);
            assert(sub.drop_last() =~= events@.subrange(0, i as int));
            let ghost before = self.text.chars@;
            self.md_step(&mut scan, &events[i], table);
            proof {
                lemma_prefix_trans(old(self).text.chars@, before, self.text.chars@);
            }
            i = i + 1;
        }
        assert(events@.subrange(0, i as int) =~= events@);
    }

    fn block(&mut self, b: &HoverBlock, table: &Vec<Option<Vec<(Range<usize>, HighlightStyle)>>>)
        requires
            old(self).inv(),
        ensures
            final(self).inv(),
            is_prefix(old(self).text.chars@, final(self).text.chars@),
            final(self).model() == render_block(old(self).model(), *b, table@),
    {
        match &b.kind {
            HoverBlockKind::PlainText => {
                self.paragraph();
                let ghost mid = self.text.chars@;
                self.push_plain(b.text.as_str());
                proof {
                    lemma_prefix_trans(old(self).text.chars@, mid, self.text.chars@);
                }
            },
            HoverBlockKind::Markdown => {
                let events = parse_markdown(b.text.as_str());
                self.md_events(&events, table);
            },
            HoverBlockKind::Code { language } => {
                self.push_code(language, &b.text, table);
            },
        }
    }

    fn blocks(blocks: &[HoverBlock], table: &Vec<Option<Vec<(Range<usize>, HighlightStyle)>>>) -> (r: Renderer)
        ensures
            r.inv(),
            r.model() == render_seq(blocks@, table@),
    {
        let mut r = Renderer::new();
        let mut i: usize = 0;
        while i < blocks.len()
            invariant
                r.inv(),
                i <= blocks@.len(),
                r.model() == render_seq(blocks@.subrange(0, i as int), table@),
            decreases blocks@.len() - i,
        {
            let ghost sub = blocks@.subrange(0, i as int + 1);
            assert(sub.drop_last() =~= blocks@.subrange(0, i as int));
            r.block(&blocks[i], table);
            i = i + 1;
        }
        assert(blocks@.subrange(0, i as int) =~= blocks@);
        r
    }
}

/// The events of list items that each hold one text.
pub open spec fn item_events(items: Seq<String>) -> Seq<MdEvent>
    decreases items.len(),
{
    if items.len() == 0 {
        Seq::empty()
    } else {
        item_events(items.drop_last()) + seq![
            MdEvent::Start(MdTag::Item),
            MdEvent::Text(items.last()),
            MdEvent::End(MdTag::Item),
        ]
    }
}

/// The events of an ordered list that starts at `n`, whose items each hold one text.
pub open spec fn ordered_list_events(n: u64, items: Seq<String>) -> Seq<MdEvent> {
    seq![MdEvent::Start(MdTag::List(Some(n)))] + item_events(items) + seq![MdEvent::End(MdTag::List(Some(n)))]
}

/// `t` followed by the items, each on a new paragraph, indented by
/// `indent` and numbered on from `n`.
pub open spec fn numbered_items(t: Seq<char>, indent: Seq<char>, n: nat, items: Seq<String>) -> Seq<char>
    decreases items.len(),
{
    if items.len() == 0 {
        t
    } else {
        paragraph_break(numbered_items(t, indent, n, items.drop_last())) + indent + decimal(
            (n + items.len() - 1) as nat,
        ) + seq!['.', ' '] + items.last()@
    }
}

/// Folding a run of events in two parts is folding it whole.
pub proof fn lemma_fold_concat(
    o: Output,
    s: Scan,
    a: Seq<MdEvent>,
    b: Seq<MdEvent>,
    table: Seq<Option<Vec<(Range<usize>, HighlightStyle)>>>,
)
    ensures
        md_fold(o, s, a + b, table) == ({
            let p = md_fold(o, s, a, table);
            md_fold(p.0, p.1, b, table)
        }),
    decreases b.len(),
{
    if b.len() == 0 {
        assert(a + b =~= a);
    } else {
        assert((a + b).drop_last() =~= a + b.drop_last());
        assert((a + b).last() == b.last());
        lemma_fold_concat(o, s, a, b.drop_last(), table);
    }
}

proof fn lemma_items(
    o: Output,
    s: Scan,
    n: u64,
    items: Seq<String>,
    table: Seq<Option<Vec<(Range<usize>, HighlightStyle)>>>,
)
    requires
        s.fence is None,
        s.lists.len() > 0,
        s.lists.last() == Some(n),
        n + items.len() < u64::MAX,
    ensures
        md_fold(o, s, item_events(items), table).0.text == numbered_items(
            o.text,
            spaces(2 * (s.lists.len() - 1) as nat),
            n as nat,
            items,
        ),
        md_fold(o, s, item_events(items), table).1 == (Scan {
            lists: s.lists.update(s.lists.len() - 1, Some((n + items.len()) as u64)),
            ..s
        }),
    decreases items.len(),
{
    if items.len() == 0 {
        assert(item_events(items) =~= Seq::<MdEvent>::empty());
        assert(s.lists.update(s.lists.len() - 1, Some((n + 0) as u64)) =~= s.lists);
    } else {
        let init = items.drop_last();
        lemma_items(o, s, n, init, table);
        let ev = item_events(items);
        let prev = item_events(init);
        let e1 = MdEvent::Start(MdTag::Item);
        let e2 = MdEvent::Text(items.last());
        let e3 = MdEvent::End(MdTag::Item);
        assert(ev == prev + seq![e1, e2, e3]);
        assert(ev.drop_last() =~= prev + seq![e1, e2]);
        assert(ev.drop_last().drop_last() =~= prev + seq![e1]);
        assert(ev.drop_last().drop_last().drop_last() =~= prev);
        let f0 = md_fold(o, s, prev, table);
        let f1 = md_step(f0.0, f0.1, e1, table);
        let f2 = md_step(f1.0, f1.1, e2, table);
        let f3 = md_step(f2.0, f2.1, e3, table);
        assert(md_fold(o, s, prev + seq![e1], table) == f1);
        assert(md_fold(o, s, prev + seq![e1, e2], table) == f2);
        assert(md_fold(o, s, ev, table) == f3);
        let m = (n + init.len()) as u64;
        let last = s.lists.len() - 1;
        assert(f0.1.lists.len() == s.lists.len());
        assert(f0.1.lists[last] == Some(m));
        assert(f1 == start_item(f0.0, f0.1));
        assert(f1.1 == (Scan { lists: f0.1.lists.update(last, Some(next_number(m))), ..f0.1 }));
        assert(f1.0.text == paragraph_break(f0.0.text) + spaces(2 * last as nat) + item_marker(Some(m)));
        assert(f2.0.text == f1.0.text + items.last()@);
        assert(f3 == f2);
        assert(f3.1.lists =~= s.lists.update(last, Some((n + items.len()) as u64)));
        assert(f3.1 == (Scan { lists: s.lists.update(last, Some((n + items.len()) as u64)), ..s }));
        assert(f3.0.text =~= numbered_items(o.text, spaces(2 * last as nat), n as nat, items));
    }
}

/// An ordered list starting at `n`, opened inside `s.lists.len()` other
/// lists, puts each item on a new paragraph, indented two spaces per
/// enclosing list and numbered `n`, `n + 1`, ... in turn, followed by the
/// item's text; the list state is as before once the list ends.
pub proof fn lemma_ordered_list(
    o: Output,
    s: Scan,
    n: u64,
    items: Seq<String>,
    table: Seq<Option<Vec<(Range<usize>, HighlightStyle)>>>,
)
    requires
        s.fence is None,
        n + items.len() < u64::MAX,
    ensures
        md_fold(o, s, ordered_list_events(n, items), table).0.text == numbered_items(
            o.text,
            spaces(2 * s.lists.len()),
            n as nat,
            items,
        ),
        md_fold(o, s, ordered_list_events(n, items), table).1 == s,
{
    let open = seq![MdEvent::Start(MdTag::List(Some(n)))];
    let close = seq![MdEvent::End(MdTag::List(Some(n)))];
    let mid = item_events(items);
    assert(ordered_list_events(n, items) == open + mid + close);
    lemma_fold_concat(o, s, open + mid, close, table);
    lemma_fold_concat(o, s, open, mid, table);
    assert(open.drop_last() =~= Seq::<MdEvent>::empty());
    let p = md_fold(o, s, open, table);
    assert(md_fold(o, s, open.drop_last(), table) == (o, s));
    assert(p == md_step(o, s, MdEvent::Start(MdTag::List(Some(n))), table));
    assert(p.1 == Scan { lists: s.lists.push(Some(n)), ..s });
    lemma_items(p.0, p.1, n, items, table);
    let q = md_fold(p.0, p.1, mid, table);
    assert(q.1.lists =~= s.lists.push(Some((n + items.len()) as u64)));
    assert(close.drop_last() =~= Seq::<MdEvent>::empty());
    assert(md_fold(q.0, q.1, close.drop_last(), table) == q);
    assert(md_fold(q.0, q.1, close, table) == md_step(q.0, q.1, MdEvent::End(MdTag::List(Some(n))), table));
    assert(q.1.lists.drop_last() =~= s.lists);
    assert(md_fold(q.0, q.1, close, table).1 == s);
}

/// Renders hover blocks into one flat text with styled byte ranges and links.
/// `code_highlights[i]` holds the syntax highlight spans of the i-th code
/// segment that `code_segments` lists (relative to the segment), or `None`
/// where its language is unknown; missing entries count as `None`.
pub fn render_blocks(
    theme_id: usize,
    blocks: &[HoverBlock],
    code_highlights: &Vec<Option<Vec<(Range<usize>, HighlightStyle)>>>,
) -> (r: RenderedInfo)
    ensures
        r.theme_id == theme_id,
        r.text@ == render_seq(blocks@, code_highlights@).text,
        r.highlights@ == render_seq(blocks@, code_highlights@).highlights,
        r.link_ranges@ == render_seq(blocks@, code_highlights@).link_ranges,
        r.link_urls@ == render_seq(blocks@, code_highlights@).link_urls,
        output_wf(render_seq(blocks@, code_highlights@)),
        highlights_wf(r.highlights@, byte_len(r.text@)),
        links_wf(r.link_ranges@, r.link_urls@, byte_len(r.text@)),
{
    let r = Renderer::blocks(blocks, code_highlights);
    RenderedInfo {
        theme_id,
        text: r.text.into_string(),
        highlights: r.highlights,
        link_ranges: r.link_ranges,
        link_urls: r.link_urls,
    }
}

/// Renders one markdown event stream on its own, as `render_blocks` renders
/// the events of a markdown block.
pub fn render_markdown_events(
    theme_id: usize,
    events: &Vec<MdEvent>,
    code_highlights: &Vec<Option<Vec<(Range<usize>, HighlightStyle)>>>,
) -> (r: RenderedInfo)
    ensures
        r.theme_id == theme_id,
        r.text@ == md_fold(empty_output(), fresh_scan(), events@, code_highlights@).0.text,
        r.highlights@ == md_fold(empty_output(), fresh_scan(), events@, code_highlights@).0.highlights,
        r.link_ranges@ == md_fold(empty_output(), fresh_scan(), events@, code_highlights@).0.link_ranges,
        r.link_urls@ == md_fold(empty_output(), fresh_scan(), events@, code_highlights@).0.link_urls,
        output_wf(md_fold(empty_output(), fresh_scan(), events@, code_highlights@).0),
        highlights_wf(r.highlights@, byte_len(r.text@)),
        links_wf(r.link_ranges@, r.link_urls@, byte_len(r.text@)),
{
    let mut r = Renderer::new();
    r.md_events(events, code_highlights);
    RenderedInfo {
        theme_id,
        text: r.text.into_string(),
        highlights: r.highlights,
        link_ranges: r.link_ranges,
        link_urls: r.link_urls,
    }
}

/// The code segments of hover blocks, in the order in which rendering meets
/// them: the text inside fenced code blocks of markdown, and code blocks.
pub fn code_segments(blocks: &[HoverBlock]) -> (r: Vec<CodeSegment>)
    ensures
        r@ == render_seq(blocks@, Seq::empty()).segments,
{
    let none: Vec<Option<Vec<(Range<usize>, HighlightStyle)>>> = Vec::new();
    let r = Renderer::blocks(blocks, &none);
    assert(none@ =~= Seq::<Option<Vec<(Range<usize>, HighlightStyle)>>>::empty());
    r.segments
}

/// Starting a paragraph twice is starting it once.
pub proof fn lemma_paragraph_break_idempotent(t: Seq<char>)
    ensures
        paragraph_break(paragraph_break(t)) == paragraph_break(t),
{
    let p = paragraph_break(t);
    if t.len() > 0 && !ends_in_blank_line(t) {
        assert(p[p.len() - 1] == '\n');
        assert(p[p.len() - 2] == '\n');
    }
}

} // verus!
