//! Syntax highlighting of the query being typed: the query text is cut into
//! spans, each drawn in the colour of what it is.

use vstd::prelude::*;
use vstd::string::StringSliceAdditionalSpecFns;

verus! {

/// The colour a span of query text is drawn in.
#[derive(PartialEq, Eq, Structural, Clone, Copy, Debug)]
pub enum Highlight {
    /// Text that no capture covers, and captures of other kinds: black.
    Plain,
    /// An operation name: dark blue.
    Operation,
    /// A Lucene query or a term: dark green.
    Literal,
}

/// A capture of the highlighting query: a byte range of the text and the
/// name of the capture (`operation`, `lucene_query`, `term`, ...).
pub struct Capture {
    pub start: usize,
    pub end: usize,
    pub name: String,
}

/// A span of the text to draw: its byte range and colour.
#[derive(PartialEq, Eq, Structural, Clone, Copy, Debug)]
pub struct Span {
    pub start: usize,
    pub end: usize,
    pub color: Highlight,
}

/// The colour of a capture name.
pub open spec fn color_of(name: Seq<char>) -> Highlight {
    if name == "operation"@ {
        Highlight::Operation
    } else if name == "lucene_query"@ || name == "term"@ {
        Highlight::Literal
    } else {
        Highlight::Plain
    }
}

/// The spans for the captures `caps`, drawn after byte `last_end`, of a text
/// of `len` bytes: a plain gap before each capture that starts after the
/// previous one ended, the capture itself, and a plain rest of the text.
pub open spec fn spans_from(caps: Seq<Capture>, last_end: int, len: int) -> Seq<Span>
    decreases caps.len(),
{
    if caps.len() == 0 {
        if last_end < len {
            seq![Span { start: last_end as usize, end: len as usize, color: Highlight::Plain }]
        } else {
            Seq::empty()
        }
    } else {
        let c = caps[0];
        let gap = if last_end < c.start {
            seq![Span { start: last_end as usize, end: c.start, color: Highlight::Plain }]
        } else {
            Seq::<Span>::empty()
        };
        gap + seq![Span { start: c.start, end: c.end, color: color_of(c.name@) }] + spans_from(
            caps.drop_first(),
            c.end as int,
            len,
        )
    }
}

/// The captures lie in the text and start and end on character boundaries.
pub open spec fn captures_fit(input: &str, caps: Seq<Capture>) -> bool {
    forall|i: int|
        0 <= i < caps.len() ==> {
            &&& #[trigger] caps[i].start <= caps[i].end
            &&& caps[i].end <= input.spec_bytes().len()
            &&& vstd::utf8::is_char_boundary(input.spec_bytes(), caps[i].start as int)
            &&& vstd::utf8::is_char_boundary(input.spec_bytes(), caps[i].end as int)
        }
}

/// The colour of a capture name.
pub fn capture_color(name: &String) -> (h: Highlight)
    ensures
        h == color_of(name@),
{
    if crate::record::same_text(name.as_str(), "operation") {
        Highlight::Operation
    } else if crate::record::same_text(name.as_str(), "lucene_query")
        || crate::record::same_text(name.as_str(), "term") {
        Highlight::Literal
    } else {
        Highlight::Plain
    }
}

/// Cuts `input` into coloured spans, given the captures of the highlighting
/// query in the order the query matched them.
pub fn highlight_spans(input: &str, captures: &Vec<Capture>) -> (out: Vec<Span>)
    requires
        captures_fit(input, captures@),
        input.spec_bytes().len() <= usize::MAX,
    ensures
        out@ == spans_from(captures@, 0, input.spec_bytes().len() as int),
{
    let len = input.len();
    let ghost caps = captures@;
    let mut out: Vec<Span> = Vec::new();
    let mut last_end: usize = 0;
    let n = captures.len();
    assert(caps.subrange(0, n as int) == caps);
    for i in 0..n
        invariant
            n == caps.len(),
            caps == captures@,
            captures_fit(input, caps),
            len == input.spec_bytes().len(),
            last_end <= len,
            out@ + spans_from(caps.subrange(i as int, n as int), last_end as int, len as int)
                == spans_from(caps, 0, len as int),
    {
        let c = &captures[i];
        assert(caps[i as int].end <= len);
        let ghost sub = caps.subrange(i as int, n as int);
        assert(sub[0] == *c);
        assert(sub.drop_first() == caps.subrange(i + 1, n as int));
        let ghost before = out@;
        if last_end < c.start {
            out.push(Span { start: last_end, end: c.start, color: Highlight::Plain });
        }
        out.push(Span { start: c.start, end: c.end, color: capture_color(&c.name) });
        assert(out@ + spans_from(caps.subrange(i + 1, n as int), c.end as int, len as int)
            =~= before + spans_from(sub, last_end as int, len as int));
        last_end = c.end;
    }
    let ghost before = out@;
    if last_end < len {
        out.push(Span { start: last_end, end: len, color: Highlight::Plain });
    }
    assert(out@ =~= before + spans_from(caps.subrange(n as int, n as int), last_end as int, len as int));
    out
}


/// The captures come in text order after byte `from`: each starts where or
/// after the previous one ended.
pub open spec fn in_text_order(caps: Seq<Capture>, from: int) -> bool
    decreases caps.len(),
{
    if caps.len() == 0 {
        true
    } else {
        &&& from <= caps[0].start
        &&& caps[0].start <= caps[0].end
        &&& in_text_order(caps.drop_first(), caps[0].end as int)
    }
}

/// The spans cover bytes `from` to `to` exactly once, in order.
pub open spec fn tiles(spans: Seq<Span>, from: int, to: int) -> bool
    decreases spans.len(),
{
    if spans.len() == 0 {
        from == to
    } else {
        &&& spans[0].start == from
        &&& spans[0].start <= spans[0].end
        &&& tiles(spans.drop_first(), spans[0].end as int, to)
    }
}

proof fn lemma_tiles_concat(a: Seq<Span>, b: Seq<Span>, from: int, mid: int, to: int)
    requires
        tiles(a, from, mid),
        tiles(b, mid, to),
    ensures
        tiles(a + b, from, to),
    decreases a.len(),
{
    if a.len() > 0 {
        lemma_tiles_concat(a.drop_first(), b, a[0].end as int, mid, to);
        assert((a + b).drop_first() == a.drop_first() + b);
    } else {
        assert(a + b == b);
    }
}

/// When the captures come in text order and lie in the text, the spans
/// cover the whole text once, from its first byte to its last: every byte
/// is drawn, in exactly one colour.
pub proof fn law_spans_cover_text(caps: Seq<Capture>, from: int, len: int)
    requires
        in_text_order(caps, from),
        0 <= from <= len <= usize::MAX,
        forall|i: int| 0 <= i < caps.len() ==> #[trigger] caps[i].end <= len,
    ensures
        tiles(spans_from(caps, from, len), from, len),
    decreases caps.len(),
{
    if caps.len() == 0 {
        if from < len {
            let s = seq![Span { start: from as usize, end: len as usize, color: Highlight::Plain }];
            assert(s.drop_first() =~= Seq::<Span>::empty());
            assert(tiles(Seq::<Span>::empty(), len, len));
            assert(s[0].start == from && s[0].end == len);
            assert(spans_from(caps, from, len) == s);
        }
    } else {
        let c = caps[0];
        let rest = caps.drop_first();
        assert forall|i: int| 0 <= i < rest.len() implies #[trigger] rest[i].end <= len by {
            assert(rest[i] == caps[i + 1]);
        }
        law_spans_cover_text(rest, c.end as int, len);
        let mine = seq![Span { start: c.start, end: c.end, color: color_of(c.name@) }];
        assert(mine.drop_first() =~= Seq::<Span>::empty());
        assert(tiles(Seq::<Span>::empty(), c.end as int, c.end as int));
        assert(tiles(mine, c.start as int, c.end as int));
        if from < c.start {
            let gap = seq![Span { start: from as usize, end: c.start, color: Highlight::Plain }];
            assert(gap.drop_first() =~= Seq::<Span>::empty());
            assert(tiles(Seq::<Span>::empty(), c.start as int, c.start as int));
            assert(gap[0].start == from);
            assert(tiles(gap, from, c.start as int));
            lemma_tiles_concat(gap, mine, from, c.start as int, c.end as int);
            lemma_tiles_concat(gap + mine, spans_from(rest, c.end as int, len), from, c.end as int, len);
            assert(spans_from(caps, from, len) == gap + mine + spans_from(rest, c.end as int, len));
        } else {
            assert(Seq::<Span>::empty() + mine == mine);
            lemma_tiles_concat(mine, spans_from(rest, c.end as int, len), from, c.end as int, len);
            assert(spans_from(caps, from, len) == Seq::<Span>::empty() + mine + spans_from(rest, c.end as int, len));
        }
    }
}

} // verus!
