//! Lines of styled text: a cursor in one, and breaking one that is too long.

use vstd::prelude::*;
use vstd::string::*;

use crate::style::{plain_style, Style};
use crate::text::{chars_of, text_of};

verus! {

// --- lines --------------------------------------------------------------------

/// A piece of text of one style.
pub struct Span {
    pub text: String,
    pub style: Style,
}

/// A piece of text by its characters.
#[verifier::ext_equal]
pub ghost struct SpanView {
    pub text: Seq<char>,
    pub style: Style,
}

impl View for Span {
    type V = SpanView;

    open spec fn view(&self) -> SpanView {
        SpanView { text: self.text@, style: self.style }
    }
}

/// The pieces of a list, by their characters.
pub open spec fn span_views(spans: Seq<Span>) -> Seq<SpanView> {
    spans.map_values(|s: Span| s@)
}

/// A line: pieces of text, and a style beneath them.
pub struct Line {
    pub spans: Vec<Span>,
    pub style: Style,
}

/// A line by its characters.
#[verifier::ext_equal]
pub ghost struct LineView {
    pub spans: Seq<SpanView>,
    pub style: Style,
}

impl View for Line {
    type V = LineView;

    open spec fn view(&self) -> LineView {
        LineView { spans: span_views(self.spans@), style: self.style }
    }
}

/// The lines of a list, by their characters.
pub open spec fn line_views(lines: Seq<Line>) -> Seq<LineView> {
    lines.map_values(|l: Line| l@)
}

/// A line of these pieces, with no style beneath.
pub open spec fn plain_line(spans: Seq<SpanView>) -> LineView {
    LineView { spans, style: plain_style() }
}

impl Span {
    /// A piece of text.
    pub fn styled(text: &str, style: Style) -> (span: Span)
        ensures
            span@ == (SpanView { text: text@, style }),
    {
        Span { text: text.to_string(), style }
    }

    /// A piece of text without a style of its own.
    pub fn raw(text: &str) -> (span: Span)
        ensures
            span@ == (SpanView { text: text@, style: plain_style() }),
    {
        Span { text: text.to_string(), style: Style::plain() }
    }
}

impl Line {
    /// A line of these pieces, with no style beneath.
    pub fn from_spans(spans: Vec<Span>) -> (line: Line)
        ensures
            line@ == plain_line(span_views(spans@)),
    {
        Line { spans, style: Style::plain() }
    }
}

// --- the cursor -----------------------------------------------------------------

/// A text with a block cursor: what stands before it, what stands under it, and
/// what stands behind it. Behind the last character the cursor stands on a blank.
pub open spec fn with_cursor(
    text: Seq<char>,
    cursor: int,
    base: Style,
    cursor_style: Style,
) -> Seq<SpanView> {
    let c = if cursor < text.len() {
        cursor
    } else {
        text.len() as int
    };
    let front = seq![
        SpanView { text: text.take(c), style: base },
        SpanView {
            text: if c < text.len() {
                seq![text[c]]
            } else {
                seq![' ']
            },
            style: cursor_style,
        },
    ];
    if c + 1 < text.len() {
        front.push(SpanView { text: text.skip(c + 1), style: base })
    } else {
        front
    }
}

/// A text with a block cursor.
pub fn cursor_spans(value: &str, cursor: usize, base: Style, cursor_style: Style) -> (spans: Vec<
    Span,
>)
    ensures
        span_views(spans@) == with_cursor(value@, cursor as int, base, cursor_style),
{
    let chars: Vec<char> = chars_of(value);
    let n: usize = chars.len();
    let c: usize = if cursor < n {
        cursor
    } else {
        n
    };
    let mut spans: Vec<Span> = Vec::new();
    let before: String = text_of(&chars, 0, c);
    assert(before@ =~= value@.take(c as int));
    spans.push(Span { text: before, style: base });
    let mut at: String = String::new();
    if c < n {
        at.push(chars[c]);
        assert(at@ =~= seq![value@[c as int]]);
    } else {
        at.push(' ');
        assert(at@ =~= seq![' ']);
    }
    spans.push(Span { text: at, style: cursor_style });
    if c < n && c + 1 < n {
        let after: String = text_of(&chars, c + 1, n);
        assert(after@ =~= value@.skip(c + 1));
        spans.push(Span { text: after, style: base });
    }
    assert(span_views(spans@) =~= with_cursor(value@, cursor as int, base, cursor_style));
    spans
}

// --- breaking lines ---------------------------------------------------------------

/// A character with its style.
pub type Inked = (char, Style);

/// The characters of a piece of text.
pub open spec fn span_chars(span: SpanView) -> Seq<Inked> {
    span.text.map_values(|c: char| (c, span.style))
}

/// The characters of some pieces of text.
pub open spec fn spans_chars(spans: Seq<SpanView>) -> Seq<Inked>
    decreases spans.len(),
{
    if spans.len() == 0 {
        Seq::empty()
    } else {
        spans_chars(spans.drop_last()) + span_chars(spans.last())
    }
}

/// Characters as pieces of text, each as long as its style goes on.
pub open spec fn runs(chars: Seq<Inked>) -> Seq<SpanView>
    decreases chars.len(),
{
    if chars.len() == 0 {
        Seq::empty()
    } else {
        let before = runs(chars.drop_last());
        let last = chars.last();
        if before.len() > 0 && before.last().style == last.1 {
            before.update(
                before.len() - 1,
                SpanView { text: before.last().text.push(last.0), ..before.last() },
            )
        } else {
            before.push(SpanView { text: seq![last.0], style: last.1 })
        }
    }
}

/// Where the `i`th line of `width` characters ends.
pub open spec fn chunk_end(i: int, width: int, len: int) -> int {
    if (i + 1) * width < len {
        (i + 1) * width
    } else {
        len
    }
}

/// The lines that `width` characters each make of some characters: as many as it
/// takes, and one where there are none.
pub open spec fn wrapped(chars: Seq<Inked>, width: int) -> Seq<LineView> {
    let w = if width > 0 {
        width
    } else {
        1
    };
    let len = chars.len() as int;
    if len == 0 {
        seq![plain_line(Seq::empty())]
    } else {
        Seq::new(
            ((len - 1) / w + 1) as nat,
            |i: int| plain_line(runs(chars.subrange(i * w, chunk_end(i, w, len)))),
        )
    }
}

/// The characters of a line, with their styles.
fn inked_chars(spans: &Vec<Span>) -> (chars: Vec<Inked>)
    ensures
        chars@ == spans_chars(span_views(spans@)),
{
    let mut chars: Vec<Inked> = Vec::new();
    let ghost all = span_views(spans@);
    let mut i: usize = 0;
    assert(all.take(0) =~= Seq::empty());
    while i < spans.len()
        invariant
            i <= spans.len(),
            all == span_views(spans@),
            all.len() == spans@.len(),
            chars@ == spans_chars(all.take(i as int)),
        decreases spans.len() - i,
    {
        let style: Style = spans[i].style;
        let ghost before = chars@;
        let ghost span = spans@[i as int]@;
        let text: Vec<char> = chars_of(spans[i].text.as_str());
        let mut k: usize = 0;
        assert(before + span_chars(span).take(0) =~= before);
        while k < text.len()
            invariant
                k <= text.len(),
                text@ == span.text,
                style == span.style,
                chars@ == before + span_chars(span).take(k as int),
            decreases text.len() - k,
        {
            chars.push((text[k], style));
            assert(before + span_chars(span).take(k + 1) =~= (before + span_chars(span).take(
                k as int,
            )).push((span.text[k as int], style)));
            k += 1;
        }
        proof {
            assert(span_chars(span).take(k as int) =~= span_chars(span));
            assert(all[i as int] == span);
            assert(all.take(i + 1).drop_last() =~= all.take(i as int));
            assert(all.take(i + 1).last() == span);
        }
        i += 1;
    }
    assert(all.take(i as int) =~= all);
    chars
}

/// One line of characters `from` up to `to`.
fn run_line(chars: &Vec<Inked>, from: usize, to: usize) -> (line: Line)
    requires
        from < to <= chars@.len(),
    ensures
        line@ == plain_line(runs(chars@.subrange(from as int, to as int))),
{
    let ghost part = chars@.subrange(from as int, to as int);
    let mut spans: Vec<Span> = Vec::new();
    let mut text: String = String::new();
    let mut style: Style = chars[from].1;
    let mut i: usize = from;
    assert(part.take(0) =~= Seq::empty());
    assert(span_views(spans@) =~= Seq::empty());
    while i < to
        invariant
            from <= i <= to <= chars@.len(),
            part == chars@.subrange(from as int, to as int),
            i == from ==> text@.len() == 0 && spans@.len() == 0 && style == chars@[from as int].1,
            i > from ==> text@.len() > 0 && runs(part.take(i - from)) == span_views(spans@).push(
                SpanView { text: text@, style },
            ),
        decreases to - i,
    {
        let (c, own) = chars[i];
        let ghost before = span_views(spans@);
        let ghost so_far = part.take(i - from);
        proof {
            let longer = part.take(i - from + 1);
            assert(longer.drop_last() =~= so_far);
            assert(longer.last() == (c, own));
            if i == from {
                assert(so_far =~= Seq::empty());
            }
        }
        if own == style {
            let ghost shorter = text@;
            text.push(c);
            proof {
                if i == from {
                    assert(text@ =~= seq![c]);
                    assert(runs(so_far) =~= Seq::empty());
                    assert(runs(part.take(i - from + 1)) =~= runs(so_far).push(
                        SpanView { text: seq![c], style },
                    ));
                    assert(runs(part.take(i - from + 1)) =~= span_views(spans@).push(
                        SpanView { text: text@, style },
                    ));
                } else {
                    let last = SpanView { text: shorter, style };
                    assert(before.push(last).last() == last);
                    assert(before.push(last).update(
                        before.len() as int,
                        SpanView { text: shorter.push(c), style },
                    ) =~= before.push(SpanView { text: text@, style }));
                }
            }
        } else {
            let ghost last = SpanView { text: text@, style };
            let done = Span { text, style };
            spans.push(done);
            assert(span_views(spans@) =~= before.push(last));
            text = String::new();
            text.push(c);
            style = own;
            proof {
                assert(text@ =~= seq![c]);
                assert(before.push(last).last() == last);
            }
        }
        i += 1;
    }
    assert(part.take(to - from) =~= part);
    let ghost front = span_views(spans@);
    let last = Span { text, style };
    let ghost tail = last@;
    spans.push(last);
    assert(span_views(spans@) =~= front.push(tail));
    Line::from_spans(spans)
}

/// Breaks a line behind every `width` characters. Styles stay with their
/// characters; an empty line stays one line.
pub fn wrap_line_chars(line: &Line, width: usize) -> (lines: Vec<Line>)
    ensures
        line_views(lines@) == wrapped(spans_chars(line@.spans), width as int),
{
    let chars: Vec<Inked> = inked_chars(&line.spans);
    let n: usize = chars.len();
    let mut lines: Vec<Line> = Vec::new();
    if n == 0 {
        let none: Vec<Span> = Vec::new();
        assert(span_views(none@) =~= Seq::empty());
        lines.push(Line::from_spans(none));
        assert(line_views(lines@) =~= seq![plain_line(Seq::empty())]);
        return lines;
    }
    let w: usize = if width > 0 {
        width
    } else {
        1
    };
    let mut from: usize = 0;
    while from < n
        invariant
            from <= n,
            n == chars@.len(),
            n > 0,
            w >= 1,
            chars@ == spans_chars(line@.spans),
            from < n ==> from == lines@.len() * w,
            from == n ==> lines@.len() == (n - 1) / (w as int) + 1,
            forall|i: int|
                0 <= i < lines@.len() ==> (#[trigger] lines@[i])@ == plain_line(
                    runs(chars@.subrange(i * w, chunk_end(i, w as int, n as int))),
                ),
        decreases n - from,
    {
        let ghost k = lines@.len() as int;
        let to: usize = if n - from > w {
            from + w
        } else {
            n
        };
        proof {
            lemma_chunk(k, w as int, n as int, from as int);
        }
        lines.push(run_line(&chars, from, to));
        from = to;
    }
    assert(line_views(lines@) =~= wrapped(chars@, width as int));
    lines
}

/// Where a line ends, and how many lines there are once it ends at the end.
proof fn lemma_chunk(k: int, w: int, n: int, from: int)
    requires
        0 <= k,
        w >= 1,
        from == k * w,
        from < n,
    ensures
        n - from > w ==> chunk_end(k, w, n) == from + w && from + w == (k + 1) * w,
        n - from <= w ==> chunk_end(k, w, n) == n && k + 1 == (n - 1) / w + 1,
{
    assert((k + 1) * w == k * w + w) by (nonlinear_arith);
    if n - from <= w {
        assert((n - 1) / w == k) by (nonlinear_arith)
            requires
                w >= 1,
                k * w <= n - 1,
                n - 1 < k * w + w,
        ;
    }
}

// --- laws -----------------------------------------------------------------------

/// The text of some pieces.
pub open spec fn spans_text(spans: Seq<SpanView>) -> Seq<char>
    decreases spans.len(),
{
    if spans.len() == 0 {
        Seq::empty()
    } else {
        spans_text(spans.drop_last()) + spans.last().text
    }
}

/// A cursor changes nothing of the text; behind its end it adds a blank.
pub proof fn law_cursor_keeps_the_text(
    text: Seq<char>,
    cursor: int,
    base: Style,
    cursor_style: Style,
)
    requires
        0 <= cursor,
    ensures
        spans_text(with_cursor(text, cursor, base, cursor_style)) == if cursor < text.len() {
            text
        } else {
            text.push(' ')
        },
{
    let spans = with_cursor(text, cursor, base, cursor_style);
    let two = spans.take(2);
    let one = spans.take(1);
    assert(one.drop_last() =~= Seq::empty());
    assert(two.drop_last() =~= one);
    assert(spans_text(one.drop_last()) =~= Seq::empty());
    assert(spans_text(one) =~= spans[0].text);
    assert(spans_text(two) =~= spans[0].text + spans[1].text);
    if spans.len() == 3 {
        assert(spans.drop_last() =~= two);
        assert(spans_text(spans) =~= spans[0].text + spans[1].text + spans[2].text);
        assert(spans_text(spans) =~= text);
    } else {
        assert(spans =~= two);
        if cursor < text.len() {
            assert(spans_text(spans) =~= text);
        } else {
            assert(spans_text(spans) =~= text.push(' '));
        }
    }
}

/// Joining characters of one style keeps all characters, with their styles and in
/// their order; no piece is empty, and no two neighbours have one style.
pub proof fn law_runs_keep_characters(chars: Seq<Inked>)
    ensures
        spans_chars(runs(chars)) == chars,
        forall|i: int| 0 <= i < runs(chars).len() ==> (#[trigger] runs(chars)[i]).text.len() > 0,
        forall|i: int, j: int|
            0 <= i < runs(chars).len() && j == i + 1 && j < runs(chars).len() ==> (
            #[trigger] runs(chars)[i]).style != (#[trigger] runs(chars)[j]).style,
    decreases chars.len(),
{
    if chars.len() > 0 {
        let shorter = chars.drop_last();
        let last = chars.last();
        law_runs_keep_characters(shorter);
        let before = runs(shorter);
        let after = runs(chars);
        assert(chars =~= shorter.push(last));
        if before.len() > 0 && before.last().style == last.1 {
            let tail = SpanView { text: before.last().text.push(last.0), ..before.last() };
            assert(after.drop_last() =~= before.drop_last());
            assert(after.last() == tail);
            assert(span_chars(tail) =~= span_chars(before.last()).push(last));
            assert(spans_chars(after) =~= spans_chars(before).push(last));
            assert forall|i: int, j: int|
                0 <= i < after.len() && j == i + 1 && j < after.len() implies (
            #[trigger] after[i]).style != (#[trigger] after[j]).style by {
                assert(before[i].style != before[j].style);
            }
        } else {
            let tail = SpanView { text: seq![last.0], style: last.1 };
            assert(after.drop_last() =~= before);
            assert(span_chars(tail) =~= seq![last]);
            assert(spans_chars(after) =~= spans_chars(before).push(last));
            assert forall|i: int, j: int|
                0 <= i < after.len() && j == i + 1 && j < after.len() implies (
            #[trigger] after[i]).style != (#[trigger] after[j]).style by {
                if j < before.len() {
                    assert(before[i].style != before[j].style);
                }
            }
        }
    }
}

/// The characters of some lines, one line after the other.
pub open spec fn lines_chars(lines: Seq<LineView>) -> Seq<Inked>
    decreases lines.len(),
{
    if lines.len() == 0 {
        Seq::empty()
    } else {
        lines_chars(lines.drop_last()) + spans_chars(lines.last().spans)
    }
}

/// Breaking a line keeps all characters, with their styles and in their order.
pub proof fn law_wrapping_keeps_characters(chars: Seq<Inked>, width: int)
    ensures
        lines_chars(wrapped(chars, width)) == chars,
{
    let w = if width > 0 {
        width
    } else {
        1
    };
    let lines = wrapped(chars, width);
    let len = chars.len() as int;
    if len == 0 {
        assert(lines.drop_last() =~= Seq::empty());
        assert(lines_chars(lines.drop_last()) =~= Seq::empty());
        assert(spans_chars(lines.last().spans) =~= Seq::empty());
        assert(lines_chars(lines) =~= chars);
    } else {
        lemma_wrapped_front(chars, width, lines.len() as int);
        assert(lines.take(lines.len() as int) =~= lines);
        lemma_last_chunk(w, len);
        assert(chars.take(len) =~= chars);
    }
}

/// The last line ends at the end.
proof fn lemma_last_chunk(w: int, len: int)
    requires
        w >= 1,
        len >= 1,
    ensures
        ((len - 1) / w) * w <= len - 1,
        len <= ((len - 1) / w + 1) * w,
        (len - 1) / w >= 0,
        chunk_end((len - 1) / w, w, len) == len,
{
    let k = (len - 1) / w;
    assert(k * w <= len - 1 && len <= (k + 1) * w && k >= 0) by (nonlinear_arith)
        requires
            w >= 1,
            len >= 1,
            k == (len - 1) / w,
    ;
}

/// The first `n` lines hold the characters up to where the last of them ends.
proof fn lemma_wrapped_front(chars: Seq<Inked>, width: int, n: int)
    requires
        chars.len() > 0,
        0 <= n <= wrapped(chars, width).len(),
    ensures
        ({
            let w = if width > 0 {
                width
            } else {
                1
            };
            lines_chars(wrapped(chars, width).take(n)) == chars.take(
                if n == 0 {
                    0
                } else {
                    chunk_end(n - 1, w, chars.len() as int)
                },
            )
        }),
    decreases n,
{
    let w = if width > 0 {
        width
    } else {
        1
    };
    let len = chars.len() as int;
    let lines = wrapped(chars, width);
    if n == 0 {
        assert(lines.take(0) =~= Seq::empty());
        assert(chars.take(0) =~= Seq::empty());
    } else {
        lemma_wrapped_front(chars, width, n - 1);
        lemma_last_chunk(w, len);
        let k = (len - 1) / w;
        let from = (n - 1) * w;
        assert(from <= k * w && from + w == n * w && n * w >= w) by (nonlinear_arith)
            requires
                1 <= n <= k + 1,
                w >= 1,
                from == (n - 1) * w,
        ;
        if n > 1 {
            assert((n - 2 + 1) * w == from);
            assert(chunk_end(n - 2, w, len) == from);
        } else {
            assert(from == 0) by (nonlinear_arith)
                requires
                    n == 1,
                    from == (n - 1) * w,
            ;
        }
        let to = chunk_end(n - 1, w, len);
        let part = chars.subrange(from, to);
        assert(lines.take(n).drop_last() =~= lines.take(n - 1));
        assert(lines.take(n).last() == plain_line(runs(part)));
        law_runs_keep_characters(part);
        assert(chars.take(from) + part =~= chars.take(to));
    }
}

/// No line is longer than asked for, and all but the last are exactly as long.
pub proof fn law_wrapped_lines_fit(chars: Seq<Inked>, width: int, i: int)
    requires
        width > 0,
        0 <= i < wrapped(chars, width).len(),
    ensures
        spans_chars(wrapped(chars, width)[i].spans).len() <= width,
        i < wrapped(chars, width).len() - 1 ==> spans_chars(
            wrapped(chars, width)[i].spans,
        ).len() == width,
{
    let len = chars.len() as int;
    if len > 0 {
        lemma_last_chunk(width, len);
        let k = (len - 1) / width;
        let from = i * width;
        let to = chunk_end(i, width, len);
        assert(0 <= from <= k * width && (i + 1) * width == from + width && (i < k ==> from + width
            <= k * width)) by (nonlinear_arith)
            requires
                0 <= i <= k,
                width > 0,
                from == i * width,
        ;
        law_runs_keep_characters(chars.subrange(from, to));
    }
}

} // verus!
