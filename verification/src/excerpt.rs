//! Source excerpts for diagnostics: a byte span of a TOML source is shown as
//! the line that holds it, with its line and column and a row of carets under
//! the characters it covers.
//!
//! Byte offsets are those of the UTF-8 encoding of the source. An offset that
//! falls inside a character's encoding is moved to the nearest character
//! boundary: the start backwards, the end forwards.

use vstd::prelude::*;
use std::ops::Range;

use crate::strings::{
    decimal, push_char, push_decimal, push_str, repeat_char, str_chars, string_from_chars,
    u64_to_decimal,
};

verus! {

broadcast use vstd::string::group_string_axioms;

// ---------------------------------------------------------------------------
// UTF-8 widths and byte offsets of characters
// ---------------------------------------------------------------------------

/// Number of bytes in the UTF-8 encoding of `c` (`char::len_utf8`).
pub open spec fn utf8_width(c: char) -> nat {
    let u = c as u32;
    if u <= 0x7F {
        1
    } else if u <= 0x7FF {
        2
    } else if u <= 0xFFFF {
        3
    } else {
        4
    }
}

/// Number of bytes in the UTF-8 encoding of `cs`.
pub open spec fn utf8_len(cs: Seq<char>) -> nat
    decreases cs.len(),
{
    if cs.len() == 0 {
        0
    } else {
        utf8_len(cs.drop_last()) + utf8_width(cs.last())
    }
}

/// Byte offset, in the UTF-8 encoding of `cs`, at which character `k` starts
/// (`utf8_len(cs)` for `k == cs.len()`).
pub open spec fn char_offset(cs: Seq<char>, k: int) -> nat {
    utf8_len(cs.take(k))
}

proof fn lemma_utf8_len_concat(a: Seq<char>, b: Seq<char>)
    ensures
        utf8_len(a + b) == utf8_len(a) + utf8_len(b),
    decreases b.len(),
{
    if b.len() == 0 {
        assert(a + b =~= a);
    } else {
        lemma_utf8_len_concat(a, b.drop_last());
        assert((a + b).drop_last() =~= a + b.drop_last());
        assert((a + b).last() == b.last());
    }
}

proof fn lemma_encode_len(cs: Seq<char>)
    ensures
        vstd::utf8::encode_utf8(cs).len() == utf8_len(cs),
    decreases cs.len(),
{
    if cs.len() > 0 {
        let c = cs[0];
        lemma_encode_len(cs.drop_first());
        lemma_utf8_len_concat(seq![c], cs.drop_first());
        assert(seq![c] + cs.drop_first() =~= cs);
        assert(seq![c].drop_last() =~= Seq::<char>::empty());
        assert(seq![c].last() == c);
        assert(utf8_len(Seq::<char>::empty()) == 0);
        assert(utf8_len(seq![c]) == utf8_width(c));
        vstd::utf8::char_is_scalar(c);
        assert(vstd::utf8::encode_scalar(c as u32).len() == utf8_width(c));
        assert(vstd::utf8::encode_utf8(cs) == vstd::utf8::encode_scalar(cs[0] as u32)
            + vstd::utf8::encode_utf8(cs.drop_first()));
    }
}

proof fn lemma_offset_step(cs: Seq<char>, k: int)
    requires
        0 <= k < cs.len(),
    ensures
        char_offset(cs, k + 1) == char_offset(cs, k) + utf8_width(cs[k]),
{
    assert(cs.take(k + 1).drop_last() =~= cs.take(k));
}

proof fn lemma_offset_mono(cs: Seq<char>, j: int, k: int)
    requires
        0 <= j <= k <= cs.len(),
    ensures
        char_offset(cs, j) <= char_offset(cs, k),
    decreases k - j,
{
    if j < k {
        lemma_offset_step(cs, k - 1);
        lemma_offset_mono(cs, j, k - 1);
    }
}

/// The byte offsets of every character of `cs` and of its end.
fn char_offsets(cs: &Vec<char>, total: usize) -> (offs: Vec<usize>)
    requires
        total == utf8_len(cs@),
    ensures
        offs@.len() == cs@.len() + 1,
        forall|k: int| 0 <= k <= cs@.len() ==> offs@[k] == char_offset(cs@, k),
{
    let mut offs: Vec<usize> = Vec::new();
    offs.push(0);
    let mut acc: usize = 0;
    let mut k: usize = 0;
    assert(cs@.take(0) =~= Seq::<char>::empty());
    assert(cs@.take(cs@.len() as int) =~= cs@);
    while k < cs.len()
        invariant
            k <= cs@.len(),
            total == utf8_len(cs@),
            cs@.take(cs@.len() as int) == cs@,
            offs@.len() == k + 1,
            acc == char_offset(cs@, k as int),
            forall|j: int| 0 <= j <= k ==> offs@[j] == char_offset(cs@, j),
        decreases cs@.len() - k,
    {
        proof {
            lemma_offset_step(cs@, k as int);
            lemma_offset_mono(cs@, k + 1, cs@.len() as int);
        }
        let u = cs[k] as u32;
        let w: usize = if u <= 0x7F {
            1
        } else if u <= 0x7FF {
            2
        } else if u <= 0xFFFF {
            3
        } else {
            4
        };
        acc = acc + w;
        offs.push(acc);
        k = k + 1;
    }
    offs
}

// ---------------------------------------------------------------------------
// What an excerpt shows
// ---------------------------------------------------------------------------

/// The last character index at or before `k` whose byte offset is at most `x`.
pub open spec fn floor_char(cs: Seq<char>, x: int, k: int) -> int
    decreases k,
{
    if k <= 0 {
        0
    } else if char_offset(cs, k) <= x {
        k
    } else {
        floor_char(cs, x, k - 1)
    }
}

/// The first character index at or after `k` whose byte offset is at least
/// `x` (the end of `cs` when there is none).
pub open spec fn ceil_char(cs: Seq<char>, x: int, k: int) -> int
    decreases cs.len() - k,
{
    if k >= cs.len() {
        cs.len() as int
    } else if char_offset(cs, k) >= x {
        k
    } else {
        ceil_char(cs, x, k + 1)
    }
}

/// Index of the first character of the line that holds character `k`.
pub open spec fn line_start(cs: Seq<char>, k: int) -> int
    decreases k,
{
    if k <= 0 {
        0
    } else if cs[k - 1] == '\n' {
        k
    } else {
        line_start(cs, k - 1)
    }
}

/// Index of the line break that ends the line holding character `k` (the end
/// of `cs` on the last line).
pub open spec fn line_end(cs: Seq<char>, k: int) -> int
    decreases cs.len() - k,
{
    if k >= cs.len() {
        cs.len() as int
    } else if cs[k] == '\n' {
        k
    } else {
        line_end(cs, k + 1)
    }
}

/// Number of line breaks in `s`.
pub open spec fn count_newlines(s: Seq<char>) -> nat
    decreases s.len(),
{
    if s.len() == 0 {
        0
    } else {
        count_newlines(s.drop_last()) + if s.last() == '\n' {
            1nat
        } else {
            0nat
        }
    }
}

/// `s` without the carriage returns at its end.
pub open spec fn trim_end_cr(s: Seq<char>) -> Seq<char>
    decreases s.len(),
{
    if s.len() > 0 && s.last() == '\r' {
        trim_end_cr(s.drop_last())
    } else {
        s
    }
}

/// The smaller of two integers.
pub open spec fn min_int(a: int, b: int) -> int {
    if a <= b {
        a
    } else {
        b
    }
}

/// Character index where the excerpt's highlight starts.
pub open spec fn excerpt_start(cs: Seq<char>, span_start: int) -> int {
    floor_char(cs, min_int(span_start, utf8_len(cs) as int), cs.len() as int)
}

/// Character index where the excerpt's highlight ends (never before its start).
pub open spec fn excerpt_end(cs: Seq<char>, span_start: int, span_end: int) -> int {
    let s = excerpt_start(cs, span_start);
    let e = ceil_char(cs, min_int(span_end, utf8_len(cs) as int), 0);
    if e < s {
        s
    } else {
        e
    }
}

/// The excerpt a span gives in a source: `None` for an empty source.
pub open spec fn spec_excerpt(cs: Seq<char>, span_start: int, span_end: int) -> Option<
    ExcerptView,
> {
    if cs.len() == 0 {
        None
    } else {
        let s = excerpt_start(cs, span_start);
        let e = excerpt_end(cs, span_start, span_end);
        let ls = line_start(cs, s);
        let le = line_end(cs, s);
        let hl = if e <= s {
            if s < le {
                s + 1
            } else {
                s
            }
        } else {
            min_int(e, le)
        };
        Some(
            ExcerptView {
                line_number: count_newlines(cs.take(s)) + 1,
                column_number: (s - ls + 1) as nat,
                line_text: trim_end_cr(cs.subrange(ls, le)),
                caret_offset: (s - ls) as nat,
                caret_len: if hl <= s {
                    1
                } else {
                    (hl - s) as nat
                },
            },
        )
    }
}

/// Mathematical form of a [`SpanExcerpt`].
pub struct ExcerptView {
    pub line_number: nat,
    pub column_number: nat,
    pub line_text: Seq<char>,
    pub caret_offset: nat,
    pub caret_len: nat,
}

/// `n` copies of `c`.
pub open spec fn repeated(c: char, n: nat) -> Seq<char> {
    Seq::new(n, |_i: int| c)
}

/// The text an excerpt renders after the message `base`.
pub open spec fn spec_render(base: Seq<char>, x: ExcerptView) -> Seq<char> {
    let ln = decimal(x.line_number);
    let gutter = repeated(' ', ln.len());
    base + " at line "@ + ln + ", column "@ + decimal(x.column_number) + "\n"@ + gutter
        + " |\n"@ + ln + " | "@ + x.line_text + "\n"@ + gutter + " | "@ + repeated(
        ' ',
        x.caret_offset,
    ) + repeated('^', x.caret_len)
}

/// The text of a diagnostic: `base`, followed by the excerpt of the span in
/// the source when both are known and the source is not empty, or by the
/// byte span itself when only the span is known.
pub open spec fn spec_render_span_error(
    base: Seq<char>,
    span: Option<(int, int)>,
    src: Option<Seq<char>>,
) -> Seq<char> {
    match span {
        None => base,
        Some((a, b)) => match src {
            Some(cs) if spec_excerpt(cs, a, b) is Some => spec_render(
                base,
                spec_excerpt(cs, a, b)->Some_0,
            ),
            _ => base + ", span="@ + decimal(a as nat) + ".."@ + decimal(b as nat),
        },
    }
}

/// The line, column and highlight of a span in a source.
#[derive(Debug)]
pub struct SpanExcerpt {
    line_number: usize,
    column_number: usize,
    line_text: String,
    caret_offset: usize,
    caret_len: usize,
}

impl SpanExcerpt {
    pub closed spec fn view(&self) -> ExcerptView {
        ExcerptView {
            line_number: self.line_number as nat,
            column_number: self.column_number as nat,
            line_text: self.line_text@,
            caret_offset: self.caret_offset as nat,
            caret_len: self.caret_len as nat,
        }
    }

    /// The excerpt of `span` in `src`; `None` when `src` is empty.
    pub fn from_source(src: &str, span: &Range<usize>) -> (r: Option<SpanExcerpt>)
        ensures
            match r {
                Some(x) => spec_excerpt(src@, span.start as int, span.end as int) == Some(x.view()),
                None => spec_excerpt(src@, span.start as int, span.end as int) is None,
            },
    {
        let cs = str_chars(src);
        if cs.len() == 0 {
            return None;
        }
        let ghost c = cs@;
        let src_len = src.as_bytes().len();
        proof {
            lemma_encode_len(src@);
            assert(src_len == utf8_len(c));
        }
        let offs = char_offsets(&cs, src_len);
        let n = cs.len();
        let a = if span.start < src_len {
            span.start
        } else {
            src_len
        };
        let b = if span.end < src_len {
            span.end
        } else {
            src_len
        };
        // Start: back to the last character boundary at or before `a`.
        let mut s: usize = n;
        while s > 0 && offs[s] > a
            invariant
                s <= n,
                n == c.len(),
                offs@.len() == n + 1,
                forall|k: int| 0 <= k <= n ==> offs@[k] == char_offset(c, k),
                floor_char(c, a as int, s as int) == floor_char(c, a as int, n as int),
            decreases s,
        {
            s = s - 1;
        }
        assert(s == floor_char(c, a as int, s as int));
        // End: forward to the first character boundary at or after `b`.
        let mut e: usize = 0;
        while e < n && offs[e] < b
            invariant
                e <= n,
                n == c.len(),
                offs@.len() == n + 1,
                forall|k: int| 0 <= k <= n ==> offs@[k] == char_offset(c, k),
                ceil_char(c, b as int, e as int) == ceil_char(c, b as int, 0),
            decreases n - e,
        {
            e = e + 1;
        }
        assert(e == ceil_char(c, b as int, e as int));
        if e < s {
            e = s;
        }
        // The line around the start.
        let mut ls: usize = s;
        while ls > 0 && cs[ls - 1] != '\n'
            invariant
                ls <= s <= n,
                n == c.len(),
                cs@ == c,
                line_start(c, ls as int) == line_start(c, s as int),
            decreases ls,
        {
            ls = ls - 1;
        }
        let mut le: usize = s;
        while le < n && cs[le] != '\n'
            invariant
                s <= le <= n,
                n == c.len(),
                cs@ == c,
                line_end(c, le as int) == line_end(c, s as int),
            decreases n - le,
        {
            le = le + 1;
        }
        // Line number: line breaks before the start, plus one.
        let mut newlines: usize = 0;
        let mut i: usize = 0;
        while i < s
            invariant
                i <= s <= n,
                n == c.len(),
                cs@ == c,
                newlines <= i,
                newlines == count_newlines(c.take(i as int)),
            decreases s - i,
        {
            assert(c.take(i + 1).drop_last() =~= c.take(i as int));
            if cs[i] == '\n' {
                newlines = newlines + 1;
            }
            i = i + 1;
        }
        // Line text without trailing carriage returns.
        let mut te: usize = le;
        while te > ls && cs[te - 1] == '\r'
            invariant
                ls <= te <= le <= n,
                n == c.len(),
                cs@ == c,
                trim_end_cr(c.subrange(ls as int, te as int)) == trim_end_cr(
                    c.subrange(ls as int, le as int),
                ),
            decreases te,
        {
            assert(c.subrange(ls as int, te as int).drop_last() =~= c.subrange(
                ls as int,
                te - 1,
            ));
            te = te - 1;
        }
        proof {
            let t = c.subrange(ls as int, te as int);
            if t.len() > 0 {
                assert(t.last() == c[te - 1]);
            }
        }
        let line_text = string_from_chars(&cs, ls, te);
        let hl: usize = if e <= s {
            if s < le {
                s + 1
            } else {
                s
            }
        } else if e < le {
            e
        } else {
            le
        };
        let caret_len: usize = if hl <= s {
            1
        } else {
            hl - s
        };
        let slots = offs.len();
        assert(newlines < slots);
        let r = SpanExcerpt {
            line_number: newlines + 1,
            column_number: s - ls + 1,
            line_text,
            caret_offset: s - ls,
            caret_len,
        };
        proof {
            let sa = span.start as int;
            let sb = span.end as int;
            assert(a as int == min_int(sa, utf8_len(c) as int));
            assert(b as int == min_int(sb, utf8_len(c) as int));
            assert(s as int == excerpt_start(c, sa));
            assert(e as int == excerpt_end(c, sa, sb));
            assert(ls as int == line_start(c, s as int));
            assert(le as int == line_end(c, s as int));
            assert(c.take(i as int) == c.take(s as int));
            let v = spec_excerpt(c, sa, sb)->Some_0;
            assert(r.view().line_number == v.line_number);
            assert(r.view().column_number == v.column_number);
            assert(r.view().line_text == v.line_text);
            assert(r.view().caret_offset == v.caret_offset);
            assert(r.view().caret_len == v.caret_len);
        }
        Some(r)
    }

    /// Renders the excerpt after the message `base`: the line and column, the
    /// source line with a gutter holding its number, and carets under the
    /// highlighted characters.
    pub fn render(&self, base: String) -> (out: String)
        ensures
            out@ == spec_render(base@, self.view()),
    {
        let ln = u64_to_decimal(self.line_number as u64);
        let gutter = repeat_char(' ', ln.as_str().unicode_len());
        let mut out = base;
        push_str(&mut out, " at line ");
        push_str(&mut out, ln.as_str());
        push_str(&mut out, ", column ");
        push_decimal(&mut out, self.column_number as u64);
        push_str(&mut out, "\n");
        push_str(&mut out, gutter.as_str());
        push_str(&mut out, " |\n");
        push_str(&mut out, ln.as_str());
        push_str(&mut out, " | ");
        push_str(&mut out, self.line_text.as_str());
        push_str(&mut out, "\n");
        push_str(&mut out, gutter.as_str());
        push_str(&mut out, " | ");
        let pad = repeat_char(' ', self.caret_offset);
        push_str(&mut out, pad.as_str());
        let carets = repeat_char('^', self.caret_len);
        push_str(&mut out, carets.as_str());
        proof {
            reveal_strlit(" at line ");
            reveal_strlit(", column ");
            reveal_strlit("\n");
            reveal_strlit(" |\n");
            reveal_strlit(" | ");
        }
        out
    }
}

/// Renders a diagnostic message with the location of its span: an excerpt
/// of the source when it is known and not empty, else the byte span.
pub fn render_span_error(base: String, span: Option<&Range<usize>>, src: Option<&str>) -> (out:
    String)
    ensures
        out@ == spec_render_span_error(
            base@,
            match span {
                Some(r) => Some((r.start as int, r.end as int)),
                None => None,
            },
            match src {
                Some(s) => Some(s@),
                None => None,
            },
        ),
{
    let span = match span {
        None => {
            return base;
        },
        Some(span) => span,
    };
    if let Some(src) = src {
        if let Some(loc) = SpanExcerpt::from_source(src, span) {
            return loc.render(base);
        }
    }
    let mut out = base;
    push_str(&mut out, ", span=");
    push_decimal(&mut out, span.start as u64);
    push_str(&mut out, "..");
    push_decimal(&mut out, span.end as u64);
    proof {
        reveal_strlit(", span=");
        reveal_strlit("..");
    }
    out
}

} // verus!
