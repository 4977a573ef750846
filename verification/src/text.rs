//! Text as a sequence of characters: lines, fields and the spans that
//! delimit them.

use vstd::prelude::*;

verus! {

/// Appending a character to a `String` adds it at the end of the text and
/// leaves the rest as it was, as the documentation of `String::push` says.
pub assume_specification[ String::push ](s: &mut String, ch: char)
    ensures
        final(s)@ == old(s)@.push(ch),
;

/// The index of the first `delim` in `s`, or the length of `s` where it
/// holds none.
pub open spec fn first_index(s: Seq<char>, delim: char) -> int
    decreases s.len(),
{
    if s.len() == 0 || s[0] == delim {
        0
    } else {
        1 + first_index(s.drop_first(), delim)
    }
}

/// The pieces of `s` between the occurrences of `delim`. A text without
/// the delimiter is one piece, and so is the empty text; a delimiter at
/// either end has an empty piece beside it.
pub open spec fn split(s: Seq<char>, delim: char) -> Seq<Seq<char>>
    decreases s.len(),
{
    let at = first_index(s, delim);
    if 0 <= at < s.len() {
        seq![s.take(at)] + split(s.skip(at + 1), delim)
    } else {
        seq![s]
    }
}

/// A line without the carriage return that may stand at its end.
pub open spec fn without_carriage_return(line: Seq<char>) -> Seq<char> {
    if line.len() > 0 && line.last() == '\r' {
        line.drop_last()
    } else {
        line
    }
}

/// The lines of a text. A line ends at a line feed, or at a carriage
/// return directly followed by one; neither belongs to the line. The last
/// line needs no line ending: a text that ends with one has the same lines
/// without it, and the empty text has no line.
pub open spec fn lines(text: Seq<char>) -> Seq<Seq<char>>
    decreases text.len(),
{
    let at = first_index(text, '\n');
    if text.len() == 0 {
        Seq::empty()
    } else if 0 <= at < text.len() {
        seq![without_carriage_return(text.take(at))] + lines(text.skip(at + 1))
    } else {
        seq![text]
    }
}

/// A span lies within a text of the given length.
pub(crate) open spec fn span_within(span: (usize, usize), len: nat) -> bool {
    span.0 <= span.1 <= len
}

/// The part of `text` that a span delimits.
pub(crate) open spec fn span_text(text: Seq<char>, span: (usize, usize)) -> Seq<char> {
    text.subrange(span.0 as int, span.1 as int)
}

/// The parts of `text` that the spans delimit, in the order of the spans.
pub(crate) open spec fn span_texts(text: Seq<char>, spans: Seq<(usize, usize)>) -> Seq<Seq<char>> {
    Seq::new(spans.len(), |i: int| span_text(text, spans[i]))
}

/// Every span lies within a text of the given length.
pub(crate) open spec fn spans_within(spans: Seq<(usize, usize)>, len: nat) -> bool {
    forall|i: int| 0 <= i < spans.len() ==> span_within(#[trigger] spans[i], len)
}

/// A text written as an unsigned decimal number: one or more of the digits
/// `0` to `9`, with or without a `+` before them.
pub open spec fn is_unsigned_integer(text: Seq<char>) -> bool {
    if text.len() > 0 && text[0] == '+' {
        is_digits(text.skip(1))
    } else {
        is_digits(text)
    }
}

/// One or more characters, each of them a digit.
pub open spec fn is_digits(text: Seq<char>) -> bool {
    text.len() > 0 && forall|i: int| 0 <= i < text.len() ==> is_digit(#[trigger] text[i])
}

/// One of the digits `0` to `9`.
pub open spec fn is_digit(c: char) -> bool {
    '0' <= c <= '9'
}

/// No delimiter stands before the first index, and one stands at it unless
/// the text holds none.
pub proof fn lemma_first_index_is_first(s: Seq<char>, delim: char)
    ensures
        0 <= first_index(s, delim) <= s.len(),
        forall|j: int| 0 <= j < first_index(s, delim) ==> s[j] != delim,
        first_index(s, delim) < s.len() ==> s[first_index(s, delim)] == delim,
    decreases s.len(),
{
    if !(s.len() == 0 || s[0] == delim) {
        let rest = s.drop_first();
        lemma_first_index_is_first(rest, delim);
        assert forall|j: int| 0 <= j < first_index(s, delim) implies s[j] != delim by {
            if j > 0 {
                assert(s[j] == rest[j - 1]);
            }
        }
    }
}

/// The first index is the one before which no delimiter stands and at
/// which one does, or the text ends.
pub proof fn lemma_first_index(s: Seq<char>, delim: char, at: int)
    requires
        0 <= at <= s.len(),
        forall|j: int| 0 <= j < at ==> s[j] != delim,
        at < s.len() ==> s[at] == delim,
    ensures
        first_index(s, delim) == at,
    decreases s.len(),
{
    if at > 0 {
        let rest = s.drop_first();
        assert forall|j: int| 0 <= j < at - 1 implies rest[j] != delim by {
            assert(rest[j] == s[j + 1]);
        }
        lemma_first_index(rest, delim, at - 1);
    }
}

/// The characters of a string slice, in order.
pub fn chars_of(text: &str) -> (chars: Vec<char>)
    ensures
        chars@ == text@,
{
    let mut chars: Vec<char> = Vec::new();
    for c in it: text.chars()
        invariant
            it.seq() == text@,
            chars@ == it.seq().take(it.index()),
    {
        chars.push(c);
    }
    chars
}

/// The string made of the given characters, in order.
pub fn string_of(chars: &[char]) -> (text: String)
    ensures
        text@ == chars@,
{
    let mut text = String::new();
    let mut i: usize = 0;
    while i < chars.len()
        invariant
            i <= chars.len(),
            text@ == chars@.take(i as int),
        decreases chars.len() - i,
    {
        text.push(chars[i]);
        i += 1;
    }
    text
}

/// Whether a text is written as an unsigned decimal number.
pub fn is_number(text: &str) -> (r: bool)
    ensures
        r == is_unsigned_integer(text@),
{
    let chars = chars_of(text);
    let len = chars.len();
    let start: usize = if len > 0 && chars[0] == '+' {
        1
    } else {
        0
    };
    let ghost digits = chars@.skip(start as int);
    proof {
        assert(chars@.skip(0) == chars@);
        assert(is_unsigned_integer(text@) == is_digits(digits));
    }
    if start == len {
        return false;
    }
    let mut i: usize = start;
    while i < len
        invariant
            start <= i <= len,
            len == chars@.len(),
            digits == chars@.skip(start as int),
            is_unsigned_integer(text@) == is_digits(digits),
            forall|j: int| 0 <= j < i - start ==> is_digit(#[trigger] digits[j]),
        decreases len - i,
    {
        let c = chars[i];
        proof {
            assert(digits[i - start] == c);
        }
        if !('0' <= c && c <= '9') {
            return false;
        }
        i += 1;
    }
    true
}

/// The place of the first `delim` in `chars[from..to]`, or `to` where
/// that part holds none.
pub fn find(chars: &[char], from: usize, to: usize, delim: char) -> (at: usize)
    requires
        from <= to <= chars.len(),
    ensures
        from <= at <= to,
        at - from == first_index(chars@.subrange(from as int, to as int), delim),
{
    let mut at: usize = from;
    while at < to && chars[at] != delim
        invariant
            from <= at <= to <= chars.len(),
            forall|j: int| from <= j < at ==> chars@[j] != delim,
        decreases to - at,
    {
        at += 1;
    }
    proof {
        lemma_first_index(chars@.subrange(from as int, to as int), delim, at - from);
    }
    at
}

/// The spans of the pieces into which `delim` splits the characters.
pub(crate) fn field_spans(chars: &[char], delim: char) -> (spans: Vec<(usize, usize)>)
    ensures
        spans_within(spans@, chars@.len()),
        span_texts(chars@, spans@) == split(chars@, delim),
{
    let len = chars.len();
    let mut spans: Vec<(usize, usize)> = Vec::new();
    let mut start: usize = 0;
    let mut open = true;
    proof {
        assert(chars@.skip(0) == chars@);
        assert(span_texts(chars@, spans@) + split(chars@, delim) == split(chars@, delim));
    }
    while open
        invariant
            len == chars@.len(),
            start <= len,
            spans_within(spans@, chars@.len()),
            open ==> split(chars@, delim) == span_texts(chars@, spans@) + split(
                chars@.skip(start as int),
                delim,
            ),
            !open ==> split(chars@, delim) == span_texts(chars@, spans@),
        decreases len - start + (if open { 1nat } else { 0nat }),
    {
        let at = find(chars, start, len, delim);
        let ghost before = spans@;
        let ghost rest = chars@.skip(start as int);
        proof {
            assert(rest == chars@.subrange(start as int, len as int));
        }
        spans.push((start, at));
        proof {
            assert(span_texts(chars@, spans@) == span_texts(chars@, before).push(
                chars@.subrange(start as int, at as int),
            ));
        }
        if at < len {
            proof {
                assert(rest.take(at - start) == chars@.subrange(start as int, at as int));
                assert(rest.skip(at - start + 1) == chars@.skip(at + 1));
                assert(span_texts(chars@, before) + (seq![rest.take(at - start)] + split(
                    rest.skip(at - start + 1),
                    delim,
                )) == span_texts(chars@, before).push(rest.take(at - start)) + split(
                    rest.skip(at - start + 1),
                    delim,
                ));
            }
            start = at + 1;
        } else {
            proof {
                assert(span_texts(chars@, before) + seq![rest] == span_texts(chars@, before).push(
                    rest,
                ));
            }
            open = false;
        }
    }
    spans
}

/// The spans of the lines of a text.
pub(crate) fn line_spans(chars: &[char]) -> (spans: Vec<(usize, usize)>)
    ensures
        spans_within(spans@, chars@.len()),
        span_texts(chars@, spans@) == lines(chars@),
{
    let len = chars.len();
    let mut spans: Vec<(usize, usize)> = Vec::new();
    let mut start: usize = 0;
    proof {
        assert(chars@.skip(0) == chars@);
        assert(span_texts(chars@, spans@) + lines(chars@) == lines(chars@));
    }
    while start < len
        invariant
            len == chars@.len(),
            start <= len,
            spans_within(spans@, chars@.len()),
            lines(chars@) == span_texts(chars@, spans@) + lines(chars@.skip(start as int)),
        decreases len - start,
    {
        let at = find(chars, start, len, '\n');
        let ghost before = spans@;
        let ghost rest = chars@.skip(start as int);
        proof {
            assert(rest == chars@.subrange(start as int, len as int));
        }
        if at < len {
            let end = if at > start && chars[at - 1] == '\r' {
                at - 1
            } else {
                at
            };
            spans.push((start, end));
            proof {
                let raw = rest.take(at - start);
                assert(raw == chars@.subrange(start as int, at as int));
                assert(without_carriage_return(raw) == chars@.subrange(start as int, end as int));
                assert(rest.skip(at - start + 1) == chars@.skip(at + 1));
                assert(span_texts(chars@, spans@) == span_texts(chars@, before).push(
                    without_carriage_return(raw),
                ));
                assert(span_texts(chars@, before) + (seq![without_carriage_return(raw)] + lines(
                    rest.skip(at - start + 1),
                )) == span_texts(chars@, before).push(without_carriage_return(raw)) + lines(
                    rest.skip(at - start + 1),
                ));
            }
            start = at + 1;
        } else {
            spans.push((start, len));
            proof {
                assert(span_texts(chars@, spans@) == span_texts(chars@, before).push(rest));
                assert(chars@.skip(len as int).len() == 0);
                assert(span_texts(chars@, before) + seq![rest] == span_texts(chars@, before).push(
                    rest,
                ) + lines(chars@.skip(len as int)));
            }
            start = len;
        }
    }
    proof {
        assert(chars@.skip(start as int).len() == 0);
        assert(span_texts(chars@, spans@) + lines(chars@.skip(start as int)) == span_texts(
            chars@,
            spans@,
        ));
    }
    spans
}

} // verus!
