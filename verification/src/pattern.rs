//! Search and replacement with regular expressions: where a pattern matches,
//! and the text with each match replaced.

use vstd::prelude::*;

use crate::text::{from_chars, to_chars};

verus! {

/// Spoken hesitations as whole words, with one space after them if there is one.
pub const FILLERS: &'static str = "\\b(?:um+|uh+|erm+|hm+)\\b ?";

/// Whitespace before a punctuation mark, and the mark.
pub const SPACED_STOP: &'static str = "\\s+([,.!?;:])";

/// Two or more blanks in a row.
pub const BLANK_RUN: &'static str = "[ \\t]{2,}";

/// The cue for a new paragraph, with what clings to it.
pub const PARAGRAPH_CUE: &'static str = " ?\\bnew paragraphs?\\b[,.!?;:]* ?";

/// The cue for a new line, with what clings to it.
pub const LINE_CUE: &'static str = " ?\\b(?:new lines?|newlines?)\\b[,.!?;:]* ?";

/// A character that makes up words.
pub const WORD_CHAR: &'static str = "\\w";

/// The patterns above that this crate searches for, each with whether it ignores case.
pub open spec fn is_fixed(pattern: Seq<char>, ignore_case: bool) -> bool {
    if ignore_case {
        pattern == FILLERS@ || pattern == PARAGRAPH_CUE@ || pattern == LINE_CUE@
    } else {
        pattern == SPACED_STOP@ || pattern == BLANK_RUN@
    }
}

/// The number of bytes that a character takes in UTF-8.
pub open spec fn utf8_width(c: char) -> nat {
    let u = c as u32;
    if u < 0x80 {
        1
    } else if u < 0x800 {
        2
    } else if u < 0x10000 {
        3
    } else {
        4
    }
}

/// The byte offset of the character at `i`.
pub open spec fn byte_at(t: Seq<char>, i: int) -> nat
    decreases i,
{
    if i <= 0 {
        0
    } else {
        byte_at(t, i - 1) + utf8_width(t[i - 1])
    }
}

/// `off` is the byte offset of the character at `i`, or of the end of the text.
pub open spec fn starts_at(t: Seq<char>, i: int, off: usize) -> bool {
    0 <= i <= t.len() && byte_at(t, i) == off
}

/// The position of the character whose byte offset is `off`.
pub open spec fn char_at(t: Seq<char>, off: usize) -> int {
    choose|i: int| starts_at(t, i, off)
}

/// Spans of bytes as spans of characters.
pub open spec fn in_chars(t: Seq<char>, spans: Seq<(usize, usize)>) -> Seq<(int, int)> {
    Seq::new(spans.len(), |k: int| (char_at(t, spans[k].0), char_at(t, spans[k].1)))
}

/// Every span lies between two characters of the text and ends no earlier than
/// it starts; no span starts before an earlier one has ended.
pub open spec fn are_spans(t: Seq<char>, spans: Seq<(usize, usize)>) -> bool {
    &&& forall|k: int| 0 <= k < spans.len() ==> (#[trigger] spans[k]).0 <= spans[k].1
    &&& forall|k: int|
        0 <= k < spans.len() ==> (exists|i: int| starts_at(t, i, (#[trigger] spans[k]).0))
    &&& forall|k: int|
        0 <= k < spans.len() ==> (exists|i: int| starts_at(t, i, (#[trigger] spans[k]).1))
    &&& forall|j: int, k: int|
        0 <= j < k < spans.len() ==> (#[trigger] spans[j]).1 <= (#[trigger] spans[k]).0
}

/// The characters of most Latin and Cyrillic text, for which word edges and
/// letter case are stated below. The long s is left out: it is the other case
/// of an ASCII letter.
pub open spec fn is_plain(c: char) -> bool {
    let u = c as u32;
    ||| u <= 0x2c1 && u != 0x17f
    ||| 0x400 <= u <= 0x481
    ||| 0x2010 <= u <= 0x2027
}

pub open spec fn all_plain(t: Seq<char>) -> bool {
    forall|i: int| 0 <= i < t.len() ==> is_plain(#[trigger] t[i])
}

/// The characters of which it is spelled out below whether they make up words.
pub open spec fn is_charted(c: char) -> bool {
    let u = c as u32;
    ||| u <= 0x2c1
    ||| 0x400 <= u <= 0x481
    ||| 0x2010 <= u <= 0x2027
    ||| crate::text::is_white(c)
}

/// The charted characters that make up words.
pub open spec fn is_charted_word(c: char) -> bool {
    let u = c as u32;
    ||| crate::text::is_ascii_alnum(c)
    ||| c == '_'
    ||| u == 0xaa || u == 0xb5 || u == 0xba
    ||| 0xc0 <= u <= 0x2c1 && u != 0xd7 && u != 0xf7
    ||| 0x400 <= u <= 0x481
}

/// The characters that make up words. Beyond the charted ones, they are those
/// that match as word characters when they stand alone.
pub open spec fn is_word_char(c: char) -> bool {
    if is_charted(c) {
        is_charted_word(c)
    } else {
        regex_spans(WORD_CHAR@, false, usize::BITS, seq![c]) matches Some(spans) && spans.len() > 0
    }
}

pub open spec fn word_at(t: Seq<char>, i: int) -> bool {
    0 <= i < t.len() && is_word_char(t[i])
}

/// A word starts or ends between the characters at `i - 1` and `i`.
pub open spec fn edge(t: Seq<char>, i: int) -> bool {
    word_at(t, i - 1) != word_at(t, i)
}

/// `phrase` stands at `i`, in any case.
pub open spec fn reads(t: Seq<char>, i: int, phrase: Seq<char>) -> bool {
    &&& 0 <= i
    &&& i + phrase.len() <= t.len()
    &&& crate::text::ascii_lowered(t.subrange(i, i + phrase.len())) == crate::text::ascii_lowered(
        phrase,
    )
}

/// `phrase` stands at `i` with a word edge on either side.
pub open spec fn stands_at(t: Seq<char>, i: int, phrase: Seq<char>) -> bool {
    reads(t, i, phrase) && edge(t, i) && edge(t, i + phrase.len())
}

/// All characters from `from` on are `c`, and there is one at least.
pub open spec fn is_run(s: Seq<char>, from: int, c: char) -> bool {
    from < s.len() && forall|i: int| from <= i < s.len() ==> #[trigger] s[i] == c
}

/// "um", "uh", "erm" or "hm", drawn out or not, in any case.
pub open spec fn is_filler(word: Seq<char>) -> bool {
    let s = crate::text::ascii_lowered(word);
    ||| s.len() > 1 && s[0] == 'u' && (is_run(s, 1, 'm') || is_run(s, 1, 'h'))
    ||| s.len() > 2 && s[0] == 'e' && s[1] == 'r' && is_run(s, 2, 'm')
    ||| s.len() > 1 && s[0] == 'h' && is_run(s, 1, 'm')
}

/// The position behind one space at `i`, or `i` where no space stands.
pub open spec fn past_space(t: Seq<char>, i: int) -> int {
    if 0 <= i < t.len() && t[i] == ' ' {
        i + 1
    } else {
        i
    }
}

/// A filler word with the space behind it goes from `a` to `b`.
pub open spec fn filler_at(t: Seq<char>, a: int, b: int) -> bool {
    exists|e: int|
        0 <= a < e <= t.len() && edge(t, a) && edge(t, e) && is_filler(#[trigger] t.subrange(a, e))
            && b == past_space(t, e)
}

pub open spec fn is_stop(c: char) -> bool {
    c == ',' || c == '.' || c == '!' || c == '?' || c == ';' || c == ':'
}

/// Whitespace and the punctuation mark behind it go from `a` to `b`.
pub open spec fn spaced_stop_at(t: Seq<char>, a: int, b: int) -> bool {
    &&& 0 <= a < b - 1
    &&& b <= t.len()
    &&& is_stop(t[b - 1])
    &&& forall|i: int| a <= i < b - 1 ==> crate::text::is_white(#[trigger] t[i])
}

pub open spec fn is_blank_char(c: char) -> bool {
    c == ' ' || c == '\t'
}

/// At least two blanks go from `a` to `b`, and no blank stands at `b`.
pub open spec fn blank_run_at(t: Seq<char>, a: int, b: int) -> bool {
    &&& 0 <= a < b - 1
    &&& b <= t.len()
    &&& forall|i: int| a <= i < b ==> is_blank_char(#[trigger] t[i])
    &&& b < t.len() ==> !is_blank_char(t[b])
}

/// Punctuation marks go from `e` to `m`, and none stands at `m`.
pub open spec fn stops_between(t: Seq<char>, e: int, m: int) -> bool {
    &&& e <= m <= t.len()
    &&& forall|i: int| e <= i < m ==> is_stop(#[trigger] t[i])
    &&& m < t.len() ==> !is_stop(t[m])
}

/// An "s" stands at `i`, in any case; the long s is one too.
pub open spec fn ess_at(t: Seq<char>, i: int) -> bool {
    0 <= i < t.len() && (t[i] == 's' || t[i] == 'S' || t[i] == '\u{17f}')
}

/// A spoken cue goes from `a` to `b`: one of `words`, or one with an "s" at its
/// end, with one space before it, the marks behind it and one space behind those.
pub open spec fn cue_at(t: Seq<char>, words: Seq<Seq<char>>, a: int, b: int) -> bool {
    exists|k: int, e: int, m: int|
        {
            let w = past_space(t, a);
            &&& 0 <= k < words.len()
            &&& e == w + words[k].len() || e == w + words[k].len() + 1 && ess_at(t, e - 1)
            &&& reads(t, w, #[trigger] words[k])
            &&& edge(t, w)
            &&& edge(t, e)
            &&& #[trigger] stops_between(t, e, m)
            &&& b == past_space(t, m)
        }
}

pub open spec fn paragraph_words() -> Seq<Seq<char>> {
    seq!["new paragraph"@]
}

pub open spec fn line_words() -> Seq<Seq<char>> {
    seq!["new line"@, "newline"@]
}

/// The first of `phrases` that stands at `a` ends at `b`.
pub open spec fn first_phrase_at(t: Seq<char>, phrases: Seq<Seq<char>>, a: int, b: int) -> bool {
    exists|j: int|
        {
            &&& 0 <= j < phrases.len()
            &&& stands_at(t, a, #[trigger] phrases[j])
            &&& b == a + phrases[j].len()
            &&& forall|i: int| 0 <= i < j ==> !stands_at(t, a, #[trigger] phrases[i])
        }
}

/// Where the search for span `k` begins.
pub open spec fn resumes_at(spans: Seq<(int, int)>, k: int) -> int {
    if k <= 0 {
        0
    } else {
        spans[k - 1].1
    }
}

/// From the left, the spans are all the places where `hit` holds: each one is
/// such a place, and none starts in the gap before it or behind the last one.
pub open spec fn finds(
    t: Seq<char>,
    spans: Seq<(int, int)>,
    hit: spec_fn(int, int) -> bool,
) -> bool {
    &&& forall|k: int| 0 <= k < spans.len() ==> hit((#[trigger] spans[k]).0, spans[k].1)
    &&& forall|k: int, a: int, b: int|
        0 <= k <= spans.len() && #[trigger] resumes_at(spans, k) <= a && (k < spans.len() ==> a
            < spans[k].0) ==> !#[trigger] hit(a, b)
}

/// The characters that have a meaning of their own in a pattern.
pub open spec fn is_meta(c: char) -> bool {
    ||| c == '\\' || c == '.' || c == '+' || c == '*' || c == '?' || c == '(' || c == ')'
    ||| c == '|' || c == '[' || c == ']' || c == '{' || c == '}' || c == '^' || c == '$'
    ||| c == '#' || c == '&' || c == '-' || c == '~'
}

/// `s` with a backslash before each character that has a meaning in a pattern.
pub open spec fn escaped(s: Seq<char>) -> Seq<char>
    decreases s.len(),
{
    if s.len() == 0 {
        seq![]
    } else if is_meta(s.last()) {
        escaped(s.drop_last()) + seq!['\\', s.last()]
    } else {
        escaped(s.drop_last()).push(s.last())
    }
}

/// The escaped phrases with a bar between them.
pub open spec fn barred(phrases: Seq<Seq<char>>) -> Seq<char>
    decreases phrases.len(),
{
    if phrases.len() == 0 {
        seq![]
    } else if phrases.len() == 1 {
        escaped(phrases[0])
    } else {
        barred(phrases.drop_last()).push('|') + escaped(phrases.last())
    }
}

/// The pattern for any of `phrases` between word edges.
pub open spec fn any_of(phrases: Seq<Seq<char>>) -> Seq<char> {
    "\\b(?:"@ + barred(phrases) + ")\\b"@
}

/// What `regex` finds: the spans of bytes at which a pattern matches, or nothing
/// where it does not compile. A pattern is refused by its syntax or by the size
/// of its compiled form, which depends on the width of a machine word.
pub uninterp spec fn regex_spans(
    pattern: Seq<char>,
    ignore_case: bool,
    word_bits: u32,
    text: Seq<char>,
) -> Option<Seq<(usize, usize)>>;

/// What the patterns of this crate match. For a choice of ASCII phrases between
/// word edges it is said for plain text: the leftmost place where one stands, and
/// there the first phrase of the choice.
pub open spec fn matches_as_stated(
    pattern: Seq<char>,
    ignore_case: bool,
    t: Seq<char>,
    spans: Seq<(int, int)>,
) -> bool {
    &&& pattern == SPACED_STOP@ && !ignore_case ==> finds(
        t,
        spans,
        |a: int, b: int| spaced_stop_at(t, a, b),
    )
    &&& pattern == BLANK_RUN@ && !ignore_case ==> finds(
        t,
        spans,
        |a: int, b: int| blank_run_at(t, a, b),
    )
    &&& pattern == FILLERS@ && ignore_case ==> finds(
        t,
        spans,
        |a: int, b: int| filler_at(t, a, b),
    )
    &&& pattern == PARAGRAPH_CUE@ && ignore_case ==> finds(
        t,
        spans,
        |a: int, b: int| cue_at(t, paragraph_words(), a, b),
    )
    &&& pattern == LINE_CUE@ && ignore_case ==> finds(
        t,
        spans,
        |a: int, b: int| cue_at(t, line_words(), a, b),
    )
    &&& forall|phrases: Seq<Seq<char>>|
        pattern == #[trigger] any_of(phrases) && ignore_case && all_plain(t) && phrases.len() > 0
            && (forall|i: int|
            0 <= i < phrases.len() ==> (#[trigger] phrases[i]).len() > 0 && crate::text::all_ascii(
                phrases[i],
            )) ==> finds(t, spans, |a: int, b: int| first_phrase_at(t, phrases, a, b))
}

/// `regex::RegexBuilder::build` and `regex::Regex::find_iter`: the spans of the
/// successive matches of `pattern` in `text`, in bytes, or nothing where the
/// pattern does not compile. They depend on the arguments (and, by the limit on
/// a compiled pattern, on the width of a machine word), lie between characters,
/// and do not overlap. The fixed patterns of this crate compile, and match as
/// stated above in every text. Word edges go by the class of word characters; which
/// characters beyond the charted ones belong to it is left to what is found in them
/// alone. What other patterns match is left unsaid, but for a choice of ASCII
/// phrases in plain text.
#[verifier::external_body]
pub(crate) fn find_spans(pattern: &str, ignore_case: bool, text: &str) -> (r: Option<
    Vec<(usize, usize)>,
>)
    ensures
        r is Some <==> regex_spans(pattern@, ignore_case, usize::BITS, text@) is Some,
        r matches Some(v) ==> regex_spans(pattern@, ignore_case, usize::BITS, text@) == Some(v@),
        r matches Some(v) ==> are_spans(text@, v@),
        is_fixed(pattern@, ignore_case) ==> r is Some,
        r matches Some(v) ==> matches_as_stated(
            pattern@,
            ignore_case,
            text@,
            in_chars(text@, v@),
        ),
{
    let found = regex::RegexBuilder::new(pattern).case_insensitive(ignore_case).build().ok()?;
    Some(found.find_iter(text).map(|m| (m.start(), m.end())).collect())
}

/// `regex::escape` puts a backslash before each character that has a meaning of
/// its own in a pattern and keeps the others as they are.
#[verifier::external_body]
pub(crate) fn escape(s: &str) -> (r: String)
    ensures
        r@ == escaped(s@),
{
    regex::escape(s)
}

proof fn lemma_byte_at_grows(t: Seq<char>, i: int, j: int)
    requires
        0 <= i <= j <= t.len(),
    ensures
        byte_at(t, i) + (j - i) <= byte_at(t, j),
    decreases j - i,
{
    if i < j {
        lemma_byte_at_grows(t, i, j - 1);
    }
}

proof fn lemma_char_at(t: Seq<char>, i: int, off: usize)
    requires
        starts_at(t, i, off),
    ensures
        char_at(t, off) == i,
{
    let j = char_at(t, off);
    assert(starts_at(t, j, off));
    if i < j {
        lemma_byte_at_grows(t, i, j);
    } else if j < i {
        lemma_byte_at_grows(t, j, i);
    }
}

/// Spans of characters that lie in the text, in order and without overlap.
pub open spec fn are_char_spans(t: Seq<char>, spans: Seq<(int, int)>) -> bool {
    &&& forall|k: int|
        0 <= k < spans.len() ==> 0 <= (#[trigger] spans[k]).0 <= spans[k].1 <= t.len()
    &&& forall|j: int, k: int|
        0 <= j < k < spans.len() ==> (#[trigger] spans[j]).1 <= (#[trigger] spans[k]).0
}

pub proof fn lemma_char_spans(t: Seq<char>, spans: Seq<(usize, usize)>)
    requires
        are_spans(t, spans),
    ensures
        are_char_spans(t, in_chars(t, spans)),
        forall|k: int|
            0 <= k < spans.len() ==> starts_at(t, in_chars(t, spans)[k].0, (#[trigger] spans[k]).0)
                && starts_at(t, in_chars(t, spans)[k].1, spans[k].1),
{
    let c = in_chars(t, spans);
    assert forall|k: int| 0 <= k < spans.len() implies starts_at(t, c[k].0, (#[trigger] spans[k]).0)
        && starts_at(t, c[k].1, spans[k].1) by {
        let i = choose|i: int| starts_at(t, i, spans[k].0);
        lemma_char_at(t, i, spans[k].0);
        let j = choose|j: int| starts_at(t, j, spans[k].1);
        lemma_char_at(t, j, spans[k].1);
    }
    assert forall|k: int| 0 <= k < c.len() implies 0 <= (#[trigger] c[k]).0 <= c[k].1 <= t.len() by {
        assert(starts_at(t, c[k].0, spans[k].0));
        if c[k].1 < c[k].0 {
            lemma_byte_at_grows(t, c[k].1, c[k].0);
        }
    }
    assert forall|j: int, k: int| 0 <= j < k < c.len() implies (#[trigger] c[j]).1 <= (
    #[trigger] c[k]).0 by {
        assert(spans[j].1 <= spans[k].0);
        if c[k].0 < c[j].1 {
            lemma_byte_at_grows(t, c[k].0, c[j].1);
        }
    }
}

/// The text of each span.
pub open spec fn matched(t: Seq<char>, spans: Seq<(int, int)>) -> Seq<Seq<char>> {
    Seq::new(spans.len(), |k: int| t.subrange(spans[k].0, spans[k].1))
}

/// The first `n` spans replaced, together with the text before each of them.
pub open spec fn woven(
    t: Seq<char>,
    spans: Seq<(int, int)>,
    with: Seq<Seq<char>>,
    n: int,
) -> Seq<char>
    decreases n,
{
    if n <= 0 {
        seq![]
    } else {
        woven(t, spans, with, n - 1) + t.subrange(resumes_at(spans, n - 1), spans[n - 1].0)
            + with[n - 1]
    }
}

/// The text with each span replaced.
pub open spec fn replaced(t: Seq<char>, spans: Seq<(int, int)>, with: Seq<Seq<char>>) -> Seq<char> {
    let n = spans.len() as int;
    woven(t, spans, with, n) + t.skip(resumes_at(spans, n))
}

/// What strings hold.
pub open spec fn views(v: Seq<String>) -> Seq<Seq<char>> {
    v.map_values(|s: String| s@)
}

/// Spans of machine integers as spans of integers.
spec fn as_ints(v: Seq<(usize, usize)>) -> Seq<(int, int)> {
    Seq::new(v.len(), |k: int| (v[k].0 as int, v[k].1 as int))
}

fn width(c: char) -> (w: usize)
    ensures
        w == utf8_width(c),
{
    let u = c as u32;
    if u < 0x80 {
        1
    } else if u < 0x800 {
        2
    } else if u < 0x10000 {
        3
    } else {
        4
    }
}

/// The position `by` bytes behind the character at `i`.
fn advance(t: &Vec<char>, i: usize, by: usize, Ghost(j): Ghost<int>) -> (r: usize)
    requires
        i <= j <= t.len(),
        byte_at(t@, j) == byte_at(t@, i as int) + by,
    ensures
        r == j,
{
    let mut at = i;
    let mut left = by;
    while left > 0
        invariant
            i <= at <= j <= t.len(),
            byte_at(t@, j) == byte_at(t@, at as int) + left,
        decreases left,
    {
        proof {
            if at < j {
                lemma_byte_at_grows(t@, at + 1, j);
            }
        }
        left = left - width(t[at]);
        at = at + 1;
    }
    proof {
        lemma_byte_at_grows(t@, at as int, j);
    }
    at
}

/// Spans of bytes as spans of characters.
fn char_spans(t: &Vec<char>, spans: &Vec<(usize, usize)>) -> (r: Vec<(usize, usize)>)
    requires
        are_spans(t@, spans@),
    ensures
        as_ints(r@) == in_chars(t@, spans@),
{
    let mut r: Vec<(usize, usize)> = Vec::new();
    let mut at: usize = 0;
    let mut off: usize = 0;
    let ghost c = in_chars(t@, spans@);
    proof {
        lemma_char_spans(t@, spans@);
    }
    for k in 0..spans.len()
        invariant
            are_spans(t@, spans@),
            c == in_chars(t@, spans@),
            are_char_spans(t@, c),
            r.len() == k,
            as_ints(r@) == c.take(k as int),
            at == resumes_at(c, k as int),
            off == (if k == 0 { 0 } else { spans@[k - 1].1 as int }),
            starts_at(t@, at as int, off),
    {
        proof {
            lemma_char_spans(t@, spans@);
            assert(starts_at(t@, c[k as int].0, spans@[k as int].0));
            if k > 0 {
                assert(spans@[k - 1].1 <= spans@[k as int].0);
                assert(c[k - 1].1 <= c[k as int].0);
            }
            assert(0 <= c[k as int].0 <= c[k as int].1 <= t@.len());
        }
        let (start, end) = spans[k];
        let a = advance(t, at, start - off, Ghost(c[k as int].0));
        let b = advance(t, a, end - start, Ghost(c[k as int].1));
        r.push((a, b));
        at = b;
        off = end;
        assert(as_ints(r@) =~= c.take(k + 1));
    }
    assert(c.take(spans@.len() as int) =~= c);
    r
}

/// The text of each span.
pub fn matched_texts(text: &str, spans: &Vec<(usize, usize)>) -> (r: Vec<String>)
    requires
        are_spans(text@, spans@),
    ensures
        views(r@) == matched(text@, in_chars(text@, spans@)),
{
    let t = to_chars(text);
    let c = char_spans(&t, spans);
    let mut r: Vec<String> = Vec::new();
    let ghost m = matched(text@, in_chars(text@, spans@));
    proof {
        lemma_char_spans(t@, spans@);
    }
    for k in 0..c.len()
        invariant
            t@ == text@,
            as_ints(c@) == in_chars(t@, spans@),
            are_char_spans(t@, as_ints(c@)),
            m == matched(text@, as_ints(c@)),
            views(r@) == m.take(k as int),
    {
        assert(as_ints(c@)[k as int] == (c@[k as int].0 as int, c@[k as int].1 as int));
        let s = text_between(&t, c[k].0, c[k].1);
        let ghost before = r@;
        r.push(from_chars(&s));
        assert(views(r@) =~= views(before).push(s@));
        assert(views(r@) =~= m.take(k + 1));
    }
    assert(m.take(c@.len() as int) =~= m);
    r
}

/// The characters from `a` to `b`.
fn text_between(t: &Vec<char>, a: usize, b: usize) -> (r: Vec<char>)
    requires
        a <= b <= t.len(),
    ensures
        r@ == t@.subrange(a as int, b as int),
{
    let mut r: Vec<char> = Vec::new();
    append_between(&mut r, t, a, b);
    assert(r@ =~= t@.subrange(a as int, b as int));
    r
}

/// Appends the characters from `a` to `b`.
fn append_between(out: &mut Vec<char>, t: &Vec<char>, a: usize, b: usize)
    requires
        a <= b <= t.len(),
    ensures
        final(out)@ == old(out)@ + t@.subrange(a as int, b as int),
{
    let ghost start = out@;
    for i in a..b
        invariant
            a <= b <= t.len(),
            out@ == start + t@.subrange(a as int, i as int),
    {
        out.push(t[i]);
        assert(t@.subrange(a as int, i + 1) =~= t@.subrange(a as int, i as int).push(t@[i as int]));
    }
}

/// The text with the span `k` replaced by `with[k]`, for every `k`.
pub fn replace_spans(text: &str, spans: &Vec<(usize, usize)>, with: &Vec<String>) -> (r: String)
    requires
        are_spans(text@, spans@),
        with.len() == spans.len(),
    ensures
        r@ == replaced(text@, in_chars(text@, spans@), views(with@)),
{
    let t = to_chars(text);
    let c = char_spans(&t, spans);
    let mut out: Vec<char> = Vec::new();
    let mut at: usize = 0;
    let ghost ints = as_ints(c@);
    proof {
        lemma_char_spans(t@, spans@);
        assert(ints.len() == in_chars(t@, spans@).len());
    }
    for k in 0..c.len()
        invariant
            t@ == text@,
            ints == as_ints(c@),
            are_char_spans(t@, ints),
            with.len() == c.len(),
            at == resumes_at(ints, k as int),
            at <= t.len(),
            out@ == woven(t@, ints, views(with@), k as int),
    {
        proof {
            assert(ints[k as int] == (c@[k as int].0 as int, c@[k as int].1 as int));
            if k > 0 {
                assert(ints[k - 1].1 <= ints[k as int].0);
            }
        }
        let (a, b) = c[k];
        append_between(&mut out, &t, at, a);
        let w = to_chars(with[k].as_str());
        append_between(&mut out, &w, 0, w.len());
        assert(w@.subrange(0, w@.len() as int) =~= views(with@)[k as int]);
        at = b;
        assert(out@ =~= woven(t@, ints, views(with@), k + 1));
    }
    append_between(&mut out, &t, at, t.len());
    assert(t@.subrange(at as int, t@.len() as int) =~= t@.skip(at as int));
    from_chars(&out)
}

/// `text` with each match of the pattern replaced by `with`; the text itself
/// where the pattern does not compile.
pub open spec fn replaced_all(
    pattern: Seq<char>,
    ignore_case: bool,
    t: Seq<char>,
    with: Seq<char>,
) -> Seq<char> {
    match regex_spans(pattern, ignore_case, usize::BITS, t) {
        Some(spans) => replaced(t, in_chars(t, spans), Seq::new(spans.len(), |k: int| with)),
        None => t,
    }
}

/// Spans of the text at which the pattern matches.
pub open spec fn is_search(
    pattern: Seq<char>,
    ignore_case: bool,
    t: Seq<char>,
    spans: Seq<(int, int)>,
) -> bool {
    are_char_spans(t, spans) && matches_as_stated(pattern, ignore_case, t, spans)
}

/// `text` with each match of the pattern replaced by `with`.
pub fn replace_all(pattern: &str, ignore_case: bool, text: &str, with: &str) -> (r: String)
    ensures
        r@ == replaced_all(pattern@, ignore_case, text@, with@),
        is_fixed(pattern@, ignore_case) ==> exists|spans: Seq<(int, int)>|
            is_search(pattern@, ignore_case, text@, spans) && r@ == replaced(
                text@,
                spans,
                Seq::new(spans.len(), |k: int| with@),
            ),
{
    match find_spans(pattern, ignore_case, text) {
        Some(spans) => {
            let mut each: Vec<String> = Vec::new();
            for k in 0..spans.len()
                invariant
                    each.len() == k,
                    forall|i: int| 0 <= i < k ==> (#[trigger] each[i])@ == with@,
            {
                each.push(with.to_owned());
            }
            assert(views(each@) =~= Seq::new(spans@.len(), |k: int| with@));
            proof {
                lemma_char_spans(text@, spans@);
                let c = in_chars(text@, spans@);
                assert(Seq::new(c.len(), |k: int| with@) =~= Seq::new(spans@.len(), |k: int| with@));
                assert(is_search(pattern@, ignore_case, text@, c));
            }
            replace_spans(text, &spans, &each)
        },
        None => text.to_owned(),
    }
}

} // verus!
