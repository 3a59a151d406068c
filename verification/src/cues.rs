//! Why no spoken cue is left once cues have given way to line breaks.

use vstd::prelude::*;

verus! {

/// A phrase that starts and ends with a word character and has no line break.
pub open spec fn is_cue_phrase(p: Seq<char>) -> bool {
    let low = crate::text::ascii_lowered(p);
    &&& p.len() > 0
    &&& crate::pattern::is_word_char(low[0])
    &&& crate::pattern::is_word_char(low[p.len() - 1])
    &&& forall|i: int| 0 <= i < p.len() ==> #[trigger] low[i] != '\n'
}

pub open spec fn are_cue_phrases(words: Seq<Seq<char>>) -> bool {
    forall|k: int| 0 <= k < words.len() ==> is_cue_phrase(#[trigger] words[k])
}

/// The core of a cue, without spaces and marks, goes from `w` to `e`.
pub open spec fn core_at(t: Seq<char>, words: Seq<Seq<char>>, w: int, e: int) -> bool {
    exists|k: int|
        {
            &&& 0 <= k < words.len()
            &&& crate::pattern::reads(t, w, #[trigger] words[k])
            &&& e == w + words[k].len() || e == w + words[k].len() + 1 && crate::pattern::ess_at(
                t,
                e - 1,
            )
            &&& crate::pattern::edge(t, w)
            &&& crate::pattern::edge(t, e)
        }
}

proof fn lemma_lower_word_char(c: char)
    ensures
        crate::pattern::is_word_char(crate::text::ascii_lower(c)) == crate::pattern::is_word_char(
            c,
        ),
        crate::text::ascii_lower(c) == '\n' <==> c == '\n',
{
}

/// A core starts and ends with a word character, and has no line break.
proof fn lemma_core(t: Seq<char>, words: Seq<Seq<char>>, w: int, e: int)
    requires
        core_at(t, words, w, e),
        are_cue_phrases(words),
    ensures
        0 <= w < e <= t.len(),
        crate::pattern::word_at(t, w),
        crate::pattern::word_at(t, e - 1),
        !crate::pattern::word_at(t, w - 1),
        !crate::pattern::word_at(t, e),
        forall|i: int| w <= i < e ==> #[trigger] t[i] != '\n',
{
    let k = choose|k: int|
        {
            &&& 0 <= k < words.len()
            &&& crate::pattern::reads(t, w, #[trigger] words[k])
            &&& e == w + words[k].len() || e == w + words[k].len() + 1 && crate::pattern::ess_at(
                t,
                e - 1,
            )
            &&& crate::pattern::edge(t, w)
            &&& crate::pattern::edge(t, e)
        };
    let p = words[k];
    let n = p.len() as int;
    let low = crate::text::ascii_lowered(p);
    let part = t.subrange(w, w + n);
    assert(is_cue_phrase(p));
    assert forall|i: int| 0 <= i < n implies #[trigger] low[i] == crate::text::ascii_lower(t[w + i]) by {
        assert(crate::text::ascii_lowered(part)[i] == crate::text::ascii_lower(part[i]));
    }
    assert(low[0] == crate::text::ascii_lower(t[w + 0]));
    assert(low[n - 1] == crate::text::ascii_lower(t[w + (n - 1)]));
    lemma_lower_word_char(t[w]);
    lemma_lower_word_char(t[w + n - 1]);
    if e == w + n + 1 {
        assert(crate::pattern::is_word_char(t[e - 1]));
    }
    assert forall|i: int| w <= i < e implies #[trigger] t[i] != '\n' by {
        lemma_lower_word_char(t[i]);
        if i < w + n {
            assert(low[i - w] == crate::text::ascii_lower(t[w + (i - w)]));
        }
    }
}

/// A cue has a core.
proof fn lemma_cue_has_core(t: Seq<char>, words: Seq<Seq<char>>, a: int, b: int) -> (r: (int, int))
    requires
        crate::pattern::cue_at(t, words, a, b),
        are_cue_phrases(words),
    ensures
        core_at(t, words, r.0, r.1),
        r.0 == crate::pattern::past_space(t, a),
        a <= r.0 < r.1 <= b <= t.len(),
        b > r.1 ==> !crate::pattern::is_word_char(t[b - 1]),
{
    let (k, e, m) = choose|k: int, e: int, m: int|
        {
            let w = crate::pattern::past_space(t, a);
            &&& 0 <= k < words.len()
            &&& e == w + words[k].len() || e == w + words[k].len() + 1 && crate::pattern::ess_at(
                t,
                e - 1,
            )
            &&& crate::pattern::reads(t, w, #[trigger] words[k])
            &&& crate::pattern::edge(t, w)
            &&& crate::pattern::edge(t, e)
            &&& #[trigger] crate::pattern::stops_between(t, e, m)
            &&& b == crate::pattern::past_space(t, m)
        };
    let w = crate::pattern::past_space(t, a);
    assert(crate::pattern::reads(t, w, words[k]));
    assert(core_at(t, words, w, e));
    lemma_core(t, words, w, e);
    if b > e && b == m {
        assert(crate::pattern::is_stop(t[m - 1]));
    }
    (w, e)
}

/// Where the marks from `e` on end.
proof fn marks_end(t: Seq<char>, e: int, m: int) -> (r: int)
    requires
        0 <= e <= m <= t.len(),
        forall|i: int| e <= i < m ==> crate::pattern::is_stop(#[trigger] t[i]),
    ensures
        crate::pattern::stops_between(t, e, r),
    decreases t.len() - m,
{
    if m < t.len() && crate::pattern::is_stop(t[m]) {
        marks_end(t, e, m + 1)
    } else {
        m
    }
}

/// A core is part of a cue.
pub proof fn lemma_core_makes_cue(t: Seq<char>, words: Seq<Seq<char>>, w: int, e: int) -> (b: int)
    requires
        core_at(t, words, w, e),
        are_cue_phrases(words),
    ensures
        crate::pattern::cue_at(t, words, w, b),
{
    lemma_core(t, words, w, e);
    let m = marks_end(t, e, e);
    let k = choose|k: int|
        {
            &&& 0 <= k < words.len()
            &&& crate::pattern::reads(t, w, #[trigger] words[k])
            &&& e == w + words[k].len() || e == w + words[k].len() + 1 && crate::pattern::ess_at(
                t,
                e - 1,
            )
            &&& crate::pattern::edge(t, w)
            &&& crate::pattern::edge(t, e)
        };
    assert(crate::pattern::past_space(t, w) == w);
    assert(crate::pattern::reads(t, crate::pattern::past_space(t, w), words[k]));
    assert(crate::pattern::stops_between(t, e, m));
    crate::pattern::past_space(t, m)
}

/// A stretch of the text between spans, and where it comes to stand.
pub open spec fn gap_stands(
    t: Seq<char>,
    spans: Seq<(int, int)>,
    out: Seq<char>,
    k: int,
    at: int,
) -> bool {
    let from = crate::pattern::resumes_at(spans, k);
    let end = crate::words::gap_end(t, spans, k);
    &&& 0 <= k <= spans.len()
    &&& 0 <= from <= end <= t.len()
    &&& 0 <= at
    &&& at + (end - from) <= out.len()
    &&& out.subrange(at, at + (end - from)) == t.subrange(from, end)
}

/// What is made of line breaks only.
pub open spec fn is_break(s: Seq<char>) -> bool {
    s.len() > 0 && forall|i: int| 0 <= i < s.len() ==> #[trigger] s[i] == '\n'
}

proof fn lemma_locate_woven(
    t: Seq<char>,
    spans: Seq<(int, int)>,
    with: Seq<Seq<char>>,
    n: int,
    w: int,
    e: int,
) -> (r: (int, int))
    requires
        crate::pattern::are_char_spans(t, spans),
        with.len() == spans.len(),
        forall|k: int| 0 <= k < with.len() ==> is_break(#[trigger] with[k]),
        0 <= n <= spans.len(),
        0 <= w < e <= crate::pattern::woven(t, spans, with, n).len(),
        forall|i: int|
            w <= i < e ==> #[trigger] crate::pattern::woven(t, spans, with, n)[i] != '\n',
    ensures
        gap_stands(t, spans, crate::pattern::woven(t, spans, with, n), r.0, r.1),
        r.1 <= w,
        e <= r.1 + (crate::words::gap_end(t, spans, r.0) - crate::pattern::resumes_at(spans, r.0)),
    decreases n,
{
    let all = crate::pattern::woven(t, spans, with, n);
    let k = n - 1;
    let before = crate::pattern::woven(t, spans, with, k);
    let from = crate::pattern::resumes_at(spans, k);
    let (a, b) = spans[k];
    if k > 0 {
        assert(spans[k - 1].1 <= spans[k].0);
        assert(0 <= spans[k - 1].0 <= spans[k - 1].1);
    }
    assert(0 <= a <= b <= t.len());
    let gap = t.subrange(from, a);
    let size = before.len() as int;
    assert(all == before + gap + with[k]);
    assert(is_break(with[k]));
    if e <= size {
        assert forall|i: int| w <= i < e implies #[trigger] before[i] != '\n' by {
            assert(all[i] == before[i]);
        }
        let (j, at) = lemma_locate_woven(t, spans, with, k, w, e);
        let f = crate::pattern::resumes_at(spans, j);
        let g = crate::words::gap_end(t, spans, j);
        assert(all.subrange(at, at + (g - f)) =~= before.subrange(at, at + (g - f)));
        (j, at)
    } else {
        if w < size {
            lemma_woven_ends_in_break(t, spans, with, k);
            assert(all[size - 1] == before[size - 1]);
        }
        if e > size + gap.len() {
            let i = if w >= size + gap.len() {
                w
            } else {
                size + gap.len()
            };
            assert(all[i] == with[k][i - size - gap.len()]);
        }
        assert(all.subrange(size, size + (a - from)) =~= gap);
        (k, size)
    }
}

proof fn lemma_woven_ends_in_break(
    t: Seq<char>,
    spans: Seq<(int, int)>,
    with: Seq<Seq<char>>,
    n: int,
)
    requires
        with.len() == spans.len(),
        forall|k: int| 0 <= k < with.len() ==> is_break(#[trigger] with[k]),
        0 <= n <= spans.len(),
        crate::pattern::woven(t, spans, with, n).len() > 0,
    ensures
        crate::pattern::woven(t, spans, with, n).last() == '\n',
{
    if n > 0 {
        assert(is_break(with[n - 1]));
        assert(with[n - 1][with[n - 1].len() - 1] == '\n');
    }
}

/// A stretch without line breaks in a text with breaks in place of the spans
/// stands between spans.
proof fn lemma_locate(
    t: Seq<char>,
    spans: Seq<(int, int)>,
    with: Seq<Seq<char>>,
    w: int,
    e: int,
) -> (r: (int, int))
    requires
        crate::pattern::are_char_spans(t, spans),
        with.len() == spans.len(),
        forall|k: int| 0 <= k < with.len() ==> is_break(#[trigger] with[k]),
        0 <= w < e <= crate::pattern::replaced(t, spans, with).len(),
        forall|i: int|
            w <= i < e ==> #[trigger] crate::pattern::replaced(t, spans, with)[i] != '\n',
    ensures
        gap_stands(t, spans, crate::pattern::replaced(t, spans, with), r.0, r.1),
        r.1 <= w,
        e <= r.1 + (crate::words::gap_end(t, spans, r.0) - crate::pattern::resumes_at(spans, r.0)),
{
    let n = spans.len() as int;
    let all = crate::pattern::replaced(t, spans, with);
    let before = crate::pattern::woven(t, spans, with, n);
    let from = crate::pattern::resumes_at(spans, n);
    if n > 0 {
        assert(0 <= spans[n - 1].0 <= spans[n - 1].1 <= t.len());
    }
    let tail = t.skip(from);
    let size = before.len() as int;
    if e <= size {
        assert forall|i: int| w <= i < e implies #[trigger] before[i] != '\n' by {
            assert(all[i] == before[i]);
        }
        let (j, at) = lemma_locate_woven(t, spans, with, n, w, e);
        let f = crate::pattern::resumes_at(spans, j);
        let g = crate::words::gap_end(t, spans, j);
        assert(all.subrange(at, at + (g - f)) =~= before.subrange(at, at + (g - f)));
        (j, at)
    } else {
        if w < size {
            lemma_woven_ends_in_break(t, spans, with, n);
            assert(all[size - 1] == before[size - 1]);
        }
        assert(all.subrange(size, size + (t.len() - from)) =~= t.subrange(from, t.len() as int));
        (n, size)
    }
}

/// A core that is read in one stretch is read wherever the stretch stands.
proof fn lemma_core_moves(
    t: Seq<char>,
    out: Seq<char>,
    words: Seq<Seq<char>>,
    w: int,
    e: int,
    shift: int,
)
    requires
        core_at(out, words, w, e),
        are_cue_phrases(words),
        0 <= w + shift,
        e + shift <= t.len(),
        t.subrange(w + shift, e + shift) == out.subrange(w, e),
        crate::pattern::edge(t, w + shift),
        crate::pattern::edge(t, e + shift),
    ensures
        core_at(t, words, w + shift, e + shift),
{
    lemma_core(out, words, w, e);
    let k = choose|k: int|
        {
            &&& 0 <= k < words.len()
            &&& crate::pattern::reads(out, w, #[trigger] words[k])
            &&& e == w + words[k].len() || e == w + words[k].len() + 1 && crate::pattern::ess_at(
                out,
                e - 1,
            )
            &&& crate::pattern::edge(out, w)
            &&& crate::pattern::edge(out, e)
        };
    let n = words[k].len() as int;
    let here = t.subrange(w + shift, e + shift);
    let there = out.subrange(w, e);
    assert forall|i: int| w <= i < e implies #[trigger] out[i] == t[i + shift] by {
        assert(here[i - w] == there[i - w]);
        assert(here[i - w] == t[w + shift + (i - w)]);
        assert(there[i - w] == out[w + (i - w)]);
    }
    assert(t.subrange(w + shift, w + shift + n) =~= out.subrange(w, w + n));
    if e == w + n + 1 {
        assert(out[e - 1] == t[e - 1 + shift]);
    }
    assert(crate::pattern::reads(t, w + shift, words[k]));
}

/// No word goes from a cue into the text behind it.
proof fn lemma_word_ends_with_cue(t: Seq<char>, found: Seq<Seq<char>>, x: int, y: int)
    requires
        crate::pattern::cue_at(t, found, x, y),
        are_cue_phrases(found),
    ensures
        !crate::pattern::word_at(t, y - 1) || !crate::pattern::word_at(t, y),
{
    let (v, f) = lemma_cue_has_core(t, found, x, y);
    lemma_core(t, found, v, f);
}

/// No word goes from the text before a cue into the cue.
proof fn lemma_word_starts_with_cue(t: Seq<char>, found: Seq<Seq<char>>, x: int, y: int)
    requires
        crate::pattern::cue_at(t, found, x, y),
        are_cue_phrases(found),
    ensures
        !crate::pattern::word_at(t, x - 1) || !crate::pattern::word_at(t, x),
{
    let (v, f) = lemma_cue_has_core(t, found, x, y);
    lemma_core(t, found, v, f);
}

/// A core between spans is one by itself, whatever stands around it.
proof fn lemma_core_stood_before(
    t: Seq<char>,
    spans: Seq<(int, int)>,
    out: Seq<char>,
    found: Seq<Seq<char>>,
    words: Seq<Seq<char>>,
    w: int,
    e: int,
    k: int,
    at: int,
)
    requires
        crate::pattern::finds(
            t,
            spans,
            |x: int, y: int| crate::pattern::cue_at(t, found, x, y),
        ),
        are_cue_phrases(found),
        are_cue_phrases(words),
        core_at(out, words, w, e),
        gap_stands(t, spans, out, k, at),
        at <= w,
        e <= at + (crate::words::gap_end(t, spans, k) - crate::pattern::resumes_at(spans, k)),
    ensures
        core_at(
            t,
            words,
            w + (crate::pattern::resumes_at(spans, k) - at),
            e + (crate::pattern::resumes_at(spans, k) - at),
        ),
{
    let hit = |x: int, y: int| crate::pattern::cue_at(t, found, x, y);
    lemma_core(out, words, w, e);
    let from = crate::pattern::resumes_at(spans, k);
    let end = crate::words::gap_end(t, spans, k);
    let shift = from - at;
    let moved = out.subrange(at, at + (end - from));
    let gap = t.subrange(from, end);
    assert forall|i: int| at <= i < at + (end - from) implies #[trigger] out[i] == t[i + shift] by {
        assert(moved[i - at] == gap[i - at]);
        assert(moved[i - at] == out[at + (i - at)]);
        assert(gap[i - at] == t[from + (i - at)]);
    }
    assert(t.subrange(w + shift, e + shift) =~= out.subrange(w, e));
    assert(out[w] == t[w + shift]);
    assert(out[e - 1] == t[e - 1 + shift]);
    if w > at {
        assert(out[w - 1] == t[w - 1 + shift]);
    } else if k > 0 {
        assert(hit(spans[k - 1].0, spans[k - 1].1));
        lemma_word_ends_with_cue(t, found, spans[k - 1].0, spans[k - 1].1);
    }
    if e < at + (end - from) {
        assert(out[e] == t[e + shift]);
    } else if k < spans.len() {
        assert(hit(spans[k].0, spans[k].1));
        lemma_word_starts_with_cue(t, found, spans[k].0, spans[k].1);
    }
    lemma_core_moves(t, out, words, w, e, shift);
}

/// A cue in a text whose cues gave way to breaks was a cue before, and stood
/// between them.
proof fn lemma_cue_stood_before(
    t: Seq<char>,
    spans: Seq<(int, int)>,
    with: Seq<Seq<char>>,
    found: Seq<Seq<char>>,
    words: Seq<Seq<char>>,
    a: int,
    b: int,
) -> (r: (int, int, int))
    requires
        crate::pattern::are_char_spans(t, spans),
        crate::pattern::finds(
            t,
            spans,
            |x: int, y: int| crate::pattern::cue_at(t, found, x, y),
        ),
        with.len() == spans.len(),
        forall|k: int| 0 <= k < with.len() ==> is_break(#[trigger] with[k]),
        are_cue_phrases(found),
        are_cue_phrases(words),
        crate::pattern::cue_at(crate::pattern::replaced(t, spans, with), words, a, b),
    ensures
        crate::pattern::cue_at(t, words, r.0, r.1),
        0 <= r.2 <= spans.len(),
        crate::pattern::resumes_at(spans, r.2) <= r.0,
        r.2 < spans.len() ==> r.0 < spans[r.2].0,
{
    let out = crate::pattern::replaced(t, spans, with);
    let (w, e) = lemma_cue_has_core(out, words, a, b);
    lemma_core(out, words, w, e);
    let (k, at) = lemma_locate(t, spans, with, w, e);
    let shift = crate::pattern::resumes_at(spans, k) - at;
    lemma_core_stood_before(t, spans, out, found, words, w, e, k, at);
    let y = lemma_core_makes_cue(t, words, w + shift, e + shift);
    (w + shift, y, k)
}

/// No cue that was looked for is left, and no other cue has come up.
pub proof fn lemma_no_cue_is_left(
    t: Seq<char>,
    spans: Seq<(int, int)>,
    with: Seq<Seq<char>>,
    found: Seq<Seq<char>>,
    words: Seq<Seq<char>>,
)
    requires
        crate::pattern::are_char_spans(t, spans),
        crate::pattern::finds(
            t,
            spans,
            |x: int, y: int| crate::pattern::cue_at(t, found, x, y),
        ),
        with.len() == spans.len(),
        forall|k: int| 0 <= k < with.len() ==> is_break(#[trigger] with[k]),
        are_cue_phrases(found),
        are_cue_phrases(words),
        words == found || forall|a: int, b: int| !#[trigger]
            crate::pattern::cue_at(t, words, a, b),
    ensures
        forall|a: int, b: int|
            !#[trigger] crate::pattern::cue_at(
                crate::pattern::replaced(t, spans, with),
                words,
                a,
                b,
            ),
{
    let hit = |x: int, y: int| crate::pattern::cue_at(t, found, x, y);
    let out = crate::pattern::replaced(t, spans, with);
    assert forall|a: int, b: int| !#[trigger] crate::pattern::cue_at(out, words, a, b) by {
        if crate::pattern::cue_at(out, words, a, b) {
            let (x, y, k) = lemma_cue_stood_before(t, spans, with, found, words, a, b);
            if words == found {
                assert(hit(x, y));
                assert(crate::pattern::resumes_at(spans, k) <= x);
            }
        }
    }
}

/// The cues of this crate are phrases as they should be.
pub proof fn lemma_cue_phrases()
    ensures
        are_cue_phrases(crate::pattern::paragraph_words()),
        are_cue_phrases(crate::pattern::line_words()),
{
    reveal_strlit("new paragraph");
    reveal_strlit("new line");
    reveal_strlit("newline");
    let p = crate::pattern::paragraph_words();
    let l = crate::pattern::line_words();
    lemma_is_phrase(p[0]);
    lemma_is_phrase(l[0]);
    lemma_is_phrase(l[1]);
}

proof fn lemma_is_phrase(p: Seq<char>)
    requires
        p.len() > 0,
        crate::pattern::is_word_char(p[0]),
        crate::pattern::is_word_char(p[p.len() - 1]),
        forall|i: int| 0 <= i < p.len() ==> #[trigger] p[i] != '\n',
    ensures
        is_cue_phrase(p),
{
    let low = crate::text::ascii_lowered(p);
    assert forall|i: int| 0 <= i < p.len() implies #[trigger] low[i] == crate::text::ascii_lower(
        p[i],
    ) by {
    }
    lemma_lower_word_char(p[0]);
    lemma_lower_word_char(p[p.len() - 1]);
    assert(low[0] == crate::text::ascii_lower(p[0]));
    assert(low[p.len() - 1] == crate::text::ascii_lower(p[p.len() - 1]));
    assert forall|i: int| 0 <= i < p.len() implies #[trigger] low[i] != '\n' by {
        lemma_lower_word_char(p[i]);
        assert(p[i] != '\n');
    }
}

} // verus!
