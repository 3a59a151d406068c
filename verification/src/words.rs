//! The words of a text, and how they fare when parts of the text are replaced.

use vstd::prelude::*;

verus! {

/// The words that end in `t`, and the word that `t` breaks off in.
pub open spec fn word_split(t: Seq<char>) -> (Seq<Seq<char>>, Seq<char>)
    decreases t.len(),
{
    if t.len() == 0 {
        (seq![], seq![])
    } else {
        let (done, open) = word_split(t.drop_last());
        if crate::pattern::is_word_char(t.last()) {
            (done, open.push(t.last()))
        } else if open.len() > 0 {
            (done.push(open), seq![])
        } else {
            (done, open)
        }
    }
}

/// The words of a text in order: its longest runs of word characters.
pub open spec fn words(t: Seq<char>) -> Seq<Seq<char>> {
    let (done, open) = word_split(t);
    if open.len() > 0 {
        done.push(open)
    } else {
        done
    }
}

/// No word goes from the end of `a` into the start of `b`.
pub open spec fn parts(a: Seq<char>, b: Seq<char>) -> bool {
    a.len() > 0 && b.len() > 0 ==> !crate::pattern::is_word_char(a.last())
        || !crate::pattern::is_word_char(b.first())
}

pub open spec fn has_no_word_char(t: Seq<char>) -> bool {
    forall|i: int| 0 <= i < t.len() ==> !crate::pattern::is_word_char(#[trigger] t[i])
}

proof fn lemma_split_of_two(a: Seq<char>, b: Seq<char>)
    ensures
        word_split(a).1.len() == 0 ==> word_split(a + b) == (
            word_split(a).0 + word_split(b).0,
            word_split(b).1,
        ),
    decreases b.len(),
{
    if b.len() == 0 {
        assert(a + b =~= a);
        assert(word_split(a).0 + word_split(b).0 =~= word_split(a).0);
        assert(word_split(a).1.len() == 0 ==> word_split(a).1 =~= seq![]);
    } else {
        lemma_split_of_two(a, b.drop_last());
        assert((a + b).drop_last() =~= a + b.drop_last());
        let open = word_split(b.drop_last()).1;
        assert(word_split(a).0 + word_split(b.drop_last()).0.push(open) =~= (word_split(a).0
            + word_split(b.drop_last()).0).push(open));
    }
}

proof fn lemma_open_word(t: Seq<char>)
    ensures
        word_split(t).1.len() > 0 <==> t.len() > 0 && crate::pattern::is_word_char(t.last()),
    decreases t.len(),
{
    if t.len() > 0 {
        lemma_open_word(t.drop_last());
    }
}

/// Where no word goes from one part into the next, the words are those of the
/// one and then those of the other.
pub proof fn lemma_words_of_two(a: Seq<char>, b: Seq<char>)
    requires
        parts(a, b),
    ensures
        words(a + b) == words(a) + words(b),
{
    lemma_open_word(a);
    if word_split(a).1.len() == 0 {
        lemma_split_of_two(a, b);
        assert(words(a + b) =~= words(a) + words(b));
    } else if b.len() == 0 {
        assert(a + b =~= a);
        assert(words(a) + words(b) =~= words(a));
    } else {
        let x = b.first();
        let one = seq![x];
        let rest = b.skip(1);
        assert(a + b =~= a.push(x) + rest);
        assert(b =~= one + rest);
        assert(a.push(x).drop_last() =~= a);
        assert(one.drop_last() =~= seq![]);
        assert(word_split(one) == (Seq::<Seq<char>>::empty(), Seq::<char>::empty())) by {
            reveal_with_fuel(word_split, 2);
        }
        lemma_split_of_two(a.push(x), rest);
        lemma_split_of_two(one, rest);
        assert(words(a + b) =~= words(a) + words(b));
    }
}

pub proof fn lemma_no_words(t: Seq<char>)
    requires
        has_no_word_char(t),
    ensures
        words(t) == Seq::<Seq<char>>::empty(),
    decreases t.len(),
{
    if t.len() > 0 {
        assert(has_no_word_char(t.drop_last())) by {
            assert forall|i: int| 0 <= i < t.drop_last().len() implies !crate::pattern::is_word_char(
                #[trigger] t.drop_last()[i],
            ) by {
                assert(t.drop_last()[i] == t[i]);
            }
        }
        lemma_no_words(t.drop_last());
        lemma_open_word(t.drop_last());
        assert(!crate::pattern::is_word_char(t[t.len() - 1]));
    }
}

proof fn lemma_split_of_run(t: Seq<char>)
    requires
        forall|i: int| 0 <= i < t.len() ==> crate::pattern::is_word_char(#[trigger] t[i]),
    ensures
        word_split(t) == (Seq::<Seq<char>>::empty(), t),
    decreases t.len(),
{
    if t.len() > 0 {
        let d = t.drop_last();
        assert forall|i: int| 0 <= i < d.len() implies crate::pattern::is_word_char(
            #[trigger] d[i],
        ) by {
            assert(d[i] == t[i]);
        }
        lemma_split_of_run(d);
        assert(crate::pattern::is_word_char(t[t.len() - 1]));
        assert(d.push(t.last()) =~= t);
    }
}

/// A run of word characters is one word.
pub proof fn lemma_one_word(t: Seq<char>)
    requires
        t.len() > 0,
        forall|i: int| 0 <= i < t.len() ==> crate::pattern::is_word_char(#[trigger] t[i]),
    ensures
        words(t) == seq![t],
{
    lemma_split_of_run(t);
    assert(words(t) =~= seq![t]);
}

/// `w` goes from `a` to `e` as a word of `t`.
pub open spec fn word_between(t: Seq<char>, w: Seq<char>, a: int, e: int) -> bool {
    &&& 0 <= a < e <= t.len()
    &&& t.subrange(a, e) == w
    &&& crate::pattern::edge(t, a)
    &&& crate::pattern::edge(t, e)
    &&& crate::pattern::word_at(t, a)
    &&& crate::pattern::word_at(t, e - 1)
}

spec fn ends_inside(t: Seq<char>, w: Seq<char>) -> bool {
    exists|a: int, e: int| word_between(t, w, a, e) && e < t.len()
}

spec fn all_end_inside(t: Seq<char>, ws: Seq<Seq<char>>) -> bool {
    forall|k: int| 0 <= k < ws.len() ==> ends_inside(t, #[trigger] ws[k])
}

proof fn lemma_split_found(t: Seq<char>)
    ensures
        ({
            let open = word_split(t).1;
            let a = t.len() - open.len();
            &&& open.len() <= t.len()
            &&& t.subrange(a, t.len() as int) == open
            &&& open.len() > 0 ==> crate::pattern::word_at(t, a) && !crate::pattern::word_at(
                t,
                a - 1,
            )
        }),
        all_end_inside(t, word_split(t).0),
    decreases t.len(),
{
    if t.len() > 0 {
        let d = t.drop_last();
        lemma_split_found(d);
        lemma_open_word(d);
        let (done, open) = word_split(d);
        let a = d.len() - open.len();
        let n = t.len() as int;
        assert forall|w: Seq<char>, x: int, e: int|
            #[trigger] word_between(d, w, x, e) && e < d.len() implies word_between(t, w, x, e) by {
            assert(t.subrange(x, e) =~= d.subrange(x, e));
        }
        let done2 = word_split(t).0;
        assert forall|k: int| 0 <= k < done2.len() implies ends_inside(t, #[trigger] done2[k]) by {
            if k < done.len() {
                assert(ends_inside(d, done[k]));
                let (x, e) = choose|x: int, e: int| word_between(d, done[k], x, e) && e < d.len();
                assert(word_between(t, done2[k], x, e));
            } else {
                assert(t.subrange(a, d.len() as int) =~= d.subrange(a, d.len() as int));
                assert(crate::pattern::word_at(t, d.len() - 1));
                assert(word_between(t, done2[k], a, d.len() as int));
            }
        }
        let open2 = word_split(t).1;
        if crate::pattern::is_word_char(t.last()) {
            assert(t.subrange(a, n) =~= d.subrange(a, d.len() as int).push(t.last()));
            assert(open2 == open.push(t.last()));
            if open.len() == 0 {
                assert(!crate::pattern::word_at(t, n - 2)) by {
                    if d.len() > 0 {
                        assert(d.last() == t[n - 2]);
                    }
                }
            }
        } else {
            assert(t.subrange(n, n) =~= seq![]);
            assert(open2 =~= seq![]);
        }
    } else {
        assert(t.subrange(0, 0) =~= seq![]);
    }
}

/// Every word of a text stands somewhere in it.
pub proof fn lemma_word_found(t: Seq<char>, k: int)
    requires
        0 <= k < words(t).len(),
    ensures
        exists|a: int, e: int| word_between(t, words(t)[k], a, e),
{
    lemma_split_found(t);
    lemma_open_word(t);
    let (done, open) = word_split(t);
    if k < done.len() {
        assert(ends_inside(t, done[k]));
        let (a, e) = choose|a: int, e: int| word_between(t, done[k], a, e) && e < t.len();
        assert(word_between(t, words(t)[k], a, e));
    } else {
        assert(word_between(t, words(t)[k], t.len() - open.len(), t.len() as int));
    }
}

/// The words other than fillers, in order.
pub open spec fn without_filler(ws: Seq<Seq<char>>) -> Seq<Seq<char>>
    decreases ws.len(),
{
    if ws.len() == 0 {
        ws
    } else if crate::pattern::is_filler(ws.last()) {
        without_filler(ws.drop_last())
    } else {
        without_filler(ws.drop_last()).push(ws.last())
    }
}

pub proof fn lemma_without_filler_of_two(a: Seq<Seq<char>>, b: Seq<Seq<char>>)
    ensures
        without_filler(a + b) == without_filler(a) + without_filler(b),
    decreases b.len(),
{
    if b.len() == 0 {
        assert(a + b =~= a);
        assert(without_filler(a) + without_filler(b) =~= without_filler(a));
    } else {
        lemma_without_filler_of_two(a, b.drop_last());
        assert((a + b).drop_last() =~= a + b.drop_last());
        assert(without_filler(a + b) =~= without_filler(a) + without_filler(b));
    }
}

pub proof fn lemma_no_filler(ws: Seq<Seq<char>>)
    requires
        forall|k: int| 0 <= k < ws.len() ==> !crate::pattern::is_filler(#[trigger] ws[k]),
    ensures
        without_filler(ws) == ws,
    decreases ws.len(),
{
    if ws.len() > 0 {
        let d = ws.drop_last();
        assert forall|k: int| 0 <= k < d.len() implies !crate::pattern::is_filler(#[trigger] d[k]) by {
            assert(d[k] == ws[k]);
        }
        lemma_no_filler(d);
        assert(!crate::pattern::is_filler(ws[ws.len() - 1]));
        assert(d.push(ws.last()) =~= ws);
    }
}

/// What is left has no filler.
pub proof fn lemma_fillers_are_out(ws: Seq<Seq<char>>)
    ensures
        forall|k: int|
            0 <= k < without_filler(ws).len() ==> !crate::pattern::is_filler(
                #[trigger] without_filler(ws)[k],
            ),
    decreases ws.len(),
{
    if ws.len() > 0 {
        let before = without_filler(ws.drop_last());
        let all = without_filler(ws);
        lemma_fillers_are_out(ws.drop_last());
        assert forall|k: int| 0 <= k < all.len() implies !crate::pattern::is_filler(
            #[trigger] all[k],
        ) by {
            if k < before.len() {
                assert(all[k] == before[k]);
            }
        }
    }
}

/// A filler that stands in a text is one of its words.
pub proof fn lemma_filler_is_among_words(t: Seq<char>, a: int, b: int)
    requires
        crate::pattern::filler_at(t, a, b),
    ensures
        exists|k: int| 0 <= k < words(t).len() && crate::pattern::is_filler(#[trigger] words(t)[k]),
{
    lemma_filler_span(t, a, b);
    let e = choose|e: int|
        0 <= a < e <= t.len() && crate::pattern::edge(t, a) && crate::pattern::edge(t, e)
            && crate::pattern::is_filler(#[trigger] t.subrange(a, e)) && b
            == crate::pattern::past_space(t, e);
    let w = t.subrange(a, e);
    lemma_filler_is_one_word(w);
    assert(w[w.len() - 1] == t[e - 1]);
    lemma_one_word(w);
    let head = t.take(a);
    let tail = t.skip(e);
    assert(parts(head, w)) by {
        if a > 0 {
            assert(head.last() == t[a - 1]);
        }
    }
    lemma_words_of_two(head, w);
    assert(parts(head + w, tail)) by {
        if e < t.len() {
            assert(tail.first() == t[e]);
        }
    }
    lemma_words_of_two(head + w, tail);
    assert(head + w + tail =~= t);
    assert(words(t)[words(head).len() as int] == w);
}

/// `t` ends where no word can go on.
pub open spec fn is_closed(t: Seq<char>) -> bool {
    t.len() == 0 || !crate::pattern::is_word_char(t.last())
}

/// What stands at the spans has no words, and neither has what replaces it.
pub open spec fn wordless(t: Seq<char>, spans: Seq<(int, int)>, with: Seq<Seq<char>>) -> bool {
    &&& with.len() == spans.len()
    &&& forall|k: int|
        0 <= k < spans.len() ==> (#[trigger] spans[k]).0 < spans[k].1 && has_no_word_char(
            t.subrange(spans[k].0, spans[k].1),
        )
    &&& forall|k: int|
        0 <= k < spans.len() ==> (#[trigger] with[k]).len() > 0 && has_no_word_char(with[k])
}

proof fn lemma_weave_keeps_words(
    t: Seq<char>,
    spans: Seq<(int, int)>,
    with: Seq<Seq<char>>,
    n: int,
)
    requires
        crate::pattern::are_char_spans(t, spans),
        wordless(t, spans, with),
        0 <= n <= spans.len(),
    ensures
        words(crate::pattern::woven(t, spans, with, n)) == words(
            t.take(crate::pattern::resumes_at(spans, n)),
        ),
        is_closed(crate::pattern::woven(t, spans, with, n)),
        is_closed(t.take(crate::pattern::resumes_at(spans, n))),
    decreases n,
{
    if n == 0 {
        assert(t.take(0) =~= seq![]);
    } else {
        let k = n - 1;
        lemma_weave_keeps_words(t, spans, with, k);
        let out = crate::pattern::woven(t, spans, with, k);
        let from = crate::pattern::resumes_at(spans, k);
        let (a, b) = spans[k];
        if k > 0 {
            assert(spans[k - 1].1 <= spans[k].0);
        }
        let gap = t.subrange(from, a);
        let cut = t.subrange(a, b);
        let new = with[k];
        assert(cut.first() == cut[0]);
        assert(new.first() == new[0]);
        lemma_words_of_two(out, gap);
        lemma_words_of_two(out + gap, new);
        lemma_words_of_two(t.take(from), gap);
        lemma_words_of_two(t.take(from) + gap, cut);
        lemma_no_words(new);
        lemma_no_words(cut);
        assert(t.take(b) =~= t.take(from) + gap + cut);
        assert(new.last() == new[new.len() - 1]);
        assert(cut.last() == cut[cut.len() - 1]);
        assert((out + gap + new).last() == new.last());
        assert((t.take(from) + gap + cut).last() == cut.last());
        assert(words(out + gap) + words(new) =~= words(out + gap));
        assert(words(t.take(from) + gap) + words(cut) =~= words(t.take(from) + gap));
    }
}

/// Replacing what has no words by what has none keeps the words.
pub proof fn lemma_replacement_keeps_words(
    t: Seq<char>,
    spans: Seq<(int, int)>,
    with: Seq<Seq<char>>,
)
    requires
        crate::pattern::are_char_spans(t, spans),
        wordless(t, spans, with),
    ensures
        words(crate::pattern::replaced(t, spans, with)) == words(t),
{
    let n = spans.len() as int;
    let from = crate::pattern::resumes_at(spans, n);
    lemma_weave_keeps_words(t, spans, with, n);
    let out = crate::pattern::woven(t, spans, with, n);
    if n > 0 {
        assert(0 <= spans[n - 1].0 <= spans[n - 1].1 <= t.len());
    }
    lemma_words_of_two(out, t.skip(from));
    lemma_words_of_two(t.take(from), t.skip(from));
    assert(t.take(from) + t.skip(from) =~= t);
}

proof fn lemma_filler_is_one_word(w: Seq<char>)
    requires
        crate::pattern::is_filler(w),
    ensures
        w.len() > 0,
        forall|i: int| 0 <= i < w.len() ==> crate::pattern::is_word_char(#[trigger] w[i]),
{
    let s = crate::text::ascii_lowered(w);
    assert(s.len() == w.len());
    assert forall|i: int| 0 <= i < w.len() implies crate::pattern::is_word_char(#[trigger] w[i]) by {
        assert(s[i] == crate::text::ascii_lower(w[i]));
        assert(s[i] == 'u' || s[i] == 'm' || s[i] == 'h' || s[i] == 'e' || s[i] == 'r');
    }
}

/// The parts around a filler word: the word, an edge before it and one behind.
proof fn lemma_filler_span(t: Seq<char>, a: int, b: int)
    requires
        crate::pattern::filler_at(t, a, b),
    ensures
        0 <= a < b <= t.len(),
        crate::pattern::word_at(t, a),
        !crate::pattern::word_at(t, a - 1),
        !crate::pattern::word_at(t, b - 1) || !crate::pattern::word_at(t, b),
        without_filler(words(t.subrange(a, b))) == Seq::<Seq<char>>::empty(),
{
    let e = choose|e: int|
        0 <= a < e <= t.len() && crate::pattern::edge(t, a) && crate::pattern::edge(t, e)
            && crate::pattern::is_filler(#[trigger] t.subrange(a, e)) && b
            == crate::pattern::past_space(t, e);
    let w = t.subrange(a, e);
    lemma_filler_is_one_word(w);
    assert(w[0] == t[a]);
    assert(w[w.len() - 1] == t[e - 1]);
    lemma_one_word(w);
    assert(seq![w].drop_last() =~= seq![]);
    assert(without_filler(seq![w]) == Seq::<Seq<char>>::empty()) by {
        reveal_with_fuel(without_filler, 2);
        assert(without_filler(seq![w]) =~= Seq::<Seq<char>>::empty());
    }
    if b == e {
        assert(t.subrange(a, b) =~= w);
    } else {
        let space = seq![' '];
        assert(t.subrange(a, b) =~= w + space);
        assert(space.first() == ' ');
        lemma_words_of_two(w, space);
        lemma_no_words(space);
        assert(words(w) + words(space) =~= seq![w]);
    }
}

/// A part of the text between spans has no filler word.
proof fn lemma_gap_has_no_filler(t: Seq<char>, spans: Seq<(int, int)>, k: int, end: int)
    requires
        crate::pattern::are_char_spans(t, spans),
        crate::pattern::finds(t, spans, |a: int, b: int| crate::pattern::filler_at(t, a, b)),
        0 <= k <= spans.len(),
        end == (if k < spans.len() {
            spans[k].0
        } else {
            t.len() as int
        }),
    ensures
        0 <= crate::pattern::resumes_at(spans, k) <= end <= t.len(),
        !crate::pattern::word_at(t, crate::pattern::resumes_at(spans, k) - 1)
            || !crate::pattern::word_at(t, crate::pattern::resumes_at(spans, k)),
        without_filler(words(t.subrange(crate::pattern::resumes_at(spans, k), end))) == words(
            t.subrange(crate::pattern::resumes_at(spans, k), end),
        ),
{
    let hit = |a: int, b: int| crate::pattern::filler_at(t, a, b);
    let from = crate::pattern::resumes_at(spans, k);
    if k > 0 {
        assert(hit(spans[k - 1].0, spans[k - 1].1));
        lemma_filler_span(t, spans[k - 1].0, spans[k - 1].1);
    }
    if k < spans.len() {
        assert(hit(spans[k].0, spans[k].1));
        lemma_filler_span(t, spans[k].0, spans[k].1);
    }
    if 0 < k < spans.len() {
        assert(spans[k - 1].1 <= spans[k].0);
    }
    let gap = t.subrange(from, end);
    let ws = words(gap);
    assert forall|i: int| 0 <= i < ws.len() implies !crate::pattern::is_filler(#[trigger] ws[i]) by {
        lemma_word_found(gap, i);
        let (a, e) = choose|a: int, e: int| word_between(gap, ws[i], a, e);
        assert(gap[a] == t[from + a]);
        assert(gap[e - 1] == t[from + e - 1]);
        assert(crate::pattern::edge(t, from + a)) by {
            if a > 0 {
                assert(gap[a - 1] == t[from + a - 1]);
            }
        }
        assert(crate::pattern::edge(t, from + e)) by {
            if e < gap.len() {
                assert(gap[e] == t[from + e]);
            }
        }
        assert(t.subrange(from + a, from + e) =~= ws[i]);
        if crate::pattern::is_filler(ws[i]) {
            let b = crate::pattern::past_space(t, from + e);
            assert(crate::pattern::filler_at(t, from + a, b));
            assert(hit(from + a, b));
        }
    }
    lemma_no_filler(ws);
}

proof fn lemma_weave_drops_fillers(
    t: Seq<char>,
    spans: Seq<(int, int)>,
    with: Seq<Seq<char>>,
    n: int,
)
    requires
        crate::pattern::are_char_spans(t, spans),
        crate::pattern::finds(t, spans, |a: int, b: int| crate::pattern::filler_at(t, a, b)),
        with.len() == spans.len(),
        forall|k: int| 0 <= k < spans.len() ==> (#[trigger] with[k]).len() == 0,
        0 <= n <= spans.len(),
    ensures
        words(crate::pattern::woven(t, spans, with, n)) == without_filler(
            words(t.take(crate::pattern::resumes_at(spans, n))),
        ),
        is_closed(crate::pattern::woven(t, spans, with, n)),
    decreases n,
{
    if n == 0 {
        assert(t.take(0) =~= seq![]);
    } else {
        let k = n - 1;
        let hit = |a: int, b: int| crate::pattern::filler_at(t, a, b);
        lemma_weave_drops_fillers(t, spans, with, k);
        let out = crate::pattern::woven(t, spans, with, k);
        let from = crate::pattern::resumes_at(spans, k);
        let (a, b) = spans[k];
        lemma_gap_has_no_filler(t, spans, k, a);
        assert(hit(a, b));
        lemma_filler_span(t, a, b);
        let gap = t.subrange(from, a);
        let cut = t.subrange(a, b);
        assert(crate::pattern::woven(t, spans, with, n) =~= out + gap);
        assert(is_closed(out + gap)) by {
            if gap.len() > 0 {
                assert((out + gap).last() == t[a - 1]);
            } else {
                assert(out + gap =~= out);
            }
        }
        lemma_words_of_two(out, gap);
        assert(parts(t.take(from), gap)) by {
            if from > 0 && gap.len() > 0 {
                assert(t.take(from).last() == t[from - 1]);
                assert(gap.first() == t[from]);
            }
        }
        lemma_words_of_two(t.take(from), gap);
        assert(t.take(a) =~= t.take(from) + gap);
        assert(parts(t.take(a), cut)) by {
            if a > 0 {
                assert(t.take(a).last() == t[a - 1]);
            }
        }
        lemma_words_of_two(t.take(a), cut);
        assert(t.take(b) =~= t.take(a) + cut);
        lemma_without_filler_of_two(words(t.take(a)), words(cut));
        lemma_without_filler_of_two(words(t.take(from)), words(gap));
        assert(without_filler(words(t.take(a))) + without_filler(words(cut)) =~= without_filler(
            words(t.take(a)),
        ));
    }
}

/// Cutting out the filler words that a search finds leaves the other words.
pub proof fn lemma_fillers_are_dropped(
    t: Seq<char>,
    spans: Seq<(int, int)>,
    with: Seq<Seq<char>>,
)
    requires
        crate::pattern::are_char_spans(t, spans),
        crate::pattern::finds(t, spans, |a: int, b: int| crate::pattern::filler_at(t, a, b)),
        with.len() == spans.len(),
        forall|k: int| 0 <= k < spans.len() ==> (#[trigger] with[k]).len() == 0,
    ensures
        words(crate::pattern::replaced(t, spans, with)) == without_filler(words(t)),
{
    let n = spans.len() as int;
    let from = crate::pattern::resumes_at(spans, n);
    let out = crate::pattern::woven(t, spans, with, n);
    lemma_weave_drops_fillers(t, spans, with, n);
    lemma_gap_has_no_filler(t, spans, n, t.len() as int);
    let tail = t.skip(from);
    assert(tail =~= t.subrange(from, t.len() as int));
    lemma_words_of_two(out, tail);
    assert(parts(t.take(from), tail)) by {
        if from > 0 && tail.len() > 0 {
            assert(t.take(from).last() == t[from - 1]);
            assert(tail.first() == t[from]);
        }
    }
    lemma_words_of_two(t.take(from), tail);
    assert(t.take(from) + tail =~= t);
    lemma_without_filler_of_two(words(t.take(from)), words(tail));
}

proof fn lemma_trimmed_start_keeps_words(t: Seq<char>)
    ensures
        words(crate::text::trimmed_start(t)) == words(t),
    decreases t.len(),
{
    if t.len() > 0 && crate::text::is_white(t.first()) {
        let one = seq![t.first()];
        lemma_trimmed_start_keeps_words(t.drop_first());
        assert(t =~= one + t.drop_first());
        assert(one.last() == t.first());
        lemma_words_of_two(one, t.drop_first());
        lemma_no_words(one);
        assert(words(one) + words(t.drop_first()) =~= words(t.drop_first()));
    }
}

proof fn lemma_trimmed_end_keeps_words(t: Seq<char>)
    ensures
        words(crate::text::trimmed_end(t)) == words(t),
    decreases t.len(),
{
    if t.len() > 0 && crate::text::is_white(t.last()) {
        let one = seq![t.last()];
        lemma_trimmed_end_keeps_words(t.drop_last());
        assert(t =~= t.drop_last() + one);
        assert(one.first() == t.last());
        lemma_words_of_two(t.drop_last(), one);
        lemma_no_words(one);
        assert(words(t.drop_last()) + words(one) =~= words(t.drop_last()));
    }
}

/// Trimming keeps the words.
pub proof fn law_trimming_keeps_words(t: Seq<char>)
    ensures
        words(crate::text::trimmed(t)) == words(t),
{
    lemma_trimmed_start_keeps_words(t);
    lemma_trimmed_end_keeps_words(crate::text::trimmed_start(t));
}

/// No two neighbours in `t` are related by `pair`.
pub open spec fn free_of(t: Seq<char>, pair: spec_fn(char, char) -> bool) -> bool {
    forall|i: int| 0 <= i < t.len() - 1 ==> !pair(#[trigger] t[i], t[i + 1])
}

proof fn lemma_free_of_two(a: Seq<char>, b: Seq<char>, pair: spec_fn(char, char) -> bool)
    requires
        free_of(a, pair),
        free_of(b, pair),
        a.len() > 0 && b.len() > 0 ==> !pair(a.last(), b.first()),
    ensures
        free_of(a + b, pair),
{
    let t = a + b;
    assert forall|i: int| 0 <= i < t.len() - 1 implies !pair(#[trigger] t[i], t[i + 1]) by {
        if i + 1 < a.len() {
            assert(!pair(a[i], a[i + 1]));
        } else if i >= a.len() {
            assert(!pair(b[i - a.len()], b[i - a.len() + 1]));
        }
    }
}

/// Where the gap before span `k` ends.
pub open spec fn gap_end(t: Seq<char>, spans: Seq<(int, int)>, k: int) -> int {
    if k < spans.len() {
        spans[k].0
    } else {
        t.len() as int
    }
}

/// What makes a text with one character in place of each span free of a pair:
/// the gaps are free of it, and so are the seams.
pub open spec fn seams_free(
    t: Seq<char>,
    spans: Seq<(int, int)>,
    with: Seq<Seq<char>>,
    pair: spec_fn(char, char) -> bool,
) -> bool {
    &&& with.len() == spans.len()
    &&& forall|k: int| 0 <= k < spans.len() ==> (#[trigger] with[k]).len() == 1
    &&& forall|k: int|
        0 <= k <= spans.len() ==> free_of(
            t.subrange(#[trigger] crate::pattern::resumes_at(spans, k), gap_end(t, spans, k)),
            pair,
        )
    &&& forall|k: int|
        0 <= k < spans.len() && crate::pattern::resumes_at(spans, k) < spans[k].0 ==> !pair(
            t[spans[k].0 - 1],
            (#[trigger] with[k])[0],
        )
    &&& forall|k: int|
        0 <= k < spans.len() && spans[k].1 < gap_end(t, spans, k + 1) ==> !pair(
            (#[trigger] with[k])[0],
            t[spans[k].1],
        )
    &&& forall|k: int|
        0 < k < spans.len() && spans[k - 1].1 == spans[k].0 ==> !pair(
            with[k - 1][0],
            (#[trigger] with[k])[0],
        )
}

proof fn lemma_weave_is_free(
    t: Seq<char>,
    spans: Seq<(int, int)>,
    with: Seq<Seq<char>>,
    pair: spec_fn(char, char) -> bool,
    n: int,
)
    requires
        crate::pattern::are_char_spans(t, spans),
        seams_free(t, spans, with, pair),
        0 <= n <= spans.len(),
    ensures
        free_of(crate::pattern::woven(t, spans, with, n), pair),
        n > 0 ==> crate::pattern::woven(t, spans, with, n).len() > 0 && crate::pattern::woven(
            t,
            spans,
            with,
            n,
        ).last() == with[n - 1][0],
        n == 0 ==> crate::pattern::woven(t, spans, with, n).len() == 0,
    decreases n,
{
    if n > 0 {
        let k = n - 1;
        lemma_weave_is_free(t, spans, with, pair, k);
        let out = crate::pattern::woven(t, spans, with, k);
        let from = crate::pattern::resumes_at(spans, k);
        assert(with[k].len() == 1);
        if k > 0 {
            assert(spans[k - 1].1 <= spans[k].0);
            assert(with[k - 1].len() == 1);
        }
        assert(0 <= spans[k].0 <= spans[k].1 <= t.len());
        let gap = t.subrange(from, spans[k].0);
        assert(gap_end(t, spans, k) == spans[k].0);
        assert(free_of(gap, pair));
        lemma_free_of_two(out, gap, pair);
        assert(free_of(with[k], pair));
        lemma_free_of_two(out + gap, with[k], pair);
    }
}

/// A text with one character in place of each span is free of a pair where its
/// gaps and seams are.
pub proof fn lemma_replacement_is_free(
    t: Seq<char>,
    spans: Seq<(int, int)>,
    with: Seq<Seq<char>>,
    pair: spec_fn(char, char) -> bool,
)
    requires
        crate::pattern::are_char_spans(t, spans),
        seams_free(t, spans, with, pair),
    ensures
        free_of(crate::pattern::replaced(t, spans, with), pair),
{
    let n = spans.len() as int;
    lemma_weave_is_free(t, spans, with, pair, n);
    let from = crate::pattern::resumes_at(spans, n);
    if n > 0 {
        assert(0 <= spans[n - 1].0 <= spans[n - 1].1 <= t.len());
        assert(with[n - 1].len() == 1);
    }
    let tail = t.skip(from);
    assert(tail =~= t.subrange(from, gap_end(t, spans, n)));
    lemma_free_of_two(crate::pattern::woven(t, spans, with, n), tail, pair);
}

pub proof fn lemma_trimmed_is_free(t: Seq<char>, pair: spec_fn(char, char) -> bool)
    requires
        free_of(t, pair),
    ensures
        free_of(crate::text::trimmed(t), pair),
{
    crate::text::lemma_trimmed_start_suffix(t);
    let s = crate::text::trimmed_start(t);
    let k = choose|k: int| 0 <= k <= t.len() && s == t.skip(k);
    assert forall|i: int| 0 <= i < s.len() - 1 implies !pair(#[trigger] s[i], s[i + 1]) by {
        assert(!pair(t[k + i], t[k + i + 1]));
    }
    crate::text::lemma_trimmed_end_prefix(s);
    let u = crate::text::trimmed_end(s);
    let m = choose|m: int| 0 <= m <= s.len() && u == s.take(m);
    assert forall|i: int| 0 <= i < u.len() - 1 implies !pair(#[trigger] u[i], u[i + 1]) by {
        assert(!pair(s[i], s[i + 1]));
    }
}

/// `c`, `n` times.
pub open spec fn drawn_out(c: char, n: nat) -> Seq<char> {
    Seq::new(n, |i: int| c)
}

/// The hesitations: "um", "uh", "erm" and "hm", the last letter drawn out or not.
pub open spec fn is_hesitation(s: Seq<char>, n: nat) -> bool {
    ||| s == seq!['u'] + drawn_out('m', n)
    ||| s == seq!['u'] + drawn_out('h', n)
    ||| s == seq!['e', 'r'] + drawn_out('m', n)
    ||| s == seq!['h'] + drawn_out('m', n)
}

/// The fillers are the hesitations in any case, and no other words.
pub proof fn law_fillers_are_hesitations(w: Seq<char>)
    ensures
        crate::pattern::is_filler(w) <==> exists|n: nat|
            n > 0 && #[trigger] is_hesitation(crate::text::ascii_lowered(w), n),
{
    let s = crate::text::ascii_lowered(w);
    if crate::pattern::is_filler(w) {
        if s[0] == 'e' {
            let n = (s.len() - 2) as nat;
            assert(s =~= seq!['e', 'r'] + drawn_out('m', n));
            assert(is_hesitation(s, n));
        } else {
            let n = (s.len() - 1) as nat;
            if s[0] == 'h' {
                assert(s =~= seq!['h'] + drawn_out('m', n));
            } else if crate::pattern::is_run(s, 1, 'm') {
                assert(s =~= seq!['u'] + drawn_out('m', n));
            } else {
                assert(s =~= seq!['u'] + drawn_out('h', n));
            }
            assert(is_hesitation(s, n));
        }
    }
    if exists|n: nat| n > 0 && #[trigger] is_hesitation(s, n) {
        let n = choose|n: nat| n > 0 && #[trigger] is_hesitation(s, n);
        if s == seq!['u'] + drawn_out('m', n) {
            assert(crate::pattern::is_run(s, 1, 'm'));
        } else if s == seq!['u'] + drawn_out('h', n) {
            assert(crate::pattern::is_run(s, 1, 'h'));
        } else if s == seq!['e', 'r'] + drawn_out('m', n) {
            assert(crate::pattern::is_run(s, 2, 'm'));
        } else {
            assert(crate::pattern::is_run(s, 1, 'm'));
        }
    }
}

} // verus!
