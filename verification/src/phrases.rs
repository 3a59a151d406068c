//! Where the characters of a text go when a phrase in it is replaced, and why the
//! phrase does not occur any more.

use vstd::prelude::*;

verus! {

/// Lower-case letters in words, with one space between two words.
pub open spec fn is_spoken(q: Seq<char>) -> bool {
    &&& q.len() > 0
    &&& crate::text::is_ascii_lower(q[0])
    &&& crate::text::is_ascii_lower(q[q.len() - 1])
    &&& forall|i: int|
        0 <= i < q.len() ==> crate::text::is_ascii_lower(#[trigger] q[i]) || q[i] == ' ' && i + 1
            < q.len() && q[i + 1] != ' '
}

/// A character that belongs to no spoken phrase.
pub open spec fn is_seam(c: char) -> bool {
    crate::text::is_common(c) && !crate::text::is_ascii_alnum(c) && c != ' '
}

pub open spec fn is_seam_text(s: Seq<char>) -> bool {
    forall|i: int| 0 <= i < s.len() ==> is_seam(#[trigger] s[i])
}

/// A spoken phrase gives way to what belongs to no phrase.
pub open spec fn is_clean(swap: crate::processing::Swap) -> bool {
    &&& is_spoken(swap.phrase)
    &&& is_seam_text(swap.with)
    &&& swap.joins ==> swap.with.len() > 0
}

/// The phrase occurs nowhere as a whole word.
pub open spec fn is_absent(t: Seq<char>, q: Seq<char>) -> bool {
    forall|k: int|
        0 <= k < t.len() ==> (#[trigger] crate::processing::occurrence(t, k, q)) is None
}

/// `q` stands at `i`, in whatever case.
pub open spec fn reads_at(t: Seq<char>, i: int, q: Seq<char>) -> bool {
    &&& 0 <= i
    &&& i + q.len() <= t.len()
    &&& forall|k: int|
        0 <= k < q.len() ==> crate::text::ascii_lower(t[i + k]) == #[trigger] q[k]
}

pub proof fn lemma_spelling(t: Seq<char>, i: int, q: Seq<char>)
    requires
        crate::text::all_common(t),
        0 <= i <= t.len(),
    ensures
        crate::processing::spelled_to(t, i, q) == (if reads_at(t, i, q) {
            Some(i + q.len())
        } else {
            None::<int>
        }),
    decreases q.len(),
{
    if q.len() > 0 && i < t.len() {
        assert(crate::text::is_common(t[i]));
        let low = crate::text::folded(t[i]);
        let rest = q.skip(1);
        assert(low.is_prefix_of(q) <==> crate::text::ascii_lower(t[i]) == q[0]) by {
            if crate::text::ascii_lower(t[i]) == q[0] {
                assert(low =~= q.subrange(0, 1));
            } else {
                assert(low[0] != q.subrange(0, 1)[0]);
            }
        }
        lemma_spelling(t, i + 1, rest);
        if reads_at(t, i, q) {
            assert(crate::text::ascii_lower(t[i + 0]) == q[0]);
            assert forall|k: int| 0 <= k < rest.len() implies crate::text::ascii_lower(
                t[i + 1 + k],
            ) == #[trigger] rest[k] by {
                assert(crate::text::ascii_lower(t[i + (k + 1)]) == q[k + 1]);
            }
        } else if low.is_prefix_of(q) && reads_at(t, i + 1, rest) {
            assert forall|k: int| 0 <= k < q.len() implies crate::text::ascii_lower(t[i + k])
                == #[trigger] q[k] by {
                if k > 0 {
                    assert(crate::text::ascii_lower(t[i + 1 + (k - 1)]) == rest[k - 1]);
                }
            }
        }
    } else if q.len() > 0 && reads_at(t, i, q) {
        assert(false);
    }
}

/// Where each character of `out` comes from: `src` holds its position in `t`, or
/// -1 where it was put in. `t` has been read up to `i`, and nothing that was kept
/// starts an occurrence of `phrase`. What was left out lies between word edges.
#[verifier::opaque]
pub open spec fn is_traced(
    out: Seq<char>,
    src: Seq<int>,
    t: Seq<char>,
    i: int,
    phrase: Seq<char>,
) -> bool {
    &&& src.len() == out.len()
    &&& forall|k: int|
        0 <= k < src.len() ==> if #[trigger] src[k] == -1 {
            is_seam(out[k])
        } else {
            0 <= src[k] < i && out[k] == t[src[k]] && crate::processing::occurrence(
                t,
                src[k],
                phrase,
            ) is None
        }
    &&& forall|k: int, m: int|
        0 <= k && m == k + 1 && m < src.len() && #[trigger] src[k] >= 0 && #[trigger] src[m] >= 0
            ==> src[m] == src[k] + 1 || src[k] < src[m] && !crate::text::is_ascii_alnum(out[k])
            && !crate::text::is_ascii_alnum(out[m])
    &&& forall|k: int|
        0 <= k < src.len() && #[trigger] src[k] >= 0 && (k == 0 || src[k - 1] == -1)
            && crate::text::is_ascii_alnum(out[k]) ==> crate::processing::opens_word(t, src[k])
    &&& forall|k: int|
        0 <= k < src.len() - 1 && #[trigger] src[k] >= 0 && src[k + 1] == -1
            && crate::text::is_ascii_alnum(out[k]) ==> crate::processing::closes_word(
            t,
            src[k] + 1,
        )
    &&& i > 0 && !(src.len() > 0 && src.last() == i - 1) ==> crate::processing::closes_word(t, i)
    &&& src.len() > 0 && src.last() >= 0 && src.last() != i - 1 ==> !crate::text::is_ascii_alnum(
        out.last(),
    )
}

proof fn lemma_keep_one(out: Seq<char>, src: Seq<int>, t: Seq<char>, i: int, phrase: Seq<char>)
    requires
        is_traced(out, src, t, i, phrase),
        0 <= i < t.len(),
        crate::processing::occurrence(t, i, phrase) is None,
    ensures
        is_traced(out.push(t[i]), src.push(i), t, i + 1, phrase),
{
    reveal(is_traced);
    let out2 = out.push(t[i]);
    let src2 = src.push(i);
    assert forall|k: int| 0 <= k < src2.len() implies if #[trigger] src2[k] == -1 {
        is_seam(out2[k])
    } else {
        0 <= src2[k] < i + 1 && out2[k] == t[src2[k]] && crate::processing::occurrence(
            t,
            src2[k],
            phrase,
        ) is None
    } by {
        if k < src.len() {
            assert(src2[k] == src[k]);
        }
    }
    assert forall|k: int, m: int|
        0 <= k && m == k + 1 && m < src2.len() && #[trigger] src2[k] >= 0 && #[trigger] src2[m]
            >= 0 implies src2[m] == src2[k] + 1 || src2[k] < src2[m] && !crate::text::is_ascii_alnum(
        out2[k],
    ) && !crate::text::is_ascii_alnum(out2[m]) by {
        assert(src2[k] == src[k]);
        if m < src.len() {
            assert(src2[m] == src[m]);
        }
    }
    assert forall|k: int|
        0 <= k < src2.len() && #[trigger] src2[k] >= 0 && (k == 0 || src2[k - 1] == -1)
            && crate::text::is_ascii_alnum(out2[k]) implies crate::processing::opens_word(
        t,
        src2[k],
    ) by {
        if k < src.len() {
            assert(src2[k] == src[k]);
        }
    }
    assert forall|k: int|
        0 <= k < src2.len() - 1 && #[trigger] src2[k] >= 0 && src2[k + 1] == -1
            && crate::text::is_ascii_alnum(out2[k]) implies crate::processing::closes_word(
        t,
        src2[k] + 1,
    ) by {
        assert(src2[k] == src[k]);
        assert(src2[k + 1] == src[k + 1]);
    }
}

pub proof fn lemma_end_spaces(s: Seq<char>)
    ensures
        ({
            let kept = crate::processing::without_end_spaces(s);
            &&& kept.len() <= s.len()
            &&& kept == s.take(kept.len() as int)
            &&& kept.len() < s.len() ==> s[kept.len() as int] == ' '
        }),
    decreases s.len(),
{
    if s.len() > 0 && s.last() == ' ' {
        let d = s.drop_last();
        lemma_end_spaces(d);
        let kept = crate::processing::without_end_spaces(d);
        assert(d.take(kept.len() as int) =~= s.take(kept.len() as int));
    } else {
        assert(s.take(s.len() as int) =~= s);
    }
}

/// The sources after a phrase gave way to `with`.
spec fn after_swap(src: Seq<int>, kept: int, with: Seq<char>) -> Seq<int> {
    src.take(kept) + Seq::new(with.len(), |k: int| -1int)
}

proof fn lemma_swap_one(
    out: Seq<char>,
    src: Seq<int>,
    kept: int,
    t: Seq<char>,
    i: int,
    j: int,
    phrase: Seq<char>,
    with: Seq<char>,
)
    requires
        is_traced(out, src, t, i, phrase),
        0 <= i < j <= t.len(),
        crate::processing::occurrence(t, i, phrase) == Some(j),
        is_seam_text(with),
        0 <= kept <= out.len(),
        kept < out.len() ==> out[kept] == ' ' && with.len() > 0,
    ensures
        is_traced(out.take(kept) + with, after_swap(src, kept, with), t, j, phrase),
{
    reveal(is_traced);
    let out2 = out.take(kept) + with;
    let src2 = after_swap(src, kept, with);
    assert forall|k: int| 0 <= k < kept implies #[trigger] src2[k] == src[k] && out2[k] == out[k] by {
    }
    assert forall|k: int| kept <= k < src2.len() implies #[trigger] src2[k] == -1 && is_seam(
        out2[k],
    ) by {
        assert(out2[k] == with[k - kept]);
    }
    assert(kept > 0 && kept == out.len() && src[kept - 1] >= 0 ==> !crate::text::is_ascii_alnum(
        out[kept - 1],
    )) by {
        if kept > 0 && kept == out.len() && src[kept - 1] >= 0 && src[kept - 1] == i - 1 {
            assert(out[kept - 1] == t[i - 1]);
        }
    }
    assert forall|k: int, m: int|
        0 <= k && m == k + 1 && m < src2.len() && #[trigger] src2[k] >= 0 && #[trigger] src2[m]
            >= 0 implies src2[m] == src2[k] + 1 || src2[k] < src2[m] && !crate::text::is_ascii_alnum(
        out2[k],
    ) && !crate::text::is_ascii_alnum(out2[m]) by {
        assert(m < kept);
        assert(src2[k] == src[k]);
        assert(src2[m] == src[m]);
    }
    assert forall|k: int|
        0 <= k < src2.len() && #[trigger] src2[k] >= 0 && (k == 0 || src2[k - 1] == -1)
            && crate::text::is_ascii_alnum(out2[k]) implies crate::processing::opens_word(
        t,
        src2[k],
    ) by {
        assert(k < kept);
        assert(src2[k] == src[k]);
        if k > 0 {
            assert(src2[k - 1] == src[k - 1]);
        }
    }
    assert forall|k: int|
        0 <= k < src2.len() - 1 && #[trigger] src2[k] >= 0 && src2[k + 1] == -1
            && crate::text::is_ascii_alnum(out2[k]) implies crate::processing::closes_word(
        t,
        src2[k] + 1,
    ) by {
        assert(k < kept);
        assert(src2[k] == src[k]);
        if k + 1 < kept {
            assert(src2[k + 1] == src[k + 1]);
        } else if kept < out.len() {
            assert(src[kept] != -1);
            assert(src[k + 1] >= 0);
            assert(src[k + 1] == src[k] + 1);
            assert(t[src[k] + 1] == ' ');
        }
    }
    if src2.len() > 0 && src2.last() >= 0 {
        assert(with.len() == 0);
        assert(kept == out.len());
    }
}

/// Every character that a pass leaves has a source.
pub proof fn lemma_trace(
    out: Seq<char>,
    src: Seq<int>,
    t: Seq<char>,
    i: int,
    swap: crate::processing::Swap,
) -> (r: Seq<int>)
    requires
        is_traced(out, src, t, i, swap.phrase),
        0 <= i <= t.len(),
        src.len() == out.len(),
        is_seam_text(swap.with),
        swap.joins ==> swap.with.len() > 0,
        swap.with.len() == 0 ==> forall|k: int| 0 <= k < src.len() ==> #[trigger] src[k] >= 0,
    ensures
        is_traced(
            crate::processing::scanned(out, t, i, swap),
            r,
            t,
            t.len() as int,
            swap.phrase,
        ),
        swap.with.len() == 0 ==> forall|k: int| 0 <= k < r.len() ==> #[trigger] r[k] >= 0,
    decreases t.len() - i,
{
    if i >= t.len() {
        src
    } else {
        crate::processing::lemma_spelled_to_bounds(t, i, swap.phrase);
        match crate::processing::occurrence(t, i, swap.phrase) {
            Some(j) => {
                lemma_end_spaces(out);
                let rest = if swap.joins {
                    crate::processing::without_end_spaces(out)
                } else {
                    out
                };
                let kept = rest.len() as int;
                assert(rest =~= out.take(kept));
                lemma_swap_one(out, src, kept, t, i, j, swap.phrase, swap.with);
                let src2 = after_swap(src, kept, swap.with);
                if swap.with.len() == 0 {
                    assert forall|k: int| 0 <= k < src2.len() implies #[trigger] src2[k] >= 0 by {
                        assert(src2[k] == src[k]);
                    }
                }
                lemma_trace(rest + swap.with, src2, t, j, swap)
            },
            None => {
                lemma_keep_one(out, src, t, i, swap.phrase);
                let src2 = src.push(i);
                if swap.with.len() == 0 {
                    assert forall|k: int| 0 <= k < src2.len() implies #[trigger] src2[k] >= 0 by {
                        if k < src.len() {
                            assert(src2[k] == src[k]);
                        }
                    }
                }
                lemma_trace(out.push(t[i]), src2, t, i + 1, swap)
            },
        }
    }
}

/// The sources of what one whole pass leaves.
pub proof fn lemma_sources(t: Seq<char>, swap: crate::processing::Swap) -> (r: Seq<int>)
    requires
        is_seam_text(swap.with),
        swap.joins ==> swap.with.len() > 0,
    ensures
        is_traced(crate::processing::swapped(t, swap), r, t, t.len() as int, swap.phrase),
        swap.with.len() == 0 ==> forall|k: int| 0 <= k < r.len() ==> #[trigger] r[k] >= 0,
{
    reveal(is_traced);
    lemma_trace(Seq::empty(), Seq::empty(), t, 0, swap)
}

/// The characters of a phrase that occurs come from neighbours.
proof fn lemma_sources_run_on(
    out: Seq<char>,
    src: Seq<int>,
    t: Seq<char>,
    phrase: Seq<char>,
    q: Seq<char>,
    k: int,
    m: int,
)
    requires
        is_traced(out, src, t, t.len() as int, phrase),
        is_spoken(q),
        reads_at(out, k, q),
        0 <= m < q.len(),
    ensures
        src[k + m] == src[k] + m,
        src[k] >= 0,
        src[k + m] >= 0,
    decreases m,
{
    reveal(is_traced);
    assert(crate::text::ascii_lower(out[k + 0]) == q[0]);
    assert(crate::text::ascii_lower(out[k + m]) == q[m]);
    assert(!is_seam(out[k + m]));
    assert(!is_seam(out[k]));
    assert(src[k + m] != -1);
    assert(src[k] != -1);
    if m > 0 {
        lemma_sources_run_on(out, src, t, phrase, q, k, m - 1);
        assert(crate::text::ascii_lower(out[k + (m - 1)]) == q[m - 1]);
        assert(src[k + m - 1] >= 0 && src[k + m] >= 0);
        assert(crate::text::is_ascii_lower(q[m]) || crate::text::is_ascii_lower(q[m - 1]));
        assert(crate::text::is_ascii_alnum(out[k + m]) || crate::text::is_ascii_alnum(
            out[k + m - 1],
        ));
    }
}

/// A phrase that occurs after a pass occurred before it.
proof fn lemma_occurred_before(
    out: Seq<char>,
    src: Seq<int>,
    t: Seq<char>,
    phrase: Seq<char>,
    q: Seq<char>,
    k: int,
)
    requires
        is_traced(out, src, t, t.len() as int, phrase),
        crate::text::all_common(t),
        crate::text::all_common(out),
        is_spoken(q),
        0 <= k < out.len(),
        crate::processing::occurrence(out, k, q) is Some,
    ensures
        0 <= src[k] < t.len(),
        crate::processing::occurrence(t, src[k], q) is Some,
{
    reveal(is_traced);
    lemma_spelling(out, k, q);
    assert(reads_at(out, k, q));
    let n = q.len() as int;
    lemma_sources_run_on(out, src, t, phrase, q, k, 0);
    lemma_sources_run_on(out, src, t, phrase, q, k, n - 1);
    let s = src[k];
    let e = k + n - 1;
    assert(src[e] == s + n - 1);
    assert(0 <= src[e] < t.len());
    assert forall|m: int| 0 <= m < n implies crate::text::ascii_lower(t[s + m]) == #[trigger] q[m] by {
        lemma_sources_run_on(out, src, t, phrase, q, k, m);
        assert(out[k + m] == t[src[k + m]]);
        assert(crate::text::ascii_lower(out[k + m]) == q[m]);
    }
    assert(reads_at(t, s, q));
    lemma_spelling(t, s, q);
    assert(crate::text::ascii_lower(out[k + 0]) == q[0]);
    assert(crate::text::ascii_lower(out[k + (n - 1)]) == q[n - 1]);
    assert(crate::text::is_ascii_alnum(out[k]));
    assert(crate::text::is_ascii_alnum(out[e]));
    assert(crate::processing::opens_word(t, s)) by {
        if k > 0 && src[k - 1] != -1 {
            assert(src[k - 1] >= 0 && src[k] >= 0);
            assert(src[k] == src[k - 1] + 1);
            assert(out[k - 1] == t[src[k - 1]]);
        }
    }
    assert(crate::processing::closes_word(t, s + n)) by {
        if e + 1 < out.len() {
            if src[e + 1] != -1 {
                assert(src[e] >= 0 && src[e + 1] >= 0);
                assert(src[e + 1] == src[e] + 1);
                assert(out[e + 1] == t[src[e + 1]]);
            }
        } else {
            assert(src.last() == src[e]);
        }
    }
}

/// A pass leaves no occurrence of its phrase and brings up none of another.
pub proof fn lemma_phrase_is_gone(t: Seq<char>, swap: crate::processing::Swap)
    requires
        crate::text::all_common(t),
        is_clean(swap),
    ensures
        crate::text::all_common(crate::processing::swapped(t, swap)),
        is_absent(crate::processing::swapped(t, swap), swap.phrase),
        forall|q: Seq<char>|
            is_spoken(q) && #[trigger] is_absent(t, q) ==> is_absent(
                crate::processing::swapped(t, swap),
                q,
            ),
{
    reveal(is_traced);
    let out = crate::processing::swapped(t, swap);
    let src = lemma_sources(t, swap);
    assert forall|i: int| 0 <= i < out.len() implies crate::text::is_common(#[trigger] out[i]) by {
        if src[i] != -1 {
            assert(crate::text::is_common(t[src[i]]));
        }
    }
    assert forall|k: int| 0 <= k < out.len() implies (#[trigger] crate::processing::occurrence(
        out,
        k,
        swap.phrase,
    )) is None by {
        if crate::processing::occurrence(out, k, swap.phrase) is Some {
            lemma_occurred_before(out, src, t, swap.phrase, swap.phrase, k);
        }
    }
    assert forall|q: Seq<char>| is_spoken(q) && #[trigger] is_absent(t, q) implies is_absent(
        out,
        q,
    ) by {
        assert forall|k: int| 0 <= k < out.len() implies (#[trigger] crate::processing::occurrence(
            out,
            k,
            q,
        )) is None by {
            if crate::processing::occurrence(out, k, q) is Some {
                lemma_occurred_before(out, src, t, swap.phrase, q, k);
            }
        }
    }
}

/// After all passes none of their phrases is left.
pub proof fn lemma_all_phrases_are_gone(t: Seq<char>, swaps: Seq<crate::processing::Swap>)
    requires
        crate::text::all_common(t),
        forall|n: int| 0 <= n < swaps.len() ==> is_clean(#[trigger] swaps[n]),
    ensures
        crate::text::all_common(crate::processing::swapped_all(t, swaps)),
        forall|n: int|
            0 <= n < swaps.len() ==> is_absent(
                crate::processing::swapped_all(t, swaps),
                (#[trigger] swaps[n]).phrase,
            ),
    decreases swaps.len(),
{
    if swaps.len() > 0 {
        let d = swaps.drop_last();
        assert forall|n: int| 0 <= n < d.len() implies is_clean(#[trigger] d[n]) by {
            assert(d[n] == swaps[n]);
        }
        lemma_all_phrases_are_gone(t, d);
        let before = crate::processing::swapped_all(t, d);
        assert(is_clean(swaps[swaps.len() - 1]));
        lemma_phrase_is_gone(before, swaps.last());
        assert forall|n: int| 0 <= n < swaps.len() implies is_absent(
            crate::processing::swapped_all(t, swaps),
            (#[trigger] swaps[n]).phrase,
        ) by {
            if n < d.len() {
                assert(d[n] == swaps[n]);
                assert(is_absent(before, d[n].phrase));
                assert(is_clean(d[n]));
            }
        }
    }
}

/// `r` is made of characters of `t`, in their order: the one at `k` stands at
/// `src[k]`, or is a space for whitespace there.
pub open spec fn is_kept_from(t: Seq<char>, r: Seq<char>, src: Seq<int>) -> bool {
    &&& src.len() == r.len()
    &&& forall|k: int|
        0 <= k < src.len() ==> 0 <= #[trigger] src[k] < t.len() && (r[k] == t[src[k]] || r[k] == ' '
            && crate::text::is_white(t[src[k]]))
    &&& forall|k: int, m: int| 0 <= k < m < src.len() ==> #[trigger] src[k] < #[trigger] src[m]
}

/// `r` keeps characters of `t` in their order, with a space for any whitespace.
pub open spec fn keeps_order(t: Seq<char>, r: Seq<char>) -> bool {
    exists|src: Seq<int>| is_kept_from(t, r, src)
}

proof fn lemma_order_of_two(t: Seq<char>, u: Seq<char>, r: Seq<char>)
    requires
        keeps_order(t, u),
        keeps_order(u, r),
    ensures
        keeps_order(t, r),
{
    let a = choose|src: Seq<int>| is_kept_from(t, u, src);
    let b = choose|src: Seq<int>| is_kept_from(u, r, src);
    let src = Seq::new(r.len(), |k: int| a[b[k]]);
    assert forall|k: int| 0 <= k < src.len() implies 0 <= #[trigger] src[k] < t.len() && (r[k]
        == t[src[k]] || r[k] == ' ' && crate::text::is_white(t[src[k]])) by {
        assert(0 <= b[k] < u.len());
        assert(0 <= a[b[k]] < t.len());
    }
    assert forall|k: int, m: int| 0 <= k < m < src.len() implies #[trigger] src[k]
        < #[trigger] src[m] by {
        assert(b[k] < b[m]);
        assert(0 <= b[k] && b[m] < u.len());
        assert(a[b[k]] < a[b[m]]);
    }
    assert(is_kept_from(t, r, src));
}

proof fn lemma_sources_rise(
    out: Seq<char>,
    src: Seq<int>,
    t: Seq<char>,
    phrase: Seq<char>,
    k: int,
    m: int,
)
    requires
        is_traced(out, src, t, t.len() as int, phrase),
        forall|k: int| 0 <= k < src.len() ==> #[trigger] src[k] >= 0,
        0 <= k < m < src.len(),
    ensures
        src[k] < src[m],
    decreases m - k,
{
    reveal(is_traced);
    assert(src[m - 1] >= 0 && src[m] >= 0);
    if k < m - 1 {
        lemma_sources_rise(out, src, t, phrase, k, m - 1);
    }
}

/// Passes that leave out phrases keep the order of the rest.
pub proof fn lemma_passes_keep_order(t: Seq<char>, swaps: Seq<crate::processing::Swap>)
    requires
        forall|n: int|
            0 <= n < swaps.len() ==> (#[trigger] swaps[n]).with.len() == 0 && !swaps[n].joins,
    ensures
        keeps_order(t, crate::processing::swapped_all(t, swaps)),
    decreases swaps.len(),
{
    if swaps.len() == 0 {
        assert(is_kept_from(t, t, Seq::new(t.len(), |k: int| k)));
    } else {
        let d = swaps.drop_last();
        let swap = swaps[swaps.len() - 1];
        assert forall|n: int| 0 <= n < d.len() implies (#[trigger] d[n]).with.len() == 0
            && !d[n].joins by {
            assert(d[n] == swaps[n]);
        }
        lemma_passes_keep_order(t, d);
        let before = crate::processing::swapped_all(t, d);
        let out = crate::processing::swapped(before, swap);
        let src = lemma_sources(before, swap);
        assert forall|k: int, m: int| 0 <= k < m < src.len() implies #[trigger] src[k]
            < #[trigger] src[m] by {
            lemma_sources_rise(out, src, before, swap.phrase, k, m);
        }
        reveal(is_traced);
        assert(is_kept_from(before, out, src));
        lemma_order_of_two(t, before, out);
    }
}

/// The sources of a text whose whitespace was squeezed: what is skipped is
/// whitespace behind whitespace.
pub open spec fn is_squeezed_from(s: Seq<char>, r: Seq<char>, src: Seq<int>) -> bool {
    &&& src.len() == r.len()
    &&& forall|k: int|
        0 <= k < src.len() ==> 0 <= #[trigger] src[k] < s.len() && (r[k] == s[src[k]]
            && !crate::text::is_white(r[k]) || r[k] == ' ' && crate::text::is_white(s[src[k]]))
    &&& forall|k: int, m: int|
        0 <= k && m == k + 1 && m < src.len() ==> #[trigger] src[m] == #[trigger] src[k] + 1
            || src[k] < src[m] && crate::text::is_white(r[k]) && crate::text::is_white(
            s[src[m] - 1],
        )
    &&& s.len() > 0 ==> src.len() > 0 && src[0] == 0 && (src.last() == s.len() - 1
        || crate::text::is_white(s.last()) && crate::text::is_white(r.last()))
}

proof fn lemma_squeezed_sources(s: Seq<char>) -> (src: Seq<int>)
    ensures
        is_squeezed_from(s, crate::processing::squeezed(s), src),
    decreases s.len(),
{
    if s.len() == 0 {
        Seq::empty()
    } else {
        let d = s.drop_last();
        let before = lemma_squeezed_sources(d);
        let was = crate::processing::squeezed(d);
        let r = crate::processing::squeezed(s);
        let n = s.len() - 1;
        if s.len() > 1 {
            assert(d.last() == s[n - 1]);
        }
        let c = s.last();
        let src = if crate::text::is_white(c) && n > 0 && crate::text::is_white(s[n - 1]) {
            before
        } else {
            before.push(n)
        };
        assert forall|k: int| 0 <= k < src.len() implies 0 <= #[trigger] src[k] < s.len() && (r[k]
            == s[src[k]] && !crate::text::is_white(r[k]) || r[k] == ' ' && crate::text::is_white(
            s[src[k]],
        )) by {
            if k < before.len() {
                assert(src[k] == before[k]);
                assert(r[k] == was[k]);
                assert(s[src[k]] == d[src[k]]);
            }
        }
        assert forall|k: int, m: int| 0 <= k && m == k + 1 && m < src.len() implies #[trigger] src[m]
            == #[trigger] src[k] + 1 || src[k] < src[m] && crate::text::is_white(r[k])
            && crate::text::is_white(s[src[m] - 1]) by {
            assert(src[k] == before[k]);
            assert(r[k] == was[k]);
            if m < before.len() {
                assert(src[m] == before[m]);
                assert(0 <= before[m] < d.len());
                assert(0 <= before[k] < d.len());
                if src[m] != src[k] + 1 {
                    assert(d[before[m] - 1] == s[before[m] - 1]);
                }
            } else {
                assert(before.last() == before[k]);
                assert(was.last() == was[k]);
            }
        }
        if n > 0 {
            assert(src[0] == before[0]);
        }
        src
    }
}

/// No space stands in the phrase.
pub open spec fn is_one_word(q: Seq<char>) -> bool {
    is_spoken(q) && forall|i: int| 0 <= i < q.len() ==> #[trigger] q[i] != ' '
}

proof fn lemma_word_runs_on(s: Seq<char>, r: Seq<char>, src: Seq<int>, q: Seq<char>, k: int, m: int)
    requires
        is_squeezed_from(s, r, src),
        is_one_word(q),
        reads_at(r, k, q),
        0 <= m < q.len(),
    ensures
        src[k + m] == src[k] + m,
        r[k + m] == s[src[k] + m],
        crate::text::is_ascii_alnum(r[k + m]),
    decreases m,
{
    assert(crate::text::ascii_lower(r[k + m]) == q[m]);
    assert(crate::text::is_ascii_lower(q[m]));
    assert(crate::text::is_ascii_alnum(r[k + m]));
    assert(0 <= src[k + m] < s.len());
    if m > 0 {
        lemma_word_runs_on(s, r, src, q, k, m - 1);
        assert(src[k + m] == src[k + m - 1] + 1);
    }
}

/// A word that occurs after squeezing occurred before it.
proof fn lemma_squeezing_brings_no_word(s: Seq<char>, q: Seq<char>)
    requires
        crate::text::all_common(s),
        is_one_word(q),
        is_absent(s, q),
    ensures
        is_absent(crate::processing::squeezed(s), q),
        crate::text::all_common(crate::processing::squeezed(s)),
{
    let r = crate::processing::squeezed(s);
    let src = lemma_squeezed_sources(s);
    assert forall|i: int| 0 <= i < r.len() implies crate::text::is_common(#[trigger] r[i]) by {
        assert(0 <= src[i] < s.len());
        assert(crate::text::is_common(s[src[i]]));
    }
    assert forall|k: int| 0 <= k < r.len() implies (#[trigger] crate::processing::occurrence(
        r,
        k,
        q,
    )) is None by {
        if crate::processing::occurrence(r, k, q) is Some {
            lemma_spelling(r, k, q);
            let n = q.len() as int;
            let at = src[k];
            let e = k + n - 1;
            assert forall|m: int| 0 <= m < n implies crate::text::ascii_lower(s[at + m])
                == #[trigger] q[m] by {
                lemma_word_runs_on(s, r, src, q, k, m);
                assert(crate::text::ascii_lower(r[k + m]) == q[m]);
            }
            lemma_word_runs_on(s, r, src, q, k, 0);
            lemma_word_runs_on(s, r, src, q, k, n - 1);
            assert(0 <= src[k] && src[e] < s.len());
            assert(reads_at(s, at, q));
            lemma_spelling(s, at, q);
            assert(crate::processing::opens_word(s, at)) by {
                if k > 0 {
                    assert(0 <= src[k - 1]);
                    assert(src[k] == src[k - 1] + 1 || crate::text::is_white(s[src[k] - 1]));
                }
            }
            assert(crate::processing::closes_word(s, at + n)) by {
                if e + 1 < r.len() {
                    assert(src[e + 1] == src[e] + 1);
                } else {
                    assert(src.last() == src[e]);
                    assert(r.last() == r[e]);
                }
            }
            assert(crate::processing::occurrence(s, at, q) is None);
        }
    }
}

proof fn lemma_trimming_brings_no_word(s: Seq<char>, q: Seq<char>)
    requires
        crate::text::all_common(s),
        is_spoken(q),
        is_absent(s, q),
    ensures
        is_absent(crate::text::trimmed(s), q),
{
    let r = crate::text::trimmed(s);
    let (a, b) = crate::text::lemma_trimmed_at(s);
    assert forall|i: int| 0 <= i < r.len() implies crate::text::is_common(#[trigger] r[i]) by {
        assert(r[i] == s[a + i]);
        assert(crate::text::is_common(s[a + i]));
    }
    assert forall|k: int| 0 <= k < r.len() implies (#[trigger] crate::processing::occurrence(
        r,
        k,
        q,
    )) is None by {
        if crate::processing::occurrence(r, k, q) is Some {
            lemma_spelling(r, k, q);
            let n = q.len() as int;
            assert forall|m: int| 0 <= m < n implies crate::text::ascii_lower(s[a + k + m])
                == #[trigger] q[m] by {
                assert(crate::text::ascii_lower(r[k + m]) == q[m]);
                assert(r[k + m] == s[a + (k + m)]);
            }
            assert(reads_at(s, a + k, q));
            lemma_spelling(s, a + k, q);
            if k > 0 {
                assert(r[k - 1] == s[a + k - 1]);
            }
            if k + n < r.len() {
                assert(r[k + n] == s[a + k + n]);
            }
            assert(crate::processing::occurrence(s, a + k, q) is None);
        }
    }
}

/// Squeezing and trimming bring up no word that did not occur.
pub proof fn lemma_tidying_brings_no_word(s: Seq<char>, q: Seq<char>)
    requires
        crate::text::all_common(s),
        is_one_word(q),
        is_absent(s, q),
    ensures
        is_absent(crate::text::trimmed(crate::processing::squeezed(s)), q),
{
    lemma_squeezing_brings_no_word(s, q);
    lemma_trimming_brings_no_word(crate::processing::squeezed(s), q);
}

proof fn lemma_squeezed_rises(s: Seq<char>, r: Seq<char>, src: Seq<int>, k: int, m: int)
    requires
        is_squeezed_from(s, r, src),
        0 <= k < m < src.len(),
    ensures
        src[k] < src[m],
    decreases m - k,
{
    assert(src[m] == src[m - 1] + 1 || src[m - 1] < src[m]);
    if k < m - 1 {
        lemma_squeezed_rises(s, r, src, k, m - 1);
    }
}

/// Squeezing and trimming keep the order of the rest.
pub proof fn lemma_tidying_keeps_order(t: Seq<char>, s: Seq<char>)
    requires
        keeps_order(t, s),
    ensures
        keeps_order(t, crate::text::trimmed(crate::processing::squeezed(s))),
{
    let u = crate::processing::squeezed(s);
    let src = lemma_squeezed_sources(s);
    assert forall|k: int, m: int| 0 <= k < m < src.len() implies #[trigger] src[k]
        < #[trigger] src[m] by {
        lemma_squeezed_rises(s, u, src, k, m);
    }
    assert(is_kept_from(s, u, src));
    lemma_order_of_two(t, s, u);
    let r = crate::text::trimmed(u);
    let (a, b) = crate::text::lemma_trimmed_at(u);
    assert(is_kept_from(u, r, Seq::new(r.len(), |k: int| a + k)));
    lemma_order_of_two(t, u, r);
}

/// A phrase that stands alone occurs.
pub proof fn lemma_reads_itself(q: Seq<char>)
    requires
        is_spoken(q),
    ensures
        crate::text::all_common(q),
        crate::processing::occurrence(q, 0, q) == Some(q.len() as int),
{
    assert forall|i: int| 0 <= i < q.len() implies crate::text::is_common(#[trigger] q[i]) by {
    }
    assert(reads_at(q, 0, q));
    lemma_spelling(q, 0, q);
}

/// A phrase does not occur where less than its length is left.
pub proof fn lemma_too_short(t: Seq<char>, k: int, q: Seq<char>)
    requires
        crate::text::all_common(t),
        0 <= k < t.len(),
        k + q.len() > t.len(),
    ensures
        crate::processing::occurrence(t, k, q) is None,
{
    lemma_spelling(t, k, q);
}

/// A spoken phrase does not occur among characters that belong to none.
pub proof fn lemma_absent_from_seams(t: Seq<char>, q: Seq<char>)
    requires
        is_seam_text(t),
        is_spoken(q),
    ensures
        is_absent(t, q),
{
    assert forall|i: int| 0 <= i < t.len() implies crate::text::is_common(#[trigger] t[i]) by {
        assert(is_seam(t[i]));
    }
    assert forall|k: int| 0 <= k < t.len() implies (#[trigger] crate::processing::occurrence(
        t,
        k,
        q,
    )) is None by {
        lemma_spelling(t, k, q);
        assert(is_seam(t[k]));
        if reads_at(t, k, q) {
            assert(crate::text::ascii_lower(t[k + 0]) == q[0]);
        }
    }
}

/// In one word only the word itself occurs.
pub proof fn lemma_absent_from_word(t: Seq<char>, q: Seq<char>)
    requires
        is_one_word(t),
        is_spoken(q),
        q != t,
    ensures
        is_absent(t, q),
{
    assert forall|i: int| 0 <= i < t.len() implies crate::text::is_common(#[trigger] t[i])
        && crate::text::is_ascii_lower(t[i]) by {
    }
    assert forall|k: int| 0 <= k < t.len() implies (#[trigger] crate::processing::occurrence(
        t,
        k,
        q,
    )) is None by {
        lemma_spelling(t, k, q);
        if reads_at(t, k, q) && crate::processing::opens_word(t, k)
            && crate::processing::closes_word(t, k + q.len()) {
            if k > 0 {
                assert(crate::text::is_ascii_lower(t[k - 1]));
            }
            if q.len() < t.len() {
                assert(crate::text::is_ascii_lower(t[q.len() as int]));
            }
            assert forall|i: int| 0 <= i < q.len() implies #[trigger] t[i] == q[i] by {
                assert(crate::text::ascii_lower(t[0 + i]) == q[i]);
            }
            assert(t =~= q);
        }
    }
}

/// In two words only these and the two together occur.
pub proof fn lemma_absent_from_pair(first: Seq<char>, second: Seq<char>, q: Seq<char>)
    requires
        is_one_word(first),
        is_one_word(second),
        is_spoken(q),
        q != first,
        q != second,
        q != first + seq![' '] + second,
    ensures
        is_absent(first + seq![' '] + second, q),
{
    let t = first + seq![' '] + second;
    let s = first.len() as int;
    assert(t[s] == ' ');
    assert forall|i: int| 0 <= i < t.len() && i != s implies crate::text::is_ascii_lower(
        #[trigger] t[i],
    ) by {
        if i < s {
            assert(t[i] == first[i]);
        } else {
            assert(t[i] == second[i - s - 1]);
        }
    }
    assert(crate::text::all_common(t));
    assert forall|k: int| 0 <= k < t.len() implies (#[trigger] crate::processing::occurrence(
        t,
        k,
        q,
    )) is None by {
        lemma_spelling(t, k, q);
        if reads_at(t, k, q) && crate::processing::opens_word(t, k)
            && crate::processing::closes_word(t, k + q.len()) {
            let e = k + q.len();
            assert(crate::text::ascii_lower(t[k + 0]) == q[0]);
            assert(crate::text::ascii_lower(t[k + (q.len() - 1)]) == q[q.len() - 1]);
            assert(k == 0 || k == s + 1) by {
                if k > 0 && k - 1 != s {
                    assert(crate::text::is_ascii_lower(t[k - 1]));
                }
            }
            assert(e == s || e == t.len()) by {
                if e < t.len() && e != s {
                    assert(crate::text::is_ascii_lower(t[e]));
                }
            }
            assert forall|i: int| 0 <= i < q.len() implies #[trigger] q[i] == t[k + i] by {
                assert(crate::text::ascii_lower(t[k + i]) == q[i]);
            }
            assert(q =~= t.subrange(k, e));
            if k == 0 && e == s {
                assert(q =~= first);
            } else if k == 0 {
                assert(q =~= t);
            } else {
                assert(q =~= second);
            }
        }
    }
}

} // verus!
