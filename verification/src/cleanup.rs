//! Clean-up of a transcript: filler words, spoken layout cues, and the spoken
//! request to undo.

use vstd::prelude::*;

use crate::pattern::{
    find_spans, matched_texts, replace_all, replace_spans, BLANK_RUN, FILLERS, LINE_CUE,
    PARAGRAPH_CUE, SPACED_STOP,
};
use crate::text::{same_chars, to_chars, to_lowercase, trim, trim_chars};

verus! {

/// The last character of each span.
pub open spec fn last_chars(t: Seq<char>, spans: Seq<(int, int)>) -> Seq<Seq<char>> {
    Seq::new(spans.len(), |k: int| seq![t[spans[k].1 - 1]])
}

/// The text with only the last character kept of each span.
pub open spec fn ends_kept(t: Seq<char>, spans: Seq<(usize, usize)>) -> Seq<char> {
    let c = crate::pattern::in_chars(t, spans);
    crate::pattern::replaced(t, c, last_chars(t, c))
}

/// The text without the whitespace before punctuation marks.
pub open spec fn stops_joined(t: Seq<char>) -> Seq<char> {
    match crate::pattern::regex_spans(SPACED_STOP@, false, usize::BITS, t) {
        Some(spans) => ends_kept(t, spans),
        None => t,
    }
}

/// The text without filler words, tidied where they stood.
pub open spec fn without_fillers(t: Seq<char>) -> Seq<char> {
    let bare = crate::pattern::replaced_all(FILLERS@, true, t, ""@);
    crate::text::trimmed(
        crate::pattern::replaced_all(BLANK_RUN@, false, stops_joined(bare), " "@),
    )
}

/// The text with only the last character kept of each span.
pub fn keep_ends(text: &str, spans: &Vec<(usize, usize)>) -> (r: String)
    requires
        crate::pattern::are_spans(text@, spans@),
        forall|k: int| 0 <= k < spans.len() ==> (#[trigger] spans[k]).0 < spans[k].1,
    ensures
        r@ == ends_kept(text@, spans@),
{
    let texts = matched_texts(text, spans);
    let ghost c = crate::pattern::in_chars(text@, spans@);
    let ghost m = crate::pattern::matched(text@, c);
    let mut with: Vec<String> = Vec::new();
    proof {
        crate::pattern::lemma_char_spans(text@, spans@);
        assert(crate::pattern::views(texts@).len() == m.len());
    }
    for k in 0..texts.len()
        invariant
            c == crate::pattern::in_chars(text@, spans@),
            crate::pattern::are_char_spans(text@, c),
            m == crate::pattern::matched(text@, c),
            crate::pattern::views(texts@) == m,
            texts.len() == spans.len(),
            forall|k: int| 0 <= k < spans.len() ==> (#[trigger] spans[k]).0 < spans[k].1,
            crate::pattern::are_spans(text@, spans@),
            with.len() == k,
            forall|i: int| 0 <= i < k ==> (#[trigger] with[i])@ == last_chars(text@, c)[i],
    {
        let v = to_chars(texts[k].as_str());
        proof {
            crate::pattern::lemma_char_spans(text@, spans@);
            assert(crate::pattern::views(texts@)[k as int] == texts@[k as int]@);
            assert(spans@[k as int].0 < spans@[k as int].1);
            assert(c[k as int].0 != c[k as int].1);
            assert(v@ == text@.subrange(c[k as int].0, c[k as int].1));
        }
        let mut one = String::new();
        one.push(v[v.len() - 1]);
        assert(one@ =~= last_chars(text@, c)[k as int]);
        with.push(one);
    }
    assert(crate::pattern::views(with@) =~= last_chars(text@, c));
    replace_spans(text, spans, &with)
}

fn join_stops(text: &str) -> (r: String)
    ensures
        r@ == stops_joined(text@),
        exists|spans: Seq<(int, int)>|
            crate::pattern::is_search(SPACED_STOP@, false, text@, spans) && r@
                == crate::pattern::replaced(text@, spans, last_chars(text@, spans)),
{
    match find_spans(SPACED_STOP, false, text) {
        Some(spans) => {
            proof {
                let t = text@;
                let c = crate::pattern::in_chars(t, spans@);
                let hit = |a: int, b: int| crate::pattern::spaced_stop_at(t, a, b);
                crate::pattern::lemma_char_spans(t, spans@);
                assert forall|k: int| 0 <= k < spans@.len() implies (#[trigger] spans@[k]).0
                    < spans@[k].1 by {
                    assert(hit(c[k].0, c[k].1));
                    if spans@[k].0 == spans@[k].1 {
                        assert(c[k].0 == c[k].1);
                    }
                }
                assert(crate::pattern::is_search(SPACED_STOP@, false, t, c));
            }
            keep_ends(text, &spans)
        },
        None => text.to_owned(),
    }
}

/// Both characters are blanks.
pub open spec fn are_blanks(a: char, b: char) -> bool {
    crate::pattern::is_blank_char(a) && crate::pattern::is_blank_char(b)
}

/// Whitespace before a punctuation mark.
pub open spec fn is_spaced_stop(a: char, b: char) -> bool {
    crate::text::is_white(a) && crate::pattern::is_stop(b)
}

/// The text has no whitespace at its ends and none before a punctuation mark,
/// and no two blanks in a row.
pub open spec fn is_tidy(t: Seq<char>) -> bool {
    &&& t.len() > 0 ==> !crate::text::is_white(t.first()) && !crate::text::is_white(t.last())
    &&& crate::words::free_of(t, |a: char, b: char| are_blanks(a, b))
    &&& crate::words::free_of(t, |a: char, b: char| is_spaced_stop(a, b))
}

proof fn lemma_stops_are_joined(t: Seq<char>, spans: Seq<(int, int)>)
    requires
        crate::pattern::are_char_spans(t, spans),
        crate::pattern::finds(t, spans, |a: int, b: int| crate::pattern::spaced_stop_at(t, a, b)),
    ensures
        crate::words::free_of(
            crate::pattern::replaced(t, spans, last_chars(t, spans)),
            |a: char, b: char| is_spaced_stop(a, b),
        ),
        crate::words::words(crate::pattern::replaced(t, spans, last_chars(t, spans)))
            == crate::words::words(t),
{
    let hit = |a: int, b: int| crate::pattern::spaced_stop_at(t, a, b);
    let pair = |a: char, b: char| is_spaced_stop(a, b);
    let with = last_chars(t, spans);
    assert(crate::pattern::finds(t, spans, hit));
    assert forall|k: int| 0 <= k <= spans.len() implies crate::words::free_of(
        t.subrange(
            #[trigger] crate::pattern::resumes_at(spans, k),
            crate::words::gap_end(t, spans, k),
        ),
        pair,
    ) by {
        let from = crate::pattern::resumes_at(spans, k);
        let end = crate::words::gap_end(t, spans, k);
        if k > 0 {
            assert(0 <= spans[k - 1].1 <= t.len());
            if k < spans.len() {
                assert(spans[k - 1].1 <= spans[k].0);
            }
        }
        if k < spans.len() {
            assert(spans[k].0 <= t.len());
        }
        let gap = t.subrange(from, end);
        assert forall|i: int| 0 <= i < gap.len() - 1 implies !pair(#[trigger] gap[i], gap[i + 1]) by {
            assert(gap[i] == t[from + i] && gap[i + 1] == t[from + i + 1]);
            if pair(gap[i], gap[i + 1]) {
                assert(crate::pattern::spaced_stop_at(t, from + i, from + i + 2));
                assert(hit(from + i, from + i + 2));
            }
        }
    }
    assert forall|k: int|
        0 <= k < spans.len() && crate::pattern::resumes_at(spans, k) < spans[k].0 implies !pair(
        t[spans[k].0 - 1],
        (#[trigger] with[k])[0],
    ) by {
        let (a, b) = spans[k];
        assert(hit(a, b));
        if crate::text::is_white(t[a - 1]) {
            assert(crate::pattern::resumes_at(spans, k) <= a - 1);
            assert(0 <= a - 1) by {
                if k > 0 {
                    assert(0 <= spans[k - 1].1);
                }
            }
            assert(crate::pattern::spaced_stop_at(t, a - 1, b));
            assert(hit(a - 1, b));
        }
    }
    assert forall|k: int| 0 <= k < spans.len() implies !crate::text::is_white(
        (#[trigger] with[k])[0],
    ) by {
        assert(hit(spans[k].0, spans[k].1));
        assert(crate::pattern::is_stop(t[spans[k].1 - 1]));
    }
    assert(crate::words::seams_free(t, spans, with, pair));
    crate::words::lemma_replacement_is_free(t, spans, with, pair);
    assert forall|k: int| 0 <= k < spans.len() implies (#[trigger] spans[k]).0 < spans[k].1
        && crate::words::has_no_word_char(t.subrange(spans[k].0, spans[k].1)) by {
        let (a, b) = spans[k];
        assert(hit(a, b));
        let cut = t.subrange(a, b);
        assert forall|i: int| 0 <= i < cut.len() implies !crate::pattern::is_word_char(
            #[trigger] cut[i],
        ) by {
            assert(cut[i] == t[a + i]);
            if a + i < b - 1 {
                assert(crate::text::is_white(t[a + i]));
            }
        }
    }
    assert forall|k: int| 0 <= k < spans.len() implies (#[trigger] with[k]).len() > 0
        && crate::words::has_no_word_char(with[k]) by {
        assert(hit(spans[k].0, spans[k].1));
    }
    crate::words::lemma_replacement_keeps_words(t, spans, with);
}

/// The end of the run of blanks that starts at `a`.
proof fn run_end(t: Seq<char>, a: int, b: int) -> (e: int)
    requires
        0 <= a < b <= t.len(),
        forall|i: int| a <= i < b ==> crate::pattern::is_blank_char(#[trigger] t[i]),
    ensures
        b <= e <= t.len(),
        forall|i: int| a <= i < e ==> crate::pattern::is_blank_char(#[trigger] t[i]),
        e < t.len() ==> !crate::pattern::is_blank_char(t[e]),
    decreases t.len() - b,
{
    if b < t.len() && crate::pattern::is_blank_char(t[b]) {
        run_end(t, a, b + 1)
    } else {
        b
    }
}

proof fn lemma_blanks_are_single(t: Seq<char>, spans: Seq<(int, int)>, with: Seq<Seq<char>>)
    requires
        crate::pattern::are_char_spans(t, spans),
        crate::pattern::finds(t, spans, |a: int, b: int| crate::pattern::blank_run_at(t, a, b)),
        with == Seq::new(spans.len(), |k: int| seq![' ']),
    ensures
        crate::words::free_of(
            crate::pattern::replaced(t, spans, with),
            |a: char, b: char| are_blanks(a, b),
        ),
        crate::words::free_of(t, |a: char, b: char| is_spaced_stop(a, b)) ==> crate::words::free_of(
            crate::pattern::replaced(t, spans, with),
            |a: char, b: char| is_spaced_stop(a, b),
        ),
        crate::words::words(crate::pattern::replaced(t, spans, with)) == crate::words::words(t),
{
    let hit = |a: int, b: int| crate::pattern::blank_run_at(t, a, b);
    let blanks = |a: char, b: char| are_blanks(a, b);
    let stop = |a: char, b: char| is_spaced_stop(a, b);
    assert(crate::pattern::finds(t, spans, hit));
    assert forall|k: int| 0 <= k <= spans.len() implies {
        let from = #[trigger] crate::pattern::resumes_at(spans, k);
        let end = crate::words::gap_end(t, spans, k);
        0 <= from <= end <= t.len() && crate::words::free_of(t.subrange(from, end), blanks)
    } by {
        let from = crate::pattern::resumes_at(spans, k);
        let end = crate::words::gap_end(t, spans, k);
        if k > 0 {
            assert(0 <= spans[k - 1].0 <= spans[k - 1].1 <= t.len());
            if k < spans.len() {
                assert(spans[k - 1].1 <= spans[k].0);
            }
        }
        if k < spans.len() {
            assert(0 <= spans[k].0 <= t.len());
        }
        let gap = t.subrange(from, end);
        assert forall|i: int| 0 <= i < gap.len() - 1 implies !blanks(
            #[trigger] gap[i],
            gap[i + 1],
        ) by {
            assert(gap[i] == t[from + i] && gap[i + 1] == t[from + i + 1]);
            if blanks(gap[i], gap[i + 1]) {
                let e = run_end(t, from + i, from + i + 2);
                assert(crate::pattern::blank_run_at(t, from + i, e));
                assert(hit(from + i, e));
            }
        }
    }
    assert forall|k: int|
        0 <= k < spans.len() && crate::pattern::resumes_at(spans, k) < (
        #[trigger] spans[k]).0 implies !crate::pattern::is_blank_char(t[spans[k].0 - 1]) by {
        let (a, b) = spans[k];
        assert(hit(a, b));
        if crate::pattern::is_blank_char(t[a - 1]) {
            assert(crate::pattern::resumes_at(spans, k) <= a - 1);
            assert(crate::pattern::blank_run_at(t, a - 1, b));
            assert(hit(a - 1, b));
        }
    }
    assert forall|k: int|
        0 <= k < spans.len() && (#[trigger] spans[k]).1 < t.len() implies !crate::pattern::is_blank_char(
        t[spans[k].1],
    ) by {
        assert(hit(spans[k].0, spans[k].1));
    }
    assert forall|k: int|
        0 < k < spans.len() implies #[trigger] spans[k - 1].1 != spans[k].0 by {
        assert(hit(spans[k].0, spans[k].1));
        assert(crate::pattern::is_blank_char(t[spans[k].0]));
    }
    assert(crate::words::seams_free(t, spans, with, blanks)) by {
        assert forall|k: int|
            0 < k < spans.len() && spans[k - 1].1 == spans[k].0 implies !blanks(
            with[k - 1][0],
            (#[trigger] with[k])[0],
        ) by {
            assert(spans[k - 1].1 != spans[k].0);
        }
        assert forall|k: int|
            0 <= k < spans.len() && crate::pattern::resumes_at(spans, k) < spans[k].0 implies !blanks(
            t[spans[k].0 - 1],
            (#[trigger] with[k])[0],
        ) by {
            assert(!crate::pattern::is_blank_char(t[spans[k].0 - 1]));
        }
        assert forall|k: int|
            0 <= k < spans.len() && spans[k].1 < crate::words::gap_end(t, spans, k + 1) implies !blanks(
            (#[trigger] with[k])[0],
            t[spans[k].1],
        ) by {
            assert(crate::pattern::resumes_at(spans, k + 1) <= t.len());
            assert(!crate::pattern::is_blank_char(t[spans[k].1]));
        }
    }
    crate::words::lemma_replacement_is_free(t, spans, with, blanks);
    if crate::words::free_of(t, stop) {
        assert forall|k: int| 0 <= k <= spans.len() implies crate::words::free_of(
            t.subrange(
                #[trigger] crate::pattern::resumes_at(spans, k),
                crate::words::gap_end(t, spans, k),
            ),
            stop,
        ) by {
            let from = crate::pattern::resumes_at(spans, k);
            let gap = t.subrange(from, crate::words::gap_end(t, spans, k));
            assert forall|i: int| 0 <= i < gap.len() - 1 implies !stop(
                #[trigger] gap[i],
                gap[i + 1],
            ) by {
                assert(!stop(t[from + i], t[from + i + 1]));
            }
        }
        assert forall|k: int|
            0 <= k < spans.len() && spans[k].1 < crate::words::gap_end(t, spans, k + 1) implies !stop(
            (#[trigger] with[k])[0],
            t[spans[k].1],
        ) by {
            let (a, b) = spans[k];
            assert(hit(a, b));
            assert(crate::pattern::resumes_at(spans, k + 1) <= t.len());
            assert(crate::pattern::is_blank_char(t[b - 1]));
            assert(!stop(t[b - 1], t[b - 1 + 1]));
        }
        assert(crate::words::seams_free(t, spans, with, stop));
        crate::words::lemma_replacement_is_free(t, spans, with, stop);
    }
    assert forall|k: int| 0 <= k < spans.len() implies (#[trigger] spans[k]).0 < spans[k].1
        && crate::words::has_no_word_char(t.subrange(spans[k].0, spans[k].1)) by {
        let (a, b) = spans[k];
        assert(hit(a, b));
        let cut = t.subrange(a, b);
        assert forall|i: int| 0 <= i < cut.len() implies !crate::pattern::is_word_char(
            #[trigger] cut[i],
        ) by {
            assert(cut[i] == t[a + i]);
        }
    }
    assert forall|k: int| 0 <= k < spans.len() implies (#[trigger] with[k]).len() > 0
        && crate::words::has_no_word_char(with[k]) by {
        assert(with[k][0] == ' ');
    }
    crate::words::lemma_replacement_keeps_words(t, spans, with);
}

/// No filler word stands in the text.
pub open spec fn is_free_of_fillers(t: Seq<char>) -> bool {
    forall|a: int, b: int| !#[trigger] crate::pattern::filler_at(t, a, b)
}

/// `out` is the text with nothing at every place, from the left, where a filler
/// word stands.
pub open spec fn fillers_cut(t: Seq<char>, out: Seq<char>) -> bool {
    exists|spans: Seq<(int, int)>|
        {
            &&& #[trigger] crate::pattern::are_char_spans(t, spans)
            &&& crate::pattern::finds(
                t,
                spans,
                |a: int, b: int| crate::pattern::filler_at(t, a, b),
            )
            &&& out == crate::pattern::replaced(t, spans, Seq::new(spans.len(), |k: int| ""@))
        }
}

/// `out` is the text without the whitespace before punctuation marks.
pub open spec fn marks_moved_up(t: Seq<char>, out: Seq<char>) -> bool {
    exists|spans: Seq<(int, int)>|
        {
            &&& #[trigger] crate::pattern::are_char_spans(t, spans)
            &&& crate::pattern::finds(
                t,
                spans,
                |a: int, b: int| crate::pattern::spaced_stop_at(t, a, b),
            )
            &&& out == crate::pattern::replaced(t, spans, last_chars(t, spans))
        }
}

/// `out` is the text with one space for every run of blanks.
pub open spec fn blanks_merged(t: Seq<char>, out: Seq<char>) -> bool {
    exists|spans: Seq<(int, int)>|
        {
            &&& #[trigger] crate::pattern::are_char_spans(t, spans)
            &&& crate::pattern::finds(
                t,
                spans,
                |a: int, b: int| crate::pattern::blank_run_at(t, a, b),
            )
            &&& out == crate::pattern::replaced(t, spans, Seq::new(spans.len(), |k: int| " "@))
        }
}

/// `out` is the text without its filler words, tidied: no whitespace before
/// marks, no runs of blanks, none at the ends.
pub open spec fn fillers_removed(t: Seq<char>, out: Seq<char>) -> bool {
    exists|bare: Seq<char>, joined: Seq<char>, spaced: Seq<char>|
        {
            &&& #[trigger] fillers_cut(t, bare)
            &&& #[trigger] marks_moved_up(bare, joined)
            &&& #[trigger] blanks_merged(joined, spaced)
            &&& out == crate::text::trimmed(spaced)
        }
}

/// What filler removal gives: a tidy text with the same words but for the
/// fillers, of which none is left.
pub proof fn law_removal_leaves_the_other_words(t: Seq<char>, out: Seq<char>)
    requires
        fillers_removed(t, out),
    ensures
        is_tidy(out),
        crate::words::words(out) == crate::words::without_filler(crate::words::words(t)),
        is_free_of_fillers(out),
{
    reveal_strlit("");
    reveal_strlit(" ");
    let (bare, joined, spaced) = choose|bare: Seq<char>, joined: Seq<char>, spaced: Seq<char>|
        {
            &&& #[trigger] fillers_cut(t, bare)
            &&& #[trigger] marks_moved_up(bare, joined)
            &&& #[trigger] blanks_merged(joined, spaced)
            &&& out == crate::text::trimmed(spaced)
        };
    let found = choose|spans: Seq<(int, int)>|
        {
            &&& #[trigger] crate::pattern::are_char_spans(t, spans)
            &&& crate::pattern::finds(
                t,
                spans,
                |a: int, b: int| crate::pattern::filler_at(t, a, b),
            )
            &&& bare == crate::pattern::replaced(t, spans, Seq::new(spans.len(), |k: int| ""@))
        };
    crate::words::lemma_fillers_are_dropped(t, found, Seq::new(found.len(), |k: int| ""@));
    let stops = choose|spans: Seq<(int, int)>|
        {
            &&& #[trigger] crate::pattern::are_char_spans(bare, spans)
            &&& crate::pattern::finds(
                bare,
                spans,
                |a: int, b: int| crate::pattern::spaced_stop_at(bare, a, b),
            )
            &&& joined == crate::pattern::replaced(bare, spans, last_chars(bare, spans))
        };
    lemma_stops_are_joined(bare, stops);
    let runs = choose|spans: Seq<(int, int)>|
        {
            &&& #[trigger] crate::pattern::are_char_spans(joined, spans)
            &&& crate::pattern::finds(
                joined,
                spans,
                |a: int, b: int| crate::pattern::blank_run_at(joined, a, b),
            )
            &&& spaced == crate::pattern::replaced(
                joined,
                spans,
                Seq::new(spans.len(), |k: int| " "@),
            )
        };
    let with = Seq::new(runs.len(), |k: int| " "@);
    assert(" "@ =~= seq![' ']);
    assert(with =~= Seq::new(runs.len(), |k: int| seq![' ']));
    lemma_blanks_are_single(joined, runs, with);
    crate::text::law_trimmed_has_no_edge_space(spaced);
    crate::words::lemma_trimmed_is_free(spaced, |a: char, b: char| are_blanks(a, b));
    crate::words::lemma_trimmed_is_free(spaced, |a: char, b: char| is_spaced_stop(a, b));
    crate::words::law_trimming_keeps_words(spaced);
    crate::words::lemma_fillers_are_out(crate::words::words(t));
    assert forall|a: int, b: int| !#[trigger] crate::pattern::filler_at(out, a, b) by {
        if crate::pattern::filler_at(out, a, b) {
            crate::words::lemma_filler_is_among_words(out, a, b);
        }
    }
}

proof fn lemma_nothing_found(
    t: Seq<char>,
    spans: Seq<(int, int)>,
    hit: spec_fn(int, int) -> bool,
    with: Seq<Seq<char>>,
)
    requires
        crate::pattern::finds(t, spans, hit),
        forall|a: int, b: int| !#[trigger] hit(a, b),
    ensures
        crate::pattern::replaced(t, spans, with) == t,
{
    if spans.len() > 0 {
        assert(hit(spans[0].0, spans[0].1));
    }
    assert(crate::pattern::woven(t, spans, with, 0) =~= seq![]);
    assert(crate::pattern::replaced(t, spans, with) =~= t);
}

/// Where there is no filler and the text is tidy, nothing is changed.
pub proof fn law_nothing_to_remove_changes_nothing(t: Seq<char>, out: Seq<char>)
    requires
        fillers_removed(t, out),
        is_free_of_fillers(t),
        is_tidy(t),
    ensures
        out == t,
{
    let (bare, joined, spaced) = choose|bare: Seq<char>, joined: Seq<char>, spaced: Seq<char>|
        {
            &&& #[trigger] fillers_cut(t, bare)
            &&& #[trigger] marks_moved_up(bare, joined)
            &&& #[trigger] blanks_merged(joined, spaced)
            &&& out == crate::text::trimmed(spaced)
        };
    let found = choose|spans: Seq<(int, int)>|
        {
            &&& #[trigger] crate::pattern::are_char_spans(t, spans)
            &&& crate::pattern::finds(
                t,
                spans,
                |a: int, b: int| crate::pattern::filler_at(t, a, b),
            )
            &&& bare == crate::pattern::replaced(t, spans, Seq::new(spans.len(), |k: int| ""@))
        };
    lemma_nothing_found(
        t,
        found,
        |a: int, b: int| crate::pattern::filler_at(t, a, b),
        Seq::new(found.len(), |k: int| ""@),
    );
    let stops = choose|spans: Seq<(int, int)>|
        {
            &&& #[trigger] crate::pattern::are_char_spans(bare, spans)
            &&& crate::pattern::finds(
                bare,
                spans,
                |a: int, b: int| crate::pattern::spaced_stop_at(bare, a, b),
            )
            &&& joined == crate::pattern::replaced(bare, spans, last_chars(bare, spans))
        };
    assert forall|a: int, b: int| !#[trigger] crate::pattern::spaced_stop_at(t, a, b) by {
        if crate::pattern::spaced_stop_at(t, a, b) {
            let pair = |x: char, y: char| is_spaced_stop(x, y);
            assert(!pair(t[b - 2], t[b - 2 + 1]));
        }
    }
    lemma_nothing_found(
        t,
        stops,
        |a: int, b: int| crate::pattern::spaced_stop_at(t, a, b),
        last_chars(t, stops),
    );
    let runs = choose|spans: Seq<(int, int)>|
        {
            &&& #[trigger] crate::pattern::are_char_spans(joined, spans)
            &&& crate::pattern::finds(
                joined,
                spans,
                |a: int, b: int| crate::pattern::blank_run_at(joined, a, b),
            )
            &&& spaced == crate::pattern::replaced(
                joined,
                spans,
                Seq::new(spans.len(), |k: int| " "@),
            )
        };
    assert forall|a: int, b: int| !#[trigger] crate::pattern::blank_run_at(t, a, b) by {
        if crate::pattern::blank_run_at(t, a, b) {
            let pair = |x: char, y: char| are_blanks(x, y);
            assert(!pair(t[a], t[a + 1]));
        }
    }
    lemma_nothing_found(
        t,
        runs,
        |a: int, b: int| crate::pattern::blank_run_at(t, a, b),
        Seq::new(runs.len(), |k: int| " "@),
    );
}

/// Removing fillers a second time changes nothing.
pub proof fn law_removing_fillers_twice(t: Seq<char>, once: Seq<char>, twice: Seq<char>)
    requires
        fillers_removed(t, once),
        fillers_removed(once, twice),
    ensures
        twice == once,
{
    law_removal_leaves_the_other_words(t, once);
    law_nothing_to_remove_changes_nothing(once, twice);
}

/// Removes filler words ("um", "uh", "erm", "hmm") and tidies the seams: no
/// space before punctuation, no doubled spaces, none at the ends.
pub fn remove_fillers(text: &str) -> (r: String)
    ensures
        r@ == without_fillers(text@),
        fillers_removed(text@, r@),
        is_tidy(r@),
        crate::words::words(r@) == crate::words::without_filler(crate::words::words(text@)),
        is_free_of_fillers(r@),
{
    let bare = replace_all(FILLERS, true, text, "");
    let joined = join_stops(bare.as_str());
    let spaced = replace_all(BLANK_RUN, false, joined.as_str(), " ");
    let r = trim(spaced.as_str());
    proof {
        assert(fillers_cut(text@, bare@));
        assert(marks_moved_up(bare@, joined@));
        assert(blanks_merged(joined@, spaced@));
        assert(fillers_removed(text@, r@));
        law_removal_leaves_the_other_words(text@, r@);
    }
    r
}

/// The text with the spoken cues for paragraphs and lines made into breaks.
pub open spec fn with_breaks(t: Seq<char>) -> Seq<char> {
    let paragraphs = crate::pattern::replaced_all(PARAGRAPH_CUE@, true, t, "\n\n"@);
    crate::pattern::replaced_all(LINE_CUE@, true, paragraphs, "\n"@)
}

/// `out` is the text with `with` at every place, from the left, where a cue with
/// one of `words` stands.
pub open spec fn cues_replaced(
    t: Seq<char>,
    words: Seq<Seq<char>>,
    with: Seq<char>,
    out: Seq<char>,
) -> bool {
    exists|spans: Seq<(int, int)>|
        {
            &&& #[trigger] crate::pattern::are_char_spans(t, spans)
            &&& crate::pattern::finds(
                t,
                spans,
                |a: int, b: int| crate::pattern::cue_at(t, words, a, b),
            )
            &&& out == crate::pattern::replaced(t, spans, Seq::new(spans.len(), |k: int| with))
        }
}

/// `out` is the text with a blank line for each paragraph cue, and then a line
/// break for each line cue.
pub open spec fn breaks_made(t: Seq<char>, out: Seq<char>) -> bool {
    exists|mid: Seq<char>|
        {
            &&& #[trigger] cues_replaced(
                t,
                crate::pattern::paragraph_words(),
                "\n\n"@,
                mid,
            )
            &&& cues_replaced(mid, crate::pattern::line_words(), "\n"@, out)
        }
}

/// No cue with one of `words` stands in the text.
pub open spec fn is_free_of_cues(t: Seq<char>, words: Seq<Seq<char>>) -> bool {
    forall|a: int, b: int| !#[trigger] crate::pattern::cue_at(t, words, a, b)
}

proof fn lemma_paragraph_step(t: Seq<char>, out: Seq<char>)
    requires
        cues_replaced(t, crate::pattern::paragraph_words(), "\n\n"@, out),
    ensures
        is_free_of_cues(out, crate::pattern::paragraph_words()),
{
    let words = crate::pattern::paragraph_words();
    let spans = choose|spans: Seq<(int, int)>|
        {
            &&& #[trigger] crate::pattern::are_char_spans(t, spans)
            &&& crate::pattern::finds(
                t,
                spans,
                |a: int, b: int| crate::pattern::cue_at(t, words, a, b),
            )
            &&& out == crate::pattern::replaced(t, spans, Seq::new(spans.len(), |k: int| "\n\n"@))
        };
    let with = Seq::new(spans.len(), |k: int| "\n\n"@);
    assert(crate::cues::is_break("\n\n"@)) by {
        reveal_strlit("\n\n");
    }
    crate::cues::lemma_cue_phrases();
    crate::cues::lemma_no_cue_is_left(t, spans, with, words, words);
}

proof fn lemma_line_step(t: Seq<char>, out: Seq<char>)
    requires
        cues_replaced(t, crate::pattern::line_words(), "\n"@, out),
        is_free_of_cues(t, crate::pattern::paragraph_words()),
    ensures
        is_free_of_cues(out, crate::pattern::line_words()),
        is_free_of_cues(out, crate::pattern::paragraph_words()),
{
    let words = crate::pattern::line_words();
    let spans = choose|spans: Seq<(int, int)>|
        {
            &&& #[trigger] crate::pattern::are_char_spans(t, spans)
            &&& crate::pattern::finds(
                t,
                spans,
                |a: int, b: int| crate::pattern::cue_at(t, words, a, b),
            )
            &&& out == crate::pattern::replaced(t, spans, Seq::new(spans.len(), |k: int| "\n"@))
        };
    let with = Seq::new(spans.len(), |k: int| "\n"@);
    assert(crate::cues::is_break("\n"@)) by {
        reveal_strlit("\n");
    }
    crate::cues::lemma_cue_phrases();
    crate::cues::lemma_no_cue_is_left(t, spans, with, words, words);
    crate::cues::lemma_no_cue_is_left(
        t,
        spans,
        with,
        words,
        crate::pattern::paragraph_words(),
    );
}

/// Makes "new paragraph" a blank line and "new line" or "newline" a line break,
/// together with the space on either side and the punctuation behind them.
pub fn apply_line_commands(text: &str) -> (r: String)
    ensures
        r@ == with_breaks(text@),
        breaks_made(text@, r@),
        is_free_of_cues(r@, crate::pattern::paragraph_words()),
        is_free_of_cues(r@, crate::pattern::line_words()),
{
    let paragraphs = replace_all(PARAGRAPH_CUE, true, text, "\n\n");
    let lines = replace_all(LINE_CUE, true, paragraphs.as_str(), "\n");
    proof {
        assert(cues_replaced(text@, crate::pattern::paragraph_words(), "\n\n"@, paragraphs@));
        assert(cues_replaced(paragraphs@, crate::pattern::line_words(), "\n"@, lines@));
        law_no_cue_is_left(text@, lines@);
    }
    lines
}

/// Making breaks leaves no cue.
pub proof fn law_no_cue_is_left(t: Seq<char>, out: Seq<char>)
    requires
        breaks_made(t, out),
    ensures
        is_free_of_cues(out, crate::pattern::paragraph_words()),
        is_free_of_cues(out, crate::pattern::line_words()),
{
    let paragraphs = crate::pattern::paragraph_words();
    let lines = crate::pattern::line_words();
    let mid = choose|mid: Seq<char>|
        {
            &&& #[trigger] cues_replaced(t, paragraphs, "\n\n"@, mid)
            &&& cues_replaced(mid, lines, "\n"@, out)
        };
    lemma_paragraph_step(t, mid);
    lemma_line_step(mid, out);
}

/// A text without cues is left as it is.
pub proof fn law_no_break_without_cue(t: Seq<char>, out: Seq<char>)
    requires
        breaks_made(t, out),
        is_free_of_cues(t, crate::pattern::paragraph_words()),
        is_free_of_cues(t, crate::pattern::line_words()),
    ensures
        out == t,
{
    let paragraphs = crate::pattern::paragraph_words();
    let lines = crate::pattern::line_words();
    let mid = choose|mid: Seq<char>|
        {
            &&& #[trigger] cues_replaced(t, paragraphs, "\n\n"@, mid)
            &&& cues_replaced(mid, lines, "\n"@, out)
        };
    law_no_cue_changes_nothing(t, paragraphs, "\n\n"@, mid);
    law_no_cue_changes_nothing(mid, lines, "\n"@, out);
}

/// A phrase of the cues between word edges is a cue, also with an "s" behind it.
proof fn lemma_phrase_is_cue(t: Seq<char>, words: Seq<Seq<char>>, k: int, w: int, e: int)
    requires
        crate::cues::are_cue_phrases(words),
        0 <= k < words.len(),
        crate::pattern::reads(t, w, words[k]),
        e == w + words[k].len() || e == w + words[k].len() + 1 && crate::pattern::ess_at(t, e - 1),
        crate::pattern::edge(t, w),
        crate::pattern::edge(t, e),
    ensures
        exists|b: int| crate::pattern::cue_at(t, words, w, b),
{
    assert(crate::pattern::reads(t, w, words[k]));
    assert(crate::cues::core_at(t, words, w, e));
    let b = crate::cues::lemma_core_makes_cue(t, words, w, e);
    assert(crate::pattern::cue_at(t, words, w, b));
}

/// `phrase` stands nowhere between word edges, and neither does it with an "s".
pub open spec fn is_unsaid(t: Seq<char>, phrase: Seq<char>) -> bool {
    forall|w: int|
        #[trigger] crate::pattern::reads(t, w, phrase) && crate::pattern::edge(t, w) ==> {
            &&& !crate::pattern::edge(t, w + phrase.len())
            &&& !(crate::pattern::ess_at(t, w + phrase.len() as int) && crate::pattern::edge(
                t,
                w + phrase.len() + 1,
            ))
        }
}

proof fn lemma_unsaid(t: Seq<char>, words: Seq<Seq<char>>, k: int)
    requires
        crate::cues::are_cue_phrases(words),
        0 <= k < words.len(),
        is_free_of_cues(t, words),
    ensures
        is_unsaid(t, words[k]),
{
    let p = words[k];
    assert forall|w: int| #[trigger] crate::pattern::reads(t, w, p) && crate::pattern::edge(
        t,
        w,
    ) implies !crate::pattern::edge(t, w + p.len()) && !(crate::pattern::ess_at(
        t,
        w + p.len() as int,
    ) && crate::pattern::edge(t, w + p.len() + 1)) by {
        if crate::pattern::edge(t, w + p.len()) {
            lemma_phrase_is_cue(t, words, k, w, w + p.len());
        }
        if crate::pattern::ess_at(t, w + p.len() as int) && crate::pattern::edge(
            t,
            w + p.len() + 1,
        ) {
            lemma_phrase_is_cue(t, words, k, w, w + p.len() + 1);
        }
    }
}

/// Once breaks are made, nowhere do "new paragraph", "new line" or "newline" stand
/// as words of their own, nor any of them with an "s".
pub proof fn law_no_break_is_left_unmade(t: Seq<char>, out: Seq<char>)
    requires
        breaks_made(t, out),
    ensures
        is_unsaid(out, "new paragraph"@),
        is_unsaid(out, "new line"@),
        is_unsaid(out, "newline"@),
{
    law_no_cue_is_left(t, out);
    crate::cues::lemma_cue_phrases();
    lemma_unsaid(out, crate::pattern::paragraph_words(), 0);
    lemma_unsaid(out, crate::pattern::line_words(), 0);
    lemma_unsaid(out, crate::pattern::line_words(), 1);
}

/// A cue with one of `words` goes from `a` to `b`, and no other stands before it,
/// behind it or in its place.
#[verifier::opaque]
pub open spec fn is_lone_cue(t: Seq<char>, words: Seq<Seq<char>>, a: int, b: int) -> bool {
    &&& 0 <= a <= b <= t.len()
    &&& crate::pattern::cue_at(t, words, a, b)
    &&& forall|x: int, y: int|
        #[trigger] crate::pattern::cue_at(t, words, x, y) ==> a <= x < b && (x == a ==> y == b)
}

proof fn lemma_lone_cue(
    t: Seq<char>,
    words: Seq<Seq<char>>,
    with: Seq<char>,
    out: Seq<char>,
    a: int,
    b: int,
)
    requires
        cues_replaced(t, words, with, out),
        is_lone_cue(t, words, a, b),
    ensures
        out == t.take(a) + with + t.skip(b),
{
    reveal(is_lone_cue);
    let hit = |a: int, b: int| crate::pattern::cue_at(t, words, a, b);
    let spans = choose|spans: Seq<(int, int)>|
        {
            &&& #[trigger] crate::pattern::are_char_spans(t, spans)
            &&& crate::pattern::finds(
                t,
                spans,
                |a: int, b: int| crate::pattern::cue_at(t, words, a, b),
            )
            &&& out == crate::pattern::replaced(t, spans, Seq::new(spans.len(), |k: int| with))
        };
    let each = Seq::new(spans.len(), |k: int| with);
    assert(hit(a, b));
    if spans.len() == 0 {
        assert(crate::pattern::resumes_at(spans, 0) <= a);
    }
    assert(hit(spans[0].0, spans[0].1));
    if a < spans[0].0 {
        assert(crate::pattern::resumes_at(spans, 0) <= a);
    }
    assert(spans[0] == (a, b));
    if spans.len() > 1 {
        assert(hit(spans[1].0, spans[1].1));
        assert(spans[0].1 <= spans[1].0);
    }
    assert(spans.len() == 1);
    reveal_with_fuel(crate::pattern::woven, 2);
    assert(out =~= t.take(a) + with + t.skip(b));
}

proof fn lemma_only_paragraphs(t: Seq<char>, out: Seq<char>)
    requires
        breaks_made(t, out),
        is_free_of_cues(t, crate::pattern::line_words()),
    ensures
        cues_replaced(t, crate::pattern::paragraph_words(), "\n\n"@, out),
{
    let mid = choose|mid: Seq<char>|
        {
            &&& #[trigger] cues_replaced(t, crate::pattern::paragraph_words(), "\n\n"@, mid)
            &&& cues_replaced(mid, crate::pattern::line_words(), "\n"@, out)
        };
    lemma_other_cues_stay_absent(t, mid);
    law_no_cue_changes_nothing(mid, crate::pattern::line_words(), "\n"@, out);
}

/// One paragraph cue, from `a` to `b`, and no other cue: an empty line stands in
/// its place, and the rest is kept.
pub proof fn law_lone_paragraph_cue(
    t: Seq<char>,
    out: Seq<char>,
    phrases: Seq<Seq<char>>,
    others: Seq<Seq<char>>,
    a: int,
    b: int,
)
    requires
        breaks_made(t, out),
        phrases == seq!["new paragraph"@],
        others == seq!["new line"@, "newline"@],
        is_lone_cue(t, phrases, a, b),
        is_free_of_cues(t, others),
    ensures
        out == t.take(a) + seq!['\n', '\n'] + t.skip(b),
{
    assert(crate::pattern::paragraph_words() =~= phrases);
    assert(crate::pattern::line_words() =~= others);
    lemma_only_paragraphs(t, out);
    lemma_lone_cue(t, phrases, "\n\n"@, out, a, b);
    assert("\n\n"@ =~= seq!['\n', '\n']) by {
        reveal_strlit("\n\n");
    }
}

proof fn lemma_other_cues_stay_absent(t: Seq<char>, mid: Seq<char>)
    requires
        cues_replaced(t, crate::pattern::paragraph_words(), "\n\n"@, mid),
        is_free_of_cues(t, crate::pattern::line_words()),
    ensures
        is_free_of_cues(mid, crate::pattern::line_words()),
{
    let words = crate::pattern::paragraph_words();
    let spans = choose|spans: Seq<(int, int)>|
        {
            &&& #[trigger] crate::pattern::are_char_spans(t, spans)
            &&& crate::pattern::finds(
                t,
                spans,
                |a: int, b: int| crate::pattern::cue_at(t, words, a, b),
            )
            &&& mid == crate::pattern::replaced(
                t,
                spans,
                Seq::new(spans.len(), |k: int| "\n\n"@),
            )
        };
    let with = Seq::new(spans.len(), |k: int| "\n\n"@);
    assert(crate::cues::is_break("\n\n"@)) by {
        reveal_strlit("\n\n");
    }
    crate::cues::lemma_cue_phrases();
    crate::cues::lemma_no_cue_is_left(t, spans, with, words, crate::pattern::line_words());
}

/// One line cue, from `a` to `b`, and no other cue: a line break stands in its
/// place, and the rest is kept.
pub proof fn law_lone_line_cue(
    t: Seq<char>,
    out: Seq<char>,
    phrases: Seq<Seq<char>>,
    a: int,
    b: int,
)
    requires
        phrases == seq!["new line"@, "newline"@],
        breaks_made(t, out),
        is_lone_cue(t, phrases, a, b),
        is_free_of_cues(t, seq!["new paragraph"@]),
    ensures
        out == t.take(a) + seq!['\n'] + t.skip(b),
{
    let paragraphs = crate::pattern::paragraph_words();
    let lines = crate::pattern::line_words();
    assert(paragraphs =~= seq!["new paragraph"@]);
    assert(lines =~= seq!["new line"@, "newline"@]);
    let mid = choose|mid: Seq<char>|
        {
            &&& #[trigger] cues_replaced(t, paragraphs, "\n\n"@, mid)
            &&& cues_replaced(mid, lines, "\n"@, out)
        };
    law_no_cue_changes_nothing(t, paragraphs, "\n\n"@, mid);
    lemma_lone_cue(t, lines, "\n"@, out, a, b);
    reveal_strlit("\n");
    assert("\n"@ =~= seq!['\n']);
}

/// A cue takes with it one space before its words, all of the marks , . ! ? ; :
/// behind them, and one space behind those.
pub proof fn law_cue_takes_what_clings(
    t: Seq<char>,
    phrases: Seq<Seq<char>>,
    a: int,
    b: int,
) -> (r: (int, int, int))
    requires
        crate::cues::are_cue_phrases(phrases),
        crate::pattern::cue_at(t, phrases, a, b),
    ensures
        a <= r.0 < r.1 <= r.2 <= b <= t.len(),
        r.0 == a || r.0 == a + 1 && t[a] == ' ',
        crate::pattern::edge(t, r.0),
        crate::pattern::edge(t, r.1),
        forall|i: int|
            r.1 <= i < r.2 ==> (#[trigger] t[i] == ',' || t[i] == '.' || t[i] == '!' || t[i] == '?'
                || t[i] == ';' || t[i] == ':'),
        b == r.2 || b == r.2 + 1 && t[r.2] == ' ',
        b == r.2 && b < t.len() ==> t[b] != ' ' && t[b] != ',' && t[b] != '.' && t[b] != '!' && t[b]
            != '?' && t[b] != ';' && t[b] != ':',
        exists|k: int|
            0 <= k < phrases.len() && crate::pattern::reads(t, r.0, #[trigger] phrases[k]) && (r.1
                == r.0 + phrases[k].len() || r.1 == r.0 + phrases[k].len() + 1
                && crate::pattern::ess_at(t, r.1 - 1)),
{
    let w = crate::pattern::past_space(t, a);
    let (k, e, m) = choose|k: int, e: int, m: int|
        {
            &&& 0 <= k < phrases.len()
            &&& e == w + phrases[k].len() || e == w + phrases[k].len() + 1
                && crate::pattern::ess_at(t, e - 1)
            &&& crate::pattern::reads(t, w, #[trigger] phrases[k])
            &&& crate::pattern::edge(t, w)
            &&& crate::pattern::edge(t, e)
            &&& #[trigger] crate::pattern::stops_between(t, e, m)
            &&& b == crate::pattern::past_space(t, m)
        };
    assert(crate::cues::is_cue_phrase(phrases[k]));
    assert(crate::pattern::reads(t, w, phrases[k]));
    assert forall|i: int| e <= i < m implies (#[trigger] t[i] == ',' || t[i] == '.' || t[i] == '!'
        || t[i] == '?' || t[i] == ';' || t[i] == ':') by {
        assert(crate::pattern::is_stop(t[i]));
    }
    (w, e, m)
}

/// A tidy text has no whitespace before the marks , . ! ? ; : and no two spaces or
/// tabs in a row, and whitespace neither starts nor ends it.
pub proof fn law_tidy_text(t: Seq<char>, i: int)
    requires
        is_tidy(t),
        0 <= i < t.len(),
    ensures
        i + 1 < t.len() && crate::text::is_white(t[i]) ==> t[i + 1] != ',' && t[i + 1] != '.' && t[i
            + 1] != '!' && t[i + 1] != '?' && t[i + 1] != ';' && t[i + 1] != ':',
        i + 1 < t.len() && (t[i] == ' ' || t[i] == '\t') ==> t[i + 1] != ' ' && t[i + 1] != '\t',
        i == 0 || i == t.len() - 1 ==> !crate::text::is_white(t[i]),
{
    if i + 1 < t.len() {
        let stops = |a: char, b: char| is_spaced_stop(a, b);
        let blanks = |a: char, b: char| are_blanks(a, b);
        assert(!stops(t[i], t[i + 1]));
        assert(!blanks(t[i], t[i + 1]));
    }
}

/// Making breaks a second time changes nothing.
pub proof fn law_making_breaks_twice(t: Seq<char>, once: Seq<char>, twice: Seq<char>)
    requires
        breaks_made(t, once),
        breaks_made(once, twice),
    ensures
        twice == once,
{
    law_no_cue_is_left(t, once);
    law_no_break_without_cue(once, twice);
}

/// Where no cue stands, the text is left as it is.
pub proof fn law_no_cue_changes_nothing(
    t: Seq<char>,
    words: Seq<Seq<char>>,
    with: Seq<char>,
    out: Seq<char>,
)
    requires
        cues_replaced(t, words, with, out),
        forall|a: int, b: int| !#[trigger] crate::pattern::cue_at(t, words, a, b),
    ensures
        out == t,
{
    let hit = |a: int, b: int| crate::pattern::cue_at(t, words, a, b);
    let spans = choose|spans: Seq<(int, int)>|
        {
            &&& #[trigger] crate::pattern::are_char_spans(t, spans)
            &&& crate::pattern::finds(
                t,
                spans,
                |a: int, b: int| crate::pattern::cue_at(t, words, a, b),
            )
            &&& out == crate::pattern::replaced(t, spans, Seq::new(spans.len(), |k: int| with))
        };
    if spans.len() > 0 {
        assert(hit(spans[0].0, spans[0].1));
    }
    let each = Seq::new(spans.len(), |k: int| with);
    assert(crate::pattern::woven(t, spans, each, 0) =~= seq![]);
    assert(crate::pattern::replaced(t, spans, each) =~= t);
}

/// The first cue of a text gives way to a break, with the spaces and marks that
/// cling to it; the text before it is kept.
pub proof fn law_first_cue_is_replaced(
    t: Seq<char>,
    words: Seq<Seq<char>>,
    with: Seq<char>,
    out: Seq<char>,
    a: int,
    b: int,
)
    requires
        cues_replaced(t, words, with, out),
        crate::pattern::cue_at(t, words, a, b),
        0 <= a <= t.len(),
        forall|x: int, y: int|
            0 <= x < a ==> !#[trigger] crate::pattern::cue_at(t, words, x, y),
    ensures
        out.len() >= a + with.len(),
        out.take(a + with.len()) == t.take(a) + with,
{
    let hit = |a: int, b: int| crate::pattern::cue_at(t, words, a, b);
    let spans = choose|spans: Seq<(int, int)>|
        {
            &&& #[trigger] crate::pattern::are_char_spans(t, spans)
            &&& crate::pattern::finds(
                t,
                spans,
                |a: int, b: int| crate::pattern::cue_at(t, words, a, b),
            )
            &&& out == crate::pattern::replaced(t, spans, Seq::new(spans.len(), |k: int| with))
        };
    let each = Seq::new(spans.len(), |k: int| with);
    assert(hit(a, b));
    if spans.len() == 0 {
        assert(crate::pattern::resumes_at(spans, 0) <= a);
    }
    assert(hit(spans[0].0, spans[0].1));
    assert(0 <= spans[0].0 <= spans[0].1 <= t.len());
    if a < spans[0].0 {
        assert(crate::pattern::resumes_at(spans, 0) <= a);
    }
    assert(spans[0].0 == a);
    lemma_weave_prefix(t, spans, each, spans.len() as int);
    reveal_with_fuel(crate::pattern::woven, 2);
    let first = crate::pattern::woven(t, spans, each, 1);
    assert(t.subrange(0, a) =~= t.take(a));
    assert(first =~= t.take(a) + with);
    assert(out.take(first.len() as int) =~= crate::pattern::woven(
        t,
        spans,
        each,
        spans.len() as int,
    ).take(first.len() as int));
}

proof fn lemma_weave_prefix(
    t: Seq<char>,
    spans: Seq<(int, int)>,
    with: Seq<Seq<char>>,
    n: int,
)
    requires
        1 <= n <= spans.len(),
    ensures
        ({
            let first = crate::pattern::woven(t, spans, with, 1);
            let all = crate::pattern::woven(t, spans, with, n);
            first.len() <= all.len() && all.take(first.len() as int) == first
        }),
    decreases n,
{
    let first = crate::pattern::woven(t, spans, with, 1);
    if n == 1 {
        assert(first.take(first.len() as int) =~= first);
    } else {
        lemma_weave_prefix(t, spans, with, n - 1);
        let before = crate::pattern::woven(t, spans, with, n - 1);
        let all = crate::pattern::woven(t, spans, with, n);
        assert(all.take(first.len() as int) =~= before.take(first.len() as int));
    }
}

/// The marks that may follow a spoken command.
pub open spec fn ends_command(c: char) -> bool {
    c == '.' || c == ',' || c == '!' || c == '?'
}

/// `t` without the marks at its end.
pub open spec fn without_end_marks(t: Seq<char>) -> Seq<char>
    decreases t.len(),
{
    if t.len() > 0 && ends_command(t.last()) {
        without_end_marks(t.drop_last())
    } else {
        t
    }
}

/// A text in lower case is the request to undo and nothing else.
pub open spec fn asks_undo(low: Seq<char>) -> bool {
    let command = crate::text::trimmed(without_end_marks(low));
    command == "scratch that"@ || command == "undo that"@
}

/// The text is the request to undo, in any case, and nothing else.
pub open spec fn is_undo(t: Seq<char>) -> bool {
    asks_undo(crate::text::lowercase(crate::text::trimmed(t)))
}

pub open spec fn all_white(t: Seq<char>) -> bool {
    forall|i: int| 0 <= i < t.len() ==> crate::text::is_white(#[trigger] t[i])
}

/// Nothing but full stops, commas, exclamation marks and question marks.
pub open spec fn all_end_marks(t: Seq<char>) -> bool {
    forall|i: int|
        0 <= i < t.len() ==> (#[trigger] t[i] == '.' || t[i] == ',' || t[i] == '!' || t[i] == '?')
}

/// The parts of a text that says nothing but the request to undo: its letters, in
/// any case, with whitespace around them and marks behind them.
pub open spec fn is_undo_in_parts(
    t: Seq<char>,
    before: Seq<char>,
    letters: Seq<char>,
    gap: Seq<char>,
    marks: Seq<char>,
    after: Seq<char>,
) -> bool {
    &&& t == before + letters + gap + marks + after
    &&& all_white(before)
    &&& crate::text::ascii_lowered(letters) == "scratch that"@ || crate::text::ascii_lowered(letters)
        == "undo that"@
    &&& all_white(gap)
    &&& all_end_marks(marks)
    &&& all_white(after)
}

/// The text says nothing but the request to undo.
pub open spec fn says_undo_only(t: Seq<char>) -> bool {
    exists|before: Seq<char>, letters: Seq<char>, gap: Seq<char>, marks: Seq<char>, after: Seq<char>|
        is_undo_in_parts(t, before, letters, gap, marks, after)
}

proof fn lemma_end_marks(t: Seq<char>) -> (n: int)
    ensures
        0 <= n <= t.len(),
        without_end_marks(t) == t.take(n),
        all_end_marks(t.skip(n)),
        n > 0 ==> !ends_command(t[n - 1]),
    decreases t.len(),
{
    if t.len() > 0 && ends_command(t.last()) {
        let d = t.drop_last();
        let n = lemma_end_marks(d);
        assert(d.take(n) =~= t.take(n));
        assert forall|i: int| 0 <= i < t.skip(n).len() implies (#[trigger] t.skip(n)[i] == '.'
            || t.skip(n)[i] == ',' || t.skip(n)[i] == '!' || t.skip(n)[i] == '?') by {
            if i < d.skip(n).len() {
                assert(d.skip(n)[i] == t.skip(n)[i]);
            }
        }
        n
    } else {
        assert(t.take(t.len() as int) =~= t);
        t.len() as int
    }
}

proof fn lemma_phrases_have_no_white_ends()
    ensures
        "scratch that"@.len() == 12,
        "undo that"@.len() == 9,
        "scratch that"@[0] == 's' && "scratch that"@[11] == 't',
        "undo that"@[0] == 'u' && "undo that"@[8] == 't',
{
    reveal_strlit("scratch that");
    reveal_strlit("undo that");
}

proof fn lemma_undo_has_parts(t: Seq<char>)
    requires
        asks_undo(crate::text::ascii_lowered(crate::text::trimmed(t))),
    ensures
        says_undo_only(t),
{
    let (a, b) = crate::text::lemma_trimmed_at(t);
    let core = crate::text::trimmed(t);
    let low = crate::text::ascii_lowered(core);
    let n = lemma_end_marks(low);
    let bare = without_end_marks(low);
    let (x, y) = crate::text::lemma_trimmed_at(bare);
    let command = crate::text::trimmed(bare);
    lemma_phrases_have_no_white_ends();
    let before = t.take(a + x);
    let letters = t.subrange(a + x, a + y);
    let gap = t.subrange(a + y, a + n);
    let marks = t.subrange(a + n, b);
    let after = t.skip(b);
    assert(low.len() == core.len());
    assert(bare.len() == n);
    assert forall|i: int| 0 <= i < low.len() implies #[trigger] low[i] == crate::text::ascii_lower(
        t[a + i],
    ) by {
        assert(core[i] == t[a + i]);
    }
    assert forall|i: int| 0 <= i < before.len() implies crate::text::is_white(
        #[trigger] before[i],
    ) by {
        if i >= a {
            assert(bare[i - a] == low[i - a]);
            assert(crate::text::is_white(bare[i - a]));
            assert(low[i - a] == crate::text::ascii_lower(t[a + (i - a)]));
        } else {
            assert(crate::text::is_white(t[i]));
        }
    }
    assert(crate::text::ascii_lowered(letters) =~= command) by {
        assert forall|i: int| 0 <= i < letters.len() implies crate::text::ascii_lowered(letters)[i]
            == #[trigger] command[i] by {
            assert(command[i] == bare[x + i]);
            assert(bare[x + i] == low[x + i]);
            assert(low[x + i] == crate::text::ascii_lower(t[a + (x + i)]));
        }
    }
    assert forall|i: int| 0 <= i < gap.len() implies crate::text::is_white(#[trigger] gap[i]) by {
        assert(gap[i] == t[a + (y + i)]);
        assert(bare[y + i] == low[y + i]);
        assert(crate::text::is_white(bare[y + i]));
        assert(low[y + i] == crate::text::ascii_lower(t[a + (y + i)]));
    }
    assert forall|i: int| 0 <= i < marks.len() implies (#[trigger] marks[i] == '.' || marks[i] == ','
        || marks[i] == '!' || marks[i] == '?') by {
        assert(marks[i] == t[a + (n + i)]);
        assert(low.skip(n)[i] == low[n + i]);
        assert(low[n + i] == crate::text::ascii_lower(t[a + (n + i)]));
    }
    assert forall|i: int| 0 <= i < after.len() implies crate::text::is_white(#[trigger] after[i]) by {
        assert(crate::text::is_white(t[b + i]));
    }
    assert(t =~= before + letters + gap + marks + after);
    assert(is_undo_in_parts(t, before, letters, gap, marks, after));
}

proof fn lemma_parts_ask_undo(
    t: Seq<char>,
    before: Seq<char>,
    letters: Seq<char>,
    gap: Seq<char>,
    marks: Seq<char>,
    after: Seq<char>,
)
    requires
        is_undo_in_parts(t, before, letters, gap, marks, after),
    ensures
        asks_undo(crate::text::ascii_lowered(crate::text::trimmed(t))),
{
    lemma_phrases_have_no_white_ends();
    let p = crate::text::ascii_lowered(letters);
    assert(p.len() == letters.len());
    assert(p[0] == crate::text::ascii_lower(letters[0]));
    assert(p[p.len() - 1] == crate::text::ascii_lower(letters[letters.len() - 1]));
    let a = before.len() as int;
    let e = a + letters.len();
    // The marks may be missing; the text then ends with its letters.
    let b = if marks.len() == 0 {
        e
    } else {
        t.len() - after.len()
    };
    assert(t[a] == letters[0]);
    assert(t[e - 1] == letters[letters.len() - 1]);
    if marks.len() > 0 {
        assert(t[b - 1] == marks[marks.len() - 1]);
    }
    assert forall|i: int| 0 <= i < a implies crate::text::is_white(#[trigger] t[i]) by {
        assert(t[i] == before[i]);
    }
    assert forall|i: int| b <= i < t.len() implies crate::text::is_white(#[trigger] t[i]) by {
        if i < e + gap.len() {
            assert(t[i] == gap[i - e]);
        } else {
            assert(t[i] == after[i - e - gap.len() - marks.len()]);
        }
    }
    crate::text::lemma_trimmed_is(t, a, b);
    let core = t.subrange(a, b);
    let low = crate::text::ascii_lowered(core);
    let n = if marks.len() == 0 {
        b - a
    } else {
        (letters.len() + gap.len()) as int
    };
    assert forall|i: int| 0 <= i < low.len() implies #[trigger] low[i] == crate::text::ascii_lower(
        t[a + i],
    ) by {
    }
    assert forall|i: int| n <= i < low.len() implies ends_command(#[trigger] low[i]) by {
        assert(t[a + i] == marks[i - n]);
    }
    assert(n > 0 ==> !ends_command(low[n - 1])) by {
        if n > letters.len() {
            assert(t[a + n - 1] == gap[n - 1 - letters.len()]);
        }
        assert(low[n - 1] == crate::text::ascii_lower(t[a + (n - 1)]));
    }
    lemma_end_marks_are(low, n);
    let bare = low.take(n);
    assert(bare[0] == p[0]) by {
        assert(low[0] == crate::text::ascii_lower(t[a + 0]));
    }
    let k = letters.len() as int;
    assert(bare[k - 1] == p[k - 1]) by {
        assert(low[k - 1] == crate::text::ascii_lower(t[a + (k - 1)]));
    }
    assert forall|i: int| k <= i < bare.len() implies crate::text::is_white(#[trigger] bare[i]) by {
        assert(low[i] == crate::text::ascii_lower(t[a + i]));
        assert(t[a + i] == gap[i - k]);
    }
    crate::text::lemma_trimmed_is(bare, 0, k);
    assert(bare.subrange(0, k) =~= p) by {
        assert forall|i: int| 0 <= i < k implies #[trigger] bare.subrange(0, k)[i] == p[i] by {
            assert(low[i] == crate::text::ascii_lower(t[a + i]));
            assert(t[a + i] == letters[i]);
        }
    }
}

proof fn lemma_end_marks_are(t: Seq<char>, n: int)
    requires
        0 <= n <= t.len(),
        forall|i: int| n <= i < t.len() ==> ends_command(#[trigger] t[i]),
        n > 0 ==> !ends_command(t[n - 1]),
    ensures
        without_end_marks(t) == t.take(n),
    decreases t.len(),
{
    if n < t.len() {
        let d = t.drop_last();
        assert(ends_command(t[t.len() - 1]));
        assert forall|i: int| n <= i < d.len() implies ends_command(#[trigger] d[i]) by {
            assert(d[i] == t[i]);
        }
        lemma_end_marks_are(d, n);
        assert(d.take(n) =~= t.take(n));
    } else {
        assert(t.take(n) =~= t);
    }
}

/// The request to undo is the whole transcript: apart from whitespace around it
/// and the marks . , ! ? behind it, an ASCII text is one exactly where it has the
/// letters of "scratch that" or of "undo that" in any case. A text with any other
/// word is none.
pub proof fn law_undo_is_the_whole_text(t: Seq<char>)
    ensures
        asks_undo(crate::text::ascii_lowered(crate::text::trimmed(t))) <==> says_undo_only(t),
{
    if asks_undo(crate::text::ascii_lowered(crate::text::trimmed(t))) {
        lemma_undo_has_parts(t);
    }
    if says_undo_only(t) {
        let (before, letters, gap, marks, after) = choose|
            before: Seq<char>,
            letters: Seq<char>,
            gap: Seq<char>,
            marks: Seq<char>,
            after: Seq<char>,
        | is_undo_in_parts(t, before, letters, gap, marks, after);
        lemma_parts_ask_undo(t, before, letters, gap, marks, after);
    }
}

/// Whether the whole transcript is just a request to undo.
pub fn is_undo_command(text: &str) -> (b: bool)
    ensures
        b == is_undo(text@),
        crate::text::all_ascii(crate::text::trimmed(text@)) ==> b == asks_undo(
            crate::text::ascii_lowered(crate::text::trimmed(text@)),
        ),
        crate::text::all_ascii(crate::text::trimmed(text@)) ==> b == says_undo_only(text@),
{
    proof {
        law_undo_is_the_whole_text(text@);
    }
    let low = to_lowercase(trim(text).as_str());
    let mut v = to_chars(low.as_str());
    while v.len() > 0 && (v[v.len() - 1] == '.' || v[v.len() - 1] == ',' || v[v.len() - 1] == '!'
        || v[v.len() - 1] == '?')
        invariant
            without_end_marks(v@) == without_end_marks(low@),
        decreases v.len(),
    {
        let ghost before = v@;
        v.pop();
        assert(v@ =~= before.drop_last());
    }
    let command = trim_chars(&v);
    same_chars(&command, &to_chars("scratch that")) || same_chars(&command, &to_chars("undo that"))
}

} // verus!
