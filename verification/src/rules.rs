//! Dictionary and snippet rules: what the user wants written in place of what
//! is heard.

use vstd::prelude::*;

use crate::pattern::{escape, find_spans, matched_texts, replace_spans};
use crate::text::{joined, same_text, to_chars, to_decimal, to_lowercase, trim};

verus! {

/// One rule: `from` is heard, `to` is written.
#[derive(Debug)]
pub struct Rule {
    pub id: u64,
    /// "word" or "snippet".
    pub kind: String,
    pub from: String,
    pub to: String,
    pub enabled: bool,
}

impl Clone for Rule {
    fn clone(&self) -> (r: Rule)
        ensures
            r == *self,
    {
        Rule {
            id: self.id,
            kind: self.kind.clone(),
            from: self.from.clone(),
            to: self.to.clone(),
            enabled: self.enabled,
        }
    }
}

/// The rule takes part in replacement.
pub open spec fn is_active(r: Rule) -> bool {
    r.enabled && !crate::text::is_blank(r.from@)
}

/// The active rules in order, each as what is heard and what is written.
pub open spec fn active_pairs(rules: Seq<Rule>) -> Seq<(Seq<char>, Seq<char>)>
    decreases rules.len(),
{
    if rules.len() == 0 {
        seq![]
    } else {
        let r = rules.last();
        let before = active_pairs(rules.drop_last());
        if is_active(r) {
            before.push((r.from@, r.to@))
        } else {
            before
        }
    }
}

/// The position behind the pairs at the front of `s` that are no shorter than `n`.
pub open spec fn slot(s: Seq<(Seq<char>, Seq<char>)>, n: nat) -> int
    decreases s.len(),
{
    if s.len() == 0 || s[0].0.len() < n {
        0
    } else {
        1 + slot(s.drop_first(), n)
    }
}

/// The pairs with the longest phrase first; equally long ones keep their order.
pub open spec fn longest_first(s: Seq<(Seq<char>, Seq<char>)>) -> Seq<(Seq<char>, Seq<char>)>
    decreases s.len(),
{
    if s.len() == 0 {
        s
    } else {
        let before = longest_first(s.drop_last());
        before.insert(slot(before, s.last().0.len()), s.last())
    }
}

/// What the search looks for: each phrase without the whitespace around it.
pub open spec fn phrases(pairs: Seq<(Seq<char>, Seq<char>)>) -> Seq<Seq<char>> {
    Seq::new(pairs.len(), |i: int| crate::text::trimmed(pairs[i].0))
}

/// What is written for `heard`: by the first pair whose phrase has the same
/// lower-case form, else `heard` itself.
pub open spec fn written(pairs: Seq<(Seq<char>, Seq<char>)>, heard: Seq<char>) -> Seq<char>
    decreases pairs.len(),
{
    if pairs.len() == 0 {
        heard
    } else if crate::text::lowercase(pairs[0].0) == crate::text::lowercase(heard) {
        pairs[0].1
    } else {
        written(pairs.drop_first(), heard)
    }
}

/// What is written at each span.
pub open spec fn written_at(
    pairs: Seq<(Seq<char>, Seq<char>)>,
    t: Seq<char>,
    spans: Seq<(int, int)>,
) -> Seq<Seq<char>> {
    crate::pattern::matched(t, spans).map_values(|m: Seq<char>| written(pairs, m))
}

/// The text with what is heard at `spans` replaced by what is written for it.
pub open spec fn rewritten(
    t: Seq<char>,
    pairs: Seq<(Seq<char>, Seq<char>)>,
    spans: Seq<(usize, usize)>,
) -> Seq<char> {
    let c = crate::pattern::in_chars(t, spans);
    crate::pattern::replaced(t, c, written_at(pairs, t, c))
}

/// The text after the rules have been applied.
pub open spec fn with_rules(t: Seq<char>, rules: Seq<Rule>) -> Seq<char> {
    let pairs = longest_first(active_pairs(rules));
    if pairs.len() == 0 {
        t
    } else {
        match crate::pattern::regex_spans(
            crate::pattern::any_of(phrases(pairs)),
            true,
            usize::BITS,
            t,
        ) {
            Some(spans) => rewritten(t, pairs, spans),
            None => t,
        }
    }
}

/// What pairs of strings hold.
pub open spec fn pair_views(v: Seq<(String, String)>) -> Seq<(Seq<char>, Seq<char>)> {
    Seq::new(v.len(), |i: int| (v[i].0@, v[i].1@))
}

/// The active rules, the longest phrase first.
fn ordered_pairs(rules: &[Rule]) -> (r: Vec<(String, String)>)
    ensures
        pair_views(r@) == longest_first(active_pairs(rules@)),
{
    let mut r: Vec<(String, String)> = Vec::new();
    assert(pair_views(r@) =~= longest_first(active_pairs(rules@.take(0))));
    for i in 0..rules.len()
        invariant
            pair_views(r@) == longest_first(active_pairs(rules@.take(i as int))),
    {
        let ghost prefix = rules@.take(i + 1);
        assert(prefix.drop_last() =~= rules@.take(i as int));
        let rule = &rules[i];
        let bare = trim(rule.from.as_str());
        let size = to_chars(bare.as_str()).len();
        if rule.enabled && size > 0 {
            let n = to_chars(rule.from.as_str()).len();
            let at = slot_for(&r, n);
            let ghost before = pair_views(r@);
            r.insert(at, (rule.from.clone(), rule.to.clone()));
            proof {
                let added = active_pairs(prefix);
                assert(added.drop_last() =~= active_pairs(rules@.take(i as int)));
                assert(pair_views(r@) =~= before.insert(at as int, (rule.from@, rule.to@)));
            }
        }
    }
    assert(rules@.take(rules@.len() as int) =~= rules@);
    r
}

fn slot_for(v: &Vec<(String, String)>, n: usize) -> (at: usize)
    ensures
        at == slot(pair_views(v@), n as nat),
        at <= v.len(),
{
    let mut at: usize = 0;
    let ghost all = pair_views(v@);
    assert(all.skip(0) =~= all);
    while at < v.len() && to_chars(v[at].0.as_str()).len() >= n
        invariant
            at <= v.len(),
            all == pair_views(v@),
            slot(all, n as nat) == at + slot(all.skip(at as int), n as nat),
        decreases v.len() - at,
    {
        assert(all.skip(at as int).drop_first() =~= all.skip(at + 1));
        at = at + 1;
    }
    at
}

/// The two texts differ at most in the case of ASCII letters.
pub open spec fn same_letters(a: Seq<char>, b: Seq<char>) -> bool {
    crate::text::ascii_lowered(a) == crate::text::ascii_lowered(b)
}

/// What is written for `heard` by the first pair with the same letters.
pub open spec fn spelled(pairs: Seq<(Seq<char>, Seq<char>)>, heard: Seq<char>) -> Seq<char>
    decreases pairs.len(),
{
    if pairs.len() == 0 {
        heard
    } else if same_letters(pairs[0].0, heard) {
        pairs[0].1
    } else {
        spelled(pairs.drop_first(), heard)
    }
}

/// What is written at each span by the pairs with the same letters.
pub open spec fn spelled_at(
    pairs: Seq<(Seq<char>, Seq<char>)>,
    t: Seq<char>,
    spans: Seq<(int, int)>,
) -> Seq<Seq<char>> {
    crate::pattern::matched(t, spans).map_values(|m: Seq<char>| spelled(pairs, m))
}

pub open spec fn ascii_phrases(pairs: Seq<(Seq<char>, Seq<char>)>) -> bool {
    forall|i: int| 0 <= i < pairs.len() ==> crate::text::all_ascii((#[trigger] pairs[i]).0)
}

/// What is written for `heard`.
fn write_for(pairs: &Vec<(String, String)>, heard: &str) -> (r: String)
    ensures
        r@ == written(pair_views(pairs@), heard@),
        ascii_phrases(pair_views(pairs@)) && crate::text::all_ascii(heard@) ==> r@ == spelled(
            pair_views(pairs@),
            heard@,
        ),
{
    let low = to_lowercase(heard);
    let ghost all = pair_views(pairs@);
    assert(all.skip(0) =~= all);
    for i in 0..pairs.len()
        invariant
            all == pair_views(pairs@),
            low@ == crate::text::lowercase(heard@),
            written(all, heard@) == written(all.skip(i as int), heard@),
            crate::text::all_ascii(heard@) ==> low@ == crate::text::ascii_lowered(heard@),
            ascii_phrases(all) && crate::text::all_ascii(heard@) ==> spelled(all, heard@)
                == spelled(all.skip(i as int), heard@),
    {
        assert(all.skip(i as int).drop_first() =~= all.skip(i + 1));
        assert(all[i as int].0 == pairs@[i as int].0@);
        let other = to_lowercase(pairs[i].0.as_str());
        if same_text(other.as_str(), low.as_str()) {
            return pairs[i].1.clone();
        }
    }
    heard.to_owned()
}

/// The pattern that finds any phrase of the pairs.
fn search_pattern(pairs: &Vec<(String, String)>) -> (r: String)
    ensures
        r@ == crate::pattern::any_of(phrases(pair_views(pairs@))),
{
    let mut p = String::new();
    let ghost all = phrases(pair_views(pairs@));
    for i in 0..pairs.len()
        invariant
            all == phrases(pair_views(pairs@)),
            p@ == crate::pattern::barred(all.take(i as int)),
    {
        let ghost upto = all.take(i + 1);
        assert(upto.drop_last() =~= all.take(i as int));
        let one = escape(trim(pairs[i].0.as_str()).as_str());
        if i > 0 {
            p.push('|');
        } else {
            assert(p@ =~= seq![]);
            assert(upto =~= seq![all[0]]);
        }
        p = joined(p.as_str(), one.as_str());
        assert(p@ =~= crate::pattern::barred(upto));
    }
    assert(all.take(pairs@.len() as int) =~= all);
    let head = joined("\\b(?:", p.as_str());
    joined(head.as_str(), ")\\b")
}

/// The text with what is heard at `spans` replaced by what the pairs say.
pub fn rewrite_spans(
    text: &str,
    pairs: &Vec<(String, String)>,
    spans: &Vec<(usize, usize)>,
) -> (r: String)
    requires
        crate::pattern::are_spans(text@, spans@),
    ensures
        r@ == rewritten(text@, pair_views(pairs@), spans@),
        ascii_phrases(pair_views(pairs@)) && (forall|k: int|
            0 <= k < spans.len() ==> crate::text::all_ascii(
                #[trigger] crate::pattern::matched(
                    text@,
                    crate::pattern::in_chars(text@, spans@),
                )[k],
            )) ==> r@ == crate::pattern::replaced(
            text@,
            crate::pattern::in_chars(text@, spans@),
            spelled_at(
                pair_views(pairs@),
                text@,
                crate::pattern::in_chars(text@, spans@),
            ),
        ),
{
    let heard = matched_texts(text, spans);
    let ghost c = crate::pattern::in_chars(text@, spans@);
    let ghost m = crate::pattern::matched(text@, c);
    let mut with: Vec<String> = Vec::new();
    for k in 0..heard.len()
        invariant
            m == crate::pattern::matched(text@, c),
            crate::pattern::views(heard@) == m,
            with.len() == k,
            forall|i: int|
                0 <= i < k ==> (#[trigger] with[i])@ == written(pair_views(pairs@), m[i]),
            forall|i: int|
                0 <= i < k && ascii_phrases(pair_views(pairs@)) && crate::text::all_ascii(m[i])
                    ==> (#[trigger] with[i])@ == spelled(pair_views(pairs@), m[i]),
    {
        assert(crate::pattern::views(heard@)[k as int] == heard@[k as int]@);
        with.push(write_for(pairs, heard[k].as_str()));
    }
    assert(heard.len() == spans.len()) by {
        assert(crate::pattern::views(heard@).len() == m.len());
    }
    assert(crate::pattern::views(with@) =~= written_at(pair_views(pairs@), text@, c));
    proof {
        if ascii_phrases(pair_views(pairs@)) && (forall|k: int|
            0 <= k < spans@.len() ==> crate::text::all_ascii(#[trigger] m[k])) {
            assert(crate::pattern::views(with@) =~= spelled_at(pair_views(pairs@), text@, c));
        }
    }
    replace_spans(text, spans, &with)
}

/// The longest phrase of the pairs that stands at `a` ends at `b`.
pub open spec fn longest_at(
    t: Seq<char>,
    pairs: Seq<(Seq<char>, Seq<char>)>,
    a: int,
    b: int,
) -> bool {
    exists|i: int|
        {
            &&& 0 <= i < pairs.len()
            &&& crate::pattern::stands_at(t, a, (#[trigger] pairs[i]).0)
            &&& b == a + pairs[i].0.len()
            &&& forall|j: int|
                0 <= j < pairs.len() && crate::pattern::stands_at(t, a, (#[trigger] pairs[j]).0)
                    ==> pairs[j].0.len() <= pairs[i].0.len()
        }
}

/// Every active phrase is ASCII and has no whitespace around it.
pub open spec fn plain_rules(rules: Seq<Rule>) -> bool {
    forall|i: int|
        0 <= i < rules.len() && is_active(#[trigger] rules[i]) ==> crate::text::all_ascii(
            rules[i].from@,
        ) && crate::text::trimmed(rules[i].from@) == rules[i].from@
}

/// `out` is the text with every active phrase rewritten: at `spans`, which are
/// all the places from the left where one stands, the longest one counting, with
/// what the first rule for that phrase says.
pub open spec fn obeyed(
    t: Seq<char>,
    rules: Seq<Rule>,
    spans: Seq<(int, int)>,
    out: Seq<char>,
) -> bool {
    let pairs = active_pairs(rules);
    &&& crate::pattern::are_char_spans(t, spans)
    &&& crate::pattern::finds(t, spans, |a: int, b: int| longest_at(t, pairs, a, b))
    &&& out == crate::pattern::replaced(t, spans, spelled_at(pairs, t, spans))
}

/// The search for the phrases of the rules compiles.
pub open spec fn searchable(t: Seq<char>, rules: Seq<Rule>) -> bool {
    let pairs = longest_first(active_pairs(rules));
    pairs.len() > 0 ==> crate::pattern::regex_spans(
        crate::pattern::any_of(phrases(pairs)),
        true,
        usize::BITS,
        t,
    ) is Some
}

spec fn descending(s: Seq<(Seq<char>, Seq<char>)>) -> bool {
    forall|i: int, j: int|
        0 <= i <= j < s.len() ==> (#[trigger] s[i]).0.len() >= (#[trigger] s[j]).0.len()
}

proof fn lemma_slot(s: Seq<(Seq<char>, Seq<char>)>, n: nat)
    requires
        descending(s),
    ensures
        0 <= slot(s, n) <= s.len(),
        forall|i: int| 0 <= i < slot(s, n) ==> (#[trigger] s[i]).0.len() >= n,
        forall|i: int| slot(s, n) <= i < s.len() ==> (#[trigger] s[i]).0.len() < n,
    decreases s.len(),
{
    if s.len() > 0 && s[0].0.len() >= n {
        let rest = s.drop_first();
        assert(descending(rest)) by {
            assert forall|i: int, j: int| 0 <= i <= j < rest.len() implies (
            #[trigger] rest[i]).0.len() >= (#[trigger] rest[j]).0.len() by {
                assert(rest[i] == s[i + 1] && rest[j] == s[j + 1]);
            }
        }
        lemma_slot(rest, n);
        assert forall|i: int| 0 <= i < slot(s, n) implies (#[trigger] s[i]).0.len() >= n by {
            if i > 0 {
                assert(rest[i - 1] == s[i]);
            }
        }
        assert forall|i: int| slot(s, n) <= i < s.len() implies (#[trigger] s[i]).0.len() < n by {
            assert(rest[i - 1] == s[i]);
        }
    }
}

proof fn lemma_same_letters_len(a: Seq<char>, b: Seq<char>)
    requires
        same_letters(a, b),
    ensures
        a.len() == b.len(),
{
    assert(crate::text::ascii_lowered(a).len() == a.len());
    assert(crate::text::ascii_lowered(b).len() == b.len());
}

spec fn has_letters(s: Seq<(Seq<char>, Seq<char>)>, h: Seq<char>) -> bool {
    exists|i: int| 0 <= i < s.len() && same_letters((#[trigger] s[i]).0, h)
}

proof fn lemma_spelled_in_two(
    a: Seq<(Seq<char>, Seq<char>)>,
    b: Seq<(Seq<char>, Seq<char>)>,
    h: Seq<char>,
)
    ensures
        has_letters(a, h) ==> spelled(a + b, h) == spelled(a, h),
        !has_letters(a, h) ==> spelled(a + b, h) == spelled(b, h),
    decreases a.len(),
{
    if a.len() == 0 {
        assert(a + b =~= b);
    } else {
        assert((a + b).drop_first() =~= a.drop_first() + b);
        lemma_spelled_in_two(a.drop_first(), b, h);
        if !same_letters(a[0].0, h) {
            if has_letters(a, h) {
                let i = choose|i: int| 0 <= i < a.len() && same_letters((#[trigger] a[i]).0, h);
                assert(a.drop_first()[i - 1] == a[i]);
                assert(has_letters(a.drop_first(), h));
            } else if has_letters(a.drop_first(), h) {
                let i = choose|i: int|
                    0 <= i < a.drop_first().len() && same_letters(
                        (#[trigger] a.drop_first()[i]).0,
                        h,
                    );
                assert(a[i + 1] == a.drop_first()[i]);
            }
        } else {
            assert(has_letters(a, h));
        }
    }
}

proof fn lemma_spelled_one(x: (Seq<char>, Seq<char>), h: Seq<char>)
    ensures
        spelled(seq![x], h) == (if same_letters(x.0, h) {
            x.1
        } else {
            h
        }),
{
    assert(seq![x].drop_first() =~= seq![]);
    reveal_with_fuel(spelled, 2);
}

proof fn lemma_inserted(before: Seq<(Seq<char>, Seq<char>)>, x: (Seq<char>, Seq<char>), h: Seq<char>)
    requires
        descending(before),
    ensures
        spelled(before.insert(slot(before, x.0.len()), x), h) == spelled(before.push(x), h),
{
    let k = slot(before, x.0.len());
    lemma_slot(before, x.0.len());
    let front = before.take(k);
    let back = before.skip(k);
    assert(before =~= front + back);
    assert(before.insert(k, x) =~= front + (seq![x] + back));
    assert(before.push(x) =~= front + (back + seq![x]));
    lemma_spelled_in_two(front, seq![x] + back, h);
    lemma_spelled_in_two(front, back + seq![x], h);
    lemma_spelled_in_two(seq![x], back, h);
    lemma_spelled_in_two(back, seq![x], h);
    lemma_spelled_one(x, h);
    if same_letters(x.0, h) {
        assert(seq![x][0] == x);
        assert(has_letters(seq![x], h));
        assert(!has_letters(back, h)) by {
            if has_letters(back, h) {
                let i = choose|i: int|
                    0 <= i < back.len() && same_letters((#[trigger] back[i]).0, h);
                lemma_same_letters_len(back[i].0, h);
                lemma_same_letters_len(x.0, h);
                assert(back[i] == before[k + i]);
            }
        }
    } else {
        assert(!has_letters(seq![x], h));
        lemma_spelled_in_two(back, seq![], h);
        assert(back + seq![] =~= back);
    }
}

proof fn lemma_longest_first(s: Seq<(Seq<char>, Seq<char>)>)
    ensures
        longest_first(s).len() == s.len(),
        descending(longest_first(s)),
        forall|x: (Seq<char>, Seq<char>)| #[trigger]
            longest_first(s).contains(x) <==> s.contains(x),
    decreases s.len(),
{
    if s.len() > 0 {
        let x = s.last();
        let before = longest_first(s.drop_last());
        lemma_longest_first(s.drop_last());
        let k = slot(before, x.0.len());
        lemma_slot(before, x.0.len());
        let all = before.insert(k, x);
        assert(all == longest_first(s));
        assert forall|i: int, j: int| 0 <= i <= j < all.len() implies (#[trigger] all[i]).0.len()
            >= (#[trigger] all[j]).0.len() by {
            if i < k {
                assert(all[i] == before[i]);
            } else if i > k {
                assert(all[i] == before[i - 1]);
            }
            if j < k {
                assert(all[j] == before[j]);
            } else if j > k {
                assert(all[j] == before[j - 1]);
            }
        }
        assert forall|y: (Seq<char>, Seq<char>)| #[trigger] all.contains(y) <==> s.contains(y) by {
            if all.contains(y) {
                let i = choose|i: int| 0 <= i < all.len() && all[i] == y;
                if i == k {
                    assert(s[s.len() - 1] == y);
                } else {
                    let j = if i < k {
                        i
                    } else {
                        i - 1
                    };
                    assert(before[j] == y);
                    assert(before.contains(y));
                    assert(s.drop_last().contains(y));
                    let m = choose|m: int| 0 <= m < s.drop_last().len() && s.drop_last()[m] == y;
                    assert(s[m] == y);
                }
            }
            if s.contains(y) {
                let m = choose|m: int| 0 <= m < s.len() && s[m] == y;
                if m == s.len() - 1 {
                    assert(all[k] == y);
                } else {
                    assert(s.drop_last()[m] == y);
                    assert(s.drop_last().contains(y));
                    assert(before.contains(y));
                    let j = choose|j: int| 0 <= j < before.len() && before[j] == y;
                    assert(all[if j < k {
                        j
                    } else {
                        j + 1
                    }] == y);
                }
            }
        }
    }
}

proof fn lemma_order_keeps_spelling(s: Seq<(Seq<char>, Seq<char>)>, h: Seq<char>)
    ensures
        spelled(longest_first(s), h) == spelled(s, h),
    decreases s.len(),
{
    if s.len() > 0 {
        let x = s.last();
        let before = longest_first(s.drop_last());
        lemma_longest_first(s.drop_last());
        lemma_order_keeps_spelling(s.drop_last(), h);
        lemma_inserted(before, x, h);
        assert(before.push(x) =~= before + seq![x]);
        assert(s =~= s.drop_last() + seq![x]);
        lemma_spelled_in_two(before, seq![x], h);
        lemma_spelled_in_two(s.drop_last(), seq![x], h);
        assert(has_letters(before, h) <==> has_letters(s.drop_last(), h)) by {
            if has_letters(before, h) {
                let i = choose|i: int| 0 <= i < before.len() && same_letters((#[trigger] before[i]).0, h);
                assert(before.contains(before[i]));
                assert(s.drop_last().contains(before[i]));
                let m = choose|m: int|
                    0 <= m < s.drop_last().len() && s.drop_last()[m] == before[i];
                assert(same_letters(s.drop_last()[m].0, h));
            }
            if has_letters(s.drop_last(), h) {
                let d = s.drop_last();
                let i = choose|i: int| 0 <= i < d.len() && same_letters((#[trigger] d[i]).0, h);
                assert(d.contains(d[i]));
                assert(before.contains(d[i]));
                let m = choose|m: int| 0 <= m < before.len() && before[m] == d[i];
                assert(same_letters(before[m].0, h));
            }
        }
    }
}

proof fn lemma_plain_pairs(rules: Seq<Rule>)
    requires
        plain_rules(rules),
    ensures
        forall|i: int|
            0 <= i < active_pairs(rules).len() ==> {
                let f = (#[trigger] active_pairs(rules)[i]).0;
                crate::text::all_ascii(f) && crate::text::trimmed(f) == f && f.len() > 0
            },
    decreases rules.len(),
{
    if rules.len() > 0 {
        let rest = rules.drop_last();
        assert forall|i: int| 0 <= i < rest.len() && is_active(#[trigger] rest[i]) implies
            crate::text::all_ascii(rest[i].from@) && crate::text::trimmed(rest[i].from@)
            == rest[i].from@ by {
            assert(rest[i] == rules[i]);
        }
        lemma_plain_pairs(rest);
        let all = active_pairs(rules);
        assert forall|i: int| 0 <= i < all.len() implies {
            let f = (#[trigger] all[i]).0;
            crate::text::all_ascii(f) && crate::text::trimmed(f) == f && f.len() > 0
        } by {
            if i < active_pairs(rest).len() {
                assert(all[i] == active_pairs(rest)[i]);
            } else {
                assert(is_active(rules[rules.len() - 1]));
            }
        }
    }
}

proof fn lemma_reading_is_ascii(t: Seq<char>, i: int, phrase: Seq<char>)
    requires
        crate::pattern::reads(t, i, phrase),
        crate::text::all_ascii(phrase),
    ensures
        crate::text::all_ascii(t.subrange(i, i + phrase.len())),
{
    let m = t.subrange(i, i + phrase.len());
    assert forall|k: int| 0 <= k < m.len() implies crate::text::is_ascii(#[trigger] m[k]) by {
        assert(crate::text::ascii_lowered(m)[k] == crate::text::ascii_lower(m[k]));
        assert(crate::text::ascii_lowered(phrase)[k] == crate::text::ascii_lower(phrase[k]));
        assert(crate::text::is_ascii(phrase[k]));
    }
}

/// The first phrase in the order of the search is the longest one.
proof fn lemma_first_is_longest(t: Seq<char>, s: Seq<(Seq<char>, Seq<char>)>, a: int, b: int)
    requires
        forall|i: int| 0 <= i < s.len() ==> crate::text::trimmed((#[trigger] s[i]).0) == s[i].0,
    ensures
        crate::pattern::first_phrase_at(t, phrases(longest_first(s)), a, b) <==> longest_at(
            t,
            s,
            a,
            b,
        ),
{
    let l = longest_first(s);
    let ps = phrases(l);
    lemma_longest_first(s);
    assert forall|i: int| 0 <= i < l.len() implies #[trigger] ps[i] == l[i].0 && s.contains(l[i]) by {
        assert(l.contains(l[i]));
    }
    assert forall|i: int| 0 <= i < s.len() implies l.contains(#[trigger] s[i]) by {
        assert(s.contains(s[i]));
    }
    if crate::pattern::first_phrase_at(t, ps, a, b) {
        let j = choose|j: int|
            {
                &&& 0 <= j < ps.len()
                &&& crate::pattern::stands_at(t, a, #[trigger] ps[j])
                &&& b == a + ps[j].len()
                &&& forall|i: int| 0 <= i < j ==> !crate::pattern::stands_at(t, a, #[trigger] ps[i])
            };
        assert(s.contains(l[j]));
        let m = choose|m: int| 0 <= m < s.len() && s[m] == l[j];
        assert forall|n: int|
            0 <= n < s.len() && crate::pattern::stands_at(t, a, (#[trigger] s[n]).0) implies s[n].0.len()
            <= s[m].0.len() by {
            assert(l.contains(s[n]));
            let q = choose|q: int| 0 <= q < l.len() && l[q] == s[n];
            assert(ps[q] == l[q].0);
            assert(q >= j);
        }
        assert(crate::pattern::stands_at(t, a, s[m].0));
        assert(longest_at(t, s, a, b));
    }
    if longest_at(t, s, a, b) {
        let m = choose|i: int|
            {
                &&& 0 <= i < s.len()
                &&& crate::pattern::stands_at(t, a, (#[trigger] s[i]).0)
                &&& b == a + s[i].0.len()
                &&& forall|j: int|
                    0 <= j < s.len() && crate::pattern::stands_at(t, a, (#[trigger] s[j]).0)
                        ==> s[j].0.len() <= s[i].0.len()
            };
        assert(l.contains(s[m]));
        let q = choose|q: int| 0 <= q < l.len() && l[q] == s[m];
        assert(ps[q] == l[q].0);
        let j = first_standing(t, ps, a, q);
        assert(ps[j] == l[j].0);
        assert(s.contains(l[j]));
        let n = choose|n: int| 0 <= n < s.len() && s[n] == l[j];
        assert(crate::pattern::stands_at(t, a, s[n].0));
        assert(b == a + ps[j].len());
        assert(crate::pattern::first_phrase_at(t, ps, a, b));
    }
}

/// The first phrase that stands at `a`, given that the one at `q` does.
proof fn first_standing(t: Seq<char>, ps: Seq<Seq<char>>, a: int, q: int) -> (j: int)
    requires
        0 <= q < ps.len(),
        crate::pattern::stands_at(t, a, ps[q]),
    ensures
        0 <= j <= q,
        crate::pattern::stands_at(t, a, ps[j]),
        forall|i: int| 0 <= i < j ==> !crate::pattern::stands_at(t, a, #[trigger] ps[i]),
    decreases q,
{
    if exists|i: int| 0 <= i < q && crate::pattern::stands_at(t, a, #[trigger] ps[i]) {
        let i = choose|i: int| 0 <= i < q && crate::pattern::stands_at(t, a, #[trigger] ps[i]);
        first_standing(t, ps, a, i)
    } else {
        q
    }
}

/// A search that finds the first phrase of the order obeys the rules.
proof fn lemma_search_obeys(t: Seq<char>, rules: Seq<Rule>, spans: Seq<(int, int)>)
    requires
        plain_rules(rules),
        crate::pattern::finds(
            t,
            spans,
            |a: int, b: int|
                crate::pattern::first_phrase_at(
                    t,
                    phrases(longest_first(active_pairs(rules))),
                    a,
                    b,
                ),
        ),
    ensures
        crate::pattern::finds(
            t,
            spans,
            |a: int, b: int| longest_at(t, active_pairs(rules), a, b),
        ),
        forall|k: int|
            0 <= k < spans.len() ==> crate::text::all_ascii(
                #[trigger] crate::pattern::matched(t, spans)[k],
            ),
        spelled_at(longest_first(active_pairs(rules)), t, spans) == spelled_at(
            active_pairs(rules),
            t,
            spans,
        ),
        ascii_phrases(longest_first(active_pairs(rules))),
{
    let s = active_pairs(rules);
    let l = longest_first(s);
    let first = |a: int, b: int| crate::pattern::first_phrase_at(t, phrases(l), a, b);
    let longest = |a: int, b: int| longest_at(t, s, a, b);
    lemma_plain_pairs(rules);
    lemma_longest_first(s);
    assert forall|a: int, b: int| #[trigger] longest(a, b) == first(a, b) by {
        lemma_first_is_longest(t, s, a, b);
    }
    assert forall|k: int| 0 <= k < spans.len() implies longest((#[trigger] spans[k]).0, spans[k].1) by {
        assert(first(spans[k].0, spans[k].1));
    }
    assert forall|k: int, a: int, b: int|
        0 <= k <= spans.len() && #[trigger] crate::pattern::resumes_at(spans, k) <= a && (k
            < spans.len() ==> a < spans[k].0) implies !#[trigger] longest(a, b) by {
        assert(!first(a, b));
    }
    assert forall|k: int| 0 <= k < spans.len() implies crate::text::all_ascii(
        #[trigger] crate::pattern::matched(t, spans)[k],
    ) by {
        assert(longest(spans[k].0, spans[k].1));
        let i = choose|i: int|
            0 <= i < s.len() && crate::pattern::stands_at(t, spans[k].0, (#[trigger] s[i]).0)
                && spans[k].1 == spans[k].0 + s[i].0.len();
        lemma_reading_is_ascii(t, spans[k].0, s[i].0);
    }
    assert forall|k: int| 0 <= k < spans.len() implies #[trigger] spelled_at(l, t, spans)[k]
        == spelled_at(s, t, spans)[k] by {
        lemma_order_keeps_spelling(s, crate::pattern::matched(t, spans)[k]);
    }
    assert(spelled_at(l, t, spans) =~= spelled_at(s, t, spans));
    assert forall|i: int| 0 <= i < l.len() implies crate::text::all_ascii((#[trigger] l[i]).0) by {
        assert(l.contains(l[i]));
        assert(s.contains(l[i]));
    }
}

/// One pass over the text, the longest phrase first, in any case, between word
/// edges; what is written is inserted as it stands.
pub fn apply_rules(text: &str, rules: &[Rule]) -> (r: String)
    ensures
        r@ == with_rules(text@, rules@),
        crate::pattern::all_plain(text@) && plain_rules(rules@) && searchable(text@, rules@)
            ==> exists|spans: Seq<(int, int)>| obeyed(text@, rules@, spans, r@),
{
    let pairs = ordered_pairs(rules);
    let ghost s = active_pairs(rules@);
    assert(pair_views(pairs@).len() == pairs.len());
    proof {
        lemma_longest_first(s);
    }
    if pairs.len() == 0 {
        proof {
            let none = Seq::<(int, int)>::empty();
            assert(crate::pattern::woven(text@, none, spelled_at(s, text@, none), 0) =~= seq![]);
            assert(crate::pattern::replaced(text@, none, spelled_at(s, text@, none)) =~= text@);
            assert(obeyed(text@, rules@, none, text@));
        }
        return text.to_owned();
    }
    let pattern = search_pattern(&pairs);
    match find_spans(pattern.as_str(), true, text) {
        Some(spans) => {
            proof {
                let c = crate::pattern::in_chars(text@, spans@);
                crate::pattern::lemma_char_spans(text@, spans@);
                if crate::pattern::all_plain(text@) && plain_rules(rules@) {
                    lemma_plain_pairs(rules@);
                    let ps = phrases(longest_first(s));
                    assert forall|i: int| 0 <= i < ps.len() implies (#[trigger] ps[i]).len() > 0
                        && crate::text::all_ascii(ps[i]) by {
                        assert(longest_first(s).contains(longest_first(s)[i]));
                        assert(s.contains(longest_first(s)[i]));
                    }
                    assert(pattern@ == crate::pattern::any_of(ps));
                    lemma_search_obeys(text@, rules@, c);
                }
            }
            let r = rewrite_spans(text, &pairs, &spans);
            proof {
                if crate::pattern::all_plain(text@) && plain_rules(rules@) {
                    assert(obeyed(
                        text@,
                        rules@,
                        crate::pattern::in_chars(text@, spans@),
                        r@,
                    ));
                }
            }
            r
        },
        None => text.to_owned(),
    }
}

/// Rules that are switched off, or whose phrase is blank, change nothing.
pub proof fn law_inactive_rules_change_nothing(t: Seq<char>, rules: Seq<Rule>)
    requires
        forall|i: int| 0 <= i < rules.len() ==> !is_active(#[trigger] rules[i]),
    ensures
        with_rules(t, rules) == t,
{
    lemma_no_pairs(rules);
}

proof fn lemma_no_pairs(rules: Seq<Rule>)
    requires
        forall|i: int| 0 <= i < rules.len() ==> !is_active(#[trigger] rules[i]),
    ensures
        active_pairs(rules).len() == 0,
    decreases rules.len(),
{
    if rules.len() > 0 {
        let rest = rules.drop_last();
        assert forall|i: int| 0 <= i < rest.len() implies !is_active(#[trigger] rest[i]) by {
            assert(rest[i] == rules[i]);
        }
        lemma_no_pairs(rest);
        assert(!is_active(rules[rules.len() - 1]));
    }
}

/// A rule that is switched off, or whose phrase is blank, has no effect wherever
/// it stands among the others.
pub proof fn law_inactive_rule_has_no_effect(
    t: Seq<char>,
    before: Seq<Rule>,
    rule: Rule,
    after: Seq<Rule>,
)
    requires
        !is_active(rule),
    ensures
        with_rules(t, before.push(rule) + after) == with_rules(t, before + after),
{
    lemma_pairs_without(before, rule, after);
}

proof fn lemma_pairs_without(before: Seq<Rule>, rule: Rule, after: Seq<Rule>)
    requires
        !is_active(rule),
    ensures
        active_pairs(before.push(rule) + after) == active_pairs(before + after),
    decreases after.len(),
{
    if after.len() == 0 {
        assert(before.push(rule) + after =~= before.push(rule));
        assert(before + after =~= before);
        assert(before.push(rule).drop_last() =~= before);
    } else {
        lemma_pairs_without(before, rule, after.drop_last());
        assert((before.push(rule) + after).drop_last() =~= before.push(rule) + after.drop_last());
        assert((before + after).drop_last() =~= before + after.drop_last());
    }
}

/// Where no active phrase stands, the text is left as it is.
pub proof fn law_absent_phrases_change_nothing(
    t: Seq<char>,
    rules: Seq<Rule>,
    spans: Seq<(int, int)>,
    out: Seq<char>,
)
    requires
        obeyed(t, rules, spans, out),
        forall|i: int, a: int|
            0 <= i < active_pairs(rules).len() ==> !#[trigger] crate::pattern::stands_at(
                t,
                a,
                active_pairs(rules)[i].0,
            ),
    ensures
        out == t,
{
    let hit = |a: int, b: int| longest_at(t, active_pairs(rules), a, b);
    if spans.len() > 0 {
        assert(hit(spans[0].0, spans[0].1));
    }
    let with = spelled_at(active_pairs(rules), t, spans);
    assert(crate::pattern::woven(t, spans, with, 0) =~= seq![]);
    assert(crate::pattern::replaced(t, spans, with) =~= t);
}

/// Where one phrase stands once and nothing else does, what its first rule says
/// is written there as it is, and the rest of the text is kept.
pub proof fn law_lone_phrase_is_rewritten(
    t: Seq<char>,
    rules: Seq<Rule>,
    spans: Seq<(int, int)>,
    out: Seq<char>,
    n: int,
    at: int,
)
    requires
        obeyed(t, rules, spans, out),
        plain_rules(rules),
        0 <= n < active_pairs(rules).len(),
        crate::pattern::stands_at(t, at, active_pairs(rules)[n].0),
        forall|i: int, a: int|
            0 <= i < active_pairs(rules).len() && #[trigger] crate::pattern::stands_at(
                t,
                a,
                active_pairs(rules)[i].0,
            ) ==> a == at && active_pairs(rules)[i].0.len() <= active_pairs(rules)[n].0.len(),
        forall|i: int|
            0 <= i < n ==> !same_letters(
                (#[trigger] active_pairs(rules)[i]).0,
                active_pairs(rules)[n].0,
            ),
    ensures
        out == t.take(at) + active_pairs(rules)[n].1 + t.skip(at + active_pairs(rules)[n].0.len()),
{
    let pairs = active_pairs(rules);
    let phrase = pairs[n].0;
    let hit = |a: int, b: int| longest_at(t, pairs, a, b);
    let end = at + phrase.len();
    lemma_plain_pairs(rules);
    assert(longest_at(t, pairs, at, end));
    assert(hit(at, end));
    if spans.len() == 0 {
        assert(crate::pattern::resumes_at(spans, 0) <= at);
    }
    assert(spans.len() > 0);
    assert(hit(spans[0].0, spans[0].1));
    assert(spans[0].0 == at);
    let i = choose|i: int|
        0 <= i < pairs.len() && crate::pattern::stands_at(t, at, (#[trigger] pairs[i]).0)
            && spans[0].1 == at + pairs[i].0.len() && forall|j: int|
            0 <= j < pairs.len() && crate::pattern::stands_at(t, at, (#[trigger] pairs[j]).0)
                ==> pairs[j].0.len() <= pairs[i].0.len();
    assert(spans[0].1 == end);
    if spans.len() > 1 {
        assert(hit(spans[1].0, spans[1].1));
        assert(spans[1].0 == at);
        assert(spans[0].1 <= spans[1].0);
    }
    let m = crate::pattern::matched(t, spans);
    let with = spelled_at(pairs, t, spans);
    assert(m[0] == t.subrange(at, end));
    assert(same_letters(phrase, m[0]));
    lemma_first_spelling(pairs, n, m[0]);
    assert(with[0] == pairs[n].1);
    reveal_with_fuel(crate::pattern::woven, 2);
    assert(t.subrange(0, at) =~= t.take(at));
    assert(crate::pattern::woven(t, spans, with, 1) =~= t.take(at) + pairs[n].1);
}

proof fn lemma_first_spelling(pairs: Seq<(Seq<char>, Seq<char>)>, n: int, h: Seq<char>)
    requires
        0 <= n < pairs.len(),
        same_letters(pairs[n].0, h),
        forall|i: int| 0 <= i < n ==> !same_letters((#[trigger] pairs[i]).0, pairs[n].0),
    ensures
        spelled(pairs, h) == pairs[n].1,
    decreases n,
{
    if n > 0 {
        assert(!same_letters(pairs[0].0, pairs[n].0));
        let rest = pairs.drop_first();
        assert forall|i: int| 0 <= i < n - 1 implies !same_letters((#[trigger] rest[i]).0, rest[n - 1].0) by {
            assert(rest[i] == pairs[i + 1]);
        }
        lemma_first_spelling(rest, n - 1, h);
    }
}

/// The greatest number of characters in a glossary.
pub const GLOSSARY_LIMIT: usize = 880;

/// The rule is a spelling for the glossary.
pub open spec fn is_spelling(r: Rule) -> bool {
    r.enabled && r.kind@ == "word"@
}

/// One entry of the glossary.
pub open spec fn glossary_item(r: Rule) -> Seq<char> {
    r.from@ + " = "@ + r.to@ + "; "@
}

/// `out` followed by the entries of the spellings, up to the first one that
/// would pass the limit.
pub open spec fn listed(out: Seq<char>, rules: Seq<Rule>) -> Seq<char>
    decreases rules.len(),
{
    if rules.len() == 0 {
        out
    } else if !is_spelling(rules[0]) {
        listed(out, rules.drop_first())
    } else if out.len() + glossary_item(rules[0]).len() > GLOSSARY_LIMIT {
        out
    } else {
        listed(out + glossary_item(rules[0]), rules.drop_first())
    }
}

pub open spec fn glossary_head() -> Seq<char> {
    "Glossary of correct spellings: "@
}

/// The glossary: nothing where no entry is listed.
pub open spec fn glossary_text(rules: Seq<Rule>) -> Option<Seq<char>> {
    let text = listed(glossary_head(), rules);
    if text.len() == glossary_head().len() {
        None
    } else {
        Some(text)
    }
}

proof fn lemma_listed_grows(out: Seq<char>, rules: Seq<Rule>)
    ensures
        out.len() <= listed(out, rules).len(),
        out.len() <= GLOSSARY_LIMIT ==> listed(out, rules).len() <= GLOSSARY_LIMIT,
        listed(out, rules).take(out.len() as int) == out,
    decreases rules.len(),
{
    assert(out.take(out.len() as int) =~= out);
    if rules.len() > 0 {
        lemma_listed_grows(out, rules.drop_first());
        let more = out + glossary_item(rules[0]);
        lemma_listed_grows(more, rules.drop_first());
        let r = listed(more, rules.drop_first());
        assert(r.take(out.len() as int) =~= r.take(more.len() as int).take(out.len() as int));
        assert(more.take(out.len() as int) =~= out);
    }
}

/// The enabled word rules as a hint for a transcription service: "from = to; "
/// for each, as many from the front as fit.
pub fn glossary(rules: &[Rule]) -> (r: Option<String>)
    ensures
        r matches Some(g) ==> glossary_text(rules@) == Some(g@),
        r is None ==> glossary_text(rules@) is None,
{
    let mut out: String = "Glossary of correct spellings: ".to_owned();
    let mut size: usize = 31;
    let mut any = false;
    proof {
        reveal_strlit("Glossary of correct spellings: ");
        reveal_strlit(" = ");
        reveal_strlit("; ");
    }
    assert(rules@.skip(0) =~= rules@);
    for i in 0..rules.len()
        invariant
            size == out@.len(),
            size <= GLOSSARY_LIMIT,
            any == (out@.len() != glossary_head().len()),
            glossary_head().len() == 31,
            out@.len() >= 31,
            " = "@.len() == 3,
            "; "@.len() == 2,
            listed(glossary_head(), rules@) == listed(out@, rules@.skip(i as int)),
    {
        assert(rules@.skip(i as int).drop_first() =~= rules@.skip(i + 1));
        let r = &rules[i];
        if r.enabled && same_text(r.kind.as_str(), "word") {
            let item = joined(
                joined(joined(r.from.as_str(), " = ").as_str(), r.to.as_str()).as_str(),
                "; ",
            );
            assert(item@ == glossary_item(*r));
            let n = to_chars(item.as_str()).len();
            if n > GLOSSARY_LIMIT - size {
                return if any {
                    Some(out)
                } else {
                    None
                };
            }
            out = joined(out.as_str(), item.as_str());
            size = size + n;
            any = true;
        }
    }
    if any {
        Some(out)
    } else {
        None
    }
}

/// A glossary starts with its heading and stays within the limit.
pub proof fn law_glossary_fits(rules: Seq<Rule>)
    ensures
        glossary_text(rules) matches Some(g) ==> glossary_head().len() < g.len() <= GLOSSARY_LIMIT
            && g.take(glossary_head().len() as int) == glossary_head(),
{
    reveal_strlit("Glossary of correct spellings: ");
    lemma_listed_grows(glossary_head(), rules);
}

/// Only enabled word rules enter the glossary: any other rule can be left out.
pub proof fn law_glossary_lists_spellings_only(before: Seq<Rule>, rule: Rule, after: Seq<Rule>)
    requires
        !is_spelling(rule),
    ensures
        glossary_text(before.push(rule) + after) == glossary_text(before + after),
{
    lemma_listed_without(glossary_head(), before, rule, after);
}

proof fn lemma_listed_without(out: Seq<char>, before: Seq<Rule>, rule: Rule, after: Seq<Rule>)
    requires
        !is_spelling(rule),
    ensures
        listed(out, before.push(rule) + after) == listed(out, before + after),
    decreases before.len(),
{
    let with = before.push(rule) + after;
    let without = before + after;
    if before.len() == 0 {
        assert(with[0] == rule);
        assert(with.drop_first() =~= without);
    } else {
        let rest = before.drop_first();
        assert(with[0] == before[0] && without[0] == before[0]);
        assert(with.drop_first() =~= rest.push(rule) + after);
        assert(without.drop_first() =~= rest + after);
        lemma_listed_without(out, rest, rule, after);
        lemma_listed_without(out + glossary_item(before[0]), rest, rule, after);
    }
}

/// The greatest id in use, or 0.
pub open spec fn greatest_id(rules: Seq<Rule>) -> u64
    decreases rules.len(),
{
    if rules.len() == 0 {
        0
    } else {
        let before = greatest_id(rules.drop_last());
        if rules.last().id > before {
            rules.last().id
        } else {
            before
        }
    }
}

/// The position of the first rule with this id.
pub open spec fn first_with(rules: Seq<Rule>, id: u64) -> Option<int>
    decreases rules.len(),
{
    if rules.len() == 0 {
        None
    } else {
        match first_with(rules.drop_last(), id) {
            Some(i) => Some(i),
            None => if rules.last().id == id {
                Some(rules.len() - 1)
            } else {
                None
            },
        }
    }
}

/// The rule under another id.
pub open spec fn with_id(rule: Rule, id: u64) -> Rule {
    Rule { id, kind: rule.kind, from: rule.from, to: rule.to, enabled: rule.enabled }
}

pub open spec fn missing_rule(id: u64) -> Seq<char> {
    "rule "@ + crate::text::decimal(id as nat) + " not found"@
}

/// Stores a rule: under a fresh id where its own is 0, else in place of the rule
/// with that id, which must exist. Returns the id.
pub fn save_rule(rules: &mut Vec<Rule>, rule: Rule) -> (r: Result<u64, String>)
    requires
        rule.id == 0 ==> greatest_id(old(rules)@) < u64::MAX,
    ensures
        rule.id == 0 ==> {
            let id = (greatest_id(old(rules)@) + 1) as u64;
            r == Ok::<u64, String>(id) && final(rules)@ == old(rules)@.push(with_id(rule, id))
        },
        rule.id != 0 ==> match first_with(old(rules)@, rule.id) {
            Some(i) => r == Ok::<u64, String>(rule.id) && final(rules)@ == old(rules)@.update(
                i,
                rule,
            ),
            None => r is Err && r->Err_0@ == missing_rule(rule.id) && final(rules)@ == old(rules)@,
        },
{
    if rule.id == 0 {
        let mut top: u64 = 0;
        for i in 0..rules.len()
            invariant
                top == greatest_id(rules@.take(i as int)),
        {
            assert(rules@.take(i + 1).drop_last() =~= rules@.take(i as int));
            if rules[i].id > top {
                top = rules[i].id;
            }
        }
        assert(rules@.take(rules@.len() as int) =~= rules@);
        let id = top + 1;
        rules.push(
            Rule { id, kind: rule.kind, from: rule.from, to: rule.to, enabled: rule.enabled },
        );
        return Ok(id);
    }
    let id = rule.id;
    let count = rules.len();
    for i in 0..count
        invariant
            rules@ == old(rules)@,
            count == rules.len(),
            first_with(rules@.take(i as int), id) is None,
            id == rule.id,
            id != 0,
    {
        assert(rules@.take(i + 1).drop_last() =~= rules@.take(i as int));
        if rules[i].id == id {
            proof {
                lemma_first_with_prefix(rules@, i + 1, id);
            }
            rules.set(i, rule);
            return Ok(id);
        }
    }
    assert(rules@.take(rules@.len() as int) =~= rules@);
    let head = joined("rule ", to_decimal(id).as_str());
    Err(joined(head.as_str(), " not found"))
}

proof fn lemma_first_with_prefix(rules: Seq<Rule>, n: int, id: u64)
    requires
        0 <= n <= rules.len(),
        first_with(rules.take(n), id) is Some,
    ensures
        first_with(rules, id) == first_with(rules.take(n), id),
    decreases rules.len() - n,
{
    if n < rules.len() {
        assert(rules.take(n + 1).drop_last() =~= rules.take(n));
        lemma_first_with_prefix(rules, n + 1, id);
    } else {
        assert(rules.take(n) =~= rules);
    }
}

/// The rules with another id, in order.
pub open spec fn without_id(rules: Seq<Rule>, id: u64) -> Seq<Rule> {
    rules.filter(|r: Rule| r.id != id)
}

/// Takes out every rule with this id and says whether there was one.
pub fn delete_rule(rules: &mut Vec<Rule>, id: u64) -> (found: bool)
    ensures
        final(rules)@ == without_id(old(rules)@, id),
        found == (final(rules)@.len() != old(rules)@.len()),
{
    let mut kept: Vec<Rule> = Vec::new();
    let keep = Ghost(|r: Rule| r.id != id);
    proof {
        reveal(Seq::filter);
    }
    for i in 0..rules.len()
        invariant
            rules@ == old(rules)@,
            keep@ == (|r: Rule| r.id != id),
            kept@ == rules@.take(i as int).filter(keep@),
            kept.len() <= i,
    {
        proof {
            reveal(Seq::filter);
            assert(rules@.take(i + 1).drop_last() =~= rules@.take(i as int));
        }
        if rules[i].id != id {
            kept.push(rules[i].clone());
        }
    }
    assert(rules@.take(rules@.len() as int) =~= rules@);
    let found = kept.len() != rules.len();
    *rules = kept;
    found
}

/// No two rules share an id, and none has the id 0.
pub open spec fn ids_are_distinct(rules: Seq<Rule>) -> bool {
    &&& forall|i: int| 0 <= i < rules.len() ==> (#[trigger] rules[i]).id != 0
    &&& forall|i: int, j: int|
        0 <= i < j < rules.len() ==> (#[trigger] rules[i]).id != (#[trigger] rules[j]).id
}

/// A fresh id is above every id in use.
pub proof fn law_fresh_id_is_new(rules: Seq<Rule>, i: int)
    requires
        0 <= i < rules.len(),
    ensures
        rules[i].id <= greatest_id(rules),
    decreases rules.len(),
{
    if i < rules.len() - 1 {
        law_fresh_id_is_new(rules.drop_last(), i);
        assert(rules.drop_last()[i] == rules[i]);
    }
}

proof fn lemma_first_with(rules: Seq<Rule>, id: u64)
    ensures
        first_with(rules, id) matches Some(i) ==> 0 <= i < rules.len() && rules[i].id == id,
        first_with(rules, id) is None ==> forall|i: int|
            0 <= i < rules.len() ==> (#[trigger] rules[i]).id != id,
    decreases rules.len(),
{
    if rules.len() > 0 {
        lemma_first_with(rules.drop_last(), id);
        assert forall|i: int| first_with(rules, id) is None && 0 <= i < rules.len() implies (
        #[trigger] rules[i]).id != id by {
            if i < rules.len() - 1 {
                assert(rules.drop_last()[i] == rules[i]);
            }
        }
    }
}

/// Storing a rule keeps the ids distinct, under a fresh id and in place alike.
pub proof fn law_ids_stay_distinct(rules: Seq<Rule>, rule: Rule)
    requires
        ids_are_distinct(rules),
        greatest_id(rules) < u64::MAX,
    ensures
        ids_are_distinct(rules.push(with_id(rule, (greatest_id(rules) + 1) as u64))),
        rule.id != 0 && first_with(rules, rule.id) is Some ==> ids_are_distinct(
            rules.update(first_with(rules, rule.id)->0, rule),
        ),
{
    assert forall|i: int| 0 <= i < rules.len() implies (#[trigger] rules[i]).id <= greatest_id(
        rules,
    ) by {
        law_fresh_id_is_new(rules, i);
    }
    lemma_first_with(rules, rule.id);
}

/// No rule with the id is left after it was taken out, and every other rule is.
pub proof fn law_deleted_id_is_gone(rules: Seq<Rule>, id: u64)
    ensures
        forall|r: Rule| #[trigger]
            without_id(rules, id).contains(r) <==> rules.contains(r) && r.id != id,
    decreases rules.len(),
{
    reveal(Seq::filter);
    if rules.len() > 0 {
        law_deleted_id_is_gone(rules.drop_last(), id);
        let rest = without_id(rules.drop_last(), id);
        let all = without_id(rules, id);
        assert forall|r: Rule| #[trigger] all.contains(r) <==> rules.contains(r) && r.id != id by {
            if all.contains(r) {
                let i = choose|i: int| 0 <= i < all.len() && all[i] == r;
                if i < rest.len() {
                    assert(rest[i] == r);
                    assert(rest.contains(r));
                    let j = choose|j: int|
                        0 <= j < rules.drop_last().len() && rules.drop_last()[j] == r;
                    assert(rules[j] == r);
                } else {
                    assert(rules[rules.len() - 1] == r);
                }
            }
            if rules.contains(r) && r.id != id {
                let j = choose|j: int| 0 <= j < rules.len() && rules[j] == r;
                if j < rules.len() - 1 {
                    assert(rules.drop_last()[j] == r);
                    assert(rules.drop_last().contains(r));
                    assert(rest.contains(r));
                    let i = choose|i: int| 0 <= i < rest.len() && rest[i] == r;
                    assert(all[i] == r);
                } else {
                    assert(all[all.len() - 1] == r);
                }
            }
        }
    }
}

/// Taking out the rule that was just stored under a fresh id gives the rules
/// back.
pub proof fn law_delete_undoes_save(rules: Seq<Rule>, rule: Rule)
    requires
        greatest_id(rules) < u64::MAX,
    ensures
        ({
            let id = (greatest_id(rules) + 1) as u64;
            without_id(rules.push(with_id(rule, id)), id) == rules
        }),
{
    let id = (greatest_id(rules) + 1) as u64;
    reveal(Seq::filter);
    assert(rules.push(with_id(rule, id)).drop_last() =~= rules);
    assert forall|i: int| 0 <= i < rules.len() implies (#[trigger] rules[i]).id != id by {
        law_fresh_id_is_new(rules, i);
    }
    lemma_all_kept(rules, id);
}

proof fn lemma_all_kept(rules: Seq<Rule>, id: u64)
    requires
        forall|i: int| 0 <= i < rules.len() ==> (#[trigger] rules[i]).id != id,
    ensures
        without_id(rules, id) == rules,
    decreases rules.len(),
{
    reveal(Seq::filter);
    if rules.len() > 0 {
        let rest = rules.drop_last();
        assert forall|i: int| 0 <= i < rest.len() implies (#[trigger] rest[i]).id != id by {
            assert(rest[i] == rules[i]);
        }
        lemma_all_kept(rest, id);
        assert(rules[rules.len() - 1].id != id);
        assert(rest.push(rules.last()) =~= rules);
    } else {
        assert(without_id(rules, id) =~= rules);
    }
}

/// The active rules in their order: those that are enabled and whose phrase is not
/// blank, each with its phrase and with what it says.
pub proof fn law_active_rules_in_order(a: Seq<Rule>, b: Seq<Rule>, rule: Rule)
    ensures
        active_pairs(a + b) == active_pairs(a) + active_pairs(b),
        rule.enabled && crate::text::trimmed(rule.from@).len() > 0 ==> active_pairs(seq![rule])
            == seq![(rule.from@, rule.to@)],
        !rule.enabled || crate::text::trimmed(rule.from@).len() == 0 ==> active_pairs(seq![rule])
            == Seq::<(Seq<char>, Seq<char>)>::empty(),
    decreases b.len(),
{
    reveal_with_fuel(active_pairs, 2);
    assert(seq![rule].drop_last() =~= Seq::<Rule>::empty());
    if is_active(rule) {
        assert(active_pairs(seq![rule]) =~= seq![(rule.from@, rule.to@)]);
    }
    if b.len() == 0 {
        assert(a + b =~= a);
        assert(active_pairs(a) + active_pairs(b) =~= active_pairs(a));
    } else {
        law_active_rules_in_order(a, b.drop_last(), rule);
        assert((a + b).drop_last() =~= a + b.drop_last());
        assert(active_pairs(a + b) =~= active_pairs(a) + active_pairs(b));
    }
}

/// The spellings of enabled word rules in their order, each as "from = to; ".
pub open spec fn spellings(rules: Seq<Rule>) -> Seq<char>
    decreases rules.len(),
{
    if rules.len() == 0 {
        seq![]
    } else if rules[0].enabled && rules[0].kind@ == "word"@ {
        rules[0].from@ + seq![' ', '=', ' '] + rules[0].to@ + seq![';', ' '] + spellings(
            rules.drop_first(),
        )
    } else {
        spellings(rules.drop_first())
    }
}

proof fn lemma_all_spellings_fit(out: Seq<char>, rules: Seq<Rule>)
    requires
        out.len() + spellings(rules).len() <= GLOSSARY_LIMIT,
    ensures
        listed(out, rules) == out + spellings(rules),
    decreases rules.len(),
{
    if rules.len() == 0 {
        assert(out + spellings(rules) =~= out);
    } else {
        let r = rules[0];
        reveal_strlit(" = ");
        reveal_strlit("; ");
        assert(" = "@ =~= seq![' ', '=', ' ']);
        assert("; "@ =~= seq![';', ' ']);
        if is_spelling(r) {
            let item = glossary_item(r);
            lemma_all_spellings_fit(out + item, rules.drop_first());
            assert(out + item + spellings(rules.drop_first()) =~= out + spellings(rules));
        } else {
            lemma_all_spellings_fit(out, rules.drop_first());
        }
    }
}

/// Where all spellings fit into 880 characters, the glossary is its heading and all
/// of them in their order; without any there is no glossary.
pub proof fn law_glossary_lists_all_that_fit(rules: Seq<Rule>)
    requires
        "Glossary of correct spellings: "@.len() + spellings(rules).len() <= 880,
    ensures
        spellings(rules).len() > 0 ==> glossary_text(rules) == Some(
            "Glossary of correct spellings: "@ + spellings(rules),
        ),
        spellings(rules).len() == 0 ==> glossary_text(rules) is None,
{
    lemma_all_spellings_fit(glossary_head(), rules);
}

/// The rule that is replaced is the first one with the id, where there is one.
pub proof fn law_first_rule_with_the_id(rules: Seq<Rule>, id: u64)
    ensures
        first_with(rules, id) matches Some(i) ==> 0 <= i < rules.len() && rules[i].id == id
            && forall|j: int| 0 <= j < i ==> (#[trigger] rules[j]).id != id,
        first_with(rules, id) is None ==> forall|j: int|
            0 <= j < rules.len() ==> (#[trigger] rules[j]).id != id,
        missing_rule(id) == "rule "@ + crate::text::decimal(id as nat) + " not found"@,
    decreases rules.len(),
{
    lemma_first_with(rules, id);
    if rules.len() > 0 {
        let d = rules.drop_last();
        law_first_rule_with_the_id(d, id);
        if let Some(i) = first_with(rules, id) {
            assert forall|j: int| 0 <= j < i implies (#[trigger] rules[j]).id != id by {
                assert(d[j] == rules[j]);
            }
        }
    }
}

/// The greatest id is in use, or there is no rule.
pub proof fn law_greatest_id_is_in_use(rules: Seq<Rule>)
    ensures
        rules.len() == 0 ==> greatest_id(rules) == 0,
        greatest_id(rules) > 0 ==> exists|i: int|
            0 <= i < rules.len() && (#[trigger] rules[i]).id == greatest_id(rules),
    decreases rules.len(),
{
    if rules.len() > 0 {
        let d = rules.drop_last();
        law_greatest_id_is_in_use(d);
        if rules.last().id > greatest_id(d) {
            assert(rules[rules.len() - 1].id == greatest_id(rules));
        } else if greatest_id(rules) > 0 {
            let i = choose|i: int| 0 <= i < d.len() && (#[trigger] d[i]).id == greatest_id(d);
            assert(rules[i].id == greatest_id(rules));
        }
    }
}

/// A rule that is stored under another id is the same in all else.
pub proof fn law_stored_rule_is_the_same(rule: Rule, id: u64)
    ensures
        with_id(rule, id).id == id,
        with_id(rule, id).kind == rule.kind,
        with_id(rule, id).from == rule.from,
        with_id(rule, id).to == rule.to,
        with_id(rule, id).enabled == rule.enabled,
{
}

} // verus!
