//! The history of dictations: a file of lines, one entry to a line.

use vstd::prelude::*;

use crate::text::{from_chars, joined, to_chars};

verus! {

/// One dictation: when it was made, what was written, by which engine, and how
/// many milliseconds of speech it took.
#[derive(Debug)]
pub struct Entry {
    pub ts: u64,
    pub text: String,
    pub engine: String,
    pub ms: u64,
}

impl Clone for Entry {
    fn clone(&self) -> (e: Entry)
        ensures
            e == *self,
    {
        Entry { ts: self.ts, text: self.text.clone(), engine: self.engine.clone(), ms: self.ms }
    }
}

/// A line without the carriage return at its end.
pub open spec fn bare_line(s: Seq<char>) -> Seq<char> {
    if s.len() > 0 && s.last() == '\r' {
        s.drop_last()
    } else {
        s
    }
}

/// The lines that end in `t`, and the characters behind the last line feed.
pub open spec fn line_split(t: Seq<char>) -> (Seq<Seq<char>>, Seq<char>)
    decreases t.len(),
{
    if t.len() == 0 {
        (seq![], seq![])
    } else {
        let (done, open) = line_split(t.drop_last());
        if t.last() == '\n' {
            (done.push(bare_line(open)), seq![])
        } else {
            (done, open.push(t.last()))
        }
    }
}

/// The lines of a text. A line ends with a line feed, which a carriage return may
/// precede; the last one may end with the text.
pub open spec fn lines_of(t: Seq<char>) -> Seq<Seq<char>> {
    let (done, open) = line_split(t);
    if open.len() > 0 {
        done.push(open)
    } else {
        done
    }
}

/// The lines of the history file.
pub fn history_lines(content: &str) -> (r: Vec<String>)
    ensures
        crate::pattern::views(r@) == lines_of(content@),
{
    let t = to_chars(content);
    let mut r: Vec<String> = Vec::new();
    let mut open: Vec<char> = Vec::new();
    assert(crate::pattern::views(r@) =~= seq![]);
    assert(open@ =~= seq![]);
    for i in 0..t.len()
        invariant
            (crate::pattern::views(r@), open@) == line_split(t@.take(i as int)),
    {
        assert(t@.take(i + 1).drop_last() =~= t@.take(i as int));
        let ghost before = r@;
        if t[i] == '\n' {
            let ghost whole = open@;
            if open.len() > 0 && open[open.len() - 1] == '\r' {
                open.pop();
                assert(open@ =~= whole.drop_last());
            }
            let line = from_chars(&open);
            r.push(line);
            assert(crate::pattern::views(r@) =~= crate::pattern::views(before).push(
                bare_line(whole),
            ));
            open = Vec::new();
            assert(open@ =~= seq![]);
        } else {
            open.push(t[i]);
        }
    }
    assert(t@.take(t@.len() as int) =~= t@);
    let ghost done = r@;
    if open.len() > 0 {
        let line = from_chars(&open);
        r.push(line);
        assert(crate::pattern::views(r@) =~= crate::pattern::views(done).push(open@));
    }
    r
}

/// The file with one more line.
pub fn append_line(content: &str, line: &str) -> (r: String)
    ensures
        r@ == content@ + line@ + seq!['\n'],
{
    let mut r = joined(content, line);
    r.push('\n');
    assert(r@ =~= content@ + line@ + seq!['\n']);
    r
}

/// A text of whole lines.
pub open spec fn is_whole(t: Seq<char>) -> bool {
    t.len() == 0 || t.last() == '\n'
}

/// A text that fits on one line as it is.
pub open spec fn fits_line(s: Seq<char>) -> bool {
    forall|i: int| 0 <= i < s.len() ==> #[trigger] s[i] != '\n' && s[i] != '\r'
}

proof fn lemma_split_runs_on(t: Seq<char>, s: Seq<char>)
    requires
        fits_line(s),
    ensures
        line_split(t + s) == (line_split(t).0, line_split(t).1 + s),
    decreases s.len(),
{
    if s.len() == 0 {
        assert(t + s =~= t);
        assert(line_split(t).1 + s =~= line_split(t).1);
    } else {
        let d = s.drop_last();
        assert(fits_line(d)) by {
            assert forall|i: int| 0 <= i < d.len() implies #[trigger] d[i] != '\n' && d[i] != '\r' by {
                assert(d[i] == s[i]);
            }
        }
        lemma_split_runs_on(t, d);
        assert((t + s).drop_last() =~= t + d);
        assert((t + s).last() == s[s.len() - 1]);
        assert((line_split(t).1 + d).push(s.last()) =~= line_split(t).1 + s);
    }
}

proof fn lemma_whole_has_no_rest(t: Seq<char>)
    requires
        is_whole(t),
    ensures
        line_split(t).1 == Seq::<char>::empty(),
        lines_of(t) == line_split(t).0,
{
    assert(line_split(t).1 =~= Seq::<char>::empty());
}

/// What is appended as a line comes back as the last line, and the lines before
/// it are kept.
pub proof fn law_appended_line_is_last(content: Seq<char>, line: Seq<char>)
    requires
        is_whole(content),
        fits_line(line),
    ensures
        lines_of(content + line + seq!['\n']) == lines_of(content).push(line),
        is_whole(content + line + seq!['\n']),
{
    lemma_whole_has_no_rest(content);
    lemma_split_runs_on(content, line);
    let all = content + line + seq!['\n'];
    assert(all.drop_last() =~= content + line);
    assert(all.last() == '\n');
    assert(line_split(content).1 + line =~= line);
    assert(bare_line(line) == line) by {
        if line.len() > 0 {
            assert(line[line.len() - 1] != '\r');
        }
    }
    lemma_whole_has_no_rest(all);
}

/// The entries that could be read, in order.
pub open spec fn readable(parsed: Seq<Option<Entry>>) -> Seq<Entry>
    decreases parsed.len(),
{
    if parsed.len() == 0 {
        seq![]
    } else {
        match parsed.last() {
            Some(e) => readable(parsed.drop_last()).push(e),
            None => readable(parsed.drop_last()),
        }
    }
}

/// The position behind the entries at the front of `s` that are no older than
/// `ts`.
pub open spec fn place(s: Seq<Entry>, ts: u64) -> int
    decreases s.len(),
{
    if s.len() == 0 || s[0].ts < ts {
        0
    } else {
        1 + place(s.drop_first(), ts)
    }
}

/// The newest entries first; entries of one time keep their order.
pub open spec fn newest_first(s: Seq<Entry>) -> Seq<Entry>
    decreases s.len(),
{
    if s.len() == 0 {
        s
    } else {
        let before = newest_first(s.drop_last());
        before.insert(place(before, s.last().ts), s.last())
    }
}

fn place_for(v: &Vec<Entry>, ts: u64) -> (at: usize)
    ensures
        at == place(v@, ts),
        at <= v.len(),
{
    let mut at: usize = 0;
    assert(v@.skip(0) =~= v@);
    while at < v.len() && v[at].ts >= ts
        invariant
            at <= v.len(),
            place(v@, ts) == at + place(v@.skip(at as int), ts),
        decreases v.len() - at,
    {
        assert(v@.skip(at as int).drop_first() =~= v@.skip(at + 1));
        at = at + 1;
    }
    at
}

/// The history to show: what each line of the file was read as, without those
/// that could not be read, the newest first.
pub fn load_history(parsed: Vec<Option<Entry>>) -> (r: Vec<Entry>)
    ensures
        r@ == newest_first(readable(parsed@)),
{
    let mut r: Vec<Entry> = Vec::new();
    assert(r@ =~= newest_first(readable(parsed@.take(0))));
    for i in 0..parsed.len()
        invariant
            r@ == newest_first(readable(parsed@.take(i as int))),
    {
        assert(parsed@.take(i + 1).drop_last() =~= parsed@.take(i as int));
        if let Some(e) = &parsed[i] {
            let at = place_for(&r, e.ts);
            let ghost before = readable(parsed@.take(i as int));
            assert(before.push(*e).drop_last() =~= before);
            r.insert(at, e.clone());
        }
    }
    assert(parsed@.take(parsed@.len() as int) =~= parsed@);
    r
}

/// Each entry is no older than those behind it.
pub open spec fn is_newest_first(s: Seq<Entry>) -> bool {
    forall|i: int, j: int| 0 <= i <= j < s.len() ==> (#[trigger] s[i]).ts >= (#[trigger] s[j]).ts
}

proof fn lemma_place(s: Seq<Entry>, ts: u64)
    requires
        is_newest_first(s),
    ensures
        0 <= place(s, ts) <= s.len(),
        forall|i: int| 0 <= i < place(s, ts) ==> (#[trigger] s[i]).ts >= ts,
        forall|i: int| place(s, ts) <= i < s.len() ==> (#[trigger] s[i]).ts < ts,
    decreases s.len(),
{
    if s.len() > 0 && s[0].ts >= ts {
        let rest = s.drop_first();
        assert forall|i: int, j: int| 0 <= i <= j < rest.len() implies (#[trigger] rest[i]).ts >= (
        #[trigger] rest[j]).ts by {
            assert(rest[i] == s[i + 1] && rest[j] == s[j + 1]);
        }
        lemma_place(rest, ts);
        assert forall|i: int| 0 <= i < place(s, ts) implies (#[trigger] s[i]).ts >= ts by {
            if i > 0 {
                assert(rest[i - 1] == s[i]);
            }
        }
        assert forall|i: int| place(s, ts) <= i < s.len() implies (#[trigger] s[i]).ts < ts by {
            assert(rest[i - 1] == s[i]);
        }
    }
}

/// The history shows the newest entries first, and every entry as often as the
/// file has it.
pub proof fn law_history_is_ordered(s: Seq<Entry>)
    ensures
        is_newest_first(newest_first(s)),
        newest_first(s).to_multiset() == s.to_multiset(),
        newest_first(s).len() == s.len(),
    decreases s.len(),
{
    if s.len() > 0 {
        broadcast use vstd::seq_lib::group_to_multiset_ensures;

        let x = s.last();
        let before = newest_first(s.drop_last());
        law_history_is_ordered(s.drop_last());
        let k = place(before, x.ts);
        lemma_place(before, x.ts);
        let all = before.insert(k, x);
        assert forall|i: int, j: int| 0 <= i <= j < all.len() implies (#[trigger] all[i]).ts >= (
        #[trigger] all[j]).ts by {
            if i < k {
                assert(all[i] == before[i]);
            } else if i > k {
                assert(all[i] == before[i - 1]);
            }
            if j < k {
                assert(all[j] == before[j]);
            } else if j > k {
                assert(all[j] == before[j - 1]);
            }
        }
        before.to_multiset_ensures();
        vstd::seq_lib::to_multiset_insert(before, k, x);
        assert(s.drop_last().push(x) =~= s);
        vstd::seq_lib::to_multiset_build(s.drop_last(), x);
    }
}

/// The line is an entry of this time.
pub open spec fn is_of_time(e: Option<Entry>, ts: u64) -> bool {
    e matches Some(x) && x.ts == ts
}

/// The lines of the file without the entries of this time. `parsed` is what each
/// line was read as; a line that could not be read is kept.
pub open spec fn kept_lines(
    lines: Seq<Seq<char>>,
    parsed: Seq<Option<Entry>>,
    ts: u64,
) -> Seq<Seq<char>>
    decreases lines.len(),
{
    if lines.len() == 0 {
        seq![]
    } else {
        let before = kept_lines(lines.drop_last(), parsed, ts);
        if is_of_time(parsed[lines.len() - 1], ts) {
            before
        } else {
            before.push(lines.last())
        }
    }
}

/// Lines as a text, each with a line feed behind it.
pub open spec fn unlines(lines: Seq<Seq<char>>) -> Seq<char>
    decreases lines.len(),
{
    if lines.len() == 0 {
        seq![]
    } else {
        unlines(lines.drop_last()) + lines.last() + seq!['\n']
    }
}

/// The file without the entries of this time.
pub fn delete_history(lines: &Vec<String>, parsed: &Vec<Option<Entry>>, ts: u64) -> (r: String)
    requires
        parsed.len() == lines.len(),
    ensures
        r@ == unlines(kept_lines(crate::pattern::views(lines@), parsed@, ts)),
{
    let mut out = String::new();
    let ghost all = crate::pattern::views(lines@);
    assert(all.take(0) =~= seq![]);
    for i in 0..lines.len()
        invariant
            parsed.len() == lines.len(),
            all == crate::pattern::views(lines@),
            out@ == unlines(kept_lines(all.take(i as int), parsed@, ts)),
    {
        assert(all.take(i + 1).drop_last() =~= all.take(i as int));
        let gone = match &parsed[i] {
            Some(e) => e.ts == ts,
            None => false,
        };
        if !gone {
            let ghost before = kept_lines(all.take(i as int), parsed@, ts);
            out = append_line(out.as_str(), lines[i].as_str());
            assert(before.push(lines@[i as int]@).drop_last() =~= before);
        }
    }
    assert(all.take(lines@.len() as int) =~= all);
    out
}

/// Lines that fit come back as they were written.
pub proof fn law_lines_read_back(lines: Seq<Seq<char>>)
    requires
        forall|i: int| 0 <= i < lines.len() ==> fits_line(#[trigger] lines[i]),
    ensures
        lines_of(unlines(lines)) == lines,
        is_whole(unlines(lines)),
    decreases lines.len(),
{
    if lines.len() > 0 {
        let d = lines.drop_last();
        assert forall|i: int| 0 <= i < d.len() implies fits_line(#[trigger] d[i]) by {
            assert(d[i] == lines[i]);
        }
        law_lines_read_back(d);
        assert(fits_line(lines[lines.len() - 1]));
        law_appended_line_is_last(unlines(d), lines.last());
        assert(d.push(lines.last()) =~= lines);
    } else {
        assert(lines_of(unlines(lines)) =~= lines);
    }
}

/// What the lines are read as.
pub open spec fn read_all(
    lines: Seq<Seq<char>>,
    read: spec_fn(Seq<char>) -> Option<Entry>,
) -> Seq<Option<Entry>> {
    lines.map_values(read)
}

/// An entry that is saved as a line is in the history from then on, behind the
/// ones before it, however lines are read.
pub proof fn law_saved_entry_is_kept(
    content: Seq<char>,
    line: Seq<char>,
    entry: Entry,
    read: spec_fn(Seq<char>) -> Option<Entry>,
)
    requires
        is_whole(content),
        fits_line(line),
        read(line) == Some(entry),
    ensures
        readable(read_all(lines_of(content + line + seq!['\n']), read)) == readable(
            read_all(lines_of(content), read),
        ).push(entry),
{
    law_appended_line_is_last(content, line);
    let before = read_all(lines_of(content), read);
    let after = read_all(lines_of(content).push(line), read);
    assert(after =~= before.push(Some(entry)));
    assert(after.drop_last() =~= before);
}

proof fn lemma_kept_lines_fit(lines: Seq<Seq<char>>, parsed: Seq<Option<Entry>>, ts: u64)
    requires
        forall|i: int| 0 <= i < lines.len() ==> fits_line(#[trigger] lines[i]),
    ensures
        forall|i: int|
            0 <= i < kept_lines(lines, parsed, ts).len() ==> fits_line(
                #[trigger] kept_lines(lines, parsed, ts)[i],
            ),
    decreases lines.len(),
{
    if lines.len() > 0 {
        let d = lines.drop_last();
        assert forall|i: int| 0 <= i < d.len() implies fits_line(#[trigger] d[i]) by {
            assert(d[i] == lines[i]);
        }
        lemma_kept_lines_fit(d, parsed, ts);
        assert(fits_line(lines[lines.len() - 1]));
        let all = kept_lines(lines, parsed, ts);
        let before = kept_lines(d, parsed, ts);
        assert forall|i: int| 0 <= i < all.len() implies fits_line(#[trigger] all[i]) by {
            if i < before.len() {
                assert(all[i] == before[i]);
            }
        }
    }
}

proof fn lemma_kept_by_lines(
    lines: Seq<Seq<char>>,
    parsed: Seq<Option<Entry>>,
    other: Seq<Option<Entry>>,
    ts: u64,
)
    requires
        lines.len() <= parsed.len(),
        lines.len() <= other.len(),
        forall|i: int| 0 <= i < lines.len() ==> parsed[i] == #[trigger] other[i],
    ensures
        kept_lines(lines, parsed, ts) == kept_lines(lines, other, ts),
    decreases lines.len(),
{
    if lines.len() > 0 {
        lemma_kept_by_lines(lines.drop_last(), parsed, other, ts);
        assert(parsed[lines.len() - 1] == other[lines.len() - 1]);
    }
}

/// Deleting a time takes exactly its entries out of the history, however lines
/// are read; all others stay, in their order.
pub proof fn law_deleted_time_is_gone(
    lines: Seq<Seq<char>>,
    read: spec_fn(Seq<char>) -> Option<Entry>,
    ts: u64,
)
    requires
        forall|i: int| 0 <= i < lines.len() ==> fits_line(#[trigger] lines[i]),
    ensures
        ({
            let kept = kept_lines(lines, read_all(lines, read), ts);
            &&& lines_of(unlines(kept)) == kept
            &&& readable(read_all(kept, read)) == readable(read_all(lines, read)).filter(
                |e: Entry| e.ts != ts,
            )
        }),
    decreases lines.len(),
{
    let kept = kept_lines(lines, read_all(lines, read), ts);
    let other = |e: Entry| e.ts != ts;
    lemma_kept_lines_fit(lines, read_all(lines, read), ts);
    law_lines_read_back(kept);
    reveal(Seq::filter);
    if lines.len() > 0 {
        let d = lines.drop_last();
        assert forall|i: int| 0 <= i < d.len() implies fits_line(#[trigger] d[i]) by {
            assert(d[i] == lines[i]);
        }
        law_deleted_time_is_gone(d, read, ts);
        lemma_kept_by_lines(d, read_all(d, read), read_all(lines, read), ts);
        assert(read_all(lines, read).drop_last() =~= read_all(d, read));
        let before = kept_lines(d, read_all(d, read), ts);
        let all = readable(read_all(lines, read));
        let earlier = readable(read_all(d, read));
        assert(read_all(lines, read).last() == read(lines.last()));
        match read(lines.last()) {
            Some(e) => {
                assert(all == earlier.push(e));
                assert(all.drop_last() =~= earlier);
                if e.ts != ts {
                    assert(read_all(kept, read) =~= read_all(before, read).push(Some(e)));
                    assert(read_all(kept, read).drop_last() =~= read_all(before, read));
                }
            },
            None => {
                assert(read_all(kept, read) =~= read_all(before, read).push(None));
                assert(read_all(kept, read).drop_last() =~= read_all(before, read));
            },
        }
    } else {
        assert(readable(read_all(kept, read)) =~= readable(read_all(lines, read)).filter(other));
    }
}

/// A line feed that a carriage return precedes ends a line too, and neither belongs
/// to the line.
pub proof fn law_carriage_return_is_dropped(content: Seq<char>, line: Seq<char>)
    requires
        is_whole(content),
        fits_line(line),
    ensures
        lines_of(content + line + seq!['\r', '\n']) == lines_of(content).push(line),
{
    lemma_whole_has_no_rest(content);
    lemma_split_runs_on(content, line);
    let all = content + line + seq!['\r', '\n'];
    let part = content + line + seq!['\r'];
    assert(part.drop_last() =~= content + line);
    assert(all.drop_last() =~= part);
    assert(line_split(content).1 + line =~= line);
    assert(line_split(part) == (line_split(content).0, line.push('\r')));
    assert(bare_line(line.push('\r')) =~= line);
    assert(line_split(all).0 == line_split(content).0.push(line));
    lemma_whole_has_no_rest(all);
}

/// A text without a line feed is one line.
pub proof fn law_rest_is_a_line(content: Seq<char>, line: Seq<char>)
    requires
        is_whole(content),
        fits_line(line),
        line.len() > 0,
    ensures
        lines_of(content + line) == lines_of(content).push(line),
{
    lemma_whole_has_no_rest(content);
    lemma_split_runs_on(content, line);
    assert(line_split(content).1 + line =~= line);
}

/// Deleting a time takes out no other line; one that cannot be read stays as it is.
pub proof fn law_other_lines_stay(
    lines: Seq<Seq<char>>,
    read: spec_fn(Seq<char>) -> Option<Entry>,
    ts: u64,
)
    ensures
        kept_lines(lines, read_all(lines, read), ts) == lines.filter(
            |l: Seq<char>| !(read(l) matches Some(e) && e.ts == ts),
        ),
    decreases lines.len(),
{
    reveal(Seq::filter);
    let stays = |l: Seq<char>| !(read(l) matches Some(e) && e.ts == ts);
    if lines.len() > 0 {
        let d = lines.drop_last();
        law_other_lines_stay(d, read, ts);
        lemma_kept_by_lines(d, read_all(d, read), read_all(lines, read), ts);
        assert(read_all(lines, read)[lines.len() - 1] == read(lines.last()));
    } else {
        assert(kept_lines(lines, read_all(lines, read), ts) =~= lines.filter(stays));
    }
}

/// The entries of one time keep the order that they have in the file.
pub proof fn law_order_within_a_time(s: Seq<Entry>, ts: u64)
    ensures
        newest_first(s).filter(|e: Entry| e.ts == ts) == s.filter(|e: Entry| e.ts == ts),
    decreases s.len(),
{
    let same = |e: Entry| e.ts == ts;
    if s.len() > 0 {
        let x = s.last();
        let d = s.drop_last();
        let before = newest_first(d);
        law_order_within_a_time(d, ts);
        law_history_is_ordered(d);
        let k = place(before, x.ts);
        lemma_place(before, x.ts);
        let front = before.take(k);
        let back = before.skip(k);
        let one = seq![x];
        assert(before =~= front + back);
        assert(newest_first(s) =~= front + one + back);
        Seq::filter_distributes_over_add(front, back, same);
        Seq::filter_distributes_over_add(front, one, same);
        Seq::filter_distributes_over_add(front + one, back, same);
        assert(s =~= d + one);
        Seq::filter_distributes_over_add(d, one, same);
        assert(one.drop_last() =~= Seq::<Entry>::empty());
        assert(one.filter(same) == (if x.ts == ts {
            one
        } else {
            Seq::<Entry>::empty()
        })) by {
            reveal(Seq::filter);
            reveal_with_fuel(Seq::filter, 2);
            assert(Seq::<Entry>::empty().push(x) =~= one);
        }
        if x.ts == ts {
            assert forall|i: int| 0 <= i < back.len() implies !same(#[trigger] back[i]) by {
                assert(back[i] == before[k + i]);
            }
            lemma_nothing_kept(back, same);
        }
        assert(newest_first(s).filter(same) =~= s.filter(same));
    }
}

proof fn lemma_nothing_kept(s: Seq<Entry>, keep: spec_fn(Entry) -> bool)
    requires
        forall|i: int| 0 <= i < s.len() ==> !keep(#[trigger] s[i]),
    ensures
        s.filter(keep) == Seq::<Entry>::empty(),
    decreases s.len(),
{
    reveal(Seq::filter);
    if s.len() > 0 {
        let d = s.drop_last();
        assert forall|i: int| 0 <= i < d.len() implies !keep(#[trigger] d[i]) by {
            assert(d[i] == s[i]);
        }
        lemma_nothing_kept(d, keep);
        assert(!keep(s[s.len() - 1]));
    }
    assert(s.filter(keep) =~= Seq::<Entry>::empty());
}

/// The lines that can be read are the entries, in their order; one that cannot is
/// passed over.
pub proof fn law_unreadable_lines_are_passed_over(
    a: Seq<Option<Entry>>,
    b: Seq<Option<Entry>>,
    e: Entry,
)
    ensures
        readable(a + b) == readable(a) + readable(b),
        readable(seq![None::<Entry>]) == Seq::<Entry>::empty(),
        readable(seq![Some(e)]) == seq![e],
    decreases b.len(),
{
    reveal_with_fuel(readable, 2);
    assert(seq![None::<Entry>].drop_last() =~= Seq::<Option<Entry>>::empty());
    assert(seq![Some(e)].drop_last() =~= Seq::<Option<Entry>>::empty());
    assert(readable(seq![Some(e)]) =~= seq![e]);
    if b.len() == 0 {
        assert(a + b =~= a);
        assert(readable(a) + readable(b) =~= readable(a));
    } else {
        law_unreadable_lines_are_passed_over(a, b.drop_last(), e);
        assert((a + b).drop_last() =~= a + b.drop_last());
        assert(readable(a + b) =~= readable(a) + readable(b));
    }
}

} // verus!
