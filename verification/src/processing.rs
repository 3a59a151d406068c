//! Post-processing for transcribed text: filler removal, then the custom
//! dictionary, then spoken punctuation.

use vstd::prelude::*;

use crate::text::{
    ascii_alphanumeric, fold, from_chars, letter, sigma_chars, to_capital, to_chars, to_lowercase,
    trim_chars,
};

verus! {

/// One whole-word replacement.
pub struct Swap {
    /// The phrase that is looked for, in lower case.
    pub phrase: Seq<char>,
    /// What is written in its place.
    pub with: Seq<char>,
    /// Whether the spaces in front of it go too, so that it joins the word before.
    pub joins: bool,
}

/// No letter or digit stands right before position `i`.
pub open spec fn opens_word(t: Seq<char>, i: int) -> bool {
    i == 0 || !crate::text::is_ascii_alnum(t[i - 1])
}

/// No letter or digit stands at position `j`.
pub open spec fn closes_word(t: Seq<char>, j: int) -> bool {
    j >= t.len() || !crate::text::is_ascii_alnum(t[j])
}

/// Where the characters of `t` that spell `phrase` in lower case from `i` on
/// end, if they do.
pub open spec fn spelled_to(t: Seq<char>, i: int, phrase: Seq<char>) -> Option<int>
    decreases t.len() - i,
{
    if phrase.len() == 0 {
        Some(i)
    } else if i < 0 || i >= t.len() {
        None
    } else {
        let low = crate::text::folded(t[i]);
        if low.is_prefix_of(phrase) {
            spelled_to(t, i + 1, phrase.skip(low.len() as int))
        } else {
            None
        }
    }
}

/// The end of the whole-word occurrence of `phrase` that starts at `i`, if
/// there is one. An empty phrase occurs nowhere.
pub open spec fn occurrence(t: Seq<char>, i: int, phrase: Seq<char>) -> Option<int> {
    match spelled_to(t, i, phrase) {
        Some(j) if phrase.len() > 0 && opens_word(t, i) && closes_word(t, j) => Some(j),
        _ => None,
    }
}

/// `s` without the spaces at its end.
pub open spec fn without_end_spaces(s: Seq<char>) -> Seq<char>
    decreases s.len(),
{
    if s.len() > 0 && s.last() == ' ' {
        without_end_spaces(s.drop_last())
    } else {
        s
    }
}

pub proof fn lemma_spelled_to_bounds(t: Seq<char>, i: int, phrase: Seq<char>)
    requires
        0 <= i <= t.len(),
    ensures
        spelled_to(t, i, phrase) matches Some(j) ==> i <= j <= t.len(),
        spelled_to(t, i, phrase) matches Some(j) ==> phrase.len() > 0 ==> i < j,
    decreases t.len() - i,
{
    if phrase.len() > 0 && i < t.len() {
        let low = crate::text::folded(t[i]);
        if low.is_prefix_of(phrase) {
            lemma_spelled_to_bounds(t, i + 1, phrase.skip(low.len() as int));
        }
    }
}

/// `out`, followed by what one pass from left to right makes of `t` from `i` on.
pub open spec fn scanned(out: Seq<char>, t: Seq<char>, i: int, swap: Swap) -> Seq<char>
    decreases t.len() - i,
{
    if i < 0 || i >= t.len() {
        out
    } else {
        proof {
            lemma_spelled_to_bounds(t, i, swap.phrase);
        }
        match occurrence(t, i, swap.phrase) {
            Some(j) => {
                let kept = if swap.joins {
                    without_end_spaces(out)
                } else {
                    out
                };
                scanned(kept + swap.with, t, j, swap)
            },
            None => scanned(out.push(t[i]), t, i + 1, swap),
        }
    }
}

/// `t` with every whole-word occurrence of the phrase replaced.
pub open spec fn swapped(t: Seq<char>, swap: Swap) -> Seq<char> {
    scanned(Seq::empty(), t, 0, swap)
}

/// `t` after one pass for each of `swaps`, first to last.
pub open spec fn swapped_all(t: Seq<char>, swaps: Seq<Swap>) -> Seq<char>
    decreases swaps.len(),
{
    if swaps.len() == 0 {
        t
    } else {
        swapped(swapped_all(t, swaps.drop_last()), swaps.last())
    }
}

/// Looks for the phrase at `i`.
fn find_at(t: &Vec<char>, i: usize, phrase: &Vec<char>) -> (end: Option<usize>)
    requires
        i < t.len(),
    ensures
        end matches Some(j) ==> occurrence(t@, i as int, phrase@) == Some(j as int) && i < j
            <= t.len(),
        end is None ==> occurrence(t@, i as int, phrase@) is None,
{
    proof {
        lemma_spelled_to_bounds(t@, i as int, phrase@);
    }
    if phrase.len() == 0 || (i > 0 && ascii_alphanumeric(t[i - 1])) {
        return None;
    }
    let mut j: usize = i;
    let mut k: usize = 0;
    assert(phrase@.skip(0) =~= phrase@);
    while k < phrase.len()
        invariant
            i <= j <= t.len(),
            k <= phrase.len(),
            spelled_to(t@, i as int, phrase@) == spelled_to(t@, j as int, phrase@.skip(k as int)),
        decreases t.len() - j, phrase.len() - k,
    {
        if j >= t.len() {
            return None;
        }
        let low = fold(t[j]);
        let ghost rest = phrase@.skip(k as int);
        if low.len() > phrase.len() - k {
            return None;
        }
        for m in 0..low.len()
            invariant
                k + low.len() <= phrase.len(),
                rest == phrase@.skip(k as int),
                j < t.len(),
                low@ == crate::text::folded(t@[j as int]),
                rest.len() > 0,
                spelled_to(t@, i as int, phrase@) == spelled_to(t@, j as int, rest),
                occurrence(t@, i as int, phrase@) is Some ==> spelled_to(
                    t@,
                    i as int,
                    phrase@,
                ) is Some,
                forall|q: int| 0 <= q < m ==> low@[q] == rest[q],
        {
            if low[m] != phrase[k + m] {
                assert(low@[m as int] != rest[m as int]);
                return None;
            }
        }
        assert(low@.is_prefix_of(rest)) by {
            assert(low@ =~= rest.subrange(0, low@.len() as int));
        }
        assert(rest.skip(low@.len() as int) =~= phrase@.skip(k + low@.len()));
        k = k + low.len();
        j = j + 1;
    }
    assert(spelled_to(t@, i as int, phrase@) == Some(j as int));
    if j < t.len() && ascii_alphanumeric(t[j]) {
        return None;
    }
    Some(j)
}

/// One pass over the text that replaces a phrase.
fn swap_phrase(t: &Vec<char>, phrase: &Vec<char>, with: &Vec<char>, joins: bool) -> (r: Vec<char>)
    ensures
        r@ == swapped(t@, Swap { phrase: phrase@, with: with@, joins }),
{
    let ghost swap = Swap { phrase: phrase@, with: with@, joins };
    let mut out: Vec<char> = Vec::new();
    let mut i: usize = 0;
    while i < t.len()
        invariant
            i <= t.len(),
            swap == (Swap { phrase: phrase@, with: with@, joins }),
            swapped(t@, swap) == scanned(out@, t@, i as int, swap),
        decreases t.len() - i,
    {
        match find_at(t, i, phrase) {
            Some(j) => {
                if joins {
                    drop_end_spaces(&mut out);
                }
                let ghost kept = out@;
                push_all(&mut out, with);
                i = j;
            },
            None => {
                out.push(t[i]);
                i = i + 1;
            },
        }
    }
    out
}

fn drop_end_spaces(out: &mut Vec<char>)
    ensures
        final(out)@ == without_end_spaces(old(out)@),
{
    while out.len() > 0 && out[out.len() - 1] == ' '
        invariant
            without_end_spaces(out@) == without_end_spaces(old(out)@),
        decreases out.len(),
    {
        out.pop();
    }
}

fn push_all(out: &mut Vec<char>, more: &Vec<char>)
    ensures
        final(out)@ == old(out)@ + more@,
{
    let ghost start = out@;
    for i in 0..more.len()
        invariant
            out@ == start + more@.take(i as int),
    {
        out.push(more[i]);
        assert(more@.take(i + 1) =~= more@.take(i as int).push(more@[i as int]));
    }
    assert(more@.take(more@.len() as int) =~= more@);
}

/// The filler words and phrases, in the order in which they are removed.
pub open spec fn filler_list() -> Seq<Seq<char>> {
    seq![
        "um"@,
        "uh"@,
        "er"@,
        "ah"@,
        "like"@,
        "you know"@,
        "i mean"@,
        "sort of"@,
        "kind of"@,
        "actually"@,
        "basically"@,
        "literally"@,
        "honestly"@,
        "so yeah"@,
        "right"@,
    ]
}

/// The passes that remove the fillers.
pub open spec fn filler_swaps() -> Seq<Swap> {
    filler_list().map_values(
        |w: Seq<char>| Swap { phrase: w, with: Seq::<char>::empty(), joins: false },
    )
}

/// `s` with each run of whitespace turned into one space.
pub open spec fn squeezed(s: Seq<char>) -> Seq<char>
    decreases s.len(),
{
    if s.len() == 0 {
        s
    } else {
        let before = squeezed(s.drop_last());
        if !crate::text::is_white(s.last()) {
            before.push(s.last())
        } else if s.len() > 1 && crate::text::is_white(s[s.len() - 2]) {
            before
        } else {
            before.push(' ')
        }
    }
}

/// The text without filler words, with single spaces inside and none at the edges.
pub open spec fn without_filler_words(t: Seq<char>) -> Seq<char> {
    crate::text::trimmed(squeezed(swapped_all(t, filler_swaps())))
}

fn filler_words() -> (v: [&'static str; 15])
    ensures
        v@.map_values(|w: &'static str| w@) == filler_list(),
{
    let v = [
        "um",
        "uh",
        "er",
        "ah",
        "like",
        "you know",
        "i mean",
        "sort of",
        "kind of",
        "actually",
        "basically",
        "literally",
        "honestly",
        "so yeah",
        "right",
    ];
    assert(v@.map_values(|w: &'static str| w@) =~= filler_list());
    v
}

fn squeeze(t: &Vec<char>) -> (r: Vec<char>)
    ensures
        r@ == squeezed(t@),
{
    let mut r: Vec<char> = Vec::new();
    let mut prev_space = false;
    for i in 0..t.len()
        invariant
            r@ == squeezed(t@.take(i as int)),
            prev_space == (i > 0 && crate::text::is_white(t@[i - 1])),
    {
        let c = t[i];
        assert(t@.take(i + 1).drop_last() =~= t@.take(i as int));
        if c.is_whitespace() {
            if !prev_space {
                r.push(' ');
                prev_space = true;
            }
        } else {
            r.push(c);
            prev_space = false;
        }
    }
    assert(t@.take(t@.len() as int) =~= t@);
    r
}

/// Removes filler words such as "um", "uh", "like" and "you know".
pub fn remove_filler_words(text: &str) -> (r: String)
    ensures
        r@ == without_filler_words(text@),
{
    let fillers = filler_words();
    let nothing: Vec<char> = Vec::new();
    let mut t = to_chars(text);
    let ghost swaps = filler_swaps();
    assert(swaps.take(0) =~= Seq::<Swap>::empty());
    for n in 0..fillers.len()
        invariant
            nothing@ == Seq::<char>::empty(),
            swaps == filler_swaps(),
            swaps.len() == fillers@.len(),
            fillers@.map_values(|w: &'static str| w@) == filler_list(),
            t@ == swapped_all(text@, swaps.take(n as int)),
    {
        let phrase = to_chars(fillers[n]);
        assert(phrase@ == fillers@.map_values(|w: &'static str| w@)[n as int]);
        assert(swaps.take(n + 1).drop_last() =~= swaps.take(n as int));
        t = swap_phrase(&t, &phrase, &nothing, false);
    }
    assert(swaps.take(swaps.len() as int) =~= swaps);
    from_chars(&trim_chars(&squeeze(&t)))
}

/// The passes of a user's dictionary.
pub open spec fn dictionary_swaps(entries: Seq<(String, String)>) -> Seq<Swap> {
    entries.map_values(
        |e: (String, String)|
            Swap {
                phrase: crate::text::with_plain_sigma(crate::text::lowercase(e.0@)),
                with: e.1@,
                joins: false,
            },
    )
}

/// The passes of a dictionary whose phrases are all ASCII.
pub open spec fn ascii_dictionary_swaps(entries: Seq<(String, String)>) -> Seq<Swap> {
    entries.map_values(
        |e: (String, String)|
            Swap { phrase: crate::text::ascii_lowered(e.0@), with: e.1@, joins: false },
    )
}

/// Applies the user's own word and phrase substitutions, one entry after the
/// other: case is ignored and only whole words are replaced.
pub fn apply_custom_dictionary(text: &str, entries: &[(String, String)]) -> (r: String)
    ensures
        r@ == swapped_all(text@, dictionary_swaps(entries@)),
        (forall|n: int|
            0 <= n < entries@.len() ==> crate::text::all_ascii((#[trigger] entries@[n]).0@))
            ==> r@ == swapped_all(text@, ascii_dictionary_swaps(entries@)),
{
    let mut t = to_chars(text);
    let ghost swaps = dictionary_swaps(entries@);
    assert(swaps.take(0) =~= Seq::<Swap>::empty());
    for n in 0..entries.len()
        invariant
            swaps == dictionary_swaps(entries@),
            forall|k: int|
                0 <= k < n && crate::text::all_ascii((#[trigger] entries@[k]).0@) ==> swaps[k]
                    == ascii_dictionary_swaps(entries@)[k],
            t@ == swapped_all(text@, swaps.take(n as int)),
    {
        let low = to_lowercase(entries[n].0.as_str());
        let phrase = sigma_chars(low.as_str());
        let with = to_chars(entries[n].1.as_str());
        assert(swaps.take(n + 1).drop_last() =~= swaps.take(n as int));
        assert(swaps[n as int] == (Swap { phrase: phrase@, with: with@, joins: false }));
        proof {
            if crate::text::all_ascii(entries@[n as int].0@) {
                let spelled = entries@[n as int].0@;
                assert forall|k: int| 0 <= k < spelled.len() implies #[trigger] phrase@[k]
                    == crate::text::ascii_lowered(spelled)[k] by {
                    assert(crate::text::is_ascii(spelled[k]));
                }
                assert(phrase@ =~= crate::text::ascii_lowered(spelled));
            }
        }
        t = swap_phrase(&t, &phrase, &with, false);
    }
    assert(swaps.take(swaps.len() as int) =~= swaps);
    proof {
        if forall|n: int|
            0 <= n < entries@.len() ==> crate::text::all_ascii((#[trigger] entries@[n]).0@) {
            let ascii = ascii_dictionary_swaps(entries@);
            assert forall|k: int| 0 <= k < swaps.len() implies swaps[k] == #[trigger] ascii[k] by {
                assert(crate::text::all_ascii(entries@[k].0@));
            }
            assert(swaps =~= ascii);
        }
    }
    from_chars(&t)
}

/// The spoken names of symbols, in the order in which they are replaced.
pub open spec fn symbol_list() -> Seq<(Seq<char>, Seq<char>)> {
    seq![
        ("period"@, "."@),
        ("dot"@, "."@),
        ("point"@, "."@),
        ("decimal"@, "."@),
        ("comma"@, ","@),
        ("question mark"@, "?"@),
        ("exclamation mark"@, "!"@),
        ("exclamation point"@, "!"@),
        ("semicolon"@, ";"@),
        ("colon"@, ":"@),
        ("new line"@, "\n"@),
        ("newline"@, "\n"@),
        ("new paragraph"@, "\n\n"@),
        ("open paren"@, "("@),
        ("open parenthesis"@, "("@),
        ("close paren"@, ")"@),
        ("close parenthesis"@, ")"@),
        ("open bracket"@, "["@),
        ("close bracket"@, "]"@),
        ("open brace"@, "{"@),
        ("close brace"@, "}"@),
        ("dash"@, "-"@),
        ("hyphen"@, "-"@),
        ("underscore"@, "_"@),
        ("star"@, "*"@),
        ("asterisk"@, "*"@),
        ("ampersand"@, "&"@),
        ("at sign"@, "@"@),
        ("percent"@, "%"@),
        ("dollar sign"@, "$"@),
        ("euro"@, "€"@),
        ("pound"@, "£"@),
        ("yen"@, "¥"@),
        ("hash"@, "#"@),
        ("hashtag"@, "#"@),
        ("slash"@, "/"@),
        ("backslash"@, "\\"@),
        ("quote"@, "\""@),
        ("open quote"@, "\""@),
        ("close quote"@, "\""@),
        ("single quote"@, "'"@),
        ("apostrophe"@, "'"@),
        ("tilde"@, "~"@),
        ("caret"@, "^"@),
        ("pipe"@, "|"@),
        ("less than"@, "<"@),
        ("greater than"@, ">"@),
        ("equals"@, "="@),
        ("plus"@, "+"@),
        ("minus"@, "-"@),
        ("multiply by"@, "×"@),
        ("divide by"@, "÷"@),
        ("section"@, "§"@),
        ("paragraph"@, "¶"@),
        ("bullet"@, "•"@),
    ]
}

/// The marks that belong to the word before them.
pub open spec fn is_mark(symbol: Seq<char>) -> bool {
    symbol.len() == 1 && (symbol[0] == '.' || symbol[0] == ',' || symbol[0] == '?' || symbol[0]
        == '!' || symbol[0] == ';' || symbol[0] == ':')
}

/// The passes that write symbols for their spoken names.
pub open spec fn symbol_swaps() -> Seq<Swap> {
    symbol_list().map_values(
        |e: (Seq<char>, Seq<char>)| Swap { phrase: e.0, with: e.1, joins: is_mark(e.1) },
    )
}

/// Whether a letter that follows `s` opens a sentence: nothing but whitespace
/// stands between it and the start of the text or a full stop, an exclamation
/// mark or a question mark.
pub open spec fn sentence_due(s: Seq<char>) -> bool
    decreases s.len(),
{
    if s.len() == 0 {
        true
    } else {
        let c = s.last();
        if crate::text::is_letter(c) {
            false
        } else if c == '.' || c == '!' || c == '?' {
            true
        } else {
            crate::text::is_white(c) && sentence_due(s.drop_last())
        }
    }
}

/// `s` with a capital at the start of each sentence.
pub open spec fn sentence_cased(s: Seq<char>) -> Seq<char> {
    Seq::new(
        s.len(),
        |i: int|
            if crate::text::is_letter(s[i]) && sentence_due(s.take(i)) {
                crate::text::capital(s[i])
            } else {
                s[i]
            },
    )
}

fn spoken_symbols() -> (v: [(&'static str, &'static str); 55])
    ensures
        v@.map_values(|e: (&'static str, &'static str)| (e.0@, e.1@)) == symbol_list(),
{
    let v = [
        ("period", "."),
        ("dot", "."),
        ("point", "."),
        ("decimal", "."),
        ("comma", ","),
        ("question mark", "?"),
        ("exclamation mark", "!"),
        ("exclamation point", "!"),
        ("semicolon", ";"),
        ("colon", ":"),
        ("new line", "\n"),
        ("newline", "\n"),
        ("new paragraph", "\n\n"),
        ("open paren", "("),
        ("open parenthesis", "("),
        ("close paren", ")"),
        ("close parenthesis", ")"),
        ("open bracket", "["),
        ("close bracket", "]"),
        ("open brace", "{"),
        ("close brace", "}"),
        ("dash", "-"),
        ("hyphen", "-"),
        ("underscore", "_"),
        ("star", "*"),
        ("asterisk", "*"),
        ("ampersand", "&"),
        ("at sign", "@"),
        ("percent", "%"),
        ("dollar sign", "$"),
        ("euro", "€"),
        ("pound", "£"),
        ("yen", "¥"),
        ("hash", "#"),
        ("hashtag", "#"),
        ("slash", "/"),
        ("backslash", "\\"),
        ("quote", "\""),
        ("open quote", "\""),
        ("close quote", "\""),
        ("single quote", "'"),
        ("apostrophe", "'"),
        ("tilde", "~"),
        ("caret", "^"),
        ("pipe", "|"),
        ("less than", "<"),
        ("greater than", ">"),
        ("equals", "="),
        ("plus", "+"),
        ("minus", "-"),
        ("multiply by", "×"),
        ("divide by", "÷"),
        ("section", "§"),
        ("paragraph", "¶"),
        ("bullet", "•"),
    ];
    assert(v@.map_values(|e: (&'static str, &'static str)| (e.0@, e.1@)) =~= symbol_list());
    v
}

fn joins_word_before(symbol: &Vec<char>) -> (b: bool)
    ensures
        b == is_mark(symbol@),
{
    symbol.len() == 1 && (symbol[0] == '.' || symbol[0] == ',' || symbol[0] == '?' || symbol[0]
        == '!' || symbol[0] == ';' || symbol[0] == ':')
}

fn capitalize_sentences(t: &Vec<char>) -> (r: Vec<char>)
    ensures
        r@ == sentence_cased(t@),
{
    let mut r: Vec<char> = Vec::new();
    let mut cap_next = true;
    for i in 0..t.len()
        invariant
            r@ == sentence_cased(t@).take(i as int),
            cap_next == sentence_due(t@.take(i as int)),
    {
        let c = t[i];
        assert(t@.take(i + 1).drop_last() =~= t@.take(i as int));
        if letter(c) {
            if cap_next {
                r.push(to_capital(c));
            } else {
                r.push(c);
            }
            cap_next = false;
        } else {
            r.push(c);
            if c == '.' || c == '!' || c == '?' {
                cap_next = true;
            } else if !c.is_whitespace() {
                cap_next = false;
            }
        }
    }
    assert(r@ =~= sentence_cased(t@));
    r
}

/// The text with symbols for their spoken names and capitals at the start of
/// sentences.
pub open spec fn punctuated(t: Seq<char>) -> Seq<char> {
    sentence_cased(swapped_all(t, symbol_swaps()))
}

/// Writes punctuation and other symbols for their spoken names, then puts a
/// capital at the start of each sentence. A full stop, comma, question mark,
/// exclamation mark, semicolon or colon joins the word before it.
pub fn apply_spoken_punctuation(text: &str) -> (r: String)
    ensures
        r@ == punctuated(text@),
{
    let table = spoken_symbols();
    let mut t = to_chars(text);
    let ghost swaps = symbol_swaps();
    assert(swaps.take(0) =~= Seq::<Swap>::empty());
    for n in 0..table.len()
        invariant
            swaps == symbol_swaps(),
            swaps.len() == table@.len(),
            table@.map_values(|e: (&'static str, &'static str)| (e.0@, e.1@)) == symbol_list(),
            t@ == swapped_all(text@, swaps.take(n as int)),
    {
        let phrase = to_chars(table[n].0);
        let with = to_chars(table[n].1);
        let joins = joins_word_before(&with);
        assert((phrase@, with@) == table@.map_values(
            |e: (&'static str, &'static str)| (e.0@, e.1@),
        )[n as int]);
        assert(swaps.take(n + 1).drop_last() =~= swaps.take(n as int));
        t = swap_phrase(&t, &phrase, &with, joins);
    }
    assert(swaps.take(swaps.len() as int) =~= swaps);
    from_chars(&capitalize_sentences(&t))
}

/// The full post-processing: fillers, then the dictionary, then punctuation.
pub open spec fn processed(t: Seq<char>, dictionary: Seq<(String, String)>) -> Seq<char> {
    punctuated(swapped_all(without_filler_words(t), dictionary_swaps(dictionary)))
}

/// The full post-processing with a dictionary whose phrases are all ASCII.
pub open spec fn ascii_processed(t: Seq<char>, dictionary: Seq<(String, String)>) -> Seq<char> {
    punctuated(swapped_all(without_filler_words(t), ascii_dictionary_swaps(dictionary)))
}

/// The full post-processing of a transcript.
pub fn full_pipeline(text: &str, dictionary: &[(String, String)]) -> (r: String)
    ensures
        r@ == processed(text@, dictionary@),
        (forall|n: int|
            0 <= n < dictionary@.len() ==> crate::text::all_ascii((#[trigger] dictionary@[n]).0@))
            ==> r@ == ascii_processed(text@, dictionary@),
{
    let text = remove_filler_words(text);
    let text = apply_custom_dictionary(text.as_str(), dictionary);
    apply_spoken_punctuation(text.as_str())
}

proof fn lemma_scan_without_occurrence(out: Seq<char>, t: Seq<char>, i: int, end: int, swap: Swap)
    requires
        0 <= i <= end <= t.len(),
        forall|k: int| i <= k < end ==> (#[trigger] occurrence(t, k, swap.phrase)) is None,
    ensures
        scanned(out, t, i, swap) == scanned(out + t.subrange(i, end), t, end, swap),
    decreases end - i,
{
    if i < end {
        assert(occurrence(t, i, swap.phrase) is None);
        lemma_scan_without_occurrence(out.push(t[i]), t, i + 1, end, swap);
        assert(out.push(t[i]) + t.subrange(i + 1, end) =~= out + t.subrange(i, end));
    } else {
        assert(out + t.subrange(i, end) =~= out);
    }
}

/// A text in which the phrase does not occur as a whole word stays as it is.
pub proof fn law_absent_phrase_changes_nothing(t: Seq<char>, swap: Swap)
    requires
        forall|k: int| 0 <= k < t.len() ==> (#[trigger] occurrence(t, k, swap.phrase)) is None,
    ensures
        swapped(t, swap) == t,
{
    lemma_scan_without_occurrence(Seq::empty(), t, 0, t.len() as int, swap);
    assert(Seq::<char>::empty() + t.subrange(0, t.len() as int) =~= t);
}

proof fn lemma_scan_keeps_output(out: Seq<char>, t: Seq<char>, i: int, swap: Swap)
    requires
        0 <= i <= t.len(),
        !swap.joins,
    ensures
        scanned(out, t, i, swap) == out + scanned(Seq::empty(), t, i, swap),
    decreases t.len() - i,
{
    let none = Seq::<char>::empty();
    if i < t.len() {
        lemma_spelled_to_bounds(t, i, swap.phrase);
        match occurrence(t, i, swap.phrase) {
            Some(j) => {
                lemma_scan_keeps_output(out + swap.with, t, j, swap);
                lemma_scan_keeps_output(none + swap.with, t, j, swap);
                assert(out + swap.with + scanned(none, t, j, swap) =~= out + (none + swap.with
                    + scanned(none, t, j, swap)));
            },
            None => {
                lemma_scan_keeps_output(out.push(t[i]), t, i + 1, swap);
                lemma_scan_keeps_output(none.push(t[i]), t, i + 1, swap);
                assert(out.push(t[i]) + scanned(none, t, i + 1, swap) =~= out + (none.push(t[i])
                    + scanned(none, t, i + 1, swap)));
            },
        }
    } else {
        assert(out + none =~= out);
    }
}

/// The first whole-word occurrence, from `i` to `j`, is replaced; the text
/// before it is kept, and the rest is treated the same way from `j` on.
pub proof fn law_first_occurrence_is_replaced(t: Seq<char>, i: int, j: int, swap: Swap)
    requires
        0 <= i < t.len(),
        !swap.joins,
        forall|k: int| 0 <= k < i ==> (#[trigger] occurrence(t, k, swap.phrase)) is None,
        occurrence(t, i, swap.phrase) == Some(j),
    ensures
        swapped(t, swap) == t.take(i) + swap.with + scanned(Seq::empty(), t, j, swap),
{
    let none = Seq::<char>::empty();
    lemma_spelled_to_bounds(t, i, swap.phrase);
    lemma_scan_without_occurrence(none, t, 0, i, swap);
    assert(none + t.subrange(0, i) =~= t.take(i));
    lemma_scan_keeps_output(t.take(i) + swap.with, t, j, swap);
}

proof fn lemma_without_end_spaces(s: Seq<char>)
    ensures
        without_end_spaces(s).len() == 0 || without_end_spaces(s).last() != ' ',
    decreases s.len(),
{
    if s.len() > 0 && s.last() == ' ' {
        lemma_without_end_spaces(s.drop_last());
    }
}

/// A mark that joins the word before it is written right behind the text that
/// precedes its first occurrence: no space stands between them.
pub proof fn law_mark_joins_word_before(t: Seq<char>, i: int, j: int, swap: Swap)
    requires
        0 <= i < t.len(),
        swap.joins,
        forall|k: int| 0 <= k < i ==> (#[trigger] occurrence(t, k, swap.phrase)) is None,
        occurrence(t, i, swap.phrase) == Some(j),
    ensures
        swapped(t, swap) == scanned(without_end_spaces(t.take(i)) + swap.with, t, j, swap),
        without_end_spaces(t.take(i)).len() == 0 || without_end_spaces(t.take(i)).last() != ' ',
{
    let none = Seq::<char>::empty();
    lemma_scan_without_occurrence(none, t, 0, i, swap);
    assert(none + t.subrange(0, i) =~= t.take(i));
    lemma_without_end_spaces(t.take(i));
}

proof fn lemma_ascii_lower_decides_fold(c: char, d: char)
    requires
        crate::text::ascii_lower(c) == crate::text::ascii_lower(d),
    ensures
        crate::text::folded(c) == crate::text::folded(d),
        crate::text::is_ascii_alnum(c) == crate::text::is_ascii_alnum(d),
{
}

proof fn lemma_case_is_ignored(t: Seq<char>, u: Seq<char>, i: int, phrase: Seq<char>)
    requires
        crate::text::ascii_lowered(t) == crate::text::ascii_lowered(u),
        0 <= i <= t.len(),
    ensures
        t.len() == u.len(),
        spelled_to(t, i, phrase) == spelled_to(u, i, phrase),
    decreases t.len() - i,
{
    assert(crate::text::ascii_lowered(t).len() == t.len());
    assert(crate::text::ascii_lowered(u).len() == u.len());
    if phrase.len() > 0 && i < t.len() {
        assert(crate::text::ascii_lowered(t)[i] == crate::text::ascii_lower(t[i]));
        assert(crate::text::ascii_lowered(u)[i] == crate::text::ascii_lower(u[i]));
        lemma_ascii_lower_decides_fold(t[i], u[i]);
        let low = crate::text::folded(t[i]);
        if low.is_prefix_of(phrase) {
            lemma_case_is_ignored(t, u, i + 1, phrase.skip(low.len() as int));
        }
    }
}

/// Texts that differ only in the case of ASCII letters have the same
/// occurrences of every phrase.
pub proof fn law_case_is_ignored(t: Seq<char>, u: Seq<char>, i: int, phrase: Seq<char>)
    requires
        crate::text::ascii_lowered(t) == crate::text::ascii_lowered(u),
        0 <= i < t.len(),
    ensures
        occurrence(t, i, phrase) == occurrence(u, i, phrase),
{
    lemma_case_is_ignored(t, u, i, phrase);
    lemma_spelled_to_bounds(t, i, phrase);
    let low_t = crate::text::ascii_lowered(t);
    let low_u = crate::text::ascii_lowered(u);
    if i > 0 {
        assert(low_t[i - 1] == low_u[i - 1]);
        lemma_ascii_lower_decides_fold(t[i - 1], u[i - 1]);
    }
    if let Some(j) = spelled_to(t, i, phrase) {
        if j < t.len() {
            assert(low_t[j] == low_u[j]);
            lemma_ascii_lower_decides_fold(t[j], u[j]);
        }
    }
}

proof fn lemma_ascii_spelling(t: Seq<char>, i: int, phrase: Seq<char>)
    requires
        crate::text::all_ascii(t),
        0 <= i,
        i + phrase.len() <= t.len(),
        forall|k: int|
            0 <= k < phrase.len() ==> crate::text::ascii_lower(t[i + k]) == #[trigger] phrase[k],
    ensures
        spelled_to(t, i, phrase) == Some(i + phrase.len()),
    decreases phrase.len(),
{
    if phrase.len() > 0 {
        assert(crate::text::is_ascii(t[i]));
        let low = crate::text::folded(t[i]);
        assert(crate::text::ascii_lower(t[i + 0]) == phrase[0]);
        assert(low =~= phrase.take(1));
        assert(low.is_prefix_of(phrase));
        let rest = phrase.skip(1);
        assert forall|k: int| 0 <= k < rest.len() implies crate::text::ascii_lower(t[i + 1 + k])
            == #[trigger] rest[k] by {
            assert(crate::text::ascii_lower(t[i + (k + 1)]) == phrase[k + 1]);
        }
        lemma_ascii_spelling(t, i + 1, rest);
    }
}

/// An ASCII phrase that stands between word boundaries is an occurrence, in
/// whatever case it is written.
pub proof fn law_bounded_phrase_occurs(t: Seq<char>, i: int, phrase: Seq<char>)
    requires
        crate::text::all_ascii(t),
        phrase.len() > 0,
        0 <= i,
        i + phrase.len() <= t.len(),
        crate::text::ascii_lowered(t.subrange(i, i + phrase.len())) == phrase,
        opens_word(t, i),
        closes_word(t, i + phrase.len()),
    ensures
        occurrence(t, i, phrase) == Some(i + phrase.len()),
{
    let part = t.subrange(i, i + phrase.len());
    assert forall|k: int| 0 <= k < phrase.len() implies crate::text::ascii_lower(t[i + k])
        == #[trigger] phrase[k] by {
        assert(crate::text::ascii_lowered(part)[k] == phrase[k]);
        assert(part[k] == t[i + k]);
    }
    lemma_ascii_spelling(t, i, phrase);
}

/// Whitespace appears only as single spaces.
pub open spec fn single_spaced(s: Seq<char>) -> bool {
    &&& forall|i: int| 0 <= i < s.len() && crate::text::is_white(#[trigger] s[i]) ==> s[i] == ' '
    &&& forall|i: int, j: int|
        0 <= i && j == i + 1 && j < s.len() ==> !(crate::text::is_white(#[trigger] s[i])
            && crate::text::is_white(#[trigger] s[j]))
}

proof fn lemma_squeezed_is_single_spaced(s: Seq<char>)
    ensures
        single_spaced(squeezed(s)),
        squeezed(s).len() == 0 <==> s.len() == 0,
        s.len() > 0 ==> crate::text::is_white(squeezed(s).last()) == crate::text::is_white(
            s.last(),
        ),
    decreases s.len(),
{
    if s.len() > 0 {
        lemma_squeezed_is_single_spaced(s.drop_last());
        if s.len() > 1 {
            assert(s.drop_last().last() == s[s.len() - 2]);
        }
    }
}

/// What filler removal returns has no whitespace at its edges, and inside it
/// only single spaces.
pub proof fn law_filler_removal_is_tidy(t: Seq<char>)
    ensures
        single_spaced(without_filler_words(t)),
        without_filler_words(t).len() > 0 ==> !crate::text::is_white(
            without_filler_words(t).first(),
        ) && !crate::text::is_white(without_filler_words(t).last()),
{
    let s = squeezed(swapped_all(t, filler_swaps()));
    lemma_squeezed_is_single_spaced(swapped_all(t, filler_swaps()));
    crate::text::law_trimmed_has_no_edge_space(s);
    crate::text::lemma_trimmed_start_suffix(s);
    crate::text::lemma_trimmed_end_prefix(crate::text::trimmed_start(s));
    let a = choose|a: int| 0 <= a <= s.len() && crate::text::trimmed_start(s) == s.skip(a);
    let b = choose|b: int|
        0 <= b <= s.skip(a).len() && crate::text::trimmed(s) == s.skip(a).take(b);
    let r = crate::text::trimmed(s);
    assert forall|i: int, j: int| 0 <= i && j == i + 1 && j < r.len() implies !(
    crate::text::is_white(#[trigger] r[i]) && crate::text::is_white(#[trigger] r[j])) by {
        assert(r[i] == s[a + i]);
        assert(r[j] == s[a + j]);
    }
    assert forall|i: int| 0 <= i < r.len() && crate::text::is_white(#[trigger] r[i]) implies r[i]
        == ' ' by {
        assert(r[i] == s[a + i]);
    }
}

/// A spoken phrase and a symbol that belongs to no phrase.
spec fn is_clean_entry(e: (Seq<char>, Seq<char>)) -> bool {
    crate::phrases::is_spoken(e.0) && crate::phrases::is_seam_text(e.1)
}

proof fn lemma_symbols_1()
    ensures
        forall|n: int| 0 <= n < 11 ==> is_clean_entry(#[trigger] symbol_list()[n]),
{
    let list = symbol_list();
    reveal_strlit("period");
    reveal_strlit(".");
    assert(is_clean_entry(list[0]));
    reveal_strlit("dot");
    reveal_strlit(".");
    assert(is_clean_entry(list[1]));
    reveal_strlit("point");
    reveal_strlit(".");
    assert(is_clean_entry(list[2]));
    reveal_strlit("decimal");
    reveal_strlit(".");
    assert(is_clean_entry(list[3]));
    reveal_strlit("comma");
    reveal_strlit(",");
    assert(is_clean_entry(list[4]));
    reveal_strlit("question mark");
    reveal_strlit("?");
    assert(is_clean_entry(list[5]));
    reveal_strlit("exclamation mark");
    reveal_strlit("!");
    assert(is_clean_entry(list[6]));
    reveal_strlit("exclamation point");
    reveal_strlit("!");
    assert(is_clean_entry(list[7]));
    reveal_strlit("semicolon");
    reveal_strlit(";");
    assert(is_clean_entry(list[8]));
    reveal_strlit("colon");
    reveal_strlit(":");
    assert(is_clean_entry(list[9]));
    reveal_strlit("new line");
    reveal_strlit("\n");
    assert(is_clean_entry(list[10]));
}

proof fn lemma_symbols_2()
    ensures
        forall|n: int| 11 <= n < 22 ==> is_clean_entry(#[trigger] symbol_list()[n]),
{
    let list = symbol_list();
    reveal_strlit("newline");
    reveal_strlit("\n");
    assert(is_clean_entry(list[11]));
    reveal_strlit("new paragraph");
    reveal_strlit("\n\n");
    assert(is_clean_entry(list[12]));
    reveal_strlit("open paren");
    reveal_strlit("(");
    assert(is_clean_entry(list[13]));
    reveal_strlit("open parenthesis");
    reveal_strlit("(");
    assert(is_clean_entry(list[14]));
    reveal_strlit("close paren");
    reveal_strlit(")");
    assert(is_clean_entry(list[15]));
    reveal_strlit("close parenthesis");
    reveal_strlit(")");
    assert(is_clean_entry(list[16]));
    reveal_strlit("open bracket");
    reveal_strlit("[");
    assert(is_clean_entry(list[17]));
    reveal_strlit("close bracket");
    reveal_strlit("]");
    assert(is_clean_entry(list[18]));
    reveal_strlit("open brace");
    reveal_strlit("{");
    assert(is_clean_entry(list[19]));
    reveal_strlit("close brace");
    reveal_strlit("}");
    assert(is_clean_entry(list[20]));
    reveal_strlit("dash");
    reveal_strlit("-");
    assert(is_clean_entry(list[21]));
}

proof fn lemma_symbols_3()
    ensures
        forall|n: int| 22 <= n < 33 ==> is_clean_entry(#[trigger] symbol_list()[n]),
{
    let list = symbol_list();
    reveal_strlit("hyphen");
    reveal_strlit("-");
    assert(is_clean_entry(list[22]));
    reveal_strlit("underscore");
    reveal_strlit("_");
    assert(is_clean_entry(list[23]));
    reveal_strlit("star");
    reveal_strlit("*");
    assert(is_clean_entry(list[24]));
    reveal_strlit("asterisk");
    reveal_strlit("*");
    assert(is_clean_entry(list[25]));
    reveal_strlit("ampersand");
    reveal_strlit("&");
    assert(is_clean_entry(list[26]));
    reveal_strlit("at sign");
    reveal_strlit("@");
    assert(is_clean_entry(list[27]));
    reveal_strlit("percent");
    reveal_strlit("%");
    assert(is_clean_entry(list[28]));
    reveal_strlit("dollar sign");
    reveal_strlit("$");
    assert(is_clean_entry(list[29]));
    reveal_strlit("euro");
    reveal_strlit("€");
    assert(is_clean_entry(list[30]));
    reveal_strlit("pound");
    reveal_strlit("£");
    assert(is_clean_entry(list[31]));
    reveal_strlit("yen");
    reveal_strlit("¥");
    assert(is_clean_entry(list[32]));
}

proof fn lemma_symbols_4()
    ensures
        forall|n: int| 33 <= n < 44 ==> is_clean_entry(#[trigger] symbol_list()[n]),
{
    let list = symbol_list();
    reveal_strlit("hash");
    reveal_strlit("#");
    assert(is_clean_entry(list[33]));
    reveal_strlit("hashtag");
    reveal_strlit("#");
    assert(is_clean_entry(list[34]));
    reveal_strlit("slash");
    reveal_strlit("/");
    assert(is_clean_entry(list[35]));
    reveal_strlit("backslash");
    reveal_strlit("\\");
    assert(is_clean_entry(list[36]));
    reveal_strlit("quote");
    reveal_strlit("\"");
    assert(is_clean_entry(list[37]));
    reveal_strlit("open quote");
    reveal_strlit("\"");
    assert(is_clean_entry(list[38]));
    reveal_strlit("close quote");
    reveal_strlit("\"");
    assert(is_clean_entry(list[39]));
    reveal_strlit("single quote");
    reveal_strlit("'");
    assert(is_clean_entry(list[40]));
    reveal_strlit("apostrophe");
    reveal_strlit("'");
    assert(is_clean_entry(list[41]));
    reveal_strlit("tilde");
    reveal_strlit("~");
    assert(is_clean_entry(list[42]));
    reveal_strlit("caret");
    reveal_strlit("^");
    assert(is_clean_entry(list[43]));
}

proof fn lemma_symbols_5()
    ensures
        forall|n: int| 44 <= n < 55 ==> is_clean_entry(#[trigger] symbol_list()[n]),
{
    let list = symbol_list();
    reveal_strlit("pipe");
    reveal_strlit("|");
    assert(is_clean_entry(list[44]));
    reveal_strlit("less than");
    reveal_strlit("<");
    assert(is_clean_entry(list[45]));
    reveal_strlit("greater than");
    reveal_strlit(">");
    assert(is_clean_entry(list[46]));
    reveal_strlit("equals");
    reveal_strlit("=");
    assert(is_clean_entry(list[47]));
    reveal_strlit("plus");
    reveal_strlit("+");
    assert(is_clean_entry(list[48]));
    reveal_strlit("minus");
    reveal_strlit("-");
    assert(is_clean_entry(list[49]));
    reveal_strlit("multiply by");
    reveal_strlit("×");
    assert(is_clean_entry(list[50]));
    reveal_strlit("divide by");
    reveal_strlit("÷");
    assert(is_clean_entry(list[51]));
    reveal_strlit("section");
    reveal_strlit("§");
    assert(is_clean_entry(list[52]));
    reveal_strlit("paragraph");
    reveal_strlit("¶");
    assert(is_clean_entry(list[53]));
    reveal_strlit("bullet");
    reveal_strlit("•");
    assert(is_clean_entry(list[54]));
}

pub proof fn lemma_symbols_are_clean()
    ensures
        symbol_swaps().len() == symbol_list().len(),
        forall|n: int|
            0 <= n < symbol_swaps().len() ==> crate::phrases::is_clean(#[trigger] symbol_swaps()[n])
                && symbol_swaps()[n].phrase == symbol_list()[n].0,
{
    lemma_symbols_1();
    lemma_symbols_2();
    lemma_symbols_3();
    lemma_symbols_4();
    lemma_symbols_5();
    let swaps = symbol_swaps();
    assert forall|n: int| 0 <= n < swaps.len() implies crate::phrases::is_clean(
        #[trigger] swaps[n],
    ) && swaps[n].phrase == symbol_list()[n].0 by {
        assert(is_clean_entry(symbol_list()[n]));
    }
}

proof fn lemma_fillers_are_clean()
    ensures
        filler_swaps().len() == filler_list().len(),
        forall|n: int|
            0 <= n < filler_swaps().len() ==> crate::phrases::is_clean(#[trigger] filler_swaps()[n])
                && filler_swaps()[n].phrase == filler_list()[n],
{
    let list = filler_list();
    reveal_strlit("um");
    assert(crate::phrases::is_spoken(list[0]));
    reveal_strlit("uh");
    assert(crate::phrases::is_spoken(list[1]));
    reveal_strlit("er");
    assert(crate::phrases::is_spoken(list[2]));
    reveal_strlit("ah");
    assert(crate::phrases::is_spoken(list[3]));
    reveal_strlit("like");
    assert(crate::phrases::is_spoken(list[4]));
    reveal_strlit("you know");
    assert(crate::phrases::is_spoken(list[5]));
    reveal_strlit("i mean");
    assert(crate::phrases::is_spoken(list[6]));
    reveal_strlit("sort of");
    assert(crate::phrases::is_spoken(list[7]));
    reveal_strlit("kind of");
    assert(crate::phrases::is_spoken(list[8]));
    reveal_strlit("actually");
    assert(crate::phrases::is_spoken(list[9]));
    reveal_strlit("basically");
    assert(crate::phrases::is_spoken(list[10]));
    reveal_strlit("literally");
    assert(crate::phrases::is_spoken(list[11]));
    reveal_strlit("honestly");
    assert(crate::phrases::is_spoken(list[12]));
    reveal_strlit("so yeah");
    assert(crate::phrases::is_spoken(list[13]));
    reveal_strlit("right");
    assert(crate::phrases::is_spoken(list[14]));
    let swaps = filler_swaps();
    assert forall|n: int| 0 <= n < swaps.len() implies crate::phrases::is_clean(
        #[trigger] swaps[n],
    ) && swaps[n].phrase == list[n] by {
        assert(crate::phrases::is_spoken(list[n]));
    }
}

/// No filler that is one word is left as a whole word; the text is one of
/// ASCII characters and of common signs. A filler of two words can come up where
/// another one stood between them.
pub proof fn law_no_filler_word_is_left(t: Seq<char>, n: int)
    requires
        crate::text::all_common(t),
        0 <= n < filler_list().len(),
        !filler_list()[n].contains(' '),
    ensures
        crate::phrases::is_absent(without_filler_words(t), filler_list()[n]),
{
    let swaps = filler_swaps();
    let q = filler_list()[n];
    lemma_fillers_are_clean();
    crate::phrases::lemma_all_phrases_are_gone(t, swaps);
    assert(crate::phrases::is_clean(swaps[n]));
    assert(crate::phrases::is_absent(swapped_all(t, swaps), swaps[n].phrase));
    assert forall|i: int| 0 <= i < q.len() implies #[trigger] q[i] != ' ' by {
        assert(q.contains(q[i]));
    }
    crate::phrases::lemma_tidying_brings_no_word(swapped_all(t, swaps), q);
}

/// What is left when fillers are removed are characters of the text, in the order
/// in which they stood, with a space for any whitespace.
pub proof fn law_filler_removal_keeps_the_order(t: Seq<char>)
    ensures
        crate::phrases::keeps_order(t, without_filler_words(t)),
{
    let swaps = filler_swaps();
    lemma_fillers_are_clean();
    assert forall|n: int| 0 <= n < swaps.len() implies (#[trigger] swaps[n]).with.len() == 0
        && !swaps[n].joins by {
    }
    crate::phrases::lemma_passes_keep_order(t, swaps);
    crate::phrases::lemma_tidying_keeps_order(t, swapped_all(t, swaps));
}

proof fn lemma_capital(c: char)
    requires
        crate::text::is_common(c),
    ensures
        crate::text::is_common(crate::text::capital(c)),
        crate::text::capital(crate::text::capital(c)) == crate::text::capital(c),
        crate::text::is_letter(crate::text::capital(c)) == crate::text::is_letter(c),
        crate::text::ascii_lower(crate::text::capital(c)) == crate::text::ascii_lower(c),
        !crate::text::is_letter(c) ==> crate::text::capital(c) == c,
{
}

proof fn lemma_casing_keeps_sentences(s: Seq<char>, i: int)
    requires
        crate::text::all_common(s),
        0 <= i <= s.len(),
    ensures
        sentence_due(sentence_cased(s).take(i)) == sentence_due(s.take(i)),
    decreases i,
{
    if i > 0 {
        let r = sentence_cased(s);
        lemma_casing_keeps_sentences(s, i - 1);
        assert(crate::text::is_common(s[i - 1]));
        lemma_capital(s[i - 1]);
        assert(r.take(i).drop_last() =~= r.take(i - 1));
        assert(s.take(i).drop_last() =~= s.take(i - 1));
        assert(r.take(i).last() == r[i - 1]);
        assert(s.take(i).last() == s[i - 1]);
    }
}

proof fn lemma_casing_twice(s: Seq<char>)
    requires
        crate::text::all_common(s),
    ensures
        sentence_cased(sentence_cased(s)) == sentence_cased(s),
        crate::text::all_common(sentence_cased(s)),
        crate::text::ascii_lowered(sentence_cased(s)) == crate::text::ascii_lowered(s),
{
    let r = sentence_cased(s);
    assert forall|i: int| 0 <= i < r.len() implies crate::text::is_common(#[trigger] r[i]) by {
        assert(crate::text::is_common(s[i]));
        lemma_capital(s[i]);
    }
    assert forall|i: int| 0 <= i < r.len() implies sentence_cased(r)[i] == #[trigger] r[i] by {
        assert(crate::text::is_common(s[i]));
        lemma_capital(s[i]);
        lemma_casing_keeps_sentences(s, i);
    }
    assert(sentence_cased(r) =~= r);
    assert forall|i: int| 0 <= i < r.len() implies crate::text::ascii_lowered(r)[i]
        == #[trigger] crate::text::ascii_lowered(s)[i] by {
        assert(crate::text::is_common(s[i]));
        lemma_capital(s[i]);
    }
    assert(crate::text::ascii_lowered(r) =~= crate::text::ascii_lowered(s));
}

/// No spoken name of a symbol is left as a whole word. The text is one of ASCII
/// characters and of the symbols themselves, whose case is known.
pub proof fn law_spoken_names_are_gone(t: Seq<char>, n: int)
    requires
        crate::text::all_common(t),
        0 <= n < symbol_list().len(),
    ensures
        crate::phrases::is_absent(punctuated(t), symbol_list()[n].0),
        crate::text::all_common(punctuated(t)),
{
    let swaps = symbol_swaps();
    let s = swapped_all(t, swaps);
    let r = punctuated(t);
    let q = symbol_list()[n].0;
    lemma_symbols_are_clean();
    crate::phrases::lemma_all_phrases_are_gone(t, swaps);
    lemma_casing_twice(s);
    assert(crate::phrases::is_clean(swaps[n]));
    assert(crate::phrases::is_absent(s, swaps[n].phrase));
    assert forall|k: int| 0 <= k < r.len() implies (#[trigger] occurrence(r, k, q)) is None by {
        law_case_is_ignored(r, s, k, q);
        assert(occurrence(s, k, q) is None);
    }
}

pub proof fn lemma_absent_phrases(t: Seq<char>, swaps: Seq<Swap>)
    requires
        forall|n: int|
            0 <= n < swaps.len() ==> crate::phrases::is_absent(t, (#[trigger] swaps[n]).phrase),
    ensures
        swapped_all(t, swaps) == t,
    decreases swaps.len(),
{
    if swaps.len() > 0 {
        let d = swaps.drop_last();
        assert forall|n: int| 0 <= n < d.len() implies crate::phrases::is_absent(
            t,
            (#[trigger] d[n]).phrase,
        ) by {
            assert(d[n] == swaps[n]);
        }
        lemma_absent_phrases(t, d);
        assert(crate::phrases::is_absent(t, swaps[swaps.len() - 1].phrase));
        law_absent_phrase_changes_nothing(t, swaps.last());
    }
}

/// Writing punctuation a second time changes nothing: no spoken name is left to
/// convert, and no letter to make a capital. It holds of every text of ASCII
/// characters and of the symbols that are written for their names.
pub proof fn law_punctuating_twice(t: Seq<char>)
    requires
        crate::text::all_common(t),
    ensures
        punctuated(punctuated(t)) == punctuated(t),
{
    let r = punctuated(t);
    let swaps = symbol_swaps();
    lemma_symbols_are_clean();
    assert forall|n: int| 0 <= n < swaps.len() implies crate::phrases::is_absent(
        r,
        (#[trigger] swaps[n]).phrase,
    ) by {
        assert(crate::phrases::is_clean(swaps[n]));
        law_spoken_names_are_gone(t, n);
    }
    lemma_absent_phrases(r, swaps);
    crate::phrases::lemma_all_phrases_are_gone(t, swaps);
    lemma_casing_twice(swapped_all(t, swaps));
}

pub proof fn lemma_scan_lone(t: Seq<char>, i: int, j: int, swap: Swap)
    requires
        0 <= i < t.len(),
        occurrence(t, i, swap.phrase) == Some(j),
        forall|k: int|
            0 <= k < t.len() && k != i ==> (#[trigger] occurrence(t, k, swap.phrase)) is None,
    ensures
        i < j <= t.len(),
        swapped(t, swap) == (if swap.joins {
            without_end_spaces(t.take(i))
        } else {
            t.take(i)
        }) + swap.with + t.skip(j),
{
    let none = Seq::<char>::empty();
    lemma_spelled_to_bounds(t, i, swap.phrase);
    lemma_scan_without_occurrence(none, t, 0, i, swap);
    assert(none + t.subrange(0, i) =~= t.take(i));
    let kept = if swap.joins {
        without_end_spaces(t.take(i))
    } else {
        t.take(i)
    };
    lemma_scan_without_occurrence(kept + swap.with, t, j, t.len() as int, swap);
    assert(t.subrange(j, t.len() as int) =~= t.skip(j));
}

/// A dictionary entry is looked for in the text as it was said but for its fillers,
/// and what it says is written before the names of symbols are: where its phrase
/// occurs once, from `i` to `j`, the text around it is kept and the whole is then
/// punctuated, even where the phrase holds the name of a symbol.
pub proof fn law_dictionary_comes_before_punctuation(
    t: Seq<char>,
    dictionary: Seq<(String, String)>,
    i: int,
    j: int,
)
    requires
        dictionary.len() == 1,
        0 <= i < without_filler_words(t).len(),
        occurrence(
            without_filler_words(t),
            i,
            crate::text::ascii_lowered(dictionary[0].0@),
        ) == Some(j),
        forall|k: int|
            0 <= k < without_filler_words(t).len() && k != i ==> (#[trigger] occurrence(
                without_filler_words(t),
                k,
                crate::text::ascii_lowered(dictionary[0].0@),
            )) is None,
    ensures
        ascii_processed(t, dictionary) == punctuated(
            without_filler_words(t).take(i) + dictionary[0].1@ + without_filler_words(t).skip(j),
        ),
{
    let u = without_filler_words(t);
    let swaps = ascii_dictionary_swaps(dictionary);
    let swap = swaps[0];
    assert(swap.phrase == crate::text::ascii_lowered(dictionary[0].0@));
    lemma_scan_lone(u, i, j, swap);
    assert(swaps.drop_last() =~= Seq::<Swap>::empty());
    assert(swapped_all(u, swaps.drop_last()) == u);
    assert(swapped_all(u, swaps) == swapped(u, swap));
}

/// The same with a phrase in lower case by the rules of Unicode.
pub proof fn law_any_entry_comes_before_punctuation(
    t: Seq<char>,
    dictionary: Seq<(String, String)>,
    i: int,
    j: int,
)
    requires
        dictionary.len() == 1,
        0 <= i < without_filler_words(t).len(),
        occurrence(
            without_filler_words(t),
            i,
            crate::text::with_plain_sigma(crate::text::lowercase(dictionary[0].0@)),
        ) == Some(j),
        forall|k: int|
            0 <= k < without_filler_words(t).len() && k != i ==> (#[trigger] occurrence(
                without_filler_words(t),
                k,
                crate::text::with_plain_sigma(crate::text::lowercase(dictionary[0].0@)),
            )) is None,
    ensures
        processed(t, dictionary) == punctuated(
            without_filler_words(t).take(i) + dictionary[0].1@ + without_filler_words(t).skip(j),
        ),
{
    let u = without_filler_words(t);
    let swaps = dictionary_swaps(dictionary);
    let swap = swaps[0];
    assert(swap.phrase == crate::text::with_plain_sigma(
        crate::text::lowercase(dictionary[0].0@),
    ));
    lemma_scan_lone(u, i, j, swap);
    assert(swaps.drop_last() =~= Seq::<Swap>::empty());
    assert(swapped_all(u, swaps.drop_last()) == u);
    assert(swapped_all(u, swaps) == swapped(u, swap));
}

proof fn lemma_scan_stays_common(out: Seq<char>, t: Seq<char>, i: int, swap: Swap)
    requires
        0 <= i <= t.len(),
        crate::text::all_common(out),
        crate::text::all_common(t),
        crate::text::all_common(swap.with),
    ensures
        crate::text::all_common(scanned(out, t, i, swap)),
    decreases t.len() - i,
{
    if i < t.len() {
        lemma_spelled_to_bounds(t, i, swap.phrase);
        match occurrence(t, i, swap.phrase) {
            Some(j) => {
                crate::phrases::lemma_end_spaces(out);
                let kept = if swap.joins {
                    without_end_spaces(out)
                } else {
                    out
                };
                lemma_scan_stays_common(kept + swap.with, t, j, swap);
            },
            None => {
                assert(crate::text::is_common(t[i]));
                lemma_scan_stays_common(out.push(t[i]), t, i + 1, swap);
            },
        }
    }
}

proof fn lemma_swaps_stay_common(t: Seq<char>, swaps: Seq<Swap>)
    requires
        crate::text::all_common(t),
        forall|n: int|
            0 <= n < swaps.len() ==> crate::text::all_common((#[trigger] swaps[n]).with),
    ensures
        crate::text::all_common(swapped_all(t, swaps)),
    decreases swaps.len(),
{
    if swaps.len() > 0 {
        let d = swaps.drop_last();
        assert forall|n: int| 0 <= n < d.len() implies crate::text::all_common(
            (#[trigger] d[n]).with,
        ) by {
            assert(d[n] == swaps[n]);
        }
        lemma_swaps_stay_common(t, d);
        assert(crate::text::all_common(swaps[swaps.len() - 1].with));
        lemma_scan_stays_common(Seq::empty(), swapped_all(t, d), 0, swaps.last());
    }
}

proof fn lemma_filler_removal_stays_common(t: Seq<char>)
    requires
        crate::text::all_common(t),
    ensures
        crate::text::all_common(without_filler_words(t)),
{
    let swaps = filler_swaps();
    lemma_swaps_stay_common(t, swaps);
    let s = swapped_all(t, swaps);
    let r = without_filler_words(t);
    assert(crate::phrases::is_kept_from(s, s, Seq::new(s.len(), |k: int| k)));
    crate::phrases::lemma_tidying_keeps_order(s, s);
    let src = choose|src: Seq<int>| crate::phrases::is_kept_from(s, r, src);
    assert forall|i: int| 0 <= i < r.len() implies crate::text::is_common(#[trigger] r[i]) by {
        assert(0 <= src[i] < s.len());
        assert(crate::text::is_common(s[src[i]]));
    }
}

/// Punctuation comes last: no spoken name of a symbol is left in what the whole
/// post-processing gives, not even one that a dictionary entry wrote, and
/// punctuating it again changes nothing. Text and entries are of ASCII characters
/// and of the symbols themselves.
pub proof fn law_punctuation_comes_last(t: Seq<char>, dictionary: Seq<(String, String)>, n: int)
    requires
        crate::text::all_common(t),
        forall|k: int|
            0 <= k < dictionary.len() ==> crate::text::all_common((#[trigger] dictionary[k]).1@),
        0 <= n < symbol_list().len(),
    ensures
        crate::phrases::is_absent(processed(t, dictionary), symbol_list()[n].0),
        punctuated(processed(t, dictionary)) == processed(t, dictionary),
        crate::phrases::is_absent(ascii_processed(t, dictionary), symbol_list()[n].0),
        punctuated(ascii_processed(t, dictionary)) == ascii_processed(t, dictionary),
{
    let u = without_filler_words(t);
    lemma_filler_removal_stays_common(t);
    let swaps = dictionary_swaps(dictionary);
    assert forall|k: int| 0 <= k < swaps.len() implies crate::text::all_common(
        (#[trigger] swaps[k]).with,
    ) by {
        assert(crate::text::all_common(dictionary[k].1@));
    }
    lemma_swaps_stay_common(u, swaps);
    law_spoken_names_are_gone(swapped_all(u, swaps), n);
    law_punctuating_twice(swapped_all(u, swaps));
    let ascii = ascii_dictionary_swaps(dictionary);
    assert forall|k: int| 0 <= k < ascii.len() implies crate::text::all_common(
        (#[trigger] ascii[k]).with,
    ) by {
        assert(crate::text::all_common(dictionary[k].1@));
    }
    lemma_swaps_stay_common(u, ascii);
    law_spoken_names_are_gone(swapped_all(u, ascii), n);
    law_punctuating_twice(swapped_all(u, ascii));
}

proof fn lemma_due_through_white(s: Seq<char>, j: int, i: int)
    requires
        0 <= j <= i <= s.len(),
        forall|k: int|
            j <= k < i ==> crate::text::is_white(#[trigger] s[k]) && !crate::text::is_letter(s[k]),
    ensures
        sentence_due(s.take(i)) == sentence_due(s.take(j)),
    decreases i - j,
{
    if j < i {
        lemma_due_through_white(s, j, i - 1);
        assert(s.take(i).drop_last() =~= s.take(i - 1));
        assert(s.take(i).last() == s[i - 1]);
        assert(crate::text::is_white(s[i - 1]));
    }
}

/// A letter is made a capital exactly where the last character before it that is
/// no whitespace is a full stop, an exclamation mark or a question mark, or where
/// there is none.
pub proof fn law_sentences_open_with_a_capital(s: Seq<char>, j: int, i: int)
    requires
        -1 <= j < i < s.len(),
        crate::text::is_letter(s[i]),
        j >= 0 ==> !crate::text::is_white(s[j]),
        forall|k: int|
            j < k < i ==> crate::text::is_white(#[trigger] s[k]) && !crate::text::is_letter(s[k]),
    ensures
        sentence_cased(s).len() == s.len(),
        sentence_cased(s)[i] == (if j == -1 || s[j] == '.' || s[j] == '!' || s[j] == '?' {
            crate::text::capital(s[i])
        } else {
            s[i]
        }),
{
    lemma_due_through_white(s, j + 1, i);
    if j >= 0 {
        assert(s.take(j + 1).last() == s[j]);
        assert(s.take(j + 1).drop_last() =~= s.take(j));
    }
}

/// An occurrence is the phrase in any case, with no letter and no digit right
/// before or behind it.
pub proof fn law_occurrence_is_a_whole_word(t: Seq<char>, i: int, j: int, phrase: Seq<char>)
    requires
        crate::text::all_common(t),
        0 <= i < t.len(),
        occurrence(t, i, phrase) == Some(j),
    ensures
        phrase.len() > 0,
        j == i + phrase.len(),
        j <= t.len(),
        crate::text::ascii_lowered(t.subrange(i, j)) == phrase,
        i > 0 ==> !crate::text::is_ascii_alnum(t[i - 1]),
        j < t.len() ==> !crate::text::is_ascii_alnum(t[j]),
{
    crate::phrases::lemma_spelling(t, i, phrase);
    assert forall|k: int| 0 <= k < phrase.len() implies crate::text::ascii_lowered(
        t.subrange(i, j),
    )[k] == #[trigger] phrase[k] by {
        assert(crate::text::ascii_lower(t[i + k]) == phrase[k]);
    }
    assert(crate::text::ascii_lowered(t.subrange(i, j)) =~= phrase);
}

/// None of the filler words is left as a whole word.
pub proof fn law_filler_words_are_gone(t: Seq<char>)
    requires
        crate::text::all_common(t),
    ensures
        crate::phrases::is_absent(without_filler_words(t), "um"@),
        crate::phrases::is_absent(without_filler_words(t), "uh"@),
        crate::phrases::is_absent(without_filler_words(t), "er"@),
        crate::phrases::is_absent(without_filler_words(t), "ah"@),
        crate::phrases::is_absent(without_filler_words(t), "like"@),
        crate::phrases::is_absent(without_filler_words(t), "actually"@),
        crate::phrases::is_absent(without_filler_words(t), "basically"@),
        crate::phrases::is_absent(without_filler_words(t), "literally"@),
        crate::phrases::is_absent(without_filler_words(t), "honestly"@),
        crate::phrases::is_absent(without_filler_words(t), "right"@),
{
    let list = filler_list();
    assert(!list[0].contains(' ')) by {
        reveal_strlit("um");
    }
    law_no_filler_word_is_left(t, 0);
    assert(!list[1].contains(' ')) by {
        reveal_strlit("uh");
    }
    law_no_filler_word_is_left(t, 1);
    assert(!list[2].contains(' ')) by {
        reveal_strlit("er");
    }
    law_no_filler_word_is_left(t, 2);
    assert(!list[3].contains(' ')) by {
        reveal_strlit("ah");
    }
    law_no_filler_word_is_left(t, 3);
    assert(!list[4].contains(' ')) by {
        reveal_strlit("like");
    }
    law_no_filler_word_is_left(t, 4);
    assert(!list[9].contains(' ')) by {
        reveal_strlit("actually");
    }
    law_no_filler_word_is_left(t, 9);
    assert(!list[10].contains(' ')) by {
        reveal_strlit("basically");
    }
    law_no_filler_word_is_left(t, 10);
    assert(!list[11].contains(' ')) by {
        reveal_strlit("literally");
    }
    law_no_filler_word_is_left(t, 11);
    assert(!list[12].contains(' ')) by {
        reveal_strlit("honestly");
    }
    law_no_filler_word_is_left(t, 12);
    assert(!list[14].contains(' ')) by {
        reveal_strlit("right");
    }
    law_no_filler_word_is_left(t, 14);
}

/// None of the filler phrases of two words is left where they are looked for.
pub proof fn law_filler_phrases_are_gone(t: Seq<char>)
    requires
        crate::text::all_common(t),
    ensures
        crate::phrases::is_absent(swapped_all(t, filler_swaps()), "you know"@),
        crate::phrases::is_absent(swapped_all(t, filler_swaps()), "i mean"@),
        crate::phrases::is_absent(swapped_all(t, filler_swaps()), "sort of"@),
        crate::phrases::is_absent(swapped_all(t, filler_swaps()), "kind of"@),
        crate::phrases::is_absent(swapped_all(t, filler_swaps()), "so yeah"@),
{
    let swaps = filler_swaps();
    lemma_fillers_are_clean();
    crate::phrases::lemma_all_phrases_are_gone(t, swaps);
    assert(swaps[5].phrase == "you know"@);
    assert(swaps[6].phrase == "i mean"@);
    assert(swaps[7].phrase == "sort of"@);
    assert(swaps[8].phrase == "kind of"@);
    assert(swaps[13].phrase == "so yeah"@);
}

/// A text in which no filler occurs is tidied and nothing else.
pub proof fn law_text_without_fillers_is_tidied(t: Seq<char>)
    requires
        crate::phrases::is_absent(t, "um"@),
        crate::phrases::is_absent(t, "uh"@),
        crate::phrases::is_absent(t, "er"@),
        crate::phrases::is_absent(t, "ah"@),
        crate::phrases::is_absent(t, "like"@),
        crate::phrases::is_absent(t, "you know"@),
        crate::phrases::is_absent(t, "i mean"@),
        crate::phrases::is_absent(t, "sort of"@),
        crate::phrases::is_absent(t, "kind of"@),
        crate::phrases::is_absent(t, "actually"@),
        crate::phrases::is_absent(t, "basically"@),
        crate::phrases::is_absent(t, "literally"@),
        crate::phrases::is_absent(t, "honestly"@),
        crate::phrases::is_absent(t, "so yeah"@),
        crate::phrases::is_absent(t, "right"@),
    ensures
        without_filler_words(t) == crate::text::trimmed(squeezed(t)),
{
    let swaps = filler_swaps();
    let list = filler_list();
    assert(swaps.len() == 15);
    assert forall|n: int| 0 <= n < swaps.len() implies crate::phrases::is_absent(
        t,
        (#[trigger] swaps[n]).phrase,
    ) by {
        assert(swaps[n].phrase == list[n]);
        assert(list[0] == "um"@);
        assert(list[1] == "uh"@);
        assert(list[2] == "er"@);
        assert(list[3] == "ah"@);
        assert(list[4] == "like"@);
        assert(list[5] == "you know"@);
        assert(list[6] == "i mean"@);
        assert(list[7] == "sort of"@);
        assert(list[8] == "kind of"@);
        assert(list[9] == "actually"@);
        assert(list[10] == "basically"@);
        assert(list[11] == "literally"@);
        assert(list[12] == "honestly"@);
        assert(list[13] == "so yeah"@);
        assert(list[14] == "right"@);
    }
    lemma_absent_phrases(t, swaps);
}

/// The characters that are no whitespace.
pub open spec fn without_white(s: Seq<char>) -> Seq<char> {
    s.filter(|c: char| !crate::text::is_white(c))
}

proof fn lemma_without_white_of_two(a: Seq<char>, b: Seq<char>)
    ensures
        without_white(a + b) == without_white(a) + without_white(b),
{
    Seq::filter_distributes_over_add(a, b, |c: char| !crate::text::is_white(c));
}

proof fn lemma_nothing_but_white(s: Seq<char>)
    requires
        forall|i: int| 0 <= i < s.len() ==> crate::text::is_white(#[trigger] s[i]),
    ensures
        without_white(s) == Seq::<char>::empty(),
    decreases s.len(),
{
    reveal(Seq::filter);
    if s.len() > 0 {
        let d = s.drop_last();
        assert forall|i: int| 0 <= i < d.len() implies crate::text::is_white(#[trigger] d[i]) by {
            assert(d[i] == s[i]);
        }
        lemma_nothing_but_white(d);
        assert(crate::text::is_white(s[s.len() - 1]));
    }
    assert(without_white(s) =~= Seq::<char>::empty());
}

proof fn lemma_squeezing_keeps_the_rest(s: Seq<char>)
    ensures
        without_white(squeezed(s)) == without_white(s),
    decreases s.len(),
{
    reveal(Seq::filter);
    if s.len() > 0 {
        let d = s.drop_last();
        let r = squeezed(s);
        lemma_squeezing_keeps_the_rest(d);
        if r.len() > squeezed(d).len() {
            assert(r.drop_last() =~= squeezed(d));
        }
    }
}

/// Squeezing and trimming change whitespace only: the other characters stay, all
/// of them and in their order.
pub proof fn law_tidying_keeps_the_rest(s: Seq<char>)
    ensures
        without_white(crate::text::trimmed(squeezed(s))) == without_white(s),
{
    lemma_squeezing_keeps_the_rest(s);
    let u = squeezed(s);
    let (a, b) = crate::text::lemma_trimmed_at(u);
    let before = u.take(a);
    let core = u.subrange(a, b);
    let after = u.skip(b);
    assert(u =~= before + core + after);
    assert forall|i: int| 0 <= i < before.len() implies crate::text::is_white(
        #[trigger] before[i],
    ) by {
        assert(before[i] == u[i]);
    }
    assert forall|i: int| 0 <= i < after.len() implies crate::text::is_white(#[trigger] after[i]) by {
        assert(after[i] == u[b + i]);
    }
    lemma_nothing_but_white(before);
    lemma_nothing_but_white(after);
    lemma_without_white_of_two(before, core);
    lemma_without_white_of_two(before + core, after);
    assert(without_white(u) =~= without_white(core));
}

/// A dictionary entry whose phrase occurs once is written there as it is, and the
/// rest of the text is kept.
pub proof fn law_lone_entry_is_written(
    t: Seq<char>,
    dictionary: Seq<(String, String)>,
    i: int,
    j: int,
)
    requires
        dictionary.len() == 1,
        0 <= i < t.len(),
        occurrence(t, i, crate::text::ascii_lowered(dictionary[0].0@)) == Some(j),
        forall|k: int|
            0 <= k < t.len() && k != i ==> (#[trigger] occurrence(
                t,
                k,
                crate::text::ascii_lowered(dictionary[0].0@),
            )) is None,
    ensures
        swapped_all(t, ascii_dictionary_swaps(dictionary)) == t.take(i) + dictionary[0].1@ + t.skip(
            j,
        ),
{
    let swaps = ascii_dictionary_swaps(dictionary);
    let swap = swaps[0];
    assert(swap.phrase == crate::text::ascii_lowered(dictionary[0].0@));
    lemma_scan_lone(t, i, j, swap);
    assert(swaps.drop_last() =~= Seq::<Swap>::empty());
    assert(swapped_all(t, swaps.drop_last()) == t);
    assert(swapped_all(t, swaps) == swapped(t, swap));
}

/// The entries of a dictionary are applied in turn, each to what those before it
/// have made of the text.
pub proof fn law_entries_apply_in_turn(
    t: Seq<char>,
    first: Seq<(String, String)>,
    rest: Seq<(String, String)>,
)
    ensures
        swapped_all(t, dictionary_swaps(first + rest)) == swapped_all(
            swapped_all(t, dictionary_swaps(first)),
            dictionary_swaps(rest),
        ),
    decreases rest.len(),
{
    if rest.len() == 0 {
        assert(first + rest =~= first);
    } else {
        law_entries_apply_in_turn(t, first, rest.drop_last());
        let all = dictionary_swaps(first + rest);
        assert(all.drop_last() =~= dictionary_swaps(first + rest.drop_last()));
        assert(dictionary_swaps(rest).drop_last() =~= dictionary_swaps(rest.drop_last()));
        assert(all.last() == dictionary_swaps(rest).last());
    }
}

/// An empty dictionary changes nothing.
pub proof fn law_empty_dictionary(t: Seq<char>, entries: Seq<(String, String)>)
    requires
        entries.len() == 0,
    ensures
        swapped_all(t, dictionary_swaps(entries)) == t,
{
}

/// Capitalising sentences changes letters only, and none but those that open a
/// sentence.
pub proof fn law_sentence_case_keeps_the_rest(s: Seq<char>, i: int)
    requires
        0 <= i < s.len(),
    ensures
        sentence_cased(s).len() == s.len(),
        !(crate::text::is_letter(s[i]) && sentence_due(s.take(i))) ==> sentence_cased(s)[i] == s[i],
        crate::text::is_letter(s[i]) && sentence_due(s.take(i)) ==> sentence_cased(s)[i]
            == crate::text::capital(s[i]),
{
}

} // verus!
