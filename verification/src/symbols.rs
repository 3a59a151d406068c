//! What the spoken names of symbols are written as.

use vstd::prelude::*;

verus! {

proof fn lemma_swaps_in_two(
    t: Seq<char>,
    a: Seq<crate::processing::Swap>,
    b: Seq<crate::processing::Swap>,
)
    ensures
        crate::processing::swapped_all(t, a + b) == crate::processing::swapped_all(
            crate::processing::swapped_all(t, a),
            b,
        ),
    decreases b.len(),
{
    if b.len() == 0 {
        assert(a + b =~= a);
    } else {
        lemma_swaps_in_two(t, a, b.drop_last());
        assert((a + b).drop_last() =~= a + b.drop_last());
    }
}

/// One pass after those that find nothing, and before others that find nothing.
proof fn lemma_one_pass_counts(
    t: Seq<char>,
    swaps: Seq<crate::processing::Swap>,
    n: int,
    out: Seq<char>,
)
    requires
        0 <= n < swaps.len(),
        forall|m: int|
            0 <= m < n ==> crate::phrases::is_absent(t, (#[trigger] swaps[m]).phrase),
        out == crate::processing::swapped(t, swaps[n]),
        forall|m: int|
            n < m < swaps.len() ==> crate::phrases::is_absent(out, (#[trigger] swaps[m]).phrase),
    ensures
        crate::processing::swapped_all(t, swaps) == out,
{
    let before = swaps.take(n);
    let upto = swaps.take(n + 1);
    let rest = swaps.skip(n + 1);
    assert forall|m: int| 0 <= m < before.len() implies crate::phrases::is_absent(
        t,
        (#[trigger] before[m]).phrase,
    ) by {
        assert(before[m] == swaps[m]);
    }
    crate::processing::lemma_absent_phrases(t, before);
    assert(upto.drop_last() =~= before);
    assert(crate::processing::swapped_all(t, upto) == out);
    assert forall|m: int| 0 <= m < rest.len() implies crate::phrases::is_absent(
        out,
        (#[trigger] rest[m]).phrase,
    ) by {
        assert(rest[m] == swaps[n + 1 + m]);
    }
    crate::processing::lemma_absent_phrases(out, rest);
    lemma_swaps_in_two(t, upto, rest);
    assert(upto + rest =~= swaps);
}

/// The marks . , ? ! ; : and no other symbols join the word before them.
pub proof fn law_marks_join_the_word_before(n: int)
    requires
        0 <= n < crate::processing::symbol_swaps().len(),
    ensures
        crate::processing::symbol_swaps()[n].joins <==> {
            let symbol = crate::processing::symbol_swaps()[n].with;
            symbol == "."@ || symbol == ","@ || symbol == "?"@ || symbol == "!"@ || symbol == ";"@
                || symbol == ":"@
        },
{
    let symbol = crate::processing::symbol_swaps()[n].with;
    reveal_strlit(".");
    reveal_strlit(",");
    reveal_strlit("?");
    reveal_strlit("!");
    reveal_strlit(";");
    reveal_strlit(":");
    if crate::processing::symbol_swaps()[n].joins {
        if symbol[0] == '.' {
            assert(symbol =~= "."@);
        } else if symbol[0] == ',' {
            assert(symbol =~= ","@);
        } else if symbol[0] == '?' {
            assert(symbol =~= "?"@);
        } else if symbol[0] == '!' {
            assert(symbol =~= "!"@);
        } else if symbol[0] == ';' {
            assert(symbol =~= ";"@);
        } else {
            assert(symbol =~= ":"@);
        }
    }
}

/// Where one name occurs in a text, from `i` to `j`, and no other does anywhere,
/// its symbol is written in its place. A mark joins what stands before it; the rest
/// of the text is kept but for its capitals.
pub proof fn law_lone_name_is_written(t: Seq<char>, n: int, i: int, j: int)
    requires
        crate::text::all_common(t),
        0 <= n < crate::processing::symbol_list().len(),
        0 <= i < t.len(),
        crate::processing::occurrence(t, i, crate::processing::symbol_list()[n].0) == Some(j),
        forall|m: int, k: int|
            0 <= m < crate::processing::symbol_list().len() && 0 <= k < t.len() && (m != n || k
                != i) ==> (#[trigger] crate::processing::occurrence(
                t,
                k,
                crate::processing::symbol_list()[m].0,
            )) is None,
    ensures
        crate::processing::punctuated(t) == crate::processing::sentence_cased(
            (if crate::processing::symbol_swaps()[n].joins {
                crate::processing::without_end_spaces(t.take(i))
            } else {
                t.take(i)
            }) + crate::processing::symbol_list()[n].1 + t.skip(j),
        ),
{
    let list = crate::processing::symbol_list();
    let swaps = crate::processing::symbol_swaps();
    crate::processing::lemma_symbols_are_clean();
    assert(crate::phrases::is_clean(swaps[n]));
    assert forall|k: int| 0 <= k < t.len() && k != i implies (
    #[trigger] crate::processing::occurrence(t, k, swaps[n].phrase)) is None by {
        assert(crate::processing::occurrence(t, k, list[n].0) is None);
    }
    crate::processing::lemma_scan_lone(t, i, j, swaps[n]);
    let out = crate::processing::swapped(t, swaps[n]);
    crate::phrases::lemma_phrase_is_gone(t, swaps[n]);
    assert forall|m: int| 0 <= m < swaps.len() && m != n implies crate::phrases::is_absent(
        t,
        (#[trigger] swaps[m]).phrase,
    ) by {
        assert(crate::phrases::is_clean(swaps[m]));
        assert forall|k: int| 0 <= k < t.len() implies (#[trigger] crate::processing::occurrence(
            t,
            k,
            swaps[m].phrase,
        )) is None by {
            assert(crate::processing::occurrence(t, k, list[m].0) is None);
        }
    }
    assert forall|m: int| n < m < swaps.len() implies crate::phrases::is_absent(
        out,
        (#[trigger] swaps[m]).phrase,
    ) by {
        assert(crate::phrases::is_clean(swaps[m]));
        assert(crate::phrases::is_absent(t, swaps[m].phrase));
    }
    lemma_one_pass_counts(t, swaps, n, out);
    assert(swaps[n].with == list[n].1);
}

/// A name by itself, in which no earlier name of the table occurs, becomes its
/// symbol.
proof fn lemma_name_alone(n: int)
    requires
        0 <= n < crate::processing::symbol_list().len(),
        forall|m: int|
            0 <= m < n ==> crate::phrases::is_absent(
                crate::processing::symbol_list()[n].0,
                (#[trigger] crate::processing::symbol_list()[m]).0,
            ),
    ensures
        crate::processing::punctuated(crate::processing::symbol_list()[n].0)
            == crate::processing::symbol_list()[n].1,
{
    let list = crate::processing::symbol_list();
    let swaps = crate::processing::symbol_swaps();
    let t = list[n].0;
    let symbol = list[n].1;
    crate::processing::lemma_symbols_are_clean();
    assert(crate::phrases::is_clean(swaps[n]));
    assert(crate::text::all_common(t));
    crate::phrases::lemma_reads_itself(t);
    assert forall|k: int| 0 <= k < t.len() && k != 0 implies (
    #[trigger] crate::processing::occurrence(t, k, swaps[n].phrase)) is None by {
        crate::phrases::lemma_too_short(t, k, t);
    }
    crate::processing::lemma_scan_lone(t, 0, t.len() as int, swaps[n]);
    let out = crate::processing::swapped(t, swaps[n]);
    assert(t.take(0) =~= Seq::<char>::empty());
    assert(out =~= symbol);
    assert forall|m: int| 0 <= m < n implies crate::phrases::is_absent(
        t,
        (#[trigger] swaps[m]).phrase,
    ) by {
        assert(crate::phrases::is_clean(swaps[m]));
        assert(crate::phrases::is_absent(t, list[m].0));
    }
    assert forall|m: int| n < m < swaps.len() implies crate::phrases::is_absent(
        out,
        (#[trigger] swaps[m]).phrase,
    ) by {
        assert(crate::phrases::is_clean(swaps[m]));
        crate::phrases::lemma_absent_from_seams(out, swaps[m].phrase);
    }
    lemma_one_pass_counts(t, swaps, n, out);
    assert(crate::processing::sentence_cased(symbol) =~= symbol) by {
        assert forall|k: int| 0 <= k < symbol.len() implies crate::processing::sentence_cased(
            symbol,
        )[k] == #[trigger] symbol[k] by {
            assert(crate::phrases::is_seam(symbol[k]));
        }
    }
}

/// A text has `n` characters, of which the first is `a` and the last two are `y`
/// and `z`. No two names are alike in all of these.
spec fn is_like(q: Seq<char>, n: int, a: char, y: char, z: char) -> bool {
    q.len() == n && q[0] == a && q[n - 2] == y && q[n - 1] == z
}

/// The place of a name in the table.
spec fn place(q: Seq<char>) -> int {
    if is_like(q, 6, 'p', 'o', 'd') {
        0
    } else if is_like(q, 3, 'd', 'o', 't') {
        1
    } else if is_like(q, 5, 'p', 'n', 't') {
        2
    } else if is_like(q, 7, 'd', 'a', 'l') {
        3
    } else if is_like(q, 5, 'c', 'm', 'a') {
        4
    } else if is_like(q, 13, 'q', 'r', 'k') {
        5
    } else if is_like(q, 16, 'e', 'r', 'k') {
        6
    } else if is_like(q, 17, 'e', 'n', 't') {
        7
    } else if is_like(q, 9, 's', 'o', 'n') {
        8
    } else if is_like(q, 5, 'c', 'o', 'n') {
        9
    } else if is_like(q, 8, 'n', 'n', 'e') {
        10
    } else if is_like(q, 7, 'n', 'n', 'e') {
        11
    } else if is_like(q, 13, 'n', 'p', 'h') {
        12
    } else if is_like(q, 10, 'o', 'e', 'n') {
        13
    } else if is_like(q, 16, 'o', 'i', 's') {
        14
    } else if is_like(q, 11, 'c', 'e', 'n') {
        15
    } else if is_like(q, 17, 'c', 'i', 's') {
        16
    } else if is_like(q, 12, 'o', 'e', 't') {
        17
    } else if is_like(q, 13, 'c', 'e', 't') {
        18
    } else if is_like(q, 10, 'o', 'c', 'e') {
        19
    } else if is_like(q, 11, 'c', 'c', 'e') {
        20
    } else if is_like(q, 4, 'd', 's', 'h') {
        21
    } else if is_like(q, 6, 'h', 'e', 'n') {
        22
    } else if is_like(q, 10, 'u', 'r', 'e') {
        23
    } else if is_like(q, 4, 's', 'a', 'r') {
        24
    } else if is_like(q, 8, 'a', 's', 'k') {
        25
    } else if is_like(q, 9, 'a', 'n', 'd') {
        26
    } else if is_like(q, 7, 'a', 'g', 'n') {
        27
    } else if is_like(q, 7, 'p', 'n', 't') {
        28
    } else if is_like(q, 11, 'd', 'g', 'n') {
        29
    } else if is_like(q, 4, 'e', 'r', 'o') {
        30
    } else if is_like(q, 5, 'p', 'n', 'd') {
        31
    } else if is_like(q, 3, 'y', 'e', 'n') {
        32
    } else if is_like(q, 4, 'h', 's', 'h') {
        33
    } else if is_like(q, 7, 'h', 'a', 'g') {
        34
    } else if is_like(q, 5, 's', 's', 'h') {
        35
    } else if is_like(q, 9, 'b', 's', 'h') {
        36
    } else if is_like(q, 5, 'q', 't', 'e') {
        37
    } else if is_like(q, 10, 'o', 't', 'e') {
        38
    } else if is_like(q, 11, 'c', 't', 'e') {
        39
    } else if is_like(q, 12, 's', 't', 'e') {
        40
    } else if is_like(q, 10, 'a', 'h', 'e') {
        41
    } else if is_like(q, 5, 't', 'd', 'e') {
        42
    } else if is_like(q, 5, 'c', 'e', 't') {
        43
    } else if is_like(q, 4, 'p', 'p', 'e') {
        44
    } else if is_like(q, 9, 'l', 'a', 'n') {
        45
    } else if is_like(q, 12, 'g', 'a', 'n') {
        46
    } else if is_like(q, 6, 'e', 'l', 's') {
        47
    } else if is_like(q, 4, 'p', 'u', 's') {
        48
    } else if is_like(q, 5, 'm', 'u', 's') {
        49
    } else if is_like(q, 11, 'm', 'b', 'y') {
        50
    } else if is_like(q, 9, 'd', 'b', 'y') {
        51
    } else if is_like(q, 7, 's', 'o', 'n') {
        52
    } else if is_like(q, 9, 'p', 'p', 'h') {
        53
    } else if is_like(q, 6, 'b', 'e', 't') {
        54
    } else {
        55
    }
}

proof fn lemma_places_1()
    ensures
        forall|n: int|
            0 <= n < 11 ==> place((#[trigger] crate::processing::symbol_list()[n]).0) == n,
{
    let list = crate::processing::symbol_list();
    reveal_strlit("period");
    reveal_strlit("dot");
    reveal_strlit("point");
    reveal_strlit("decimal");
    reveal_strlit("comma");
    reveal_strlit("question mark");
    reveal_strlit("exclamation mark");
    reveal_strlit("exclamation point");
    reveal_strlit("semicolon");
    reveal_strlit("colon");
    reveal_strlit("new line");
    assert(place(list[0].0) == 0);
    assert(place(list[1].0) == 1);
    assert(place(list[2].0) == 2);
    assert(place(list[3].0) == 3);
    assert(place(list[4].0) == 4);
    assert(place(list[5].0) == 5);
    assert(place(list[6].0) == 6);
    assert(place(list[7].0) == 7);
    assert(place(list[8].0) == 8);
    assert(place(list[9].0) == 9);
    assert(place(list[10].0) == 10);
}

proof fn lemma_places_2()
    ensures
        forall|n: int|
            11 <= n < 22 ==> place((#[trigger] crate::processing::symbol_list()[n]).0) == n,
{
    let list = crate::processing::symbol_list();
    reveal_strlit("newline");
    reveal_strlit("new paragraph");
    reveal_strlit("open paren");
    reveal_strlit("open parenthesis");
    reveal_strlit("close paren");
    reveal_strlit("close parenthesis");
    reveal_strlit("open bracket");
    reveal_strlit("close bracket");
    reveal_strlit("open brace");
    reveal_strlit("close brace");
    reveal_strlit("dash");
    assert(place(list[11].0) == 11);
    assert(place(list[12].0) == 12);
    assert(place(list[13].0) == 13);
    assert(place(list[14].0) == 14);
    assert(place(list[15].0) == 15);
    assert(place(list[16].0) == 16);
    assert(place(list[17].0) == 17);
    assert(place(list[18].0) == 18);
    assert(place(list[19].0) == 19);
    assert(place(list[20].0) == 20);
    assert(place(list[21].0) == 21);
}

proof fn lemma_places_3()
    ensures
        forall|n: int|
            22 <= n < 33 ==> place((#[trigger] crate::processing::symbol_list()[n]).0) == n,
{
    let list = crate::processing::symbol_list();
    reveal_strlit("hyphen");
    reveal_strlit("underscore");
    reveal_strlit("star");
    reveal_strlit("asterisk");
    reveal_strlit("ampersand");
    reveal_strlit("at sign");
    reveal_strlit("percent");
    reveal_strlit("dollar sign");
    reveal_strlit("euro");
    reveal_strlit("pound");
    reveal_strlit("yen");
    assert(place(list[22].0) == 22);
    assert(place(list[23].0) == 23);
    assert(place(list[24].0) == 24);
    assert(place(list[25].0) == 25);
    assert(place(list[26].0) == 26);
    assert(place(list[27].0) == 27);
    assert(place(list[28].0) == 28);
    assert(place(list[29].0) == 29);
    assert(place(list[30].0) == 30);
    assert(place(list[31].0) == 31);
    assert(place(list[32].0) == 32);
}

proof fn lemma_places_4()
    ensures
        forall|n: int|
            33 <= n < 44 ==> place((#[trigger] crate::processing::symbol_list()[n]).0) == n,
{
    let list = crate::processing::symbol_list();
    reveal_strlit("hash");
    reveal_strlit("hashtag");
    reveal_strlit("slash");
    reveal_strlit("backslash");
    reveal_strlit("quote");
    reveal_strlit("open quote");
    reveal_strlit("close quote");
    reveal_strlit("single quote");
    reveal_strlit("apostrophe");
    reveal_strlit("tilde");
    reveal_strlit("caret");
    assert(place(list[33].0) == 33);
    assert(place(list[34].0) == 34);
    assert(place(list[35].0) == 35);
    assert(place(list[36].0) == 36);
    assert(place(list[37].0) == 37);
    assert(place(list[38].0) == 38);
    assert(place(list[39].0) == 39);
    assert(place(list[40].0) == 40);
    assert(place(list[41].0) == 41);
    assert(place(list[42].0) == 42);
    assert(place(list[43].0) == 43);
}

proof fn lemma_places_5()
    ensures
        forall|n: int|
            44 <= n < 55 ==> place((#[trigger] crate::processing::symbol_list()[n]).0) == n,
{
    let list = crate::processing::symbol_list();
    reveal_strlit("pipe");
    reveal_strlit("less than");
    reveal_strlit("greater than");
    reveal_strlit("equals");
    reveal_strlit("plus");
    reveal_strlit("minus");
    reveal_strlit("multiply by");
    reveal_strlit("divide by");
    reveal_strlit("section");
    reveal_strlit("paragraph");
    reveal_strlit("bullet");
    assert(place(list[44].0) == 44);
    assert(place(list[45].0) == 45);
    assert(place(list[46].0) == 46);
    assert(place(list[47].0) == 47);
    assert(place(list[48].0) == 48);
    assert(place(list[49].0) == 49);
    assert(place(list[50].0) == 50);
    assert(place(list[51].0) == 51);
    assert(place(list[52].0) == 52);
    assert(place(list[53].0) == 53);
    assert(place(list[54].0) == 54);
}

/// No two names are the same.
proof fn lemma_places()
    ensures
        forall|n: int|
            0 <= n < crate::processing::symbol_list().len() ==> place(
                (#[trigger] crate::processing::symbol_list()[n]).0,
            ) == n,
{
    lemma_places_1();
    lemma_places_2();
    lemma_places_3();
    lemma_places_4();
    lemma_places_5();
}

proof fn lemma_word_alone(n: int)
    requires
        0 <= n < crate::processing::symbol_list().len(),
        crate::phrases::is_one_word(crate::processing::symbol_list()[n].0),
    ensures
        crate::processing::punctuated(crate::processing::symbol_list()[n].0)
            == crate::processing::symbol_list()[n].1,
{
    let list = crate::processing::symbol_list();
    lemma_places();
    crate::processing::lemma_symbols_are_clean();
    assert forall|m: int| 0 <= m < n implies crate::phrases::is_absent(
        list[n].0,
        (#[trigger] list[m]).0,
    ) by {
        assert(crate::phrases::is_clean(crate::processing::symbol_swaps()[m]));
        assert(place(list[m].0) != place(list[n].0));
        crate::phrases::lemma_absent_from_word(list[n].0, list[m].0);
    }
    lemma_name_alone(n);
}

proof fn lemma_pair_alone(n: int, first: Seq<char>, second: Seq<char>)
    requires
        0 <= n < crate::processing::symbol_list().len(),
        crate::processing::symbol_list()[n].0 == first + seq![' '] + second,
        crate::phrases::is_one_word(first),
        crate::phrases::is_one_word(second),
        place(first) > n,
        place(second) > n,
    ensures
        crate::processing::punctuated(crate::processing::symbol_list()[n].0)
            == crate::processing::symbol_list()[n].1,
{
    let list = crate::processing::symbol_list();
    lemma_places();
    crate::processing::lemma_symbols_are_clean();
    assert forall|m: int| 0 <= m < n implies crate::phrases::is_absent(
        list[n].0,
        (#[trigger] list[m]).0,
    ) by {
        assert(crate::phrases::is_clean(crate::processing::symbol_swaps()[m]));
        assert(place(list[m].0) == m);
        assert(place(list[n].0) == n);
        crate::phrases::lemma_absent_from_pair(first, second, list[m].0);
    }
    lemma_name_alone(n);
}

proof fn lemma_words_1()
    ensures
        crate::phrases::is_one_word("at"@),
        place("at"@) == 55,
        crate::phrases::is_one_word("brace"@),
        place("brace"@) == 55,
        crate::phrases::is_one_word("bracket"@),
        place("bracket"@) == 55,
        crate::phrases::is_one_word("by"@),
        place("by"@) == 55,
        crate::phrases::is_one_word("close"@),
        place("close"@) == 55,
        crate::phrases::is_one_word("divide"@),
        place("divide"@) == 55,
        crate::phrases::is_one_word("dollar"@),
        place("dollar"@) == 55,
        crate::phrases::is_one_word("exclamation"@),
        place("exclamation"@) == 55,
{
    reveal_strlit("at");
    reveal_strlit("brace");
    reveal_strlit("bracket");
    reveal_strlit("by");
    reveal_strlit("close");
    reveal_strlit("divide");
    reveal_strlit("dollar");
    reveal_strlit("exclamation");
    assert(crate::phrases::is_one_word("at"@));
    assert(place("at"@) == 55);
    assert(crate::phrases::is_one_word("brace"@));
    assert(place("brace"@) == 55);
    assert(crate::phrases::is_one_word("bracket"@));
    assert(place("bracket"@) == 55);
    assert(crate::phrases::is_one_word("by"@));
    assert(place("by"@) == 55);
    assert(crate::phrases::is_one_word("close"@));
    assert(place("close"@) == 55);
    assert(crate::phrases::is_one_word("divide"@));
    assert(place("divide"@) == 55);
    assert(crate::phrases::is_one_word("dollar"@));
    assert(place("dollar"@) == 55);
    assert(crate::phrases::is_one_word("exclamation"@));
    assert(place("exclamation"@) == 55);
}

proof fn lemma_words_2()
    ensures
        crate::phrases::is_one_word("greater"@),
        place("greater"@) == 55,
        crate::phrases::is_one_word("less"@),
        place("less"@) == 55,
        crate::phrases::is_one_word("line"@),
        place("line"@) == 55,
        crate::phrases::is_one_word("mark"@),
        place("mark"@) == 55,
        crate::phrases::is_one_word("multiply"@),
        place("multiply"@) == 55,
        crate::phrases::is_one_word("new"@),
        place("new"@) == 55,
        crate::phrases::is_one_word("open"@),
        place("open"@) == 55,
        crate::phrases::is_one_word("paragraph"@),
        place("paragraph"@) == 53,
{
    reveal_strlit("paragraph");
    reveal_strlit("greater");
    reveal_strlit("less");
    reveal_strlit("line");
    reveal_strlit("mark");
    reveal_strlit("multiply");
    reveal_strlit("new");
    reveal_strlit("open");
    assert(crate::phrases::is_one_word("greater"@));
    assert(place("greater"@) == 55);
    assert(crate::phrases::is_one_word("less"@));
    assert(place("less"@) == 55);
    assert(crate::phrases::is_one_word("line"@));
    assert(place("line"@) == 55);
    assert(crate::phrases::is_one_word("mark"@));
    assert(place("mark"@) == 55);
    assert(crate::phrases::is_one_word("multiply"@));
    assert(place("multiply"@) == 55);
    assert(crate::phrases::is_one_word("new"@));
    assert(place("new"@) == 55);
    assert(crate::phrases::is_one_word("open"@));
    assert(place("open"@) == 55);
    assert(crate::phrases::is_one_word("paragraph"@));
    assert(place("paragraph"@) == 53);
}

proof fn lemma_words_3()
    ensures
        crate::phrases::is_one_word("paren"@),
        place("paren"@) == 55,
        crate::phrases::is_one_word("parenthesis"@),
        place("parenthesis"@) == 55,
        crate::phrases::is_one_word("question"@),
        place("question"@) == 55,
        crate::phrases::is_one_word("sign"@),
        place("sign"@) == 55,
        crate::phrases::is_one_word("than"@),
        place("than"@) == 55,
{
    reveal_strlit("paren");
    reveal_strlit("parenthesis");
    reveal_strlit("question");
    reveal_strlit("sign");
    reveal_strlit("than");
    assert(crate::phrases::is_one_word("paren"@));
    assert(place("paren"@) == 55);
    assert(crate::phrases::is_one_word("parenthesis"@));
    assert(place("parenthesis"@) == 55);
    assert(crate::phrases::is_one_word("question"@));
    assert(place("question"@) == 55);
    assert(crate::phrases::is_one_word("sign"@));
    assert(place("sign"@) == 55);
    assert(crate::phrases::is_one_word("than"@));
    assert(place("than"@) == 55);
}

/// The marks . , ? ! ; : are written for their names.
pub proof fn law_names_of_marks()
    ensures
        crate::processing::punctuated("period"@) == "."@,
        crate::processing::punctuated("dot"@) == "."@,
        crate::processing::punctuated("point"@) == "."@,
        crate::processing::punctuated("decimal"@) == "."@,
        crate::processing::punctuated("comma"@) == ","@,
        crate::processing::punctuated("question mark"@) == "?"@,
        crate::processing::punctuated("exclamation mark"@) == "!"@,
        crate::processing::punctuated("semicolon"@) == ";"@,
        crate::processing::punctuated("colon"@) == ":"@,
{
    let list = crate::processing::symbol_list();
    lemma_words_1();
    lemma_words_2();
    lemma_words_3();
    assert(crate::phrases::is_one_word(list[0].0)) by {
        reveal_strlit("period");
    }
    lemma_word_alone(0);
    assert(crate::phrases::is_one_word(list[1].0)) by {
        reveal_strlit("dot");
    }
    lemma_word_alone(1);
    assert(crate::phrases::is_one_word(list[2].0)) by {
        reveal_strlit("point");
    }
    lemma_word_alone(2);
    assert(crate::phrases::is_one_word(list[3].0)) by {
        reveal_strlit("decimal");
    }
    lemma_word_alone(3);
    assert(crate::phrases::is_one_word(list[4].0)) by {
        reveal_strlit("comma");
    }
    lemma_word_alone(4);
    assert("question mark"@ =~= "question"@ + seq![' '] + "mark"@) by {
        reveal_strlit("question mark");
        reveal_strlit("question");
        reveal_strlit("mark");
    }
    lemma_pair_alone(5, "question"@, "mark"@);
    assert("exclamation mark"@ =~= "exclamation"@ + seq![' '] + "mark"@) by {
        reveal_strlit("exclamation mark");
        reveal_strlit("exclamation");
        reveal_strlit("mark");
    }
    lemma_pair_alone(6, "exclamation"@, "mark"@);
    assert(crate::phrases::is_one_word(list[8].0)) by {
        reveal_strlit("semicolon");
    }
    lemma_word_alone(8);
    assert(crate::phrases::is_one_word(list[9].0)) by {
        reveal_strlit("colon");
    }
    lemma_word_alone(9);
}

/// Breaks are written for their names.
pub proof fn law_names_of_breaks()
    ensures
        crate::processing::punctuated("new line"@) == "\n"@,
        crate::processing::punctuated("newline"@) == "\n"@,
        crate::processing::punctuated("new paragraph"@) == "\n\n"@,
{
    let list = crate::processing::symbol_list();
    lemma_words_2();
    assert("new line"@ =~= "new"@ + seq![' '] + "line"@) by {
        reveal_strlit("new line");
        reveal_strlit("new");
        reveal_strlit("line");
    }
    lemma_pair_alone(10, "new"@, "line"@);
    assert(crate::phrases::is_one_word(list[11].0)) by {
        reveal_strlit("newline");
    }
    lemma_word_alone(11);
    assert("new paragraph"@ =~= "new"@ + seq![' '] + "paragraph"@) by {
        reveal_strlit("new paragraph");
        reveal_strlit("new");
        reveal_strlit("paragraph");
    }
    lemma_pair_alone(12, "new"@, "paragraph"@);
}

/// Brackets are written for their names.
pub proof fn law_names_of_brackets()
    ensures
        crate::processing::punctuated("open paren"@) == "("@,
        crate::processing::punctuated("open parenthesis"@) == "("@,
        crate::processing::punctuated("close paren"@) == ")"@,
        crate::processing::punctuated("close parenthesis"@) == ")"@,
        crate::processing::punctuated("open bracket"@) == "["@,
        crate::processing::punctuated("close bracket"@) == "]"@,
        crate::processing::punctuated("open brace"@) == "{"@,
        crate::processing::punctuated("close brace"@) == "}"@,
{
    let list = crate::processing::symbol_list();
    lemma_words_1();
    lemma_words_2();
    lemma_words_3();
    assert("open paren"@ =~= "open"@ + seq![' '] + "paren"@) by {
        reveal_strlit("open paren");
        reveal_strlit("open");
        reveal_strlit("paren");
    }
    lemma_pair_alone(13, "open"@, "paren"@);
    assert("open parenthesis"@ =~= "open"@ + seq![' '] + "parenthesis"@) by {
        reveal_strlit("open parenthesis");
        reveal_strlit("open");
        reveal_strlit("parenthesis");
    }
    lemma_pair_alone(14, "open"@, "parenthesis"@);
    assert("close paren"@ =~= "close"@ + seq![' '] + "paren"@) by {
        reveal_strlit("close paren");
        reveal_strlit("close");
        reveal_strlit("paren");
    }
    lemma_pair_alone(15, "close"@, "paren"@);
    assert("close parenthesis"@ =~= "close"@ + seq![' '] + "parenthesis"@) by {
        reveal_strlit("close parenthesis");
        reveal_strlit("close");
        reveal_strlit("parenthesis");
    }
    lemma_pair_alone(16, "close"@, "parenthesis"@);
    assert("open bracket"@ =~= "open"@ + seq![' '] + "bracket"@) by {
        reveal_strlit("open bracket");
        reveal_strlit("open");
        reveal_strlit("bracket");
    }
    lemma_pair_alone(17, "open"@, "bracket"@);
    assert("close bracket"@ =~= "close"@ + seq![' '] + "bracket"@) by {
        reveal_strlit("close bracket");
        reveal_strlit("close");
        reveal_strlit("bracket");
    }
    lemma_pair_alone(18, "close"@, "bracket"@);
    assert("open brace"@ =~= "open"@ + seq![' '] + "brace"@) by {
        reveal_strlit("open brace");
        reveal_strlit("open");
        reveal_strlit("brace");
    }
    lemma_pair_alone(19, "open"@, "brace"@);
    assert("close brace"@ =~= "close"@ + seq![' '] + "brace"@) by {
        reveal_strlit("close brace");
        reveal_strlit("close");
        reveal_strlit("brace");
    }
    lemma_pair_alone(20, "close"@, "brace"@);
}

/// Strokes, stars and other signs of writing are written for their names.
pub proof fn law_names_of_strokes()
    ensures
        crate::processing::punctuated("dash"@) == "-"@,
        crate::processing::punctuated("hyphen"@) == "-"@,
        crate::processing::punctuated("underscore"@) == "_"@,
        crate::processing::punctuated("star"@) == "*"@,
        crate::processing::punctuated("asterisk"@) == "*"@,
        crate::processing::punctuated("ampersand"@) == "&"@,
        crate::processing::punctuated("at sign"@) == "@"@,
        crate::processing::punctuated("hash"@) == "#"@,
        crate::processing::punctuated("hashtag"@) == "#"@,
        crate::processing::punctuated("slash"@) == "/"@,
        crate::processing::punctuated("backslash"@) == "\\"@,
        crate::processing::punctuated("tilde"@) == "~"@,
        crate::processing::punctuated("caret"@) == "^"@,
        crate::processing::punctuated("pipe"@) == "|"@,
{
    let list = crate::processing::symbol_list();
    lemma_words_1();
    lemma_words_3();
    assert(crate::phrases::is_one_word(list[21].0)) by {
        reveal_strlit("dash");
    }
    lemma_word_alone(21);
    assert(crate::phrases::is_one_word(list[22].0)) by {
        reveal_strlit("hyphen");
    }
    lemma_word_alone(22);
    assert(crate::phrases::is_one_word(list[23].0)) by {
        reveal_strlit("underscore");
    }
    lemma_word_alone(23);
    assert(crate::phrases::is_one_word(list[24].0)) by {
        reveal_strlit("star");
    }
    lemma_word_alone(24);
    assert(crate::phrases::is_one_word(list[25].0)) by {
        reveal_strlit("asterisk");
    }
    lemma_word_alone(25);
    assert(crate::phrases::is_one_word(list[26].0)) by {
        reveal_strlit("ampersand");
    }
    lemma_word_alone(26);
    assert("at sign"@ =~= "at"@ + seq![' '] + "sign"@) by {
        reveal_strlit("at sign");
        reveal_strlit("at");
        reveal_strlit("sign");
    }
    lemma_pair_alone(27, "at"@, "sign"@);
    assert(crate::phrases::is_one_word(list[33].0)) by {
        reveal_strlit("hash");
    }
    lemma_word_alone(33);
    assert(crate::phrases::is_one_word(list[34].0)) by {
        reveal_strlit("hashtag");
    }
    lemma_word_alone(34);
    assert(crate::phrases::is_one_word(list[35].0)) by {
        reveal_strlit("slash");
    }
    lemma_word_alone(35);
    assert(crate::phrases::is_one_word(list[36].0)) by {
        reveal_strlit("backslash");
    }
    lemma_word_alone(36);
    assert(crate::phrases::is_one_word(list[42].0)) by {
        reveal_strlit("tilde");
    }
    lemma_word_alone(42);
    assert(crate::phrases::is_one_word(list[43].0)) by {
        reveal_strlit("caret");
    }
    lemma_word_alone(43);
    assert(crate::phrases::is_one_word(list[44].0)) by {
        reveal_strlit("pipe");
    }
    lemma_word_alone(44);
}

/// Quotes are written for their names.
pub proof fn law_names_of_quotes()
    ensures
        crate::processing::punctuated("quote"@) == "\""@,
        crate::processing::punctuated("apostrophe"@) == "'"@,
{
    let list = crate::processing::symbol_list();
    assert(crate::phrases::is_one_word(list[37].0)) by {
        reveal_strlit("quote");
    }
    lemma_word_alone(37);
    assert(crate::phrases::is_one_word(list[41].0)) by {
        reveal_strlit("apostrophe");
    }
    lemma_word_alone(41);
}

/// Amounts and currencies are written for their names.
pub proof fn law_names_of_amounts()
    ensures
        crate::processing::punctuated("percent"@) == "%"@,
        crate::processing::punctuated("dollar sign"@) == "$"@,
        crate::processing::punctuated("euro"@) == "€"@,
        crate::processing::punctuated("pound"@) == "£"@,
        crate::processing::punctuated("yen"@) == "¥"@,
{
    let list = crate::processing::symbol_list();
    lemma_words_1();
    lemma_words_3();
    assert(crate::phrases::is_one_word(list[28].0)) by {
        reveal_strlit("percent");
    }
    lemma_word_alone(28);
    assert("dollar sign"@ =~= "dollar"@ + seq![' '] + "sign"@) by {
        reveal_strlit("dollar sign");
        reveal_strlit("dollar");
        reveal_strlit("sign");
    }
    lemma_pair_alone(29, "dollar"@, "sign"@);
    assert(crate::phrases::is_one_word(list[30].0)) by {
        reveal_strlit("euro");
    }
    lemma_word_alone(30);
    assert(crate::phrases::is_one_word(list[31].0)) by {
        reveal_strlit("pound");
    }
    lemma_word_alone(31);
    assert(crate::phrases::is_one_word(list[32].0)) by {
        reveal_strlit("yen");
    }
    lemma_word_alone(32);
}

/// Signs of arithmetic are written for their names.
pub proof fn law_names_of_arithmetic()
    ensures
        crate::processing::punctuated("less than"@) == "<"@,
        crate::processing::punctuated("greater than"@) == ">"@,
        crate::processing::punctuated("equals"@) == "="@,
        crate::processing::punctuated("plus"@) == "+"@,
        crate::processing::punctuated("minus"@) == "-"@,
        crate::processing::punctuated("multiply by"@) == "×"@,
        crate::processing::punctuated("divide by"@) == "÷"@,
{
    let list = crate::processing::symbol_list();
    lemma_words_1();
    lemma_words_2();
    lemma_words_3();
    assert("less than"@ =~= "less"@ + seq![' '] + "than"@) by {
        reveal_strlit("less than");
        reveal_strlit("less");
        reveal_strlit("than");
    }
    lemma_pair_alone(45, "less"@, "than"@);
    assert("greater than"@ =~= "greater"@ + seq![' '] + "than"@) by {
        reveal_strlit("greater than");
        reveal_strlit("greater");
        reveal_strlit("than");
    }
    lemma_pair_alone(46, "greater"@, "than"@);
    assert(crate::phrases::is_one_word(list[47].0)) by {
        reveal_strlit("equals");
    }
    lemma_word_alone(47);
    assert(crate::phrases::is_one_word(list[48].0)) by {
        reveal_strlit("plus");
    }
    lemma_word_alone(48);
    assert(crate::phrases::is_one_word(list[49].0)) by {
        reveal_strlit("minus");
    }
    lemma_word_alone(49);
    assert("multiply by"@ =~= "multiply"@ + seq![' '] + "by"@) by {
        reveal_strlit("multiply by");
        reveal_strlit("multiply");
        reveal_strlit("by");
    }
    lemma_pair_alone(50, "multiply"@, "by"@);
    assert("divide by"@ =~= "divide"@ + seq![' '] + "by"@) by {
        reveal_strlit("divide by");
        reveal_strlit("divide");
        reveal_strlit("by");
    }
    lemma_pair_alone(51, "divide"@, "by"@);
}

/// Signs of layout are written for their names.
pub proof fn law_names_of_layout()
    ensures
        crate::processing::punctuated("section"@) == "§"@,
        crate::processing::punctuated("paragraph"@) == "¶"@,
        crate::processing::punctuated("bullet"@) == "•"@,
{
    let list = crate::processing::symbol_list();
    assert(crate::phrases::is_one_word(list[52].0)) by {
        reveal_strlit("section");
    }
    lemma_word_alone(52);
    assert(crate::phrases::is_one_word(list[53].0)) by {
        reveal_strlit("paragraph");
    }
    lemma_word_alone(53);
    assert(crate::phrases::is_one_word(list[54].0)) by {
        reveal_strlit("bullet");
    }
    lemma_word_alone(54);
}

/// The table has no other names than these: the four below, of which a part is a
/// name of its own, and those that are written as their symbols when they stand
/// alone.
pub proof fn law_table_of_names()
    ensures
        crate::processing::symbol_list().len() == 55,
        crate::processing::symbol_list().contains(("exclamation point"@, "!"@)),
        crate::processing::symbol_list().contains(("open quote"@, "\""@)),
        crate::processing::symbol_list().contains(("close quote"@, "\""@)),
        crate::processing::symbol_list().contains(("single quote"@, "'"@)),
{
    let list = crate::processing::symbol_list();
    assert(list[7] == ("exclamation point"@, "!"@));
    assert(list[38] == ("open quote"@, "\""@));
    assert(list[39] == ("close quote"@, "\""@));
    assert(list[40] == ("single quote"@, "'"@));
}

} // verus!
