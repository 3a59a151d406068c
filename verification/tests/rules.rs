use fluidity::pattern::{matched_texts, replace_all, replace_spans, BLANK_RUN};
use fluidity::rules::{
    apply_rules, delete_rule, glossary, rewrite_spans, save_rule, Rule, GLOSSARY_LIMIT,
};

fn rule(id: u64, kind: &str, from: &str, to: &str, enabled: bool) -> Rule {
    Rule { id, kind: kind.into(), from: from.into(), to: to.into(), enabled }
}

fn ids(rules: &[Rule]) -> Vec<u64> {
    rules.iter().map(|r| r.id).collect()
}

#[test]
fn longest_match_wins() {
    let rules = [
        rule(1, "snippet", "linkedin", "https://li.example", true),
        rule(2, "snippet", "my linkedin", "https://me.example", true),
    ];
    assert_eq!(
        apply_rules("send it to my linkedin please", &rules),
        "send it to https://me.example please"
    );
    assert_eq!(apply_rules("check linkedin", &rules), "check https://li.example");
}

#[test]
fn case_insensitive_replacement_verbatim() {
    let rules = [rule(1, "word", "get hub", "GitHub", true)];
    assert_eq!(apply_rules("push it to Get Hub", &rules), "push it to GitHub");
}

#[test]
fn punctuation_adjacency_still_matches() {
    let rules = [rule(1, "snippet", "my linkedin", "https://me.example", true)];
    assert_eq!(
        apply_rules("Sent. Check my linkedin.", &rules),
        "Sent. Check https://me.example."
    );
}

#[test]
fn disabled_and_empty_rules_skipped() {
    let rules = [
        rule(1, "word", "foo", "bar", false),
        rule(2, "word", "   ", "x", true),
    ];
    assert_eq!(apply_rules("foo baz", &rules), "foo baz");
}

#[test]
fn no_rules_passthrough() {
    assert_eq!(apply_rules("untouched", &[]), "untouched");
}

#[test]
fn every_occurrence_replaced() {
    let rules = [rule(1, "word", "kubernetes", "K8s", true)];
    assert_eq!(apply_rules("kubernetes on Kubernetes", &rules), "K8s on K8s");
}

#[test]
fn glossary_only_words_and_disabled_skipped() {
    let rules = [
        rule(1, "word", "get hub", "GitHub", true),
        rule(2, "snippet", "my linkedin", "https://x", true),
        rule(3, "word", "off", "OFF", false),
    ];
    let g = glossary(&rules).unwrap();
    assert!(g.contains("get hub = GitHub"));
    assert!(!g.contains("linkedin"));
    assert!(!g.contains("OFF"));
    assert!(glossary(&[]).is_none());
}

#[test]
fn phrases_with_pattern_characters_are_literal() {
    let rules = [rule(1, "word", "a.b", "dot", true), rule(2, "word", "x+y", "sum", true)];
    assert_eq!(apply_rules("a.b acb x+y xxy", &rules), "dot acb sum xxy");
}

#[test]
fn phrases_inside_words_stay() {
    let rules = [rule(1, "word", "cat", "dog", true)];
    assert_eq!(apply_rules("cat concat cats cat-like", &rules), "dog concat cats dog-like");
}

#[test]
fn the_first_of_two_rules_for_one_phrase_counts() {
    let rules = [rule(1, "word", "Foo", "one", true), rule(2, "word", "foo", "two", true)];
    assert_eq!(apply_rules("foo FOO", &rules), "one one");
}

#[test]
fn a_padded_phrase_is_found_and_left_as_it_is() {
    let rules = [rule(1, "word", " cat ", "dog", true)];
    assert_eq!(apply_rules("a cat sat", &rules), "a cat sat");
}

#[test]
fn what_is_written_is_not_searched_again() {
    let rules = [rule(1, "word", "a", "b", true), rule(2, "word", "b", "$1 a", true)];
    assert_eq!(apply_rules("a b", &rules), "b $1 a");
}

#[test]
fn rules_work_beside_characters_of_several_bytes() {
    let rules = [rule(1, "word", "hub", "Nabe", true)];
    assert_eq!(apply_rules("über hub – hub…", &rules), "über Nabe – Nabe…");
}

#[test]
fn rewriting_goes_by_the_spans_it_is_given() {
    let pairs = vec![("ab".to_string(), "X".to_string())];
    assert_eq!(rewrite_spans("AB é cd", &pairs, &vec![(0, 2), (6, 8)]), "X é cd");
    assert_eq!(rewrite_spans("AB", &pairs, &vec![]), "AB");
}

#[test]
fn spans_are_cut_and_replaced_by_byte_offsets() {
    let spans = vec![(0, 2), (3, 6)];
    assert_eq!(matched_texts("é €x", &spans), vec!["é".to_string(), "€".to_string()]);
    let with = vec!["e".to_string(), "euro".to_string()];
    assert_eq!(replace_spans("é €x", &spans, &with), "e eurox");
}

#[test]
fn patterns_replace_each_match() {
    assert_eq!(replace_all(BLANK_RUN, false, "a  b \t c d", " "), "a b c d");
    assert_eq!(replace_all("(", false, "a(b", "x"), "a(b", "a pattern that does not compile");
    assert_eq!(replace_all("A", true, "banana", "o"), "bonono");
    assert_eq!(replace_all("A", false, "banana", "o"), "banana");
}

#[test]
fn the_glossary_keeps_to_its_limit() {
    let long = "x".repeat(400);
    let rules = [
        rule(1, "word", &long, &long, true),
        rule(2, "word", "a", "b", true),
        rule(3, "word", &long, "c", true),
        rule(4, "word", "d", "e", true),
    ];
    let g = glossary(&rules).unwrap();
    assert_eq!(g, format!("Glossary of correct spellings: {long} = {long}; a = b; "));
    assert!(g.chars().count() <= GLOSSARY_LIMIT);
    assert!(glossary(&[rule(1, "word", &"y".repeat(900), "z", true)]).is_none());
}

#[test]
fn a_new_rule_gets_a_fresh_id() {
    let mut rules = vec![rule(3, "word", "a", "b", true), rule(7, "word", "c", "d", true)];
    assert_eq!(save_rule(&mut rules, rule(0, "word", "e", "f", true)), Ok(8));
    assert_eq!(ids(&rules), vec![3, 7, 8]);
    let mut none = Vec::new();
    assert_eq!(save_rule(&mut none, rule(0, "word", "e", "f", true)), Ok(1));
}

#[test]
fn a_known_rule_is_replaced_in_place() {
    let mut rules = vec![rule(3, "word", "a", "b", true), rule(7, "word", "c", "d", true)];
    assert_eq!(save_rule(&mut rules, rule(3, "snippet", "x", "y", false)), Ok(3));
    assert_eq!(ids(&rules), vec![3, 7]);
    assert_eq!(rules[0].from, "x");
    assert_eq!(
        save_rule(&mut rules, rule(5, "word", "x", "y", true)),
        Err("rule 5 not found".to_string())
    );
    assert_eq!(ids(&rules), vec![3, 7]);
}

#[test]
fn deleting_undoes_saving() {
    let mut rules = vec![rule(3, "word", "a", "b", true)];
    let id = save_rule(&mut rules, rule(0, "word", "e", "f", true)).unwrap();
    assert!(delete_rule(&mut rules, id));
    assert_eq!(ids(&rules), vec![3]);
    assert!(!delete_rule(&mut rules, id));
}
