use fluidity::processing::{
    apply_custom_dictionary, apply_spoken_punctuation, full_pipeline, remove_filler_words,
};

fn entry(from: &str, to: &str) -> (String, String) {
    (from.to_string(), to.to_string())
}

#[test]
fn test_remove_filler_words() {
    assert_eq!(remove_filler_words("um hello world"), "hello world");
    assert_eq!(remove_filler_words("like you know"), "");
    assert_eq!(remove_filler_words("hello um world"), "hello world");
}

#[test]
fn test_spoken_punctuation() {
    let result = apply_spoken_punctuation("hello period world comma how are you question mark");
    assert_eq!(result.trim(), "Hello. World, how are you?");
}

#[test]
fn test_custom_dictionary() {
    let dict = vec![("op code".to_string(), "opcode".to_string())];
    let result = apply_custom_dictionary("write some op code", &dict);
    assert_eq!(result, "write some opcode");
}

#[test]
fn filler_words_inside_words_stay() {
    assert_eq!(remove_filler_words("the album is humming"), "the album is humming");
    assert_eq!(remove_filler_words("Um, yes"), ", yes");
    assert_eq!(remove_filler_words(""), "");
}

#[test]
fn dictionary_ignores_case_and_keeps_word_edges() {
    let dict = vec![entry("op code", "opcode")];
    assert_eq!(apply_custom_dictionary("Op Code and top codex", &dict), "opcode and top codex");
    assert_eq!(apply_custom_dictionary("op code op code", &dict), "opcode opcode");
}

#[test]
fn empty_dictionary_changes_nothing() {
    assert_eq!(apply_custom_dictionary("as it is", &[]), "as it is");
    assert_eq!(apply_custom_dictionary("as it is", &[entry("", "x")]), "as it is");
}

#[test]
fn dictionary_entries_apply_in_order() {
    let dict = vec![entry("a", "b"), entry("b", "c")];
    assert_eq!(apply_custom_dictionary("a b", &dict), "c c");
}

#[test]
fn dictionary_knows_both_small_sigmas() {
    let dict = vec![entry("\u{391}\u{3a3}", "as")];
    assert_eq!(apply_custom_dictionary("\u{391}\u{3a3}", &dict), "as");
    assert_eq!(apply_custom_dictionary("\u{3b1}\u{3c2}", &dict), "as");
}

#[test]
fn sentences_start_with_a_capital() {
    assert_eq!(apply_spoken_punctuation("one. two! three? four"), "One. Two! Three? Four");
    assert_eq!(apply_spoken_punctuation("élan"), "Élan");
    assert_eq!(apply_spoken_punctuation(""), "");
}

#[test]
fn spoken_symbols_are_written() {
    assert_eq!(apply_spoken_punctuation("ten euro"), "Ten €");
    assert_eq!(apply_spoken_punctuation("periodic"), "Periodic");
}

#[test]
fn the_pipeline_runs_all_three_steps() {
    let dict = vec![entry("get hub", "GitHub")];
    assert_eq!(full_pipeline("um push to get hub period", &dict), "Push to GitHub.");
}

#[test]
fn punctuating_twice_changes_nothing() {
    for t in [
        "hello period world comma how are you question mark",
        "new new line line",
        "open paren x close parenthesis hashtag colon",
        "ten euro   period semicolon dash",
        "a exclamation  comma mark",
    ] {
        let once = apply_spoken_punctuation(t);
        assert_eq!(apply_spoken_punctuation(&once), once);
    }
}

#[test]
fn no_filler_word_is_left() {
    assert_eq!(remove_filler_words("uh-um-er, Like  ah right"), "--,");
    assert_eq!(remove_filler_words("you like know"), "you know");
    assert_eq!(remove_filler_words("c um b\tlike\na"), "c b a");
}
