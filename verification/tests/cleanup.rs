use fluidity::cleanup::{apply_line_commands, is_undo_command, keep_ends, remove_fillers};

#[test]
fn fillers_removed_with_seam_cleanup() {
    assert_eq!(remove_fillers("um so this is uh great"), "so this is great");
    assert_eq!(remove_fillers("Um hello"), "hello");
    assert_eq!(remove_fillers("wait um, what"), "wait, what");
    assert_eq!(remove_fillers("hmm okay then"), "okay then");
}

#[test]
fn fillers_never_eat_real_words() {
    assert_eq!(remove_fillers("an album column of hummus"), "an album column of hummus");
    assert_eq!(remove_fillers("no fillers here"), "no fillers here");
}

#[test]
fn undo_command_needs_exact_phrase() {
    assert!(is_undo_command("scratch that"));
    assert!(is_undo_command("  Undo that. "));
    assert!(!is_undo_command("scratch that and try again"));
    assert!(!is_undo_command("undo the settings"));
    assert!(!is_undo_command(""));
}

#[test]
fn line_commands_expand_and_consume_spaces() {
    assert_eq!(
        apply_line_commands("point one new paragraph point two"),
        "point one\n\npoint two"
    );
    assert_eq!(apply_line_commands("a new line b"), "a\nb");
    assert_eq!(apply_line_commands("x newline y"), "x\ny");
    assert_eq!(apply_line_commands("New Paragraph at start"), "\n\nat start");
    assert_eq!(apply_line_commands("draw a new lineart"), "draw a new lineart");
}

#[test]
fn line_commands_consume_asr_punctuation() {
    assert_eq!(
        apply_line_commands("how are you doing? new line, I'm doing fine"),
        "how are you doing?\nI'm doing fine"
    );
    assert_eq!(
        apply_line_commands("greeting. new paragraph. thank you."),
        "greeting.\n\nthank you."
    );
}

#[test]
fn tidying_needs_no_filler() {
    assert_eq!(remove_fillers("  a  b \t c , d  ;e "), "a b c, d;e");
    assert_eq!(remove_fillers("one\ntwo"), "one\ntwo");
    assert_eq!(remove_fillers("one\n ."), "one.");
    assert_eq!(remove_fillers("um"), "");
}

#[test]
fn fillers_beside_other_scripts() {
    assert_eq!(remove_fillers("café um – erm déjà vu"), "café – déjà vu");
    assert_eq!(remove_fillers("ümum umé um"), "ümum umé");
}

#[test]
fn plural_cues_and_marks() {
    assert_eq!(apply_line_commands("a NEW LINES b"), "a\nb");
    assert_eq!(apply_line_commands("a new paragraphs!? b"), "a\n\nb");
    assert_eq!(apply_line_commands("a newlines;b"), "a\nb");
    assert_eq!(apply_line_commands("nothing new here"), "nothing new here");
}

#[test]
fn undo_takes_marks_and_any_case() {
    assert!(is_undo_command("SCRATCH THAT!?"));
    assert!(is_undo_command("undo that ,."));
    assert!(!is_undo_command("undo that;"));
    assert!(!is_undo_command("."));
}

#[test]
fn the_end_of_each_span_is_kept() {
    assert_eq!(keep_ends("a  , b é!", &vec![(1, 4), (6, 10)]), "a, b!");
}

#[test]
fn fillers_are_whole_words_in_every_script() {
    assert_eq!(remove_fillers("日 um 本"), "日 本");
    assert_eq!(remove_fillers("日um本"), "日um本");
    assert_eq!(remove_fillers("um\u{301} x"), "um\u{301} x");
    assert_eq!(remove_fillers("um\u{200d} x"), "um\u{200d} x");
    assert_eq!(remove_fillers("\u{3000}uh\u{3000}\u{3b1}"), "\u{3b1}");
}

#[test]
fn cues_are_whole_words_in_every_script() {
    assert_eq!(apply_line_commands("α new line\u{17f} β"), "α\nβ");
    assert_eq!(apply_line_commands("日new line本"), "日new line本");
    assert_eq!(apply_line_commands("日 New Paragraph, 本"), "日\n\n本");
}

#[test]
fn removing_fillers_twice_changes_nothing() {
    for t in ["um uh , well  erm .", "hm, hmm um", " a\t um\tb ! ", "日 um , 本", "um"] {
        let once = remove_fillers(t);
        assert_eq!(remove_fillers(&once), once);
    }
}

#[test]
fn making_breaks_twice_changes_nothing() {
    for t in ["a new line new paragraph. b", "new newline line", "new new line lines", "日 newlines!"] {
        let once = apply_line_commands(t);
        assert_eq!(apply_line_commands(&once), once);
    }
}
