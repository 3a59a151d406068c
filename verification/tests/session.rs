use std::time::Instant;

use fluidity::rules::Rule;
use fluidity::session::{
    can_undo, cloud_fields, cloud_reply, engines, hides_on_close, judge, local_reply, menu_action,
    paste_toast, pill_position, restore_clipboard, undo_toast, undone, Chain, ChainStep, Engine,
    MenuAction, Outcome,
};

#[test]
fn engine_selection() {
    let (local, cloud) = (Engine::Local, Engine::Cloud);
    assert_eq!(engines(None, true), vec![local, cloud], "auto prefers local");
    assert_eq!(engines(None, false), vec![cloud], "auto without model = cloud only");
    assert_eq!(engines(Some("local"), false), vec![local]);
    assert_eq!(engines(Some("cloud"), true), vec![cloud], "explicit beats auto");
}

#[test]
fn unknown_engine_settings_mean_auto() {
    assert_eq!(engines(Some("auto"), true), vec![Engine::Local, Engine::Cloud]);
    assert_eq!(engines(Some("auto"), false), vec![Engine::Cloud]);
    assert_eq!(Engine::Local.name(), "parakeet");
    assert_eq!(Engine::Cloud.name(), "groq");
}

fn word(from: &str, to: &str) -> Rule {
    Rule { id: 1, kind: "word".into(), from: from.into(), to: to.into(), enabled: true }
}

#[test]
fn a_transcript_is_cleaned_broken_and_rewritten() {
    let rules = [word("get hub", "GitHub")];
    let heard = "um push to get hub new line done".to_string();
    match judge(Engine::Cloud, Ok(heard.clone()), true, &rules) {
        Outcome::Insert(text) => assert_eq!(text, "push to GitHub\ndone"),
        other => panic!("{other:?}"),
    }
    match judge(Engine::Cloud, Ok(heard), false, &rules) {
        Outcome::Insert(text) => assert_eq!(text, "um push to GitHub\ndone"),
        other => panic!("{other:?}"),
    }
}

#[test]
fn a_blank_transcript_ends_the_dictation() {
    match judge(Engine::Local, Ok(" \n".to_string()), true, &[]) {
        Outcome::NothingHeard(t) => assert_eq!((t.text.as_str(), t.ms), ("Nothing heard", 2500)),
        other => panic!("{other:?}"),
    }
}

#[test]
fn an_undo_request_is_not_written() {
    assert!(matches!(
        judge(Engine::Local, Ok("um scratch that.".to_string()), true, &[]),
        Outcome::Undo
    ));
    assert!(matches!(
        judge(Engine::Local, Ok("um scratch that.".to_string()), false, &[]),
        Outcome::Insert(_)
    ));
}

#[test]
fn engines_are_asked_until_one_answers() {
    let mut chain = Chain::new(vec![Engine::Local, Engine::Cloud]);
    assert!(matches!(chain.next(), ChainStep::Ask(Engine::Local)));
    let failed = judge(Engine::Local, Err("no model".to_string()), false, &[]);
    match &failed {
        Outcome::Failed(t) => {
            assert_eq!((t.text.as_str(), t.ms), ("Local failed: no model", 3500));
        }
        other => panic!("{other:?}"),
    }
    assert!(chain.goes_on(&failed));
    assert!(matches!(chain.next(), ChainStep::Ask(Engine::Cloud)));
    let heard = judge(Engine::Cloud, Ok("hello".to_string()), false, &[]);
    assert!(!chain.goes_on(&heard));
    let failed = judge(Engine::Cloud, Err("offline".to_string()), false, &[]);
    assert!(chain.goes_on(&failed));
    match chain.next() {
        ChainStep::GiveUp(Some(t)) => {
            assert_eq!((t.text.as_str(), t.ms), ("All transcription engines failed", 3500));
        }
        other => panic!("{other:?}"),
    }
    assert!(matches!(Chain::new(vec![]).next(), ChainStep::GiveUp(None)));
}

#[test]
fn a_dictation_is_undone_once_and_soon() {
    let at = Instant::now();
    let mut slot = Some(at);
    assert!(can_undo(&slot, 119));
    assert!(!can_undo(&slot, 120));
    assert!(!undone(&mut slot, 120, true));
    assert_eq!(slot, Some(at));
    assert!(undone(&mut slot, 119, true));
    assert_eq!(slot, None);
    assert!(!can_undo(&slot, 0));
    assert!(!undone(&mut slot, 0, true));
}

#[test]
fn an_undo_that_was_not_sent_can_be_tried_again() {
    let at = Instant::now();
    let mut slot = Some(at);
    assert!(!undone(&mut slot, 5, false));
    assert_eq!(slot, Some(at));
    assert!(undone(&mut slot, 6, true));
    assert_eq!(slot, None);
}

#[test]
fn toasts_tell_what_happened() {
    let t = undo_toast(true);
    assert_eq!((t.text.as_str(), t.ms), ("↩ Undid last dictation", 1800));
    let t = undo_toast(false);
    assert_eq!((t.text.as_str(), t.ms), ("Nothing recent to undo", 2500));
    let t = paste_toast("short", Ok(()));
    assert_eq!((t.text.as_str(), t.ms), ("✓ short", 1600));
    let t = paste_toast(&"é".repeat(60), Ok(()));
    assert_eq!(t.text, format!("✓ {}", "é".repeat(48)));
    let t = paste_toast("x", Err("locked".to_string()));
    assert_eq!((t.text.as_str(), t.ms), ("Paste failed: locked", 3500));
}

#[test]
fn the_clipboard_is_restored_unless_something_new_was_copied() {
    let prev = Some("before".to_string());
    assert_eq!(restore_clipboard(Some("mine".into()), "mine", prev.clone()), prev);
    assert_eq!(restore_clipboard(Some("new".into()), "mine", prev.clone()), None);
    assert_eq!(restore_clipboard(None, "mine", prev), None);
    assert_eq!(restore_clipboard(Some("mine".into()), "mine", None), None);
}

#[test]
fn requests_and_replies_of_the_cloud() {
    let pairs: Vec<(String, String)> =
        cloud_fields(Some("hint".into())).into_iter().map(|f| (f.name, f.value)).collect();
    assert_eq!(
        pairs,
        vec![
            ("model".to_string(), "whisper-large-v3-turbo".to_string()),
            ("response_format".to_string(), "text".to_string()),
            ("prompt".to_string(), "hint".to_string()),
        ]
    );
    assert_eq!(cloud_fields(None).len(), 2);
    assert_eq!(cloud_reply(true, "200 OK", "text".into()), Ok("text".to_string()));
    assert_eq!(
        cloud_reply(false, "401 Unauthorized", "bad key".into()),
        Err("groq 401 Unauthorized: bad key".to_string())
    );
}

#[test]
fn replies_of_the_local_engine() {
    assert_eq!(local_reply(true, true, Some("hi".into())), Ok("hi".to_string()));
    assert_eq!(local_reply(true, true, None), Err("parakeet returned no result".to_string()));
    assert_eq!(
        local_reply(true, false, None),
        Err("failed to create parakeet recognizer".to_string())
    );
    assert_eq!(
        local_reply(false, false, None),
        Err("local engine not installed (Settings → Local engine)".to_string())
    );
}

#[test]
fn the_pill_stands_at_the_bottom_in_the_middle() {
    assert_eq!(pill_position(1920, 1080), (830, 920));
    assert_eq!(pill_position(261, 160), (0, 0));
    assert_eq!(pill_position(255, 100), (-2, -60));
    assert_eq!(pill_position(u32::MAX, u32::MAX), (-130, -161));
}

#[test]
fn menu_and_window_events() {
    assert_eq!(menu_action("quit"), MenuAction::Quit);
    assert_eq!(menu_action("open_hub"), MenuAction::OpenHub);
    assert_eq!(menu_action("test_pill"), MenuAction::TestPill);
    assert_eq!(menu_action("other"), MenuAction::Ignore);
    assert!(hides_on_close("main"));
    assert!(!hides_on_close("pill"));
}
