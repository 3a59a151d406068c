use fluidity::chord::{
    on_keyboard_event, preset_groups, recorder_command, Action, Chord, ChordTracker, HookOutcome,
    RecorderCommand, LLKHF_INJECTED, VK_CAPITAL, VK_F9, VK_LCONTROL, VK_LWIN, VK_RCONTROL, VK_RWIN,
    WM_KEYDOWN, WM_KEYUP, WM_SYSKEYDOWN,
};

const LWIN: u32 = VK_LWIN;
const RCTRL: u32 = VK_RCONTROL;

#[test]
fn plain_win_tap_untouched() {
    let mut t = ChordTracker::new("ctrl_win");
    assert_eq!(t.update(LWIN, true), (None, Action::Nothing), "win alone: no trigger");
    assert_eq!(
        t.update(LWIN, false),
        (None, Action::Nothing),
        "start menu must still work, key-up never touched"
    );
    assert!(!t.swallow_own_key());
}

#[test]
fn full_cycle_and_cancel_start_menu() {
    let mut t = ChordTracker::new("ctrl_win");
    assert_eq!(t.update(RCTRL, true), (None, Action::Nothing));
    assert_eq!(t.update(LWIN, true), (Some(Chord::Pressed), Action::Nothing));
    assert_eq!(t.update(LWIN, true), (None, Action::Nothing), "autorepeat ignored");
    assert_eq!(
        t.update(LWIN, false),
        (Some(Chord::Released), Action::CancelStartMenu),
        "inject tap, but forward the key-up"
    );
    assert_eq!(t.update(RCTRL, false), (None, Action::Nothing));
    // re-arms after full release
    assert_eq!(t.update(RCTRL, true), (None, Action::Nothing));
    assert_eq!(t.update(LWIN, true), (Some(Chord::Pressed), Action::Nothing));
}

#[test]
fn ctrl_released_first_still_cancels_start_menu() {
    let mut t = ChordTracker::new("ctrl_win");
    t.update(LWIN, true);
    t.update(RCTRL, true);
    assert_eq!(t.update(RCTRL, false), (Some(Chord::Released), Action::Nothing));
    assert_eq!(
        t.update(LWIN, false),
        (None, Action::CancelStartMenu),
        "late win-up gets the cancel tap"
    );
    assert_eq!(t.update(LWIN, true), (None, Action::Nothing), "no phantom press");
}

#[test]
fn mixed_sides_trigger_chord() {
    let mut t = ChordTracker::new("ctrl_win");
    assert_eq!(t.update(VK_LCONTROL, true), (None, Action::Nothing));
    assert_eq!(t.update(VK_RWIN, true), (Some(Chord::Pressed), Action::Nothing));
}

#[test]
fn caps_preset_triggers_alone_and_swallows() {
    let mut t = ChordTracker::new("caps");
    assert!(t.swallow_own_key());
    assert_eq!(t.update(VK_CAPITAL, true), (Some(Chord::Pressed), Action::Nothing));
    assert_eq!(t.update(VK_CAPITAL, false), (Some(Chord::Released), Action::Nothing));
    // a Win key-up is untouched when the preset has no Win in it
    t.update(VK_CAPITAL, true);
    t.update(VK_CAPITAL, false);
    assert_eq!(t.update(LWIN, true), (None, Action::Nothing));
    assert_eq!(t.update(LWIN, false), (None, Action::Nothing));
}

#[test]
fn f9_preset_triggers_alone() {
    let mut t = ChordTracker::new("f9");
    assert!(!t.swallow_own_key());
    assert_eq!(t.update(VK_F9, true), (Some(Chord::Pressed), Action::Nothing));
    assert_eq!(t.update(VK_F9, false), (Some(Chord::Released), Action::Nothing));
}

#[test]
fn unknown_presets_stand_for_ctrl_win() {
    assert_eq!(preset_groups("caps"), vec![vec![VK_CAPITAL]]);
    assert_eq!(preset_groups("f9"), vec![vec![VK_F9]]);
    assert_eq!(
        preset_groups("something"),
        vec![vec![VK_LCONTROL, VK_RCONTROL], vec![VK_LWIN, VK_RWIN]]
    );
}

#[test]
fn foreign_keys_pass_through_the_tracker() {
    let mut t = ChordTracker::new("ctrl_win");
    t.update(RCTRL, true);
    assert_eq!(t.update(0x41, true), (None, Action::Nothing));
    assert_eq!(t.update(LWIN, true), (Some(Chord::Pressed), Action::Nothing));
    assert_eq!(t.update(0x41, false), (None, Action::Nothing));
}

#[test]
fn one_side_may_be_released_while_the_other_is_held() {
    let mut t = ChordTracker::new("ctrl_win");
    t.update(VK_LCONTROL, true);
    t.update(RCTRL, true);
    assert_eq!(t.update(LWIN, true), (Some(Chord::Pressed), Action::Nothing));
    assert_eq!(t.update(VK_LCONTROL, false), (None, Action::Nothing));
    assert_eq!(t.update(RCTRL, false), (Some(Chord::Released), Action::Nothing));
}

#[test]
fn the_hook_ignores_injected_keys() {
    let mut t = ChordTracker::new("caps");
    let nothing = HookOutcome { event: None, tap_ctrl: false, swallow: false };
    assert_eq!(on_keyboard_event(&mut t, VK_CAPITAL, LLKHF_INJECTED, WM_KEYDOWN), nothing);
    assert_eq!(
        on_keyboard_event(&mut t, VK_CAPITAL, 0, WM_KEYDOWN),
        HookOutcome { event: Some(Chord::Pressed), tap_ctrl: false, swallow: true }
    );
    assert_eq!(on_keyboard_event(&mut t, 0x41, 0, WM_KEYDOWN), nothing);
}

#[test]
fn the_hook_taps_ctrl_on_the_late_win_release() {
    let mut t = ChordTracker::new("ctrl_win");
    on_keyboard_event(&mut t, RCTRL, 0, WM_KEYDOWN);
    on_keyboard_event(&mut t, LWIN, 0, WM_SYSKEYDOWN);
    assert_eq!(
        on_keyboard_event(&mut t, LWIN, 0, WM_KEYUP),
        HookOutcome { event: Some(Chord::Released), tap_ctrl: true, swallow: false }
    );
}

#[test]
fn hold_and_toggle_modes_drive_the_recorder() {
    assert_eq!(recorder_command(Chord::Pressed, "hold", false), RecorderCommand::Start);
    assert_eq!(recorder_command(Chord::Released, "hold", true), RecorderCommand::Stop);
    assert_eq!(recorder_command(Chord::Pressed, "toggle", false), RecorderCommand::Start);
    assert_eq!(recorder_command(Chord::Pressed, "toggle", true), RecorderCommand::Stop);
    assert_eq!(recorder_command(Chord::Released, "toggle", true), RecorderCommand::Keep);
}
