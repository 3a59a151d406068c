use std::time::Instant;

use fluidity::daemon::{
    daemon_step, start_recording, stop_and_transcribe, transcribed, DaemonAction, DaemonEvent,
};
use fluidity::hotkey::{Hotkey, HotkeyEvent, Key, Modifiers};
use fluidity::pipeline::{FluidityApp, Pipeline, PipelineEvent, PipelineState, Tone};
use fluidity::text::{fold, letter, to_capital, to_decimal, trim};

#[test]
fn states_have_names() {
    assert_eq!(PipelineState::Idle.name(), "Idle");
    assert_eq!(PipelineState::Transcribing.name(), "Transcribing");
    assert_eq!(PipelineState::Inserting { text: "x".into() }.name(), "Inserting");
    let e = PipelineState::Enhancing {
        original_text: "a".into(),
        enhanced_text: None,
        provider_label: "p".into(),
    };
    assert_eq!(e.name(), "Enhancing");
    assert_eq!(e.clone().name(), "Enhancing");
    assert_eq!(PipelineState::Error { message: "m".into(), recoverable: false }.name(), "Error");
}

#[test]
fn the_pipeline_tells_its_changes() {
    let mut p = Pipeline::new();
    assert_eq!(p.state().name(), "Idle");
    p.set_recording(5, "x".into());
    assert_eq!(p.state().name(), "Idle");
    let e = p.transition_to(PipelineState::Transcribing);
    assert!(matches!(e, PipelineEvent::StateChanged(PipelineState::Transcribing)));
    assert_eq!(p.state().name(), "Transcribing");
    assert!(matches!(p.emit_partial("t".into()), PipelineEvent::PartialTranscription(t) if t == "t"));
    assert!(matches!(p.emit_error("e".into()), PipelineEvent::Error(e) if e == "e"));
    let level = 0.5f32;
    match p.emit_audio_level(level.to_bits()) {
        PipelineEvent::AudioLevel(bits) => assert_eq!(f32::from_bits(bits), level),
        other => panic!("{other:?}"),
    }
}

#[test]
fn a_recording_goes_through_the_pipeline() {
    let mut p = Pipeline::new();
    let now = Instant::now();
    start_recording(&mut p, now);
    p.set_recording(42, "so far".into());
    match p.state() {
        PipelineState::Recording { accumulated_samples, streaming_text, started_at } => {
            assert_eq!((*accumulated_samples, streaming_text.as_str()), (42, "so far"));
            assert_eq!(*started_at, now);
        }
        other => panic!("{other:?}"),
    }
    let (go, _) = stop_and_transcribe(&mut p, 15999);
    assert!(!go);
    match p.state() {
        PipelineState::Error { message, recoverable } => {
            assert_eq!((message.as_str(), *recoverable), ("Audio too short", true));
        }
        other => panic!("{other:?}"),
    }
    let (go, e) = stop_and_transcribe(&mut p, 16000);
    assert!(go);
    assert!(matches!(e, PipelineEvent::StateChanged(PipelineState::Transcribing)));
    let (_, insert) = transcribed(&mut p, "hello");
    assert!(insert);
    assert!(matches!(p.state(), PipelineState::Inserting { text } if text == "hello"));
    let (_, insert) = transcribed(&mut p, "");
    assert!(!insert);
}

#[test]
fn the_daemon_ignores_repeats_and_strays() {
    let shortcut = Hotkey { modifiers: Modifiers::ControlShift, key: Key::Space };
    let down = DaemonEvent::Hotkey(HotkeyEvent::Down { shortcut });
    let up = DaemonEvent::Hotkey(HotkeyEvent::Up { shortcut });
    assert_eq!(daemon_step(false, down), (true, DaemonAction::StartRecording));
    assert_eq!(daemon_step(true, down), (true, DaemonAction::Wait));
    assert_eq!(daemon_step(true, up), (false, DaemonAction::StopRecording));
    assert_eq!(daemon_step(false, up), (false, DaemonAction::Wait));
    assert_eq!(daemon_step(true, DaemonEvent::Timeout), (true, DaemonAction::Wait));
    assert_eq!(daemon_step(true, DaemonEvent::Closed), (true, DaemonAction::Quit));
}

#[test]
fn the_overlay_follows_the_pipeline() {
    let now = Instant::now();
    let mut o = FluidityApp::new();
    assert!(!o.is_visible());
    assert_eq!(o.repaint_after(), 200);
    assert!(o.view_frame().is_none());

    let mut p = Pipeline::new();
    o.on_event(start_recording(&mut p, now), now);
    o.on_event(p.emit_partial("partly".into()), now);
    o.on_event(p.emit_audio_level(0), now);
    assert!(o.is_visible());
    assert_eq!(o.repaint_after(), 50);
    let v = o.view_frame().unwrap();
    assert_eq!((v.title.as_str(), v.tone), ("● Recording", Tone::Red));
    assert_eq!(v.recording_since, Some(now));
    assert_eq!(v.text.as_deref(), Some("partly"));

    p.set_recording(1, "streamed".into());
    o.on_event(PipelineEvent::StateChanged(p.state().clone()), now);
    assert_eq!(o.view_frame().unwrap().text.as_deref(), Some("streamed"));

    o.on_event(p.transition_to(PipelineState::Transcribing), now);
    let v = o.view_frame().unwrap();
    assert_eq!((v.title.as_str(), v.tone), ("○ Transcribing", Tone::Yellow));
    assert_eq!((v.text, v.recording_since), (None, None));

    let (e, _) = transcribed(&mut p, "done");
    o.on_event(e, now);
    let v = o.view_frame().unwrap();
    assert_eq!((v.title.as_str(), v.tone), ("→ Inserting", Tone::Green));
    assert_eq!(v.text.as_deref(), Some("done"));

    o.on_event(p.transition_to(PipelineState::Error { message: "bad".into(), recoverable: true }), now);
    let v = o.view_frame().unwrap();
    assert_eq!((v.title.as_str(), v.tone), ("! Error", Tone::Red));
    assert_eq!(v.text.as_deref(), Some("bad"));

    o.on_event(p.emit_error("mic".into()), now);
    assert_eq!(o.partial_text, "Error: mic");
    o.on_event(p.transition_to(PipelineState::Idle), now);
    assert_eq!(o.partial_text, "");
    assert!(o.view_frame().is_none());
}

#[test]
fn characters_and_numbers() {
    assert_eq!(trim("\u{2003} a b \t"), "a b");
    assert_eq!(to_decimal(0), "0");
    assert_eq!(to_decimal(u64::MAX), "18446744073709551615");
    assert_eq!(to_capital('é'), 'É');
    assert_eq!(to_capital('ß'), 'S');
    assert_eq!(to_capital('z'), 'Z');
    assert!(letter('é') && letter('Z') && !letter('1') && !letter('€'));
    assert_eq!(fold('É'), vec!['é']);
    assert_eq!(fold('Z'), vec!['z']);
}
