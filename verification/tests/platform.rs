use fluidity::audio::{AudioCapture, AudioError};
use fluidity::hotkey::{
    is_modifier, key_matches, modifiers_from_bools, modifiers_match, vk_to_key, HeldModifiers,
    Hotkey, HotkeyError, HotkeyEvent, HotkeyListener, Key, Modifiers, WindowsHotkeyListener,
};
use fluidity::platform::{
    accept_format, create_audio_capture, create_hotkey_listener, create_text_inserter,
    list_input_devices, pick_microphone, resolve_device, DeviceChoice, DeviceReport, InputConfig,
    NullCapture, Platform, PlatformAudioCapture, PlatformHotkeyListener, SampleFormat,
    StreamConfig, WindowsAudioCapture,
};
use fluidity::typing::{
    encode_utf16, paste_strokes, type_strokes, AfterTyping, InsertError, InsertTarget, PasteStep,
    Stroke, TextInserter,
};

fn report(name: &str, rate: u32, channels: u16, format: SampleFormat) -> DeviceReport {
    DeviceReport {
        name: Some(name.to_string()),
        config: Some(InputConfig { rate, channels, format }),
    }
}

#[test]
fn devices_are_listed_with_their_setup() {
    let found = Ok(vec![
        report("Mic", 48000, 2, SampleFormat::F32),
        DeviceReport { name: None, config: None },
        report("Old", 8000, 1, SampleFormat::Other("I8".into())),
    ]);
    assert_eq!(
        list_input_devices(Platform::Windows, &found),
        vec!["Mic  [48000Hz, 2ch, F32]".to_string(), "Old  [8000Hz, 1ch, I8]".to_string()]
    );
    assert_eq!(
        list_input_devices(Platform::Windows, &Ok(vec![])),
        vec!["No input devices found".to_string()]
    );
    assert_eq!(
        list_input_devices(Platform::Windows, &Err("denied".into())),
        vec!["Error: denied".to_string()]
    );
    assert_eq!(
        list_input_devices(Platform::Linux, &found),
        vec!["Device listing only available on Windows".to_string()]
    );
}

#[test]
fn a_device_is_resolved_by_name_or_default() {
    let names = Ok(vec![None, Some("a".to_string()), Some("b".to_string()), Some("b".to_string())]);
    assert_eq!(resolve_device(Some("b"), &names, false).unwrap(), DeviceChoice::Listed(2));
    assert_eq!(resolve_device(None, &names, true).unwrap(), DeviceChoice::Default);
    assert!(matches!(resolve_device(None, &names, false), Err(AudioError::NoDevice)));
    assert_eq!(
        resolve_device(Some("c"), &names, true).unwrap_err().message(),
        "Device not found: c"
    );
    assert_eq!(
        resolve_device(Some("b"), &Err("gone".into()), true).unwrap_err().message(),
        "Platform error: Enumerate devices: gone"
    );
}

#[test]
fn a_microphone_is_picked_by_name_or_default() {
    let names = Ok(vec![Some("a".to_string())]);
    assert_eq!(pick_microphone(Some("a"), &names, false), Ok(DeviceChoice::Listed(0)));
    assert_eq!(pick_microphone(None, &names, true), Ok(DeviceChoice::Default));
    assert_eq!(pick_microphone(None, &names, false), Err("no microphone found".to_string()));
    assert_eq!(
        pick_microphone(Some("x"), &names, true),
        Err("microphone 'x' not found".to_string())
    );
    assert_eq!(pick_microphone(Some("x"), &Err("gone".into()), true), Err("gone".to_string()));
    assert_eq!(accept_format(&SampleFormat::U16), Ok(()));
    assert_eq!(
        accept_format(&SampleFormat::Other("I24".into())),
        Err("unsupported sample format I24".to_string())
    );
}

#[test]
fn a_capture_starts_step_by_step() {
    let mut c = WindowsAudioCapture::new();
    assert_eq!(c.sample_rate(), 48000);
    assert!(c.use_device(Err(AudioError::NoDevice)).is_err());
    assert!(c.use_device(Ok(DeviceChoice::Default)).is_ok());
    assert_eq!(
        c.configure(Err("busy".into())).unwrap_err().message(),
        "Stream error: Default config: busy"
    );
    let odd = InputConfig { rate: 8000, channels: 1, format: SampleFormat::Other("I8".into()) };
    assert_eq!(
        c.configure(Ok(odd)).unwrap_err().message(),
        "Stream error: Unsupported sample format: I8"
    );
    let good = InputConfig { rate: 44100, channels: 2, format: SampleFormat::I16 };
    assert!(matches!(c.configure(Ok(good)), Ok(SampleFormat::I16)));
    assert_eq!(c.config, Some(StreamConfig { rate: 44100, channels: 2 }));
    assert_eq!(c.sample_rate(), 44100);
    assert_eq!(
        c.started(Err("x".into()), Ok(())).unwrap_err().message(),
        "Stream error: Build stream: x"
    );
    assert_eq!(
        c.started(Ok(()), Err("y".into())).unwrap_err().message(),
        "Stream error: Play stream: y"
    );
    assert!(!c.running);
    assert!(c.started(Ok(()), Ok(())).is_ok());
    assert!(c.running);
    assert!(c.stop().is_ok());
    assert!(!c.running);
}

#[test]
fn platforms_have_their_own_parts() {
    assert_eq!(create_audio_capture(Platform::Linux), PlatformAudioCapture::Null(NullCapture));
    assert_eq!(NullCapture.sample_rate(), 16000);
    assert!(NullCapture.stop().is_ok());
    assert!(matches!(create_audio_capture(Platform::Windows), PlatformAudioCapture::Windows(_)));
    let key = Hotkey { modifiers: Modifiers::ControlShift, key: Key::Space };
    let mut l = create_hotkey_listener(Platform::Windows);
    assert!(l.register(key).is_ok());
    assert_eq!(l, PlatformHotkeyListener::Windows(WindowsHotkeyListener { hotkey: Some(key) }));
    let mut n = create_hotkey_listener(Platform::Linux);
    assert!(n.register(key).is_ok());
    assert!(matches!(n, PlatformHotkeyListener::Null(_)));
}

const BARE: HeldModifiers = HeldModifiers { alt: false, ctrl: false, shift: false, win: false };

#[test]
fn virtual_keys_are_known() {
    assert_eq!(vk_to_key(0x20), Some(Key::Space));
    assert_eq!(vk_to_key(0x41), Some(Key::KeyA));
    assert_eq!(vk_to_key(0x78), Some(Key::F9));
    assert_eq!(vk_to_key(0xFF), None);
    assert!(is_modifier(0xA2));
    assert!(!is_modifier(0x41));
    let h = Hotkey { modifiers: Modifiers::Alt, key: Key::KeyV };
    assert!(key_matches(&h, 0x56));
    assert!(!key_matches(&h, 0x57));
    assert!(!key_matches(&h, 0xFF));
}

#[test]
fn modifiers_are_told_apart() {
    assert_eq!(modifiers_from_bools(false, false, false, false), Modifiers::Unmodified);
    assert_eq!(modifiers_from_bools(true, true, true, true), Modifiers::WinAltControlShift);
    assert_eq!(modifiers_from_bools(false, true, true, false), Modifiers::ControlShift);
    let held = HeldModifiers { ctrl: true, shift: true, ..BARE };
    assert!(modifiers_match(Modifiers::ControlShift, held));
    assert!(!modifiers_match(Modifiers::Control, held));
}

#[test]
fn the_listener_reports_its_hotkey_only() {
    let shortcut = Hotkey { modifiers: Modifiers::ControlShift, key: Key::Space };
    let held = HeldModifiers { ctrl: true, shift: true, ..BARE };
    let mut l = WindowsHotkeyListener::new();
    assert_eq!(l.on_key(0x20, 0x100, held), None);
    l.register(shortcut).unwrap();
    assert_eq!(l.on_key(0x20, 0x100, held), Some(HotkeyEvent::Down { shortcut }));
    assert_eq!(l.on_key(0x20, 0x104, held), Some(HotkeyEvent::Down { shortcut }));
    assert_eq!(l.on_key(0x20, 0x101, held), Some(HotkeyEvent::Up { shortcut }));
    assert_eq!(l.on_key(0x20, 0x105, held), Some(HotkeyEvent::Up { shortcut }));
    assert_eq!(l.on_key(0x20, 0x102, held), None);
    assert_eq!(l.on_key(0x20, 0x100, BARE), None);
    assert_eq!(l.on_key(0x41, 0x100, held), None);
}

#[test]
fn hotkey_errors_read_well() {
    assert_eq!(
        HotkeyError::RegistrationFailed("x".into()).message(),
        "Failed to register hotkey: x"
    );
    assert_eq!(HotkeyError::AlreadyRegistered.message(), "Hotkey already registered");
    assert_eq!(HotkeyError::Platform("x".into()).message(), "Platform error: x");
    assert_eq!(HotkeyError::PermissionDenied.message(), "Permission denied");
}

#[test]
fn text_is_typed_unit_by_unit() {
    let s = |unit: u16, up: bool| Stroke { key: 0, unit, unicode: true, up };
    assert_eq!(
        type_strokes("a😀"),
        vec![
            s(0x61, false),
            s(0x61, true),
            s(0xd83d, false),
            s(0xd83d, true),
            s(0xde00, false),
            s(0xde00, true),
        ]
    );
    let text = "aé€😀\u{10FFFF}";
    assert_eq!(encode_utf16(text), text.encode_utf16().collect::<Vec<u16>>());
    assert_eq!(String::from_utf16(&encode_utf16(text)).unwrap(), text);
}

#[test]
fn pasting_presses_control_and_v() {
    let k = |key: u16, up: bool| Stroke { key, unit: 0, unicode: false, up };
    assert_eq!(
        paste_strokes(),
        vec![k(0x11, false), k(0x56, false), k(0x56, true), k(0x11, true)]
    );
}

#[test]
fn inserters_plan_what_to_do() {
    let i = create_text_inserter(Platform::Windows);
    let plan = i.insert("hi", InsertTarget::FocusedWindow).unwrap();
    assert_eq!(plan.strokes, type_strokes("hi"));
    assert!(plan.clipboard.is_none());
    assert_eq!(plan.after_typing(false), AfterTyping::Finished);
    let plan = i.insert_with_fallback("hi").unwrap();
    assert_eq!(plan.after_typing(true), AfterTyping::Finished);
    assert_eq!(plan.after_typing(false), AfterTyping::Paste);
    let clip = plan.clipboard.unwrap();
    assert_eq!(clip.units, vec![0x68, 0x69]);
    assert_eq!(clip.strokes, paste_strokes());
    assert!(matches!(i.insert("", InsertTarget::Pid(1)), Err(InsertError::EmptyText)));
    assert!(matches!(i.insert_with_fallback(""), Err(InsertError::EmptyText)));
    let n = create_text_inserter(Platform::Linux);
    assert!(n.insert("", InsertTarget::FocusedWindow).unwrap().strokes.is_empty());
    assert!(n.insert_with_fallback("x").unwrap().clipboard.is_none());
}

#[test]
fn a_paste_runs_to_its_end() {
    let mut step = PasteStep::Open;
    let mut n = 0;
    while step.outcome().is_none() {
        step = step.next(true);
        n += 1;
    }
    assert_eq!((step, n), (PasteStep::Done, 10));
    assert!(matches!(PasteStep::Open.next(false).outcome(), Some(Err(InsertError::ClipboardFailed))));
    assert_eq!(PasteStep::Allocate.next(false), PasteStep::Abandon);
    assert_eq!(PasteStep::Lock.next(false), PasteStep::Abandon);
    assert_eq!(PasteStep::Abandon.next(true), PasteStep::Failed);
    assert_eq!(PasteStep::SetData.next(false), PasteStep::Close);
    assert!(matches!(PasteStep::Done.outcome(), Some(Ok(()))));
}

#[test]
fn insert_errors_read_well() {
    assert_eq!(InsertError::TypeFailed("x".into()).message(), "Failed to type text: x");
    assert_eq!(InsertError::PermissionDenied.message(), "Accessibility permissions not granted");
    assert_eq!(InsertError::ClipboardFailed.message(), "Clipboard operation failed");
    assert_eq!(InsertError::TargetNotFound(42).message(), "Target not found: PID 42");
    assert_eq!(InsertError::EmptyText.message(), "Empty text");
}
