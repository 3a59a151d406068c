use fluidity::asr::{
    assemble, AsrError, Decoding, DownloadPlan, ModelManager, SegmentReport, WhisperEngine,
};
use fluidity::config::{ActivationMode, Config};
use fluidity::download::{
    files_to_fetch, model_place, refused, DownloadGate, ModelPlace, Progress, HF_BASE,
};
use fluidity::history::{append_line, delete_history, history_lines, load_history, Entry};
use fluidity::settings;
use fluidity::settings::{autostart_change, choose_key, data_dir, AutostartChange};

fn seg(start: i64, end: i64, text: &str) -> Option<SegmentReport> {
    Some(SegmentReport { start, end, text: Ok(text.to_string()) })
}

#[test]
fn segments_make_a_transcript() {
    let r = assemble(vec![seg(0, 150, ""), seg(150, 200, "Hello"), seg(200, 310, "world")]).unwrap();
    assert_eq!(r.text, "Hello world");
    assert_eq!(r.segments.len(), 3);
    assert_eq!((r.segments[2].start, r.segments[2].end), (200, 310));
    assert_eq!(assemble(vec![seg(0, 1, "a"), seg(1, 2, "")]).unwrap().text, "a ");
    assert_eq!(assemble(vec![]).unwrap().text, "");
}

#[test]
fn a_broken_segment_fails_the_transcript() {
    let e = assemble(vec![seg(0, 1, "a"), None]).unwrap_err();
    assert_eq!(e.message(), "Transcription failed: Missing segment 1");
    let bad = Some(SegmentReport { start: 0, end: 1, text: Err("utf-8".into()) });
    let e = assemble(vec![bad, None]).unwrap_err();
    assert_eq!(e.message(), "Transcription failed: Segment text: utf-8");
}

#[test]
fn an_engine_needs_a_model_and_a_second() {
    let mut e = WhisperEngine::new();
    assert!(!e.is_loaded());
    assert_eq!(e.check(20000).unwrap_err().message(), "Model not loaded");
    assert_eq!(
        e.load("m.bin", false, Ok(())).unwrap_err().message(),
        "Model file not found: m.bin"
    );
    assert_eq!(
        e.load("m.bin", true, Err("corrupt".into())).unwrap_err().message(),
        "Transcription failed: Failed to load model: corrupt"
    );
    assert!(!e.is_loaded());
    e.load("m.bin", true, Ok(())).unwrap();
    assert!(e.is_loaded());
    assert_eq!(
        e.check(15999).unwrap_err().message(),
        "Audio too short (need at least 16000 samples)"
    );
    assert!(e.check(16000).is_ok());
}

#[test]
fn a_run_of_the_recogniser_ends_in_a_transcript() {
    assert_eq!(
        WhisperEngine::finish(Decoding::NoState("x".into())).unwrap_err().message(),
        "Transcription failed: State creation: x"
    );
    assert_eq!(
        WhisperEngine::finish(Decoding::Failed("y".into())).unwrap_err().message(),
        "Transcription failed: Full transcription: y"
    );
    assert_eq!(
        WhisperEngine::finish(Decoding::Segments(vec![seg(0, 1, "ok")])).unwrap().text,
        "ok"
    );
    assert_eq!(AsrError::DownloadFailed("z".into()).message(), "Download failed: z");
    assert_eq!(AsrError::Io("disk".into()).message(), "I/O error: disk");
}

#[test]
fn models_have_files() {
    let m = ModelManager::new("/cache".to_string());
    assert_eq!(m.cache_dir(), "/cache");
    let p = m.model_path("large");
    assert_eq!((p.dir.as_str(), p.name.as_str()), ("/cache", "ggml-large-v3.bin"));
    assert_eq!(m.model_path("unknown").name, "ggml-tiny.bin");
    assert!(m.is_downloaded("base", &vec!["x".into(), "ggml-base.bin".into()]));
    assert!(!m.is_downloaded("small", &vec!["ggml-base.bin".into()]));
    let sizes: Vec<u64> = ModelManager::models().iter().map(|i| i.size_mb).collect();
    assert_eq!(sizes, vec![75, 142, 466, 1500, 2900]);
}

#[test]
fn downloads_are_planned() {
    let m = ModelManager::new("c".to_string());
    assert!(matches!(
        m.plan_download("tiny", &vec!["ggml-tiny.bin".into()]),
        Ok(DownloadPlan::Cached(_))
    ));
    match m.plan_download("small", &vec![]).unwrap() {
        DownloadPlan::Fetch { dest, url } => {
            assert_eq!(dest.name, "ggml-small.bin");
            assert_eq!(
                url,
                "https://huggingface.co/ggerganov/whisper.cpp/resolve/main/ggml-small.bin"
            );
        }
        other => panic!("{other:?}"),
    }
    assert_eq!(
        m.plan_download("huge", &vec![]).unwrap_err().message(),
        "Download failed: Unknown model: huge"
    );
}

#[test]
fn the_default_configuration() {
    let c = Config::default();
    assert_eq!(c.audio.sample_rate, 16000);
    assert_eq!(c.hotkey.key.as_deref(), Some("V"));
    assert_eq!(c.hotkey.modifiers.as_deref(), Some("Alt"));
    assert_eq!(c.hotkey.activation_mode, ActivationMode::Hold);
    assert_eq!(c.whisper.model_name, "tiny");
    assert_eq!(c.whisper.num_threads, 4);
    assert!(!c.llm.enabled);
    assert!(c.processing.fillers_enabled);
    assert!(c.processing.dictionary.is_empty());
}

#[test]
fn a_configuration_is_loaded_or_made() {
    let mut held = Config::default();
    held.whisper.num_threads = 9;
    let (c, write) = Config::load(true, Some(held));
    assert_eq!((c.whisper.num_threads, write), (9, false));
    let (c, write) = Config::load(true, None);
    assert_eq!((c.whisper.num_threads, write), (4, false));
    let (c, write) = Config::load(false, None);
    assert_eq!((c.whisper.num_threads, write), (4, true));
    let p = Config::config_path(Some("/etc/f".into()));
    assert_eq!((p.dir.as_str(), p.name.as_str()), ("/etc/f", "config.toml"));
    assert_eq!(Config::config_dir(None), ".");
    let p = Config::model_cache_dir(None);
    assert_eq!((p.dir.as_str(), p.name.as_str()), (".", "models"));
    assert_eq!(Config::model_cache_dir(Some("/c".into())).dir, "/c");
}

#[test]
fn the_default_settings() {
    let c = settings::Config::load(None);
    assert_eq!(
        (c.engine.as_str(), c.theme.as_str(), c.hotkey.as_str(), c.mode.as_str()),
        ("auto", "light", "ctrl_win", "hold")
    );
    assert!(!c.toggles() && !c.autostart && !c.remove_fillers);
    assert!(c.mic.is_none() && c.groq_key.is_none());
    let t = settings::Config { mode: "toggle".into(), ..settings::Config::default() };
    assert!(settings::Config::load(Some(t)).toggles());
}

#[test]
fn saving_settings_touches_autostart_only_where_it_differs() {
    assert_eq!(autostart_change(true, false), AutostartChange::Enable);
    assert_eq!(autostart_change(false, true), AutostartChange::Disable);
    assert_eq!(autostart_change(true, true), AutostartChange::Keep);
    assert_eq!(autostart_change(false, false), AutostartChange::Keep);
    assert_eq!(data_dir(Some("d".into())), Ok("d".to_string()));
    assert_eq!(data_dir(None), Err("no app data dir".to_string()));
}

#[test]
fn the_key_comes_from_the_settings_first() {
    let k = |s: &str| Some(s.to_string());
    assert_eq!(choose_key(k("mine"), k("env")), Ok("mine".to_string()));
    assert_eq!(choose_key(k("  "), k("env")), Ok("env".to_string()));
    assert_eq!(choose_key(None, k("")), Ok("".to_string()));
    assert_eq!(
        choose_key(k(" "), None),
        Err("no Groq API key set (Settings → Groq API key)".to_string())
    );
}

#[test]
fn missing_model_files_are_fetched() {
    let urls: Vec<(String, String)> = files_to_fetch(&vec!["decoder.int8.onnx".into()])
        .into_iter()
        .map(|f| (f.name, f.url))
        .collect();
    assert_eq!(
        urls,
        vec!["encoder.int8.onnx", "joiner.int8.onnx", "tokens.txt"]
            .into_iter()
            .map(|n| (n.to_string(), format!("{HF_BASE}{n}")))
            .collect::<Vec<_>>()
    );
    assert_eq!(refused("tokens.txt", "404 Not Found"), "tokens.txt: 404 Not Found");
}

#[test]
fn progress_is_told_when_it_changes() {
    let mut p = Progress::new(200);
    assert_eq!(p.advance(1), Some(0));
    assert_eq!(p.advance(0), None);
    assert_eq!(p.advance(1), Some(1));
    assert_eq!(p.advance(198), Some(100));
    let mut unknown = Progress::new(0);
    assert_eq!(unknown.advance(50), None);
    assert_eq!(unknown.done, 50);
    let mut over = Progress::new(10);
    assert_eq!(over.advance(26), Some(4), "one byte holds 260 percent as 4");
}

#[test]
fn one_download_at_a_time() {
    let mut g = DownloadGate { busy: false };
    assert_eq!(g.enter(), Ok(()));
    assert_eq!(g.enter(), Err("download already in progress".to_string()));
    g.leave();
    assert_eq!(g.enter(), Ok(()));
}

#[test]
fn the_model_is_taken_from_the_first_place_that_has_it() {
    assert_eq!(model_place(Some(true), Some(true), true), Some(ModelPlace::Bundled));
    assert_eq!(model_place(Some(false), Some(true), true), Some(ModelPlace::Downloaded));
    assert_eq!(model_place(None, None, true), Some(ModelPlace::Checkout));
    assert_eq!(model_place(Some(false), None, false), None);
}

fn entry(ts: u64, text: &str) -> Entry {
    Entry { ts, text: text.to_string(), engine: "groq".to_string(), ms: 10 }
}

#[test]
fn history_shows_the_newest_first() {
    let shown = load_history(vec![
        Some(entry(5, "a")),
        None,
        Some(entry(9, "b")),
        Some(entry(5, "c")),
        Some(entry(7, "d")),
    ]);
    let texts: Vec<&str> = shown.iter().map(|e| e.text.as_str()).collect();
    assert_eq!(texts, vec!["b", "d", "a", "c"]);
    assert!(load_history(vec![]).is_empty());
}

#[test]
fn history_lines_split_as_text_lines_do() {
    for t in ["", "a", "a\n", "a\r\nb", "\n\n", "a\rb\n", "x\n\ny", "end\r", "\r\n"] {
        let want: Vec<String> = t.lines().map(|l| l.to_string()).collect();
        assert_eq!(history_lines(t), want, "{t:?}");
    }
}

#[test]
fn an_appended_line_is_the_last() {
    let c = append_line("one\n", "two");
    assert_eq!(c, "one\ntwo\n");
    assert_eq!(history_lines(&c), vec!["one".to_string(), "two".to_string()]);
}

#[test]
fn deleting_keeps_the_other_lines() {
    let lines = history_lines("five\r\njunk\nseven\nfive again");
    let parsed = vec![Some(entry(5, "a")), None, Some(entry(7, "b")), Some(entry(5, "c"))];
    assert_eq!(delete_history(&lines, &parsed, 5), "junk\nseven\n");
    assert_eq!(delete_history(&lines, &parsed, 1), "five\njunk\nseven\nfive again\n");
}
