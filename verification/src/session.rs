//! A dictation session: which engines are tried, what becomes of a transcript,
//! and what the user is shown.

use vstd::prelude::*;

use crate::cleanup::{apply_line_commands, is_undo_command, remove_fillers};
use crate::rules::{apply_rules, Rule};
use crate::text::{from_chars, joined, same_text, to_chars, trim};

verus! {

/// Who transcribes.
#[derive(Debug, Clone, Copy, PartialEq, Eq, Structural)]
pub enum Engine {
    Local,
    Cloud,
}

impl Engine {
    pub open spec fn label(self) -> Seq<char> {
        match self {
            Engine::Local => "parakeet"@,
            Engine::Cloud => "groq"@,
        }
    }

    pub open spec fn title(self) -> Seq<char> {
        match self {
            Engine::Local => "Local"@,
            Engine::Cloud => "Cloud"@,
        }
    }

    /// The name that the history keeps.
    pub fn name(self) -> (s: &'static str)
        ensures
            s@ == self.label(),
    {
        match self {
            Engine::Local => "parakeet",
            Engine::Cloud => "groq",
        }
    }

    fn shown(self) -> (s: &'static str)
        ensures
            s@ == self.title(),
    {
        match self {
            Engine::Local => "Local",
            Engine::Cloud => "Cloud",
        }
    }
}

/// The engines to try, in order: the one that is set, else the local one before
/// the cloud where its model is there.
pub open spec fn engine_order(setting: Option<Seq<char>>, model_present: bool) -> Seq<Engine> {
    if setting == Some("local"@) {
        seq![Engine::Local]
    } else if setting == Some("cloud"@) {
        seq![Engine::Cloud]
    } else if model_present {
        seq![Engine::Local, Engine::Cloud]
    } else {
        seq![Engine::Cloud]
    }
}

/// The view of an optional text.
pub open spec fn opt_view(s: Option<&str>) -> Option<Seq<char>> {
    match s {
        Some(t) => Some(t@),
        None => None,
    }
}

/// The engines to try, in order.
pub fn engines(setting: Option<&str>, model_present: bool) -> (r: Vec<Engine>)
    ensures
        r@ == engine_order(opt_view(setting), model_present),
{
    let mut r: Vec<Engine> = Vec::new();
    if let Some(s) = setting {
        if same_text(s, "local") {
            r.push(Engine::Local);
            assert(r@ =~= engine_order(opt_view(setting), model_present));
            return r;
        }
        if same_text(s, "cloud") {
            r.push(Engine::Cloud);
            proof {
                reveal_strlit("local");
                reveal_strlit("cloud");
                assert("local"@[0] != "cloud"@[0]);
            }
            assert(r@ =~= engine_order(opt_view(setting), model_present));
            return r;
        }
    }
    if model_present {
        r.push(Engine::Local);
    }
    r.push(Engine::Cloud);
    assert(r@ =~= engine_order(opt_view(setting), model_present));
    r
}

/// There is always an engine to try, and none is tried twice.
pub proof fn law_some_engine_is_tried(setting: Option<Seq<char>>, model_present: bool)
    ensures
        1 <= engine_order(setting, model_present).len() <= 2,
        engine_order(setting, model_present).no_duplicates(),
{
}

/// A message for the user, and for how many milliseconds it is shown.
#[derive(Debug)]
pub struct Toast {
    pub text: String,
    pub ms: u64,
}

/// The toast shows `text` for `ms` milliseconds.
pub open spec fn shows(t: Toast, text: Seq<char>, ms: u64) -> bool {
    t.text@ == text && t.ms == ms
}

/// What becomes of what an engine gave.
#[derive(Debug)]
pub enum Outcome {
    /// Nothing was said; no other engine is tried.
    NothingHeard(Toast),
    /// The last dictation is to be undone.
    Undo,
    /// The text is to be inserted.
    Insert(String),
    /// The engine failed; the next one is tried.
    Failed(Toast),
}

/// A transcript without fillers where they are unwanted.
pub open spec fn cleaned(raw: Seq<char>, no_fillers: bool) -> Seq<char> {
    if no_fillers {
        crate::cleanup::without_fillers(raw)
    } else {
        raw
    }
}

/// What is written for a transcript.
pub open spec fn dictated(raw: Seq<char>, no_fillers: bool, rules: Seq<Rule>) -> Seq<char> {
    crate::rules::with_rules(crate::cleanup::with_breaks(cleaned(raw, no_fillers)), rules)
}

/// `clean` is the transcript, without its fillers where they are unwanted.
pub open spec fn is_cleaned(raw: Seq<char>, no_fillers: bool, clean: Seq<char>) -> bool {
    if no_fillers {
        crate::cleanup::fillers_removed(raw, clean)
    } else {
        clean == raw
    }
}

/// `out` is `mid` with the rules obeyed once; it is said of plain text and plain
/// rules whose search compiles.
pub open spec fn is_rewritten(mid: Seq<char>, rules: Seq<Rule>, out: Seq<char>) -> bool {
    crate::pattern::all_plain(mid) && crate::rules::plain_rules(rules) && crate::rules::searchable(
        mid,
        rules,
    ) ==> exists|spans: Seq<(int, int)>| crate::rules::obeyed(mid, rules, spans, out)
}

/// What is written for a transcript: its cues are made into breaks, and the rules
/// are then obeyed.
pub open spec fn is_dictation(clean: Seq<char>, rules: Seq<Rule>, out: Seq<char>) -> bool {
    exists|mid: Seq<char>|
        #[trigger] crate::cleanup::breaks_made(clean, mid) && is_rewritten(mid, rules, out)
}

/// What becomes of a transcript that is not blank, once it is cleaned.
pub open spec fn is_judged(clean: Seq<char>, rules: Seq<Rule>, o: Outcome) -> bool {
    if crate::cleanup::is_undo(clean) {
        o is Undo
    } else {
        o matches Outcome::Insert(text) && is_dictation(clean, rules, text@)
    }
}

/// Decides on what an engine gave. A blank transcript ends the dictation; a
/// request to undo is not written; any other transcript is cleaned, broken into
/// lines and rewritten by the rules.
pub fn judge(
    engine: Engine,
    result: Result<String, String>,
    no_fillers: bool,
    rules: &[Rule],
) -> (o: Outcome)
    ensures
        match result {
            Err(e) => o matches Outcome::Failed(t) && shows(
                t,
                engine.title() + " failed: "@ + e@,
                3500,
            ),
            Ok(raw) => if crate::text::is_blank(raw@) {
                o matches Outcome::NothingHeard(t) && shows(t, "Nothing heard"@, 2500)
            } else if crate::cleanup::is_undo(cleaned(raw@, no_fillers)) {
                o is Undo
            } else {
                o matches Outcome::Insert(text) && text@ == dictated(raw@, no_fillers, rules@)
            },
        },
        result matches Ok(raw) ==> !crate::text::is_blank(raw@) ==> exists|clean: Seq<char>|
            #[trigger] is_cleaned(raw@, no_fillers, clean) && is_judged(clean, rules@, o) && (
            crate::text::all_ascii(crate::text::trimmed(clean)) ==> (o is Undo
                <==> crate::cleanup::says_undo_only(clean))),
{
    match result {
        Err(e) => {
            let head = joined(engine.shown(), " failed: ");
            Outcome::Failed(Toast { text: joined(head.as_str(), e.as_str()), ms: 3500 })
        },
        Ok(raw) => {
            if to_chars(trim(raw.as_str()).as_str()).len() == 0 {
                return Outcome::NothingHeard(
                    Toast { text: "Nothing heard".to_owned(), ms: 2500 },
                );
            }
            let ghost said = raw@;
            let clean = if no_fillers {
                remove_fillers(raw.as_str())
            } else {
                raw
            };
            assert(is_cleaned(said, no_fillers, clean@));
            if is_undo_command(clean.as_str()) {
                return Outcome::Undo;
            }
            let broken = apply_line_commands(clean.as_str());
            let text = apply_rules(broken.as_str(), rules);
            assert(is_rewritten(broken@, rules@, text@));
            assert(is_dictation(clean@, rules@, text@));
            Outcome::Insert(text)
        },
    }
}

/// A dictation without cues is rewritten once: where one phrase stands in it once
/// and no other does, what its first rule says stands there as it is, and the rest
/// is kept. What was written is not searched again.
pub proof fn law_dictation_is_rewritten_once(
    clean: Seq<char>,
    rules: Seq<Rule>,
    out: Seq<char>,
    n: int,
    at: int,
)
    requires
        is_dictation(clean, rules, out),
        crate::cleanup::is_free_of_cues(clean, crate::pattern::paragraph_words()),
        crate::cleanup::is_free_of_cues(clean, crate::pattern::line_words()),
        crate::pattern::all_plain(clean),
        crate::rules::plain_rules(rules),
        crate::rules::searchable(clean, rules),
        0 <= n < crate::rules::active_pairs(rules).len(),
        crate::pattern::stands_at(clean, at, crate::rules::active_pairs(rules)[n].0),
        forall|i: int, a: int|
            0 <= i < crate::rules::active_pairs(rules).len() && #[trigger] crate::pattern::stands_at(
                clean,
                a,
                crate::rules::active_pairs(rules)[i].0,
            ) ==> a == at && crate::rules::active_pairs(rules)[i].0.len()
                <= crate::rules::active_pairs(rules)[n].0.len(),
        forall|i: int|
            0 <= i < n ==> !crate::rules::same_letters(
                (#[trigger] crate::rules::active_pairs(rules)[i]).0,
                crate::rules::active_pairs(rules)[n].0,
            ),
    ensures
        out == clean.take(at) + crate::rules::active_pairs(rules)[n].1 + clean.skip(
            at + crate::rules::active_pairs(rules)[n].0.len(),
        ),
{
    let mid = choose|mid: Seq<char>|
        #[trigger] crate::cleanup::breaks_made(clean, mid) && is_rewritten(mid, rules, out);
    crate::cleanup::law_no_break_without_cue(clean, mid);
    let spans = choose|spans: Seq<(int, int)>| crate::rules::obeyed(mid, rules, spans, out);
    crate::rules::law_lone_phrase_is_rewritten(clean, rules, spans, out, n, at);
}

/// A dictation in which neither a cue nor a phrase of the rules stands is written
/// as it was said.
pub proof fn law_plain_dictation_is_kept(clean: Seq<char>, rules: Seq<Rule>, out: Seq<char>)
    requires
        is_dictation(clean, rules, out),
        crate::cleanup::is_free_of_cues(clean, crate::pattern::paragraph_words()),
        crate::cleanup::is_free_of_cues(clean, crate::pattern::line_words()),
        crate::pattern::all_plain(clean),
        crate::rules::plain_rules(rules),
        crate::rules::searchable(clean, rules),
        forall|i: int, a: int|
            0 <= i < crate::rules::active_pairs(rules).len()
                ==> !#[trigger] crate::pattern::stands_at(
                clean,
                a,
                crate::rules::active_pairs(rules)[i].0,
            ),
    ensures
        out == clean,
{
    let mid = choose|mid: Seq<char>|
        #[trigger] crate::cleanup::breaks_made(clean, mid) && is_rewritten(mid, rules, out);
    crate::cleanup::law_no_break_without_cue(clean, mid);
    let spans = choose|spans: Seq<(int, int)>| crate::rules::obeyed(mid, rules, spans, out);
    crate::rules::law_absent_phrases_change_nothing(clean, rules, spans, out);
}

/// Where the engines of a dictation stand: which are to be tried, and how many
/// of them have failed.
#[derive(Debug)]
pub struct Chain {
    pub engines: Vec<Engine>,
    pub failed: usize,
}

/// What a dictation does next.
#[derive(Debug)]
pub enum ChainStep {
    /// Ask this engine.
    Ask(Engine),
    /// The dictation ends, with a message where there was an engine to fail.
    GiveUp(Option<Toast>),
}

/// How many engines have failed, one outcome later.
pub open spec fn failures(failed: int, outcome: Outcome) -> int {
    if outcome is Failed {
        failed + 1
    } else {
        failed
    }
}

impl Chain {
    pub open spec fn wf(self) -> bool {
        self.failed <= self.engines.len()
    }

    /// No engine has been asked.
    pub fn new(engines: Vec<Engine>) -> (c: Chain)
        ensures
            c.wf(),
            c.engines == engines,
            c.failed == 0,
    {
        Chain { engines, failed: 0 }
    }

    /// The engine to ask, or the end once all have failed.
    pub fn next(&self) -> (s: ChainStep)
        requires
            self.wf(),
        ensures
            self.failed < self.engines.len() ==> s == ChainStep::Ask(
                self.engines[self.failed as int],
            ),
            self.failed == self.engines.len() && self.failed > 0 ==> (s matches ChainStep::GiveUp(
                Some(t),
            ) && shows(t, "All transcription engines failed"@, 3500)),
            self.failed == self.engines.len() && self.failed == 0 ==> s == ChainStep::GiveUp(None),
    {
        if self.failed < self.engines.len() {
            ChainStep::Ask(self.engines[self.failed])
        } else if self.failed > 0 {
            ChainStep::GiveUp(
                Some(Toast { text: "All transcription engines failed".to_owned(), ms: 3500 }),
            )
        } else {
            ChainStep::GiveUp(None)
        }
    }

    /// Whether the dictation goes on after an outcome: only a failure leads to
    /// the next engine.
    pub fn goes_on(&mut self, outcome: &Outcome) -> (b: bool)
        requires
            old(self).wf(),
            old(self).failed < old(self).engines.len(),
        ensures
            final(self).wf(),
            final(self).engines == old(self).engines,
            b == (*outcome is Failed),
            final(self).failed == failures(old(self).failed as int, *outcome),
    {
        match outcome {
            Outcome::Failed(_) => {
                self.failed = self.failed + 1;
                true
            },
            _ => false,
        }
    }
}

/// How many engines have failed after a number of answers.
pub open spec fn failures_after(answers: Seq<Outcome>) -> int
    decreases answers.len(),
{
    if answers.len() == 0 {
        0
    } else {
        failures(failures_after(answers.drop_last()), answers.last())
    }
}

/// Engines are asked in turn: while all answers are failures, the next engine is
/// the one at their number, and none is passed over or asked again.
pub proof fn law_engines_are_asked_in_turn(answers: Seq<Outcome>)
    requires
        forall|i: int| 0 <= i < answers.len() ==> (#[trigger] answers[i]) is Failed,
    ensures
        failures_after(answers) == answers.len(),
    decreases answers.len(),
{
    if answers.len() > 0 {
        let d = answers.drop_last();
        assert forall|i: int| 0 <= i < d.len() implies (#[trigger] d[i]) is Failed by {
            assert(d[i] == answers[i]);
        }
        law_engines_are_asked_in_turn(d);
        assert(answers[answers.len() - 1] is Failed);
    }
}

/// For how many seconds a dictation can be undone by voice.
pub const UNDO_WINDOW_SECS: u64 = 120;

/// Whether the last dictation can still be undone. `slot` holds when it was
/// pasted, unless it has been undone, and `elapsed` is the number of whole seconds
/// since then.
pub fn can_undo(slot: &Option<std::time::Instant>, elapsed: u64) -> (b: bool)
    ensures
        b == (*slot is Some && elapsed < UNDO_WINDOW_SECS),
{
    slot.is_some() && elapsed < UNDO_WINDOW_SECS
}

/// Notes the outcome of a request to undo: whether the dictation was undone, which
/// takes a recent one and a keystroke that was `sent`. Else nothing is changed, and
/// the dictation can be undone later; one that was undone is not undone again.
pub fn undone(slot: &mut Option<std::time::Instant>, elapsed: u64, sent: bool) -> (b: bool)
    ensures
        b == (*old(slot) is Some && elapsed < UNDO_WINDOW_SECS && sent),
        b ==> *final(slot) is None,
        !b ==> *final(slot) == *old(slot),
{
    let b = can_undo(slot, elapsed) && sent;
    if b {
        *slot = None;
    }
    b
}

/// What the user is told after a request to undo.
pub fn undo_toast(undone: bool) -> (t: Toast)
    ensures
        undone ==> shows(t, "\u{21A9} Undid last dictation"@, 1800),
        !undone ==> shows(t, "Nothing recent to undo"@, 2500),
{
    if undone {
        Toast { text: "\u{21A9} Undid last dictation".to_owned(), ms: 1800 }
    } else {
        Toast { text: "Nothing recent to undo".to_owned(), ms: 2500 }
    }
}

/// How many characters of a dictation the user is shown.
pub const PREVIEW_CHARS: usize = 48;

/// The start of a text.
pub open spec fn preview(text: Seq<char>) -> Seq<char> {
    if text.len() <= PREVIEW_CHARS {
        text
    } else {
        text.take(PREVIEW_CHARS as int)
    }
}

/// What the user is told after a text was pasted.
pub fn paste_toast(text: &str, pasted: Result<(), String>) -> (t: Toast)
    ensures
        match pasted {
            Ok(_) => shows(t, "\u{2713} "@ + preview(text@), 1600),
            Err(e) => shows(t, "Paste failed: "@ + e@, 3500),
        },
{
    match pasted {
        Ok(_) => {
            let v = to_chars(text);
            let n = if v.len() < PREVIEW_CHARS {
                v.len()
            } else {
                PREVIEW_CHARS
            };
            let mut head: Vec<char> = Vec::new();
            for i in 0..n
                invariant
                    n <= v.len(),
                    head@ == v@.take(i as int),
            {
                head.push(v[i]);
                assert(v@.take(i + 1) =~= v@.take(i as int).push(v@[i as int]));
            }
            assert(head@ =~= preview(text@));
            Toast { text: joined("\u{2713} ", from_chars(&head).as_str()), ms: 1600 }
        },
        Err(e) => Toast { text: joined("Paste failed: ", e.as_str()), ms: 3500 },
    }
}

/// What goes back on the clipboard after a paste: what was there before, unless
/// something new has been copied since.
pub fn restore_clipboard(current: Option<String>, mine: &str, previous: Option<String>) -> (r: Option<
    String,
>)
    ensures
        r == (match current {
            Some(c) if c@ == mine@ => previous,
            _ => None,
        }),
{
    match current {
        Some(c) => if same_text(c.as_str(), mine) {
            previous
        } else {
            None
        },
        None => None,
    }
}

/// The cloud service for transcription.
pub const GROQ_URL: &'static str = "https://api.groq.com/openai/v1/audio/transcriptions";

/// A text field of a request.
#[derive(Debug)]
pub struct Field {
    pub name: String,
    pub value: String,
}

pub open spec fn is_field(f: Field, name: Seq<char>, value: Seq<char>) -> bool {
    f.name@ == name && f.value@ == value
}

/// The text fields of a request to the cloud service; the recording goes with
/// them as a file.
pub fn cloud_fields(prompt: Option<String>) -> (r: Vec<Field>)
    ensures
        r@.len() == (if prompt is Some {
            3nat
        } else {
            2nat
        }),
        is_field(r@[0], "model"@, "whisper-large-v3-turbo"@),
        is_field(r@[1], "response_format"@, "text"@),
        prompt matches Some(p) ==> is_field(r@[2], "prompt"@, p@),
{
    let mut r: Vec<Field> = Vec::new();
    r.push(Field { name: "model".to_owned(), value: "whisper-large-v3-turbo".to_owned() });
    r.push(Field { name: "response_format".to_owned(), value: "text".to_owned() });
    if let Some(p) = prompt {
        r.push(Field { name: "prompt".to_owned(), value: p });
    }
    r
}

/// What a reply of the cloud service comes to.
pub fn cloud_reply(success: bool, status: &str, body: String) -> (r: Result<String, String>)
    ensures
        success ==> r == Ok::<String, String>(body),
        !success ==> (r matches Err(m) && m@ == "groq "@ + status@ + ": "@ + body@),
{
    if success {
        return Ok(body);
    }
    let head = joined(joined("groq ", status).as_str(), ": ");
    Err(joined(head.as_str(), body.as_str()))
}

/// What the local engine's run comes to. `text` is nothing where it gave none.
pub fn local_reply(installed: bool, created: bool, text: Option<String>) -> (r: Result<
    String,
    String,
>)
    ensures
        !installed ==> (r matches Err(m) && m@
            == "local engine not installed (Settings \u{2192} Local engine)"@),
        installed && !created ==> (r matches Err(m) && m@
            == "failed to create parakeet recognizer"@),
        installed && created ==> match text {
            Some(t) => r == Ok::<String, String>(t),
            None => r matches Err(m) && m@ == "parakeet returned no result"@,
        },
{
    if !installed {
        return Err("local engine not installed (Settings \u{2192} Local engine)".to_owned());
    }
    if !created {
        return Err("failed to create parakeet recognizer".to_owned());
    }
    match text {
        Some(t) => Ok(t),
        None => Err("parakeet returned no result".to_owned()),
    }
}

/// Half of `x`, towards zero.
pub open spec fn half(x: int) -> int {
    if x >= 0 {
        x / 2
    } else {
        -((-x) / 2)
    }
}

/// The number that the bits of `u` stand for as a signed number.
pub open spec fn signed(u: u32) -> int {
    if u <= i32::MAX {
        u as int
    } else {
        u - 0x1_0000_0000
    }
}

fn to_signed(u: u32) -> (i: i32)
    ensures
        i == signed(u),
{
    if u <= 0x7fff_ffff {
        u as i32
    } else {
        (u as i64 - 0x1_0000_0000) as i32
    }
}

/// The place of the recording sign: at the bottom of the screen, in the middle.
pub fn pill_position(width: u32, height: u32) -> (p: (i32, i32))
    requires
        signed(width) - 260 >= i32::MIN,
        signed(height) - 160 >= i32::MIN,
    ensures
        p.0 == half(signed(width) - 260),
        p.1 == signed(height) - 160,
{
    let x = to_signed(width) - 260;
    let left = if x >= 0 {
        x / 2
    } else if x == i32::MIN {
        -0x4000_0000
    } else {
        -((-x) / 2)
    };
    (left, to_signed(height) - 160)
}

/// What an entry of the tray menu does.
#[derive(Debug, Clone, Copy, PartialEq, Eq, Structural)]
pub enum MenuAction {
    Quit,
    OpenHub,
    /// Show the recording sign for three seconds.
    TestPill,
    Ignore,
}

/// What the entry with this id does.
pub fn menu_action(id: &str) -> (a: MenuAction)
    ensures
        a == MenuAction::Quit <==> id@ == "quit"@,
        a == MenuAction::OpenHub <==> id@ == "open_hub"@,
        a == MenuAction::TestPill <==> id@ == "test_pill"@,
{
    proof {
        reveal_strlit("quit");
        reveal_strlit("open_hub");
        reveal_strlit("test_pill");
        assert("quit"@[0] == 'q' && "open_hub"@[0] == 'o' && "test_pill"@[0] == 't');
    }
    if same_text(id, "quit") {
        MenuAction::Quit
    } else if same_text(id, "open_hub") {
        MenuAction::OpenHub
    } else if same_text(id, "test_pill") {
        MenuAction::TestPill
    } else {
        MenuAction::Ignore
    }
}

/// Whether closing the window with this label hides it instead: the hub goes to
/// the tray.
pub fn hides_on_close(label: &str) -> (b: bool)
    ensures
        b == (label@ == "main"@),
{
    same_text(label, "main")
}

/// The engine that is set is the only one that is tried. Where none is set, the
/// local one comes first, but only where its model is there, and the cloud follows.
pub proof fn law_engines_that_are_tried(setting: Option<Seq<char>>, model_present: bool)
    ensures
        ({
            let order = engine_order(setting, model_present);
            &&& setting == Some("local"@) ==> order == seq![Engine::Local]
            &&& setting == Some("cloud"@) ==> order == seq![Engine::Cloud]
            &&& setting != Some("local"@) && setting != Some("cloud"@) ==> order.last()
                == Engine::Cloud && (order.contains(Engine::Local) <==> model_present)
            &&& order.contains(Engine::Local) && order.contains(Engine::Cloud) ==> order == seq![
                Engine::Local,
                Engine::Cloud,
            ]
        }),
{
    let order = engine_order(setting, model_present);
    reveal_strlit("local");
    reveal_strlit("cloud");
    assert("local"@[0] != "cloud"@[0]);
    if setting != Some("local"@) && setting != Some("cloud"@) {
        if model_present {
            assert(order[0] == Engine::Local);
        }
    } else {
        assert(order.len() == 1);
    }
    if order.contains(Engine::Local) && order.contains(Engine::Cloud) {
        assert(order.len() == 2) by {
            if order.len() == 1 {
                assert(order[0] == Engine::Local && order[0] == Engine::Cloud);
            }
        }
    }
}

/// How the engines are called in the history and before the user.
pub proof fn law_engine_names()
    ensures
        Engine::Local.label() == "parakeet"@,
        Engine::Cloud.label() == "groq"@,
        Engine::Local.title() == "Local"@,
        Engine::Cloud.title() == "Cloud"@,
        GROQ_URL@ == "https://api.groq.com/openai/v1/audio/transcriptions"@,
{
}

/// A dictation can be undone for two minutes.
pub proof fn law_undo_window()
    ensures
        UNDO_WINDOW_SECS == 2 * 60,
{
}

/// What is shown of a dictation is its start, of 48 characters at most, and all of
/// it where it is no longer.
pub proof fn law_preview_is_the_start(text: Seq<char>)
    ensures
        preview(text).len() <= 48,
        preview(text) == text.take(preview(text).len() as int),
        text.len() <= 48 ==> preview(text) == text,
        text.len() > 48 ==> preview(text).len() == 48,
{
    assert(preview(text) =~= text.take(preview(text).len() as int));
}

/// The sign is centred: what is left of the screen beside its 260 points is the same
/// on both sides, but for one point.
pub proof fn law_sign_is_centred(width: u32)
    requires
        260 <= width <= i32::MAX,
    ensures
        signed(width) == width,
        0 <= half(signed(width) - 260),
        0 <= (width - 260 - half(signed(width) - 260)) - half(signed(width) - 260) <= 1,
{
}

/// Bits stand for the signed number that they are congruent to.
pub proof fn law_signed(u: u32)
    ensures
        i32::MIN <= signed(u) <= i32::MAX,
        signed(u) == u || signed(u) + 0x1_0000_0000 == u,
{
}

/// Halves are rounded towards zero.
pub proof fn law_half(x: int)
    ensures
        half(-x) == -half(x),
        x >= 0 ==> 0 <= x - 2 * half(x) <= 1,
{
}

} // verus!
