//! Text insertion: the keystrokes and the clipboard steps that bring a text into
//! another window.

use vstd::prelude::*;

use crate::text::{joined, to_chars, to_decimal};

verus! {

/// Where a text goes.
#[derive(Debug, Clone, Copy, PartialEq, Eq, Structural)]
pub enum InsertTarget {
    FocusedWindow,
    Pid(u32),
}

/// Why a text could not be inserted.
#[derive(Debug, Clone)]
pub enum InsertError {
    TypeFailed(String),
    PermissionDenied,
    ClipboardFailed,
    TargetNotFound(u32),
    EmptyText,
}

impl InsertError {
    /// The text of the error.
    pub open spec fn text(self) -> Seq<char> {
        match self {
            InsertError::TypeFailed(e) => "Failed to type text: "@ + e@,
            InsertError::PermissionDenied => "Accessibility permissions not granted"@,
            InsertError::ClipboardFailed => "Clipboard operation failed"@,
            InsertError::TargetNotFound(pid) => "Target not found: PID "@ + crate::text::decimal(
                pid as nat,
            ),
            InsertError::EmptyText => "Empty text"@,
        }
    }

    pub fn message(&self) -> (s: String)
        ensures
            s@ == self.text(),
    {
        match self {
            InsertError::TypeFailed(e) => joined("Failed to type text: ", e.as_str()),
            InsertError::PermissionDenied => "Accessibility permissions not granted".to_owned(),
            InsertError::ClipboardFailed => "Clipboard operation failed".to_owned(),
            InsertError::TargetNotFound(pid) => joined(
                "Target not found: PID ",
                to_decimal(*pid as u64).as_str(),
            ),
            InsertError::EmptyText => "Empty text".to_owned(),
        }
    }
}

/// One character in UTF-16: one unit, or a surrogate pair.
pub open spec fn utf16_of(c: char) -> Seq<u16> {
    let u = c as u32;
    if u < 0x10000 {
        seq![u as u16]
    } else {
        seq![
            (0xd800 + (u - 0x10000) / 0x400) as u16,
            (0xdc00 + (u - 0x10000) % 0x400) as u16,
        ]
    }
}

/// A text in UTF-16.
pub open spec fn utf16(t: Seq<char>) -> Seq<u16>
    decreases t.len(),
{
    if t.len() == 0 {
        seq![]
    } else {
        utf16(t.drop_last()) + utf16_of(t.last())
    }
}

/// The text in UTF-16.
pub fn encode_utf16(text: &str) -> (r: Vec<u16>)
    ensures
        r@ == utf16(text@),
{
    let v = to_chars(text);
    let mut r: Vec<u16> = Vec::new();
    for i in 0..v.len()
        invariant
            r@ == utf16(v@.take(i as int)),
    {
        assert(v@.take(i + 1).drop_last() =~= v@.take(i as int));
        let u = v[i] as u32;
        if u < 0x10000 {
            r.push(u as u16);
        } else {
            let rest = u - 0x10000;
            r.push((0xd800 + rest / 0x400) as u16);
            r.push((0xdc00 + rest % 0x400) as u16);
        }
        assert(r@ =~= utf16(v@.take(i + 1)));
    }
    assert(v@.take(v@.len() as int) =~= v@);
    r
}

pub open spec fn is_high_surrogate(u: u16) -> bool {
    0xd800 <= u < 0xdc00
}

/// The text that UTF-16 units stand for: a high surrogate counts together with
/// the unit behind it.
pub open spec fn from_utf16(units: Seq<u16>) -> Seq<char>
    decreases units.len(),
{
    if units.len() == 0 {
        seq![]
    } else if is_high_surrogate(units[0]) && units.len() > 1 {
        let u = 0x10000 + (units[0] - 0xd800) * 0x400 + (units[1] - 0xdc00);
        seq![(u as u32) as char] + from_utf16(units.skip(2))
    } else {
        seq![(units[0] as u32) as char] + from_utf16(units.skip(1))
    }
}

proof fn lemma_utf16_of_two(a: Seq<char>, b: Seq<char>)
    ensures
        utf16(a + b) == utf16(a) + utf16(b),
    decreases b.len(),
{
    if b.len() == 0 {
        assert(a + b =~= a);
        assert(utf16(a) + utf16(b) =~= utf16(a));
    } else {
        lemma_utf16_of_two(a, b.drop_last());
        assert((a + b).drop_last() =~= a + b.drop_last());
        assert(utf16(a + b) =~= utf16(a) + utf16(b));
    }
}

proof fn lemma_units_of(c: char)
    ensures
        ({
            let u = c as u32;
            let s = utf16_of(c);
            &&& u < 0x10000 ==> s == seq![u as u16] && s[0] == u && !is_high_surrogate(s[0])
                && (s[0] as u32) as char == c
            &&& u >= 0x10000 ==> s.len() == 2 && is_high_surrogate(s[0]) && ((0x10000 + (s[0]
                - 0xd800) * 0x400 + (s[1] - 0xdc00)) as u32) as char == c
        }),
{
}

/// The units of a text stand for that text.
pub proof fn law_utf16_reads_back(t: Seq<char>)
    ensures
        from_utf16(utf16(t)) == t,
    decreases t.len(),
{
    if t.len() > 0 {
        let c = t.first();
        let one = seq![c];
        let rest = t.drop_first();
        assert(t =~= one + rest);
        lemma_utf16_of_two(one, rest);
        assert(one.drop_last() =~= seq![]);
        assert(utf16(one) =~= utf16_of(c)) by {
            reveal_with_fuel(utf16, 2);
        }
        law_utf16_reads_back(rest);
        let all = utf16(t);
        assert(all == utf16_of(c) + utf16(rest));
        lemma_units_of(c);
        if (c as u32) < 0x10000 {
            assert(all[0] == utf16_of(c)[0]);
            assert(all.skip(1) =~= utf16(rest));
        } else {
            assert(all[0] == utf16_of(c)[0] && all[1] == utf16_of(c)[1]);
            assert(all.skip(2) =~= utf16(rest));
        }
        assert(from_utf16(all) =~= t);
    } else {
        assert(from_utf16(utf16(t)) =~= t);
    }
}

/// One keyboard event: a virtual key, or a UTF-16 unit where `unicode` is set.
#[derive(Debug, Clone, Copy, PartialEq, Eq, Structural)]
pub struct Stroke {
    pub key: u16,
    pub unit: u16,
    pub unicode: bool,
    pub up: bool,
}

/// The virtual-key code of the Control key.
pub const VK_CONTROL: u16 = 0x11;

/// The virtual-key code of the V key.
pub const VK_V: u16 = 0x56;

/// A UTF-16 unit as a stroke, down or up.
pub open spec fn unit_stroke(unit: u16, up: bool) -> Stroke {
    Stroke { key: 0, unit, unicode: true, up }
}

/// A key as a stroke, down or up.
pub open spec fn key_stroke(key: u16, up: bool) -> Stroke {
    Stroke { key, unit: 0, unicode: false, up }
}

/// Each unit pressed and released, in order.
pub open spec fn typed(units: Seq<u16>) -> Seq<Stroke> {
    Seq::new(2 * units.len(), |i: int| unit_stroke(units[i / 2], i % 2 == 1))
}

/// The strokes that type a text: each UTF-16 unit is pressed and released.
pub fn type_strokes(text: &str) -> (r: Vec<Stroke>)
    ensures
        r@ == typed(utf16(text@)),
{
    let units = encode_utf16(text);
    let mut r: Vec<Stroke> = Vec::new();
    for i in 0..units.len()
        invariant
            r@.len() == 2 * i,
            forall|j: int| 0 <= j < 2 * i ==> #[trigger] r@[j] == typed(units@)[j],
    {
        r.push(Stroke { key: 0, unit: units[i], unicode: true, up: false });
        r.push(Stroke { key: 0, unit: units[i], unicode: true, up: true });
    }
    assert(r@ =~= typed(units@));
    r
}

/// Control and V, pressed and released.
pub open spec fn paste_chord() -> Seq<Stroke> {
    seq![
        key_stroke(VK_CONTROL, false),
        key_stroke(VK_V, false),
        key_stroke(VK_V, true),
        key_stroke(VK_CONTROL, true),
    ]
}

/// The strokes that paste.
pub fn paste_strokes() -> (r: Vec<Stroke>)
    ensures
        r@ == paste_chord(),
{
    let mut r: Vec<Stroke> = Vec::new();
    r.push(Stroke { key: VK_CONTROL, unit: 0, unicode: false, up: false });
    r.push(Stroke { key: VK_V, unit: 0, unicode: false, up: false });
    r.push(Stroke { key: VK_V, unit: 0, unicode: false, up: true });
    r.push(Stroke { key: VK_CONTROL, unit: 0, unicode: false, up: true });
    assert(r@ =~= paste_chord());
    r
}

/// A key is up in the strokes before `n`.
pub open spec fn is_up_before(strokes: Seq<Stroke>, key: u16, unit: u16, n: int) -> bool
    decreases n,
{
    if n <= 0 {
        true
    } else if strokes[n - 1].key == key && strokes[n - 1].unit == unit {
        strokes[n - 1].up
    } else {
        is_up_before(strokes, key, unit, n - 1)
    }
}

/// Typing leaves no key down.
pub proof fn law_typing_releases_all(units: Seq<u16>, n: int, key: u16, unit: u16)
    requires
        0 <= n <= units.len(),
    ensures
        is_up_before(typed(units), key, unit, 2 * n),
    decreases n,
{
    if n > 0 {
        law_typing_releases_all(units, n - 1, key, unit);
        let s = typed(units);
        assert(s[2 * n - 1].up);
        assert(s[2 * n - 1].unit == s[2 * n - 2].unit && s[2 * n - 1].key == s[2 * n - 2].key);
        reveal_with_fuel(is_up_before, 3);
    }
}

/// Pasting leaves no key down.
pub proof fn law_pasting_releases_all(key: u16, unit: u16)
    ensures
        is_up_before(paste_chord(), key, unit, 4),
{
    reveal_with_fuel(is_up_before, 5);
}

/// A step of putting a text on the clipboard and pasting it.
#[derive(Debug, Clone, Copy, PartialEq, Eq, Structural)]
pub enum PasteStep {
    Open,
    Empty,
    Allocate,
    Lock,
    Copy,
    Unlock,
    SetData,
    Close,
    /// Waiting for the clipboard to settle.
    Settle,
    SendKeys,
    Done,
    /// Closing the clipboard after a failure.
    Abandon,
    Failed,
}

impl PasteStep {
    /// The step that follows, by whether this one worked. Only opening the
    /// clipboard and getting memory for the text can fail.
    pub open spec fn after(self, ok: bool) -> PasteStep {
        match self {
            PasteStep::Open => if ok {
                PasteStep::Empty
            } else {
                PasteStep::Failed
            },
            PasteStep::Empty => PasteStep::Allocate,
            PasteStep::Allocate => if ok {
                PasteStep::Lock
            } else {
                PasteStep::Abandon
            },
            PasteStep::Lock => if ok {
                PasteStep::Copy
            } else {
                PasteStep::Abandon
            },
            PasteStep::Copy => PasteStep::Unlock,
            PasteStep::Unlock => PasteStep::SetData,
            PasteStep::SetData => PasteStep::Close,
            PasteStep::Close => PasteStep::Settle,
            PasteStep::Settle => PasteStep::SendKeys,
            PasteStep::SendKeys => PasteStep::Done,
            PasteStep::Abandon => PasteStep::Failed,
            PasteStep::Done => PasteStep::Done,
            PasteStep::Failed => PasteStep::Failed,
        }
    }

    /// The clipboard is open when the step begins.
    pub open spec fn has_clipboard(self) -> bool {
        match self {
            PasteStep::Empty | PasteStep::Allocate | PasteStep::Lock | PasteStep::Copy
            | PasteStep::Unlock | PasteStep::SetData | PasteStep::Close | PasteStep::Abandon => true,
            _ => false,
        }
    }

    /// How many steps are left at most.
    pub open spec fn rank(self) -> nat {
        match self {
            PasteStep::Open => 10,
            PasteStep::Empty => 9,
            PasteStep::Allocate => 8,
            PasteStep::Lock => 7,
            PasteStep::Copy => 6,
            PasteStep::Unlock => 5,
            PasteStep::SetData => 4,
            PasteStep::Close => 3,
            PasteStep::Settle => 2,
            PasteStep::SendKeys => 1,
            PasteStep::Abandon => 1,
            PasteStep::Done => 0,
            PasteStep::Failed => 0,
        }
    }

    /// The step that follows, by whether this one worked.
    pub fn next(self, ok: bool) -> (s: PasteStep)
        ensures
            s == self.after(ok),
    {
        match self {
            PasteStep::Open => if ok {
                PasteStep::Empty
            } else {
                PasteStep::Failed
            },
            PasteStep::Empty => PasteStep::Allocate,
            PasteStep::Allocate => if ok {
                PasteStep::Lock
            } else {
                PasteStep::Abandon
            },
            PasteStep::Lock => if ok {
                PasteStep::Copy
            } else {
                PasteStep::Abandon
            },
            PasteStep::Copy => PasteStep::Unlock,
            PasteStep::Unlock => PasteStep::SetData,
            PasteStep::SetData => PasteStep::Close,
            PasteStep::Close => PasteStep::Settle,
            PasteStep::Settle => PasteStep::SendKeys,
            PasteStep::SendKeys => PasteStep::Done,
            PasteStep::Abandon => PasteStep::Failed,
            PasteStep::Done => PasteStep::Done,
            PasteStep::Failed => PasteStep::Failed,
        }
    }

    /// What the steps come to, once they have ended.
    pub fn outcome(self) -> (r: Option<Result<(), InsertError>>)
        ensures
            match r {
                None => self != PasteStep::Done && self != PasteStep::Failed,
                Some(Ok(_)) => self == PasteStep::Done,
                Some(Err(e)) => self == PasteStep::Failed && e == InsertError::ClipboardFailed,
            },
    {
        match self {
            PasteStep::Done => Some(Ok(())),
            PasteStep::Failed => Some(Err(InsertError::ClipboardFailed)),
            _ => None,
        }
    }
}

/// The step after a number of steps, by whether each of them worked.
pub open spec fn steps(from: PasteStep, oks: Seq<bool>) -> PasteStep
    decreases oks.len(),
{
    if oks.len() == 0 {
        from
    } else {
        steps(from, oks.drop_last()).after(oks.last())
    }
}

/// A clipboard that is open is closed before the steps end: only the two steps
/// that close it, and those that find it closed, lead out.
pub proof fn law_clipboard_is_closed(step: PasteStep, ok: bool)
    ensures
        step.has_clipboard() && !step.after(ok).has_clipboard() ==> step == PasteStep::Close || step
            == PasteStep::Abandon,
        !PasteStep::Done.has_clipboard(),
        !PasteStep::Failed.has_clipboard(),
{
}

/// The steps end: each one lowers the number of steps left.
pub proof fn law_pasting_ends(oks: Seq<bool>)
    requires
        oks.len() >= 10,
    ensures
        steps(PasteStep::Open, oks) == PasteStep::Done || steps(PasteStep::Open, oks)
            == PasteStep::Failed,
{
    lemma_rank_falls(oks);
}

proof fn lemma_rank_falls(oks: Seq<bool>)
    ensures
        steps(PasteStep::Open, oks).rank() == 0 || steps(PasteStep::Open, oks).rank() + oks.len()
            <= 10,
    decreases oks.len(),
{
    if oks.len() > 0 {
        lemma_rank_falls(oks.drop_last());
    }
}

/// Where every step works, the text is pasted.
pub proof fn law_pasting_succeeds(oks: Seq<bool>)
    requires
        oks.len() >= 10,
        forall|i: int| 0 <= i < oks.len() ==> #[trigger] oks[i],
    ensures
        steps(PasteStep::Open, oks) == PasteStep::Done,
{
    law_pasting_ends(oks);
    lemma_all_work(oks);
}

proof fn lemma_all_work(oks: Seq<bool>)
    requires
        forall|i: int| 0 <= i < oks.len() ==> #[trigger] oks[i],
    ensures
        steps(PasteStep::Open, oks) != PasteStep::Failed,
        steps(PasteStep::Open, oks) != PasteStep::Abandon,
    decreases oks.len(),
{
    if oks.len() > 0 {
        let d = oks.drop_last();
        assert forall|i: int| 0 <= i < d.len() implies #[trigger] d[i] by {
            assert(d[i] == oks[i]);
        }
        lemma_all_work(d);
        assert(oks[oks.len() - 1]);
    }
}

/// What to do for an insertion: strokes to send, and, should that fail, UTF-16
/// units to put on the clipboard before the strokes that paste them.
#[derive(Debug, Clone)]
pub struct InsertPlan {
    pub strokes: Vec<Stroke>,
    pub clipboard: Option<ClipboardPlan>,
}

#[derive(Debug, Clone)]
pub struct ClipboardPlan {
    pub units: Vec<u16>,
    pub strokes: Vec<Stroke>,
}

/// What is left to do once the strokes of a plan were sent.
#[derive(Debug, Clone, Copy, PartialEq, Eq, Structural)]
pub enum AfterTyping {
    Finished,
    Paste,
}

impl InsertPlan {
    /// Decides on the fallback: where not all strokes were `typed`, the text is
    /// pasted if the plan provides for it. Typing alone reports no failure.
    pub fn after_typing(&self, typed: bool) -> (r: AfterTyping)
        ensures
            r == AfterTyping::Paste <==> !typed && self.clipboard is Some,
            r == AfterTyping::Finished <==> typed || self.clipboard is None,
    {
        if !typed && self.clipboard.is_some() {
            AfterTyping::Paste
        } else {
            AfterTyping::Finished
        }
    }
}

/// Text insertion as a platform offers it: what to do for a text. The strokes
/// and the clipboard themselves are the platform's.
pub trait TextInserter {
    /// Types into the target.
    fn insert(&self, text: &str, target: InsertTarget) -> Result<InsertPlan, InsertError>;

    /// Types into the focused window, or pastes where typing fails.
    fn insert_with_fallback(&self, text: &str) -> Result<InsertPlan, InsertError>;
}

/// Inserts text by keyboard events.
#[derive(Debug, Clone, Copy, PartialEq, Eq, Structural)]
pub struct WindowsTextInserter;

impl TextInserter for WindowsTextInserter {
    fn insert(&self, text: &str, target: InsertTarget) -> (r: Result<InsertPlan, InsertError>)
        ensures
            match r {
                Ok(plan) => text@.len() > 0 && plan.strokes@ == typed(utf16(text@))
                    && plan.clipboard is None,
                Err(e) => text@.len() == 0 && e == InsertError::EmptyText,
            },
    {
        if to_chars(text).len() == 0 {
            return Err(InsertError::EmptyText);
        }
        Ok(InsertPlan { strokes: type_strokes(text), clipboard: None })
    }

    fn insert_with_fallback(&self, text: &str) -> (r: Result<InsertPlan, InsertError>)
        ensures
            match r {
                Ok(plan) => text@.len() > 0 && plan.strokes@ == typed(utf16(text@)) && (
                plan.clipboard matches Some(c) && c.units@ == utf16(text@) && c.strokes@
                    == paste_chord()),
                Err(e) => text@.len() == 0 && e == InsertError::EmptyText,
            },
    {
        if to_chars(text).len() == 0 {
            return Err(InsertError::EmptyText);
        }
        Ok(
            InsertPlan {
                strokes: type_strokes(text),
                clipboard: Some(
                    ClipboardPlan { units: encode_utf16(text), strokes: paste_strokes() },
                ),
            },
        )
    }
}

/// Accepts every text and does nothing with it.
#[derive(Debug, Clone, Copy, PartialEq, Eq, Structural)]
pub struct NullTextInserter;

impl TextInserter for NullTextInserter {
    fn insert(&self, text: &str, target: InsertTarget) -> (r: Result<InsertPlan, InsertError>)
        ensures
            r matches Ok(plan) && plan.strokes@.len() == 0 && plan.clipboard is None,
    {
        Ok(InsertPlan { strokes: Vec::new(), clipboard: None })
    }

    fn insert_with_fallback(&self, text: &str) -> (r: Result<InsertPlan, InsertError>)
        ensures
            r matches Ok(plan) && plan.strokes@.len() == 0 && plan.clipboard is None,
    {
        Ok(InsertPlan { strokes: Vec::new(), clipboard: None })
    }
}

/// Typing presses and releases one unit after the other.
pub proof fn law_units_are_typed_in_order(units: Seq<u16>, i: int)
    requires
        0 <= i < units.len(),
    ensures
        typed(units).len() == 2 * units.len(),
        typed(units)[2 * i] == (Stroke { key: 0, unit: units[i], unicode: true, up: false }),
        typed(units)[2 * i + 1] == (Stroke { key: 0, unit: units[i], unicode: true, up: true }),
{
}

/// Pasting holds Control while V is pressed and released.
pub proof fn law_pasting_is_control_v()
    ensures
        paste_chord().len() == 4,
        paste_chord()[0] == (Stroke { key: 0x11, unit: 0, unicode: false, up: false }),
        paste_chord()[1] == (Stroke {
            key: crate::hotkey::key_code(crate::hotkey::Key::KeyV),
            unit: 0,
            unicode: false,
            up: false,
        }),
        paste_chord()[2] == (Stroke { up: true, ..paste_chord()[1] }),
        paste_chord()[3] == (Stroke { up: true, ..paste_chord()[0] }),
{
}

/// The text is on the clipboard before that is closed, and the keys are sent after.
pub proof fn law_pasting_order()
    ensures
        PasteStep::Open.after(true) == PasteStep::Empty,
        PasteStep::Empty.after(true) == PasteStep::Allocate,
        PasteStep::Allocate.after(true) == PasteStep::Lock,
        PasteStep::Lock.after(true) == PasteStep::Copy,
        PasteStep::Copy.after(true) == PasteStep::Unlock,
        PasteStep::Unlock.after(true) == PasteStep::SetData,
        PasteStep::SetData.after(true) == PasteStep::Close,
        PasteStep::Close.after(true) == PasteStep::Settle,
        PasteStep::Settle.after(true) == PasteStep::SendKeys,
        PasteStep::SendKeys.after(true) == PasteStep::Done,
{
}

/// Only a clipboard that cannot be opened and memory that cannot be had or locked
/// let a paste fail; a clipboard that is open is closed then.
pub proof fn law_what_lets_a_paste_fail(step: PasteStep)
    ensures
        PasteStep::Open.after(false) == PasteStep::Failed,
        PasteStep::Allocate.after(false) == PasteStep::Abandon,
        PasteStep::Lock.after(false) == PasteStep::Abandon,
        PasteStep::Abandon.after(true) == PasteStep::Failed,
        step != PasteStep::Open && step != PasteStep::Allocate && step != PasteStep::Lock
            ==> step.after(false) == step.after(true),
{
}

/// The texts of the errors.
pub proof fn law_insert_error_texts(e: String, pid: u32)
    ensures
        InsertError::TypeFailed(e).text() == "Failed to type text: "@ + e@,
        InsertError::PermissionDenied.text() == "Accessibility permissions not granted"@,
        InsertError::ClipboardFailed.text() == "Clipboard operation failed"@,
        InsertError::TargetNotFound(pid).text() == "Target not found: PID "@ + crate::text::decimal(
            pid as nat,
        ),
        InsertError::EmptyText.text() == "Empty text"@,
{
}

} // verus!
