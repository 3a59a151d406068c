//! The push-to-talk hotkey: presets, the chord tracker behind the keyboard
//! hook, and what the hook does with each key event.

use vstd::prelude::*;

use crate::text::same_text;

verus! {

pub const VK_LWIN: u32 = 0x5B;

pub const VK_RWIN: u32 = 0x5C;

pub const VK_LCONTROL: u32 = 0xA2;

pub const VK_RCONTROL: u32 = 0xA3;

pub const VK_CAPITAL: u32 = 0x14;

pub const VK_F9: u32 = 0x78;

/// A change of the hotkey as a whole.
#[derive(Debug, Clone, Copy, PartialEq, Eq, Structural)]
pub enum Chord {
    Pressed,
    Released,
}

/// What the hook does besides passing the key event on.
#[derive(Debug, Clone, Copy, PartialEq, Eq, Structural)]
pub enum Action {
    Nothing,
    /// Tap a synthetic Ctrl before the Win key-up goes through, so that the
    /// system takes the gesture for a chord and leaves the Start menu shut.
    CancelStartMenu,
}

/// The key groups of a preset: the hotkey is held while one key of every group is.
pub open spec fn preset_keys(preset: Seq<char>) -> Seq<Seq<u32>> {
    if preset == "caps"@ {
        seq![seq![VK_CAPITAL]]
    } else if preset == "f9"@ {
        seq![seq![VK_F9]]
    } else {
        seq![seq![VK_LCONTROL, VK_RCONTROL], seq![VK_LWIN, VK_RWIN]]
    }
}

/// The contents of nested vectors.
pub open spec fn keys_of(groups: Seq<Vec<u32>>) -> Seq<Seq<u32>> {
    groups.map_values(|g: Vec<u32>| g@)
}

/// The groups of the preset called `preset`; an unknown name means Ctrl+Win.
pub fn preset_groups(preset: &str) -> (r: Vec<Vec<u32>>)
    ensures
        keys_of(r@) == preset_keys(preset@),
{
    let mut r: Vec<Vec<u32>> = Vec::new();
    if same_text(preset, "caps") {
        r.push(vec![VK_CAPITAL]);
    } else if same_text(preset, "f9") {
        r.push(vec![VK_F9]);
    } else {
        r.push(vec![VK_LCONTROL, VK_RCONTROL]);
        r.push(vec![VK_LWIN, VK_RWIN]);
    }
    assert(keys_of(r@) =~~= preset_keys(preset@));
    r
}

/// The keys of all groups in a row.
pub open spec fn all_keys(groups: Seq<Seq<u32>>) -> Seq<u32>
    decreases groups.len(),
{
    if groups.len() == 0 {
        Seq::empty()
    } else {
        all_keys(groups.drop_last()) + groups.last()
    }
}

/// No key occurs twice.
pub open spec fn distinct(keys: Seq<u32>) -> bool {
    forall|i: int, j: int| 0 <= i < j < keys.len() ==> #[trigger] keys[i] != #[trigger] keys[j]
}

/// One key of every group is held.
pub open spec fn chord_held(groups: Seq<Seq<u32>>, held: Set<u32>) -> bool {
    groups.len() > 0 && forall|g: int| #![trigger groups[g]]
        0 <= g < groups.len() ==> group_held(groups[g], held)
}

/// One key of the group is held.
pub open spec fn group_held(group: Seq<u32>, held: Set<u32>) -> bool {
    exists|j: int| 0 <= j < group.len() && held.contains(#[trigger] group[j])
}

/// What a tracker knows.
pub struct TrackerView {
    pub groups: Seq<Seq<u32>>,
    /// The keys of the groups that are down.
    pub held: Set<u32>,
    /// The hotkey as a whole is held.
    pub engaged: bool,
    /// The hotkey was held since the last time that no key of it was down.
    pub gestured: bool,
    pub swallow_own_key: bool,
}

impl TrackerView {
    /// A tracker that has seen no key yet.
    pub open spec fn fresh(preset: Seq<char>) -> TrackerView {
        TrackerView {
            groups: preset_keys(preset),
            held: Set::empty(),
            engaged: false,
            gestured: false,
            swallow_own_key: preset == "caps"@,
        }
    }

    /// What holds of every tracker.
    pub open spec fn valid(self) -> bool {
        &&& distinct(all_keys(self.groups))
        &&& forall|k: u32| #[trigger] self.held.contains(k) ==> all_keys(self.groups).contains(k)
        &&& self.engaged == chord_held(self.groups, self.held)
        &&& self.engaged ==> self.gestured
        &&& self.gestured ==> self.held != Set::<u32>::empty()
    }

    /// The held keys after a key event; keys outside the hotkey do not count.
    pub open spec fn held_after(self, vk: u32, down: bool) -> Set<u32> {
        if !all_keys(self.groups).contains(vk) {
            self.held
        } else if down {
            self.held.insert(vk)
        } else {
            self.held.remove(vk)
        }
    }

    pub open spec fn engaged_after(self, vk: u32, down: bool) -> bool {
        chord_held(self.groups, self.held_after(vk, down))
    }

    /// The hotkey transition that a key event brings about.
    pub open spec fn transition(self, vk: u32, down: bool) -> Option<Chord> {
        if self.engaged_after(vk, down) && !self.engaged {
            Some(Chord::Pressed)
        } else if !self.engaged_after(vk, down) && self.engaged {
            Some(Chord::Released)
        } else {
            None
        }
    }

    /// What the hook has to do: the release of a Win key of the hotkey gets the
    /// Ctrl tap while a gesture is on.
    pub open spec fn action(self, vk: u32, down: bool) -> Action {
        if !down && (vk == VK_LWIN || vk == VK_RWIN) && all_keys(self.groups).contains(vk) && (
        self.gestured || self.engaged_after(vk, down)) {
            Action::CancelStartMenu
        } else {
            Action::Nothing
        }
    }

    /// The tracker after a key event.
    pub open spec fn after(self, vk: u32, down: bool) -> TrackerView {
        TrackerView {
            held: self.held_after(vk, down),
            engaged: self.engaged_after(vk, down),
            gestured: (self.gestured || self.engaged_after(vk, down)) && self.held_after(vk, down)
                != Set::<u32>::empty(),
            ..self
        }
    }
}

proof fn lemma_all_keys_index(groups: Seq<Seq<u32>>, g: int, j: int)
    requires
        0 <= g < groups.len(),
        0 <= j < groups[g].len(),
    ensures
        all_keys(groups.take(g)).len() + j < all_keys(groups).len(),
        all_keys(groups)[all_keys(groups.take(g)).len() + j] == groups[g][j],
    decreases groups.len(),
{
    let init = groups.drop_last();
    if g < groups.len() - 1 {
        lemma_all_keys_index(init, g, j);
        assert(init.take(g) =~= groups.take(g));
    } else {
        assert(groups.take(g) =~= init);
    }
}

proof fn lemma_all_keys_step(groups: Seq<Seq<u32>>, g: int)
    requires
        0 <= g < groups.len(),
    ensures
        all_keys(groups.take(g + 1)) == all_keys(groups.take(g)) + groups[g],
        all_keys(groups.take(g + 1)).len() <= all_keys(groups).len(),
    decreases groups.len() - g,
{
    assert(groups.take(g + 1).drop_last() =~= groups.take(g));
    if g + 1 < groups.len() {
        lemma_all_keys_step(groups, g + 1);
    } else {
        assert(groups.take(g + 1) =~= groups);
    }
}

/// Every preset lists each of its keys once.
pub proof fn law_preset_keys_are_distinct(preset: Seq<char>)
    ensures
        distinct(all_keys(preset_keys(preset))),
        preset_keys(preset).len() > 0,
{
    let groups = preset_keys(preset);
    assert(groups.drop_last().drop_last().len() == 0 || groups.len() == 1);
    reveal_with_fuel(all_keys, 3);
    if groups.len() == 1 {
        assert(all_keys(groups) =~= groups[0]);
    } else {
        assert(all_keys(groups) =~= seq![VK_LCONTROL, VK_RCONTROL, VK_LWIN, VK_RWIN]);
    }
}

/// Edge detector for the configured hotkey.
pub struct ChordTracker {
    groups: Vec<Vec<u32>>,
    /// Whether each key is down, flattened across groups.
    held: Vec<bool>,
    /// True while the hotkey is fully held.
    engaged: bool,
    /// True from the press of the hotkey until all of its keys are up again.
    gestured: bool,
    /// The Caps preset keeps its own key from reaching applications.
    swallow_own_key: bool,
}

impl View for ChordTracker {
    type V = TrackerView;

    closed spec fn view(&self) -> TrackerView {
        TrackerView {
            groups: keys_of(self.groups@),
            held: self.held_keys(),
            engaged: self.engaged,
            gestured: self.gestured,
            swallow_own_key: self.swallow_own_key,
        }
    }
}

impl ChordTracker {
    spec fn keys(&self) -> Seq<u32> {
        all_keys(keys_of(self.groups@))
    }

    spec fn held_keys(&self) -> Set<u32> {
        Set::new(
            |k: u32|
                exists|i: int|
                    0 <= i < self.keys().len() && self.held@[i] && #[trigger] self.keys()[i] == k,
        )
    }

    pub closed spec fn wf(&self) -> bool {
        self.held@.len() == self.keys().len() && self@.valid()
    }

    /// A tracker for the preset, with no key held.
    pub fn new(preset: &str) -> (t: ChordTracker)
        ensures
            t.wf(),
            t@ == TrackerView::fresh(preset@),
    {
        let groups = preset_groups(preset);
        let mut held: Vec<bool> = Vec::new();
        let ghost keys = keys_of(groups@);
        for g in 0..groups.len()
            invariant
                keys == keys_of(groups@),
                held@.len() == all_keys(keys.take(g as int)).len(),
                forall|i: int| 0 <= i < held@.len() ==> !held@[i],
        {
            proof {
                lemma_all_keys_step(keys, g as int);
            }
            let ghost before = held@.len();
            let n = groups[g].len();
            for j in 0..n
                invariant
                    held@.len() == before + j,
                    forall|i: int| 0 <= i < held@.len() ==> !held@[i],
            {
                held.push(false);
            }
        }
        assert(keys.take(keys.len() as int) =~= keys);
        let t = ChordTracker {
            swallow_own_key: same_text(preset, "caps"),
            groups,
            held,
            engaged: false,
            gestured: false,
        };
        proof {
            law_preset_keys_are_distinct(preset@);
            assert(t@.held =~= Set::<u32>::empty());
            assert(t@.groups[0] == t@.groups[0]);
            assert(!chord_held(t@.groups, t@.held));
        }
        t
    }

    /// Whether the hook keeps the key of the preset from applications.
    pub fn swallow_own_key(&self) -> (b: bool)
        ensures
            b == self@.swallow_own_key,
    {
        self.swallow_own_key
    }

    /// Whether the hotkey is held: one key of every group.
    fn active(&self) -> (b: bool)
        requires
            self.held@.len() == self.keys().len(),
            distinct(self.keys()),
        ensures
            b == chord_held(self@.groups, self@.held),
    {
        let ghost groups = keys_of(self.groups@);
        let mut off: usize = 0;
        for g in 0..self.groups.len()
            invariant
                groups == keys_of(self.groups@),
                self.held@.len() == self.keys().len(),
                distinct(self.keys()),
                off == all_keys(groups.take(g as int)).len(),
                forall|h: int|
                    0 <= h < g ==> group_held(#[trigger] groups[h], self.held_keys()),
        {
            proof {
                lemma_all_keys_step(groups, g as int);
            }
            let n = self.groups[g].len();
            assert(off + n <= self.held.len());
            let mut any = false;
            for j in 0..n
                invariant
                    g < self.groups.len(),
                    n == self.groups@[g as int]@.len(),
                    groups == keys_of(self.groups@),
                    self.held@.len() == self.keys().len(),
                    off == all_keys(groups.take(g as int)).len(),
                    off + n <= self.held.len(),
                    any == (exists|i: int| off <= i < off + j && self.held@[i]),
            {
                if self.held[off + j] {
                    any = true;
                }
            }
            proof {
                let group = groups[g as int];
                assert(group == self.groups@[g as int]@);
                if any {
                    let i = choose|i: int| off <= i < off + n && self.held@[i];
                    lemma_all_keys_index(groups, g as int, i - off);
                    assert(self.keys()[i] == group[i - off]);
                    assert(self.held_keys().contains(group[i - off]));
                    assert(group_held(group, self.held_keys()));
                } else {
                    assert forall|j: int| 0 <= j < group.len() implies !self.held_keys().contains(
                        #[trigger] group[j],
                    ) by {
                        lemma_all_keys_index(groups, g as int, j);
                        let at = off + j;
                        assert(!self.held@[at]);
                        if self.held_keys().contains(group[j]) {
                            let i = choose|i: int|
                                0 <= i < self.keys().len() && self.held@[i]
                                    && #[trigger] self.keys()[i] == group[j];
                            assert(self.keys()[off + j] == group[j]);
                            assert(i == off + j);
                        }
                    }
                    assert(!group_held(group, self.held_keys()));
                }
            }
            if !any {
                return false;
            }
            off = off + n;
        }
        self.groups.len() > 0
    }

    /// The flattened position of a key of the hotkey.
    fn position(&self, vk: u32) -> (idx: Option<usize>)
        requires
            self.held@.len() == self.keys().len(),
        ensures
            idx matches Some(i) ==> i < self.keys().len() && self.keys()[i as int] == vk,
            idx is None ==> !self.keys().contains(vk),
    {
        let ghost groups = keys_of(self.groups@);
        let mut off: usize = 0;
        for g in 0..self.groups.len()
            invariant
                groups == keys_of(self.groups@),
                self.held@.len() == self.keys().len(),
                off == all_keys(groups.take(g as int)).len(),
                !all_keys(groups.take(g as int)).contains(vk),
        {
            proof {
                lemma_all_keys_step(groups, g as int);
            }
            let n = self.groups[g].len();
            assert(off + n <= self.held.len());
            for j in 0..n
                invariant
                    g < self.groups.len(),
                    n == self.groups@[g as int]@.len(),
                    groups == keys_of(self.groups@),
                    self.held@.len() == self.keys().len(),
                    off == all_keys(groups.take(g as int)).len(),
                    off + n <= self.held.len(),
                    forall|i: int| 0 <= i < j ==> self.groups@[g as int]@[i] != vk,
            {
                if self.groups[g][j] == vk {
                    proof {
                        lemma_all_keys_index(groups, g as int, j as int);
                    }
                    return Some(off + j);
                }
            }
            proof {
                let before = all_keys(groups.take(g as int));
                assert(groups[g as int] == self.groups@[g as int]@);
                assert forall|i: int| 0 <= i < (before + groups[g as int]).len() implies (before
                    + groups[g as int])[i] != vk by {
                    if i < before.len() {
                        assert(before.contains(before[i]));
                    }
                }
            }
            off = off + n;
        }
        assert(groups.take(groups.len() as int) =~= groups);
        None
    }

    /// Takes in one key event; returns the transition of the hotkey, if any,
    /// and what the hook has to do.
    pub fn update(&mut self, vk: u32, down: bool) -> (r: (Option<Chord>, Action))
        requires
            old(self).wf(),
        ensures
            final(self).wf(),
            final(self)@ == old(self)@.after(vk, down),
            r == (old(self)@.transition(vk, down), old(self)@.action(vk, down)),
    {
        let ghost before = *self;
        let idx = self.position(vk);
        if let Some(i) = idx {
            self.held.set(i, down);
        }
        proof {
            before.lemma_held_after(*self, vk, down, idx);
        }
        let mut event = None;
        if self.active() {
            if !self.engaged {
                self.engaged = true;
                self.gestured = true;
                event = Some(Chord::Pressed);
            }
        } else if self.engaged {
            self.engaged = false;
            event = Some(Chord::Released);
        }
        let our_win_up = !down && (vk == VK_LWIN || vk == VK_RWIN) && idx.is_some();
        let action = if our_win_up && self.gestured {
            Action::CancelStartMenu
        } else {
            Action::Nothing
        };
        let all_up = self.all_up();
        if all_up {
            self.gestured = false;
        }
        assert(self.held_keys() == before@.held_after(vk, down));
        (event, action)
    }

    fn all_up(&self) -> (b: bool)
        requires
            self.held@.len() == self.keys().len(),
        ensures
            b == (self.held_keys() == Set::<u32>::empty()),
    {
        for i in 0..self.held.len()
            invariant
                self.held@.len() == self.keys().len(),
                forall|j: int| 0 <= j < i ==> !self.held@[j],
        {
            if self.held[i] {
                assert(self.held_keys().contains(self.keys()[i as int]));
                return false;
            }
        }
        assert(self.held_keys() =~= Set::<u32>::empty());
        true
    }

    proof fn lemma_held_after(self, now: ChordTracker, vk: u32, down: bool, idx: Option<usize>)
        requires
            self.wf(),
            now.groups == self.groups,
            match idx {
                Some(i) => i < self.keys().len() && self.keys()[i as int] == vk && now.held@
                    == self.held@.update(i as int, down),
                None => !self.keys().contains(vk) && now.held@ == self.held@,
            },
        ensures
            now.held_keys() == self@.held_after(vk, down),
            forall|k: u32| #[trigger] now.held_keys().contains(k) ==> self.keys().contains(k),
    {
        let keys = self.keys();
        if let Some(i) = idx {
            assert(keys.contains(vk)) by {
                assert(keys[i as int] == vk);
            }
            assert forall|k: u32| now.held_keys().contains(k) == self@.held_after(
                vk,
                down,
            ).contains(k) by {
                if k == vk {
                    if down {
                        assert(now.held@[i as int] && keys[i as int] == k);
                    } else if now.held_keys().contains(k) {
                        let j = choose|j: int|
                            0 <= j < keys.len() && now.held@[j] && #[trigger] keys[j] == k;
                        assert(keys[i as int] == keys[j]);
                    }
                } else {
                    if self.held_keys().contains(k) {
                        let j = choose|j: int|
                            0 <= j < keys.len() && self.held@[j] && #[trigger] keys[j] == k;
                        assert(now.held@[j] && keys[j] == k);
                    }
                    if now.held_keys().contains(k) {
                        let j = choose|j: int|
                            0 <= j < keys.len() && now.held@[j] && #[trigger] keys[j] == k;
                        assert(self.held@[j] && keys[j] == k);
                    }
                }
            }
            assert(now.held_keys() =~= self@.held_after(vk, down));
        } else {
            assert(now.held_keys() =~= self@.held_after(vk, down));
        }
    }
}

/// A valid tracker stays valid.
pub proof fn law_valid_is_kept(v: TrackerView, vk: u32, down: bool)
    requires
        v.valid(),
    ensures
        v.after(vk, down).valid(),
{
    let w = v.after(vk, down);
    if w.engaged && w.held == Set::<u32>::empty() {
        assert(group_held(w.groups[0], w.held));
    }
}

/// A key event of a keyboard: the key and whether it went down.
pub type KeyMove = (u32, bool);

/// The tracker after a run of key events.
pub open spec fn after_all(v: TrackerView, moves: Seq<KeyMove>) -> TrackerView
    decreases moves.len(),
{
    if moves.len() == 0 {
        v
    } else {
        after_all(v, moves.drop_last()).after(moves.last().0, moves.last().1)
    }
}

/// The transitions that a run of key events brings about, in order.
pub open spec fn transitions(v: TrackerView, moves: Seq<KeyMove>) -> Seq<Chord>
    decreases moves.len(),
{
    if moves.len() == 0 {
        Seq::empty()
    } else {
        let before = transitions(v, moves.drop_last());
        match after_all(v, moves.drop_last()).transition(moves.last().0, moves.last().1) {
            Some(c) => before.push(c),
            None => before,
        }
    }
}

/// One `Pressed` and one `Released` per gesture: whatever the keys do, the
/// transitions of a tracker alternate and start with `Pressed`, and the hotkey
/// is held just when the last of them is `Pressed`.
pub proof fn law_transitions_alternate(v: TrackerView, moves: Seq<KeyMove>)
    requires
        v.valid(),
        !v.engaged,
    ensures
        after_all(v, moves).valid(),
        forall|i: int|
            0 <= i < transitions(v, moves).len() ==> #[trigger] transitions(v, moves)[i] == (if i
                % 2 == 0 {
                Chord::Pressed
            } else {
                Chord::Released
            }),
        after_all(v, moves).engaged == (transitions(v, moves).len() % 2 == 1),
    decreases moves.len(),
{
    if moves.len() > 0 {
        law_transitions_alternate(v, moves.drop_last());
        law_valid_is_kept(after_all(v, moves.drop_last()), moves.last().0, moves.last().1);
    }
}

/// While the hotkey was never fully held since all its keys were up, no key
/// event asks for anything: a plain Win tap still opens the Start menu.
pub proof fn law_no_action_without_gesture(v: TrackerView, vk: u32, down: bool)
    requires
        v.valid(),
        !v.gestured,
        v.transition(vk, down) != Some(Chord::Pressed),
    ensures
        v.action(vk, down) == Action::Nothing,
        !v.after(vk, down).gestured,
{
}

/// Once the hotkey was held, the release of each Win key of it asks for the
/// Ctrl tap, also when another key of the hotkey came up first.
pub proof fn law_win_release_is_covered(v: TrackerView, vk: u32)
    requires
        v.valid(),
        v.gestured,
        vk == VK_LWIN || vk == VK_RWIN,
        all_keys(v.groups).contains(vk),
    ensures
        v.action(vk, false) == Action::CancelStartMenu,
{
}

/// Auto-repeat is ignored: a key event that repeats the one before changes
/// nothing and brings no transition, and a repeated key-down asks for nothing.
pub proof fn law_repeat_is_ignored(v: TrackerView, vk: u32, down: bool)
    requires
        v.valid(),
    ensures
        v.after(vk, down).after(vk, down) == v.after(vk, down),
        v.after(vk, down).transition(vk, down) is None,
        v.after(vk, true).action(vk, true) == Action::Nothing,
{
    let w = v.after(vk, down);
    assert(w.held_after(vk, down) =~= w.held);
    law_valid_is_kept(v, vk, down);
}

/// A key outside the hotkey changes nothing and asks for nothing.
pub proof fn law_other_keys_pass(v: TrackerView, vk: u32, down: bool)
    requires
        v.valid(),
        !all_keys(v.groups).contains(vk),
    ensures
        v.after(vk, down) == v,
        v.transition(vk, down) is None,
        v.action(vk, down) == Action::Nothing,
{
}

/// A tracker with no key held is as good as new: the hotkey is armed again.
pub proof fn law_full_release_rearms(v: TrackerView, preset: Seq<char>)
    requires
        v.valid(),
        v.groups == preset_keys(preset),
        v.swallow_own_key == (preset == "caps"@),
        v.held == Set::<u32>::empty(),
    ensures
        v == TrackerView::fresh(preset),
{
    law_preset_keys_are_distinct(preset);
    if v.engaged {
        assert(group_held(v.groups[0], v.held));
    }
}

/// A new tracker is valid.
pub proof fn law_fresh_is_valid(preset: Seq<char>)
    ensures
        TrackerView::fresh(preset).valid(),
{
    law_preset_keys_are_distinct(preset);
    let v = TrackerView::fresh(preset);
    if chord_held(v.groups, v.held) {
        assert(group_held(v.groups[0], v.held));
    }
}

/// What the keyboard hook does with one event.
#[derive(Debug, Clone, Copy, PartialEq, Eq, Structural)]
pub struct HookOutcome {
    /// The transition to report, if any.
    pub event: Option<Chord>,
    /// Inject a Ctrl tap before the event goes through.
    pub tap_ctrl: bool,
    /// Keep the event from the rest of the system.
    pub swallow: bool,
}

/// Set in the flags of an event that a program sent.
pub const LLKHF_INJECTED: u32 = 0x10;

pub const WM_KEYDOWN: u32 = 0x100;

pub const WM_KEYUP: u32 = 0x101;

pub const WM_SYSKEYDOWN: u32 = 0x104;

pub const WM_SYSKEYUP: u32 = 0x105;

/// The window message says that a key went down.
pub open spec fn is_key_down(message: u32) -> bool {
    message == WM_KEYDOWN || message == WM_SYSKEYDOWN
}

/// Handles one low-level keyboard event. Injected events pass untouched; only
/// the Caps preset keeps its own key to itself.
pub fn on_keyboard_event(tracker: &mut ChordTracker, vk: u32, flags: u32, message: u32) -> (r:
    HookOutcome)
    requires
        old(tracker).wf(),
    ensures
        final(tracker).wf(),
        flags & LLKHF_INJECTED != 0 ==> final(tracker)@ == old(tracker)@ && r == (HookOutcome {
            event: None,
            tap_ctrl: false,
            swallow: false,
        }),
        flags & LLKHF_INJECTED == 0 ==> final(tracker)@ == old(tracker)@.after(
            vk,
            is_key_down(message),
        ) && r == (HookOutcome {
            event: old(tracker)@.transition(vk, is_key_down(message)),
            tap_ctrl: old(tracker)@.action(vk, is_key_down(message)) == Action::CancelStartMenu,
            swallow: old(tracker)@.swallow_own_key && vk == VK_CAPITAL,
        }),
{
    if flags & LLKHF_INJECTED != 0 {
        return HookOutcome { event: None, tap_ctrl: false, swallow: false };
    }
    let down = message == WM_KEYDOWN || message == WM_SYSKEYDOWN;
    let (event, action) = tracker.update(vk, down);
    HookOutcome {
        event,
        tap_ctrl: action == Action::CancelStartMenu,
        swallow: tracker.swallow_own_key() && vk == VK_CAPITAL,
    }
}

/// The presets: Caps Lock, F9, and for every other name a Control key together with
/// a Win key. Only Caps Lock is kept from applications.
pub proof fn law_presets(preset: Seq<char>)
    ensures
        preset == "caps"@ ==> preset_keys(preset) == seq![seq![0x14u32]],
        preset == "f9"@ ==> preset_keys(preset) == seq![seq![0x78u32]],
        preset != "caps"@ && preset != "f9"@ ==> preset_keys(preset) == seq![
            seq![0xA2u32, 0xA3u32],
            seq![0x5Bu32, 0x5Cu32],
        ],
        TrackerView::fresh(preset).groups == preset_keys(preset),
        TrackerView::fresh(preset).held == Set::<u32>::empty(),
        !TrackerView::fresh(preset).engaged,
        TrackerView::fresh(preset).swallow_own_key <==> preset == "caps"@,
{
    reveal_strlit("caps");
    reveal_strlit("f9");
    assert("caps"@.len() != "f9"@.len());
}

/// A key event of the hotkey puts just that key down or up.
pub proof fn law_key_event_moves_its_key(v: TrackerView, vk: u32, down: bool, k: u32)
    ensures
        v.after(vk, down).held.contains(k) <==> if k == vk && all_keys(v.groups).contains(vk) {
            down
        } else {
            v.held.contains(k)
        },
        v.after(vk, down).groups == v.groups,
        v.after(vk, down).swallow_own_key == v.swallow_own_key,
{
}

/// The hotkey is pressed when the last of its groups gets a key down, and released
/// when one of them has none left.
pub proof fn law_hotkey_is_held_by_all_groups(v: TrackerView, vk: u32, down: bool, g: int)
    requires
        v.valid(),
        0 <= g < v.groups.len(),
    ensures
        v.transition(vk, down) == Some(Chord::Pressed) <==> !v.engaged && v.after(
            vk,
            down,
        ).engaged,
        v.transition(vk, down) == Some(Chord::Released) <==> v.engaged && !v.after(
            vk,
            down,
        ).engaged,
        v.after(vk, down).engaged ==> exists|j: int|
            0 <= j < v.groups[g].len() && v.after(vk, down).held.contains(
                #[trigger] v.groups[g][j],
            ),
        !v.after(vk, down).engaged ==> exists|h: int|
            0 <= h < v.groups.len() && forall|j: int|
                0 <= j < (#[trigger] v.groups[h]).len() ==> !v.after(vk, down).held.contains(
                    #[trigger] v.groups[h][j],
                ),
{
    let held = v.held_after(vk, down);
    if v.after(vk, down).engaged {
        assert(group_held(v.groups[g], held));
    } else {
        let h = choose|h: int|
            0 <= h < v.groups.len() && !group_held(#[trigger] v.groups[h], held);
        assert forall|j: int| 0 <= j < v.groups[h].len() implies !held.contains(
            #[trigger] v.groups[h][j],
        ) by {
            assert(!group_held(v.groups[h], held));
        }
    }
}

proof fn lemma_two_groups(a: Seq<u32>, b: Seq<u32>)
    ensures
        all_keys(seq![a, b]) == a + b,
{
    reveal_with_fuel(all_keys, 3);
    assert(seq![a, b].drop_last() =~= seq![a]);
    assert(seq![a].drop_last() =~= Seq::<Seq<u32>>::empty());
    assert(all_keys(seq![a, b]) =~= a + b);
}

/// The hotkey of Control and Win takes both: neither alone presses it, the second
/// of them does in whichever order, the first to come up releases it, and the Win
/// key then asks for the Control tap.
pub proof fn law_control_and_win(preset: Seq<char>, c: u32, w: u32)
    requires
        preset != "caps"@,
        preset != "f9"@,
        c == 0xA2 || c == 0xA3,
        w == 0x5B || w == 0x5C,
    ensures
        ({
            let v = TrackerView::fresh(preset);
            &&& v.transition(c, true) is None
            &&& v.transition(w, true) is None
            &&& v.after(c, true).transition(w, true) == Some(Chord::Pressed)
            &&& v.after(w, true).transition(c, true) == Some(Chord::Pressed)
            &&& v.after(c, true).after(w, true).transition(c, false) == Some(Chord::Released)
            &&& v.after(c, true).after(w, true).transition(w, false) == Some(Chord::Released)
            &&& v.after(c, true).after(w, true).action(w, false) == Action::CancelStartMenu
            &&& v.after(w, true).action(w, false) == Action::Nothing
        }),
{
    law_presets(preset);
    let v = TrackerView::fresh(preset);
    let controls = seq![0xA2u32, 0xA3u32];
    let wins = seq![0x5Bu32, 0x5Cu32];
    lemma_two_groups(controls, wins);
    assert(v.groups == seq![controls, wins]);
    let all = controls + wins;
    assert(all[0] == 0xA2 && all[1] == 0xA3 && all[2] == 0x5B && all[3] == 0x5C);
    assert(all.contains(c));
    assert(all.contains(w));
    assert(v.groups[0] == controls && v.groups[1] == wins);
    let none = Set::<u32>::empty();
    let ci = if c == 0xA2 {
        0int
    } else {
        1int
    };
    let wi = if w == 0x5B {
        0int
    } else {
        1int
    };
    assert(controls[ci] == c && wins[wi] == w);
    assert(!group_held(wins, none.insert(c)));
    assert(!group_held(controls, none.insert(w)));
    assert(!group_held(wins, none));
    assert(!chord_held(v.groups, none.insert(c)));
    assert(!chord_held(v.groups, none.insert(w)));
    let both = none.insert(c).insert(w);
    assert(both.contains(controls[ci]) && both.contains(wins[wi]));
    assert(group_held(controls, both) && group_held(wins, both));
    assert(chord_held(v.groups, both));
    assert(none.insert(w).insert(c) =~= both);
    assert(both.remove(c) =~= none.insert(w));
    assert(both.remove(w) =~= none.insert(c));
    assert(none.insert(w).remove(w) =~= none);
    assert(!chord_held(v.groups, none));
}

/// The hotkey of one key is held while that key is, and asks for nothing.
pub proof fn law_one_key_hotkey(preset: Seq<char>, k: u32)
    requires
        preset == "caps"@ && k == 0x14 || preset == "f9"@ && k == 0x78,
    ensures
        ({
            let v = TrackerView::fresh(preset);
            &&& v.transition(k, true) == Some(Chord::Pressed)
            &&& v.action(k, true) == Action::Nothing
            &&& v.after(k, true).transition(k, false) == Some(Chord::Released)
            &&& v.after(k, true).action(k, false) == Action::Nothing
            &&& v.after(k, true).after(k, false) == v
        }),
{
    law_presets(preset);
    let v = TrackerView::fresh(preset);
    let one = seq![k];
    reveal_with_fuel(all_keys, 2);
    assert(v.groups =~= seq![one]);
    assert(seq![one].drop_last() =~= Seq::<Seq<u32>>::empty());
    assert(all_keys(v.groups) =~= one);
    assert(one[0] == k);
    assert(one.contains(k));
    assert(v.groups[0] == one);
    let none = Set::<u32>::empty();
    assert(none.insert(k).contains(one[0]));
    assert(group_held(one, none.insert(k)));
    assert(chord_held(v.groups, none.insert(k)));
    assert(none.insert(k).remove(k) =~= none);
    assert(!group_held(one, none));
    assert(!chord_held(v.groups, none));
}

/// The messages of the keyboard: down are the plain press and the one with Alt.
pub proof fn law_key_down_messages(message: u32)
    ensures
        is_key_down(message) <==> message == 0x100 || message == 0x104,
        LLKHF_INJECTED == 0x10,
{
}

/// What the recorder is told.
#[derive(Debug, Clone, Copy, PartialEq, Eq, Structural)]
pub enum RecorderCommand {
    Start,
    Stop,
    Keep,
}

/// What a transition of the hotkey means in the given mode.
pub open spec fn command_for(event: Chord, mode: Seq<char>, recording: bool) -> RecorderCommand {
    match event {
        Chord::Pressed => if mode == "toggle"@ && recording {
            RecorderCommand::Stop
        } else {
            RecorderCommand::Start
        },
        Chord::Released => if mode == "toggle"@ {
            RecorderCommand::Keep
        } else {
            RecorderCommand::Stop
        },
    }
}

/// Decides what the recorder does on a transition of the hotkey: in toggle mode
/// each press starts or stops, otherwise recording lasts as long as the hold.
pub fn recorder_command(event: Chord, mode: &str, recording: bool) -> (r: RecorderCommand)
    ensures
        r == command_for(event, mode@, recording),
{
    let toggle = same_text(mode, "toggle");
    match event {
        Chord::Pressed => if toggle && recording {
            RecorderCommand::Stop
        } else {
            RecorderCommand::Start
        },
        Chord::Released => if toggle {
            RecorderCommand::Keep
        } else {
            RecorderCommand::Stop
        },
    }
}

/// Whether a recording is on after a command; starting twice keeps the first.
pub open spec fn recording_after(command: RecorderCommand, recording: bool) -> bool {
    match command {
        RecorderCommand::Start => true,
        RecorderCommand::Stop => false,
        RecorderCommand::Keep => recording,
    }
}

/// In toggle mode each press flips recording and a release changes nothing.
pub proof fn law_toggle_flips(recording: bool)
    ensures
        recording_after(command_for(Chord::Pressed, "toggle"@, recording), recording) == !recording,
        recording_after(command_for(Chord::Released, "toggle"@, recording), recording) == recording,
{
}

/// In every other mode recording is on exactly while the hotkey is held.
pub proof fn law_hold_follows_the_key(event: Chord, mode: Seq<char>, recording: bool)
    requires
        mode != "toggle"@,
    ensures
        recording_after(command_for(event, mode, recording), recording) == (event
            == Chord::Pressed),
{
}

} // verus!
