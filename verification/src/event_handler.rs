//! The input snapshot resource: which keys are held, and what arrived
//! this frame.
//!
//! The window layer hands the handler the frame's events as plain
//! values; the handler keeps a key-hold table from them. A press marks
//! its exact key/modifier pair held; a release clears the pair carried
//! by the event and, so that no combination stays stuck, the same key
//! under every single modifier and under none. `hold` answers from the
//! table, while `pressed` and `released` answer from the current
//! frame's events alone.

use crate::resources::Resource;
use vstd::prelude::*;

verus! {

/// No modifier held.
pub const MOD_NONE: u32 = 0;

/// The shift modifier bit.
pub const MOD_SHIFT: u32 = 1;

/// The control modifier bit.
pub const MOD_CONTROL: u32 = 2;

/// The alt modifier bit.
pub const MOD_ALT: u32 = 4;

/// The super (platform) modifier bit.
pub const MOD_SUPER: u32 = 8;

/// The caps-lock modifier bit.
pub const MOD_CAPS_LOCK: u32 = 16;

/// The num-lock modifier bit.
pub const MOD_NUM_LOCK: u32 = 32;

/// A key together with the modifiers held when it was seen.
#[derive(Clone, Copy, Debug, PartialEq, Eq, Structural)]
pub struct KeyEvent {
    /// The platform key code.
    pub key: i32,
    /// The modifier bits held with it.
    pub modifiers: u32,
}

/// What happened to a key.
#[derive(Clone, Copy, Debug, PartialEq, Eq, Structural)]
pub enum KeyAction {
    Press,
    Release,
    Repeat,
}

/// One event from the window layer, as a plain value.
#[derive(Clone, Copy, Debug, PartialEq, Eq, Structural)]
pub enum InputEvent {
    /// A key changed state: key code, what happened, modifier bits.
    Key(i32, KeyAction, u32),
    /// Anything else the window reported; the handler ignores it.
    Other,
}

/// What an association list holds for `k`: the first matching entry.
pub open spec fn assoc_at(s: Seq<(KeyEvent, bool)>, k: KeyEvent) -> Option<bool>
    decreases s.len(),
{
    if s.len() == 0 {
        None
    } else if s.first().0 == k {
        Some(s.first().1)
    } else {
        assoc_at(s.drop_first(), k)
    }
}

/// How one event changes the hold state of the pair `k`: a press sets
/// exactly its own pair; a release clears its key under the event's
/// modifiers, under each single modifier, and under none; repeats and
/// other events change nothing.
pub open spec fn affects(e: InputEvent, k: KeyEvent) -> Option<bool> {
    match e {
        InputEvent::Key(code, KeyAction::Press, mods) => if k == (KeyEvent {
            key: code,
            modifiers: mods,
        }) {
            Some(true)
        } else {
            None
        },
        InputEvent::Key(code, KeyAction::Release, mods) => if k.key == code && (k.modifiers
            == mods || k.modifiers == MOD_NONE || k.modifiers == MOD_SHIFT || k.modifiers
            == MOD_CONTROL || k.modifiers == MOD_ALT || k.modifiers == MOD_SUPER
            || k.modifiers == MOD_CAPS_LOCK || k.modifiers == MOD_NUM_LOCK) {
            Some(false)
        } else {
            None
        },
        InputEvent::Key(_, KeyAction::Repeat, _) => None,
        InputEvent::Other => None,
    }
}

/// The hold state of `k` after a sequence of events, starting from
/// `prior`: the last event that affects `k` decides it.
pub open spec fn hold_after(events: Seq<InputEvent>, k: KeyEvent, prior: Option<bool>) -> Option<
    bool,
>
    decreases events.len(),
{
    if events.len() == 0 {
        prior
    } else {
        match affects(events.last(), k) {
            Some(b) => Some(b),
            None => hold_after(events.drop_last(), k, prior),
        }
    }
}

/// The key-hold table and the current frame's events.
#[derive(Debug)]
pub struct EventHandler {
    hold_keys: Vec<(KeyEvent, bool)>,
    events: Vec<InputEvent>,
}

impl Resource for EventHandler {

}

impl EventHandler {
    /// The hold table, as a partial map from pairs to held-or-not.
    pub closed spec fn hold_state(self, k: KeyEvent) -> Option<bool> {
        assoc_at(self.hold_keys@, k)
    }

    /// The events of the current frame.
    pub closed spec fn spec_events(self) -> Seq<InputEvent> {
        self.events@
    }

    /// A fresh handler: no key held, no event seen.
    pub fn new() -> (r: EventHandler)
        ensures
            forall|k: KeyEvent| r.hold_state(k) is None,
            r.spec_events() =~= Seq::<InputEvent>::empty(),
    {
        EventHandler { hold_keys: Vec::new(), events: Vec::new() }
    }

    /// Replaces the frame's events with the newly polled ones; the hold
    /// table is untouched until `process` reads them.
    pub fn update(&mut self, events: Vec<InputEvent>)
        ensures
            final(self).spec_events() == events@,
            forall|k: KeyEvent| final(self).hold_state(k) == old(self).hold_state(k),
    {
        self.events = events;
    }

    /// Sets the table entry of one pair, leaving every other pair as it
    /// was.
    fn set_hold(&mut self, k: KeyEvent, held: bool)
        ensures
            final(self).hold_state(k) == Some(held),
            forall|k2: KeyEvent| k2 != k ==> final(self).hold_state(k2) == old(self).hold_state(
                k2,
            ),
            final(self).spec_events() == old(self).spec_events(),
    {
        let n = self.hold_keys.len();
        let mut i: usize = 0;
        while i < n
            invariant
                0 <= i <= n,
                n == self.hold_keys@.len(),
                *self == *old(self),
                forall|j: int| 0 <= j < i ==> (#[trigger] self.hold_keys@[j]).0 != k,
            decreases n - i,
        {
            let hit = self.hold_keys[i].0 == k;
            if hit {
                let slot = &mut self.hold_keys[i];
                *slot = (k, held);
                proof {
                    lemma_assoc_update(old(self).hold_keys@, self.hold_keys@, i as int, k, held);
                }
                return ;
            }
            i = i + 1;
        }
        self.hold_keys.push((k, held));
        proof {
            lemma_assoc_push(old(self).hold_keys@, k, held);
        }
    }

    /// Works the frame's events into the hold table, oldest first. For
    /// every pair, the last event of the frame that affects it decides
    /// whether it is held; pairs no event affects keep their state. The
    /// events themselves stay for `pressed` and `released` to read.
    pub fn process(&mut self)
        ensures
            forall|k: KeyEvent|
                final(self).hold_state(k) == hold_after(
                    old(self).spec_events(),
                    k,
                    old(self).hold_state(k),
                ),
            final(self).spec_events() == old(self).spec_events(),
    {
        let n = self.events.len();
        let mut i: usize = 0;
        while i < n
            invariant
                0 <= i <= n,
                n == self.events@.len(),
                self.events@ == old(self).spec_events(),
                forall|k: KeyEvent|
                    self.hold_state(k) == hold_after(
                        self.events@.subrange(0, i as int),
                        k,
                        old(self).hold_state(k),
                    ),
            decreases n - i,
        {
            let ghost prefix = self.events@.subrange(0, i as int);
            let event = self.events[i];
            match event {
                InputEvent::Key(code, KeyAction::Press, mods) => {
                    self.set_hold(KeyEvent { key: code, modifiers: mods }, true);
                },
                InputEvent::Key(code, KeyAction::Release, mods) => {
                    self.set_hold(KeyEvent { key: code, modifiers: mods }, false);
                    self.set_hold(KeyEvent { key: code, modifiers: MOD_NONE }, false);
                    self.set_hold(KeyEvent { key: code, modifiers: MOD_SHIFT }, false);
                    self.set_hold(KeyEvent { key: code, modifiers: MOD_CONTROL }, false);
                    self.set_hold(KeyEvent { key: code, modifiers: MOD_ALT }, false);
                    self.set_hold(KeyEvent { key: code, modifiers: MOD_SUPER }, false);
                    self.set_hold(KeyEvent { key: code, modifiers: MOD_CAPS_LOCK }, false);
                    self.set_hold(KeyEvent { key: code, modifiers: MOD_NUM_LOCK }, false);
                },
                InputEvent::Key(_, KeyAction::Repeat, _) => {},
                InputEvent::Other => {},
            }
            proof {
                assert(self.events@.subrange(0, i as int + 1).drop_last() =~= prefix);
                assert(self.events@.subrange(0, i as int + 1).last() == self.events@[i as int]);
                assert forall|k: KeyEvent| self.hold_state(k) == hold_after(
                    self.events@.subrange(0, i as int + 1),
                    k,
                    old(self).hold_state(k),
                ) by {
                    assert(hold_after(
                        self.events@.subrange(0, i as int + 1),
                        k,
                        old(self).hold_state(k),
                    ) == match affects(self.events@[i as int], k) {
                        Some(b) => Some(b),
                        None => hold_after(prefix, k, old(self).hold_state(k)),
                    });
                }
            }
            i = i + 1;
        }
        proof {
            assert(self.events@.subrange(0, n as int) =~= self.events@);
        }
    }

    /// Whether the table currently marks the pair held; a pair the
    /// table never saw is not held.
    pub fn hold(&self, key: i32, modifiers: u32) -> (r: bool)
        ensures
            r == match self.hold_state(KeyEvent { key, modifiers }) {
                Some(held) => held,
                None => false,
            },
    {
        let wanted = KeyEvent { key, modifiers };
        let n = self.hold_keys.len();
        let mut i: usize = 0;
        while i < n
            invariant
                0 <= i <= n,
                n == self.hold_keys@.len(),
                wanted == (KeyEvent { key, modifiers }),
                forall|j: int| 0 <= j < i ==> (#[trigger] self.hold_keys@[j]).0 != wanted,
            decreases n - i,
        {
            let entry = self.hold_keys[i];
            if entry.0 == wanted {
                proof {
                    lemma_assoc_found(self.hold_keys@, i as int, wanted);
                }
                return entry.1;
            }
            i = i + 1;
        }
        proof {
            lemma_assoc_missing(self.hold_keys@, wanted);
        }
        false
    }

    /// Whether this frame's events press exactly this pair.
    pub fn pressed(&self, key: i32, modifiers: u32) -> (r: bool)
        ensures
            r == exists|i: int|
                0 <= i < self.spec_events().len() && self.spec_events()[i] == InputEvent::Key(
                    key,
                    KeyAction::Press,
                    modifiers,
                ),
    {
        self.find_key_event(key, KeyAction::Press, modifiers)
    }

    /// Whether this frame's events release exactly this pair.
    pub fn released(&self, key: i32, modifiers: u32) -> (r: bool)
        ensures
            r == exists|i: int|
                0 <= i < self.spec_events().len() && self.spec_events()[i] == InputEvent::Key(
                    key,
                    KeyAction::Release,
                    modifiers,
                ),
    {
        self.find_key_event(key, KeyAction::Release, modifiers)
    }

    /// Whether this frame's events hold exactly this key event.
    fn find_key_event(&self, key: i32, action: KeyAction, modifiers: u32) -> (r: bool)
        ensures
            r == exists|i: int|
                0 <= i < self.spec_events().len() && self.spec_events()[i] == InputEvent::Key(
                    key,
                    action,
                    modifiers,
                ),
    {
        let n = self.events.len();
        let mut i: usize = 0;
        while i < n
            invariant
                0 <= i <= n,
                n == self.events@.len(),
                forall|j: int|
                    0 <= j < i ==> #[trigger] self.events@[j] != InputEvent::Key(
                        key,
                        action,
                        modifiers,
                    ),
            decreases n - i,
        {
            let matches_event = match self.events[i] {
                InputEvent::Key(code, a, mods) => code == key && a == action && mods
                    == modifiers,
                InputEvent::Other => false,
            };
            if matches_event {
                proof {
                    assert(self.events@[i as int] == InputEvent::Key(key, action, modifiers));
                }
                return true;
            }
            i = i + 1;
        }
        false
    }
}

/// Updating the entry of `k` in place changes its lookup and no other.
proof fn lemma_assoc_update(
    before: Seq<(KeyEvent, bool)>,
    after: Seq<(KeyEvent, bool)>,
    at: int,
    k: KeyEvent,
    held: bool,
)
    requires
        0 <= at < before.len(),
        after =~= before.update(at, (k, held)),
        before[at].0 == k,
        forall|j: int| 0 <= j < at ==> (#[trigger] before[j]).0 != k,
    ensures
        assoc_at(after, k) == Some(held),
        forall|k2: KeyEvent| k2 != k ==> assoc_at(after, k2) == assoc_at(before, k2),
    decreases at,
{
    if at == 0 {
        assert(after.first() == (k, held));
        assert(assoc_at(after, k) == Some(held));
        assert forall|k2: KeyEvent| k2 != k implies assoc_at(after, k2) == assoc_at(
            before,
            k2,
        ) by {
            assert(after.first().0 != k2);
            assert(before.first().0 == k);
            assert(after.drop_first() =~= before.drop_first());
            assert(assoc_at(after, k2) == assoc_at(after.drop_first(), k2));
            assert(assoc_at(before, k2) == assoc_at(before.drop_first(), k2));
        }
    } else {
        assert(after.drop_first() =~= before.drop_first().update(at - 1, (k, held)));
        assert(before.drop_first()[at - 1] == before[at]);
        assert forall|j: int| 0 <= j < at - 1 implies (#[trigger] before.drop_first()[j]).0
            != k by {
            assert(before.drop_first()[j] == before[j + 1]);
        }
        lemma_assoc_update(before.drop_first(), after.drop_first(), at - 1, k, held);
        assert(after.first() == before.first());
        assert(before[0].0 != k);
        assert(assoc_at(after, k) == assoc_at(after.drop_first(), k));
        assert(assoc_at(after, k) == Some(held));
        assert forall|k2: KeyEvent| k2 != k implies assoc_at(after, k2) == assoc_at(
            before,
            k2,
        ) by {
            if before.first().0 == k2 {
                assert(assoc_at(after, k2) == Some(after.first().1));
                assert(assoc_at(before, k2) == Some(before.first().1));
            } else {
                assert(assoc_at(after, k2) == assoc_at(after.drop_first(), k2));
                assert(assoc_at(before, k2) == assoc_at(before.drop_first(), k2));
            }
        }
    }
}

/// Appending a fresh entry changes its lookup and no other.
proof fn lemma_assoc_push(before: Seq<(KeyEvent, bool)>, k: KeyEvent, held: bool)
    requires
        forall|j: int| 0 <= j < before.len() ==> (#[trigger] before[j]).0 != k,
    ensures
        assoc_at(before.push((k, held)), k) == Some(held),
        forall|k2: KeyEvent|
            k2 != k ==> assoc_at(before.push((k, held)), k2) == assoc_at(before, k2),
    decreases before.len(),
{
    let s = before.push((k, held));
    if before.len() == 0 {
        assert(s.len() == 1);
        assert(s[0] == (k, held));
        assert(s.first() == (k, held));
        assert(assoc_at(s, k) == Some(held));
        assert forall|k2: KeyEvent| k2 != k implies assoc_at(s, k2) == assoc_at(before, k2) by {
            assert(s.first().0 != k2);
            assert(s.drop_first().len() == 0);
            assert(assoc_at(s.drop_first(), k2) is None);
            assert(assoc_at(s, k2) is None);
            assert(assoc_at(before, k2) is None);
        }
    } else {
        assert(before[0].0 != k);
        lemma_assoc_push(before.drop_first(), k, held);
        assert(s.drop_first() =~= before.drop_first().push((k, held)));
        assert(s.first() == before.first());
        assert(s.first().0 != k);
        assert(assoc_at(s, k) == assoc_at(s.drop_first(), k));
        assert(assoc_at(s, k) == Some(held));
        assert forall|k2: KeyEvent| k2 != k implies assoc_at(s, k2) == assoc_at(before, k2) by {
            if s.first().0 == k2 {
                assert(assoc_at(s, k2) == Some(s.first().1));
                assert(assoc_at(before, k2) == Some(before.first().1));
            } else {
                assert(assoc_at(s, k2) == assoc_at(s.drop_first(), k2));
                assert(assoc_at(s.drop_first(), k2) == assoc_at(before.drop_first(), k2));
                assert(assoc_at(before, k2) == assoc_at(before.drop_first(), k2));
            }
        }
    }
}

/// The first matching index decides a lookup.
proof fn lemma_assoc_found(s: Seq<(KeyEvent, bool)>, at: int, k: KeyEvent)
    requires
        0 <= at < s.len(),
        s[at].0 == k,
        forall|j: int| 0 <= j < at ==> (#[trigger] s[j]).0 != k,
    ensures
        assoc_at(s, k) == Some(s[at].1),
    decreases at,
{
    if at > 0 {
        lemma_assoc_found(s.drop_first(), at - 1, k);
    }
}

/// A key no entry carries has no lookup.
proof fn lemma_assoc_missing(s: Seq<(KeyEvent, bool)>, k: KeyEvent)
    requires
        forall|j: int| 0 <= j < s.len() ==> (#[trigger] s[j]).0 != k,
    ensures
        assoc_at(s, k) is None,
    decreases s.len(),
{
    if s.len() > 0 {
        lemma_assoc_missing(s.drop_first(), k);
    }
}

} // verus!
