//! Keyboard and mouse button state collected from window events.
//!
//! Keys and mouse buttons are held as the sets of those pressed, those
//! pressed during the current frame, and the clicks gameplay has not handled
//! yet. Releasing F3 asks for the debug overlay to toggle, unless another key
//! was pressed while F3 was held (a debug key chord). The cursor and the
//! wheel, which move by fractions, are tracked outside this library.

use vstd::prelude::*;

verus! {

/// A physical key: the keys this state itself looks at, and any other by
/// its code.
#[derive(Clone, Copy, Debug, PartialEq, Eq, Structural)]
pub enum Key {
    F3,
    ShiftLeft,
    ShiftRight,
    Other(u32),
}

/// A mouse button.
#[derive(Clone, Copy, Debug, PartialEq, Eq, Structural)]
pub enum MouseButton {
    Left,
    Right,
    Middle,
    Back,
    Forward,
    Other(u16),
}

/// The input state as values.
pub struct InputView {
    pub pressed_keys: Set<Key>,
    pub just_pressed_keys: Set<Key>,
    pub pressed_buttons: Set<MouseButton>,
    pub just_pressed_buttons: Set<MouseButton>,
    pub pending_clicks: Set<MouseButton>,
    pub toggle_requested: bool,
    pub f3_chord: bool,
}

pub open spec fn key_set(s: Seq<Key>) -> Set<Key> {
    Set::new(|k: Key| s.contains(k))
}

pub open spec fn button_set(s: Seq<MouseButton>) -> Set<MouseButton> {
    Set::new(|b: MouseButton| s.contains(b))
}

/// The state with nothing pressed or requested.
pub open spec fn idle_input() -> InputView {
    InputView {
        pressed_keys: Set::empty(),
        just_pressed_keys: Set::empty(),
        pressed_buttons: Set::empty(),
        just_pressed_buttons: Set::empty(),
        pending_clicks: Set::empty(),
        toggle_requested: false,
        f3_chord: false,
    }
}

/// Whether a key event is one of F3: by its key, or by the character the
/// keyboard layout gives it (`logical_f3`).
pub open spec fn is_f3_event(key: Key, logical_f3: bool) -> bool {
    logical_f3 || key == Key::F3
}

/// The state after `key` went down (`repeat` when the key is held and the
/// system repeats it): a key pressed while F3 is held, other than F3 itself
/// and not repeated, makes a chord; a key that was up is pressed this frame.
pub open spec fn after_key_down(v: InputView, key: Key, logical_f3: bool, repeat: bool) -> InputView {
    InputView {
        f3_chord: if !repeat && !is_f3_event(key, logical_f3) && v.pressed_keys.contains(Key::F3) {
            true
        } else {
            v.f3_chord
        },
        just_pressed_keys: if v.pressed_keys.contains(key) {
            v.just_pressed_keys
        } else {
            v.just_pressed_keys.insert(key)
        },
        pressed_keys: v.pressed_keys.insert(key),
        ..v
    }
}

/// The state after `key` went up: releasing F3 without a chord asks for the
/// debug overlay to toggle, and ends the chord.
pub open spec fn after_key_up(v: InputView, key: Key, logical_f3: bool) -> InputView {
    let f3 = is_f3_event(key, logical_f3);
    InputView {
        toggle_requested: if f3 && !v.f3_chord { true } else { v.toggle_requested },
        f3_chord: if f3 { false } else { v.f3_chord },
        pressed_keys: v.pressed_keys.remove(key),
        ..v
    }
}

/// The state after `button` went down: a button that was up is pressed this
/// frame and makes a click.
pub open spec fn after_button_down(v: InputView, button: MouseButton) -> InputView {
    if v.pressed_buttons.contains(button) {
        v
    } else {
        InputView {
            just_pressed_buttons: v.just_pressed_buttons.insert(button),
            pending_clicks: v.pending_clicks.insert(button),
            pressed_buttons: v.pressed_buttons.insert(button),
            ..v
        }
    }
}

fn has_key(v: &Vec<Key>, k: Key) -> (r: bool)
    ensures
        r == v@.contains(k),
{
    let mut i: usize = 0;
    while i < v.len()
        invariant
            i <= v.len(),
            forall|j: int| 0 <= j < i ==> v@[j] != k,
        decreases v.len() - i,
    {
        if v[i] == k {
            return true;
        }
        i = i + 1;
    }
    false
}

fn has_button(v: &Vec<MouseButton>, b: MouseButton) -> (r: bool)
    ensures
        r == v@.contains(b),
{
    let mut i: usize = 0;
    while i < v.len()
        invariant
            i <= v.len(),
            forall|j: int| 0 <= j < i ==> v@[j] != b,
        decreases v.len() - i,
    {
        if v[i] == b {
            return true;
        }
        i = i + 1;
    }
    false
}

fn insert_key(v: &mut Vec<Key>, k: Key)
    ensures
        key_set(final(v)@) == key_set(old(v)@).insert(k),
{
    if !has_key(v, k) {
        v.push(k);
        assert forall|q: Key| #[trigger] key_set(v@).contains(q) == key_set(old(v)@).insert(k).contains(q) by {
            if old(v)@.contains(q) {
                let i = choose|i: int| 0 <= i < old(v)@.len() && old(v)@[i] == q;
                assert(v@[i] == q);
            }
            if v@.contains(q) && q != k {
                let i = choose|i: int| 0 <= i < v@.len() && v@[i] == q;
                assert(old(v)@[i] == q);
            }
            assert(v@[old(v)@.len() as int] == k);
        }
    }
    assert(key_set(v@) =~= key_set(old(v)@).insert(k));
}

fn remove_key(v: &mut Vec<Key>, k: Key)
    ensures
        key_set(final(v)@) == key_set(old(v)@).remove(k),
{
    let mut kept: Vec<Key> = Vec::new();
    let mut i: usize = 0;
    while i < v.len()
        invariant
            i <= v.len(),
            forall|q: Key| #[trigger] kept@.contains(q) <==> (v@.subrange(0, i as int).contains(q) && q != k),
        decreases v.len() - i,
    {
        let q = v[i];
        let ghost before = kept@;
        if q != k {
            kept.push(q);
        }
        proof {
            assert forall|p: Key| #[trigger] kept@.contains(p) <==> (v@.subrange(0, i + 1).contains(p) && p != k) by {
                if v@.subrange(0, i + 1).contains(p) {
                    let j = choose|j: int| 0 <= j < i + 1 && (#[trigger] v@.subrange(0, i + 1)[j]) == p;
                    if j < i {
                        assert(v@.subrange(0, i as int)[j] == p);
                    }
                }
                if v@.subrange(0, i as int).contains(p) {
                    let j = choose|j: int| 0 <= j < i && (#[trigger] v@.subrange(0, i as int)[j]) == p;
                    assert(v@.subrange(0, i + 1)[j] == p);
                }
                assert(v@.subrange(0, i + 1)[i as int] == q);
                if kept@.contains(p) && !before.contains(p) {
                    let j = choose|j: int| 0 <= j < kept@.len() && (#[trigger] kept@[j]) == p;
                    assert(j == before.len());
                }
                if before.contains(p) {
                    let j = choose|j: int| 0 <= j < before.len() && (#[trigger] before[j]) == p;
                    assert(kept@[j] == p);
                }
                if q != k {
                    assert(kept@[before.len() as int] == q);
                }
            }
        }
        i = i + 1;
    }
    assert(v@.subrange(0, v@.len() as int) == v@);
    assert(key_set(kept@) =~= key_set(v@).remove(k));
    *v = kept;
}

fn insert_button(v: &mut Vec<MouseButton>, b: MouseButton)
    ensures
        button_set(final(v)@) == button_set(old(v)@).insert(b),
{
    if !has_button(v, b) {
        v.push(b);
        assert forall|q: MouseButton| #[trigger] button_set(v@).contains(q) == button_set(old(v)@).insert(b).contains(q) by {
            if old(v)@.contains(q) {
                let i = choose|i: int| 0 <= i < old(v)@.len() && old(v)@[i] == q;
                assert(v@[i] == q);
            }
            if v@.contains(q) && q != b {
                let i = choose|i: int| 0 <= i < v@.len() && v@[i] == q;
                assert(old(v)@[i] == q);
            }
            assert(v@[old(v)@.len() as int] == b);
        }
    }
    assert(button_set(v@) =~= button_set(old(v)@).insert(b));
}

fn remove_button(v: &mut Vec<MouseButton>, b: MouseButton)
    ensures
        button_set(final(v)@) == button_set(old(v)@).remove(b),
{
    let mut kept: Vec<MouseButton> = Vec::new();
    let mut i: usize = 0;
    while i < v.len()
        invariant
            i <= v.len(),
            forall|q: MouseButton| #[trigger] kept@.contains(q) <==> (v@.subrange(0, i as int).contains(q) && q != b),
        decreases v.len() - i,
    {
        let q = v[i];
        let ghost before = kept@;
        if q != b {
            kept.push(q);
        }
        proof {
            assert forall|p: MouseButton| #[trigger] kept@.contains(p) <==> (v@.subrange(0, i + 1).contains(p) && p != b) by {
                if v@.subrange(0, i + 1).contains(p) {
                    let j = choose|j: int| 0 <= j < i + 1 && (#[trigger] v@.subrange(0, i + 1)[j]) == p;
                    if j < i {
                        assert(v@.subrange(0, i as int)[j] == p);
                    }
                }
                if v@.subrange(0, i as int).contains(p) {
                    let j = choose|j: int| 0 <= j < i && (#[trigger] v@.subrange(0, i as int)[j]) == p;
                    assert(v@.subrange(0, i + 1)[j] == p);
                }
                assert(v@.subrange(0, i + 1)[i as int] == q);
                if kept@.contains(p) && !before.contains(p) {
                    let j = choose|j: int| 0 <= j < kept@.len() && (#[trigger] kept@[j]) == p;
                    assert(j == before.len());
                }
                if before.contains(p) {
                    let j = choose|j: int| 0 <= j < before.len() && (#[trigger] before[j]) == p;
                    assert(kept@[j] == p);
                }
                if q != b {
                    assert(kept@[before.len() as int] == q);
                }
            }
        }
        i = i + 1;
    }
    assert(v@.subrange(0, v@.len() as int) == v@);
    assert(button_set(kept@) =~= button_set(v@).remove(b));
    *v = kept;
}

/// Keyboard and mouse button state.
pub struct InputState {
    pressed_keys: Vec<Key>,
    just_pressed_keys: Vec<Key>,
    pressed_buttons: Vec<MouseButton>,
    just_pressed_buttons: Vec<MouseButton>,
    pending_clicks: Vec<MouseButton>,
    toggle_requested: bool,
    f3_chord: bool,
}

impl View for InputState {
    type V = InputView;

    closed spec fn view(&self) -> InputView {
        InputView {
            pressed_keys: key_set(self.pressed_keys@),
            just_pressed_keys: key_set(self.just_pressed_keys@),
            pressed_buttons: button_set(self.pressed_buttons@),
            just_pressed_buttons: button_set(self.just_pressed_buttons@),
            pending_clicks: button_set(self.pending_clicks@),
            toggle_requested: self.toggle_requested,
            f3_chord: self.f3_chord,
        }
    }
}

impl InputState {
    /// Nothing pressed or requested.
    pub fn new() -> (r: InputState)
        ensures
            r@ == idle_input(),
    {
        let r = InputState {
            pressed_keys: Vec::new(),
            just_pressed_keys: Vec::new(),
            pressed_buttons: Vec::new(),
            just_pressed_buttons: Vec::new(),
            pending_clicks: Vec::new(),
            toggle_requested: false,
            f3_chord: false,
        };
        assert(r@.pressed_keys =~= Set::empty());
        assert(r@.just_pressed_keys =~= Set::empty());
        assert(r@.pressed_buttons =~= Set::empty());
        assert(r@.just_pressed_buttons =~= Set::empty());
        assert(r@.pending_clicks =~= Set::empty());
        r
    }

    /// A key went down.
    pub fn key_down(&mut self, key: Key, logical_f3: bool, repeat: bool)
        ensures
            final(self)@ == after_key_down(old(self)@, key, logical_f3, repeat),
    {
        let f3_key = logical_f3 || key == Key::F3;
        if !repeat && !f3_key && has_key(&self.pressed_keys, Key::F3) {
            self.f3_chord = true;
        }
        if !has_key(&self.pressed_keys, key) {
            insert_key(&mut self.just_pressed_keys, key);
        }
        insert_key(&mut self.pressed_keys, key);
    }

    /// A key went up.
    pub fn key_up(&mut self, key: Key, logical_f3: bool)
        ensures
            final(self)@ == after_key_up(old(self)@, key, logical_f3),
    {
        let f3_key = logical_f3 || key == Key::F3;
        if f3_key && !self.f3_chord {
            self.toggle_requested = true;
        }
        if f3_key {
            self.f3_chord = false;
        }
        remove_key(&mut self.pressed_keys, key);
    }

    /// A mouse button went down.
    pub fn button_down(&mut self, button: MouseButton)
        ensures
            final(self)@ == after_button_down(old(self)@, button),
    {
        if !has_button(&self.pressed_buttons, button) {
            insert_button(&mut self.just_pressed_buttons, button);
            insert_button(&mut self.pending_clicks, button);
            insert_button(&mut self.pressed_buttons, button);
        }
    }

    /// A mouse button went up.
    pub fn button_up(&mut self, button: MouseButton)
        ensures
            final(self)@ == (InputView { pressed_buttons: old(self)@.pressed_buttons.remove(button), ..old(self)@ }),
    {
        remove_button(&mut self.pressed_buttons, button);
    }

    /// The window lost focus: everything is released and forgotten.
    pub fn focus_lost(&mut self)
        ensures
            final(self)@ == idle_input(),
    {
        *self = InputState::new();
    }

    /// Whether a key is held.
    pub fn is_key_pressed(&self, key: Key) -> (r: bool)
        ensures
            r == self@.pressed_keys.contains(key),
    {
        has_key(&self.pressed_keys, key)
    }

    /// Whether a key went down during this frame.
    pub fn was_key_just_pressed(&self, key: Key) -> (r: bool)
        ensures
            r == self@.just_pressed_keys.contains(key),
    {
        has_key(&self.just_pressed_keys, key)
    }

    /// Whether a key went down during this frame; the press is used up.
    pub fn take_key_press(&mut self, key: Key) -> (r: bool)
        ensures
            r == old(self)@.just_pressed_keys.contains(key),
            final(self)@ == (InputView { just_pressed_keys: old(self)@.just_pressed_keys.remove(key), ..old(self)@ }),
    {
        let r = has_key(&self.just_pressed_keys, key);
        remove_key(&mut self.just_pressed_keys, key);
        r
    }

    /// Whether F3 is held, for debug key chords.
    pub fn is_f3_pressed(&self) -> (r: bool)
        ensures
            r == self@.pressed_keys.contains(Key::F3),
    {
        has_key(&self.pressed_keys, Key::F3)
    }

    /// Whether either Shift key is held.
    pub fn is_shift_pressed(&self) -> (r: bool)
        ensures
            r == (self@.pressed_keys.contains(Key::ShiftLeft) || self@.pressed_keys.contains(Key::ShiftRight)),
    {
        has_key(&self.pressed_keys, Key::ShiftLeft) || has_key(&self.pressed_keys, Key::ShiftRight)
    }

    /// Whether the debug overlay was asked to toggle; the request is used up.
    pub fn take_debug_overlay_toggle_requested(&mut self) -> (r: bool)
        ensures
            r == old(self)@.toggle_requested,
            final(self)@ == (InputView { toggle_requested: false, ..old(self)@ }),
    {
        let r = self.toggle_requested;
        self.toggle_requested = false;
        r
    }

    /// Whether a mouse button is held.
    pub fn is_mouse_button_pressed(&self, button: MouseButton) -> (r: bool)
        ensures
            r == self@.pressed_buttons.contains(button),
    {
        has_button(&self.pressed_buttons, button)
    }

    /// Whether a mouse button went down during this frame.
    pub fn was_mouse_button_just_pressed(&self, button: MouseButton) -> (r: bool)
        ensures
            r == self@.just_pressed_buttons.contains(button),
    {
        has_button(&self.just_pressed_buttons, button)
    }

    /// Whether a click of `button` waits for gameplay; the click is used up.
    pub fn take_mouse_click(&mut self, button: MouseButton) -> (r: bool)
        ensures
            r == old(self)@.pending_clicks.contains(button),
            final(self)@ == (InputView { pending_clicks: old(self)@.pending_clicks.remove(button), ..old(self)@ }),
    {
        let r = has_button(&self.pending_clicks, button);
        remove_button(&mut self.pending_clicks, button);
        r
    }

    /// Forgets the clicks that should not reach gameplay.
    pub fn clear_mouse_clicks(&mut self)
        ensures
            final(self)@ == (InputView {
                just_pressed_buttons: Set::empty(),
                pending_clicks: Set::empty(),
                ..old(self)@
            }),
    {
        self.just_pressed_buttons = Vec::new();
        self.pending_clicks = Vec::new();
        assert(self@.just_pressed_buttons =~= Set::empty());
        assert(self@.pending_clicks =~= Set::empty());
    }

    /// Ends a frame: what was pressed during it, and a toggle request, are
    /// forgotten; held keys and buttons and waiting clicks stay.
    pub fn end_frame(&mut self)
        ensures
            final(self)@ == (InputView {
                just_pressed_keys: Set::empty(),
                just_pressed_buttons: Set::empty(),
                toggle_requested: false,
                ..old(self)@
            }),
    {
        self.just_pressed_keys = Vec::new();
        self.just_pressed_buttons = Vec::new();
        self.toggle_requested = false;
        assert(self@.just_pressed_keys =~= Set::empty());
        assert(self@.just_pressed_buttons =~= Set::empty());
    }
}

impl Default for InputState {
    fn default() -> (r: InputState)
        ensures
            r@ == idle_input(),
    {
        InputState::new()
    }
}

} // verus!
