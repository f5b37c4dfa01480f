use vstd::prelude::*;

verus! {

/// The number of key codes tracked.
pub const KEY_COUNT: usize = 256;

/// One keyboard event: the physical key, the virtual key code where there is one, whether
/// the key went down, and the modifier bits held at the time.
#[derive(Clone, Copy, PartialEq, Eq, Debug, Structural)]
pub struct KeyEvent {
    pub scancode: u32,
    pub code: Option<u8>,
    pub pressed: bool,
    pub modifiers: u32,
}

/// What is known of one key: whether it is down, and whether that changed with the
/// last batch of events.
#[derive(Clone, Copy, PartialEq, Eq, Debug, Structural)]
pub struct KeyState {
    pub just_changed: bool,
    pub pressed: bool,
}

/// The state of every key code; `None` for a key never seen.
pub struct KeyboardInput {
    state: Vec<Option<KeyState>>,
}

/// Every key's state with its change mark cleared.
pub open spec fn settled(m: Seq<Option<KeyState>>) -> Seq<Option<KeyState>> {
    Seq::new(
        m.len(),
        |i: int|
            match m[i] {
                Some(s) => Some(KeyState { just_changed: false, pressed: s.pressed }),
                None => None,
            },
    )
}

/// The key states after a batch of events, taken from the newest to the oldest: an event
/// already taken, one without a key code, or one that repeats the key's current state
/// changes nothing; any other sets the key to its state and marks it changed.
pub open spec fn after_events(m: Seq<Option<KeyState>>, events: Seq<KeyEvent>, seen: Seq<KeyEvent>) -> Seq<
    Option<KeyState>,
>
    decreases events.len(),
{
    if events.len() == 0 {
        m
    } else {
        let e = events.last();
        let rest = events.drop_last();
        match e.code {
            None => after_events(m, rest, seen),
            Some(c) => if seen.contains(e) || (m[c as int] matches Some(s) && s.pressed == e.pressed) {
                after_events(m, rest, seen)
            } else {
                after_events(
                    m.update(c as int, Some(KeyState { just_changed: true, pressed: e.pressed })),
                    rest,
                    seen.push(e),
                )
            },
        }
    }
}

impl KeyboardInput {
    pub closed spec fn view(&self) -> Seq<Option<KeyState>> {
        self.state@
    }

    pub open spec fn wf(&self) -> bool {
        self.view().len() == KEY_COUNT
    }

    /// No key seen yet.
    pub fn new() -> (r: KeyboardInput)
        ensures
            r.wf(),
            forall|i: int| 0 <= i < KEY_COUNT ==> r.view()[i].is_none(),
    {
        let mut state: Vec<Option<KeyState>> = Vec::new();
        let mut i: usize = 0;
        while i < KEY_COUNT
            invariant
                i <= KEY_COUNT,
                state@.len() == i,
                forall|j: int| 0 <= j < i ==> state@[j].is_none(),
            decreases KEY_COUNT - i,
        {
            state.push(None);
            i = i + 1;
        }
        KeyboardInput { state }
    }

    /// The key went down with the last batch of events.
    pub fn pressed(&self, key: u8) -> (r: bool)
        requires
            self.wf(),
        ensures
            r == (self.view()[key as int] matches Some(s) && s.pressed && s.just_changed),
    {
        match self.state[key as usize] {
            Some(s) => s.pressed && s.just_changed,
            None => false,
        }
    }

    /// The key is up.
    pub fn released(&self, key: u8) -> (r: bool)
        requires
            self.wf(),
        ensures
            r == (self.view()[key as int] matches Some(s) && !s.pressed),
    {
        match self.state[key as usize] {
            Some(s) => !s.pressed,
            None => false,
        }
    }

    /// The key is down.
    pub fn held(&self, key: u8) -> (r: bool)
        requires
            self.wf(),
        ensures
            r == (self.view()[key as int] matches Some(s) && s.pressed),
    {
        match self.state[key as usize] {
            Some(s) => s.pressed,
            None => false,
        }
    }

    /// Takes in a batch of events, which it empties: the change marks of the last batch
    /// are cleared, then the events are taken from the newest to the oldest.
    pub fn capture_keys(&mut self, keys: &mut Vec<KeyEvent>)
        requires
            old(self).wf(),
        ensures
            final(self).wf(),
            final(self).view() == after_events(settled(old(self).view()), old(keys)@, Seq::empty()),
            final(keys)@.len() == 0,
    {
        let mut i: usize = 0;
        while i < KEY_COUNT
            invariant
                self.state@.len() == KEY_COUNT,
                old(self).view().len() == KEY_COUNT,
                i <= KEY_COUNT,
                forall|j: int| 0 <= j < i ==> self.state@[j] == settled(old(self).view())[j],
                forall|j: int| i <= j < KEY_COUNT ==> self.state@[j] == old(self).view()[j],
            decreases KEY_COUNT - i,
        {
            match self.state[i] {
                Some(s) => {
                    self.state.set(i, Some(KeyState { just_changed: false, pressed: s.pressed }));
                },
                None => {},
            }
            i = i + 1;
        }
        assert(self.state@ =~= settled(old(self).view()));
        let mut seen: Vec<KeyEvent> = Vec::new();
        let ghost all = keys@;
        while keys.len() > 0
            invariant
                self.state@.len() == KEY_COUNT,
                after_events(self.state@, keys@, seen@) == after_events(settled(old(self).view()), all, Seq::empty()),
            decreases keys@.len(),
        {
            let e = keys.pop().unwrap();
            match e.code {
                None => {},
                Some(c) => {
                    let mut taken = false;
                    let mut k: usize = 0;
                    while k < seen.len()
                        invariant
                            k <= seen@.len(),
                            taken == (exists|j: int| 0 <= j < k && seen@[j] == e),
                        decreases seen@.len() - k,
                    {
                        if seen[k] == e {
                            taken = true;
                        }
                        k = k + 1;
                    }
                    assert(taken == seen@.contains(e));
                    let same = match self.state[c as usize] {
                        Some(s) => s.pressed == e.pressed,
                        None => false,
                    };
                    if !taken && !same {
                        self.state.set(c as usize, Some(KeyState { just_changed: true, pressed: e.pressed }));
                        seen.push(e);
                    }
                },
            }
        }
    }
}

} // verus!
