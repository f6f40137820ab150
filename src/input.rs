use std::collections::HashMap;
use vstd::prelude::*;

verus! {

broadcast use vstd::std_specs::hash::group_hash_axioms;

/// The key byte that asks to release the pointer lock (Escape).
pub const ESCAPE: u8 = 0x1b;

/// Pressed state of keys, keyed by the first byte of the key's text.
pub struct InputState {
    pub keys: HashMap<u8, bool>,
}

/// A key is held when it has been recorded and its last event was a press.
pub open spec fn held(keys: Map<u8, bool>, key: u8) -> bool {
    keys.contains_key(key) && keys[key]
}

/// What the loop around the simulation should do after a key event.
#[derive(PartialEq, Eq, Structural, Clone, Copy, Debug)]
pub enum KeyResponse {
    /// Nothing beyond recording the key.
    Recorded,
    /// The key was Escape: release the pointer lock (the key is recorded too).
    ReleasePointer,
    /// The event carried no text and was ignored.
    Ignored,
}

impl InputState {
    pub open spec fn view(&self) -> Map<u8, bool> {
        self.keys@
    }

    /// An input state in which no key has been seen.
    pub fn new() -> (r: InputState)
        ensures
            r.view() == Map::<u8, bool>::empty(),
    {
        InputState { keys: HashMap::new() }
    }

    /// Records the state of one key.
    pub fn set(&mut self, key: u8, pressed: bool)
        ensures
            final(self).view() == old(self).view().insert(key, pressed),
    {
        self.keys.insert(key, pressed);
    }

    /// Whether the key is currently held down.
    pub fn is_pressed(&self, key: u8) -> (r: bool)
        ensures
            r == held(self.view(), key),
    {
        match self.keys.get(&key) {
            Some(p) => *p,
            None => false,
        }
    }

    /// Handles one physical key transition, given the key's text as bytes.
    /// The first byte names the key; an event without text changes nothing.
    pub fn key_event(&mut self, text: &[u8], pressed: bool) -> (r: KeyResponse)
        ensures
            text@.len() == 0 ==> final(self).view() == old(self).view() && r == KeyResponse::Ignored,
            text@.len() > 0 ==> final(self).view() == old(self).view().insert(text@[0], pressed),
            text@.len() > 0 ==> (r == KeyResponse::ReleasePointer <==> text@[0] == ESCAPE),
            text@.len() > 0 ==> (r == KeyResponse::Recorded <==> text@[0] != ESCAPE),
    {
        if text.len() == 0 {
            return KeyResponse::Ignored;
        }
        let key = text[0];
        self.set(key, pressed);
        if key == ESCAPE {
            KeyResponse::ReleasePointer
        } else {
            KeyResponse::Recorded
        }
    }
}

} // verus!
