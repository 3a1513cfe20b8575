//! Keyboard state tracking: which key codes are currently held down.

use vstd::prelude::*;

verus! {

/// The four logical movement keys.
#[derive(Clone, Copy, PartialEq, Eq, Structural, Debug)]
pub enum InputKey {
    UP,
    DOWN,
    LEFT,
    RIGHT,
}

/// The currently held key codes, in the order they were pressed; a code
/// appears once per unreleased press.
pub struct InputManager {
    pub inputs: Vec<usize>,
}

/// Whether the logical key is held: each direction answers to an arrow
/// key code and to one of the WASD codes.
pub open spec fn spec_key(im: InputManager, key: InputKey) -> bool {
    match key {
        InputKey::UP => im.inputs@.contains(38) || im.inputs@.contains(87),
        InputKey::DOWN => im.inputs@.contains(40) || im.inputs@.contains(83),
        InputKey::LEFT => im.inputs@.contains(37) || im.inputs@.contains(65),
        InputKey::RIGHT => im.inputs@.contains(39) || im.inputs@.contains(68),
    }
}

/// Whether `v` holds `code`, by linear scan.
fn holds_code(v: &Vec<usize>, code: usize) -> (r: bool)
    ensures
        r == v@.contains(code),
{
    let mut k: usize = 0;
    while k < v.len()
        invariant
            k <= v@.len(),
            forall|i: int| 0 <= i < k ==> v@[i] != code,
        decreases v@.len() - k,
    {
        if v[k] == code {
            proof {
                assert(v@[k as int] == code);
            }
            return true;
        }
        k = k + 1;
    }
    false
}

impl InputManager {
    /// Start with no key held.
    pub fn new() -> (r: Self)
        ensures
            r.inputs@ == Seq::<usize>::empty(),
    {
        InputManager { inputs: Vec::new() }
    }

    /// Record that `key_code` went down.
    pub fn key_down(&mut self, key_code: usize)
        ensures
            final(self).inputs@ == old(self).inputs@.push(key_code),
    {
        self.inputs.push(key_code);
    }

    /// Record that `key_code` went up: every held occurrence of it is
    /// dropped, keeping the order of the other held codes.
    pub fn key_up(&mut self, key_code: usize)
        ensures
            final(self).inputs@ == old(self).inputs@.filter(|e: usize| e != key_code),
    {
        let mut kept: Vec<usize> = Vec::new();
        let mut k: usize = 0;
        while k < self.inputs.len()
            invariant
                k <= self.inputs@.len(),
                self.inputs == old(self).inputs,
                kept@ == old(self).inputs@.take(k as int).filter(|e: usize| e != key_code),
            decreases self.inputs@.len() - k,
        {
            let ghost taken = old(self).inputs@.take(k as int);
            let e = self.inputs[k];
            if e != key_code {
                kept.push(e);
            }
            proof {
                assert(old(self).inputs@.take(k + 1).drop_last() =~= taken);
                assert(old(self).inputs@.take(k + 1).last() == e);
                reveal(Seq::filter);
            }
            k = k + 1;
        }
        proof {
            assert(old(self).inputs@.take(self.inputs@.len() as int) =~= old(self).inputs@);
        }
        self.inputs = kept;
    }

    /// Whether the logical `key` is held down.
    pub fn get_key(&self, key: InputKey) -> (r: bool)
        ensures
            r == spec_key(*self, key),
    {
        match key {
            InputKey::UP => holds_code(&self.inputs, 38) || holds_code(&self.inputs, 87),
            InputKey::DOWN => holds_code(&self.inputs, 40) || holds_code(&self.inputs, 83),
            InputKey::LEFT => holds_code(&self.inputs, 37) || holds_code(&self.inputs, 65),
            InputKey::RIGHT => holds_code(&self.inputs, 39) || holds_code(&self.inputs, 68),
        }
    }
}

} // verus!
