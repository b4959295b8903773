use vstd::prelude::*;

verus! {

/// The four directional flags, each set on key-down and cleared on key-up.
#[derive(Clone, Copy, Debug, PartialEq, Eq, Structural)]
pub struct Input {
    pub forward: bool,
    pub backward: bool,
    pub left: bool,
    pub right: bool,
}

/// One of the four directional keys.
#[derive(Clone, Copy, Debug, PartialEq, Eq, Structural)]
pub enum Direction {
    Forward,
    Backward,
    Left,
    Right,
}

impl Default for Input {
    fn default() -> (r: Self)
        ensures
            !r.forward && !r.backward && !r.left && !r.right,
    {
        Input { forward: false, backward: false, left: false, right: false }
    }
}

impl Input {
    /// Whether any direction is held.
    pub open spec fn any_active(&self) -> bool {
        self.forward || self.backward || self.left || self.right
    }

    /// Whether any direction is held.
    pub fn input(&self) -> (r: bool)
        ensures
            r == self.any_active(),
    {
        self.right || self.backward || self.left || self.forward
    }

    /// The flags after a key of `d` went down (`pressed`) or up.
    pub open spec fn after_key(&self, d: Direction, pressed: bool) -> Input {
        match d {
            Direction::Forward => Input { forward: pressed, ..*self },
            Direction::Backward => Input { backward: pressed, ..*self },
            Direction::Left => Input { left: pressed, ..*self },
            Direction::Right => Input { right: pressed, ..*self },
        }
    }

    /// Records a key-down (`pressed`) or key-up edge of a directional key;
    /// repeating an edge changes nothing.
    pub fn key_event(&mut self, d: Direction, pressed: bool)
        ensures
            *final(self) == old(self).after_key(d, pressed),
    {
        match d {
            Direction::Forward => self.forward = pressed,
            Direction::Backward => self.backward = pressed,
            Direction::Left => self.left = pressed,
            Direction::Right => self.right = pressed,
        }
    }
}

} // verus!
