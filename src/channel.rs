use vstd::prelude::*;

verus! {

/// Which side of a channel the member list stands on.
#[derive(Clone, Copy, Debug, PartialEq, Eq, Structural)]
pub enum Position {
    Left,
    Right,
}

/// How a channel shows its member list.
#[derive(Clone, Copy, Debug, PartialEq, Eq, Structural)]
pub struct Users {
    pub visible: bool,
    pub position: Position,
}

impl Default for Users {
    fn default() -> (r: Users)
        ensures
            r == (Users { visible: true, position: Position::Left }),
    {
        Users { visible: true, position: Position::Left }
    }
}

impl Users {
    /// Shows a hidden member list, hides a shown one.
    pub fn toggle_visibility(&mut self)
        ensures
            *final(self) == (Users { visible: !old(self).visible, ..*old(self) }),
    {
        self.visible = !self.visible
    }
}

} // verus!
