//! Focus among the panels of the browser.
use vstd::prelude::*;

verus! {

/// The panels that can hold the focus.
#[derive(Debug, Clone, Copy, PartialEq, Eq, Structural)]
pub enum Panel {
    Left,
    Center,
    Right,
    Debug,
}

/// The panel after `p`: left, center, right, then the debug panel when it
/// is shown, and round to the left again.
pub open spec fn next_of(p: Panel, debug_visible: bool) -> Panel {
    match p {
        Panel::Left => Panel::Center,
        Panel::Center => Panel::Right,
        Panel::Right => if debug_visible {
            Panel::Debug
        } else {
            Panel::Left
        },
        Panel::Debug => Panel::Left,
    }
}

/// The panel before `p`, the same round backwards.
pub open spec fn prev_of(p: Panel, debug_visible: bool) -> Panel {
    match p {
        Panel::Left => if debug_visible {
            Panel::Debug
        } else {
            Panel::Right
        },
        Panel::Center => Panel::Left,
        Panel::Right => Panel::Center,
        Panel::Debug => Panel::Right,
    }
}

impl Panel {
    /// The panel that focus moves to forwards.
    pub fn next(self, debug_visible: bool) -> (r: Panel)
        ensures
            r == next_of(self, debug_visible),
    {
        match self {
            Panel::Left => Panel::Center,
            Panel::Center => Panel::Right,
            Panel::Right => {
                if debug_visible {
                    Panel::Debug
                } else {
                    Panel::Left
                }
            },
            Panel::Debug => Panel::Left,
        }
    }

    /// The panel that focus moves to backwards.
    pub fn prev(self, debug_visible: bool) -> (r: Panel)
        ensures
            r == prev_of(self, debug_visible),
    {
        match self {
            Panel::Left => {
                if debug_visible {
                    Panel::Debug
                } else {
                    Panel::Right
                }
            },
            Panel::Center => Panel::Left,
            Panel::Right => Panel::Center,
            Panel::Debug => Panel::Right,
        }
    }
}

/// Moving the focus forwards and then backwards returns it to where it was,
/// and so does moving backwards then forwards, for every panel that can
/// hold the focus: the debug panel only while it is shown.
pub proof fn law_next_prev_inverse(p: Panel, debug_visible: bool)
    requires
        debug_visible || p != Panel::Debug,
    ensures
        prev_of(next_of(p, debug_visible), debug_visible) == p,
        next_of(prev_of(p, debug_visible), debug_visible) == p,
{
}

/// Moving forwards visits every shown panel once before coming back: four
/// steps with the debug panel shown, three without it.
pub proof fn law_next_cycle(p: Panel, debug_visible: bool)
    requires
        debug_visible || p != Panel::Debug,
    ensures
        debug_visible ==> next_of(next_of(next_of(next_of(p, true), true), true), true) == p,
        !debug_visible ==> next_of(next_of(next_of(p, false), false), false) == p,
        next_of(p, debug_visible) != p,
{
}

} // verus!
