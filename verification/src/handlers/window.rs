//! The life of the window.

use vstd::prelude::*;
use crate::handlers::nav;
use crate::state::State;

verus! {

/// The size of the window, in points; nothing before it is first told of.
#[derive(Clone, Copy, PartialEq, Eq, Structural, Debug)]
pub struct Window {
    pub width: u32,
    pub height: u32,
}

/// Word of the size of the window. The first word is the earliest moment when there is
/// anybody to ask: then the first tabs ask for what they live by.
pub fn on_window_resized(state: &mut State, window: &mut Window, width: u32, height: u32)
    ensures
        *final(window) == (Window { width, height }),
        if *old(window) == (Window { width: 0, height: 0 }) {
            nav::bootstrapped(*old(state), *final(state))
        } else {
            *final(state) == *old(state)
        },
        old(state).screen.whole() ==> final(state).screen.whole(),
{
    if window.width == 0 && window.height == 0 {
        nav::bootstrap(state);
    }
    window.width = width;
    window.height = height;
}

} // verus!
