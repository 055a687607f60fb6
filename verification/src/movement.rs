use vstd::prelude::*;

verus! {

/// A non-wrapping sprite crossing the window border.
#[derive(Debug, Clone, Copy, PartialEq, Eq, Structural)]
pub enum WindowCrossing {
    Entered,
    Exited,
}

/// The event a non-wrapping sprite raises after a move, from whether it was
/// inside the window before and is inside after.
pub fn window_crossing(was_inside: bool, is_inside: bool) -> (c: Option<WindowCrossing>)
    ensures
        c == (if was_inside && !is_inside {
            Some(WindowCrossing::Exited)
        } else if !was_inside && is_inside {
            Some(WindowCrossing::Entered)
        } else {
            None
        }),
{
    match (was_inside, is_inside) {
        (true, true) => None,
        (true, false) => Some(WindowCrossing::Exited),
        (false, true) => Some(WindowCrossing::Entered),
        (false, false) => None,
    }
}

/// Enter and exit events alternate: along any path of inside/outside
/// observations, a sprite that exits was inside and one that enters was
/// outside, so consecutive events never repeat.
pub proof fn law_crossings_alternate(a: bool, b: bool, c: bool)
    ensures
        ({
            let first = if a && !b { Some(WindowCrossing::Exited) } else if !a && b { Some(WindowCrossing::Entered) } else { None::<WindowCrossing> };
            let second = if b && !c { Some(WindowCrossing::Exited) } else if !b && c { Some(WindowCrossing::Entered) } else { None::<WindowCrossing> };
            (first is Some && second is Some) ==> first != second
        }),
{
}

} // verus!
