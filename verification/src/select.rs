//! Wrap-around selection in the result list: moving past either end of the
//! list continues at the other end.

use vstd::prelude::*;

verus! {

/// Move the selection one entry up, wrapping from the first entry to the
/// last. An empty list keeps the selection at 0.
pub fn select_prev(selected: usize, len: usize) -> (r: usize)
    requires
        len == 0 ==> selected == 0,
        len > 0 ==> selected < len,
    ensures
        len == 0 ==> r == 0,
        len > 0 && selected == 0 ==> r == len - 1,
        selected > 0 ==> r == selected - 1,
{
    if selected == 0 {
        if len == 0 {
            0
        } else {
            len - 1
        }
    } else {
        selected - 1
    }
}

/// Move the selection one entry down, wrapping from the last entry to the
/// first. An empty list keeps the selection at 0.
pub fn select_next(selected: usize, len: usize) -> (r: usize)
    requires
        len == 0 ==> selected == 0,
        len > 0 ==> selected < len,
    ensures
        len == 0 ==> r == 0,
        len > 0 && selected + 1 == len ==> r == 0,
        selected + 1 < len ==> r == selected + 1,
{
    if len == 0 {
        0
    } else if selected + 1 == len {
        0
    } else {
        selected + 1
    }
}

} // verus!
