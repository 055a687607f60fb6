use vstd::prelude::*;

verus! {

/// The frame shown after `index` in a looping animation of `frame_count`
/// frames, and whether the animation wrapped around to its first frame
/// (which raises the loop event).
pub open spec fn next_frame_spec(index: nat, frame_count: nat) -> (nat, bool)
    recommends
        frame_count > 0,
{
    let next = (index + 1) % frame_count;
    (next, next == 0)
}

/// Advances a sprite animation whose timer ran out by one frame.
pub fn next_frame(index: usize, frame_count: usize) -> (r: (usize, bool))
    requires
        frame_count > 0,
        index < usize::MAX,
    ensures
        (r.0 as nat, r.1) == next_frame_spec(index as nat, frame_count as nat),
{
    let next = (index + 1) % frame_count;
    (next, next == 0)
}

/// Within an animation the frame index stays in range, and the loop event is
/// raised exactly when the last frame is left.
pub proof fn law_animation_loops(index: nat, frame_count: nat)
    requires
        frame_count > 0,
        index < frame_count,
    ensures
        next_frame_spec(index, frame_count).0 < frame_count,
        next_frame_spec(index, frame_count).1 <==> index == frame_count - 1,
        index < frame_count - 1 ==> next_frame_spec(index, frame_count).0 == index + 1,
{
    if index + 1 < frame_count {
        vstd::arithmetic::div_mod::lemma_small_mod((index + 1) as nat, frame_count);
    } else {
        vstd::arithmetic::div_mod::lemma_mod_self_0(frame_count as int);
    }
}

} // verus!
