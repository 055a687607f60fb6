use vstd::prelude::*;

verus! {

/// The keys the ship is steered with, as read this frame.
#[derive(Debug, Clone, Copy, PartialEq, Eq, Structural)]
pub struct ControlKeys {
    /// Space went down this frame.
    pub fire_just_pressed: bool,
    /// Left arrow held.
    pub left_pressed: bool,
    /// Right arrow held.
    pub right_pressed: bool,
    /// Right Control held: turn fast.
    pub fast_turn_pressed: bool,
    /// Up arrow held: thrust.
    pub thrust_pressed: bool,
    /// Up arrow went down this frame.
    pub thrust_just_pressed: bool,
    /// Up arrow went up this frame.
    pub thrust_just_released: bool,
}

/// How fast the ship turns.
#[derive(Debug, Clone, Copy, PartialEq, Eq, Structural)]
pub enum TurnSpeed {
    Slow,
    Fast,
}

/// Which way the ship turns this frame (counter-clockwise is left).
#[derive(Debug, Clone, Copy, PartialEq, Eq, Structural)]
pub enum Turn {
    Straight,
    Left(TurnSpeed),
    Right(TurnSpeed),
}

/// Whether the ship speeds up along its heading or slows down.
#[derive(Debug, Clone, Copy, PartialEq, Eq, Structural)]
pub enum Thrust {
    Accelerate,
    Decelerate,
}

/// What happens to the looping thruster sound this frame.
#[derive(Debug, Clone, Copy, PartialEq, Eq, Structural)]
pub enum ThrusterSound {
    /// Start the loop, panned to the ship's position.
    StartLoop,
    /// Keep the loop, panned to the ship's new position.
    Pan,
    /// Stop the loop.
    Stop,
    /// Leave it as it is.
    Unchanged,
}

/// What happens to the flame behind the ship this frame.
#[derive(Debug, Clone, Copy, PartialEq, Eq, Structural)]
pub enum FlameAction {
    Spawn,
    DespawnAll,
    Unchanged,
}

/// The actions of one frame of steering.
#[derive(Debug, Clone, Copy, PartialEq, Eq, Structural)]
pub struct ControlActions {
    pub fire: bool,
    pub turn: Turn,
    pub thrust: Thrust,
    pub sound: ThrusterSound,
    pub flame: FlameAction,
}

/// The steering rules: Space fires once per press; Left wins over Right,
/// Right Control makes the turn fast; holding Up accelerates (starting the
/// thruster sound and the flame on the frame it goes down, re-panning the
/// sound on later frames), otherwise the ship slows down (stopping the sound
/// and removing the flames on the frame Up is let go).
pub open spec fn control_actions_spec(keys: ControlKeys) -> ControlActions {
    let speed = if keys.fast_turn_pressed { TurnSpeed::Fast } else { TurnSpeed::Slow };
    ControlActions {
        fire: keys.fire_just_pressed,
        turn: if keys.left_pressed {
            Turn::Left(speed)
        } else if keys.right_pressed {
            Turn::Right(speed)
        } else {
            Turn::Straight
        },
        thrust: if keys.thrust_pressed { Thrust::Accelerate } else { Thrust::Decelerate },
        sound: if keys.thrust_pressed {
            if keys.thrust_just_pressed { ThrusterSound::StartLoop } else { ThrusterSound::Pan }
        } else if keys.thrust_just_released {
            ThrusterSound::Stop
        } else {
            ThrusterSound::Unchanged
        },
        flame: if keys.thrust_pressed {
            if keys.thrust_just_pressed { FlameAction::Spawn } else { FlameAction::Unchanged }
        } else if keys.thrust_just_released {
            FlameAction::DespawnAll
        } else {
            FlameAction::Unchanged
        },
    }
}

/// Decides this frame's steering from the keys; the caller fires the laser,
/// turns and moves the ship, and plays the sounds and flames it asks for.
pub fn control_actions(keys: ControlKeys) -> (a: ControlActions)
    ensures
        a == control_actions_spec(keys),
{
    let speed = if keys.fast_turn_pressed { TurnSpeed::Fast } else { TurnSpeed::Slow };
    let turn = if keys.left_pressed {
        Turn::Left(speed)
    } else if keys.right_pressed {
        Turn::Right(speed)
    } else {
        Turn::Straight
    };
    let (thrust, sound, flame) = if keys.thrust_pressed {
        if keys.thrust_just_pressed {
            (Thrust::Accelerate, ThrusterSound::StartLoop, FlameAction::Spawn)
        } else {
            (Thrust::Accelerate, ThrusterSound::Pan, FlameAction::Unchanged)
        }
    } else if keys.thrust_just_released {
        (Thrust::Decelerate, ThrusterSound::Stop, FlameAction::DespawnAll)
    } else {
        (Thrust::Decelerate, ThrusterSound::Unchanged, FlameAction::Unchanged)
    };
    ControlActions { fire: keys.fire_just_pressed, turn, thrust, sound, flame }
}

/// What the keys decide: the laser fires exactly on a fresh Space press;
/// the ship turns left while Left is held, else right while Right is held,
/// else not at all; a turn either way is fast exactly when Right Control is
/// held; it accelerates exactly while Up is held.
pub proof fn law_keys_decide_steering(keys: ControlKeys)
    ensures
        control_actions_spec(keys).fire == keys.fire_just_pressed,
        control_actions_spec(keys).turn is Left <==> keys.left_pressed,
        control_actions_spec(keys).turn is Right <==> !keys.left_pressed && keys.right_pressed,
        control_actions_spec(keys).turn is Straight <==> !keys.left_pressed && !keys.right_pressed,
        control_actions_spec(keys).turn matches Turn::Left(sp) ==> (sp == TurnSpeed::Fast <==> keys.fast_turn_pressed),
        control_actions_spec(keys).turn matches Turn::Right(sp) ==> (sp == TurnSpeed::Fast <==> keys.fast_turn_pressed),
        control_actions_spec(keys).thrust == Thrust::Accelerate <==> keys.thrust_pressed,
{
}

/// The thruster's sound and flame go together: whenever the loop starts a
/// flame is spawned, and whenever it stops the flames are removed; neither
/// happens while the key state does not change.
pub proof fn law_sound_and_flame_together(keys: ControlKeys)
    ensures
        (control_actions_spec(keys).sound == ThrusterSound::StartLoop) <==> (control_actions_spec(keys).flame
            == FlameAction::Spawn),
        (control_actions_spec(keys).sound == ThrusterSound::Stop) <==> (control_actions_spec(keys).flame
            == FlameAction::DespawnAll),
        !keys.thrust_just_pressed && !keys.thrust_just_released ==> control_actions_spec(keys).flame
            == FlameAction::Unchanged,
{
}

} // verus!
