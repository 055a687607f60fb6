use vstd::prelude::*;

verus! {

/// What the asteroid spawner does in one frame of play.
#[derive(Debug, Clone, Copy, PartialEq, Eq, Structural)]
pub enum SpawnerAction {
    /// The field was just cleared: restart the timer with the short breather
    /// delay and hold spawning until it runs out.
    StartBreather,
    /// The field is clear and the breather is still running.
    Wait,
    /// The breather is over: restart the timer with the current delay,
    /// resume spawning and spawn one asteroid.
    ResumeAndSpawn,
    /// The timer ran out during play: shorten the delay, restart the timer
    /// with it and spawn one asteroid.
    SpawnAndSpeedUp,
    /// Nothing to do this frame.
    Idle,
}

/// The spawner's decision from whether the field holds no asteroid, whether
/// it is holding a breather, and whether its timer ran out this frame.
pub open spec fn spawner_decision(field_empty: bool, paused: bool, timer_finished: bool) -> SpawnerAction {
    if field_empty && !paused {
        SpawnerAction::StartBreather
    } else if field_empty && paused && !timer_finished {
        SpawnerAction::Wait
    } else if field_empty && paused && timer_finished {
        SpawnerAction::ResumeAndSpawn
    } else if !field_empty && !paused && timer_finished {
        SpawnerAction::SpawnAndSpeedUp
    } else {
        SpawnerAction::Idle
    }
}

/// Whether an action spawns an asteroid.
pub open spec fn spawns(a: SpawnerAction) -> bool {
    a == SpawnerAction::ResumeAndSpawn || a == SpawnerAction::SpawnAndSpeedUp
}

/// The part of the asteroid spawner that decides: whether it is holding a
/// breather after the field was cleared. Its timer and delay live with the
/// game engine.
#[derive(Debug, Clone, Copy)]
pub struct AsteroidsSpawner {
    paused: bool,
}

impl AsteroidsSpawner {
    pub closed spec fn is_paused(&self) -> bool {
        self.paused
    }

    /// A spawner at the start of a game: spawning, no breather.
    pub fn new() -> (s: AsteroidsSpawner)
        ensures
            !s.is_paused(),
    {
        AsteroidsSpawner { paused: false }
    }

    pub fn paused(&self) -> (p: bool)
        ensures
            p == self.is_paused(),
    {
        self.paused
    }

    /// One frame of the spawner: returns what to do and records whether a
    /// breather is now held.
    pub fn step(&mut self, field_empty: bool, timer_finished: bool) -> (a: SpawnerAction)
        ensures
            a == spawner_decision(field_empty, old(self).is_paused(), timer_finished),
            final(self).is_paused() == match a {
                SpawnerAction::StartBreather => true,
                SpawnerAction::ResumeAndSpawn => false,
                _ => old(self).is_paused(),
            },
    {
        if field_empty && !self.paused {
            self.paused = true;
            SpawnerAction::StartBreather
        } else if field_empty && self.paused && !timer_finished {
            SpawnerAction::Wait
        } else if field_empty && self.paused && timer_finished {
            self.paused = false;
            SpawnerAction::ResumeAndSpawn
        } else if !field_empty && !self.paused && timer_finished {
            SpawnerAction::SpawnAndSpeedUp
        } else {
            SpawnerAction::Idle
        }
    }
}

/// The spawner only ever spawns when its timer has run out, and never in the
/// frame in which it first finds the field cleared.
pub proof fn law_spawn_only_on_timer(field_empty: bool, paused: bool, timer_finished: bool)
    ensures
        spawns(spawner_decision(field_empty, paused, timer_finished)) ==> timer_finished,
        field_empty && !paused ==> !spawns(spawner_decision(field_empty, paused, timer_finished)),
{
}

/// A cleared field is answered by a breather and then, once the timer runs
/// out with the field still clear, by exactly one spawn that ends it.
pub proof fn law_breather_then_spawn(timer_finished: bool)
    ensures
        spawner_decision(true, false, timer_finished) == SpawnerAction::StartBreather,
        spawner_decision(true, true, false) == SpawnerAction::Wait,
        spawner_decision(true, true, true) == SpawnerAction::ResumeAndSpawn,
{
}

/// Asteroids spawned and shot during one game.
#[derive(Debug, Clone, Copy)]
pub struct AsteroidCounter {
    spawned: usize,
    shot: usize,
}

impl AsteroidCounter {
    pub closed spec fn spawned_count(&self) -> nat {
        self.spawned as nat
    }

    pub closed spec fn shot_count(&self) -> nat {
        self.shot as nat
    }

    /// Both counts at zero, as at the start of a game.
    pub fn new() -> (c: AsteroidCounter)
        ensures
            c.spawned_count() == 0,
            c.shot_count() == 0,
    {
        AsteroidCounter { spawned: 0, shot: 0 }
    }

    pub fn spawned(&self) -> (n: usize)
        ensures
            n == self.spawned_count(),
    {
        self.spawned
    }

    pub fn shot(&self) -> (n: usize)
        ensures
            n == self.shot_count(),
    {
        self.shot
    }

    pub fn record_spawned(&mut self)
        requires
            old(self).spawned_count() < usize::MAX,
        ensures
            final(self).spawned_count() == old(self).spawned_count() + 1,
            final(self).shot_count() == old(self).shot_count(),
    {
        self.spawned = self.spawned + 1;
    }

    pub fn record_shot(&mut self)
        requires
            old(self).shot_count() < usize::MAX,
        ensures
            final(self).shot_count() == old(self).shot_count() + 1,
            final(self).spawned_count() == old(self).spawned_count(),
    {
        self.shot = self.shot + 1;
    }

    /// The field counts as empty when every spawned asteroid has been shot;
    /// the spawner is then forced to spawn at once.
    pub fn field_cleared(&self) -> (b: bool)
        ensures
            b == (self.spawned_count() == self.shot_count()),
    {
        self.spawned == self.shot
    }
}

/// What a timed spawner does in one frame.
#[derive(Debug, Clone, Copy, PartialEq, Eq, Structural)]
pub enum TimedSpawn {
    /// No timer yet: spawn now and start the timer.
    SpawnAndStartTimer,
    /// The timer ran out: spawn and restart it with the current delay.
    SpawnAndRestart,
    /// The timer is still running.
    Wait,
}

/// The decision of a spawner that spawns every time its timer runs out;
/// `timer` is `None` when no timer is installed, otherwise whether it ran out
/// this frame. Removing the timer forces an immediate spawn.
pub fn timed_spawn(timer: Option<bool>) -> (t: TimedSpawn)
    ensures
        t == match timer {
            None => TimedSpawn::SpawnAndStartTimer,
            Some(true) => TimedSpawn::SpawnAndRestart,
            Some(false) => TimedSpawn::Wait,
        },
{
    match timer {
        None => TimedSpawn::SpawnAndStartTimer,
        Some(finished) => if finished {
            TimedSpawn::SpawnAndRestart
        } else {
            TimedSpawn::Wait
        },
    }
}

} // verus!
