//! Enemy spawning and firing rules.
use vstd::prelude::*;

pub mod formation;

use crate::ENEMY_MAX;

verus! {

/// Chance, per frame, that the enemies fire: `ENEMY_FIRE_CHANCE_NUMERATOR`
/// in `ENEMY_FIRE_CHANCE_DENOMINATOR`.
pub const ENEMY_FIRE_CHANCE_NUMERATOR: u32 = 1;

/// See `ENEMY_FIRE_CHANCE_NUMERATOR`.
pub const ENEMY_FIRE_CHANCE_DENOMINATOR: u32 = 60;

/// Number of enemies spawned so far.
pub struct EnemyCount(pub u32);

/// Enemy count after one spawn tick.
pub open spec fn spec_count_after_tick(count: nat) -> nat {
    if count < ENEMY_MAX {
        count + 1
    } else {
        count
    }
}

/// Enemy count after `n` spawn ticks, starting from no enemy.
pub open spec fn spec_count_after_ticks(n: nat) -> nat
    decreases n,
{
    if n == 0 {
        0
    } else {
        spec_count_after_tick(spec_count_after_ticks((n - 1) as nat))
    }
}

impl EnemyCount {
    /// One spawn tick: an enemy is spawned (and counted) exactly when fewer
    /// than `ENEMY_MAX` have been spawned. Returns whether to spawn.
    pub fn try_spawn(&mut self) -> (spawn: bool)
        ensures
            spawn == (old(self).0 < ENEMY_MAX),
            final(self).0 == spec_count_after_tick(old(self).0 as nat),
            old(self).0 <= ENEMY_MAX ==> final(self).0 <= ENEMY_MAX,
    {
        if self.0 < ENEMY_MAX {
            self.0 = self.0 + 1;
            true
        } else {
            false
        }
    }
}

/// The spawner never lets more than `ENEMY_MAX` enemies in: after `n` spawn
/// ticks from no enemy, exactly `min(n, ENEMY_MAX)` enemies were spawned.
pub proof fn lemma_enemy_count_capped(n: nat)
    ensures
        spec_count_after_ticks(n) == if n < ENEMY_MAX { n } else { ENEMY_MAX as nat },
    decreases n,
{
    if n > 0 {
        lemma_enemy_count_capped((n - 1) as nat);
    }
}

/// Outcome of a run criterion: whether a system runs this frame.
#[derive(Clone, Copy, Debug, PartialEq, Eq, Structural)]
pub enum ShouldRun {
    Yes,
    No,
}

/// The enemies fire exactly when the frame's roll came out true.
pub open spec fn spec_fire_decision(roll: bool) -> ShouldRun {
    if roll {
        ShouldRun::Yes
    } else {
        ShouldRun::No
    }
}

/// Turns this frame's random roll into the enemies' fire decision.
pub fn fire_decision(roll: bool) -> (decision: ShouldRun)
    ensures
        decision == spec_fire_decision(roll),
{
    if roll {
        ShouldRun::Yes
    } else {
        ShouldRun::No
    }
}

/// Calls `rand::Rng::gen_ratio` on `rand::thread_rng()`. The claim: it
/// returns `true` with chance `numerator` in `denominator`; per its
/// documentation and source (`Bernoulli::from_ratio`), it is always `false`
/// when `numerator == 0` and always `true` when `numerator == denominator`,
/// and it panics when `denominator == 0` or `numerator > denominator`, which
/// `requires` leaves out. Nothing else is stated: the result is random.
#[verifier::external_body]
fn thread_rng_gen_ratio(numerator: u32, denominator: u32) -> (b: bool)
    requires
        0 < denominator,
        numerator <= denominator,
    ensures
        numerator == 0 ==> !b,
        numerator == denominator ==> b,
{
    rand::Rng::gen_ratio(&mut rand::thread_rng(), numerator, denominator)
}

/// `roll` is an outcome that a roll with chance
/// `ENEMY_FIRE_CHANCE_NUMERATOR` in `ENEMY_FIRE_CHANCE_DENOMINATOR` can give.
pub closed spec fn spec_fire_roll_possible(roll: bool) -> bool {
    call_ensures(thread_rng_gen_ratio, (ENEMY_FIRE_CHANCE_NUMERATOR, ENEMY_FIRE_CHANCE_DENOMINATOR), roll)
}

/// The enemies fire exactly on a successful roll: the decision is `Yes` when
/// the roll came out true and `No` when it came out false.
pub proof fn lemma_fire_follows_roll(roll: bool)
    ensures
        (spec_fire_decision(roll) == ShouldRun::Yes) <==> roll,
        (spec_fire_decision(roll) == ShouldRun::No) <==> !roll,
{
}

/// Run criterion of the enemies' fire: rolls a chance of
/// `ENEMY_FIRE_CHANCE_NUMERATOR` in `ENEMY_FIRE_CHANCE_DENOMINATOR` and fires
/// on success (see `fire_decision`). The roll is random, so either outcome
/// can come back; what is stated is that the decision follows a roll that
/// this chance can give (`spec_fire_roll_possible`). The roll is made by
/// calling the wrapper as a function value, so that Verus records which
/// arguments it was called with.
pub fn enemy_fire_criteria() -> (decision: ShouldRun)
    ensures
        decision == spec_fire_decision(true) || decision == spec_fire_decision(false),
        exists|roll: bool| #[trigger] spec_fire_roll_possible(roll) && decision == spec_fire_decision(roll),
{
    let roll_with = thread_rng_gen_ratio;
    let roll = roll_with(ENEMY_FIRE_CHANCE_NUMERATOR, ENEMY_FIRE_CHANCE_DENOMINATOR);
    assert(spec_fire_roll_possible(roll));
    fire_decision(roll)
}

} // verus!
