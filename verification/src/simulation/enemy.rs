//! Enemy kinds, what destroying each is worth, and which kinds spawn.

use rand::Rng;
use vstd::prelude::*;

verus! {

/// The kinds of enemies.
#[derive(Clone, Copy, PartialEq)]
pub enum EnemyType {
    Rect,
    Rombus,
    Wanderer,
    SpawningRect,
    MiniRect,
    Invalid,
}

/// Points for destroying an enemy of kind `ty`.
pub open spec fn score_of(ty: EnemyType) -> u32 {
    match ty {
        EnemyType::Invalid => 0,
        EnemyType::Rombus => 100,
        EnemyType::Rect => 300,
        EnemyType::Wanderer => 200,
        EnemyType::SpawningRect => 200,
        EnemyType::MiniRect => 50,
    }
}

impl EnemyType {
    /// Points for destroying an enemy of this kind.
    pub fn get_score(&self) -> (r: u32)
        ensures
            r == score_of(*self),
    {
        match self {
            EnemyType::Invalid => 0,
            EnemyType::Rombus => 100,
            EnemyType::Rect => 300,
            EnemyType::Wanderer => 200,
            EnemyType::SpawningRect => 200,
            EnemyType::MiniRect => 50,
        }
    }
}

/// Enemies are only spawned while fewer than this many are alive.
pub const MAX_ENEMIES: usize = 50;

/// Spawn choices are drawn below this bound; it is the position of
/// `EnemyType::Invalid` in the list of kinds.
pub const SPAWN_CHOICES: usize = 5;

/// The kind of enemy that spawn choice `choice` produces. Choices 3 and 4
/// both give spawning rects (they differ in the hull drawn for them); mini
/// rects are never spawned directly.
pub open spec fn spawn_kind(choice: usize) -> EnemyType {
    if choice == 0 {
        EnemyType::Rombus
    } else if choice == 1 {
        EnemyType::Rect
    } else if choice == 2 {
        EnemyType::Wanderer
    } else {
        EnemyType::SpawningRect
    }
}

/// The kind of enemy that spawn choice `choice` produces.
pub fn spawn_type(choice: usize) -> (r: EnemyType)
    requires
        choice < SPAWN_CHOICES,
    ensures
        r == spawn_kind(choice),
{
    match choice {
        0 => EnemyType::Rombus,
        1 => EnemyType::Rect,
        2 => EnemyType::Wanderer,
        3 => EnemyType::SpawningRect,
        _ => EnemyType::SpawningRect,
    }
}

/// Calls `rand::Rng::gen_range(low..high)` on the thread-local generator
/// `rand::thread_rng()`. rand documents the result to lie in `low..high`
/// and panics on an empty range; which value comes is left to chance.
#[verifier::external_body]
fn random_below(low: usize, high: usize) -> (r: usize)
    requires
        low < high,
    ensures
        low <= r < high,
{
    rand::thread_rng().gen_range(low..high)
}

/// Calls `rand::Rng::gen_ratio(numerator, denominator)` on the thread-local
/// generator `rand::thread_rng()`. rand documents that it panics when
/// `denominator == 0` or `numerator > denominator`, is always false for a
/// zero numerator and always true when numerator and denominator are equal;
/// otherwise the answer is left to chance.
#[verifier::external_body]
fn random_ratio(numerator: u32, denominator: u32) -> (r: bool)
    requires
        0 < denominator,
        numerator <= denominator,
    ensures
        numerator == 0 ==> !r,
        numerator == denominator ==> r,
{
    rand::thread_rng().gen_ratio(numerator, denominator)
}

/// The spawn choices for this tick, from what chance decided: the drawn
/// `picks` when fewer than `MAX_ENEMIES` enemies are alive and
/// `should_spawn` came up, else none.
pub fn spawn_choices(enemy_count: usize, should_spawn: bool, picks: Vec<usize>) -> (r: Vec<usize>)
    ensures
        r@ == (if enemy_count < MAX_ENEMIES && should_spawn {
            picks@
        } else {
            Seq::<usize>::empty()
        }),
{
    if enemy_count < MAX_ENEMIES && should_spawn {
        picks
    } else {
        Vec::new()
    }
}

/// `b` is an answer that a draw with chance 1 in 100 can give.
pub closed spec fn drawn_one_in_hundred(b: bool) -> bool {
    call_ensures(random_ratio, (1u32, 100u32), b)
}

/// `n` is a number that a draw from `low..high` can give.
pub closed spec fn drawn_below(low: usize, high: usize, n: usize) -> bool {
    call_ensures(random_below, (low, high), n)
}

/// The spawn choices for this tick. While fewer than `MAX_ENEMIES` enemies
/// are alive, with a chance of 1 in 100 a group of 2 to 9 enemies spawns,
/// each with a random choice below `SPAWN_CHOICES`; otherwise none.
pub fn plan_spawn(enemy_count: usize) -> (r: Vec<usize>)
    ensures
        enemy_count >= MAX_ENEMIES ==> r@.len() == 0,
        r@.len() == 0 || 2 <= r@.len() < 10,
        forall|i: int| 0 <= i < r@.len() ==> #[trigger] r@[i] < SPAWN_CHOICES,
        enemy_count < MAX_ENEMIES ==> exists|b: bool|
            drawn_one_in_hundred(b) && (b <==> r@.len() > 0),
        r@.len() > 0 ==> drawn_below(2, 10, r@.len() as usize),
        forall|i: int| 0 <= i < r@.len() ==> drawn_below(0, SPAWN_CHOICES, #[trigger] r@[i]),
{
    let mut choices: Vec<usize> = Vec::new();
    let mut should_spawn = false;
    if enemy_count < MAX_ENEMIES {
        should_spawn = random_ratio(1, 100);
        assert(drawn_one_in_hundred(should_spawn));
        if should_spawn {
            let num_to_spawn = random_below(2, 10);
            assert(drawn_below(2, 10, num_to_spawn));
            let mut k: usize = 0;
            while k < num_to_spawn
                invariant
                    k <= num_to_spawn,
                    2 <= num_to_spawn < 10,
                    choices@.len() == k,
                    forall|i: int| 0 <= i < choices@.len() ==> #[trigger] choices@[i] < SPAWN_CHOICES,
                    forall|i: int| 0 <= i < choices@.len() ==> drawn_below(0, SPAWN_CHOICES, #[trigger] choices@[i]),
                decreases num_to_spawn - k,
            {
                let choice = random_below(0, SPAWN_CHOICES);
                assert(drawn_below(0, SPAWN_CHOICES, choice));
                choices.push(choice);
                k += 1;
            }
        }
    }
    spawn_choices(enemy_count, should_spawn, choices)
}

} // verus!
