//! Simulation core: the rules of the game that work on whole numbers.
//! Controller input arrives as bits in a `u16`; shooting and steering
//! directions are read off those bits; scores raise the fire rate at fixed
//! levels; missile hits are tallied into deletions, spawns and points.

pub mod enemy;
pub mod objectstore;
pub mod vertexgrid;

use vstd::prelude::*;

use self::enemy::{score_of, EnemyType};

verus! {

/// What an entity does when it leaves the world.
#[derive(Clone, PartialEq, Debug)]
pub enum BorderBehavior {
    Dismiss,
    Bounce,
    BounceSlowdown,
}

/// Whether the game still runs.
#[derive(PartialEq)]
pub enum State {
    Running,
    Lost,
}

/// Control bit: steer left.
pub const BIT_LEFT: u16 = 0b1;

pub const BIT_RIGHT: u16 = 0b10;

pub const BIT_UP: u16 = 0b100;

pub const BIT_DOWN: u16 = 0b1000;

pub const BIT_SHOOT_LEFT: u16 = 0b10000;

pub const BIT_SHOOT_RIGHT: u16 = 0b100000;

pub const BIT_SHOOT_UP: u16 = 0b1000000;

pub const BIT_SHOOT_DOWN: u16 = 0b10000000;

/// The four steering bits.
pub const MOVEMENT_MASK: u16 = BIT_LEFT | BIT_RIGHT | BIT_UP | BIT_DOWN;

/// Scores past which the fire rate rises to level 1, 2 and 3.
pub const SCORE_LEVEL_1: u32 = 5_000;

pub const SCORE_LEVEL_2: u32 = 10_000;

pub const SCORE_LEVEL_3: u32 = 15_000;

/// The game still runs.
pub open spec fn is_running(state: State) -> bool {
    state is Running
}

/// The control bits after the bits in `dir` are switched on (`enable`) or
/// off. Once the game is lost the bits no longer change.
pub open spec fn spec_control_bits(bits: u16, running: bool, dir: u16, enable: bool) -> u16 {
    if !running {
        bits
    } else if enable {
        bits | dir
    } else {
        bits & !dir
    }
}

/// Switches the bits in `dir` on or off while the game runs.
pub fn modify_control_bit(bits: u16, state: &State, dir: u16, enable: bool) -> (r: u16)
    ensures
        r == spec_control_bits(bits, is_running(*state), dir, enable),
{
    match state {
        State::Running => {},
        State::Lost => {
            return bits;
        },
    }
    if enable {
        bits | dir
    } else {
        bits & !dir
    }
}

/// Switching bits on or off leaves every other bit as it was, and the
/// switched bits end up all on or all off.
pub proof fn lemma_control_bits_local(bits: u16, dir: u16, enable: bool)
    ensures
        spec_control_bits(bits, true, dir, enable) & !dir == bits & !dir,
        enable ==> spec_control_bits(bits, true, dir, enable) & dir == dir,
        !enable ==> spec_control_bits(bits, true, dir, enable) & dir == 0,
        spec_control_bits(bits, false, dir, enable) == bits,
{
    if enable {
        assert((bits | dir) & !dir == bits & !dir) by (bit_vector);
        assert((bits | dir) & dir == dir) by (bit_vector);
    } else {
        assert((bits & !dir) & !dir == bits & !dir) by (bit_vector);
        assert((bits & !dir) & dir == 0) by (bit_vector);
    }
}

/// Switching bits on and then off again is the same as switching them
/// off, and off then on the same as on.
pub proof fn lemma_control_bits_last_wins(bits: u16, dir: u16)
    ensures
        spec_control_bits(spec_control_bits(bits, true, dir, true), true, dir, false)
            == spec_control_bits(bits, true, dir, false),
        spec_control_bits(spec_control_bits(bits, true, dir, false), true, dir, true)
            == spec_control_bits(bits, true, dir, true),
{
    assert((bits | dir) & !dir == bits & !dir) by (bit_vector);
    assert((bits & !dir) | dir == bits | dir) by (bit_vector);
}

/// -1, 0 or 1 along an axis, from the bits for its two directions.
pub open spec fn axis(bits: u16, negative: u16, positive: u16) -> int {
    (if bits & positive != 0 { 1int } else { 0int }) - (if bits & negative != 0 { 1int } else { 0int })
}

fn axis_value(bits: u16, negative: u16, positive: u16) -> (r: i8)
    ensures
        r == axis(bits, negative, positive),
{
    let mut v: i8 = 0;
    if bits & negative != 0 {
        v = v - 1;
    }
    if bits & positive != 0 {
        v = v + 1;
    }
    v
}

/// The direction to shoot in: the sum of the unit vectors whose shoot bits
/// are set (x grows to the right, y grows downwards).
pub fn shoot_direction(bits: u16) -> (r: (i8, i8))
    ensures
        r.0 == axis(bits, BIT_SHOOT_LEFT, BIT_SHOOT_RIGHT),
        r.1 == axis(bits, BIT_SHOOT_UP, BIT_SHOOT_DOWN),
{
    (axis_value(bits, BIT_SHOOT_LEFT, BIT_SHOOT_RIGHT), axis_value(bits, BIT_SHOOT_UP, BIT_SHOOT_DOWN))
}

/// The steering direction: `None` when no movement bit is set (the ship
/// stops its drive), else the sum of the unit vectors whose movement bits
/// are set.
pub fn movement_direction(bits: u16) -> (r: Option<(i8, i8)>)
    ensures
        (bits & MOVEMENT_MASK == 0) <==> r is None,
        r matches Some(d) ==> d.0 == axis(bits, BIT_LEFT, BIT_RIGHT) && d.1 == axis(
            bits,
            BIT_UP,
            BIT_DOWN,
        ),
{
    if bits & MOVEMENT_MASK == 0 {
        return None;
    }
    Some((axis_value(bits, BIT_LEFT, BIT_RIGHT), axis_value(bits, BIT_UP, BIT_DOWN)))
}

/// A score `level` is passed by going from `score` to `new_score`.
pub open spec fn passes(score: u32, new_score: int, level: u32) -> bool {
    score <= level && level < new_score
}

/// The highest fire-rate level passed by going from `score` to `new_score`.
pub open spec fn level_passed(score: u32, new_score: int) -> Option<u32> {
    if passes(score, new_score, SCORE_LEVEL_3) {
        Some(3u32)
    } else if passes(score, new_score, SCORE_LEVEL_2) {
        Some(2u32)
    } else if passes(score, new_score, SCORE_LEVEL_1) {
        Some(1u32)
    } else {
        None
    }
}

/// Adds `hit_points` to `score`. Returns the new score and the highest
/// fire-rate level (1 to 3) passed on the way, if any.
pub fn update_score(score: u32, hit_points: u32) -> (r: (u32, Option<u32>))
    requires
        score + hit_points <= u32::MAX,
    ensures
        r.0 == score + hit_points,
        r.1 == level_passed(score, score + hit_points),
        r.1 is Some ==> 1 <= r.1->0 <= 3,
        r.1 == Some(3u32) <==> (score <= 15_000 && 15_000 < score + hit_points),
        r.1 == Some(2u32) <==> (score <= 10_000 && 10_000 < score + hit_points && !(score
            <= 15_000 && 15_000 < score + hit_points)),
        r.1 == Some(1u32) <==> (score <= 5_000 && 5_000 < score + hit_points && !(score
            <= 10_000 && 10_000 < score + hit_points) && !(score <= 15_000 && 15_000 < score
            + hit_points)),
{
    proof {
        lemma_level_passed(score, hit_points);
    }
    let new_score = score + hit_points;
    let levels: [(u32, u32); 3] = [(SCORE_LEVEL_1, 1), (SCORE_LEVEL_2, 2), (SCORE_LEVEL_3, 3)];
    let mut reached: Option<u32> = None;
    let mut k: usize = 0;
    while k < 3
        invariant
            k <= 3,
            levels@ == seq![(SCORE_LEVEL_1, 1u32), (SCORE_LEVEL_2, 2u32), (SCORE_LEVEL_3, 3u32)],
            new_score == score + hit_points,
            reached == (if k >= 3 && passes(score, new_score as int, SCORE_LEVEL_3) {
                Some(3u32)
            } else if k >= 2 && passes(score, new_score as int, SCORE_LEVEL_2) {
                Some(2u32)
            } else if k >= 1 && passes(score, new_score as int, SCORE_LEVEL_1) {
                Some(1u32)
            } else {
                None
            }),
        decreases 3 - k,
    {
        let (level_score, level) = levels[k];
        if score <= level_score && level_score < new_score {
            reached = Some(level);
        }
        k += 1;
    }
    (new_score, reached)
}

/// The level reported for a score update is the highest of the levels
/// 5,000 (1), 10,000 (2) and 15,000 (3) that the old score had not yet gone
/// past (it was at or below it) and the new score is above; none when no
/// level lies in that range.
pub proof fn lemma_level_passed(score: u32, hit_points: u32)
    ensures
        ({
            let new_score = score + hit_points;
            let r = level_passed(score, new_score);
            &&& (score <= 15_000 && 15_000 < new_score) ==> r == Some(3u32)
            &&& (!(score <= 15_000 && 15_000 < new_score) && score <= 10_000 && 10_000 < new_score)
                ==> r == Some(2u32)
            &&& (!(score <= 15_000 && 15_000 < new_score) && !(score <= 10_000 && 10_000
                < new_score) && score <= 5_000 && 5_000 < new_score) ==> r == Some(1u32)
            &&& (!(score <= 15_000 && 15_000 < new_score) && !(score <= 10_000 && 10_000
                < new_score) && !(score <= 5_000 && 5_000 < new_score)) ==> r == None::<u32>
        }),
{
}

/// A fire-rate level is passed at most once while the score grows: a
/// later update, starting at or above the score an earlier one reached,
/// never passes a level the earlier one passed.
pub proof fn lemma_level_passed_once(s1: u32, h1: u32, s2: u32, h2: u32, level: u32)
    requires
        s1 + h1 <= s2,
        passes(s1, s1 + h1, level),
    ensures
        !passes(s2, s2 + h2, level),
{
}

/// Explosions are drawn for this many frames.
pub const NUM_EXPLOSION_FRAMES: u32 = 50;

/// One tick of an explosion's animation: it advances two frames and stays
/// only while it has frames left.
pub fn explosion_frame_tick(frame_count: u32) -> (r: Option<u32>)
    requires
        frame_count + 2 <= u32::MAX,
    ensures
        r == (if frame_count + 2 < NUM_EXPLOSION_FRAMES {
            Some((frame_count + 2) as u32)
        } else {
            None
        }),
{
    let next = frame_count + 2;
    if next < NUM_EXPLOSION_FRAMES {
        Some(next)
    } else {
        None
    }
}

/// Appends `id` unless it is already there.
pub fn push_unique(ids: &mut Vec<usize>, id: usize)
    ensures
        old(ids)@.contains(id) ==> final(ids)@ == old(ids)@,
        !old(ids)@.contains(id) ==> final(ids)@ == old(ids)@.push(id),
        old(ids)@.no_duplicates() ==> final(ids)@.no_duplicates(),
{
    let mut i: usize = 0;
    while i < ids.len()
        invariant
            i <= ids.len(),
            ids@ == old(ids)@,
            forall|j: int| 0 <= j < i ==> ids@[j] != id,
        decreases ids.len() - i,
    {
        if ids[i] == id {
            assert(ids@[i as int] == id);
            return;
        }
        i += 1;
    }
    ids.push(id);
}

/// The ids of `s` without repetitions, each at its first occurrence.
pub open spec fn dedup(s: Seq<usize>) -> Seq<usize>
    decreases s.len(),
{
    if s.len() == 0 {
        Seq::empty()
    } else {
        let rest = dedup(s.drop_last());
        if rest.contains(s.last()) {
            rest
        } else {
            rest.push(s.last())
        }
    }
}

/// Dropping repetitions keeps every id of `s` and nothing else, each once.
pub proof fn lemma_dedup(s: Seq<usize>)
    ensures
        dedup(s).no_duplicates(),
        forall|x: usize| #[trigger] dedup(s).contains(x) <==> s.contains(x),
    decreases s.len(),
{
    if s.len() > 0 {
        let s0 = s.drop_last();
        lemma_dedup(s0);
        let d = dedup(s);
        let d0 = dedup(s0);
        assert forall|x: usize| #[trigger] d.contains(x) <==> s.contains(x) by {
            if s.contains(x) && x != s.last() {
                let i = choose|i: int| 0 <= i < s.len() && s[i] == x;
                assert(s0[i] == x);
            }
            if s0.contains(x) {
                let i = choose|i: int| 0 <= i < s0.len() && s0[i] == x;
                assert(s[i] == x);
            }
            if d.contains(x) && !d0.contains(x) {
                assert(x == s.last());
                assert(s[s.len() - 1] == x);
            }
            if d0.contains(x) {
                let a = choose|a: int| 0 <= a < d0.len() && d0[a] == x;
                assert(d[a] == x);
            }
            if x == s.last() && !d0.contains(x) {
                assert(d[d.len() - 1] == x);
            }
        }
    }
}

/// Every hit names an enemy and a missile that exist.
pub open spec fn hits_in_range(enemies: Seq<(usize, EnemyType)>, missiles: Seq<usize>, hits: Seq<(usize, usize)>) -> bool {
    forall|k: int| 0 <= k < hits.len() ==> #[trigger] hits[k].0 < enemies.len() && hits[k].1 < missiles.len()
}

/// The entity id of the enemy of each hit, one per hit.
pub open spec fn hit_enemy_ids(enemies: Seq<(usize, EnemyType)>, hits: Seq<(usize, usize)>) -> Seq<usize> {
    hits.map_values(|h: (usize, usize)| enemies[h.0 as int].0)
}

/// The entity id of the missile of each hit, one per hit.
pub open spec fn hit_missile_ids(missiles: Seq<usize>, hits: Seq<(usize, usize)>) -> Seq<usize> {
    hits.map_values(|h: (usize, usize)| missiles[h.1 as int])
}

/// The missile ids of the hits on spawning rects, one per such hit.
pub open spec fn spawner_hits(enemies: Seq<(usize, EnemyType)>, missiles: Seq<usize>, hits: Seq<(usize, usize)>) -> Seq<usize>
    decreases hits.len(),
{
    if hits.len() == 0 {
        Seq::empty()
    } else {
        let rest = spawner_hits(enemies, missiles, hits.drop_last());
        if enemies[hits.last().0 as int].1 is SpawningRect {
            rest.push(missiles[hits.last().1 as int])
        } else {
            rest
        }
    }
}

/// Whether the enemy of each hit is a spawning rect.
pub open spec fn on_spawner(enemies: Seq<(usize, EnemyType)>, hits: Seq<(usize, usize)>) -> Seq<bool> {
    Seq::new(hits.len(), |k: int| enemies[hits[k].0 as int].1 == EnemyType::SpawningRect)
}

/// One more hit adds its missile to the spawns exactly when its enemy is a
/// spawning rect; a hit on any other kind leaves the spawns as they were.
pub proof fn lemma_spawner_hits_push(
    enemies: Seq<(usize, EnemyType)>,
    missiles: Seq<usize>,
    hits: Seq<(usize, usize)>,
    h: (usize, usize),
)
    ensures
        enemies[h.0 as int].1 == EnemyType::SpawningRect ==> spawner_hits(enemies, missiles, hits.push(h))
            == spawner_hits(enemies, missiles, hits).push(missiles[h.1 as int]),
        enemies[h.0 as int].1 != EnemyType::SpawningRect ==> spawner_hits(enemies, missiles, hits.push(h))
            == spawner_hits(enemies, missiles, hits),
{
    assert(hits.push(h).drop_last() =~= hits);
}

/// The spawns are the missiles of the hits, in order, kept exactly for the
/// hits on spawning rects.
pub proof fn lemma_spawner_hits_select(
    enemies: Seq<(usize, EnemyType)>,
    missiles: Seq<usize>,
    hits: Seq<(usize, usize)>,
)
    ensures
        spawner_hits(enemies, missiles, hits) == crate::simulation::objectstore::select(
            hit_missile_ids(missiles, hits),
            on_spawner(enemies, hits),
        ),
    decreases hits.len(),
{
    if hits.len() > 0 {
        let h0 = hits.drop_last();
        lemma_spawner_hits_select(enemies, missiles, h0);
        assert(hit_missile_ids(missiles, hits).drop_last() =~= hit_missile_ids(missiles, h0));
        assert(on_spawner(enemies, hits).drop_last() =~= on_spawner(enemies, h0));
    } else {
        assert(hit_missile_ids(missiles, hits).len() == 0);
    }
}

/// The points of all hits: each hit scores its enemy's points.
pub open spec fn hit_score(enemies: Seq<(usize, EnemyType)>, hits: Seq<(usize, usize)>) -> int
    decreases hits.len(),
{
    if hits.len() == 0 {
        0
    } else {
        hit_score(enemies, hits.drop_last()) + score_of(enemies[hits.last().0 as int].1)
    }
}

/// The points of a prefix of the hits are at most those of all hits.
pub proof fn lemma_hit_score_prefix(enemies: Seq<(usize, EnemyType)>, hits: Seq<(usize, usize)>, i: int)
    requires
        0 <= i <= hits.len(),
    ensures
        0 <= hit_score(enemies, hits.take(i)) <= hit_score(enemies, hits),
    decreases hits.len(),
{
    if hits.len() > 0 {
        if i == hits.len() {
            assert(hits.take(i) =~= hits);
            lemma_hit_score_prefix(enemies, hits.drop_last(), i - 1);
            assert(hits.drop_last().take(i - 1) =~= hits.drop_last());
        } else {
            lemma_hit_score_prefix(enemies, hits.drop_last(), i);
            assert(hits.drop_last().take(i) =~= hits.take(i));
        }
    }
}

/// What a round of missile hits on enemies leads to.
pub struct HitOutcome {
    /// The enemy of every hit, once per hit.
    pub enemies_to_delete: Vec<usize>,
    /// The missiles that hit something, each once, in order of first hit.
    pub missiles_to_delete: Vec<usize>,
    /// The missile of every hit on a spawning rect, once per such hit; mini
    /// rects spawn where these missiles are.
    pub minirect_spawns: Vec<usize>,
    /// The points scored by all hits.
    pub hit_points: u32,
}

/// Tallies the `hits`, given as (enemy index, missile index) pairs in the
/// order in which they were detected. `enemies` holds each enemy's entity id
/// and kind, `missiles` each missile's entity id.
pub fn tally_hits(enemies: &Vec<(usize, EnemyType)>, missiles: &Vec<usize>, hits: &Vec<(usize, usize)>) -> (r: HitOutcome)
    requires
        hits_in_range(enemies@, missiles@, hits@),
        hit_score(enemies@, hits@) <= u32::MAX,
    ensures
        r.enemies_to_delete@ == hit_enemy_ids(enemies@, hits@),
        r.missiles_to_delete@ == dedup(hit_missile_ids(missiles@, hits@)),
        r.missiles_to_delete@.no_duplicates(),
        r.minirect_spawns@ == spawner_hits(enemies@, missiles@, hits@),
        r.minirect_spawns@ == crate::simulation::objectstore::select(
            hit_missile_ids(missiles@, hits@),
            on_spawner(enemies@, hits@),
        ),
        r.hit_points == hit_score(enemies@, hits@),
{
    let mut enemies_to_delete: Vec<usize> = Vec::new();
    let mut missiles_to_delete: Vec<usize> = Vec::new();
    let mut minirect_spawns: Vec<usize> = Vec::new();
    let mut hit_points: u32 = 0;
    let mut k: usize = 0;
    while k < hits.len()
        invariant
            k <= hits@.len(),
            hits_in_range(enemies@, missiles@, hits@),
            hit_score(enemies@, hits@) <= u32::MAX,
            enemies_to_delete@ == hit_enemy_ids(enemies@, hits@.take(k as int)),
            missiles_to_delete@ == dedup(hit_missile_ids(missiles@, hits@.take(k as int))),
            missiles_to_delete@.no_duplicates(),
            minirect_spawns@ == spawner_hits(enemies@, missiles@, hits@.take(k as int)),
            hit_points == hit_score(enemies@, hits@.take(k as int)),
        decreases hits@.len() - k,
    {
        let (e, m) = hits[k];
        assert(e < enemies@.len() && m < missiles@.len()) by {
            assert(hits@[k as int] == (e, m));
        }
        let (enemy_id, ty) = enemies[e];
        let missile_id = missiles[m];
        let ghost before = hits@.take(k as int);
        let ghost after = hits@.take(k + 1);
        proof {
            assert(after.drop_last() =~= before);
            assert(after.last() == (e, m));
            lemma_hit_score_prefix(enemies@, hits@, k + 1);
            assert(hit_missile_ids(missiles@, after).drop_last() =~= hit_missile_ids(missiles@, before));
        }
        enemies_to_delete.push(enemy_id);
        push_unique(&mut missiles_to_delete, missile_id);
        hit_points = hit_points + ty.get_score();
        match ty {
            EnemyType::SpawningRect => {
                minirect_spawns.push(missile_id);
            },
            _ => {},
        }
        proof {
            assert(enemies_to_delete@ =~= hit_enemy_ids(enemies@, after));
        }
        k += 1;
    }
    proof {
        assert(hits@.take(hits@.len() as int) =~= hits@);
        lemma_spawner_hits_select(enemies@, missiles@, hits@);
    }
    HitOutcome { enemies_to_delete, missiles_to_delete, minirect_spawns, hit_points }
}

/// For each id of `ids`, whether it is missing from `listed`.
pub fn not_listed(ids: &Vec<usize>, listed: &Vec<usize>) -> (r: Vec<bool>)
    ensures
        r@.len() == ids@.len(),
        forall|i: int| 0 <= i < ids@.len() ==> #[trigger] r@[i] == !listed@.contains(ids@[i]),
{
    let mut out: Vec<bool> = Vec::new();
    let mut i: usize = 0;
    while i < ids.len()
        invariant
            i <= ids@.len(),
            out@.len() == i,
            forall|j: int| 0 <= j < i ==> #[trigger] out@[j] == !listed@.contains(ids@[j]),
        decreases ids@.len() - i,
    {
        let mut found = false;
        let mut j: usize = 0;
        while j < listed.len()
            invariant
                i < ids@.len(),
                j <= listed@.len(),
                found == exists|a: int| 0 <= a < j && listed@[a] == ids@[i as int],
            decreases listed@.len() - j,
        {
            if listed[j] == ids[i] {
                found = true;
            }
            j += 1;
        }
        out.push(!found);
        i += 1;
    }
    out
}

} // verus!
