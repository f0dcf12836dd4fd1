//! Enemies: when they come, and how they walk their paths.

use vstd::prelude::*;
use crate::components::{GuidedView, Velocity};
use crate::math::{displacement, norm_squared, rescaled, Point2};
use crate::resources::enemy_set::{enemy_slot, EnemyPrefabSet, EnemySpawning, EnemyType};
use crate::invariants::{lemma_guided_step_well_formed, lemma_spawned_well_formed};
use crate::world::{well_formed, SlotView, World};

verus! {

/// An enemy comes when more than this many microseconds have passed since
/// the last one.
pub const SPAWN_INTERVAL: u64 = 2000000;

/// Lets an enemy come from time to time. `last_enemy_spawn` is the time of
/// the last attempt, in microseconds.
#[derive(Clone, Copy, Debug, PartialEq, Eq, Structural)]
pub struct EnemySpawnSystem {
    pub last_enemy_spawn: Option<u64>,
}

/// Moves the enemies along their paths.
#[derive(Clone, Copy, Debug, PartialEq, Eq, Structural)]
pub struct EnemyMovementSystem;

/// It is time for an enemy: none has come yet, or the last came more than
/// `SPAWN_INTERVAL` before `now`.
pub open spec fn spawn_due(last: Option<u64>, now: u64) -> bool {
    match last {
        Some(t) => now - t > SPAWN_INTERVAL,
        None => true,
    }
}

/// The world after the spawner's tick: one enemy more, if enemies are to
/// come, it is time for one, and the enemy template is loaded.
pub open spec fn spawned(
    slots: Seq<SlotView>,
    set: EnemyPrefabSet,
    spawning: Option<EnemySpawning>,
    last: Option<u64>,
    now: u64,
) -> Seq<SlotView> {
    if spawning is Some && spawn_due(last, now) {
        match set.handle(EnemyType::Standard) {
            Some(prefab) => slots.push(enemy_slot(prefab)),
            None => slots,
        }
    } else {
        slots
    }
}

/// A living, placed entity with a path and a velocity.
pub open spec fn is_walker(s: SlotView) -> bool {
    s.alive && s.velocity is Some && s.guided is Some && s.transform is Some
}

/// The entity at `p` is nearer than a tenth of its speed to the waypoint it
/// heads for.
pub open spec fn arrived(g: GuidedView, p: Point2) -> bool {
    &&& g.curr_waypoint < g.waypoints.len()
    &&& g.speed > 0
    &&& 100 * norm_squared(displacement(p, g.waypoints[g.curr_waypoint as int])) < g.speed
        * g.speed
}

/// The index of the waypoint to head for from `p`: the next, where the
/// current one is reached.
pub open spec fn heading(g: GuidedView, p: Point2) -> nat {
    if arrived(g, p) {
        g.curr_waypoint + 1
    } else {
        g.curr_waypoint
    }
}

/// One tick of an entity on a path. Where it has reached the waypoint it
/// heads for, it heads for the next. With no waypoint left it is doomed and
/// keeps its velocity. Else it moves at its speed towards the waypoint,
/// unless it stands on it: then it keeps its velocity. Other slots stay as
/// they are.
pub open spec fn guided_step(s: SlotView) -> SlotView {
    if !is_walker(s) {
        s
    } else {
        let g = s.guided->0;
        let p = s.transform->0.point();
        let k = heading(g, p);
        let onward = GuidedView { curr_waypoint: k, ..g };
        if k >= g.waypoints.len() {
            SlotView { guided: Some(onward), doomed: true, ..s }
        } else if p == g.waypoints[k as int] {
            SlotView { guided: Some(onward), ..s }
        } else {
            SlotView {
                guided: Some(onward),
                velocity: Some(
                    Velocity { v: rescaled(displacement(p, g.waypoints[k as int]), g.speed as int) },
                ),
                ..s
            }
        }
    }
}

/// An entity on a path never goes back on it, goes on by one waypoint at
/// most in a tick, and is doomed in the very tick after which no waypoint
/// is left: not before, and not later.
pub proof fn lemma_guided_progress(s: SlotView)
    requires
        s.guided is Some,
        s.guided->0.well_formed(),
    ensures
        guided_step(s).guided is Some,
        guided_step(s).guided->0.well_formed(),
        guided_step(s).guided->0.waypoints == s.guided->0.waypoints,
        s.guided->0.curr_waypoint <= guided_step(s).guided->0.curr_waypoint <= s.guided->0.curr_waypoint
            + 1,
        guided_step(s).doomed <==> s.doomed || (is_walker(s) && guided_step(s).guided->0.finished()),
        guided_step(s).alive == s.alive,
{
}

impl EnemySpawnSystem {
    pub fn new() -> (s: EnemySpawnSystem)
        ensures
            s.last_enemy_spawn is None,
    {
        EnemySpawnSystem { last_enemy_spawn: None }
    }

    /// One tick at the time `now`. See `spawned`. The time is noted
    /// whenever an enemy was due, whether or not one could be made.
    pub fn run(
        &mut self,
        world: &mut World,
        enemy_prefab_set: &EnemyPrefabSet,
        enemy_spawning: &Option<EnemySpawning>,
        now: u64,
    )
        ensures
            final(world)@ == spawned(
                old(world)@,
                *enemy_prefab_set,
                *enemy_spawning,
                old(self).last_enemy_spawn,
                now,
            ),
            final(self).last_enemy_spawn == if enemy_spawning is Some && spawn_due(
                old(self).last_enemy_spawn,
                now,
            ) {
                Some(now)
            } else {
                old(self).last_enemy_spawn
            },
            well_formed(old(world)@) && (enemy_prefab_set.handle(
                EnemyType::Standard,
            ) matches Some(prefab) ==> prefab.guided.well_formed()) ==> well_formed(
                final(world)@,
            ),
    {
        proof {
            if well_formed(old(world)@) && (enemy_prefab_set.handle(
                EnemyType::Standard,
            ) matches Some(prefab) ==> prefab.guided.well_formed()) {
                lemma_spawned_well_formed(
                    old(world)@,
                    *enemy_prefab_set,
                    *enemy_spawning,
                    old(self).last_enemy_spawn,
                    now,
                );
            }
        }
        if enemy_spawning.is_some() {
            let spawn_time = match self.last_enemy_spawn {
                Some(t) => now > t && now - t > SPAWN_INTERVAL,
                None => true,
            };
            if spawn_time {
                let _ = enemy_prefab_set.add_enemy(EnemyType::Standard, world);
                self.last_enemy_spawn = Some(now);
            }
        }
    }
}

impl EnemyMovementSystem {
    /// One tick: every slot takes its step. See `guided_step`.
    pub fn run(&mut self, world: &mut World)
        ensures
            final(world)@.len() == old(world)@.len(),
            forall|i: int|
                0 <= i < old(world)@.len() ==> #[trigger] final(world)@[i] == guided_step(
                    old(world)@[i],
                ),
            well_formed(old(world)@) ==> well_formed(final(world)@),
    {
        let n: usize = world.slots.len();
        let ghost start = world@;
        let mut i: usize = 0;
        while i < n
            invariant
                i <= n,
                n == world@.len(),
                n == start.len(),
                forall|j: int| 0 <= j < i ==> #[trigger] world@[j] == guided_step(start[j]),
                forall|j: int| i <= j < n ==> #[trigger] world@[j] == start[j],
            decreases n - i,
        {
            let ghost before = world@;
            assert(before[i as int] == start[i as int]);
            step(world, i);
            assert(forall|j: int| 0 <= j < n && j != i ==> #[trigger] world@[j] == before[j]);
            i = i + 1;
        }
        assert(well_formed(start) ==> well_formed(world@)) by {
            if well_formed(start) {
                assert forall|j: int| 0 <= j < n implies (#[trigger] world@[j]).well_formed() by {
                    lemma_guided_step_well_formed(start[j]);
                }
            }
        }
    }
}

/// The step of slot `i`.
fn step(world: &mut World, i: usize)
    requires
        i < old(world)@.len(),
    ensures
        final(world)@ == old(world)@.update(i as int, guided_step(old(world)@[i as int])),
        final(world).slots.len() == old(world).slots.len(),
{
    let slot = &mut world.slots[i];
    if slot.alive && slot.velocity.is_some() {
        if let Some(transform) = slot.transform {
            let mut doomed = false;
            let mut velocity: Option<Velocity> = None;
            if let Some(guided) = &mut slot.guided {
                let position = transform.translation();
                let len = guided.waypoints.len();
                if guided.curr_waypoint < len && guided.speed > 0 {
                    let gap: u128 = guided.waypoints[guided.curr_waypoint].minus(
                        position,
                    ).norm_squared();
                    let speed: u128 = guided.speed as u128;
                    assert(speed * speed <= 0x8000_0000 * 0x8000_0000) by (nonlinear_arith)
                        requires
                            0 <= speed <= 0x8000_0000,
                    ;
                    if gap <= 0x2_0000_0000_0000_0000 && 100 * gap < speed * speed {
                        guided.curr_waypoint = guided.curr_waypoint + 1;
                    }
                }
                if guided.curr_waypoint >= len {
                    doomed = true;
                } else {
                    let target = guided.waypoints[guided.curr_waypoint];
                    if !(position.x == target.x && position.y == target.y) {
                        velocity = Some(
                            Velocity { v: target.minus(position).with_length(guided.speed) },
                        );
                    }
                }
            }
            if doomed {
                slot.doomed = true;
            }
            if velocity.is_some() {
                slot.velocity = velocity;
            }
        }
    }
    assert(world@ =~= old(world)@.update(i as int, guided_step(old(world)@[i as int])));
}

impl Default for EnemySpawnSystem {
    fn default() -> (s: EnemySpawnSystem)
        ensures
            s.last_enemy_spawn is None,
    {
        EnemySpawnSystem { last_enemy_spawn: None }
    }
}

} // verus!
