//! What holds of every world that the systems make from a well-formed one:
//! nothing is held for an entity that is gone, no path index lies beyond
//! its path, and after a tick nothing doomed is left.

use vstd::prelude::*;
use crate::input::{mouse_projection, InputHandler};
use crate::prefabs::BulletPrefab;
use crate::resources::bullet_set::BulletPrefabSet;
use crate::resources::camera::{ActiveCamera, FollowedObject};
use crate::resources::enemy_set::{EnemyPrefabSet, EnemySpawning, EnemyType};
use crate::resources::placement::{TowerPlacement, TowerPrefabSet};
use crate::state::{all_guided, all_moved, all_shown, simulated, Game};
use crate::systems::bullet::{
    bullet_step, bullets_upto, is_bullet, lemma_bullet_fate, lemma_bullet_step_len,
    lemma_bullets_frame, lemma_first_struck_in_range, same_kind, target_of,
};
use crate::systems::camera::{camera_followed, lemma_viewing_in_range};
use crate::systems::controls::{
    activated, activated_upto, is_player, lemma_nearest_in_reach, nearest, player_controlled,
    steered_all, tower_data, ENTER_RADIUS, EXIT_RADIUS,
};
use crate::systems::enemies::{guided_step, is_walker, lemma_guided_progress, spawned};
use crate::systems::physics::moved;
use crate::systems::shooter::{fired, pointed, shooter_controlled, shots, shown};
use crate::systems::ui::{handled, placed, UiEvent};
use crate::world::{maintained, well_formed, SlotView};

verus! {

/// Entering and leaving towers keeps a world well formed, and makes and ends
/// nothing.
pub proof fn lemma_activated_well_formed(
    slots: Seq<SlotView>,
    followed: Option<FollowedObject>,
    upto: int,
)
    requires
        well_formed(slots),
        0 <= upto <= slots.len(),
    ensures
        activated_upto(slots, followed, upto).0.len() == slots.len(),
        well_formed(activated_upto(slots, followed, upto).0),
    decreases upto,
{
    if upto > 0 {
        lemma_activated_well_formed(slots, followed, upto - 1);
        let before = activated_upto(slots, followed, upto - 1);
        let i = upto - 1;
        let s = before.0[i];
        let data = tower_data(before.0);
        let after = activated(before.0, before.1, i).0;
        assert(after == activated_upto(slots, followed, upto).0);
        assert(s.well_formed());
        if is_player(s) {
            let from = s.transform->0.point();
            lemma_nearest_in_reach(data, from, true, EXIT_RADIUS as int);
            lemma_nearest_in_reach(data, from, false, ENTER_RADIUS as int);
            let found = if s.character->0.locked {
                nearest(data, from, true, EXIT_RADIUS as int)
            } else {
                nearest(data, from, false, ENTER_RADIUS as int)
            };
            if let Some(t) = found {
                assert(data[t] is Some);
                assert(before.0[t].alive);
                assert(before.0[t].well_formed());
            }
        }
        assert forall|t: int| 0 <= t < slots.len() implies (#[trigger] after[t]).well_formed() by {
            assert(before.0[t].well_formed());
        }
    }
}

/// The player's controls keep a world well formed.
pub proof fn lemma_player_controlled_well_formed(
    slots: Seq<SlotView>,
    followed: Option<FollowedObject>,
    input: InputHandler,
    was_pressed: bool,
)
    requires
        well_formed(slots),
    ensures
        well_formed(player_controlled(slots, followed, input, was_pressed).0),
        player_controlled(slots, followed, input, was_pressed).0.len() == slots.len(),
{
    let moved = steered_all(slots, input);
    assert forall|i: int| 0 <= i < moved.len() implies (#[trigger] moved[i]).well_formed() by {
        assert(slots[i].well_formed());
    }
    lemma_activated_well_formed(moved, followed, moved.len() as int);
}

/// The bullets that towers fire are well formed.
pub proof fn lemma_shots_well_formed(slots: Seq<SlotView>, prefab: BulletPrefab, upto: int)
    ensures
        well_formed(shots(slots, prefab, upto)),
    decreases upto,
{
    if upto > 0 {
        lemma_shots_well_formed(slots, prefab, upto - 1);
    }
}

/// The shooter's controls keep a world well formed.
pub proof fn lemma_shooter_controlled_well_formed(
    slots: Seq<SlotView>,
    input: InputHandler,
    was_pressed: bool,
    set: BulletPrefabSet,
    active_camera: ActiveCamera,
)
    requires
        well_formed(slots),
    ensures
        well_formed(shooter_controlled(slots, input, was_pressed, set, active_camera)),
{
    let mouse = mouse_projection(slots, input, active_camera);
    let aimed = pointed(slots, mouse);
    assert forall|i: int| 0 <= i < aimed.len() implies (#[trigger] aimed[i]).well_formed() by {
        assert(slots[i].well_formed());
    }
    if let Some(prefab) = set.standard {
        lemma_shots_well_formed(aimed, prefab, aimed.len() as int);
        let made = shots(aimed, prefab, aimed.len() as int);
        let all = aimed + made;
        assert forall|i: int| 0 <= i < all.len() implies (#[trigger] all[i]).well_formed() by {
            if i < aimed.len() {
                assert(all[i] == aimed[i]);
            } else {
                assert(all[i] == made[i - aimed.len()]);
            }
        }
        assert(fired(aimed, set) == all);
    }
}

/// The bullets' turns keep a world well formed.
pub proof fn lemma_bullets_well_formed(slots: Seq<SlotView>, upto: int)
    requires
        well_formed(slots),
        0 <= upto <= slots.len(),
    ensures
        bullets_upto(slots, upto).len() == slots.len(),
        well_formed(bullets_upto(slots, upto)),
    decreases upto,
{
    if upto > 0 {
        lemma_bullets_well_formed(slots, upto - 1);
        let before = bullets_upto(slots, upto - 1);
        let b = upto - 1;
        lemma_bullet_step_len(before, b);
        let after = bullet_step(before, b);
        let s = before[b];
        if is_bullet(s) {
            if let Some(h) = target_of(before, b) {
                lemma_first_struck_in_range(
                    before,
                    s.bullet->0.last_position->0,
                    s.transform->0.point(),
                );
                assert(before[h].well_formed());
            }
        }
        assert forall|i: int| 0 <= i < after.len() implies (#[trigger] after[i]).well_formed() by {
            assert(before[i].well_formed());
        }
    }
}

/// Showing the way a tower faces keeps a slot well formed.
pub proof fn lemma_shown_well_formed(s: SlotView)
    requires
        s.well_formed(),
    ensures
        shown(s).well_formed(),
{
}

/// A step on a path keeps a slot well formed.
pub proof fn lemma_guided_step_well_formed(s: SlotView)
    requires
        s.well_formed(),
    ensures
        guided_step(s).well_formed(),
{
    if s.guided is Some {
        lemma_guided_progress(s);
    }
}

/// Motion keeps a slot well formed.
pub proof fn lemma_moved_well_formed(s: SlotView, step: u32)
    requires
        s.well_formed(),
    ensures
        moved(s, step).well_formed(),
{
}

/// The placing of a tower keeps a world well formed.
pub proof fn lemma_placed_well_formed(
    slots: Seq<SlotView>,
    placement: Option<TowerPlacement>,
    input: InputHandler,
    was_pressed: bool,
    set: TowerPrefabSet,
    active_camera: ActiveCamera,
)
    requires
        well_formed(slots),
    ensures
        well_formed(placed(slots, placement, input, was_pressed, set, active_camera)),
{
    let built = placed(slots, placement, input, was_pressed, set, active_camera);
    assert forall|i: int| 0 <= i < built.len() implies (#[trigger] built[i]).well_formed() by {
        if i < slots.len() {
            assert(slots[i].well_formed());
        }
    }
}

/// The coming of an enemy keeps a world well formed, if the template's path
/// index lies within its path.
pub proof fn lemma_spawned_well_formed(
    slots: Seq<SlotView>,
    set: EnemyPrefabSet,
    spawning: Option<EnemySpawning>,
    last: Option<u64>,
    now: u64,
)
    requires
        well_formed(slots),
        set.handle(EnemyType::Standard) matches Some(prefab) ==> prefab.guided.well_formed(),
    ensures
        well_formed(spawned(slots, set, spawning, last, now)),
{
    let grown = spawned(slots, set, spawning, last, now);
    assert forall|i: int| 0 <= i < grown.len() implies (#[trigger] grown[i]).well_formed() by {
        if i < slots.len() {
            assert(slots[i].well_formed());
        }
    }
}

/// The camera's tick keeps a world well formed.
pub proof fn lemma_camera_followed_well_formed(
    slots: Seq<SlotView>,
    followed_object: Option<FollowedObject>,
    active_camera: ActiveCamera,
)
    requires
        well_formed(slots),
    ensures
        well_formed(camera_followed(slots, followed_object, active_camera)),
{
    lemma_viewing_in_range(slots, active_camera);
    let seen = camera_followed(slots, followed_object, active_camera);
    assert forall|i: int| 0 <= i < seen.len() implies (#[trigger] seen[i]).well_formed() by {
        assert(slots[i].well_formed());
    }
}

/// The ordered part of a tick keeps a world well formed.
pub proof fn lemma_simulated_well_formed(
    slots: Seq<SlotView>,
    followed_object: Option<FollowedObject>,
    input: InputHandler,
    activate_was_pressed: bool,
    fire_was_pressed: bool,
    bullet_prefab_set: BulletPrefabSet,
    active_camera: ActiveCamera,
    step: u32,
)
    requires
        well_formed(slots),
    ensures
        well_formed(
            simulated(
                slots,
                followed_object,
                input,
                activate_was_pressed,
                fire_was_pressed,
                bullet_prefab_set,
                active_camera,
                step,
            ),
        ),
{
    lemma_player_controlled_well_formed(slots, followed_object, input, activate_was_pressed);
    let controlled = player_controlled(slots, followed_object, input, activate_was_pressed).0;
    lemma_shooter_controlled_well_formed(
        controlled,
        input,
        fire_was_pressed,
        bullet_prefab_set,
        active_camera,
    );
    let shot = shooter_controlled(
        controlled,
        input,
        fire_was_pressed,
        bullet_prefab_set,
        active_camera,
    );
    let faced = all_shown(shot);
    assert forall|i: int| 0 <= i < faced.len() implies (#[trigger] faced[i]).well_formed() by {
        assert(shot[i].well_formed());
    }
    lemma_bullets_well_formed(faced, faced.len() as int);
    let struck = bullets_upto(faced, faced.len() as int);
    let guided = all_guided(struck);
    assert forall|i: int| 0 <= i < guided.len() implies (#[trigger] guided[i]).well_formed() by {
        assert(struck[i].well_formed());
        if struck[i].guided is Some {
            lemma_guided_progress(struck[i]);
        }
    }
    let moved = all_moved(guided, step);
    assert forall|i: int| 0 <= i < moved.len() implies (#[trigger] moved[i]).well_formed() by {
        assert(guided[i].well_formed());
    }
}

/// The end of a tick keeps a world well formed and leaves nothing doomed:
/// what was doomed is gone with all it held.
pub proof fn lemma_maintained_well_formed(slots: Seq<SlotView>)
    requires
        well_formed(slots),
    ensures
        well_formed(maintained(slots)),
        forall|i: int| 0 <= i < slots.len() ==> !(#[trigger] maintained(slots)[i]).doomed,
        forall|i: int|
            0 <= i < slots.len() && slots[i].doomed ==> #[trigger] maintained(slots)[i]
                == SlotView::vacant(),
{
    assert forall|i: int| 0 <= i < slots.len() implies (#[trigger] maintained(
        slots,
    )[i]).well_formed() && !maintained(slots)[i].doomed by {
        assert(slots[i].well_formed());
    }
}

/// A tick keeps the world well formed, whatever the player does and
/// whenever it happens, if the enemy template has its path index within its
/// path. After the tick nothing doomed is left.
pub proof fn lemma_tick_well_formed(
    game: Game,
    input: InputHandler,
    events: Seq<UiEvent>,
    button: Option<u32>,
    now: u64,
    step: u32,
)
    requires
        well_formed(game.world@),
        game.enemy_prefab_set.handle(EnemyType::Standard) matches Some(prefab)
            ==> prefab.guided.well_formed(),
    ensures
        well_formed(Game::ticked(game, input, events, button, now, step)),
        forall|i: int|
            0 <= i < Game::ticked(game, input, events, button, now, step).len() ==> !(
            #[trigger] Game::ticked(game, input, events, button, now, step)[i]).doomed,
{
    lemma_simulated_well_formed(
        game.world@,
        game.followed_object,
        input,
        game.player_control.activate_was_pressed,
        game.shooter_control.fire_was_pressed,
        game.bullet_prefab_set,
        game.active_camera,
        step,
    );
    let moved = simulated(
        game.world@,
        game.followed_object,
        input,
        game.player_control.activate_was_pressed,
        game.shooter_control.fire_was_pressed,
        game.bullet_prefab_set,
        game.active_camera,
        step,
    );
    let built = placed(
        moved,
        handled(game.tower_placement, events, button),
        input,
        game.placement.place_was_pressed,
        game.tower_prefab_set,
        game.active_camera,
    );
    assert forall|i: int| 0 <= i < built.len() implies (#[trigger] built[i]).well_formed() by {
        if i < moved.len() {
            assert(moved[i].well_formed());
        }
    }
    let grown = spawned(
        built,
        game.enemy_prefab_set,
        game.enemy_spawning,
        game.enemy_spawn.last_enemy_spawn,
        now,
    );
    assert forall|i: int| 0 <= i < grown.len() implies (#[trigger] grown[i]).well_formed() by {
        if i < built.len() {
            assert(built[i].well_formed());
        }
    }
    let followed = player_controlled(
        game.world@,
        game.followed_object,
        input,
        game.player_control.activate_was_pressed,
    ).1;
    lemma_viewing_in_range(grown, game.active_camera);
    let seen = camera_followed(grown, followed, game.active_camera);
    assert forall|i: int| 0 <= i < seen.len() implies (#[trigger] seen[i]).well_formed() by {
        assert(grown[i].well_formed());
    }
    lemma_maintained_well_formed(seen);
}

/// After a tick every bullet that flies has a remembered place: a bullet is
/// without one only from its making to the bullets' turn, which comes in
/// the same tick.
pub proof fn lemma_tick_bullets_remember(
    game: Game,
    input: InputHandler,
    events: Seq<UiEvent>,
    button: Option<u32>,
    now: u64,
    step: u32,
)
    ensures
        forall|i: int|
            0 <= i < Game::ticked(game, input, events, button, now, step).len() && is_bullet(
                #[trigger] Game::ticked(game, input, events, button, now, step)[i],
            ) ==> Game::ticked(
                game,
                input,
                events,
                button,
                now,
                step,
            )[i].bullet->0.last_position is Some,
{
    let controlled = player_controlled(
        game.world@,
        game.followed_object,
        input,
        game.player_control.activate_was_pressed,
    );
    let shot = shooter_controlled(
        controlled.0,
        input,
        game.shooter_control.fire_was_pressed,
        game.bullet_prefab_set,
        game.active_camera,
    );
    let faced = all_shown(shot);
    let struck = bullets_upto(faced, faced.len() as int);
    let guided = all_guided(struck);
    let moved = all_moved(guided, step);
    let built = placed(
        moved,
        handled(game.tower_placement, events, button),
        input,
        game.placement.place_was_pressed,
        game.tower_prefab_set,
        game.active_camera,
    );
    let grown = spawned(
        built,
        game.enemy_prefab_set,
        game.enemy_spawning,
        game.enemy_spawn.last_enemy_spawn,
        now,
    );
    lemma_viewing_in_range(grown, game.active_camera);
    let seen = camera_followed(grown, controlled.1, game.active_camera);
    let after = maintained(seen);
    assert(after == Game::ticked(game, input, events, button, now, step));
    lemma_bullets_frame(faced, faced.len() as int);
    assert forall|i: int| 0 <= i < after.len() && is_bullet(
        #[trigger] after[i],
    ) implies after[i].bullet->0.last_position is Some by {
        assert(after[i] == seen[i] && !seen[i].doomed);
        assert(seen[i].bullet == grown[i].bullet && seen[i].doomed == grown[i].doomed);
        assert(i < built.len());
        assert(grown[i] == built[i]);
        assert(i < moved.len());
        assert(built[i] == moved[i]);
        assert(moved[i].bullet == struck[i].bullet);
        assert(!struck[i].doomed);
        assert(is_bullet(struck[i]));
        assert(same_kind(struck[i], faced[i]));
        lemma_bullet_fate(faced, i);
    }
}

/// After a tick every entity that walks a path heads for one of its
/// waypoints: an entity whose path is done does not outlast the tick. The
/// enemy template must have a waypoint to head for.
pub proof fn lemma_tick_paths_open(
    game: Game,
    input: InputHandler,
    events: Seq<UiEvent>,
    button: Option<u32>,
    now: u64,
    step: u32,
)
    requires
        game.enemy_prefab_set.handle(EnemyType::Standard) matches Some(prefab)
            ==> !prefab.guided.finished(),
    ensures
        forall|i: int|
            0 <= i < Game::ticked(game, input, events, button, now, step).len() && is_walker(
                #[trigger] Game::ticked(game, input, events, button, now, step)[i],
            ) ==> !Game::ticked(game, input, events, button, now, step)[i].guided->0.finished(),
{
    let controlled = player_controlled(
        game.world@,
        game.followed_object,
        input,
        game.player_control.activate_was_pressed,
    );
    let shot = shooter_controlled(
        controlled.0,
        input,
        game.shooter_control.fire_was_pressed,
        game.bullet_prefab_set,
        game.active_camera,
    );
    let faced = all_shown(shot);
    let struck = bullets_upto(faced, faced.len() as int);
    let guided = all_guided(struck);
    let moved = all_moved(guided, step);
    let built = placed(
        moved,
        handled(game.tower_placement, events, button),
        input,
        game.placement.place_was_pressed,
        game.tower_prefab_set,
        game.active_camera,
    );
    let grown = spawned(
        built,
        game.enemy_prefab_set,
        game.enemy_spawning,
        game.enemy_spawn.last_enemy_spawn,
        now,
    );
    lemma_viewing_in_range(grown, game.active_camera);
    let seen = camera_followed(grown, controlled.1, game.active_camera);
    let after = maintained(seen);
    assert(after == Game::ticked(game, input, events, button, now, step));
    assert forall|i: int| 0 <= i < after.len() && is_walker(
        #[trigger] after[i],
    ) implies !after[i].guided->0.finished() by {
        assert(after[i] == seen[i] && !seen[i].doomed);
        assert(seen[i].guided == grown[i].guided && seen[i].doomed == grown[i].doomed);
        assert(is_walker(grown[i]));
        if i < built.len() {
            assert(grown[i] == built[i]);
            assert(i < moved.len());
            assert(built[i] == moved[i]);
            assert(moved[i].guided == guided[i].guided && moved[i].doomed == guided[i].doomed);
            assert(is_walker(guided[i]));
            assert(is_walker(struck[i]));
        }
    }
}

} // verus!
