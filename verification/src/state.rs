//! The running game: the world, its singletons and its systems, and the
//! order in which the systems take their turn in a tick.

use vstd::prelude::*;
use crate::components::{Camera, Transform};
use crate::input::{mouse_projection, ActionBinding, InputHandler};
use crate::prefabs::PlayerPrefab;
use crate::resources::bullet_set::BulletPrefabSet;
use crate::resources::camera::{ActiveCamera, FollowedObject};
use crate::resources::enemy_set::{EnemyPrefabSet, EnemySpawning, EnemyType};
use crate::resources::placement::{TowerPlacement, TowerPrefabSet};
use crate::systems::bullet::{bullets_upto, BulletSystem};
use crate::systems::camera::{camera_followed, CameraFollowSystem};
use crate::systems::controls::{player_controlled, PlayerControlSystem};
use crate::systems::enemies::{
    guided_step, spawn_due, spawned, EnemyMovementSystem, EnemySpawnSystem,
};
use crate::systems::physics::{moved, PhysicsSystem};
use crate::systems::shooter::{
    shooter_controlled, shown, ShooterControlSystem, TowerDirectionSystem,
};
use crate::systems::ui::{
    follows, handled, placed, places, PlacementSystem, UiEvent, UiEventHandlerSystem,
};
use crate::world::{maintained, well_formed, Entity, Slot, SlotView, World};

verus! {

/// The depth of the camera.
pub const CAMERA_DEPTH: i32 = 1000;

/// The game while it is played.
#[derive(Debug)]
pub struct Game {
    pub world: World,
    pub active_camera: ActiveCamera,
    pub followed_object: Option<FollowedObject>,
    pub tower_placement: Option<TowerPlacement>,
    pub enemy_spawning: Option<EnemySpawning>,
    pub bullet_prefab_set: BulletPrefabSet,
    pub enemy_prefab_set: EnemyPrefabSet,
    pub tower_prefab_set: TowerPrefabSet,
    pub player_control: PlayerControlSystem,
    pub shooter_control: ShooterControlSystem,
    pub placement: PlacementSystem,
    pub enemy_spawn: EnemySpawnSystem,
}

/// A camera at the origin.
pub open spec fn camera_slot() -> SlotView {
    SlotView {
        transform: Some(Transform { x: 0, y: 0, z: CAMERA_DEPTH }),
        camera: Some(Camera {  }),
        ..SlotView::bare()
    }
}

/// The player's character as the template has it.
pub open spec fn player_slot(prefab: PlayerPrefab) -> SlotView {
    SlotView {
        sprite: Some(prefab.sprite),
        transform: Some(prefab.transform),
        velocity: Some(prefab.velocity),
        character: Some(prefab.controlled_character),
        ..SlotView::bare()
    }
}

/// Every tower shows the way it faces.
pub open spec fn all_shown(slots: Seq<SlotView>) -> Seq<SlotView> {
    Seq::new(slots.len(), |i: int| shown(slots[i]))
}

/// Every entity on a path takes its step.
pub open spec fn all_guided(slots: Seq<SlotView>) -> Seq<SlotView> {
    Seq::new(slots.len(), |i: int| guided_step(slots[i]))
}

/// Everything moves for `step` microseconds.
pub open spec fn all_moved(slots: Seq<SlotView>, step: u32) -> Seq<SlotView> {
    Seq::new(slots.len(), |i: int| moved(slots[i], step))
}

/// The world after the systems that the player and time drive have had
/// their turn, in this order: the player's controls, the shooter's
/// controls, the towers' pictures, the bullets, the paths, and motion. Each
/// sees what those before it have done.
pub open spec fn simulated(
    slots: Seq<SlotView>,
    followed_object: Option<FollowedObject>,
    input: InputHandler,
    activate_was_pressed: bool,
    fire_was_pressed: bool,
    bullet_prefab_set: BulletPrefabSet,
    active_camera: ActiveCamera,
    step: u32,
) -> Seq<SlotView> {
    let controlled = player_controlled(slots, followed_object, input, activate_was_pressed).0;
    let shot = shooter_controlled(
        controlled,
        input,
        fire_was_pressed,
        bullet_prefab_set,
        active_camera,
    );
    let faced = all_shown(shot);
    let struck = bullets_upto(faced, faced.len() as int);
    all_moved(all_guided(struck), step)
}

impl Game {
    /// The world is well formed, and the enemy template, if there is one,
    /// has its path index within its path.
    pub open spec fn well_formed(self) -> bool {
        &&& well_formed(self.world@)
        &&& self.enemy_prefab_set.handle(EnemyType::Standard) matches Some(prefab)
            ==> prefab.guided.well_formed()
    }

    /// The world after a tick of `game`: after `simulated`, a tower is
    /// placed, an enemy comes, the camera follows, and what is doomed goes.
    pub open spec fn ticked(
        game: Game,
        input: InputHandler,
        events: Seq<UiEvent>,
        button: Option<u32>,
        now: u64,
        step: u32,
    ) -> Seq<SlotView> {
        let moved = simulated(
            game.world@,
            game.followed_object,
            input,
            game.player_control.activate_was_pressed,
            game.shooter_control.fire_was_pressed,
            game.bullet_prefab_set,
            game.active_camera,
            step,
        );
        let built = placed(
            moved,
            handled(game.tower_placement, events, button),
            input,
            game.placement.place_was_pressed,
            game.tower_prefab_set,
            game.active_camera,
        );
        let grown = spawned(
            built,
            game.enemy_prefab_set,
            game.enemy_spawning,
            game.enemy_spawn.last_enemy_spawn,
            now,
        );
        let followed = player_controlled(
            game.world@,
            game.followed_object,
            input,
            game.player_control.activate_was_pressed,
        ).1;
        maintained(camera_followed(grown, followed, game.active_camera))
    }

    /// Starts a game: a world with a camera at the origin and the player's
    /// character, which the camera follows on its leash. No tower is being
    /// placed, and no enemy comes until `enemy_spawning` is set.
    pub fn on_start(
        player_prefab: PlayerPrefab,
        bullet_prefab_set: BulletPrefabSet,
        enemy_prefab_set: EnemyPrefabSet,
        tower_prefab_set: TowerPrefabSet,
    ) -> (game: Game)
        ensures
            game.world@ == seq![camera_slot(), player_slot(player_prefab)],
            game.active_camera == (ActiveCamera { entity: None }),
            game.followed_object == Some(
                FollowedObject { e: Entity { id: 1 }, hard_lock: false },
            ),
            game.tower_placement == Some(TowerPlacement { placing: false }),
            game.enemy_spawning is None,
            game.bullet_prefab_set == bullet_prefab_set,
            game.enemy_prefab_set == enemy_prefab_set,
            game.tower_prefab_set == tower_prefab_set,
            !game.player_control.activate_was_pressed,
            !game.shooter_control.fire_was_pressed,
            !game.placement.place_was_pressed,
            game.enemy_spawn.last_enemy_spawn is None,
            well_formed(game.world@),
    {
        let mut world = World::new();
        initialise_camera(&mut world);
        let mut player = Slot::bare();
        player.sprite = Some(player_prefab.sprite);
        player.transform = Some(player_prefab.transform);
        player.velocity = Some(player_prefab.velocity);
        player.character = Some(player_prefab.controlled_character);
        let player_entity = world.create_entity(player);
        assert(world@ =~= seq![camera_slot(), player_slot(player_prefab)]);
        Game {
            world,
            active_camera: ActiveCamera { entity: None },
            followed_object: Some(FollowedObject { e: player_entity, hard_lock: false }),
            tower_placement: Some(TowerPlacement { placing: false }),
            enemy_spawning: None,
            bullet_prefab_set,
            enemy_prefab_set,
            tower_prefab_set,
            player_control: PlayerControlSystem::new(),
            shooter_control: ShooterControlSystem::new(),
            placement: PlacementSystem::new(),
            enemy_spawn: EnemySpawnSystem::new(),
        }
    }

    /// One tick at the time `now`, `step` microseconds long. The systems
    /// take their turn in the order that their needs fix: what reads
    /// another's work comes after it. Then what is doomed goes.
    pub fn update(
        &mut self,
        input: &InputHandler,
        events: &Vec<UiEvent>,
        button: Option<u32>,
        now: u64,
        step: u32,
    )
        ensures
            final(self).world@ == Game::ticked(*old(self), *input, events@, button, now, step),
            old(self).well_formed() ==> final(self).well_formed(),
            final(self).followed_object == player_controlled(
                old(self).world@,
                old(self).followed_object,
                *input,
                old(self).player_control.activate_was_pressed,
            ).1,
            final(self).player_control.activate_was_pressed == input.down(ActionBinding::Activate),
            final(self).shooter_control.fire_was_pressed == input.down(ActionBinding::Fire),
            final(self).active_camera == old(self).active_camera,
            final(self).enemy_spawning == old(self).enemy_spawning,
            final(self).bullet_prefab_set == old(self).bullet_prefab_set,
            final(self).enemy_prefab_set == old(self).enemy_prefab_set,
            final(self).tower_prefab_set == old(self).tower_prefab_set,
            final(self).enemy_spawn.last_enemy_spawn == if old(self).enemy_spawning is Some
                && spawn_due(old(self).enemy_spawn.last_enemy_spawn, now) {
                Some(now)
            } else {
                old(self).enemy_spawn.last_enemy_spawn
            },
            ({
                let moved = simulated(
                    old(self).world@,
                    old(self).followed_object,
                    *input,
                    old(self).player_control.activate_was_pressed,
                    old(self).shooter_control.fire_was_pressed,
                    old(self).bullet_prefab_set,
                    old(self).active_camera,
                    step,
                );
                let asked = handled(old(self).tower_placement, events@, button);
                let served = places(asked, *input, old(self).placement.place_was_pressed);
                let seen = mouse_projection(moved, *input, old(self).active_camera) is Some;
                &&& final(self).tower_placement == if served && seen {
                    Some(TowerPlacement { placing: false })
                } else {
                    asked
                }
                &&& final(self).placement.place_was_pressed == if follows(asked) && !(served
                    && !seen) {
                    input.down(ActionBinding::Place)
                } else {
                    old(self).placement.place_was_pressed
                }
            }),
    {
        let mut ui = UiEventHandlerSystem::new();
        ui.run(events, button, &mut self.tower_placement);
        self.player_control.run(&mut self.world, input, &mut self.followed_object);
        self.shooter_control.run(
            &mut self.world,
            input,
            &self.bullet_prefab_set,
            &self.active_camera,
        );
        let mut tower_direction = TowerDirectionSystem;
        let ghost shot = self.world@;
        tower_direction.run(&mut self.world);
        assert(self.world@ =~= all_shown(shot));
        let mut bullets = BulletSystem;
        bullets.run(&mut self.world);
        let mut enemy_movement = EnemyMovementSystem;
        let ghost struck = self.world@;
        enemy_movement.run(&mut self.world);
        assert(self.world@ =~= all_guided(struck));
        let mut physics = PhysicsSystem;
        let ghost guided = self.world@;
        physics.run(&mut self.world, step);
        assert(self.world@ =~= all_moved(guided, step));
        self.placement.run(
            &mut self.world,
            input,
            &mut self.tower_placement,
            &self.tower_prefab_set,
            &self.active_camera,
        );
        self.enemy_spawn.run(&mut self.world, &self.enemy_prefab_set, &self.enemy_spawning, now);
        let mut camera_follow = CameraFollowSystem;
        camera_follow.run(&mut self.world, &self.followed_object, &self.active_camera);
        self.world.maintain();
    }
}

/// Makes the camera: at the origin, above the ground.
pub fn initialise_camera(world: &mut World)
    ensures
        final(world)@ == old(world)@.push(camera_slot()),
        well_formed(old(world)@) ==> well_formed(final(world)@),
{
    let mut camera = Slot::bare();
    camera.transform = Some(Transform { x: 0, y: 0, z: CAMERA_DEPTH });
    camera.camera = Some(Camera {  });
    world.create_entity(camera);
}

} // verus!
