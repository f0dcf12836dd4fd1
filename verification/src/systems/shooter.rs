//! Aiming the towers at the cursor, firing them, and turning their
//! pictures the way they aim.

use vstd::prelude::*;
use crate::components::{SpriteRender, Tower, TowerDirection};
use crate::input::{get_mouse_projection, mouse_projection, released, ActionBinding, InputHandler};
use crate::math::{displacement, rescaled, Point2, Vector2, UNIT};
use crate::prefabs::BulletPrefab;
use crate::resources::bullet_set::{bullet_slot, BulletPrefabSet, BulletType};
use crate::resources::camera::ActiveCamera;
use crate::invariants::{lemma_shooter_controlled_well_formed, lemma_shown_well_formed};
use crate::world::{well_formed, SlotView, World};

verus! {

/// Aims the active towers at the cursor and fires them when "fire" is let go.
#[derive(Clone, Copy, Debug, PartialEq, Eq, Structural)]
pub struct ShooterControlSystem {
    pub fire_was_pressed: bool,
}

/// Shows each tower the way it faces.
#[derive(Clone, Copy, Debug, PartialEq, Eq, Structural)]
pub struct TowerDirectionSystem;

/// The quarter of the plane in which a direction lies. Each quarter is a
/// right angle that holds its clockwise edge and not the other: north from
/// 45 degrees up to, but not with, 135; west from 135 to 225; south from
/// 225 to 315; east from 315 to 45. The direction without length lies
/// east.
pub open spec fn faces(dir: Vector2, d: TowerDirection) -> bool {
    match d {
        TowerDirection::N => dir.y > 0 && -dir.y < dir.x <= dir.y,
        TowerDirection::W => dir.x < 0 && dir.x < dir.y <= -dir.x,
        TowerDirection::S => dir.y < 0 && dir.y <= dir.x < -dir.y,
        TowerDirection::E => (dir.x > 0 && -dir.x <= dir.y < dir.x) || (dir.x == 0 && dir.y == 0),
    }
}

/// The way a tower faces that aims along `dir`.
pub open spec fn tower_direction(dir: Vector2) -> TowerDirection {
    if faces(dir, TowerDirection::N) {
        TowerDirection::N
    } else if faces(dir, TowerDirection::W) {
        TowerDirection::W
    } else if faces(dir, TowerDirection::S) {
        TowerDirection::S
    } else {
        TowerDirection::E
    }
}

/// A quarter turn to the left.
pub open spec fn quarter_turn(d: TowerDirection) -> TowerDirection {
    match d {
        TowerDirection::E => TowerDirection::N,
        TowerDirection::N => TowerDirection::W,
        TowerDirection::W => TowerDirection::S,
        TowerDirection::S => TowerDirection::E,
    }
}

/// Every direction lies in one quarter and in no other: the four quarters
/// leave no gap and do not overlap.
pub proof fn lemma_quarters_partition(dir: Vector2, d: TowerDirection)
    ensures
        faces(dir, tower_direction(dir)),
        faces(dir, d) <==> d == tower_direction(dir),
{
}

/// The four quarters are one quarter turned: a direction turned left by a
/// right angle lies in the next quarter.
pub proof fn lemma_quarters_turn(dir: Vector2)
    requires
        dir.x != 0 || dir.y != 0,
        dir.x > i64::MIN,
        dir.y > i64::MIN,
    ensures
        tower_direction(Vector2 { x: (-dir.y) as i64, y: dir.x }) == quarter_turn(
            tower_direction(dir),
        ),
{
}

/// The quarter depends on the direction alone, not on the length.
pub proof fn lemma_quarters_scale(dir: Vector2, k: int)
    requires
        k > 0,
        i64::MIN <= dir.x * k <= i64::MAX,
        i64::MIN <= dir.y * k <= i64::MAX,
    ensures
        tower_direction(Vector2 { x: (dir.x * k) as i64, y: (dir.y * k) as i64 })
            == tower_direction(dir),
{
    let x = dir.x as int;
    let y = dir.y as int;
    assert((x > 0 <==> x * k > 0) && (x < 0 <==> x * k < 0)) by (nonlinear_arith)
        requires
            k > 0,
    ;
    assert((y > 0 <==> y * k > 0) && (y < 0 <==> y * k < 0)) by (nonlinear_arith)
        requires
            k > 0,
    ;
    assert((x <= y <==> x * k <= y * k) && (x < y <==> x * k < y * k)) by (nonlinear_arith)
        requires
            k > 0,
    ;
    assert((-y < x <==> -(y * k) < x * k) && (y <= -x <==> y * k <= -(x * k))) by (nonlinear_arith)
        requires
            k > 0,
    ;
    assert((-x <= y <==> -(x * k) <= y * k) && (x < -y <==> x * k < -(y * k))) by (nonlinear_arith)
        requires
            k > 0,
    ;
}

/// The picture that shows a tower facing `d`.
pub open spec fn sprite_index(d: TowerDirection) -> usize {
    match d {
        TowerDirection::N => 2,
        TowerDirection::S => 3,
        TowerDirection::E => 1,
        TowerDirection::W => 0,
    }
}

/// A placed tower after aiming: an active one aims from its place at `mouse`,
/// with a direction one unit long; an inactive one rests, aiming west.
pub open spec fn aimed(s: SlotView, mouse: Point2) -> SlotView {
    if s.tower is Some && s.transform is Some {
        let tower = s.tower->0;
        if tower.active {
            let dir = rescaled(displacement(s.transform->0.point(), mouse), UNIT as int);
            SlotView { tower: Some(Tower { dir, sprite_dir: tower_direction(dir), ..tower }), ..s }
        } else {
            SlotView {
                tower: Some(
                    Tower {
                        dir: Vector2 { x: (-UNIT) as i64, y: 0 },
                        sprite_dir: TowerDirection::W,
                        ..tower
                    },
                ),
                ..s
            }
        }
    } else {
        s
    }
}

/// Every tower aimed, where the cursor points somewhere; else nothing.
pub open spec fn pointed(slots: Seq<SlotView>, mouse: Option<Point2>) -> Seq<SlotView> {
    match mouse {
        Some(m) => Seq::new(slots.len(), |i: int| aimed(slots[i], m)),
        None => slots,
    }
}

/// A placed, active tower: one that fires.
pub open spec fn shoots(s: SlotView) -> bool {
    s.tower is Some && s.transform is Some && s.tower->0.active
}

/// The bullets that the towers among the first `upto` slots fire, in the
/// order of the towers: one each, from the tower's place, along its aim.
pub open spec fn shots(slots: Seq<SlotView>, prefab: BulletPrefab, upto: int) -> Seq<SlotView>
    decreases upto,
{
    if upto <= 0 {
        Seq::empty()
    } else {
        let earlier = shots(slots, prefab, upto - 1);
        let s = slots[upto - 1];
        if shoots(s) {
            earlier.push(bullet_slot(prefab, s.tower->0.dir, s.transform->0.point()))
        } else {
            earlier
        }
    }
}

/// The number of towers that fire among the first `upto` slots.
pub open spec fn shooters(slots: Seq<SlotView>, upto: int) -> nat
    decreases upto,
{
    if upto <= 0 {
        0
    } else {
        shooters(slots, upto - 1) + if shoots(slots[upto - 1]) {
            1nat
        } else {
            0nat
        }
    }
}

/// The world after every tower has fired. Without a bullet template no
/// bullet is made.
pub open spec fn fired(slots: Seq<SlotView>, set: BulletPrefabSet) -> Seq<SlotView> {
    match set.handle(BulletType::Standard) {
        Some(prefab) => slots + shots(slots, prefab, slots.len() as int),
        None => slots,
    }
}

/// One tick of the shooter's controls: the towers are aimed; then, if
/// "fire" was let go, each active tower fires once.
pub open spec fn shooter_controlled(
    slots: Seq<SlotView>,
    input: InputHandler,
    was_pressed: bool,
    set: BulletPrefabSet,
    active_camera: ActiveCamera,
) -> Seq<SlotView> {
    let aimed = pointed(slots, mouse_projection(slots, input, active_camera));
    if released(was_pressed, input.down(ActionBinding::Fire)) {
        fired(aimed, set)
    } else {
        aimed
    }
}

/// Each tower that fires makes one bullet.
pub proof fn lemma_shots_len(slots: Seq<SlotView>, prefab: BulletPrefab, upto: int)
    ensures
        shots(slots, prefab, upto).len() == shooters(slots, upto),
    decreases upto,
{
    if upto > 0 {
        lemma_shots_len(slots, prefab, upto - 1);
    }
}

/// Aiming makes and ends no entity, and changes no tower's state.
pub proof fn lemma_pointed_keeps(slots: Seq<SlotView>, mouse: Option<Point2>, upto: int)
    requires
        upto <= slots.len(),
    ensures
        pointed(slots, mouse).len() == slots.len(),
        shooters(pointed(slots, mouse), upto) == shooters(slots, upto),
    decreases upto,
{
    if upto > 0 {
        lemma_pointed_keeps(slots, mouse, upto - 1);
    }
}

/// Bullets come with the release of "fire" and at no other time: a tick in
/// which "fire" was not let go makes no entity, however long "fire" has been
/// held; a tick in which it was let go makes one bullet for each active
/// tower, where a bullet template is loaded.
pub proof fn lemma_one_shot_per_release(
    slots: Seq<SlotView>,
    input: InputHandler,
    was_pressed: bool,
    set: BulletPrefabSet,
    active_camera: ActiveCamera,
)
    ensures
        shooter_controlled(slots, input, was_pressed, set, active_camera).len() == slots.len() + (
        if released(was_pressed, input.down(ActionBinding::Fire)) && set.standard is Some {
            shooters(slots, slots.len() as int)
        } else {
            0nat
        }),
{
    let mouse = mouse_projection(slots, input, active_camera);
    let aimed = pointed(slots, mouse);
    lemma_pointed_keeps(slots, mouse, slots.len() as int);
    if let Some(prefab) = set.standard {
        lemma_shots_len(aimed, prefab, aimed.len() as int);
    }
}

impl ShooterControlSystem {
    pub fn new() -> (s: ShooterControlSystem)
        ensures
            !s.fire_was_pressed,
    {
        ShooterControlSystem { fire_was_pressed: false }
    }

    /// One tick. See `shooter_controlled`.
    pub fn run(
        &mut self,
        world: &mut World,
        input: &InputHandler,
        bullet_prefab_set: &BulletPrefabSet,
        active_camera: &ActiveCamera,
    )
        ensures
            final(world)@ == shooter_controlled(
                old(world)@,
                *input,
                old(self).fire_was_pressed,
                *bullet_prefab_set,
                *active_camera,
            ),
            final(self).fire_was_pressed == input.down(ActionBinding::Fire),
            well_formed(old(world)@) ==> well_formed(final(world)@),
    {
        self.point_routine(world, input, active_camera);
        self.fire_routine(world, input, bullet_prefab_set);
        proof {
            if well_formed(old(world)@) {
                lemma_shooter_controlled_well_formed(
                    old(world)@,
                    *input,
                    old(self).fire_was_pressed,
                    *bullet_prefab_set,
                    *active_camera,
                );
            }
        }
    }

    /// Aims every tower. See `pointed`.
    pub fn point_routine(
        &mut self,
        world: &mut World,
        input: &InputHandler,
        active_camera: &ActiveCamera,
    )
        ensures
            final(world)@ == pointed(
                old(world)@,
                mouse_projection(old(world)@, *input, *active_camera),
            ),
            *final(self) == *old(self),
    {
        let mouse = match get_mouse_projection(world, input, active_camera) {
            Some(m) => m,
            None => {
                return ;
            },
        };
        let n: usize = world.slots.len();
        let ghost start = world@;
        let mut i: usize = 0;
        while i < n
            invariant
                i <= n,
                n == world@.len(),
                n == start.len(),
                forall|j: int| 0 <= j < i ==> #[trigger] world@[j] == aimed(start[j], mouse),
                forall|j: int| i <= j < n ==> #[trigger] world@[j] == start[j],
            decreases n - i,
        {
            let ghost before = world@;
            assert(before[i as int] == start[i as int]);
            if let Some(tower) = world.slots[i].tower {
                if let Some(transform) = world.slots[i].transform {
                    if tower.active {
                        let dir = mouse.minus(transform.translation()).with_length(UNIT);
                        world.slots[i].tower = Some(
                            Tower {
                                dir,
                                sprite_dir: self.get_tower_direction(dir),
                                active: tower.active,
                            },
                        );
                    } else {
                        world.slots[i].tower = Some(
                            Tower {
                                dir: Vector2 { x: -(UNIT as i64), y: 0 },
                                sprite_dir: TowerDirection::W,
                                active: tower.active,
                            },
                        );
                    }
                }
            }
            assert(forall|j: int| 0 <= j < n && j != i ==> #[trigger] world@[j] == before[j]);
            assert(world@[i as int] == aimed(start[i as int], mouse));
            i = i + 1;
        }
        assert(world@ =~= pointed(start, Some(mouse)));
    }

    /// Fires every active tower if "fire" was let go. See `fired`.
    pub fn fire_routine(
        &mut self,
        world: &mut World,
        input: &InputHandler,
        bullet_prefab_set: &BulletPrefabSet,
    )
        ensures
            final(world)@ == if released(
                old(self).fire_was_pressed,
                input.down(ActionBinding::Fire),
            ) {
                fired(old(world)@, *bullet_prefab_set)
            } else {
                old(world)@
            },
            final(self).fire_was_pressed == input.down(ActionBinding::Fire),
    {
        let fire_is_pressed = input.action_is_down(&ActionBinding::Fire);
        if !fire_is_pressed && self.fire_was_pressed {
            let n: usize = world.slots.len();
            let ghost start = world@;
            let mut i: usize = 0;
            while i < n
                invariant
                    i <= n,
                    n == start.len(),
                    n <= world@.len(),
                    world@ == match bullet_prefab_set.handle(BulletType::Standard) {
                        Some(prefab) => start + shots(start, prefab, i as int),
                        None => start,
                    },
                decreases n - i,
            {
                assert(world@[i as int] == start[i as int]);
                if let Some(tower) = world.slots[i].tower {
                    if let Some(transform) = world.slots[i].transform {
                        if tower.active {
                            let _ = bullet_prefab_set.add_bullet(
                                BulletType::Standard,
                                tower.dir,
                                transform.translation(),
                                world,
                            );
                        }
                    }
                }
                assert(world@ =~= match bullet_prefab_set.handle(BulletType::Standard) {
                    Some(prefab) => start + shots(start, prefab, i + 1),
                    None => start,
                });
                i = i + 1;
            }
        }
        self.fire_was_pressed = fire_is_pressed;
    }

    /// The way a tower faces that aims along `dir`.
    pub fn get_tower_direction(&self, dir: Vector2) -> (d: TowerDirection)
        ensures
            d == tower_direction(dir),
            faces(dir, d),
    {
        let x: i128 = dir.x as i128;
        let y: i128 = dir.y as i128;
        if y > 0 && -y < x && x <= y {
            TowerDirection::N
        } else if x < 0 && x < y && y <= -x {
            TowerDirection::W
        } else if y < 0 && y <= x && x < -y {
            TowerDirection::S
        } else {
            TowerDirection::E
        }
    }
}

/// A tower that has a picture shows the picture of the way it faces.
pub open spec fn shown(s: SlotView) -> SlotView {
    if s.tower is Some && s.sprite is Some {
        SlotView { sprite: Some(SpriteRender { sprite_number: sprite_index(s.tower->0.sprite_dir) }), ..s }
    } else {
        s
    }
}

impl TowerDirectionSystem {
    /// One tick: every tower shows the way it faces. Running it twice is
    /// running it once.
    pub fn run(&mut self, world: &mut World)
        ensures
            final(world)@.len() == old(world)@.len(),
            forall|i: int|
                0 <= i < old(world)@.len() ==> #[trigger] final(world)@[i] == shown(old(world)@[i]),
            well_formed(old(world)@) ==> well_formed(final(world)@),
    {
        let n: usize = world.slots.len();
        let ghost start = world@;
        let mut i: usize = 0;
        while i < n
            invariant
                i <= n,
                n == world@.len(),
                n == start.len(),
                forall|j: int| 0 <= j < i ==> #[trigger] world@[j] == shown(start[j]),
                forall|j: int| i <= j < n ==> #[trigger] world@[j] == start[j],
            decreases n - i,
        {
            let ghost before = world@;
            assert(before[i as int] == start[i as int]);
            if let Some(tower) = world.slots[i].tower {
                if world.slots[i].sprite.is_some() {
                    let sprite_number: usize = match tower.sprite_dir {
                        TowerDirection::N => 2,
                        TowerDirection::S => 3,
                        TowerDirection::E => 1,
                        TowerDirection::W => 0,
                    };
                    world.slots[i].sprite = Some(SpriteRender { sprite_number });
                }
            }
            assert(forall|j: int| 0 <= j < n && j != i ==> #[trigger] world@[j] == before[j]);
            assert(world@[i as int] == shown(start[i as int]));
            i = i + 1;
        }
        assert(well_formed(start) ==> well_formed(world@)) by {
            if well_formed(start) {
                assert forall|j: int| 0 <= j < n implies (#[trigger] world@[j]).well_formed() by {
                    lemma_shown_well_formed(start[j]);
                }
            }
        }
    }
}

/// To show the way a tower faces twice is to show it once.
pub proof fn lemma_shown_idempotent(s: SlotView)
    ensures
        shown(shown(s)) == shown(s),
{
}

impl Default for ShooterControlSystem {
    fn default() -> (s: ShooterControlSystem)
        ensures
            !s.fire_was_pressed,
    {
        ShooterControlSystem { fire_was_pressed: false }
    }
}

} // verus!
