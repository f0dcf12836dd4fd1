//! The player's controls: walking, and entering and leaving towers.

use vstd::prelude::*;
use crate::components::{ControlledCharacter, Tower, Transform, Velocity};
use crate::input::{released, ActionBinding, AxisBinding, InputHandler};
use crate::math::{displacement, norm_squared, rescaled, Point2, Vector2};
use crate::resources::camera::FollowedObject;
use crate::invariants::lemma_player_controlled_well_formed;
use crate::world::{well_formed, SlotView, World};

verus! {

/// A character leaves the tower that lies within this distance of it.
pub const EXIT_RADIUS: i64 = 1000;

/// A character enters a tower that lies within this distance of it.
pub const ENTER_RADIUS: i64 = 60000;

/// The depth of a character that has left a tower: in front of the scenery.
pub const FOREGROUND_DEPTH: i32 = 600;

/// The depth of a character that sits in a tower: behind the scenery.
pub const BACKGROUND_DEPTH: i32 = -10000;

/// What entering and leaving need to know of a tower.
#[derive(Clone, Copy, Debug, PartialEq, Eq, Structural)]
pub struct TowerData {
    pub pos: Point2,
    pub active: bool,
}

/// Moves the player's characters and lets them enter and leave towers.
#[derive(Clone, Copy, Debug, PartialEq, Eq, Structural)]
pub struct PlayerControlSystem {
    pub activate_was_pressed: bool,
}

/// The velocity that the axes ask for: their direction, at `speed`.
pub open spec fn steering(input: InputHandler, speed: i32) -> Velocity {
    Velocity {
        v: rescaled(
            Vector2 {
                x: input.axis(AxisBinding::Sideways) as i64,
                y: input.axis(AxisBinding::Forwards) as i64,
            },
            speed as int,
        ),
    }
}

/// A character that walks takes the velocity that the axes ask for;
/// nothing else moves.
pub open spec fn steered(s: SlotView, input: InputHandler) -> SlotView {
    if s.character is Some && s.velocity is Some && !s.character->0.locked {
        SlotView { velocity: Some(steering(input, s.character->0.speed)), ..s }
    } else {
        s
    }
}

/// Every slot steered.
pub open spec fn steered_all(slots: Seq<SlotView>, input: InputHandler) -> Seq<SlotView> {
    Seq::new(slots.len(), |i: int| steered(slots[i], input))
}

/// What entering and leaving need to know of a slot: its place and state,
/// if it is a living, placed tower.
pub open spec fn tower_datum(s: SlotView) -> Option<TowerData> {
    if s.alive && s.tower is Some && s.transform is Some {
        Some(TowerData { pos: s.transform->0.point(), active: s.tower->0.active })
    } else {
        None
    }
}

/// What entering and leaving need to know of every slot, as the slots
/// stand.
pub open spec fn tower_data(slots: Seq<SlotView>) -> Seq<Option<TowerData>> {
    Seq::new(slots.len(), |t: int| tower_datum(slots[t]))
}

/// The square of the distance from `from` to tower `t`.
pub open spec fn gap(data: Seq<Option<TowerData>>, t: int, from: Point2) -> int {
    norm_squared(displacement(from, data[t]->0.pos))
}

/// Slot `t` is a tower in the state `active`, no farther than `radius` from
/// `from`.
pub open spec fn in_reach(
    data: Seq<Option<TowerData>>,
    t: int,
    from: Point2,
    active: bool,
    radius: int,
) -> bool {
    &&& 0 <= t < data.len()
    &&& data[t] is Some
    &&& data[t]->0.active == active
    &&& gap(data, t, from) <= radius * radius
}

/// Among the first `upto` slots, `t` is the tower in reach that is nearest
/// to `from`, and the first of those that are equally near.
pub open spec fn is_nearest(
    data: Seq<Option<TowerData>>,
    t: int,
    from: Point2,
    active: bool,
    radius: int,
    upto: int,
) -> bool {
    &&& t < upto
    &&& in_reach(data, t, from, active, radius)
    &&& forall|u: int|
        0 <= u < upto && #[trigger] in_reach(data, u, from, active, radius) ==> gap(data, t, from)
            <= gap(data, u, from) && (u < t ==> gap(data, t, from) < gap(data, u, from))
}

/// The nearest tower in reach, if one is.
pub open spec fn nearest(data: Seq<Option<TowerData>>, from: Point2, active: bool, radius: int) -> Option<
    int,
> {
    if exists|t: int| is_nearest(data, t, from, active, radius, data.len() as int) {
        Some(choose|t: int| is_nearest(data, t, from, active, radius, data.len() as int))
    } else {
        None
    }
}

/// There is one nearest tower at most.
pub proof fn lemma_nearest_unique(
    data: Seq<Option<TowerData>>,
    a: int,
    b: int,
    from: Point2,
    active: bool,
    radius: int,
    upto: int,
)
    requires
        is_nearest(data, a, from, active, radius, upto),
        is_nearest(data, b, from, active, radius, upto),
    ensures
        a == b,
{
}

/// Tower `t` with its state set to `active`; a slot without a tower stays
/// as it is.
pub open spec fn switched(s: SlotView, active: bool) -> SlotView {
    match s.tower {
        Some(tower) => SlotView { tower: Some(Tower { active, ..tower }), ..s },
        None => s,
    }
}

/// The followed object after `e` has entered a tower: if it is `e` that the
/// camera follows, the camera now sits on it.
pub open spec fn locked_on(followed: Option<FollowedObject>, e: int) -> Option<FollowedObject> {
    match followed {
        Some(f) => if f.e.id == e {
            Some(FollowedObject { hard_lock: true, ..f })
        } else {
            followed
        },
        None => None,
    }
}

/// A living character with a velocity and a place.
pub open spec fn is_player(s: SlotView) -> bool {
    s.alive && s.character is Some && s.velocity is Some && s.transform is Some
}

/// What the release of "activate" does for slot `i`. A character in a tower
/// leaves the nearest active tower within `EXIT_RADIUS`: the tower is
/// inactive, the character free and in front of the scenery at the tower's
/// place. A character that walks enters the nearest inactive tower within
/// `ENTER_RADIUS`: the tower is active, the character locked, at rest and
/// behind the scenery at the tower's place, and a camera that follows it
/// sits on it. Towers are judged as they stand when the character has its
/// turn: a tower that an earlier character has entered is active, and no
/// other enters it. Without such a tower nothing changes.
pub open spec fn activated(
    slots: Seq<SlotView>,
    followed: Option<FollowedObject>,
    i: int,
) -> (Seq<SlotView>, Option<FollowedObject>) {
    let s = slots[i];
    let data = tower_data(slots);
    if !is_player(s) {
        (slots, followed)
    } else {
        let c = s.character->0;
        let from = s.transform->0.point();
        if c.locked {
            match nearest(data, from, true, EXIT_RADIUS as int) {
                Some(t) => {
                    let left = slots.update(t, switched(slots[t], false));
                    (
                        left.update(
                            i,
                            SlotView {
                                character: Some(ControlledCharacter { locked: false, ..c }),
                                transform: Some(Transform::placed(data[t]->0.pos, FOREGROUND_DEPTH)),
                                ..left[i]
                            },
                        ),
                        followed,
                    )
                },
                None => (slots, followed),
            }
        } else {
            match nearest(data, from, false, ENTER_RADIUS as int) {
                Some(t) => {
                    let entered = slots.update(t, switched(slots[t], true));
                    (
                        entered.update(
                            i,
                            SlotView {
                                character: Some(ControlledCharacter { locked: true, ..c }),
                                transform: Some(Transform::placed(data[t]->0.pos, BACKGROUND_DEPTH)),
                                velocity: Some(Velocity { v: Vector2 { x: 0, y: 0 } }),
                                ..entered[i]
                            },
                        ),
                        locked_on(followed, i),
                    )
                },
                None => (slots, followed),
            }
        }
    }
}

/// The release of "activate" done for the first `upto` slots, in order:
/// the first character in the order of the store has the first choice.
pub open spec fn activated_upto(
    slots: Seq<SlotView>,
    followed: Option<FollowedObject>,
    upto: int,
) -> (Seq<SlotView>, Option<FollowedObject>)
    decreases upto,
{
    if upto <= 0 {
        (slots, followed)
    } else {
        let before = activated_upto(slots, followed, upto - 1);
        activated(before.0, before.1, upto - 1)
    }
}

/// One tick of the player's controls: every walking character is steered;
/// then, if "activate" was released, every character enters or leaves.
pub open spec fn player_controlled(
    slots: Seq<SlotView>,
    followed: Option<FollowedObject>,
    input: InputHandler,
    was_pressed: bool,
) -> (Seq<SlotView>, Option<FollowedObject>) {
    let moved = steered_all(slots, input);
    if released(was_pressed, input.down(ActionBinding::Activate)) {
        activated_upto(moved, followed, moved.len() as int)
    } else {
        (moved, followed)
    }
}

/// The slot holds a character that sits in a tower.
pub open spec fn holds_locked(s: SlotView) -> bool {
    s.character is Some && s.character->0.locked
}

/// The slot holds a tower that a character sits in.
pub open spec fn holds_active(s: SlotView) -> bool {
    s.tower is Some && s.tower->0.active
}

/// The number of characters that sit in towers, among the first `upto`
/// slots.
pub open spec fn locked_characters(slots: Seq<SlotView>, upto: int) -> int
    decreases upto,
{
    if upto <= 0 {
        0
    } else {
        locked_characters(slots, upto - 1) + if holds_locked(slots[upto - 1]) {
            1int
        } else {
            0int
        }
    }
}

/// The number of towers that characters sit in, among the first `upto`
/// slots.
pub open spec fn active_towers(slots: Seq<SlotView>, upto: int) -> int
    decreases upto,
{
    if upto <= 0 {
        0
    } else {
        active_towers(slots, upto - 1) + if holds_active(slots[upto - 1]) {
            1int
        } else {
            0int
        }
    }
}

/// How the two numbers change when one slot changes.
pub proof fn lemma_counts_update(slots: Seq<SlotView>, j: int, s: SlotView, upto: int)
    requires
        0 <= j < slots.len(),
        0 <= upto <= slots.len(),
    ensures
        locked_characters(slots.update(j, s), upto) == locked_characters(slots, upto) + if j
            < upto {
            (if holds_locked(s) {
                1int
            } else {
                0int
            }) - (if holds_locked(slots[j]) {
                1int
            } else {
                0int
            })
        } else {
            0int
        },
        active_towers(slots.update(j, s), upto) == active_towers(slots, upto) + if j < upto {
            (if holds_active(s) {
                1int
            } else {
                0int
            }) - (if holds_active(slots[j]) {
                1int
            } else {
                0int
            })
        } else {
            0int
        },
    decreases upto,
{
    if upto > 0 {
        lemma_counts_update(slots, j, s, upto - 1);
    }
}

/// Worlds whose slots agree, one by one, on who sits in a tower and on
/// which tower is sat in, agree on the two numbers.
pub proof fn lemma_counts_alike(a: Seq<SlotView>, b: Seq<SlotView>, upto: int)
    requires
        a.len() == b.len(),
        0 <= upto <= a.len(),
        forall|i: int|
            0 <= i < a.len() ==> holds_locked(#[trigger] a[i]) == holds_locked(b[i])
                && holds_active(a[i]) == holds_active(b[i]),
    ensures
        locked_characters(a, upto) == locked_characters(b, upto),
        active_towers(a, upto) == active_towers(b, upto),
    decreases upto,
{
    if upto > 0 {
        lemma_counts_alike(a, b, upto - 1);
        assert(holds_locked(a[upto - 1]) == holds_locked(b[upto - 1]));
    }
}

/// The nearest tower in reach, if there is one, is a tower in reach.
pub proof fn lemma_nearest_in_reach(
    data: Seq<Option<TowerData>>,
    from: Point2,
    active: bool,
    radius: int,
)
    ensures
        nearest(data, from, active, radius) matches Some(t) ==> in_reach(
            data,
            t,
            from,
            active,
            radius,
        ),
{
    if exists|t: int| is_nearest(data, t, from, active, radius, data.len() as int) {
        let t = choose|t: int| is_nearest(data, t, from, active, radius, data.len() as int);
        assert(is_nearest(data, t, from, active, radius, data.len() as int));
    }
}

/// The turn of one slot changes the number of characters that sit in towers
/// and the number of towers sat in by the same amount: a character enters
/// only a tower that no one sits in, and leaves only one that is sat in.
pub proof fn lemma_activated_balance(slots: Seq<SlotView>, followed: Option<FollowedObject>, i: int)
    requires
        0 <= i < slots.len(),
    ensures
        activated(slots, followed, i).0.len() == slots.len(),
        locked_characters(activated(slots, followed, i).0, slots.len() as int) - active_towers(
            activated(slots, followed, i).0,
            slots.len() as int,
        ) == locked_characters(slots, slots.len() as int) - active_towers(
            slots,
            slots.len() as int,
        ),
{
    let s = slots[i];
    let n = slots.len() as int;
    let data = tower_data(slots);
    if is_player(s) {
        let c = s.character->0;
        let from = s.transform->0.point();
        let found = if c.locked {
            nearest(data, from, true, EXIT_RADIUS as int)
        } else {
            nearest(data, from, false, ENTER_RADIUS as int)
        };
        lemma_nearest_in_reach(data, from, true, EXIT_RADIUS as int);
        lemma_nearest_in_reach(data, from, false, ENTER_RADIUS as int);
        if let Some(t) = found {
            assert(data[t] == tower_datum(slots[t]));
            let mid = slots.update(t, switched(slots[t], !c.locked));
            let after = activated(slots, followed, i).0;
            assert(after == mid.update(i, after[i]));
            lemma_counts_update(slots, t, switched(slots[t], !c.locked), n);
            lemma_counts_update(mid, i, after[i], n);
        }
    }
}

/// A tower that a character has entered is taken: it is sat in, and in
/// reach of no character that looks for a tower to enter, wherever that
/// character stands.
pub proof fn lemma_entered_tower_is_taken(
    slots: Seq<SlotView>,
    followed: Option<FollowedObject>,
    i: int,
    from: Point2,
    radius: int,
)
    requires
        0 <= i < slots.len(),
        is_player(slots[i]),
        !slots[i].character->0.locked,
        nearest(
            tower_data(slots),
            slots[i].transform->0.point(),
            false,
            ENTER_RADIUS as int,
        ) is Some,
    ensures
        ({
            let t = nearest(
                tower_data(slots),
                slots[i].transform->0.point(),
                false,
                ENTER_RADIUS as int,
            )->0;
            let after = activated(slots, followed, i).0;
            &&& 0 <= t < slots.len()
            &&& !holds_active(slots[t])
            &&& holds_active(after[t])
            &&& holds_locked(after[i])
            &&& !in_reach(tower_data(after), t, from, false, radius)
        }),
{
    let data = tower_data(slots);
    lemma_nearest_in_reach(data, slots[i].transform->0.point(), false, ENTER_RADIUS as int);
    let t = nearest(data, slots[i].transform->0.point(), false, ENTER_RADIUS as int)->0;
    assert(data[t] == tower_datum(slots[t]));
    let after = activated(slots, followed, i).0;
    assert(tower_data(after)[t] == tower_datum(after[t]));
}

/// The release of "activate" keeps the difference between the number of
/// characters that sit in towers and the number of towers sat in.
pub proof fn lemma_activated_upto_balance(
    slots: Seq<SlotView>,
    followed: Option<FollowedObject>,
    upto: int,
)
    requires
        0 <= upto <= slots.len(),
    ensures
        activated_upto(slots, followed, upto).0.len() == slots.len(),
        locked_characters(activated_upto(slots, followed, upto).0, slots.len() as int)
            - active_towers(activated_upto(slots, followed, upto).0, slots.len() as int)
            == locked_characters(slots, slots.len() as int) - active_towers(
            slots,
            slots.len() as int,
        ),
    decreases upto,
{
    if upto > 0 {
        lemma_activated_upto_balance(slots, followed, upto - 1);
        let before = activated_upto(slots, followed, upto - 1);
        lemma_activated_balance(before.0, before.1, upto - 1);
    }
}

/// One tick of the player's controls keeps the balance of characters and
/// towers: in a world with as many characters sitting in towers as there
/// are towers sat in, there are as many of the one as of the other after
/// the tick, however many characters enter or leave in it.
pub proof fn lemma_player_controlled_balance(
    slots: Seq<SlotView>,
    followed: Option<FollowedObject>,
    input: InputHandler,
    was_pressed: bool,
)
    ensures
        player_controlled(slots, followed, input, was_pressed).0.len() == slots.len(),
        locked_characters(
            player_controlled(slots, followed, input, was_pressed).0,
            slots.len() as int,
        ) - active_towers(
            player_controlled(slots, followed, input, was_pressed).0,
            slots.len() as int,
        ) == locked_characters(slots, slots.len() as int) - active_towers(
            slots,
            slots.len() as int,
        ),
        locked_characters(slots, slots.len() as int) == active_towers(slots, slots.len() as int)
            ==> locked_characters(
            player_controlled(slots, followed, input, was_pressed).0,
            slots.len() as int,
        ) == active_towers(
            player_controlled(slots, followed, input, was_pressed).0,
            slots.len() as int,
        ),
{
    let moved = steered_all(slots, input);
    lemma_counts_alike(moved, slots, slots.len() as int);
    lemma_activated_upto_balance(moved, followed, moved.len() as int);
}

/// Entering and leaving keep the number of slots.
pub proof fn lemma_activated_len(slots: Seq<SlotView>, followed: Option<FollowedObject>, upto: int)
    requires
        upto <= slots.len(),
    ensures
        activated_upto(slots, followed, upto).0.len() == slots.len(),
    decreases upto,
{
    if upto > 0 {
        lemma_activated_len(slots, followed, upto - 1);
    }
}

/// The nearest tower in reach of `from`, as the towers stand.
fn find_nearest(world: &World, from: Point2, active: bool, radius: i64) -> (r: Option<
    (usize, Point2),
>)
    requires
        radius >= 0,
    ensures
        match r {
            Some((t, pos)) => nearest(tower_data(world@), from, active, radius as int) == Some(
                t as int,
            ) && t < world@.len() && tower_data(world@)[t as int] is Some && pos == tower_data(
                world@,
            )[t as int]->0.pos,
            None => nearest(tower_data(world@), from, active, radius as int) is None,
        },
{
    let n: usize = world.slots.len();
    let ghost data = tower_data(world@);
    let mut best: Option<(usize, u128, Point2)> = None;
    let mut u: usize = 0;
    while u < n
        invariant
            u <= n,
            n == world@.len(),
            data == tower_data(world@),
            radius >= 0,
            match best {
                Some((t, g, pos)) => is_nearest(data, t as int, from, active, radius as int, u as int)
                    && g == gap(data, t as int, from) && pos == data[t as int]->0.pos,
                None => forall|w: int|
                    0 <= w < u ==> !#[trigger] in_reach(data, w, from, active, radius as int),
            },
        decreases n - u,
    {
        let ghost found = best;
        let slot = &world.slots[u];
        assert(data[u as int] == tower_datum(world@[u as int]));
        let mut reached = false;
        if slot.alive {
            if let Some(tower) = slot.tower {
                if let Some(transform) = slot.transform {
                    let pos = transform.translation();
                    let d = pos.minus(from);
                    if tower.active == active && d.within(radius) {
                        let g: u128 = d.norm_squared();
                        reached = true;
                        assert(in_reach(data, u as int, from, active, radius as int));
                        assert(g == gap(data, u as int, from));
                        match best {
                            Some((_, least, _)) => {
                                if g < least {
                                    best = Some((u, g, pos));
                                }
                            },
                            None => {
                                best = Some((u, g, pos));
                            },
                        }
                    }
                }
            }
        }
        proof {
            if !reached {
                assert(!in_reach(data, u as int, from, active, radius as int));
            }
            match best {
                Some((t, g, pos)) => {
                    assert forall|w: int|
                        0 <= w < u + 1 && #[trigger] in_reach(
                            data,
                            w,
                            from,
                            active,
                            radius as int,
                        ) implies gap(data, t as int, from) <= gap(data, w, from) && (w < t
                        ==> gap(data, t as int, from) < gap(data, w, from)) by {
                        if w < u {
                            match found {
                                Some((t0, g0, p0)) => {
                                    assert(is_nearest(
                                        data,
                                        t0 as int,
                                        from,
                                        active,
                                        radius as int,
                                        u as int,
                                    ));
                                },
                                None => {},
                            }
                        }
                    }
                },
                None => {},
            }
        }
        u = u + 1;
    }
    match best {
        Some((t, _, pos)) => {
            proof {
                let k = choose|k: int| is_nearest(data, k, from, active, radius as int, n as int);
                lemma_nearest_unique(data, t as int, k, from, active, radius as int, n as int);
            }
            Some((t, pos))
        },
        None => None,
    }
}

impl PlayerControlSystem {
    pub fn new() -> (s: PlayerControlSystem)
        ensures
            !s.activate_was_pressed,
    {
        PlayerControlSystem { activate_was_pressed: false }
    }

    /// One tick. See `player_controlled`.
    pub fn run(
        &mut self,
        world: &mut World,
        input: &InputHandler,
        followed_object: &mut Option<FollowedObject>,
    )
        ensures
            (final(world)@, *final(followed_object)) == player_controlled(
                old(world)@,
                *old(followed_object),
                *input,
                old(self).activate_was_pressed,
            ),
            final(self).activate_was_pressed == input.down(ActionBinding::Activate),
            well_formed(old(world)@) ==> well_formed(final(world)@),
    {
        let n: usize = world.slots.len();
        let ghost start = world@;
        let mut i: usize = 0;
        while i < n
            invariant
                i <= n,
                n == world@.len(),
                n == start.len(),
                forall|j: int| 0 <= j < i ==> #[trigger] world@[j] == steered(start[j], *input),
                forall|j: int| i <= j < n ==> #[trigger] world@[j] == start[j],
            decreases n - i,
        {
            let ghost before = world@;
            assert(before[i as int] == start[i as int]);
            if let Some(c) = world.slots[i].character {
                if world.slots[i].velocity.is_some() && !c.locked {
                    let forwards = input.axis_value(&AxisBinding::Forwards);
                    let sideways = input.axis_value(&AxisBinding::Sideways);
                    let direction = Vector2 { x: sideways as i64, y: forwards as i64 };
                    world.slots[i].velocity = Some(Velocity { v: direction.with_length(c.speed) });
                }
            }
            assert(forall|j: int| 0 <= j < n && j != i ==> #[trigger] world@[j] == before[j]);
            assert(world@[i as int] == steered(start[i as int], *input));
            i = i + 1;
        }
        assert(world@ =~= steered_all(start, *input));
        let activate_is_pressed = input.action_is_down(&ActionBinding::Activate);
        if !activate_is_pressed && self.activate_was_pressed {
            let ghost moved = world@;
            let ghost followed = *followed_object;
            let mut i: usize = 0;
            while i < n
                invariant
                    i <= n,
                    n == world@.len(),
                    n == moved.len(),
                    (world@, *followed_object) == activated_upto(moved, followed, i as int),
                decreases n - i,
            {
                let ghost before = world@;
                let ghost before_followed = *followed_object;
                let slot = &world.slots[i];
                if slot.alive && slot.velocity.is_some() {
                    if let Some(c) = slot.character {
                        if let Some(transform) = slot.transform {
                            let from = transform.translation();
                            if c.locked {
                                if let Some((t, pos)) = find_nearest(world, from, true, EXIT_RADIUS) {
                                    switch(world, t, false);
                                    world.slots[i].character = Some(
                                        ControlledCharacter { locked: false, speed: c.speed },
                                    );
                                    world.slots[i].transform = Some(
                                        Transform { x: pos.x, y: pos.y, z: FOREGROUND_DEPTH },
                                    );
                                }
                            } else {
                                if let Some((t, pos)) = find_nearest(
                                    world,
                                    from,
                                    false,
                                    ENTER_RADIUS,
                                ) {
                                    switch(world, t, true);
                                    world.slots[i].character = Some(
                                        ControlledCharacter { locked: true, speed: c.speed },
                                    );
                                    world.slots[i].transform = Some(
                                        Transform { x: pos.x, y: pos.y, z: BACKGROUND_DEPTH },
                                    );
                                    world.slots[i].velocity = Some(
                                        Velocity { v: Vector2 { x: 0, y: 0 } },
                                    );
                                    if let Some(f) = *followed_object {
                                        if f.e.id == i {
                                            *followed_object = Some(
                                                FollowedObject { e: f.e, hard_lock: true },
                                            );
                                        }
                                    }
                                }
                            }
                        }
                    }
                }
                assert(world@ =~= activated(before, before_followed, i as int).0);
                assert(*followed_object == activated(before, before_followed, i as int).1);
                i = i + 1;
            }
        }
        self.activate_was_pressed = activate_is_pressed;
        proof {
            if well_formed(old(world)@) {
                lemma_player_controlled_well_formed(
                    old(world)@,
                    *old(followed_object),
                    *input,
                    old(self).activate_was_pressed,
                );
            }
        }
    }
}

/// Sets the state of tower `t`.
fn switch(world: &mut World, t: usize, active: bool)
    requires
        t < old(world)@.len(),
    ensures
        final(world)@ == old(world)@.update(t as int, switched(old(world)@[t as int], active)),
        final(world).slots.len() == old(world).slots.len(),
{
    if let Some(tower) = world.slots[t].tower {
        world.slots[t].tower = Some(
            Tower { dir: tower.dir, sprite_dir: tower.sprite_dir, active },
        );
    }
    assert(world@ =~= old(world)@.update(t as int, switched(old(world)@[t as int], active)));
}

impl Default for PlayerControlSystem {
    fn default() -> (s: PlayerControlSystem)
        ensures
            !s.activate_was_pressed,
    {
        PlayerControlSystem { activate_was_pressed: false }
    }
}

} // verus!
