//! Bullets against what they can hit.

use vstd::prelude::*;
use crate::components::{Bullet, Hitable, Velocity};
use crate::math::{displacement, norm_squared, rescaled, saturate, saturated, Point2, Vector2};
use crate::util::{holds, lemma_entry_is_seen, rectangle_entered, rectangle_line_intersect, Rect};
use crate::invariants::lemma_bullets_well_formed;
use crate::world::{well_formed, SlotView, World};

verus! {

/// What can be hit fills a square of this half-extent around its place.
pub const HIT_HALF_EXTENT: i32 = 16000;

/// A bullet farther than this from the origin has left the world.
pub const WORLD_RADIUS: i64 = 1000000;

/// Lets bullets hit, and ends those that have hit or have left the world.
#[derive(Clone, Copy, Debug, PartialEq, Eq, Structural)]
pub struct BulletSystem;

/// A living, placed entity with health.
pub open spec fn is_target(s: SlotView) -> bool {
    s.alive && s.transform is Some && s.hitable is Some
}

/// A living, placed bullet with a velocity.
pub open spec fn is_bullet(s: SlotView) -> bool {
    s.alive && s.transform is Some && s.velocity is Some && s.bullet is Some
}

/// The square that `s` fills.
pub open spec fn hit_box(s: SlotView) -> Rect {
    Rect::around(s.transform->0.point(), HIT_HALF_EXTENT as int)
}

/// The way from `from` to `to` crosses a side of the square of target `s`.
pub open spec fn struck(s: SlotView, from: Point2, to: Point2) -> bool {
    is_target(s) && rectangle_entered(from, displacement(from, to), hit_box(s))
}

/// `h` is the first slot that the way from `from` to `to` strikes.
pub open spec fn is_first_struck(slots: Seq<SlotView>, h: int, from: Point2, to: Point2) -> bool {
    &&& 0 <= h < slots.len()
    &&& struck(slots[h], from, to)
    &&& forall|j: int| 0 <= j < h ==> !struck(#[trigger] slots[j], from, to)
}

/// The first slot struck, if one is: the first in the order of the store,
/// not the nearest.
pub open spec fn first_struck(slots: Seq<SlotView>, from: Point2, to: Point2) -> Option<int> {
    if exists|h: int| is_first_struck(slots, h, from, to) {
        Some(choose|h: int| is_first_struck(slots, h, from, to))
    } else {
        None
    }
}

/// A target after a hit of `hitpoints`: its health is less by that much, and
/// at zero or below it is doomed.
pub open spec fn damaged(s: SlotView, hitpoints: i32) -> SlotView {
    match s.hitable {
        Some(hitable) => {
            let health = saturated(hitable.health - hitpoints) as i32;
            SlotView { hitable: Some(Hitable { health }), doomed: s.doomed || health <= 0, ..s }
        },
        None => s,
    }
}

/// `p` lies farther than `WORLD_RADIUS` from the origin.
pub open spec fn off_world(p: Point2) -> bool {
    norm_squared(displacement(Point2 { x: 0, y: 0 }, p)) > WORLD_RADIUS * WORLD_RADIUS
}

/// A bullet that has hit nothing: it flies on in its direction at its own
/// speed, remembers where it is, and is doomed if it has left the world.
pub open spec fn flown(s: SlotView) -> SlotView {
    let bullet = s.bullet->0;
    let place = s.transform->0.point();
    SlotView {
        velocity: Some(Velocity { v: rescaled(s.velocity->0.v, bullet.speed as int) }),
        bullet: Some(Bullet { last_position: Some(place), ..bullet }),
        doomed: s.doomed || off_world(place),
        ..s
    }
}

/// What a moving bullet with a remembered place strikes on its way from
/// there to where it is now; another bullet strikes nothing.
pub open spec fn target_of(slots: Seq<SlotView>, b: int) -> Option<int> {
    let s = slots[b];
    if s.velocity->0.v != (Vector2 { x: 0, y: 0 }) && s.bullet->0.last_position is Some {
        first_struck(slots, s.bullet->0.last_position->0, s.transform->0.point())
    } else {
        None
    }
}

/// The tick of slot `b`. A bullet that strikes a target takes its hitpoints
/// from the target's health and is doomed, and so is the target if its
/// health is then zero or below. A bullet that strikes nothing flies on.
/// Slots that hold no bullet change nothing.
pub open spec fn bullet_step(slots: Seq<SlotView>, b: int) -> Seq<SlotView> {
    let s = slots[b];
    if !is_bullet(s) {
        slots
    } else {
        match target_of(slots, b) {
            Some(h) => {
                let after = slots.update(h, damaged(slots[h], s.bullet->0.hitpoints));
                after.update(b, SlotView { doomed: true, ..after[b] })
            },
            None => slots.update(b, flown(s)),
        }
    }
}

/// The ticks of the first `upto` slots, in order.
pub open spec fn bullets_upto(slots: Seq<SlotView>, upto: int) -> Seq<SlotView>
    decreases upto,
{
    if upto <= 0 {
        slots
    } else {
        bullet_step(bullets_upto(slots, upto - 1), upto - 1)
    }
}

/// There is one first slot struck at most.
pub proof fn lemma_first_struck_unique(slots: Seq<SlotView>, a: int, b: int, from: Point2, to: Point2)
    requires
        is_first_struck(slots, a, from, to),
        is_first_struck(slots, b, from, to),
    ensures
        a == b,
{
}

/// The tick of a slot keeps the number of slots.
pub proof fn lemma_bullet_step_len(slots: Seq<SlotView>, b: int)
    requires
        0 <= b < slots.len(),
    ensures
        bullet_step(slots, b).len() == slots.len(),
{
    if is_bullet(slots[b]) {
        let s = slots[b];
        if s.velocity->0.v != (Vector2 { x: 0, y: 0 }) && s.bullet->0.last_position is Some {
            let from = s.bullet->0.last_position->0;
            let to = s.transform->0.point();
            if exists|h: int| is_first_struck(slots, h, from, to) {
                let h = choose|h: int| is_first_struck(slots, h, from, to);
                assert(0 <= h < slots.len());
            }
        }
    }
}

fn find_struck(world: &World, from: Point2, to: Point2) -> (r: Option<usize>)
    ensures
        match r {
            Some(h) => first_struck(world@, from, to) == Some(h as int) && h < world@.len(),
            None => first_struck(world@, from, to) is None,
        },
{
    let n: usize = world.slots.len();
    let way = to.minus(from);
    let mut h: usize = 0;
    while h < n
        invariant
            h <= n,
            n == world@.len(),
            way == displacement(from, to),
            forall|j: int| 0 <= j < h ==> !struck(#[trigger] world@[j], from, to),
        decreases n - h,
    {
        let slot = &world.slots[h];
        if slot.alive && slot.hitable.is_some() {
            if let Some(transform) = slot.transform {
                if rectangle_line_intersect(
                    from,
                    way,
                    Rect::centered(transform.translation(), HIT_HALF_EXTENT),
                ) {
                    proof {
                        assert(is_first_struck(world@, h as int, from, to));
                        let k = choose|k: int| is_first_struck(world@, k, from, to);
                        lemma_first_struck_unique(world@, h as int, k, from, to);
                    }
                    return Some(h);
                }
            }
        }
        h = h + 1;
    }
    assert(forall|k: int| !is_first_struck(world@, k, from, to));
    None
}

impl BulletSystem {
    /// One tick: the tick of every slot, in the order of the store. Targets
    /// are struck where they stand when the system starts; nothing moves
    /// while it runs.
    pub fn run(&mut self, world: &mut World)
        ensures
            final(world)@ == bullets_upto(old(world)@, old(world)@.len() as int),
            final(world)@.len() == old(world)@.len(),
            well_formed(old(world)@) ==> well_formed(final(world)@),
    {
        let n: usize = world.slots.len();
        let ghost start = world@;
        let mut b: usize = 0;
        while b < n
            invariant
                b <= n,
                n == world@.len(),
                world@ == bullets_upto(start, b as int),
            decreases n - b,
        {
            let ghost before = world@;
            proof {
                lemma_bullet_step_len(before, b as int);
            }
            let slot = &world.slots[b];
            if slot.alive {
                if let Some(transform) = slot.transform {
                    if let Some(velocity) = slot.velocity {
                        if let Some(bullet) = slot.bullet {
                            let place = transform.translation();
                            let mut target: Option<usize> = None;
                            if !velocity.v.is_zero() {
                                if let Some(last_position) = bullet.last_position {
                                    target = find_struck(world, last_position, place);
                                }
                            }
                            assert(match target {
                                Some(h) => target_of(before, b as int) == Some(h as int),
                                None => target_of(before, b as int) is None,
                            });
                            match target {
                                Some(h) => {
                                    if let Some(hitable) = world.slots[h].hitable {
                                        let health: i32 = saturate(
                                            hitable.health as i128 - bullet.hitpoints as i128,
                                        );
                                        world.slots[h].hitable = Some(Hitable { health });
                                        if health <= 0 {
                                            world.slots[h].doomed = true;
                                        }
                                    }
                                    world.slots[b].doomed = true;
                                },
                                None => {
                                    world.slots[b].velocity = Some(
                                        Velocity { v: velocity.v.with_length(bullet.speed) },
                                    );
                                    let beyond = !Vector2 {
                                        x: place.x as i64,
                                        y: place.y as i64,
                                    }.within(WORLD_RADIUS);
                                    if beyond {
                                        world.slots[b].doomed = true;
                                    }
                                    world.slots[b].bullet = Some(
                                        Bullet {
                                            speed: bullet.speed,
                                            hitpoints: bullet.hitpoints,
                                            last_position: Some(place),
                                        },
                                    );
                                },
                            }
                        }
                    }
                }
            }
            assert(world@ =~= bullet_step(before, b as int));
            b = b + 1;
        }
        proof {
            if well_formed(start) {
                lemma_bullets_well_formed(start, n as int);
            }
        }
    }
}


/// Two slots stand alike: alive or not, in the same place, with or without
/// health. What can be struck depends on no more.
pub open spec fn same_standing(a: SlotView, b: SlotView) -> bool {
    &&& a.alive == b.alive
    &&& a.transform == b.transform
    &&& (a.hitable is Some) == (b.hitable is Some)
}

/// Two slots are of a kind: they stand alike and hold the same kinds of
/// component.
pub open spec fn same_kind(a: SlotView, b: SlotView) -> bool {
    &&& same_standing(a, b)
    &&& (a.velocity is Some) == (b.velocity is Some)
    &&& (a.bullet is Some) == (b.bullet is Some)
    &&& a.guided == b.guided
    &&& a.character == b.character
    &&& a.tower == b.tower
    &&& a.camera == b.camera
    &&& a.sprite == b.sprite
}

/// Two worlds whose slots are of a kind, one by one.
pub open spec fn standing_alike(a: Seq<SlotView>, b: Seq<SlotView>) -> bool {
    &&& a.len() == b.len()
    &&& forall|i: int| 0 <= i < a.len() ==> same_kind(#[trigger] a[i], b[i])
}

/// The first slot struck, if any, is a slot.
pub proof fn lemma_first_struck_in_range(slots: Seq<SlotView>, from: Point2, to: Point2)
    ensures
        first_struck(slots, from, to) matches Some(h) ==> is_first_struck(slots, h, from, to),
        first_struck(slots, from, to) is None ==> forall|j: int|
            0 <= j < slots.len() ==> !struck(#[trigger] slots[j], from, to),
{
    if !(exists|h: int| is_first_struck(slots, h, from, to)) {
        lemma_none_struck(slots, from, to, slots.len() as int);
    }
}

/// Where no slot is the first struck, none of the first `upto` is struck.
proof fn lemma_none_struck(slots: Seq<SlotView>, from: Point2, to: Point2, upto: int)
    requires
        forall|h: int| !is_first_struck(slots, h, from, to),
        0 <= upto <= slots.len(),
    ensures
        forall|j: int| 0 <= j < upto ==> !struck(#[trigger] slots[j], from, to),
    decreases upto,
{
    if upto > 0 {
        lemma_none_struck(slots, from, to, upto - 1);
        assert(!is_first_struck(slots, upto - 1, from, to));
    }
}

/// In worlds whose slots stand alike, a way strikes the same slot.
pub proof fn lemma_struck_alike(a: Seq<SlotView>, b: Seq<SlotView>, from: Point2, to: Point2)
    requires
        standing_alike(a, b),
    ensures
        first_struck(a, from, to) == first_struck(b, from, to),
{
    lemma_first_struck_in_range(a, from, to);
    lemma_first_struck_in_range(b, from, to);
    assert forall|j: int| 0 <= j < a.len() implies struck(#[trigger] a[j], from, to) == struck(
        b[j],
        from,
        to,
    ) by {
        assert(same_standing(a[j], b[j]));
    }
    match first_struck(a, from, to) {
        Some(h) => {
            assert(struck(b[h], from, to));
            assert forall|j: int| 0 <= j < h implies !struck(#[trigger] b[j], from, to) by {
                assert(struck(a[j], from, to) == struck(b[j], from, to));
            }
            assert(is_first_struck(b, h, from, to));
            let k = choose|k: int| is_first_struck(b, k, from, to);
            lemma_first_struck_unique(b, h, k, from, to);
        },
        None => {
            assert forall|k: int| !is_first_struck(b, k, from, to) by {
                if 0 <= k < b.len() {
                    assert(struck(a[k], from, to) == struck(b[k], from, to));
                }
            }
        },
    }
}

/// The tick of a slot leaves every slot of the kind it was, takes no doom
/// back, and changes the flight of no bullet but its own.
pub proof fn lemma_bullet_step_frame(slots: Seq<SlotView>, b: int)
    requires
        0 <= b < slots.len(),
    ensures
        standing_alike(bullet_step(slots, b), slots),
        forall|i: int|
            0 <= i < slots.len() ==> (slots[i].doomed ==> (#[trigger] bullet_step(
                slots,
                b,
            )[i]).doomed),
        forall|i: int|
            0 <= i < slots.len() && i != b ==> (#[trigger] bullet_step(slots, b)[i]).velocity
                == slots[i].velocity && bullet_step(slots, b)[i].bullet == slots[i].bullet,
        forall|i: int|
            0 <= i < slots.len() ==> ({
                let was = slots[i];
                let now = #[trigger] bullet_step(slots, b)[i];
                now.hitable != was.hitable && now.hitable->0.health <= 0 ==> now.doomed
            }),
{
    lemma_bullet_step_len(slots, b);
    let s = slots[b];
    if is_bullet(s) {
        if s.velocity->0.v != (Vector2 { x: 0, y: 0 }) && s.bullet->0.last_position is Some {
            lemma_first_struck_in_range(slots, s.bullet->0.last_position->0, s.transform->0.point());
        }
    }
}

/// While the bullets take their turn, every slot stays of the kind it was
/// when the first began, no doom is taken back, health at zero or below
/// dooms at once, and a bullet whose turn is still to come flies as it flew.
pub proof fn lemma_bullets_frame(slots: Seq<SlotView>, upto: int)
    requires
        0 <= upto <= slots.len(),
    ensures
        standing_alike(bullets_upto(slots, upto), slots),
        forall|i: int|
            0 <= i < slots.len() ==> (slots[i].doomed ==> (#[trigger] bullets_upto(
                slots,
                upto,
            )[i]).doomed),
        forall|i: int|
            upto <= i < slots.len() ==> (#[trigger] bullets_upto(slots, upto)[i]).velocity
                == slots[i].velocity && bullets_upto(slots, upto)[i].bullet == slots[i].bullet,
        forall|i: int|
            0 <= i < slots.len() ==> ({
                let was = slots[i];
                let now = #[trigger] bullets_upto(slots, upto)[i];
                now.hitable != was.hitable && now.hitable->0.health <= 0 ==> now.doomed
            }),
    decreases upto,
{
    if upto > 0 {
        lemma_bullets_frame(slots, upto - 1);
        let before = bullets_upto(slots, upto - 1);
        lemma_bullet_step_frame(before, upto - 1);
        let after = bullet_step(before, upto - 1);
        assert(after == bullets_upto(slots, upto));
        assert forall|i: int| 0 <= i < slots.len() implies same_kind(
            #[trigger] after[i],
            slots[i],
        ) by {
            assert(same_kind(after[i], before[i]));
            assert(same_kind(before[i], slots[i]));
        }
        assert forall|i: int| 0 <= i < slots.len() implies (slots[i].doomed ==> (
        #[trigger] after[i]).doomed) by {
            assert(slots[i].doomed ==> before[i].doomed);
            assert(before[i].doomed ==> after[i].doomed);
        }
        assert forall|i: int| upto <= i < slots.len() implies (#[trigger] after[i]).velocity
            == slots[i].velocity && after[i].bullet == slots[i].bullet by {
            assert(after[i].velocity == before[i].velocity && after[i].bullet == before[i].bullet);
            assert(before[i].velocity == slots[i].velocity && before[i].bullet == slots[i].bullet);
        }
        assert forall|i: int| 0 <= i < slots.len() implies ({
            let was = slots[i];
            let now = #[trigger] after[i];
            now.hitable != was.hitable && now.hitable->0.health <= 0 ==> now.doomed
        }) by {
            let mid = before[i];
            let now = after[i];
            assert(now.hitable != mid.hitable && now.hitable->0.health <= 0 ==> now.doomed);
            assert(mid.hitable != slots[i].hitable && mid.hitable->0.health <= 0 ==> mid.doomed);
            assert(mid.doomed ==> now.doomed);
        }
    }
}

/// What a bullet strikes is settled when the system starts: the turns of
/// the bullets before it change nothing of it.
pub proof fn lemma_target_settled(slots: Seq<SlotView>, b: int)
    requires
        0 <= b < slots.len(),
    ensures
        is_bullet(bullets_upto(slots, b)[b]) == is_bullet(slots[b]),
        is_bullet(slots[b]) ==> target_of(bullets_upto(slots, b), b) == target_of(slots, b),
{
    lemma_bullets_frame(slots, b);
    let before = bullets_upto(slots, b);
    assert(same_standing(before[b], slots[b]));
    assert(before[b].velocity == slots[b].velocity && before[b].bullet == slots[b].bullet);
    if is_bullet(slots[b]) {
        let s = slots[b];
        if s.velocity->0.v != (Vector2 { x: 0, y: 0 }) && s.bullet->0.last_position is Some {
            lemma_struck_alike(
                before,
                slots,
                s.bullet->0.last_position->0,
                s.transform->0.point(),
            );
        }
    }
}

/// The fate of a bullet in a tick. One that strikes a target is doomed, and
/// flies as it flew. One that strikes nothing flies on at its own speed from
/// where it is, which it remembers, and is doomed if it has left the world.
/// So a bullet that lives on has a remembered place.
pub proof fn lemma_bullet_fate(slots: Seq<SlotView>, b: int)
    requires
        0 <= b < slots.len(),
        is_bullet(slots[b]),
    ensures
        ({
            let was = slots[b];
            let now = bullets_upto(slots, slots.len() as int)[b];
            &&& is_bullet(now)
            &&& match target_of(slots, b) {
                Some(h) => now.doomed && now.velocity == was.velocity && now.bullet == was.bullet,
                None => now.velocity == flown(was).velocity && now.bullet == flown(was).bullet && (
                flown(was).doomed ==> now.doomed),
            }
            &&& !now.doomed ==> now.bullet->0.last_position == Some(was.transform->0.point())
        }),
{
    lemma_target_settled(slots, b);
    lemma_bullets_frame(slots, b);
    let before = bullets_upto(slots, b);
    let after = bullet_step(before, b);
    assert(after == bullets_upto(slots, b + 1));
    assert(before[b].velocity == slots[b].velocity && before[b].bullet == slots[b].bullet);
    assert(same_standing(before[b], slots[b]));
    lemma_bullet_step_len(before, b);
    if let Some(h) = target_of(before, b) {
        let s = before[b];
        lemma_first_struck_in_range(before, s.bullet->0.last_position->0, s.transform->0.point());
        assert(0 <= h < before.len());
    }
    lemma_bullets_rest(slots, b + 1, slots.len() as int, b);
}

/// The turns from `from` to `upto` change the flight of no bullet whose
/// turn came before, and take no doom back.
proof fn lemma_bullets_rest(slots: Seq<SlotView>, from: int, upto: int, i: int)
    requires
        0 <= i < from <= upto <= slots.len(),
    ensures
        bullets_upto(slots, upto).len() == slots.len(),
        bullets_upto(slots, upto)[i].velocity == bullets_upto(slots, from)[i].velocity,
        bullets_upto(slots, upto)[i].bullet == bullets_upto(slots, from)[i].bullet,
        same_standing(bullets_upto(slots, upto)[i], bullets_upto(slots, from)[i]),
        bullets_upto(slots, from)[i].doomed ==> bullets_upto(slots, upto)[i].doomed,
    decreases upto - from,
{
    lemma_bullets_frame(slots, upto);
    lemma_bullets_frame(slots, from);
    if upto > from {
        lemma_bullets_rest(slots, from, upto - 1, i);
        let before = bullets_upto(slots, upto - 1);
        lemma_bullet_step_frame(before, upto - 1);
        assert(bullet_step(before, upto - 1) == bullets_upto(slots, upto));
        assert(same_standing(bullets_upto(slots, upto)[i], before[i]));
    }
}

/// No bullet passes into a target unseen: a moving bullet that was outside
/// the square of a target when the tick before ended, and is in it now,
/// strikes a target in this tick.
pub proof fn lemma_bullet_cannot_pass(slots: Seq<SlotView>, b: int, h: int)
    requires
        0 <= b < slots.len(),
        0 <= h < slots.len(),
        is_bullet(slots[b]),
        is_target(slots[h]),
        slots[b].velocity->0.v != (Vector2 { x: 0, y: 0 }),
        slots[b].bullet->0.last_position matches Some(from) && !holds(hit_box(slots[h]), from),
        holds(hit_box(slots[h]), slots[b].transform->0.point()),
    ensures
        target_of(slots, b) is Some,
{
    let from = slots[b].bullet->0.last_position->0;
    let to = slots[b].transform->0.point();
    lemma_entry_is_seen(from, to, hit_box(slots[h]));
    assert(struck(slots[h], from, to));
    lemma_first_struck_in_range(slots, from, to);
}

} // verus!
