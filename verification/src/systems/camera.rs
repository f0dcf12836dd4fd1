//! The camera on its leash.

use vstd::prelude::*;
use crate::components::Transform;
use crate::math::{displacement, quotient, saturate, saturated, Point2, Vector2};
use crate::resources::camera::{
    active_is_view, is_first_view, is_view, lemma_first_view_unique, viewing_camera, ActiveCamera,
    FollowedObject,
};
use crate::util::{
    crossing, intersect, lemma_part, lemma_quotient_cancel, lemma_ratio_irreflexive,
    lemma_ratio_order, lemma_ratio_transitive, magnitude, Ratio,
};
use crate::invariants::lemma_camera_followed_well_formed;
use crate::world::{well_formed, SlotView, World};

verus! {

/// The camera stays within this distance of what it follows, to the left
/// and to the right.
pub const LEASH_HALF_WIDTH: i32 = 120000;

/// The camera stays within this distance of what it follows, above and
/// below.
pub const LEASH_HALF_HEIGHT: i32 = 68000;

/// Keeps the camera near the entity that it follows.
#[derive(Clone, Copy, Debug, PartialEq, Eq, Structural)]
pub struct CameraFollowSystem;

/// The four sides of the box around `followed`, in the order in which they
/// are tried: top, bottom, right, left. Each is the line `x = c` (`true`) or
/// `y = c` (`false`).
pub open spec fn leash_side(followed: Point2, k: int) -> (i32, bool) {
    if k == 0 {
        (saturated(followed.y + LEASH_HALF_HEIGHT) as i32, false)
    } else if k == 1 {
        (saturated(followed.y - LEASH_HALF_HEIGHT) as i32, false)
    } else if k == 2 {
        (saturated(followed.x + LEASH_HALF_WIDTH) as i32, true)
    } else {
        (saturated(followed.x - LEASH_HALF_WIDTH) as i32, true)
    }
}

/// Where the way from `followed` to `camera` meets the line `x = c`
/// (`vert`) or `y = c`, if it meets it between the two.
pub open spec fn meeting(camera: Point2, followed: Point2, c: i32, vert: bool) -> Option<
    (Ratio, Point2),
> {
    match crossing(followed, displacement(followed, camera), c, vert) {
        Some((t, at)) => if t.in_unit_interval() {
            Some((t, at))
        } else {
            None
        },
        None => None,
    }
}

/// Where the way from `followed` to `camera` meets side `k` of the box, if
/// it meets it between the two.
pub open spec fn leash_crossing(camera: Point2, followed: Point2, k: int) -> Option<(Ratio, Point2)> {
    let side = leash_side(followed, k);
    meeting(camera, followed, side.0, side.1)
}

/// The nearer of two crossings, the first where they are equally near.
pub open spec fn nearer(best: Option<(Ratio, Point2)>, next: Option<(Ratio, Point2)>) -> Option<
    (Ratio, Point2),
> {
    match next {
        Some((t, at)) => match best {
            Some((least, _)) => if t.less_than(least) {
                next
            } else {
                best
            },
            None => next,
        },
        None => best,
    }
}

/// The crossing nearest to `followed` among those with the first `upto`
/// sides.
pub open spec fn nearest_crossing(camera: Point2, followed: Point2, upto: int) -> Option<
    (Ratio, Point2),
>
    decreases upto,
{
    if upto <= 0 {
        None
    } else {
        nearer(
            nearest_crossing(camera, followed, upto - 1),
            leash_crossing(camera, followed, upto - 1),
        )
    }
}

/// Where the camera belongs. With `hard_lock`, on what it follows. Without,
/// where it is, if the way from what it follows to it crosses no side of
/// the box; else where that way first crosses a side.
pub open spec fn closest_ideal(camera: Point2, followed: Point2, hard_lock: bool) -> Point2 {
    if hard_lock {
        followed
    } else {
        match nearest_crossing(camera, followed, 4) {
            Some((_, at)) => at,
            None => camera,
        }
    }
}

/// The followed entity is there and has a place.
pub open spec fn is_followed(slots: Seq<SlotView>, f: FollowedObject) -> bool {
    f.e.id < slots.len() && slots[f.e.id as int].alive && slots[f.e.id as int].transform is Some
}

/// One tick of the camera: nothing, where nothing is followed, what is
/// followed has no place, or there is no camera; else the viewing camera
/// stands where it belongs, at the depth it had.
pub open spec fn camera_followed(
    slots: Seq<SlotView>,
    followed_object: Option<FollowedObject>,
    active_camera: ActiveCamera,
) -> Seq<SlotView> {
    match followed_object {
        Some(f) => if is_followed(slots, f) {
            match viewing_camera(slots, active_camera) {
                Some(cam) => {
                    let was = slots[cam].transform->0;
                    let at = closest_ideal(
                        was.point(),
                        slots[f.e.id as int].transform->0.point(),
                        f.hard_lock,
                    );
                    slots.update(
                        cam,
                        SlotView { transform: Some(Transform::placed(at, was.z)), ..slots[cam] },
                    )
                },
                None => slots,
            }
        } else {
            slots
        },
        None => slots,
    }
}

/// Side `k` of the box around `followed`.
fn side_of(followed: Point2, k: usize) -> (side: (i32, bool))
    requires
        k < 4,
    ensures
        side == leash_side(followed, k as int),
{
    if k == 0 {
        (saturate(followed.y as i128 + LEASH_HALF_HEIGHT as i128), false)
    } else if k == 1 {
        (saturate(followed.y as i128 - LEASH_HALF_HEIGHT as i128), false)
    } else if k == 2 {
        (saturate(followed.x as i128 + LEASH_HALF_WIDTH as i128), true)
    } else {
        (saturate(followed.x as i128 - LEASH_HALF_WIDTH as i128), true)
    }
}

fn leash_intersect(camera: Point2, followed: Point2, k: usize) -> (r: Option<(Ratio, Point2)>)
    requires
        k < 4,
    ensures
        r == leash_crossing(camera, followed, k as int),
{
    let side = side_of(followed, k);
    match intersect(followed, camera.minus(followed), side.0, side.1) {
        Some((t, at)) => if t.is_in_unit_interval() {
            Some((t, at))
        } else {
            None
        },
        None => None,
    }
}

fn pick_nearer(best: Option<(Ratio, Point2)>, next: Option<(Ratio, Point2)>) -> (r: Option<
    (Ratio, Point2),
>)
    ensures
        r == nearer(best, next),
{
    match next {
        Some((t, at)) => match best {
            Some((least, _)) => if t.is_less_than(&least) {
                next
            } else {
                best
            },
            None => next,
        },
        None => best,
    }
}

impl CameraFollowSystem {
    /// One tick. See `camera_followed`.
    pub fn run(
        &mut self,
        world: &mut World,
        followed_object: &Option<FollowedObject>,
        active_camera: &ActiveCamera,
    )
        ensures
            final(world)@ == camera_followed(old(world)@, *followed_object, *active_camera),
            well_formed(old(world)@) ==> well_formed(final(world)@),
    {
        proof {
            if well_formed(old(world)@) {
                lemma_camera_followed_well_formed(old(world)@, *followed_object, *active_camera);
            }
        }
        let followed = match followed_object {
            Some(f) => *f,
            None => {
                return ;
            },
        };
        if !(followed.e.id < world.slots.len() && world.slots[followed.e.id].alive) {
            return ;
        }
        let followed_position = match world.slots[followed.e.id].transform {
            Some(t) => t.translation(),
            None => {
                return ;
            },
        };
        let cam = match active_camera.viewing(world) {
            Some(e) => e.id,
            None => {
                return ;
            },
        };
        proof {
            lemma_viewing_in_range(world@, *active_camera);
        }
        if let Some(was) = world.slots[cam].transform {
            let at = self.closest_ideal_position(
                was.translation(),
                followed_position,
                followed.hard_lock,
            );
            world.slots[cam].transform = Some(Transform { x: at.x, y: at.y, z: was.z });
            assert(world@ =~= camera_followed(old(world)@, *followed_object, *active_camera));
        }
    }

    /// Where the camera belongs. See `closest_ideal`.
    pub fn closest_ideal_position(
        &self,
        camera_position: Point2,
        followed_position: Point2,
        hard_lock: bool,
    ) -> (at: Point2)
        ensures
            at == closest_ideal(camera_position, followed_position, hard_lock),
    {
        if hard_lock {
            return followed_position;
        }
        let mut best: Option<(Ratio, Point2)> = None;
        let mut k: usize = 0;
        while k < 4
            invariant
                k <= 4,
                best == nearest_crossing(camera_position, followed_position, k as int),
            decreases 4 - k,
        {
            best = pick_nearer(best, leash_intersect(camera_position, followed_position, k));
            k = k + 1;
        }
        match best {
            Some((_, at)) => at,
            None => camera_position,
        }
    }
}

/// A second crossing with a line along the first: given the part `tk` of the
/// way that led to the first crossing, and a parallel line that the way
/// to that crossing meets at `m / tk.num`, while on the whole way it is met
/// no sooner than the first: the two lines are one.
proof fn lemma_same_side(tk: Ratio, m: i64, extent: int)
    requires
        tk.in_unit_interval(),
        tk.num != 0,
        (Ratio { num: m, den: tk.num }).in_unit_interval(),
        (Ratio { num: m, den: tk.den }).in_unit_interval() ==> !(Ratio {
            num: m,
            den: tk.den,
        }).less_than(tk),
    ensures
        m == tk.num,
        quotient(quotient(extent * tk.num, tk.den as int) * m, tk.num as int) == quotient(
            extent * tk.num,
            tk.den as int,
        ),
{
    let whole = Ratio { num: m, den: tk.den };
    assert(whole.in_unit_interval());
    assert(m == tk.num) by (nonlinear_arith)
        requires
            tk.in_unit_interval(),
            tk.num != 0,
            (Ratio { num: m, den: tk.num }).in_unit_interval(),
            !whole.less_than(tk),
            whole == (Ratio { num: m, den: tk.den }),
    ;
    lemma_quotient_cancel(quotient(extent * tk.num, tk.den as int), tk.num as int);
}

/// A second crossing with a line across the first: given the part `tk` of
/// the way that led to the first crossing, which there had come `q` along
/// the other axis, and a line across that the way to the crossing meets at
/// `m / q`, while on the whole way it is met no sooner than the first: the
/// second crossing is the end of the way to the first.
proof fn lemma_cross_side(tk: Ratio, extent: i64, m: i64, q: i64)
    requires
        tk.in_unit_interval(),
        q == quotient(extent * tk.num, tk.den as int),
        q != 0,
        (Ratio { num: m, den: q }).in_unit_interval(),
        extent != 0 && (Ratio { num: m, den: extent }).in_unit_interval() ==> !(Ratio {
            num: m,
            den: extent,
        }).less_than(tk),
    ensures
        m == q,
        quotient(tk.num * m, q as int) == tk.num,
{
    lemma_part(extent as int, tk);
    let whole = Ratio { num: m, den: extent };
    assert(extent != 0);
    assert(whole.in_unit_interval());
    lemma_ratio_order(whole, tk);
    let mm = magnitude(m as int);
    let qq = magnitude(q as int);
    let ee = magnitude(extent as int);
    let nn = magnitude(tk.num as int);
    let dd = magnitude(tk.den as int);
    assert(mm * dd >= nn * ee);
    assert(qq * dd <= ee * nn);
    assert(qq <= mm) by (nonlinear_arith)
        requires
            mm * dd >= nn * ee,
            qq * dd <= ee * nn,
            dd > 0,
    ;
    assert(m == q);
    lemma_quotient_cancel(tk.num as int, q as int);
}

/// Once the camera stands where a side pulled it, every side that the way
/// to it still meets is met there.
proof fn lemma_second_crossing(
    camera: Point2,
    followed: Point2,
    ck: i32,
    vk: bool,
    cj: i32,
    vj: bool,
)
    requires
        meeting(camera, followed, ck, vk) is Some,
        meeting(camera, followed, cj, vj) matches Some(other) ==> !other.0.less_than(
            (meeting(camera, followed, ck, vk)->0).0,
        ),
        meeting((meeting(camera, followed, ck, vk)->0).1, followed, cj, vj) is Some,
    ensures
        (meeting((meeting(camera, followed, ck, vk)->0).1, followed, cj, vj)->0).1 == (meeting(
            camera,
            followed,
            ck,
            vk,
        )->0).1,
{
    let d = displacement(followed, camera);
    let first = meeting(camera, followed, ck, vk)->0;
    let tk = first.0;
    let r = first.1;
    let back = displacement(followed, r);
    if vk {
        lemma_part(d.y as int, tk);
        let q = quotient(d.y * tk.num, tk.den as int);
        assert(r.y == followed.y + q);
        assert(back == (Vector2 { x: tk.num, y: q as i64 }));
        if vj {
            lemma_same_side(tk, (cj - followed.x) as i64, d.y as int);
        } else {
            lemma_cross_side(tk, d.y, (cj - followed.y) as i64, q as i64);
        }
    } else {
        lemma_part(d.x as int, tk);
        let q = quotient(d.x * tk.num, tk.den as int);
        assert(r.x == followed.x + q);
        assert(back == (Vector2 { x: q as i64, y: tk.num }));
        if vj {
            lemma_cross_side(tk, d.x, (cj - followed.x) as i64, q as i64);
        } else {
            lemma_same_side(tk, (cj - followed.y) as i64, d.x as int);
        }
    }
}


/// The crossing chosen among the first `upto` sides is one of them, and
/// none of them is nearer.
proof fn lemma_nearest_least(camera: Point2, followed: Point2, upto: int)
    requires
        0 <= upto <= 4,
    ensures
        match nearest_crossing(camera, followed, upto) {
            Some(best) => {
                &&& best.0.in_unit_interval()
                &&& exists|k: int| 0 <= k < upto && leash_crossing(camera, followed, k) == Some(best)
                &&& forall|j: int|
                    0 <= j < upto && (#[trigger] leash_crossing(camera, followed, j)) is Some ==> !(
                    leash_crossing(camera, followed, j)->0).0.less_than(best.0)
            },
            None => forall|j: int|
                0 <= j < upto ==> (#[trigger] leash_crossing(camera, followed, j)) is None,
        },
    decreases upto,
{
    if upto > 0 {
        lemma_nearest_least(camera, followed, upto - 1);
        let before = nearest_crossing(camera, followed, upto - 1);
        let next = leash_crossing(camera, followed, upto - 1);
        let after = nearest_crossing(camera, followed, upto);
        assert(after == nearer(before, next));
        match next {
            Some(n) => {
                lemma_ratio_irreflexive(n.0);
                match before {
                    Some(b) => {
                        if n.0.less_than(b.0) {
                            assert(after == Some(n));
                            assert forall|j: int|
                                0 <= j < upto && (#[trigger] leash_crossing(
                                    camera,
                                    followed,
                                    j,
                                )) is Some implies !(leash_crossing(
                                camera,
                                followed,
                                j,
                            )->0).0.less_than(n.0) by {
                                if j < upto - 1 {
                                    let o = leash_crossing(camera, followed, j)->0;
                                    lemma_ratio_transitive(o.0, b.0, n.0);
                                }
                            }
                        } else {
                            assert(after == before);
                            let k = choose|k: int|
                                0 <= k < upto - 1 && leash_crossing(camera, followed, k) == Some(b);
                            assert(0 <= k < upto && leash_crossing(camera, followed, k) == Some(b));
                        }
                    },
                    None => {
                        assert(after == Some(n));
                    },
                }
            },
            None => {
                assert(after == before);
                if let Some(b) = before {
                    let k = choose|k: int|
                        0 <= k < upto - 1 && leash_crossing(camera, followed, k) == Some(b);
                    assert(0 <= k < upto && leash_crossing(camera, followed, k) == Some(b));
                }
            },
        }
    }
}

/// `p` is within the leash of a camera that follows `followed`: in the box
/// around `followed`, its sides included.
pub open spec fn on_leash(p: Point2, followed: Point2) -> bool {
    &&& leash_side(followed, 3).0 <= p.x <= leash_side(followed, 2).0
    &&& leash_side(followed, 1).0 <= p.y <= leash_side(followed, 0).0
}

/// The box around `followed` lies wholly in the world: none of its sides
/// is cut off by the edge of the world.
pub open spec fn leash_in_world(followed: Point2) -> bool {
    &&& i32::MIN + LEASH_HALF_WIDTH <= followed.x <= i32::MAX - LEASH_HALF_WIDTH
    &&& i32::MIN + LEASH_HALF_HEIGHT <= followed.y <= i32::MAX - LEASH_HALF_HEIGHT
}

/// Where the nearest crossing is with a side along one axis, the way has not
/// yet passed a side along the other: it has come no farther along the other
/// axis than `limit`, the distance of such a side.
proof fn lemma_within_other_side(tk: Ratio, extent: i64, limit: i64)
    requires
        tk.in_unit_interval(),
        extent != 0 && (Ratio { num: limit, den: extent }).in_unit_interval() ==> !(Ratio {
            num: limit,
            den: extent,
        }).less_than(tk),
    ensures
        limit >= 0 ==> quotient(extent * tk.num, tk.den as int) <= limit,
        limit <= 0 ==> quotient(extent * tk.num, tk.den as int) >= limit,
{
    lemma_part(extent as int, tk);
    let q = quotient(extent * tk.num, tk.den as int);
    if (limit >= 0 && q > limit) || (limit <= 0 && q < limit) {
        let side = Ratio { num: limit, den: extent };
        assert(side.in_unit_interval());
        lemma_ratio_order(side, tk);
        let ll = magnitude(limit as int);
        let qq = magnitude(q);
        let ee = magnitude(extent as int);
        let nn = magnitude(tk.num as int);
        let dd = magnitude(tk.den as int);
        assert(ll * dd >= nn * ee);
        assert(qq * dd <= ee * nn);
        assert(ll < qq);
        assert(false) by (nonlinear_arith)
            requires
                ll * dd >= nn * ee,
                qq * dd <= ee * nn,
                ll < qq,
                dd > 0,
        ;
    }
}

/// The camera is never left beyond its leash: where it belongs is within
/// the box around what it follows, wherever it was.
pub proof fn lemma_leash_holds(camera: Point2, followed: Point2, hard_lock: bool)
    ensures
        on_leash(closest_ideal(camera, followed, hard_lock), followed),
{
    if !hard_lock {
        lemma_nearest_least(camera, followed, 4);
        let d = displacement(followed, camera);
        match nearest_crossing(camera, followed, 4) {
            Some(best) => {
                let k = choose|k: int|
                    0 <= k < 4 && leash_crossing(camera, followed, k) == Some(best);
                let tk = best.0;
                if k < 2 {
                    lemma_part(d.x as int, tk);
                    lemma_within_other_side(
                        tk,
                        d.x,
                        (leash_side(followed, 2).0 - followed.x) as i64,
                    );
                    lemma_within_other_side(
                        tk,
                        d.x,
                        (leash_side(followed, 3).0 - followed.x) as i64,
                    );
                } else {
                    lemma_part(d.y as int, tk);
                    lemma_within_other_side(
                        tk,
                        d.y,
                        (leash_side(followed, 0).0 - followed.y) as i64,
                    );
                    lemma_within_other_side(
                        tk,
                        d.y,
                        (leash_side(followed, 1).0 - followed.y) as i64,
                    );
                }
            },
            None => {
                assert(leash_crossing(camera, followed, 0) is None);
                assert(leash_crossing(camera, followed, 1) is None);
                assert(leash_crossing(camera, followed, 2) is None);
                assert(leash_crossing(camera, followed, 3) is None);
            },
        }
    }
}

/// A camera within its leash is left where it is, as long as the box
/// around what it follows lies wholly in the world.
pub proof fn lemma_leash_keeps(camera: Point2, followed: Point2)
    requires
        on_leash(camera, followed),
        leash_in_world(followed),
    ensures
        closest_ideal(camera, followed, false) == camera,
{
    lemma_nearest_least(camera, followed, 4);
    if let Some(best) = nearest_crossing(camera, followed, 4) {
        let k = choose|k: int| 0 <= k < 4 && leash_crossing(camera, followed, k) == Some(best);
        let d = displacement(followed, camera);
        let tk = best.0;
        assert(tk.num == tk.den);
        if k < 2 {
            lemma_quotient_cancel(d.x as int, tk.num as int);
        } else {
            lemma_quotient_cancel(d.y as int, tk.num as int);
        }
    }
}

/// A camera that stands where it belongs stays there: to ask twice where it
/// belongs is to ask once.
pub proof fn lemma_closest_ideal_idempotent(camera: Point2, followed: Point2, hard_lock: bool)
    ensures
        closest_ideal(closest_ideal(camera, followed, hard_lock), followed, hard_lock)
            == closest_ideal(camera, followed, hard_lock),
{
    if !hard_lock {
        lemma_nearest_least(camera, followed, 4);
        if let Some(best) = nearest_crossing(camera, followed, 4) {
            let at = best.1;
            assert(at == closest_ideal(camera, followed, hard_lock));
            let k = choose|k: int| 0 <= k < 4 && leash_crossing(camera, followed, k) == Some(best);
            let side = leash_side(followed, k);
            lemma_nearest_least(at, followed, 4);
            if let Some(again) = nearest_crossing(at, followed, 4) {
                let j = choose|j: int| 0 <= j < 4 && leash_crossing(at, followed, j) == Some(again);
                let other = leash_side(followed, j);
                assert(leash_crossing(camera, followed, j) is Some ==> !(leash_crossing(
                    camera,
                    followed,
                    j,
                )->0).0.less_than(best.0));
                lemma_second_crossing(camera, followed, side.0, side.1, other.0, other.1);
            }
        }
    }
}

/// A camera on what it follows belongs where it is.
pub proof fn lemma_closest_ideal_at_rest(p: Point2, hard_lock: bool)
    ensures
        closest_ideal(p, p, hard_lock) == p,
{
    reveal_with_fuel(nearest_crossing, 5);
}

/// The camera system changes neither what is alive nor which components an
/// entity has, and so not which camera the world is seen through.
proof fn lemma_camera_keeps_view(
    slots: Seq<SlotView>,
    followed_object: Option<FollowedObject>,
    active_camera: ActiveCamera,
)
    ensures
        camera_followed(slots, followed_object, active_camera).len() == slots.len(),
        viewing_camera(camera_followed(slots, followed_object, active_camera), active_camera)
            == viewing_camera(slots, active_camera),
        forall|i: int|
            0 <= i < slots.len() ==> is_view(
                #[trigger] camera_followed(slots, followed_object, active_camera)[i],
            ) == is_view(slots[i]) && camera_followed(slots, followed_object, active_camera)[i].alive
                == slots[i].alive && (camera_followed(
                slots,
                followed_object,
                active_camera,
            )[i].transform is Some) == (slots[i].transform is Some),
{
    let after = camera_followed(slots, followed_object, active_camera);
    lemma_viewing_in_range(slots, active_camera);
    assert(after.len() == slots.len());
    assert forall|i: int| 0 <= i < slots.len() implies is_view(#[trigger] after[i]) == is_view(
        slots[i],
    ) && after[i].alive == slots[i].alive && (after[i].transform is Some) == (
    slots[i].transform is Some) by {}
    assert(active_is_view(after, active_camera) == active_is_view(slots, active_camera));
    if !active_is_view(slots, active_camera) {
        assert forall|i: int| is_first_view(after, i) == is_first_view(slots, i) by {
            if 0 <= i < slots.len() {
                assert(is_view(after[i]) == is_view(slots[i]));
                if is_first_view(slots, i) {
                    assert forall|j: int| 0 <= j < i implies !is_view(#[trigger] after[j]) by {
                        assert(is_view(after[j]) == is_view(slots[j]));
                    }
                }
                if is_first_view(after, i) {
                    assert forall|j: int| 0 <= j < i implies !is_view(#[trigger] slots[j]) by {
                        assert(is_view(after[j]) == is_view(slots[j]));
                    }
                }
            }
        }
        if exists|i: int| is_first_view(slots, i) {
            let a = choose|i: int| is_first_view(slots, i);
            assert(is_first_view(after, a));
            let b = choose|i: int| is_first_view(after, i);
            assert(is_first_view(slots, b));
            lemma_first_view_unique(slots, a, b);
        }
    }
}

/// The viewing camera is a slot of the world and a placed camera.
pub proof fn lemma_viewing_in_range(slots: Seq<SlotView>, active_camera: ActiveCamera)
    ensures
        viewing_camera(slots, active_camera) matches Some(cam) ==> 0 <= cam < slots.len()
            && is_view(slots[cam]),
{
    if !active_is_view(slots, active_camera) {
        if exists|i: int| is_first_view(slots, i) {
            let a = choose|i: int| is_first_view(slots, i);
            assert(is_first_view(slots, a));
        }
    }
}

/// To run the camera system twice, with nothing changed in between, is to
/// run it once: the second run moves nothing.
pub proof fn lemma_camera_follow_idempotent(
    slots: Seq<SlotView>,
    followed_object: Option<FollowedObject>,
    active_camera: ActiveCamera,
)
    ensures
        camera_followed(
            camera_followed(slots, followed_object, active_camera),
            followed_object,
            active_camera,
        ) == camera_followed(slots, followed_object, active_camera),
{
    let once = camera_followed(slots, followed_object, active_camera);
    let twice = camera_followed(once, followed_object, active_camera);
    lemma_camera_keeps_view(slots, followed_object, active_camera);
    lemma_viewing_in_range(slots, active_camera);
    if let Some(f) = followed_object {
        if is_followed(slots, f) {
            assert(is_followed(once, f));
            if let Some(cam) = viewing_camera(slots, active_camera) {
                let was = slots[cam].transform->0;
                let target = slots[f.e.id as int].transform->0.point();
                let at = closest_ideal(was.point(), target, f.hard_lock);
                lemma_closest_ideal_idempotent(was.point(), target, f.hard_lock);
                if f.e.id == cam {
                    lemma_closest_ideal_at_rest(target, f.hard_lock);
                }
                assert(once[cam].transform->0 == Transform::placed(at, was.z));
                assert(once[f.e.id as int].transform->0.point() == if f.e.id == cam {
                    at
                } else {
                    target
                });
                assert(twice =~= once);
            }
        } else {
            assert(!is_followed(once, f));
        }
    }
}

} // verus!
