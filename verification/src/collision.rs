use vstd::prelude::*;

verus! {

use crate::creature::CreatureModel;
use crate::math::{
    accel_add, accel_add_spec, dist2, dist2_i64, iabs, isqrt, lemma_sqrt_floor_bracket,
    lemma_sqrt_floor_component, lemma_sqrt_floor_le, scale_dir, scaled, sqrt_floor, square_nn,
};
use crate::params::{RADIUS_LIMIT, REPULSION_LIMIT};
use crate::world::{lemma_world_view_index, World, WorldModel};

/// One overlap found this tick, with both arena indices (`a < b`) and the
/// pre-resolution hitbox radii of both sides.
#[derive(Clone, Copy, Debug, PartialEq, Eq, Structural)]
pub struct CollisionEvent {
    pub a: usize,
    pub b: usize,
    pub size_a: i64,
    pub size_b: i64,
}

/// Two living creatures overlap when their distance is positive but
/// smaller than the sum of their hitbox radii.  A distance of exactly zero
/// gives no measurable direction and is no overlap.  Squared comparisons
/// are exact for both thresholds.
pub open spec fn overlapping(w: WorldModel, i: int, j: int) -> bool {
    let ci = w.creatures[i];
    let cj = w.creatures[j];
    let md = ci.hitbox_radius + cj.hitbox_radius;
    &&& 0 <= i < w.creatures.len()
    &&& 0 <= j < w.creatures.len()
    &&& i != j
    &&& ci.alive
    &&& cj.alive
    &&& 0 < dist2(ci.x, ci.y, cj.x, cj.y)
    &&& dist2(ci.x, ci.y, cj.x, cj.y) < md * md
}

/// The event an overlapping pair emits.
pub open spec fn pair_event(w: WorldModel, i: int, j: int) -> CollisionEvent {
    CollisionEvent {
        a: i as usize,
        b: j as usize,
        size_a: w.creatures[i].hitbox_radius as i64,
        size_b: w.creatures[j].hitbox_radius as i64,
    }
}

/// The world after the repulsion of the pair `(i, j)` is applied.  Each
/// movable side is pushed away from the other along their connecting
/// direction, by `(min_dist - dist) * `the *other* side's repulsion
/// strength; an immovable side absorbs no force.  A non-overlapping pair
/// leaves the world unchanged.
pub open spec fn apply_pair(w: WorldModel, i: int, j: int) -> WorldModel {
    if !overlapping(w, i, j) {
        w
    } else {
        let ci = w.creatures[i];
        let cj = w.creatures[j];
        let d2 = dist2(ci.x, ci.y, cj.x, cj.y);
        let dist = sqrt_floor(d2);
        let amt = ci.hitbox_radius + cj.hitbox_radius - dist;
        let dx = cj.x - ci.x;
        let dy = cj.y - ci.y;
        let ci2 = if ci.movable {
            CreatureModel {
                ax: accel_add_spec(ci.ax, scaled(-dx, amt * cj.hitbox_repulsion, dist)),
                ay: accel_add_spec(ci.ay, scaled(-dy, amt * cj.hitbox_repulsion, dist)),
                ..ci
            }
        } else {
            ci
        };
        let cj2 = if cj.movable {
            CreatureModel {
                ax: accel_add_spec(cj.ax, scaled(dx, amt * ci.hitbox_repulsion, dist)),
                ay: accel_add_spec(cj.ay, scaled(dy, amt * ci.hitbox_repulsion, dist)),
                ..cj
            }
        } else {
            cj
        };
        WorldModel { creatures: w.creatures.update(i, ci2).update(j, cj2), ..w }
    }
}

/// The world after the pairs `(i, i+1) .. (i, j-1)` are applied in order.
pub open spec fn sweep_row(w: WorldModel, i: int, j: int) -> WorldModel
    decreases j - i,
{
    if j <= i + 1 {
        w
    } else {
        apply_pair(sweep_row(w, i, j - 1), i, j - 1)
    }
}

/// The world after all rows before `i` are applied: every unordered pair
/// `(p, q)` with `p < q < len` and `p < i`, in ascending order.
pub open spec fn sweep(w: WorldModel, i: int) -> WorldModel
    decreases i,
{
    if i <= 0 {
        w
    } else {
        let w1 = sweep(w, i - 1);
        sweep_row(w1, i - 1, w1.creatures.len() as int)
    }
}

/// The events of row `i` against candidates below `j`, judged on `w`.
pub open spec fn events_row(w: WorldModel, i: int, j: int) -> Seq<CollisionEvent>
    decreases j - i,
{
    if j <= i + 1 {
        Seq::empty()
    } else {
        events_row(w, i, j - 1) + (if overlapping(w, i, j - 1) {
            seq![pair_event(w, i, j - 1)]
        } else {
            Seq::empty()
        })
    }
}

/// The events of all rows before `i`.
pub open spec fn events_upto(w: WorldModel, i: int) -> Seq<CollisionEvent>
    decreases i,
{
    if i <= 0 {
        Seq::empty()
    } else {
        events_upto(w, i - 1) + events_row(w, i - 1, w.creatures.len() as int)
    }
}

/// All collision events of one tick: one per overlapping pair, in
/// ascending pair order.
pub open spec fn all_events(w: WorldModel) -> Seq<CollisionEvent> {
    events_upto(w, w.creatures.len() as int)
}

/// Two worlds that agree on everything but accelerations.
pub open spec fn same_static(w1: WorldModel, w2: WorldModel) -> bool {
    &&& w1.creatures.len() == w2.creatures.len()
    &&& w1.foods == w2.foods
    &&& forall|k: int|
        0 <= k < w1.creatures.len() ==> (CreatureModel {
            ax: 0,
            ay: 0,
            ..#[trigger] w1.creatures[k]
        }) == (CreatureModel { ax: 0, ay: 0, ..w2.creatures[k] })
}

/// Applying a pair only touches accelerations.
proof fn lemma_apply_pair_static(w: WorldModel, i: int, j: int)
    ensures
        same_static(w, apply_pair(w, i, j)),
        apply_pair(w, i, j).foods == w.foods,
{
    let w2 = apply_pair(w, i, j);
    assert forall|k: int| 0 <= k < w.creatures.len() implies (CreatureModel {
        ax: 0,
        ay: 0,
        ..#[trigger] w.creatures[k]
    }) == (CreatureModel { ax: 0, ay: 0, ..w2.creatures[k] }) by {
        if overlapping(w, i, j) && (k == i || k == j) {
            assert((CreatureModel { ax: 0, ay: 0, ..w.creatures[k] }) =~= (CreatureModel {
                ax: 0,
                ay: 0,
                ..w2.creatures[k]
            }));
        }
    }
}

/// `same_static` is transitive.
proof fn lemma_static_trans(wa: WorldModel, wb: WorldModel, wc: WorldModel)
    requires
        same_static(wa, wb),
        same_static(wb, wc),
    ensures
        same_static(wa, wc),
{
    assert forall|k: int| 0 <= k < wa.creatures.len() implies (CreatureModel {
        ax: 0,
        ay: 0,
        ..#[trigger] wa.creatures[k]
    }) == (CreatureModel { ax: 0, ay: 0, ..wc.creatures[k] }) by {
        assert((CreatureModel { ax: 0, ay: 0, ..wa.creatures[k] }) == (CreatureModel {
            ax: 0,
            ay: 0,
            ..wb.creatures[k]
        }));
    }
}

/// Overlap and events only read fields that `same_static` fixes.
proof fn lemma_overlap_congruent(w1: WorldModel, w2: WorldModel, i: int, j: int)
    requires
        same_static(w1, w2),
    ensures
        overlapping(w1, i, j) == overlapping(w2, i, j),
        overlapping(w1, i, j) ==> pair_event(w1, i, j) == pair_event(w2, i, j),
{
    if 0 <= i < w1.creatures.len() && 0 <= j < w1.creatures.len() {
        assert((CreatureModel { ax: 0, ay: 0, ..w1.creatures[i] }) == (CreatureModel {
            ax: 0,
            ay: 0,
            ..w2.creatures[i]
        }));
        assert((CreatureModel { ax: 0, ay: 0, ..w1.creatures[j] }) == (CreatureModel {
            ax: 0,
            ay: 0,
            ..w2.creatures[j]
        }));
        assert(w1.creatures[i].x == w2.creatures[i].x && w1.creatures[i].y == w2.creatures[i].y
            && w1.creatures[i].alive == w2.creatures[i].alive && w1.creatures[i].hitbox_radius
            == w2.creatures[i].hitbox_radius);
        assert(w1.creatures[j].x == w2.creatures[j].x && w1.creatures[j].y == w2.creatures[j].y
            && w1.creatures[j].alive == w2.creatures[j].alive && w1.creatures[j].hitbox_radius
            == w2.creatures[j].hitbox_radius);
    }
}

/// Applying a pair preserves well-formedness: only accelerations change,
/// and they stay clamped.
proof fn lemma_apply_pair_wf(w: WorldModel, i: int, j: int)
    requires
        w.wf(),
    ensures
        apply_pair(w, i, j).wf(),
{
    let w2 = apply_pair(w, i, j);
    lemma_apply_pair_static(w, i, j);
    assert forall|k: int| 0 <= k < w2.creatures.len() implies (#[trigger] w2.creatures[k]).wf() by {
        assert(w.creatures[k].wf());
        assert((CreatureModel { ax: 0, ay: 0, ..w.creatures[k] }) == (CreatureModel {
            ax: 0,
            ay: 0,
            ..w2.creatures[k]
        }));
        if overlapping(w, i, j) && (k == i || k == j) && w.creatures[k].movable {
        }
    }
}

/// Resolve every overlapping pair of living creatures, in ascending pair
/// order: mutual repulsion impulses go to the movable sides, and exactly
/// the overlapping pairs emit one event each, carrying the pre-resolution
/// radii.
pub fn resolve_collisions(world: &mut World) -> (evs: Vec<CollisionEvent>)
    requires
        old(world)@.wf(),
    ensures
        final(world)@ == sweep(old(world)@, old(world)@.creatures.len() as int),
        evs@ == all_events(old(world)@),
        same_static(old(world)@, final(world)@),
        final(world)@.wf(),
{
    let ghost w0 = old(world)@;
    let n = world.creatures.len();
    let mut evs: Vec<CollisionEvent> = Vec::new();
    let mut i: usize = 0;
    while i < n
        invariant
            i <= n,
            n == world.creatures@.len(),
            n == w0.creatures.len(),
            w0 == old(world)@,
            w0.wf(),
            world@ == sweep(w0, i as int),
            evs@ == events_upto(w0, i as int),
            same_static(w0, world@),
            world@.wf(),
        decreases n - i,
    {
        let mut j: usize = i + 1;
        let ghost base = world@;
        proof {
            assert(sweep_row(base, i as int, j as int) == base);
        }
        while j < n
            invariant
                i < j <= n,
                n == world.creatures@.len(),
                n == w0.creatures.len(),
                w0 == old(world)@,
                w0.wf(),
                base == sweep(w0, i as int),
                world@ == sweep_row(base, i as int, j as int),
                evs@ == events_upto(w0, i as int) + events_row(w0, i as int, j as int),
                same_static(w0, world@),
                world@.wf(),
            decreases n - j,
        {
            let ghost prev = world@;
            proof {
                lemma_world_view_index(*world, i as int);
                lemma_world_view_index(*world, j as int);
                assert(world@.creatures[i as int].wf());
                assert(world@.creatures[j as int].wf());
            }
            let xi = world.creatures[i].x;
            let yi = world.creatures[i].y;
            let ri = world.creatures[i].hitbox_radius;
            let pi = world.creatures[i].hitbox_repulsion;
            let mi = world.creatures[i].movable;
            let alive_i = world.creatures[i].alive;
            let xj = world.creatures[j].x;
            let yj = world.creatures[j].y;
            let rj = world.creatures[j].hitbox_radius;
            let pj = world.creatures[j].hitbox_repulsion;
            let mj = world.creatures[j].movable;
            let alive_j = world.creatures[j].alive;
            let d2 = dist2_i64(xi, yi, xj, yj);
            let md = ri + rj;
            let md2 = square_nn(md);
            if alive_i && alive_j && 0 < d2 && d2 < md2 {
                assert(overlapping(prev, i as int, j as int));
                let du = isqrt(d2 as u64);
                proof {
                    lemma_sqrt_floor_bracket(d2 as int);
                    assert(du as int >= 1) by (nonlinear_arith)
                        requires
                            du as int >= 0,
                            (d2 as int) < (du as int + 1) * (du as int + 1),
                            d2 as int >= 1,
                    ;
                    lemma_sqrt_floor_le(d2 as int, md as int - 1);
                    lemma_sqrt_floor_component(xj - xi as int, yj - yi as int);
                    lemma_sqrt_floor_component(yj - yi as int, xj - xi as int);
                }
                let dist = du as i64;
                let amt = md - dist;
                let dx = xj - xi;
                let dy = yj - yi;
                proof {
                    assert(0 <= (amt as int) * (pi as int) <= 2_000_000_000_000 && 0 <= (
                    amt as int) * (pj as int) <= 2_000_000_000_000) by (nonlinear_arith)
                        requires
                            1 <= amt as int <= 2 * RADIUS_LIMIT,
                            1 <= pi as int <= REPULSION_LIMIT,
                            1 <= pj as int <= REPULSION_LIMIT,
                    ;
                }
                let ki = amt * pi;
                let kj = amt * pj;
                let ixp = scale_dir(-dx, kj, dist);
                let iyp = scale_dir(-dy, kj, dist);
                let jxp = scale_dir(dx, ki, dist);
                let jyp = scale_dir(dy, ki, dist);
                if mi {
                    let c = &mut world.creatures[i];
                    let nax = accel_add(c.ax, ixp);
                    let nay = accel_add(c.ay, iyp);
                    c.ax = nax;
                    c.ay = nay;
                }
                if mj {
                    let c = &mut world.creatures[j];
                    let nax = accel_add(c.ax, jxp);
                    let nay = accel_add(c.ay, jyp);
                    c.ax = nax;
                    c.ay = nay;
                }
                evs.push(CollisionEvent { a: i, b: j, size_a: ri, size_b: rj });
                proof {
                    assert(world@ =~= apply_pair(prev, i as int, j as int)) by {
                        assert forall|k: int| 0 <= k < n implies world@.creatures[k] == apply_pair(
                            prev,
                            i as int,
                            j as int,
                        ).creatures[k] by {
                            lemma_world_view_index(*world, k);
                            if k == i || k == j {
                                assert(world@.creatures[k] =~= apply_pair(
                                    prev,
                                    i as int,
                                    j as int,
                                ).creatures[k]);
                            }
                        }
                        assert(world@.foods =~= prev.foods);
                    }
                    lemma_overlap_congruent(w0, prev, i as int, j as int);
                    assert(evs@ =~= events_upto(w0, i as int) + events_row(
                        w0,
                        i as int,
                        j as int + 1,
                    ));
                    lemma_apply_pair_static(prev, i as int, j as int);
                    lemma_static_trans(w0, prev, world@);
                    lemma_apply_pair_wf(prev, i as int, j as int);
                }
            } else {
                proof {
                    assert(!overlapping(prev, i as int, j as int));
                    assert(apply_pair(prev, i as int, j as int) == prev);
                    lemma_overlap_congruent(w0, prev, i as int, j as int);
                    assert(evs@ =~= events_upto(w0, i as int) + events_row(
                        w0,
                        i as int,
                        j as int + 1,
                    ));
                }
            }
            j += 1;
        }
        proof {
            assert(world@ == sweep(w0, i as int + 1)) by {
                assert(base.creatures.len() == n);
            }
        }
        i += 1;
    }
    proof {
        assert(evs@ == all_events(w0));
    }
    evs
}


/// Ascending order on event pairs.
pub open spec fn pair_lt(e1: CollisionEvent, e2: CollisionEvent) -> bool {
    e1.a < e2.a || (e1.a == e2.a && e1.b < e2.b)
}

/// What each event of row `i` looks like, that the row is strictly
/// ascending in `b`, and that every overlapping pair of the row appears.
proof fn lemma_events_row_props(w: WorldModel, i: int, j: int)
    requires
        0 <= i,
        i + 1 <= j,
        j <= w.creatures.len() <= usize::MAX,
    ensures
        ({
            let evs = events_row(w, i, j);
            &&& forall|t: int|
                0 <= t < evs.len() ==> (#[trigger] evs[t]).a as int == i && i < (evs[t].b as int)
                    && (evs[t].b as int) < j && evs[t] == pair_event(w, i, evs[t].b as int)
                    && overlapping(w, i, evs[t].b as int)
            &&& forall|t1: int, t2: int| 0 <= t1 < t2 < evs.len() ==> evs[t1].b < evs[t2].b
            &&& forall|q: int|
                i < q < j && #[trigger] overlapping(w, i, q) ==> exists|t: int|
                    0 <= t < evs.len() && evs[t] == pair_event(w, i, q)
        }),
    decreases j - i,
{
    if j > i + 1 {
        lemma_events_row_props(w, i, j - 1);
        let prev = events_row(w, i, j - 1);
        let evs = events_row(w, i, j);
        assert forall|t: int| 0 <= t < evs.len() implies (#[trigger] evs[t]).a as int == i && i
            < (evs[t].b as int) && (evs[t].b as int) < j && evs[t] == pair_event(
            w,
            i,
            evs[t].b as int,
        ) && overlapping(w, i, evs[t].b as int) by {
            if t < prev.len() {
                assert(evs[t] == prev[t]);
            } else {
                assert(evs[t] == pair_event(w, i, j - 1));
            }
        }
        assert forall|q: int|
            i < q < j && #[trigger] overlapping(w, i, q) implies exists|t: int|
            0 <= t < evs.len() && evs[t] == pair_event(w, i, q) by {
            if q < j - 1 {
                let t = choose|t: int| 0 <= t < prev.len() && prev[t] == pair_event(w, i, q);
                assert(evs[t] == pair_event(w, i, q));
            } else {
                assert(evs[prev.len() as int] == pair_event(w, i, q));
            }
        }
    }
}

/// What each event of the rows before `i` looks like, that they come in
/// strictly ascending pair order, and that every overlapping pair with a
/// lower index below `i` appears.
proof fn lemma_events_upto_props(w: WorldModel, i: int)
    requires
        0 <= i <= w.creatures.len() <= usize::MAX,
    ensures
        ({
            let evs = events_upto(w, i);
            &&& forall|t: int|
                0 <= t < evs.len() ==> 0 <= ((#[trigger] evs[t]).a as int) && ((
                evs[t].a as int)) < i && (evs[t].a as int) < (evs[t].b as int) && (evs[t].b as int)
                    < w.creatures.len() && overlapping(w, evs[t].a as int, evs[t].b as int)
                    && evs[t] == pair_event(
                    w,
                    evs[t].a as int,
                    evs[t].b as int,
                )
            &&& forall|t1: int, t2: int| 0 <= t1 < t2 < evs.len() ==> pair_lt(evs[t1], evs[t2])
            &&& forall|p: int, q: int|
                0 <= p < i && p < q < w.creatures.len() && #[trigger] overlapping(w, p, q)
                    ==> exists|t: int| 0 <= t < evs.len() && evs[t] == pair_event(w, p, q)
        }),
    decreases i,
{
    let n = w.creatures.len() as int;
    if i > 0 {
        lemma_events_upto_props(w, i - 1);
        lemma_events_row_props(w, i - 1, n);
        let prev = events_upto(w, i - 1);
        let row = events_row(w, i - 1, n);
        let evs = events_upto(w, i);
        assert forall|t: int| 0 <= t < evs.len() implies 0 <= ((#[trigger] evs[t]).a as int) && ((
        evs[t].a as int)) < i && (evs[t].a as int) < (evs[t].b as int) && (evs[t].b as int) < n
            && overlapping(w, evs[t].a as int, evs[t].b as int) && evs[t] == pair_event(
            w,
            evs[t].a as int,
            evs[t].b as int,
        ) by {
            if t < prev.len() {
                assert(evs[t] == prev[t]);
            } else {
                assert(evs[t] == row[t - prev.len()]);
                assert(overlapping(w, i - 1, row[t - prev.len()].b as int));
            }
        }
        assert forall|t1: int, t2: int| 0 <= t1 < t2 < evs.len() implies pair_lt(
            evs[t1],
            evs[t2],
        ) by {
            if t1 < prev.len() && t2 >= prev.len() {
                assert(evs[t1] == prev[t1]);
                assert(evs[t2] == row[t2 - prev.len()]);
            } else if t1 >= prev.len() {
                assert(evs[t1] == row[t1 - prev.len()]);
                assert(evs[t2] == row[t2 - prev.len()]);
            } else {
                assert(evs[t1] == prev[t1]);
                assert(evs[t2] == prev[t2]);
            }
        }
        assert forall|p: int, q: int|
            0 <= p < i && p < q < n && #[trigger] overlapping(w, p, q) implies exists|t: int|
            0 <= t < evs.len() && evs[t] == pair_event(w, p, q) by {
            if p < i - 1 {
                let t = choose|t: int| 0 <= t < prev.len() && prev[t] == pair_event(w, p, q);
                assert(evs[t] == pair_event(w, p, q));
            } else {
                let t = choose|t: int| 0 <= t < row.len() && row[t] == pair_event(w, p, q);
                assert(evs[prev.len() + t] == pair_event(w, p, q));
            }
        }
    }
}

/// Exactly one event per overlapping pair: every emitted event records an
/// overlapping pair `a < b` with both pre-resolution radii; the events
/// come in strictly ascending pair order, so no pair appears twice; and
/// every overlapping pair is emitted.
pub proof fn lemma_event_characterization(w: WorldModel)
    requires
        w.creatures.len() <= usize::MAX,
    ensures
        ({
            let evs = all_events(w);
            &&& forall|t: int|
                0 <= t < evs.len() ==> 0 <= ((#[trigger] evs[t]).a as int) && (evs[t].a as int) < (
                evs[t].b as int) && (evs[t].b as int) < w.creatures.len() && evs[t] == pair_event(
                    w,
                    evs[t].a as int,
                    evs[t].b as int,
                ) && overlapping(w, evs[t].a as int, evs[t].b as int)
            &&& forall|t1: int, t2: int| 0 <= t1 < t2 < evs.len() ==> pair_lt(evs[t1], evs[t2])
            &&& forall|i: int, j: int|
                0 <= i < j < w.creatures.len() && #[trigger] overlapping(w, i, j) ==> exists|
                    t: int,
                |
                    0 <= t < evs.len() && evs[t] == pair_event(w, i, j)
        }),
{
    lemma_events_upto_props(w, w.creatures.len() as int);
    let evs = all_events(w);
    assert forall|t: int| 0 <= t < evs.len() implies 0 <= ((#[trigger] evs[t]).a as int) && (
    evs[t].a as int) < (evs[t].b as int) && (evs[t].b as int) < w.creatures.len() && evs[t]
        == pair_event(w, evs[t].a as int, evs[t].b as int) && overlapping(
        w,
        evs[t].a as int,
        evs[t].b as int,
    ) by {
        assert(evs[t] == pair_event(w, evs[t].a as int, evs[t].b as int));
    }
}


/// What mutual repulsion means for a movable overlapping pair: each side's
/// acceleration moves away from the other along each axis (weakly, since
/// an already saturated component cannot move further), and the two
/// changes on each axis never point the same way.
pub open spec fn repulsion_opposed(w: WorldModel, i: int, j: int) -> bool {
    let w2 = apply_pair(w, i, j);
    let dix = w2.creatures[i].ax - w.creatures[i].ax;
    let djx = w2.creatures[j].ax - w.creatures[j].ax;
    let diy = w2.creatures[i].ay - w.creatures[i].ay;
    let djy = w2.creatures[j].ay - w.creatures[j].ay;
    let dx = w.creatures[j].x - w.creatures[i].x;
    let dy = w.creatures[j].y - w.creatures[i].y;
    &&& dix * djx <= 0
    &&& diy * djy <= 0
    &&& dx > 0 ==> dix <= 0 && djx >= 0
    &&& dx < 0 ==> dix >= 0 && djx <= 0
    &&& dy > 0 ==> diy <= 0 && djy >= 0
    &&& dy < 0 ==> diy >= 0 && djy <= 0
}

/// Collision symmetry: resolving a movable overlapping pair pushes the two
/// sides apart, axis by axis, in opposite directions.
pub proof fn lemma_repulsion_opposed(w: WorldModel, i: int, j: int)
    requires
        w.wf(),
        overlapping(w, i, j),
        w.creatures[i].movable,
        w.creatures[j].movable,
    ensures
        repulsion_opposed(w, i, j),
{
    let ci = w.creatures[i];
    let cj = w.creatures[j];
    let d2 = dist2(ci.x, ci.y, cj.x, cj.y);
    let md = ci.hitbox_radius + cj.hitbox_radius;
    let dist = sqrt_floor(d2);
    lemma_sqrt_floor_bracket(d2);
    lemma_sqrt_floor_le(d2, md - 1);
    assert(dist >= 1) by (nonlinear_arith)
        requires
            dist >= 0,
            d2 < (dist + 1) * (dist + 1),
            d2 >= 1,
    ;
    let amt = md - dist;
    assert(amt * ci.hitbox_repulsion >= 0 && amt * cj.hitbox_repulsion >= 0)
        by (nonlinear_arith)
        requires
            amt >= 1,
            ci.hitbox_repulsion >= 1,
            cj.hitbox_repulsion >= 1,
    ;
    let dx = cj.x - ci.x;
    let dy = cj.y - ci.y;
    lemma_push_signs(dx, amt * cj.hitbox_repulsion, amt * ci.hitbox_repulsion, dist, ci.ax, cj.ax);
    lemma_push_signs(dy, amt * cj.hitbox_repulsion, amt * ci.hitbox_repulsion, dist, ci.ay, cj.ay);
}

/// Sign bookkeeping of one axis of a repulsion: the rescaled pushes
/// `scaled(-delta, ..)` and `scaled(delta, ..)` carry opposite signs, and
/// the saturating accumulation keeps those signs (weakly).
proof fn lemma_push_signs(delta: int, ki: int, kj: int, den: int, ai: int, aj: int)
    requires
        ki >= 0,
        kj >= 0,
        den >= 1,
        -(crate::params::ACCEL_LIMIT as int) <= ai <= crate::params::ACCEL_LIMIT as int,
        -(crate::params::ACCEL_LIMIT as int) <= aj <= crate::params::ACCEL_LIMIT as int,
    ensures
        ({
            let di = accel_add_spec(ai, scaled(-delta, ki, den)) - ai;
            let dj = accel_add_spec(aj, scaled(delta, kj, den)) - aj;
            &&& di * dj <= 0
            &&& delta > 0 ==> di <= 0 && dj >= 0
            &&& delta < 0 ==> di >= 0 && dj <= 0
        }),
{
    let pi = scaled(-delta, ki, den);
    let pj = scaled(delta, kj, den);
    let mi = (iabs(-delta) * iabs(ki)) / den;
    let mj = (iabs(delta) * iabs(kj)) / den;
    assert(mi >= 0 && mj >= 0) by {
        vstd::arithmetic::mul::lemma_mul_nonnegative(iabs(-delta), iabs(ki));
        vstd::arithmetic::mul::lemma_mul_nonnegative(iabs(delta), iabs(kj));
        vstd::arithmetic::div_mod::lemma_div_pos_is_pos(iabs(-delta) * iabs(ki), den);
        vstd::arithmetic::div_mod::lemma_div_pos_is_pos(iabs(delta) * iabs(kj), den);
    }
    if delta > 0 {
        assert(pi == -mi && pj == mj);
    } else if delta < 0 {
        assert(pi == mi && pj == -mj);
    } else {
        let zi = iabs(-delta);
        let zj = iabs(delta);
        let ki2 = iabs(ki);
        let kj2 = iabs(kj);
        assert(zi * ki2 == 0 && zj * kj2 == 0) by (nonlinear_arith)
            requires
                zi == 0,
                zj == 0,
        ;
        vstd::arithmetic::div_mod::lemma_div_of0(den);
        assert(mi == 0 && mj == 0);
    }
    crate::math::lemma_accel_add_sign(ai, pi);
    crate::math::lemma_accel_add_sign(aj, pj);
    let di = accel_add_spec(ai, pi) - ai;
    let dj = accel_add_spec(aj, pj) - aj;
    assert(di * dj <= 0) by (nonlinear_arith)
        requires
            (di <= 0 && dj >= 0) || (di >= 0 && dj <= 0),
    ;
}

} // verus!
