//! Whether a ray meets a sphere, a parallelogram or a triangle, decided from
//! the quantities that the intersection formulas produce.

use vstd::prelude::*;
use vstd::arithmetic::power2::pow2;
use crate::scalar::{lemma_neg, lemma_value_of_one, Scalar, ONE};
use crate::things::Point;

verus! {

/// The hit that [`sphere_hit`] reports.
///
/// `root` is the discriminant `dot^2 - |hypo|^2 + radius^2` of the ray and
/// sphere equation, `near` and `far` are its two solutions `dot - sqrt(root)`
/// and `dot + sqrt(root)`.
pub open spec fn sphere_hit_spec(root: Scalar, near: Scalar, far: Scalar) -> Option<Scalar> {
    if root.negative() {
        None
    } else if near.positive() {
        Some(near)
    } else if far.positive() {
        Some(far)
    } else {
        None
    }
}

/// Where a ray meets a sphere: nowhere if the discriminant is negative,
/// else at the near solution if that lies ahead, else at the far one if that
/// lies ahead, else nowhere.
pub fn sphere_hit(root: Scalar, near: Scalar, far: Scalar) -> (r: Option<Scalar>)
    ensures
        r == sphere_hit_spec(root, near, far),
        match r {
            Some(d) => d.positive(),
            None => true,
        },
{
    if root.is_negative() {
        None
    } else if near.is_positive() {
        Some(near)
    } else if far.is_positive() {
        Some(far)
    } else {
        None
    }
}

/// The ray reaches the plane of a face at a finite distance `t` that is not
/// behind its start. A ray parallel to the plane has no such `t`.
pub open spec fn reaches_plane(t: Scalar) -> bool {
    t.finite() && !t.negative()
}

/// The hit that [`rhomboid_hit`] reports.
pub open spec fn rhomboid_hit_spec(
    t: Scalar,
    along_x: Scalar,
    along_y: Scalar,
    width: Scalar,
    height: Scalar,
) -> Option<Scalar> {
    if reaches_plane(t) && along_x.within_spec(Scalar { bits: 0 }, width) && along_y.within_spec(
        Scalar { bits: 0 },
        height,
    ) {
        Some(t)
    } else {
        None
    }
}

/// Where a ray meets a parallelogram.
///
/// `t` is the distance at which the ray reaches the plane of the face,
/// `along_x` and `along_y` are the projections of the point reached onto the
/// two unit edges, measured from the base corner. The ray hits if it reaches
/// the plane and both projections lie on their edge, the ends included.
pub fn rhomboid_hit(t: Scalar, along_x: Scalar, along_y: Scalar, width: Scalar, height: Scalar) -> (r:
    Option<Scalar>)
    ensures
        r == rhomboid_hit_spec(t, along_x, along_y, width, height),
{
    let zero: Scalar = Scalar::zero();
    if t.is_finite() && !t.is_negative() && along_x.within(zero, width) && along_y.within(
        zero,
        height,
    ) {
        Some(t)
    } else {
        None
    }
}

/// The hit that [`triangle_hit`] reports.
pub open spec fn triangle_hit_spec(t: Scalar, frac_x: Scalar, frac_y: Scalar, sum: Scalar) -> Option<
    Scalar,
> {
    let zero = Scalar { bits: 0 };
    let one = Scalar { bits: ONE };
    if reaches_plane(t) && frac_x.within_spec(zero, one) && frac_y.within_spec(zero, one)
        && sum.within_spec(zero, one) {
        Some(t)
    } else {
        None
    }
}

/// Where a ray meets a triangle.
///
/// `t` is the distance at which the ray reaches the plane of the face,
/// `frac_x` and `frac_y` are the projections of the point reached onto the two
/// unit edges from the shared corner, each as a fraction of its edge's length,
/// and `sum` is their sum. The ray hits if it reaches the plane and each of the
/// three lies between zero and one, the ends included.
pub fn triangle_hit(t: Scalar, frac_x: Scalar, frac_y: Scalar, sum: Scalar) -> (r: Option<Scalar>)
    ensures
        r == triangle_hit_spec(t, frac_x, frac_y, sum),
{
    let zero: Scalar = Scalar::zero();
    let one: Scalar = Scalar { bits: ONE };
    if t.is_finite() && !t.is_negative() && frac_x.within(zero, one) && frac_y.within(zero, one)
        && sum.within(zero, one) {
        Some(t)
    } else {
        None
    }
}

/// The normal turned to face the incoming ray.
pub open spec fn facing_spec(normal: Point, cos_in: Scalar) -> Point {
    if cos_in.positive() {
        Point { x: normal.x.neg_spec(), y: normal.y.neg_spec(), z: normal.z.neg_spec() }
    } else {
        normal
    }
}

/// Turns the normal of a surface against the incoming ray.
///
/// `cos_in` is the cosine between `normal` and the direction of the ray. Where
/// it is above zero the normal points along the ray and is reversed; else it
/// is returned as it is.
pub fn facing(normal: Point, cos_in: Scalar) -> (r: Point)
    ensures
        r == facing_spec(normal, cos_in),
{
    if cos_in.is_positive() {
        Point { x: normal.x.neg(), y: normal.y.neg(), z: normal.z.neg() }
    } else {
        normal
    }
}

/// In exact arithmetic a normal that was turned to face the ray does: where
/// the cosine has the sign of the dot product of normal and direction, the dot
/// product of the turned normal and the direction is not above zero.
pub proof fn lemma_facing_opposes(normal: Point, direction: Point, cos_in: Scalar)
    requires
        !cos_in.nan(),
        cos_in.positive() <==> normal.dot_spec(direction) > 0,
    ensures
        facing_spec(normal, cos_in).dot_spec(direction) <= 0,
{
    lemma_neg(normal.x);
    lemma_neg(normal.y);
    lemma_neg(normal.z);
    let a = normal.x.value();
    let b = normal.y.value();
    let c = normal.z.value();
    let x = direction.x.value();
    let y = direction.y.value();
    let z = direction.z.value();
    assert((-a) * x + (-b) * y + (-c) * z == -(a * x + b * y + c * z)) by (nonlinear_arith);
}

/// A ray hits a parallelogram exactly when it reaches the plane at a distance
/// that is not below zero and both projections lie between zero and the
/// length of their edge, each bound included; the hit is then at that
/// distance.
pub proof fn lemma_rhomboid_bounds(
    t: Scalar,
    along_x: Scalar,
    along_y: Scalar,
    width: Scalar,
    height: Scalar,
)
    requires
        t.finite(),
        !along_x.nan(),
        !along_y.nan(),
        !width.nan(),
        !height.nan(),
    ensures
        rhomboid_hit_spec(t, along_x, along_y, width, height) == if t.value() >= 0 && 0
            <= along_x.value() <= width.value() && 0 <= along_y.value() <= height.value() {
            Some(t)
        } else {
            None
        },
{
    assert((Scalar { bits: 0 }).value() == 0);
    assert(!(Scalar { bits: 0 }).nan());
}

/// A ray hits a triangle exactly when it reaches the plane at a distance that
/// is not below zero and each fraction and their sum lie between zero and
/// one, each bound included; the hit is then at that distance. One is
/// `2^149` in the unit of `value`.
pub proof fn lemma_triangle_bounds(t: Scalar, frac_x: Scalar, frac_y: Scalar, sum: Scalar)
    requires
        t.finite(),
        !frac_x.nan(),
        !frac_y.nan(),
        !sum.nan(),
    ensures
        triangle_hit_spec(t, frac_x, frac_y, sum) == if t.value() >= 0 && 0 <= frac_x.value()
            <= pow2(149) && 0 <= frac_y.value() <= pow2(149) && 0 <= sum.value() <= pow2(149) {
            Some(t)
        } else {
            None
        },
{
    lemma_value_of_one();
    assert((Scalar { bits: 0 }).value() == 0);
    assert(!(Scalar { bits: 0 }).nan());
}

/// A closed range holds both of its ends.
pub proof fn lemma_range_holds_its_ends(lo: Scalar, hi: Scalar)
    requires
        lo.le_spec(hi),
    ensures
        lo.within_spec(lo, hi),
        hi.within_spec(lo, hi),
{
}

/// A parallelogram is hit on its rim: a ray that reaches the plane where a
/// projection is exactly zero or exactly the length of its edge hits, as long
/// as the other projection lies on its own edge.
pub proof fn lemma_rhomboid_rim(t: Scalar, along: Scalar, width: Scalar, height: Scalar)
    requires
        reaches_plane(t),
        (Scalar { bits: 0 }).le_spec(width),
        along.within_spec(Scalar { bits: 0 }, height),
    ensures
        rhomboid_hit_spec(t, Scalar { bits: 0 }, along, width, height) == Some(t),
        rhomboid_hit_spec(t, width, along, width, height) == Some(t),
        (Scalar { bits: 0 }).le_spec(height) ==> rhomboid_hit_spec(
            t,
            width,
            height,
            width,
            height,
        ) == Some(t),
{
}

/// A triangle is hit on its rim: on either edge from the shared corner (one
/// fraction is zero) and on the edge opposite it (the fractions sum to one).
pub proof fn lemma_triangle_rim(t: Scalar, frac_x: Scalar, frac_y: Scalar)
    requires
        reaches_plane(t),
        frac_x.within_spec(Scalar { bits: 0 }, Scalar { bits: ONE }),
        frac_y.within_spec(Scalar { bits: 0 }, Scalar { bits: ONE }),
    ensures
        triangle_hit_spec(t, frac_x, frac_y, Scalar { bits: ONE }) == Some(t),
        triangle_hit_spec(t, Scalar { bits: 0 }, frac_y, frac_y) == Some(t),
        triangle_hit_spec(t, frac_x, Scalar { bits: 0 }, frac_x) == Some(t),
{
}

} // verus!
