//! Points, colors, materials and rays as plain data, the capability a
//! renderable surface offers, and the nearest-hit query over a set of them.

use vstd::prelude::*;
use crate::scalar::{lemma_abs, lemma_neg, Scalar, ONE};

verus! {

/// A position or a free vector in space.
#[derive(Clone, Copy, Debug, PartialEq, Eq, Structural)]
pub struct Point {
    pub x: Scalar,
    pub y: Scalar,
    pub z: Scalar,
}

/// `|a| <= |b|` as numbers; false as soon as one side is a NaN.
pub open spec fn smaller_spec(a: Scalar, b: Scalar) -> bool {
    a.abs_spec().le_spec(b.abs_spec())
}

impl Point {
    /// No component is a NaN.
    pub open spec fn numeric(self) -> bool {
        !self.x.nan() && !self.y.nan() && !self.z.nan()
    }

    /// Every component is zero.
    pub open spec fn null(self) -> bool {
        self.x.value() == 0 && self.y.value() == 0 && self.z.value() == 0
    }

    /// The exact dot product, in units of 2^-298.
    pub open spec fn dot_spec(self, other: Point) -> int {
        self.x.value() * other.x.value() + self.y.value() * other.y.value() + self.z.value()
            * other.z.value()
    }

    /// The vector that [`Point::orthogonal`] returns: the component of least
    /// magnitude is zeroed (the earliest one among equals), the other two are
    /// swapped and one of them negated.
    pub open spec fn orthogonal_spec(self) -> Point {
        if smaller_spec(self.x, self.y) && smaller_spec(self.x, self.z) {
            Point { x: Scalar { bits: 0 }, y: self.z.neg_spec(), z: self.y }
        } else if smaller_spec(self.y, self.x) && smaller_spec(self.y, self.z) {
            Point { x: self.z.neg_spec(), y: Scalar { bits: 0 }, z: self.x }
        } else {
            Point { x: self.y.neg_spec(), y: self.x, z: Scalar { bits: 0 } }
        }
    }

    pub fn new(x: Scalar, y: Scalar, z: Scalar) -> (r: Point)
        ensures
            r.x == x,
            r.y == y,
            r.z == z,
    {
        Point { x, y, z }
    }

    pub fn get_x(&self) -> (r: Scalar)
        ensures
            r == self.x,
    {
        self.x
    }

    pub fn get_y(&self) -> (r: Scalar)
        ensures
            r == self.y,
    {
        self.y
    }

    pub fn get_z(&self) -> (r: Scalar)
        ensures
            r == self.z,
    {
        self.z
    }

    pub fn set_x(&mut self, x: Scalar)
        ensures
            *final(self) == (Point { x, ..*old(self) }),
    {
        self.x = x;
    }

    pub fn set_y(&mut self, y: Scalar)
        ensures
            *final(self) == (Point { y, ..*old(self) }),
    {
        self.y = y;
    }

    pub fn set_z(&mut self, z: Scalar)
        ensures
            *final(self) == (Point { z, ..*old(self) }),
    {
        self.z = z;
    }

    /// A vector at a right angle to this one, not yet of unit length.
    ///
    /// No rounding is involved: the result is built from the components of
    /// `self` by zeroing, swapping and flipping a sign.
    pub fn orthogonal(self) -> (r: Point)
        ensures
            r == self.orthogonal_spec(),
    {
        let ax: Scalar = self.x.abs();
        let ay: Scalar = self.y.abs();
        let az: Scalar = self.z.abs();
        if ax.le(ay) && ax.le(az) {
            Point { x: Scalar::zero(), y: self.z.neg(), z: self.y }
        } else if ay.le(ax) && ay.le(az) {
            Point { x: self.z.neg(), y: Scalar::zero(), z: self.x }
        } else {
            Point { x: self.y.neg(), y: self.x, z: Scalar::zero() }
        }
    }
}

/// In exact arithmetic the vector from [`Point::orthogonal`] is at a right
/// angle to the vector it was made from: their dot product is zero.
pub proof fn lemma_orthogonal_is_orthogonal(v: Point)
    ensures
        v.dot_spec(v.orthogonal_spec()) == 0,
{
    let x = v.x.value();
    let y = v.y.value();
    let z = v.z.value();
    lemma_neg(v.x);
    lemma_neg(v.y);
    lemma_neg(v.z);
    assert((Scalar { bits: 0 }).value() == 0);
    assert(x * 0 + y * (-z) + z * y == 0) by (nonlinear_arith);
    assert(x * (-z) + y * 0 + z * x == 0) by (nonlinear_arith);
    assert(x * (-y) + y * x + z * 0 == 0) by (nonlinear_arith);
}

/// A vector of numbers that is not the null vector has an orthogonal vector
/// that is not the null vector either, so it can be scaled to unit length.
pub proof fn lemma_orthogonal_is_not_null(v: Point)
    requires
        v.numeric(),
        !v.null(),
    ensures
        v.orthogonal_spec().numeric(),
        !v.orthogonal_spec().null(),
{
    lemma_neg(v.x);
    lemma_neg(v.y);
    lemma_neg(v.z);
    lemma_abs(v.x);
    lemma_abs(v.y);
    lemma_abs(v.z);
    assert((Scalar { bits: 0 }).value() == 0);
    assert(!(Scalar { bits: 0 }).nan());
}

/// Whether a sample drawn from the cube around the unit ball is kept: its
/// squared length `norm_sqr` must not exceed one.
pub fn in_unit_ball(norm_sqr: Scalar) -> (r: bool)
    ensures
        r == !(Scalar { bits: ONE }).lt_spec(norm_sqr),
{
    !(Scalar { bits: ONE }).lt(norm_sqr)
}

/// Unnormalized radiance or reflectance, one weight per channel.
#[derive(Clone, Copy, Debug, PartialEq, Eq, Structural)]
pub struct Color {
    pub r: Scalar,
    pub g: Scalar,
    pub b: Scalar,
}

impl Color {
    pub fn new(r: Scalar, g: Scalar, b: Scalar) -> (c: Color)
        ensures
            c.r == r,
            c.g == g,
            c.b == b,
    {
        Color { r, g, b }
    }

    pub fn get_r(&self) -> (r: Scalar)
        ensures
            r == self.r,
    {
        self.r
    }

    pub fn get_g(&self) -> (r: Scalar)
        ensures
            r == self.g,
    {
        self.g
    }

    pub fn get_b(&self) -> (r: Scalar)
        ensures
            r == self.b,
    {
        self.b
    }
}

/// The physical coefficients of a surface.
#[derive(Clone, Copy, Debug, PartialEq, Eq, Structural)]
pub struct Material {
    pub specularity: Scalar,
    pub hardness: Scalar,
    pub diffusion: Scalar,
    pub refraction: Scalar,
    pub emittance: Scalar,
    pub color: Color,
}

impl Material {
    pub fn new(
        specularity: Scalar,
        hardness: Scalar,
        diffusion: Scalar,
        refraction: Scalar,
        emittance: Scalar,
        color: Color,
    ) -> (m: Material)
        ensures
            m == (Material { specularity, hardness, diffusion, refraction, emittance, color }),
    {
        Material { specularity, hardness, diffusion, refraction, emittance, color }
    }
}

/// A half line: where it starts and where it heads. Whoever builds one scales
/// the direction to unit length first.
#[derive(Clone, Copy, Debug, PartialEq, Eq, Structural)]
pub struct Ray {
    pub base: Point,
    pub direction: Point,
}

/// What a surface must offer to be rendered.
pub trait Thing {
    /// The distance along `ray` at which it meets the surface, if it does.
    fn hit_by(&self, ray: &Ray) -> Option<Scalar>;

    /// The coefficients of the surface.
    fn material(&self) -> Material;

    /// The unit normal of the surface at `position`, turned to face a ray that
    /// arrives along `direction`.
    fn normal(&self, position: &Point, direction: &Point) -> Point;
}

/// Index `i` holds a hit that counts: it is not the skipped index, a distance
/// was reported there, and that distance is a number above zero.
pub open spec fn candidate(hits: Seq<Option<Scalar>>, skip: Option<usize>, i: int) -> bool {
    &&& 0 <= i < hits.len()
    &&& match skip {
        Some(s) => s as int != i,
        None => true,
    }
    &&& match hits[i] {
        Some(d) => d.positive(),
        None => false,
    }
}

/// `(d, i)` is the hit to report: a hit that counts, no other one is nearer,
/// and every earlier one is strictly farther.
pub open spec fn is_nearest(hits: Seq<Option<Scalar>>, skip: Option<usize>, d: Scalar, i: int) -> bool {
    &&& candidate(hits, skip, i)
    &&& hits[i] == Some(d)
    &&& forall|j: int| #[trigger] candidate(hits, skip, j) ==> d.le_spec(hits[j].unwrap())
    &&& forall|j: int| #[trigger] candidate(hits, skip, j) && j < i ==> d.lt_spec(hits[j].unwrap())
}

/// `r` is the answer of the nearest-hit query over `hits`: the hit to report
/// where one counts, and nothing where none does.
pub open spec fn chosen(hits: Seq<Option<Scalar>>, skip: Option<usize>, r: Option<(Scalar, usize)>) -> bool {
    match r {
        Some((d, i)) => is_nearest(hits, skip, d, i as int),
        None => forall|j: int| !candidate(hits, skip, j),
    }
}

/// The nearest of the reported hits, with its index.
///
/// `hits[i]` is what surface `i` reported. The surface at index `skip` is left
/// out, and so is a distance that is not a number above zero. Of several hits
/// at the same distance the one with the lowest index is returned.
pub fn nearest_hit(hits: &Vec<Option<Scalar>>, skip: Option<usize>) -> (r: Option<(Scalar, usize)>)
    ensures
        chosen(hits@, skip, r),
{
    let mut best: Option<(Scalar, usize)> = None;
    let mut n: usize = 0;
    while n < hits.len()
        invariant
            n <= hits.len(),
            match best {
                Some((d, i)) => {
                    &&& i < n
                    &&& candidate(hits@, skip, i as int)
                    &&& hits@[i as int] == Some(d)
                    &&& forall|j: int|
                        #[trigger] candidate(hits@, skip, j) && j < n ==> d.le_spec(
                            hits@[j].unwrap(),
                        )
                    &&& forall|j: int|
                        #[trigger] candidate(hits@, skip, j) && j < i ==> d.lt_spec(
                            hits@[j].unwrap(),
                        )
                },
                None => forall|j: int| j < n ==> !candidate(hits@, skip, j),
            },
        decreases hits.len() - n,
    {
        let skipped: bool = match skip {
            Some(s) => s == n,
            None => false,
        };
        if !skipped {
            match hits[n] {
                Some(d) => {
                    if d.is_positive() {
                        match best {
                            Some((m, _)) => {
                                if d.lt(m) {
                                    best = Some((d, n));
                                }
                            },
                            None => {
                                best = Some((d, n));
                            },
                        }
                    }
                },
                None => {},
            }
        }
        n += 1;
    }
    best
}

/// No two different hits satisfy [`is_nearest`]: the query has one answer.
pub proof fn lemma_nearest_is_unique(
    hits: Seq<Option<Scalar>>,
    skip: Option<usize>,
    d1: Scalar,
    i1: int,
    d2: Scalar,
    i2: int,
)
    requires
        is_nearest(hits, skip, d1, i1),
        is_nearest(hits, skip, d2, i2),
    ensures
        i1 == i2,
        d1 == d2,
{
    assert(candidate(hits, skip, i1));
    assert(candidate(hits, skip, i2));
}

/// `hit` can be what a surface answers to `ray`: nothing where the surface is
/// skipped and not asked, and else a result that the surface's own `hit_by`
/// allows.
pub open spec fn answer<T: Thing>(thing: T, ray: Ray, skipped: bool, hit: Option<Scalar>) -> bool {
    if skipped {
        hit.is_none()
    } else {
        call_ensures(T::hit_by, (&thing, &ray), hit)
    }
}

/// `hits` can be what the surfaces answer to `ray`, one by one.
pub open spec fn answers<T: Thing>(
    things: Seq<T>,
    ray: Ray,
    skip: Option<usize>,
    hits: Seq<Option<Scalar>>,
) -> bool {
    &&& hits.len() == things.len()
    &&& forall|i: int|
        0 <= i < things.len() ==> answer(things[i], ray, skip == Some(i as usize), #[trigger] hits[i])
}

impl Ray {
    /// The nearest surface that the ray meets, with the distance to it.
    ///
    /// Every surface but the one at index `skip` is asked once, in order, and
    /// the result is what [`nearest_hit`] makes of the answers: the hit lies
    /// ahead of the ray's start, no other one is nearer, and of several at the
    /// same distance it is the first. With no surface to ask there is no hit.
    pub fn intersect<T: Thing>(&self, things: &[T], skip: Option<usize>) -> (r: Option<
        (Scalar, usize),
    >)
        ensures
            exists|hits: Seq<Option<Scalar>>| #[trigger]
                answers(things@, *self, skip, hits) && chosen(hits, skip, r),
            match r {
                Some((d, i)) => i < things@.len() && skip != Some(i) && d.positive(),
                None => true,
            },
            things@.len() == 0 ==> r.is_none(),
            things@.len() == 1 && skip == Some(0usize) ==> r.is_none(),
    {
        let mut hits: Vec<Option<Scalar>> = Vec::new();
        let mut n: usize = 0;
        while n < things.len()
            invariant
                n <= things@.len(),
                hits@.len() == n,
                forall|j: int|
                    0 <= j < n ==> answer(
                        things@[j],
                        *self,
                        skip == Some(j as usize),
                        #[trigger] hits@[j],
                    ),
            decreases things@.len() - n,
        {
            let skipped: bool = match skip {
                Some(s) => s == n,
                None => false,
            };
            if skipped {
                hits.push(None);
            } else {
                hits.push(things[n].hit_by(self));
            }
            n += 1;
        }
        let r = nearest_hit(&hits, skip);
        proof {
            assert(answers(things@, *self, skip, hits@));
            match r {
                Some((d, i)) => {
                    assert(candidate(hits@, skip, i as int));
                    assert(answer(things@[i as int], *self, skip == Some(i), hits@[i as int]));
                },
                None => {},
            }
            if things@.len() == 1 && skip == Some(0usize) {
                assert(answer(things@[0], *self, skip == Some(0usize), hits@[0]));
            }
        }
        r
    }
}

} // verus!
