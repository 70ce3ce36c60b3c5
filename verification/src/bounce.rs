//! The choices of one step of light transport: whether a path goes on, which
//! terms a surface contributes, and how a refracting surface divides a path
//! between reflection and transmission.

use vstd::prelude::*;
use crate::scalar::{lemma_grade_order, Scalar, ONE};
use crate::things::Material;

verus! {

/// A refracted path follows both of its branches while fewer than this many
/// levels lie between its start and the step at hand.
pub const SPLIT_LEVELS: usize = 2;

/// Bit pattern of the least probability with which a branch is drawn, 0.25.
pub const LEAST: u32 = 0x3e80_0000;

/// Bit pattern of the greatest probability with which a branch is drawn, 0.75.
pub const MOST: u32 = 0x3f40_0000;

/// A path that goes on: where it met a surface and what is left of its budget.
#[derive(Clone, Copy, Debug, PartialEq, Eq, Structural)]
pub struct Impact {
    /// Distance from the ray's start to the surface.
    pub distance: Scalar,
    /// Index of the surface. Rays that leave it skip this index.
    pub index: usize,
    /// Depth at which the rays that leave the surface are followed.
    pub depth: usize,
}

/// The rule of [`proceed`].
pub open spec fn proceed_spec(depth: usize, hit: Option<(Scalar, usize)>) -> Option<Impact> {
    match hit {
        Some((distance, index)) if depth > 0 => Some(
            Impact { distance, index, depth: (depth - 1) as usize },
        ),
        _ => None,
    }
}

/// Whether a path goes on.
///
/// A path ends, and carries no light, when its depth is used up or when its
/// ray met nothing. Otherwise it goes on from the surface it met, one level
/// lower.
pub fn proceed(depth: usize, hit: Option<(Scalar, usize)>) -> (r: Option<Impact>)
    ensures
        r == proceed_spec(depth, hit),
        r.is_none() <==> (depth == 0 || hit.is_none()),
{
    if depth == 0 {
        return None;
    }
    match hit {
        Some((distance, index)) => Some(Impact { distance, index, depth: depth - 1 }),
        None => None,
    }
}

/// The terms that a surface adds to what it emits.
#[derive(Clone, Copy, Debug, PartialEq, Eq, Structural)]
pub struct Terms {
    pub specular: bool,
    pub diffuse: bool,
    pub refractive: bool,
}

/// A term is present exactly when its weight is a number above zero.
pub open spec fn terms_spec(material: Material) -> Terms {
    Terms {
        specular: material.specularity.positive(),
        diffuse: material.diffusion.positive(),
        refractive: material.refraction.positive(),
    }
}

/// Which terms a material contributes.
pub fn terms(material: &Material) -> (r: Terms)
    ensures
        r == terms_spec(*material),
{
    Terms {
        specular: material.specularity.is_positive(),
        diffuse: material.diffusion.is_positive(),
        refractive: material.refraction.is_positive(),
    }
}

/// A path of any depth above zero that meets a surface whose specular,
/// diffuse and refractive weights are all zero goes on to that surface and
/// ends there: no term sends a ray on, so the path carries what the surface
/// emits and nothing else.
pub proof fn lemma_emitter_ends_path(depth: usize, hit: (Scalar, usize), material: Material)
    requires
        depth >= 1,
        material.specularity.value() == 0,
        material.diffusion.value() == 0,
        material.refraction.value() == 0,
    ensures
        proceed_spec(depth, Some(hit)).is_some(),
        terms_spec(material) == (Terms { specular: false, diffuse: false, refractive: false }),
{
}

/// Whether a ray leaves the denser medium: the cosine between the surface
/// normal and the incoming direction is below zero. The relative index of
/// refraction is then the inverse of the medium's index.
pub fn leaves_medium(cos_in: Scalar) -> (r: bool)
    ensures
        r == cos_in.negative(),
{
    cos_in.is_negative()
}

/// The side of the surface on which the transmitted ray leaves, as a factor of
/// the normal: one, with the sign of the cosine between the normal and the
/// incoming direction.
pub fn side(cos_in: Scalar) -> (r: Scalar)
    ensures
        r.bits == if cos_in.sign() {
            0xbf80_0000u32
        } else {
            0x3f80_0000u32
        },
        r.sign() == cos_in.sign(),
        r.abs_spec() == (Scalar { bits: ONE }),
{
    if cos_in.bits >= crate::scalar::SIGN {
        Scalar { bits: 0xbf80_0000 }
    } else {
        Scalar { bits: 0x3f80_0000 }
    }
}

/// How a refracting surface divides a path.
#[derive(Clone, Copy, Debug, PartialEq, Eq, Structural)]
pub enum Refraction {
    /// Nothing is transmitted: the reflected ray carries the whole weight.
    TotalReflection,
    /// Both rays are followed, weighted by reflectance and transmittance.
    Split,
    /// One of the two rays is drawn at random and reweighted.
    Roulette,
}

/// The rule of [`refraction`].
pub open spec fn refraction_spec(cos_out_sqr: Scalar, bounces: usize, depth: usize) -> Refraction {
    if cos_out_sqr.negative() {
        Refraction::TotalReflection
    } else if bounces - depth < SPLIT_LEVELS {
        Refraction::Split
    } else {
        Refraction::Roulette
    }
}

/// Decides how a refracting surface divides a path.
///
/// `cos_out_sqr` is the discriminant of Snell's law, `bounces` the depth at
/// which paths start and `depth` the depth of this step. A negative
/// discriminant means total internal reflection. Otherwise both rays are
/// followed while fewer than two levels lie between the start and this step,
/// and from then on one of them is drawn.
pub fn refraction(cos_out_sqr: Scalar, bounces: usize, depth: usize) -> (r: Refraction)
    ensures
        r == refraction_spec(cos_out_sqr, bounces, depth),
{
    if cos_out_sqr.is_negative() {
        Refraction::TotalReflection
    } else if depth >= bounces || bounces - depth < SPLIT_LEVELS {
        Refraction::Split
    } else {
        Refraction::Roulette
    }
}

/// The rule of [`probability`].
pub open spec fn probability_spec(raw: Scalar) -> Scalar {
    if raw.within_spec(Scalar { bits: LEAST }, Scalar { bits: MOST }) {
        raw
    } else if (Scalar { bits: MOST }).lt_spec(raw) {
        Scalar { bits: MOST }
    } else {
        Scalar { bits: LEAST }
    }
}

/// The probability with which the reflected ray is drawn, from the weighted
/// reflectance `raw`: `raw` itself where it lies between 0.25 and 0.75, else
/// the nearer of the two. What is no number gives 0.25. Neither branch is ever
/// drawn with a probability near zero, so the reweighting never divides by a
/// small number.
pub fn probability(raw: Scalar) -> (p: Scalar)
    ensures
        p == probability_spec(raw),
        p.within_spec(Scalar { bits: LEAST }, Scalar { bits: MOST }),
{
    let least: Scalar = Scalar { bits: LEAST };
    let most: Scalar = Scalar { bits: MOST };
    proof {
        lemma_grade_order(0x3e80_0000, 0x3f40_0000);
    }
    if raw.within(least, most) {
        raw
    } else if most.lt(raw) {
        most
    } else {
        least
    }
}

/// One of the two rays that leave a refracting surface.
#[derive(Clone, Copy, Debug, PartialEq, Eq, Structural)]
pub enum Branch {
    Reflection,
    Transmission,
}

/// Draws the ray to follow: the reflected one when the uniform `sample` is
/// below the probability `p` of following it, the transmitted one otherwise.
pub fn roulette(sample: Scalar, p: Scalar) -> (r: Branch)
    ensures
        r == if sample.lt_spec(p) {
            Branch::Reflection
        } else {
            Branch::Transmission
        },
{
    if sample.lt(p) {
        Branch::Reflection
    } else {
        Branch::Transmission
    }
}

} // verus!
