//! The camera and the scene it looks at.

use vstd::prelude::*;
use crate::bounce::{proceed, Impact};
use crate::scalar::Scalar;
use crate::things::{answers, chosen, Point, Ray, Thing};

verus! {

/// An eye behind a screen.
#[derive(Clone, Copy, Debug, PartialEq, Eq, Structural)]
pub struct Camera {
    /// From the centre of the screen, along its normal
    pub normal: Ray,
    /// Vector pointing along the width of the screen
    pub x: Point,
    /// Vector pointing along the height of the screen
    pub y: Point,
    /// The distance of the eye from the screen
    pub distance: Scalar,
    /// The radius of the aperture
    pub aperture: Option<Scalar>,
    /// The distance of the focal plane from the screen
    pub focal_length: Option<Scalar>,
}

impl Camera {
    pub fn new(
        normal: Ray,
        x: Point,
        y: Point,
        distance: Scalar,
        aperture: Option<Scalar>,
        focal_length: Option<Scalar>,
    ) -> (c: Camera)
        ensures
            c == (Camera { normal, x, y, distance, aperture, focal_length }),
    {
        Camera { normal, x, y, distance, aperture, focal_length }
    }

    /// The distance of the plane on which the rays of one pixel meet, for a
    /// camera with an aperture; a camera without one does not refocus.
    pub fn focus(&self) -> (r: Option<Scalar>)
        ensures
            r == if self.aperture.is_some() {
                self.focal_length
            } else {
                None
            },
    {
        if self.aperture.is_some() {
            self.focal_length
        } else {
            None
        }
    }
}

/// The hit from which a path goes on, if it does.
pub open spec fn hit_of(r: Option<Impact>) -> Option<(Scalar, usize)> {
    match r {
        Some(at) => Some((at.distance, at.index)),
        None => None,
    }
}

/// A camera and the surfaces before it, in the order in which they were added.
/// A surface keeps its index for as long as the scene lives.
pub struct Scene<T: Thing> {
    camera: Camera,
    things: Vec<T>,
}

impl<T: Thing> Scene<T> {
    /// The camera of the scene.
    pub closed spec fn camera_spec(&self) -> Camera {
        self.camera
    }

    /// The surfaces of the scene, by index.
    pub closed spec fn things_spec(&self) -> Seq<T> {
        self.things@
    }

    /// Returns a new scene object
    ///
    /// # Arguments
    ///
    /// * `camera` - the camera to use for rendering
    pub fn new(camera: Camera) -> (s: Self)
        ensures
            s.camera_spec() == camera,
            s.things_spec() == Seq::<T>::empty(),
    {
        Scene { camera, things: Vec::new() }
    }

    /// Adds a surface behind those already there.
    pub fn add(&mut self, thing: T)
        ensures
            final(self).camera_spec() == old(self).camera_spec(),
            final(self).things_spec() == old(self).things_spec().push(thing),
    {
        self.things.push(thing);
    }

    /// The camera of the scene.
    pub fn camera(&self) -> (r: &Camera)
        ensures
            *r == self.camera_spec(),
    {
        &self.camera
    }

    /// The surfaces of the scene, by index.
    pub fn things(&self) -> (r: &Vec<T>)
        ensures
            r@ == self.things_spec(),
    {
        &self.things
    }

    /// The nearest surface of the scene that `ray` meets, as
    /// [`Ray::intersect`] finds it.
    pub fn intersect(&self, ray: &Ray, skip: Option<usize>) -> (r: Option<(Scalar, usize)>)
        ensures
            exists|hits: Seq<Option<Scalar>>| #[trigger]
                answers(self.things_spec(), *ray, skip, hits) && chosen(hits, skip, r),
            match r {
                Some((d, i)) => i < self.things_spec().len() && skip != Some(i) && d.positive(),
                None => true,
            },
            self.things_spec().len() == 0 ==> r.is_none(),
    {
        let things: &[T] = self.things.as_slice();
        let r = ray.intersect(things, skip);
        proof {
            let hits = choose|hits: Seq<Option<Scalar>>| #[trigger]
                answers(things@, *ray, skip, hits) && chosen(hits, skip, r);
            assert(things@ =~= self.things@);
            assert(answers(self.things_spec(), *ray, skip, hits));
        }
        r
    }

    /// The first step of following `ray` at the given depth: where the path
    /// goes on, if it does. At depth zero the path has ended and no surface is
    /// asked; otherwise it goes on from the nearest surface that the ray
    /// meets, one level lower, and ends where the ray meets none.
    pub fn advance(&self, ray: &Ray, depth: usize, skip: Option<usize>) -> (r: Option<Impact>)
        ensures
            depth == 0 ==> r.is_none(),
            depth > 0 ==> exists|hits: Seq<Option<Scalar>>| #[trigger]
                answers(self.things_spec(), *ray, skip, hits) && chosen(hits, skip, hit_of(r)),
            match r {
                Some(at) => at.depth == depth - 1 && at.index < self.things_spec().len() && skip
                    != Some(at.index) && at.distance.positive(),
                None => true,
            },
    {
        if depth == 0 {
            None
        } else {
            let hit = self.intersect(ray, skip);
            let r = proceed(depth, hit);
            assert(hit_of(r) == hit);
            r
        }
    }
}

} // verus!
