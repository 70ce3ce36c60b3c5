//! Decision core of a Monte Carlo path tracer.
//!
//! The crate holds every choice the renderer makes: which surface a ray meets
//! first, which root of a quadratic is the hit, whether a point lies inside a
//! face, which light-transport terms a material contributes, when a refracted
//! path splits and when it plays Russian roulette, how a radiance value turns
//! into a byte, how a pixel seeds its random stream and where it lands in the
//! image. Numbers cross the boundary as IEEE 754 bit patterns ([`Scalar`]).

pub mod bounce;
pub mod render;
pub mod scalar;
pub mod scene;
pub mod shapes;
pub mod things;
pub mod tone;

pub use scalar::Scalar;
pub use scene::{Camera, Scene};
pub use things::{Color, Material, Point, Ray, Thing};
