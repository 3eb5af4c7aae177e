//! A small ray tracer whose core — sphere intersection, nearest-hit
//! selection across a scene, material scattering and the recursive
//! light-transport evaluator — is verified.
//!
//! All geometry and radiometry is carried in signed 64-bit fixed-point
//! numbers, [`fixed::SCALE`] units to one, so every arithmetic step has an
//! exact mathematical description: each executable operation is proved
//! equal to a spec-level counterpart (`fixed::fmul`, `vec3::sv_dot`,
//! `trace::sphere_hit_spec`, `world::world_hit_spec`, ...), and the
//! evaluator's result is characterized by the relation `color::color_rel`,
//! which pins the estimate exactly up to the material's random draws.
//!
//! Randomness is the one trusted boundary: materials draw raw values from
//! `rand` and everything done with a draw is verified for every value it
//! could take.

pub mod camera;
pub mod color;
pub mod fixed;
pub mod hit;
pub mod material;
pub mod ray;
pub mod trace;
pub mod vec3;
pub mod world;

pub use camera::Camera;
pub use color::{color, Color8u};
pub use fixed::SCALE;
pub use hit::{Hit, HitData, HitRecord};
pub use material::{Material, ScatterRecord};
pub use ray::Ray;
pub use vec3::Vec3;
pub use world::{MaterialKind, Renderable, Surface, World};
