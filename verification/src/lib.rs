use vstd::prelude::*;

pub mod fixed;
pub mod rng;
pub mod vec;
pub mod ray;
pub mod aabb;
pub mod color;
pub mod texture;
pub mod material;
pub mod util;
pub mod hittable;
pub mod onb;
pub mod pdf;
pub mod trace;
pub mod camera;
pub mod laws;
