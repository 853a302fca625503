//! A stochastic path tracer whose geometric and radiometric core is
//! verified: bounding boxes and the bounding-volume hierarchy, the
//! primitives and their affine decorators, the material and density
//! abstractions of multiple importance sampling, and the recursive
//! radiance estimator.
//!
//! All scene arithmetic is exact binary fixed point: scalars are `i64`
//! raw values at scale `2^16` (see [`fixed`]), intermediates widen to
//! `i128`, and square roots are integer floors.  Every operation
//! therefore has a precise mathematical contract, and the geometric
//! laws of the tracer (box containment, slab-test meaning, hierarchy
//! queries against brute-force scans, density identities) are proved
//! rather than approximated.  Conversion from floats, scene-file
//! parsing, thread scheduling and image output stay outside the
//! library, which they drive through plain fixed-point values.

pub mod aabb;
pub mod bvh;
pub mod camera;
pub mod fixed;
pub mod integrator;
pub mod materials;
pub mod object;
pub mod onb;
pub mod pdf;
pub mod ray;
pub mod rng;
pub mod scene;
pub mod textures;
pub mod util;
pub mod vector3;
