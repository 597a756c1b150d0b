//! A small software ray tracer whose whole rendering core is verified.
//!
//! Geometry is carried out on fixed-point scalars (see [`fixed`]), so every
//! arithmetic step has an exact integer meaning that the contracts state.
//! The pipeline follows the classic design: a [`camera::Camera`] shoots
//! jittered rays through each pixel, the scene ([`hittable_list`]) reports
//! the nearest intersection, and a recursive diffuse shading function turns
//! bounces into colors.

pub mod camera;
pub mod color;
pub mod fixed;
pub mod hittable;
pub mod hittable_list;
pub mod interval;
pub mod random;
pub mod ray;
pub mod render;
pub mod sphere;
pub mod vector;
