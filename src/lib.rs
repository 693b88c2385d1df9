//! A path tracer's geometric core on exact integer and fixed-point
//! arithmetic: intervals, vectors, rays, the slab test on bounding boxes,
//! sphere, quad and triangle intersection, bounding-volume hierarchies and
//! closest-hit search, orthonormal frames, textures, materials, the per-bounce
//! decisions of the path integrator, participating-medium interactions,
//! Perlin permutations, tone mapping and Sobel edge detection.

pub mod arith;
pub mod interval;
pub mod vec3;
pub mod wide;
pub mod ray;
pub mod aabb;
pub mod color;
pub mod onb;
pub mod pdf;
pub mod perlin;
mod random;
pub mod rtw_stb_image;
pub mod texture;
pub mod hittable;
pub mod plane;
pub mod quad;
pub mod sphere;
pub mod triangle;
pub mod bvh;
pub mod nearest;
pub mod hittable_list;
pub mod material;
pub mod edge;
pub mod medium;
pub mod camera;
