//! The discrete core of an offline path tracer.
//!
//! * `scene`: the settings of a render, the split of the image rows into one
//!   band for each worker, and the assembly of the workers' results.
//! * `buffer`, `image`, `texture`: pixel buffers, their PNG form, and
//!   textures that take their colours from an image.
//! * `aabb`, `hit`, `bvh`, `interval`: bounding boxes, the list of objects,
//!   the bounding volume hierarchy with the search for the nearest hit, and
//!   the tests of distances along a ray.
//! * `keys`: the ordered keys of doubles, made from their bits.
//! * `perlin`: the shuffled tables and the lattice hash of gradient noise.
//! * `settings`, `sort`, `utility`: reading settings from a scene file,
//!   sorting, random integers and the number of workers.
//!
//! Geometry and shading work on real-valued quantities and live with the
//! caller. Wherever this crate has to order such quantities it receives them
//! as integer keys whose order agrees with the order of the values: `i64`
//! keys for coordinates, `u64` keys for distances along a ray. `keys` makes
//! such keys from the bits of doubles.

pub mod aabb;
pub mod buffer;
pub mod bvh;
pub mod hit;
pub mod image;
pub mod interval;
pub mod keys;
pub mod perlin;
pub mod scene;
pub mod settings;
pub mod sort;
pub mod texture;
pub mod utility;
