pub mod bvh;
pub mod hit;
pub mod perlin;
pub mod pixels;
pub mod schedule;
pub mod vectors;
