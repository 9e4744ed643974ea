pub mod color;
pub mod fixed;
pub mod render;
pub mod vec3;
pub mod rng;
pub mod scene;
pub mod angles;
pub mod material;
pub mod naive;
pub mod texture;
pub mod tracer;
pub mod world;
