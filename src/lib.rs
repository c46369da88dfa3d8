// A first-person raycasting renderer for grid dungeons: ray marching, a
// depth-tested framebuffer, texture and sprite sampling, and enemy behaviour, all
// in fixed-point integers.

pub mod caster;
pub mod color;
pub mod enemy;
pub mod framebuffer;
pub mod geometry;
pub mod maze;
pub mod placement;
pub mod player;
pub mod render;
pub mod texture;
