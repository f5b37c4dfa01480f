//! A software raycasting renderer over a tile grid.
//!
//! Each frame is drawn in three passes into an RGBA byte buffer: floor and ceiling
//! (`floor`), walls found by grid traversal (`raycast`, `walls`), and billboard sprites
//! composited from far to near against the walls' per-column depth (`sprites`, `order`).
//! `render` puts the passes together; `shading` holds the darkening shared by all three.
//!
//! Positions, directions and distances are 16.16 fixed-point integers (`shading::ONE`
//! is one world unit), so that every pass is exact and its result is stated in full.
//!
//! Around the renderer: the tile grid (`map`), generated from text rooms (`mapgen`),
//! textures and their atlas (`graphics`, `assets`), path finding on the grid (`astar`),
//! keyboard state (`input`) and sprite-sheet text (`text`).
pub mod map;
pub mod graphics;
pub mod shading;
pub mod fixed;
pub mod raycast;
pub mod frame;
pub mod walls;
pub mod floor;
pub mod sprites;
pub mod assets;
pub mod order;
pub mod render;
pub mod mapgen;
pub mod astar;
pub mod input;
pub mod text;
