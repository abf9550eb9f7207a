//! The pure parts of the game client: its copy of the world, what the renderer counts and
//! sizes, how the mesher reads blocks across chunk borders, and the texts, fonts and layouts
//! of its user interface.

pub mod world;
pub mod chunk_renderer;
pub mod renderer;
pub mod portal_renderer;
pub mod crosshair;
pub mod quads;
pub mod mesh;
pub mod greedy;
pub mod particles;
pub mod debug_overlay;
pub mod text_overlay;
pub mod main_menu;
pub mod inventory;
