//! The rules and the static content of a small lane-battle game: its map,
//! the layout of the buildings at the start of a match, what the side panel
//! shows, and the decisions taken at each frame.

pub mod draw;
pub mod map;
pub mod ecs;
pub mod render_map;
pub mod text;
pub mod keybinds;
pub mod layout;
pub mod tick;
