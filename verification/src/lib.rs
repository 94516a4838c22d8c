//! Pixel-art canvas model: colours, pixel grids, layers, drawing tools,
//! canvas templates and the editor state that ties them together.

pub mod color;
pub mod grid;
pub mod fill;
pub mod tools;
pub mod layer;
pub mod text;
pub mod footage;
pub mod export;
pub mod editor;
