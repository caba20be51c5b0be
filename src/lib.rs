//! Styled text on a character grid: a deferred-instruction canvas and a
//! recursive pane-layout engine with connected, disconnected or gap borders.

pub mod codes;
pub mod style;
pub mod text;
pub mod border;
pub mod canvas;
pub mod layout;
pub mod tiling;
pub mod input;

pub use border::{BorderStyle, GlyphCountError};
pub use canvas::{Canvas, InstructionBuffer};
pub use layout::{split_extents, LayoutError, PaneSize, Paner};
pub use style::{Color, Style};
