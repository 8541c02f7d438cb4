//! A diagram editor core: a model of boxes, diamonds, free text and frames
//! connected by orthogonal connectors on a character grid, a deterministic
//! renderer that turns the model into ASCII art, and the keyboard/mouse
//! state machine that edits the model.

pub mod chars;
pub mod editor;
pub mod model;
pub mod renderer;
pub mod text;
