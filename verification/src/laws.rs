//! What the library promises, told by its inputs and results alone.

pub mod actions;
pub mod attempt;
pub mod buttons;
pub mod calls;
pub mod prompts;
pub mod scan;
pub mod searches;
pub mod text;
pub mod tree;
pub mod trust;
pub mod windows;
