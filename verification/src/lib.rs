//! Decides whether a Chromium browser window shows its own remote-debugging
//! consent prompt, and which button of that prompt grants the request.

pub mod actions;
pub mod buttons;
pub mod console;
pub mod independence;
pub mod laws;
pub mod look;
pub mod native;
pub mod node;
pub mod owned;
pub mod refusal;
pub mod session;
pub mod surface;
pub mod target;
pub mod text;

