//! What the terminal front end needs from the core: the input actions and
//! the state of a running quiz.

pub mod input;
pub mod laws;
pub mod widget;
