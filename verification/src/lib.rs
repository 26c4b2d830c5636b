//! A quiz runner's core: the questionnaire text format and the question-by-question session.

pub mod grammar;
pub mod laws;
pub mod parse;
pub mod text;
pub mod types;
pub mod ui;
pub mod written;
