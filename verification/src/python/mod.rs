//! Values and commands exchanged with Python sessions.

pub mod expr_laws;
pub mod frame_laws;
pub mod json_laws;
pub mod laws;
pub mod manager;
pub mod parse;
pub mod protocol;
pub mod refusal_laws;
