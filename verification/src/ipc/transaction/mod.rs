//! Transaction codes of the core services.

pub mod activity;
pub mod package;
pub mod window;
pub mod input;
