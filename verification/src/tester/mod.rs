pub mod apk;
pub mod inflate;
pub mod axml;
pub mod synthetic;
pub mod runner;
