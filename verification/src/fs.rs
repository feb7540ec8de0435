pub mod dir;
pub mod file;
