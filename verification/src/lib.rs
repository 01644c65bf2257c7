pub mod format;
pub mod inspect;
pub mod laws;
