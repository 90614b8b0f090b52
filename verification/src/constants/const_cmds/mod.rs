pub mod flags;
pub mod keywords;
