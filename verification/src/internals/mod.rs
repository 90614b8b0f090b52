pub mod file_status;
pub mod hash;
pub mod head;
pub mod objects;
