pub mod key_id;
pub mod read;
pub mod scope;
pub mod spend;
