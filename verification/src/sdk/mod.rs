pub mod policy;
pub mod storage;
pub mod fileverse;
pub mod keyring;
pub mod memory;
pub mod vault;
pub mod pipeline;
pub mod identity;
