//! Session state and resource naming of the memory server.
pub mod session;
pub mod resources;
pub mod tools;
