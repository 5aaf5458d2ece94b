//! Post-quantum hybrid mode: ML-KEM-768 alongside X25519.
pub mod kem;
pub mod pq_derive;
pub mod hybrid;
pub mod envelope;
