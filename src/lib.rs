pub mod engine;
pub mod solution;
pub mod error;
pub mod drill;
pub mod laws;
pub mod wallet;
