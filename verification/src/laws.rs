//! What holds of the library as a whole: laws that relate several of its functions, each
//! proved from the functions' contracts.

pub mod key_generation;
pub mod serialization;
pub mod signing;
