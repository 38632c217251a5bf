pub mod ecc;
pub mod engine;
pub mod password;
pub mod pn;
pub mod prng;
pub mod scramble;
pub mod sha;
