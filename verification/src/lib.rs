//! Primality of 64-bit unsigned integers, with the decimal text handling
//! needed to answer a query given as a string.

pub mod command;
pub mod decimal;
pub mod prime;
pub mod sqrt;

pub use command::check_prime;
pub use prime::is_prime;
