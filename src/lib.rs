//! Parallel search for the first Fibonacci number whose decimal form
//! contains a given byte string.
pub mod bigint;
pub mod digits;
pub mod fib;
pub mod search;

pub use search::{search_part, CalcStatus, Status, NOT_FOUND};
