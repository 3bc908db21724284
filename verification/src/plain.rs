//! The first, text-only server: it answers every connection with the value of
//! the arithmetic expression it reads.
pub mod server;
pub mod shared;
