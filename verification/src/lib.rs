//! A small remote-procedure-call toolkit: the interface-file reader that
//! writes client and server code, the request parsers and the arithmetic
//! evaluator of the servers, and the client side of the protocol.
pub mod text;
pub mod number;
pub mod shared;
pub mod execution;
pub mod server;
pub mod client;
pub mod plain;
pub mod example;
pub mod codegen;
