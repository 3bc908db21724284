//! The interface-file reader: reads `ENUM`, `STRUCT` and `FUNCTION` blocks and
//! writes the Rust code of a client and of a server for them.
pub mod templates;
pub mod blocks;
pub mod files;
