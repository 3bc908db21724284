//! The types of the text-only server.
use vstd::prelude::*;

verus! {

/// How the server reads requests.
#[derive(Clone, Copy, Debug, PartialEq, Eq, Structural)]
pub enum InputType {
    STR,
    JSON,
}

/// A calculation request.
#[derive(Debug)]
pub struct Calculation {
    pub operand1: i32,
    pub operand2: i32,
    pub operator: String,
}

} // verus!
