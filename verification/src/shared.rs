//! The message types that the clients and servers exchange.
use vstd::prelude::*;
use crate::number::{int_text, u32_text};
use crate::text::{push_chars, push_str, string_from};

verus! {

/// How a server reads its requests and a client writes them: as plain text
/// or as JSON.
#[derive(Clone, Copy, Debug, PartialEq, Eq, Structural)]
pub enum InputType {
    STR,
    JSON,
}

/// Whether the sender waits for the answer.
#[derive(Clone, Copy, Debug, PartialEq, Eq, Structural)]
pub enum RequestType {
    SYNC,
    ASYNC,
}

/// A JSON request for one arithmetic operation.
#[derive(Debug)]
pub struct Calculation {
    pub operand1: i32,
    pub operand2: i32,
    pub operator: String,
    pub request_type: RequestType,
}

/// A JSON command, such as the one that stops a server.
#[derive(Debug)]
pub struct Command {
    pub cmd: String,
    pub operation_type: RequestType,
}

/// The two kinds of JSON message.
#[derive(Debug)]
pub enum MsgContentTypes {
    Type1(Calculation),
    Type2(Command),
}

/// The JSON message that asks a server to stop.
pub const KILL_JSON: &'static str = "
{
    \"type\": \"command\",
    \"cmd\": \"KILL\"
}";

/// The text message that asks a server to stop.
pub const KILL_STR: &'static str = "KILL";

/// The loopback address with the given port, as the servers bind it and the
/// clients connect to it.
pub open spec fn address_text(port: u32) -> Seq<char> {
    "127.0.0.1:"@ + int_text(port as int)
}

/// `format!("127.0.0.1:{}", port)`.
pub fn local_address(port: u32) -> (r: String)
    ensures
        r@ == address_text(port),
{
    let mut out: Vec<char> = Vec::new();
    push_str(&mut out, "127.0.0.1:");
    let digits = u32_text(port);
    push_chars(&mut out, digits.as_slice());
    string_from(out.as_slice())
}

} // verus!
