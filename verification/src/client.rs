//! The client side: which server it talks to and what it sends to stop it.
use vstd::prelude::*;
use crate::shared::{address_text, local_address, InputType, KILL_JSON, KILL_STR};

verus! {

/// A client of a server on a port of the loopback address.
pub struct Client {
    input_type: InputType,
    port: u32,
}

impl Client {
    /// How the client writes requests.
    pub closed spec fn kind(&self) -> InputType {
        self.input_type
    }

    /// The port of the server.
    pub closed spec fn port_number(&self) -> u32 {
        self.port
    }

    pub fn new(input_type: InputType, port: u32) -> (r: Self)
        ensures
            r.kind() == input_type,
            r.port_number() == port,
    {
        Client { input_type, port }
    }

    /// The message that asks the server to stop: `KILL` in text mode, the
    /// JSON command in JSON mode. It is sent as a synchronous request.
    pub fn kill(&self) -> (r: &'static str)
        ensures
            r@ == (if self.kind() == InputType::STR {
                KILL_STR@
            } else {
                KILL_JSON@
            }),
    {
        match self.input_type {
            InputType::STR => KILL_STR,
            InputType::JSON => KILL_JSON,
        }
    }

    /// The address of the server.
    pub fn address(&self) -> (r: String)
        ensures
            r@ == address_text(self.port_number()),
    {
        local_address(self.port)
    }
}

} // verus!
