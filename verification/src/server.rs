//! The request-parsing side of the server: where a request's text or JSON
//! message is classified before it is answered or queued.
use vstd::prelude::*;
use crate::execution::{cleaned, RequestResult};
use crate::shared::{address_text, local_address, Calculation, Command, InputType, MsgContentTypes, RequestType, KILL_STR};
use crate::text::{chars_of, starts_with_str, string_from, sub_chars, trim, trim_nul};

verus! {

/// A server that listens on a port of the loopback address.
pub struct Server {
    input_type: InputType,
    port: u32,
}

/// What a read from a connection gave the server.
#[derive(Debug)]
pub enum Received {
    /// The bytes read, decoded as UTF-8 (a text-mode server).
    Text(String),
    /// The decoded JSON message (a JSON-mode server).
    Message(MsgContentTypes),
    /// The read failed, with the error's text.
    Failed(String),
}

/// How a text request is classified: the request type, the constructor, and
/// the text it carries.
pub enum TextRequest {
    Command(Seq<char>),
    Expression(Seq<char>),
}

/// The classification of a text request by its prefix: `SYNC;KILL` stops
/// the server, `SYNC;` and `ASYNC;` carry an expression of that request
/// type; without a prefix, `KILL` stops the server and anything else is a
/// synchronous expression.
pub open spec fn text_request(s: Seq<char>) -> (RequestType, TextRequest) {
    if "SYNC;KILL"@.is_prefix_of(s) {
        (RequestType::SYNC, TextRequest::Command(s.skip("SYNC;"@.len() as int)))
    } else if "SYNC;"@.is_prefix_of(s) {
        (RequestType::SYNC, TextRequest::Expression(s.skip("SYNC;"@.len() as int)))
    } else if "ASYNC;"@.is_prefix_of(s) {
        (RequestType::ASYNC, TextRequest::Expression(s.skip("ASYNC;"@.len() as int)))
    } else if "KILL"@.is_prefix_of(s) {
        (RequestType::SYNC, TextRequest::Command(s))
    } else {
        (RequestType::SYNC, TextRequest::Expression(s))
    }
}

/// `result` is what the classification `c` of a text request yields.
pub open spec fn text_result_matches(c: TextRequest, result: RequestResult) -> bool {
    match c {
        TextRequest::Command(x) => result matches RequestResult::ParsedStrCommand(y) && y@ == x,
        TextRequest::Expression(x) => result matches RequestResult::ParsedStr(y) && y@ == x,
    }
}

impl Server {
    /// How the server reads requests.
    pub closed spec fn kind(&self) -> InputType {
        self.input_type
    }

    /// The port the server listens on.
    pub closed spec fn port_number(&self) -> u32 {
        self.port
    }

    pub fn new(input_type: InputType, port: u32) -> (r: Self)
        ensures
            r.kind() == input_type,
            r.port_number() == port,
    {
        Server { input_type, port }
    }

    /// The address the server binds.
    pub fn address(&self) -> (r: String)
        ensures
            r@ == address_text(self.port_number()),
    {
        local_address(self.port)
    }

    /// For a JSON-mode server, the part of a read that is handed to the JSON
    /// decoder: the text with surrounding whitespace, then NUL characters,
    /// removed. A text-mode server decodes no JSON.
    pub fn json_payload(&self, request: &str) -> (r: Option<String>)
        ensures
            (self.kind() == InputType::JSON) == (r is Some),
            r matches Some(x) ==> x@ == cleaned(request@),
    {
        match self.input_type {
            InputType::STR => None,
            InputType::JSON => {
                let c = chars_of(request);
                let t = trim(c.as_slice());
                let u = trim_nul(t.as_slice());
                Some(string_from(u.as_slice()))
            },
        }
    }

    /// Classifies a request. A failed read is a synchronous error. A text
    /// request is classified by its prefix: `SYNC;KILL` stops the server,
    /// `SYNC;` and `ASYNC;` carry an expression; a request without a prefix
    /// is a stop command where it starts with `KILL` and a synchronous
    /// expression otherwise. A JSON message carries its own request type.
    pub fn parse_request(&self, received: Received) -> (r: (RequestType, RequestResult))
        requires
            received is Text ==> self.kind() == InputType::STR,
            received is Message ==> self.kind() == InputType::JSON,
        ensures
            match received {
                Received::Failed(e) => r.0 == RequestType::SYNC && (r.1 matches RequestResult::Error(
                    x,
                ) && x@ == e@),
                Received::Text(s) => r.0 == text_request(s@).0 && text_result_matches(
                    text_request(s@).1,
                    r.1,
                ),
                Received::Message(MsgContentTypes::Type1(c)) => r.0 == c.request_type && r.1
                    == RequestResult::ParsedJSONCalculation(c),
                Received::Message(MsgContentTypes::Type2(c)) => r.0 == c.operation_type && r.1
                    == RequestResult::ParsedJSONCommand(c),
            },
    {
        match received {
            Received::Failed(e) => (RequestType::SYNC, RequestResult::Error(e)),
            Received::Message(MsgContentTypes::Type1(op)) => {
                let t = op.request_type;
                (t, RequestResult::ParsedJSONCalculation(op))
            },
            Received::Message(MsgContentTypes::Type2(cmd)) => {
                let t = cmd.operation_type;
                (t, RequestResult::ParsedJSONCommand(cmd))
            },
            Received::Text(request_str) => {
                let s = chars_of(request_str.as_str());
                let n = s.len();
                if starts_with_str(s.as_slice(), "SYNC;KILL") {
                    proof {
                        reveal_strlit("SYNC;");
                        reveal_strlit("SYNC;KILL");
                    }
                    let p = chars_of("SYNC;");
                    let rest = sub_chars(s.as_slice(), p.len(), n);
                    assert(rest@ =~= s@.skip("SYNC;"@.len() as int));
                    (RequestType::SYNC, RequestResult::ParsedStrCommand(string_from(rest.as_slice())))
                } else if starts_with_str(s.as_slice(), "SYNC;") {
                    let p = chars_of("SYNC;");
                    let rest = sub_chars(s.as_slice(), p.len(), n);
                    assert(rest@ =~= s@.skip("SYNC;"@.len() as int));
                    (RequestType::SYNC, RequestResult::ParsedStr(string_from(rest.as_slice())))
                } else if starts_with_str(s.as_slice(), "ASYNC;") {
                    let p = chars_of("ASYNC;");
                    let rest = sub_chars(s.as_slice(), p.len(), n);
                    assert(rest@ =~= s@.skip("ASYNC;"@.len() as int));
                    (RequestType::ASYNC, RequestResult::ParsedStr(string_from(rest.as_slice())))
                } else if starts_with_str(s.as_slice(), "KILL") {
                    (RequestType::SYNC, RequestResult::ParsedStrCommand(request_str))
                } else {
                    (RequestType::SYNC, RequestResult::ParsedStr(request_str))
                }
            },
        }
    }
}

/// A text request is `SYNC;` or `ASYNC;` followed by the request, and the
/// server reads back exactly what follows the prefix: after `SYNC;`, a
/// request that starts with `KILL` is a stop command and any other is an
/// expression; after `ASYNC;`, every request is an expression.
pub proof fn lemma_text_request_prefixes(e: Seq<char>)
    ensures
        "KILL"@.is_prefix_of(e) ==> text_request("SYNC;"@ + e) == (
            RequestType::SYNC,
            TextRequest::Command(e),
        ),
        !"KILL"@.is_prefix_of(e) ==> text_request("SYNC;"@ + e) == (
            RequestType::SYNC,
            TextRequest::Expression(e),
        ),
        text_request("ASYNC;"@ + e) == (RequestType::ASYNC, TextRequest::Expression(e)),
{
    reveal_strlit("SYNC;");
    reveal_strlit("SYNC;KILL");
    reveal_strlit("KILL");
    reveal_strlit("ASYNC;");
    let s = "SYNC;"@ + e;
    assert(s.skip(5) =~= e);
    assert("SYNC;"@.is_prefix_of(s)) by {
        assert("SYNC;"@ =~= s.subrange(0, 5));
    }
    if "KILL"@.is_prefix_of(e) {
        assert("SYNC;KILL"@ =~= s.subrange(0, 9)) by {
            assert(e.subrange(0, 4) =~= "KILL"@);
            assert forall|q: int| 5 <= q < 9 implies s[q] == "SYNC;KILL"@[q] by {
                assert(s[q] == e[q - 5]);
                assert(e[q - 5] == "KILL"@[q - 5]);
            }
        }
    } else {
        if "SYNC;KILL"@.is_prefix_of(s) {
            assert("KILL"@ =~= e.subrange(0, 4)) by {
                assert forall|q: int| 0 <= q < 4 implies "KILL"@[q] == e[q] by {
                    assert("SYNC;KILL"@[q + 5] == s[q + 5]);
                }
            }
        }
    }
    let a = "ASYNC;"@ + e;
    assert(a.skip(6) =~= e);
    assert("ASYNC;"@ =~= a.subrange(0, 6));
    assert(a[0] == 'A');
    assert(!"SYNC;KILL"@.is_prefix_of(a)) by {
        if "SYNC;KILL"@.is_prefix_of(a) {
            assert("SYNC;KILL"@[0] == a[0]);
        }
    }
    assert(!"SYNC;"@.is_prefix_of(a)) by {
        if "SYNC;"@.is_prefix_of(a) {
            assert("SYNC;"@[0] == a[0]);
        }
    }
}

/// A request written without a prefix is synchronous: the client's stop
/// message (`KILL`, whatever padding the read leaves behind it) is a stop
/// command that carries the whole request, and any other request is an
/// expression, the whole request.
pub proof fn lemma_bare_text_requests(e: Seq<char>)
    requires
        !"SYNC;"@.is_prefix_of(e),
        !"ASYNC;"@.is_prefix_of(e),
    ensures
        "KILL"@.is_prefix_of(e) ==> text_request(e) == (RequestType::SYNC, TextRequest::Command(e)),
        !"KILL"@.is_prefix_of(e) ==> text_request(e) == (
            RequestType::SYNC,
            TextRequest::Expression(e),
        ),
        text_request(KILL_STR@ + e) == (RequestType::SYNC, TextRequest::Command(KILL_STR@ + e)),
{
    reveal_strlit("SYNC;");
    reveal_strlit("SYNC;KILL");
    reveal_strlit("KILL");
    reveal_strlit("ASYNC;");
    if "SYNC;KILL"@.is_prefix_of(e) {
        assert("SYNC;"@ =~= e.subrange(0, 5)) by {
            assert forall|q: int| 0 <= q < 5 implies "SYNC;"@[q] == e[q] by {
                assert("SYNC;KILL"@[q] == e[q]);
            }
        }
    }
    let k = KILL_STR@ + e;
    assert(KILL_STR@ == "KILL"@);
    assert(k[0] == 'K');
    assert("KILL"@ =~= k.subrange(0, 4));
    assert(!"SYNC;KILL"@.is_prefix_of(k)) by {
        if "SYNC;KILL"@.is_prefix_of(k) {
            assert("SYNC;KILL"@[0] == k[0]);
        }
    }
    assert(!"SYNC;"@.is_prefix_of(k)) by {
        if "SYNC;"@.is_prefix_of(k) {
            assert("SYNC;"@[0] == k[0]);
        }
    }
    assert(!"ASYNC;"@.is_prefix_of(k)) by {
        if "ASYNC;"@.is_prefix_of(k) {
            assert("ASYNC;"@[0] == k[0]);
        }
    }
}

} // verus!
