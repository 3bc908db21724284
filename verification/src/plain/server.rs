//! The text-only server's evaluator.
use vstd::prelude::*;
use crate::execution::{
    cleaned, cleaned_chars, no_operator_text, numeric_prefix, numeric_prefix_len, operands_around,
    operands_ok, operands_text, operation_for, operation_of, try_operands,
};
use crate::plain::shared::InputType;
use crate::shared::{address_text, local_address};
use crate::text::{char_width, string_of, utf8_width};

verus! {

/// The expressions on which `evaluate_expr` neither slices inside a
/// character, nor meets an unsupported operator (it panics on one), nor fails
/// to read an operand, nor overflows.
pub open spec fn plain_defined(s: Seq<char>) -> bool {
    let t = cleaned(s);
    let k = numeric_prefix_len(t);
    k < t.len() ==> {
        &&& utf8_width(t[k]) == 1
        &&& operation_of(t[k]) is Some
        &&& operands_ok(t.take(k), t.skip(k + 1), operation_of(t[k])->0)
    }
}

/// What `evaluate_expr` answers.
pub open spec fn plain_result(s: Seq<char>) -> Seq<char> {
    let t = cleaned(s);
    let k = numeric_prefix_len(t);
    if k >= t.len() {
        no_operator_text()
    } else {
        operands_text(t.take(k), t.skip(k + 1), operation_of(t[k])->0)
    }
}

/// The text-only server.
pub struct Server {
    input_type: InputType,
    port: u32,
}

impl Server {
    /// How the server reads requests.
    pub closed spec fn kind(&self) -> InputType {
        self.input_type
    }

    /// The port the server listens on.
    pub closed spec fn port_number(&self) -> u32 {
        self.port
    }

    pub fn new(input_type: InputType, port: u32) -> (r: Self)
        ensures
            r.kind() == input_type,
            r.port_number() == port,
    {
        Server { input_type, port }
    }

    /// The address the server binds.
    pub fn address(&self) -> (r: String)
        ensures
            r@ == address_text(self.port_number()),
    {
        local_address(self.port)
    }

    /// The answer to the text read from a connection where `handle_client`
    /// gives one; `None` in JSON mode and where the evaluator would stop.
    pub fn try_handle_client(&self, request: &str) -> (r: Option<String>)
        ensures
            r is Some <==> (self.kind() == InputType::STR && plain_defined(request@)),
            r matches Some(x) ==> x@ == plain_result(request@),
    {
        match self.input_type {
            InputType::JSON => None,
            InputType::STR => if try_evaluate_expr(request).is_some() {
                Some(self.handle_client(request))
            } else {
                None
            },
        }
    }

    /// The answer to the text read from a connection. Only text mode is
    /// served (JSON mode panics before it answers).
    pub fn handle_client(&self, request: &str) -> (r: String)
        requires
            self.kind() == InputType::STR,
            plain_defined(request@),
        ensures
            r@ == plain_result(request@),
    {
        evaluate_expr(request)
    }
}

/// Evaluates an expression where `evaluate_expr` can; `None` where it would
/// stop (an operator of more than one byte or not supported, an operand that
/// does not read as an `i32`, or an overflow).
pub fn try_evaluate_expr(expression: &str) -> (r: Option<String>)
    ensures
        r is Some <==> plain_defined(expression@),
        r matches Some(x) ==> x@ == plain_result(expression@),
{
    let t = cleaned_chars(expression);
    let k = numeric_prefix(t.as_slice());
    if k >= t.len() {
        return Some(string_of("Final return Invalid expr. Expect <opr1>+<opr2>"));
    }
    let op = t[k];
    if char_width(op) != 1 {
        return None;
    }
    let (operand1, operand2) = operands_around(t.as_slice(), k);
    match operation_for(op) {
        None => None,
        Some(operation) => try_operands(operand1.as_slice(), operand2.as_slice(), operation),
    }
}

/// Evaluates `<operand1><operator><operand2>`: the numeric characters before
/// the first other character are the first operand, that character the
/// operator, the rest the second operand.
pub fn evaluate_expr(expression: &str) -> (r: String)
    requires
        plain_defined(expression@),
    ensures
        r@ == plain_result(expression@),
{
    match try_evaluate_expr(expression) {
        Some(answer) => answer,
        None => {
            assert(false);
            String::new()
        },
    }
}

} // verus!
