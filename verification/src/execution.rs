//! The arithmetic evaluator of the servers: requests of the form
//! `<operand1><operator><operand2>` in text, or a `Calculation` in JSON.
use vstd::prelude::*;
use crate::number::{fits_i32, i32_text, i32_value, int_text, lemma_i32_text_roundtrip, parse_i32};
use crate::shared::{Calculation, Command, RequestType};
use crate::text::{
    char_debug_text, char_width, chars_of, debug_char, is_numeric, is_text, lemma_padding_cleaned,
    nul_trimmed, numeric_char, whitespace_char,
    push_str, string_from, string_of, sub_chars, trim, trim_nul, trimmed, utf8_width,
};

verus! {

/// The four operations a request can ask for.
#[derive(Clone, Copy, Debug, PartialEq, Eq, Structural)]
pub enum Operation {
    Add,
    Subtract,
    Multiply,
    Divide,
}

/// The operation an operator character stands for.
pub open spec fn operation_of(c: char) -> Option<Operation> {
    if c == '*' {
        Some(Operation::Multiply)
    } else if c == '+' {
        Some(Operation::Add)
    } else if c == '-' {
        Some(Operation::Subtract)
    } else if c == '/' {
        Some(Operation::Divide)
    } else {
        None
    }
}

/// `i32` division, which rounds toward zero.
pub open spec fn quotient(a: int, b: int) -> int {
    let q = (if a < 0 { -a } else { a }) / (if b < 0 { -b } else { b });
    if (a < 0) != (b < 0) {
        -q
    } else {
        q
    }
}

/// The value of `a <op> b`; `None` for a division by zero.
pub open spec fn outcome(a: int, b: int, op: Operation) -> Option<int> {
    match op {
        Operation::Add => Some(a + b),
        Operation::Subtract => Some(a - b),
        Operation::Multiply => Some(a * b),
        Operation::Divide => if b == 0 {
            None
        } else {
            Some(quotient(a, b))
        },
    }
}

/// `a <op> b` stays inside `i32` (where it does not, `i32` arithmetic panics).
pub open spec fn outcome_fits(a: int, b: int, op: Operation) -> bool {
    match outcome(a, b, op) {
        Some(v) => fits_i32(v),
        None => true,
    }
}

/// The answer text for `a <op> b`.
pub open spec fn outcome_text(a: int, b: int, op: Operation) -> Seq<char> {
    match outcome(a, b, op) {
        Some(v) => int_text(v),
        None => "Division by zero"@,
    }
}

/// Both operand texts read as `i32` and the operation stays inside `i32`.
pub open spec fn operands_ok(o1: Seq<char>, o2: Seq<char>, op: Operation) -> bool {
    &&& i32_value(o1) is Some
    &&& i32_value(o2) is Some
    &&& outcome_fits(i32_value(o1)->0, i32_value(o2)->0, op)
}

/// The answer text for two operand texts.
pub open spec fn operands_text(o1: Seq<char>, o2: Seq<char>, op: Operation) -> Seq<char> {
    outcome_text(i32_value(o1)->0, i32_value(o2)->0, op)
}

/// The request text with surrounding whitespace, then surrounding NUL
/// characters, removed.
pub open spec fn cleaned(s: Seq<char>) -> Seq<char> {
    nul_trimmed(trimmed(s))
}

/// How many characters at the start of `s` are numeric.
pub open spec fn numeric_prefix_len(s: Seq<char>) -> int
    decreases s.len(),
{
    if s.len() > 0 && numeric_char(s[0]) {
        1 + numeric_prefix_len(s.drop_first())
    } else {
        0
    }
}

/// The answer to an operator that is not supported.
pub open spec fn unsupported_text(c: char) -> Seq<char> {
    "Operand "@ + char_debug_text(c) + " is not supported"@
}

/// The answer to a text without an operator.
pub open spec fn no_operator_text() -> Seq<char> {
    "Final return Invalid expr. Expect <opr1>+<opr2>"@
}

/// The text requests on which `evaluate_expr` neither slices inside a
/// character nor fails to read an operand nor overflows.
pub open spec fn expr_defined(s: Seq<char>) -> bool {
    let t = cleaned(s);
    let k = numeric_prefix_len(t);
    (t != "KILL"@ && k < t.len()) ==> {
        &&& utf8_width(t[k]) == 1
        &&& (operation_of(t[k]) matches Some(op) ==> operands_ok(t.take(k), t.skip(k + 1), op))
    }
}

/// What `evaluate_expr` answers for a text request.
pub open spec fn expr_result(s: Seq<char>) -> Result<Seq<char>, Seq<char>> {
    let t = cleaned(s);
    let k = numeric_prefix_len(t);
    if t == "KILL"@ {
        Ok("KILL"@)
    } else if k >= t.len() {
        Err(no_operator_text())
    } else {
        match operation_of(t[k]) {
            None => Err(unsupported_text(t[k])),
            Some(op) => Ok(operands_text(t.take(k), t.skip(k + 1), op)),
        }
    }
}

/// The JSON requests on which `evaluate_expr_json` neither unwraps a missing
/// operator nor overflows.
pub open spec fn json_defined(c: Calculation) -> bool {
    &&& c.operator@.len() > 0
    &&& (operation_of(c.operator@[0]) matches Some(op) ==> outcome_fits(
        c.operand1 as int,
        c.operand2 as int,
        op,
    ))
}

/// What `evaluate_expr_json` answers for a JSON request.
pub open spec fn json_result(c: Calculation) -> Result<Seq<char>, Seq<char>> {
    match operation_of(c.operator@[0]) {
        None => Err(unsupported_text(c.operator@[0])),
        Some(op) => Ok(outcome_text(c.operand1 as int, c.operand2 as int, op)),
    }
}

/// The texts of an answer.
pub open spec fn answer_view(r: Result<String, String>) -> Result<Seq<char>, Seq<char>> {
    match r {
        Ok(s) => Ok(s@),
        Err(s) => Err(s@),
    }
}

/// The operation of an operator character.
pub fn operation_for(c: char) -> (r: Option<Operation>)
    ensures
        r == operation_of(c),
{
    if c == '*' {
        Some(Operation::Multiply)
    } else if c == '+' {
        Some(Operation::Add)
    } else if c == '-' {
        Some(Operation::Subtract)
    } else if c == '/' {
        Some(Operation::Divide)
    } else {
        None
    }
}

/// The magnitude of an `i32`.
fn magnitude(a: i32) -> (r: u64)
    ensures
        r == (if a < 0 { -(a as int) } else { a as int }),
{
    if a < 0 {
        (0 - (a as i64)) as u64
    } else {
        a as u64
    }
}

/// Computes `a <op> b` and writes it, or reports a division by zero.
fn compute(a: i32, b: i32, operation: Operation) -> (r: String)
    requires
        outcome_fits(a as int, b as int, operation),
    ensures
        r@ == outcome_text(a as int, b as int, operation),
{
    let value: i32 = match operation {
        Operation::Add => ((a as i64) + (b as i64)) as i32,
        Operation::Subtract => ((a as i64) - (b as i64)) as i32,
        Operation::Multiply => {
            let x = a as i64;
            let y = b as i64;
            assert(-2147483648 <= x <= 2147483647 && -2147483648 <= y <= 2147483647 ==> -4611686018427387904
                <= x * y <= 4611686018427387904) by (nonlinear_arith);
            (x * y) as i32
        },
        Operation::Divide => {
            if b == 0 {
                return string_of("Division by zero");
            }
            let q = (magnitude(a) / magnitude(b)) as i64;
            if (a < 0) != (b < 0) {
                (0 - q) as i32
            } else {
                q as i32
            }
        },
    };
    let digits = i32_text(value);
    string_from(digits.as_slice())
}

/// Reads both operands and computes the operation: the answer text, or
/// `Division by zero`.
pub fn evaluate(operand1: &[char], operand2: &[char], operation: Operation) -> (r: String)
    requires
        operands_ok(operand1@, operand2@, operation),
    ensures
        r@ == operands_text(operand1@, operand2@, operation),
{
    let a = match parse_i32(operand1) {
        Some(v) => v,
        None => {
            assert(false);
            0
        },
    };
    let b = match parse_i32(operand2) {
        Some(v) => v,
        None => {
            assert(false);
            0
        },
    };
    compute(a, b, operation)
}

/// `Operand '<c>' is not supported`.
pub fn unsupported(c: char) -> (r: String)
    ensures
        r@ == unsupported_text(c),
{
    let mut out: Vec<char> = Vec::new();
    push_str(&mut out, "Operand ");
    let d = debug_char(c);
    push_str(&mut out, d.as_str());
    push_str(&mut out, " is not supported");
    string_from(out.as_slice())
}

/// The number of numeric characters at the start of `t`.
pub fn numeric_prefix(t: &[char]) -> (k: usize)
    ensures
        k == numeric_prefix_len(t@),
{
    let n = t.len();
    let mut k: usize = 0;
    assert(t@.skip(0) =~= t@);
    while k < n && is_numeric(t[k])
        invariant
            n == t@.len(),
            k <= n,
            numeric_prefix_len(t@) == k + numeric_prefix_len(t@.skip(k as int)),
        decreases n - k,
    {
        assert(t@.skip(k as int).drop_first() =~= t@.skip(k + 1));
        k = k + 1;
    }
    if k < n {
        assert(t@.skip(k as int)[0] == t@[k as int]);
    }
    k
}

/// Only `i32::MIN / -1` leaves `i32` among the quotients of `i32` values.
proof fn lemma_quotient_fits(a: int, b: int)
    requires
        fits_i32(a),
        fits_i32(b),
        b != 0,
    ensures
        fits_i32(quotient(a, b)) <==> !(a == i32::MIN && b == -1),
{
    let x = if a < 0 { -a } else { a };
    let y = if b < 0 { -b } else { b };
    assert(x >= 0 && y >= 1 ==> x / y <= x) by (nonlinear_arith);
    assert(x >= 0 && y >= 2 ==> x / y <= x / 2) by (nonlinear_arith);
    assert(x / 1 == x);
}

/// Whether `a <op> b` stays inside `i32`.
pub fn outcome_in_range(a: i32, b: i32, operation: Operation) -> (r: bool)
    ensures
        r == outcome_fits(a as int, b as int, operation),
{
    let x = a as i64;
    let y = b as i64;
    match operation {
        Operation::Add => {
            let v = x + y;
            -2147483648 <= v && v <= 2147483647
        },
        Operation::Subtract => {
            let v = x - y;
            -2147483648 <= v && v <= 2147483647
        },
        Operation::Multiply => {
            assert(-2147483648 <= x <= 2147483647 && -2147483648 <= y <= 2147483647 ==> -4611686018427387904
                <= x * y <= 4611686018427387904) by (nonlinear_arith);
            let v = x * y;
            -2147483648 <= v && v <= 2147483647
        },
        Operation::Divide => {
            proof {
                if b != 0 {
                    lemma_quotient_fits(a as int, b as int);
                }
            }
            !(a == i32::MIN && b == -1)
        },
    }
}

/// The text an expression is read from: the request with surrounding
/// whitespace, then NUL characters, removed.
pub(crate) fn cleaned_chars(expression: &str) -> (r: Vec<char>)
    ensures
        r@ == cleaned(expression@),
{
    let e = chars_of(expression);
    let t = trim(e.as_slice());
    trim_nul(t.as_slice())
}

/// The operands on both sides of the operator at `k`.
pub(crate) fn operands_around(t: &[char], k: usize) -> (r: (Vec<char>, Vec<char>))
    requires
        k < t@.len(),
    ensures
        r.0@ == t@.take(k as int),
        r.1@ == t@.skip(k + 1),
{
    let n = t.len();
    let operand1 = sub_chars(t, 0, k);
    let operand2 = sub_chars(t, k + 1, n);
    assert(operand1@ =~= t@.take(k as int));
    assert(operand2@ =~= t@.skip(k + 1));
    (operand1, operand2)
}

/// The answer for two operand texts where both read as `i32` and the
/// operation stays inside `i32`; `None` otherwise.
pub(crate) fn try_operands(operand1: &[char], operand2: &[char], operation: Operation) -> (r:
    Option<String>)
    ensures
        r is Some <==> operands_ok(operand1@, operand2@, operation),
        r matches Some(x) ==> x@ == operands_text(operand1@, operand2@, operation),
{
    let a = match parse_i32(operand1) {
        Some(v) => v,
        None => return None,
    };
    let b = match parse_i32(operand2) {
        Some(v) => v,
        None => return None,
    };
    if !outcome_in_range(a, b, operation) {
        return None;
    }
    Some(evaluate(operand1, operand2, operation))
}

/// Evaluates a text request where `evaluate_expr` can, and says `None` where
/// it cannot (where an operator of more than one byte, an operand that does
/// not read as an `i32`, or an overflow would stop it).
pub fn try_evaluate_expr(expression: &str) -> (r: Option<Result<String, String>>)
    ensures
        r is Some <==> expr_defined(expression@),
        r matches Some(a) ==> answer_view(a) == expr_result(expression@),
{
    let t = cleaned_chars(expression);
    if is_text(t.as_slice(), "KILL") {
        return Some(Ok(string_of("KILL")));
    }
    let k = numeric_prefix(t.as_slice());
    if k >= t.len() {
        return Some(Err(string_of("Final return Invalid expr. Expect <opr1>+<opr2>")));
    }
    let op = t[k];
    if char_width(op) != 1 {
        return None;
    }
    let (operand1, operand2) = operands_around(t.as_slice(), k);
    match operation_for(op) {
        None => Some(Err(unsupported(op))),
        Some(operation) => match try_operands(operand1.as_slice(), operand2.as_slice(), operation) {
            Some(answer) => Some(Ok(answer)),
            None => None,
        },
    }
}

/// Evaluates a text request: `KILL` is answered with `KILL`; otherwise the
/// numeric characters before the first other character are the first operand,
/// that character the operator, and the rest the second operand.
pub fn evaluate_expr(expression: &str) -> (r: Result<String, String>)
    requires
        expr_defined(expression@),
    ensures
        answer_view(r) == expr_result(expression@),
{
    match try_evaluate_expr(expression) {
        Some(answer) => answer,
        None => {
            assert(false);
            Err(String::new())
        },
    }
}

/// Evaluates a JSON request; the operator is the first character of its
/// `operator` field.
pub fn evaluate_expr_json(expr: &Calculation) -> (r: Result<String, String>)
    requires
        json_defined(*expr),
    ensures
        answer_view(r) == json_result(*expr),
{
    let operator = chars_of(expr.operator.as_str());
    let op_char = operator[0];
    let operation = match operation_for(op_char) {
        None => return Err(unsupported(op_char)),
        Some(o) => o,
    };
    let operand1 = i32_text(expr.operand1);
    let operand2 = i32_text(expr.operand2);
    proof {
        lemma_i32_text_roundtrip(expr.operand1);
        lemma_i32_text_roundtrip(expr.operand2);
    }
    Ok(evaluate(operand1.as_slice(), operand2.as_slice(), operation))
}

/// What a parsed request turned into.
#[derive(Debug)]
pub enum RequestResult {
    ParsedStr(String),
    ParsedStrCommand(String),
    ParsedJSONCalculation(Calculation),
    ParsedJSONCommand(Command),
    Error(String),
}

/// What the server does next with a request.
#[derive(Debug)]
pub enum Step {
    /// Write the answer back when it is `Ok`; go on to the next connection when it is `Err`.
    Respond(Result<String, String>),
    /// Stop serving.
    Stop,
    /// Go on to the next connection.
    Skip,
    /// Hand the request to the workers' queue.
    Enqueue,
}

impl RequestResult {
    /// The requests that `evaluate` can answer without a panic of the evaluator.
    pub open spec fn answerable(&self, request_type: RequestType) -> bool {
        request_type == RequestType::SYNC ==> match self {
            RequestResult::ParsedStr(s) => expr_defined(s@),
            RequestResult::ParsedJSONCalculation(c) => json_defined(*c),
            _ => true,
        }
    }

    /// Whether `evaluate` can decide on this request.
    pub fn is_answerable(&self, request_type: RequestType) -> (r: bool)
        ensures
            r == self.answerable(request_type),
    {
        match request_type {
            RequestType::ASYNC => true,
            RequestType::SYNC => match self {
                RequestResult::ParsedStr(s) => try_evaluate_expr(s.as_str()).is_some(),
                RequestResult::ParsedJSONCalculation(c) => {
                    let operator = chars_of(c.operator.as_str());
                    if operator.len() == 0 {
                        false
                    } else {
                        match operation_for(operator[0]) {
                            None => true,
                            Some(op) => outcome_in_range(c.operand1, c.operand2, op),
                        }
                    }
                },
                _ => true,
            },
        }
    }

    /// The server's decision for one parsed request: asynchronous requests go
    /// to the queue; of the synchronous ones, commands stop the server, errors
    /// are passed over, and calculations are answered.
    pub fn evaluate(&self, request_type: RequestType) -> (r: Step)
        requires
            self.answerable(request_type),
        ensures
            request_type == RequestType::ASYNC ==> r is Enqueue,
            request_type == RequestType::SYNC ==> match self {
                RequestResult::ParsedStrCommand(_) => r is Stop,
                RequestResult::ParsedJSONCommand(_) => r is Stop,
                RequestResult::Error(_) => r is Skip,
                RequestResult::ParsedStr(s) => r matches Step::Respond(a) && answer_view(a)
                    == expr_result(s@),
                RequestResult::ParsedJSONCalculation(c) => r matches Step::Respond(a) && answer_view(
                    a,
                ) == json_result(*c),
            },
    {
        match request_type {
            RequestType::ASYNC => Step::Enqueue,
            RequestType::SYNC => match self {
                RequestResult::ParsedStrCommand(_) => Step::Stop,
                RequestResult::ParsedJSONCommand(_) => Step::Stop,
                RequestResult::Error(_) => Step::Skip,
                RequestResult::ParsedStr(request) => Step::Respond(evaluate_expr(request.as_str())),
                RequestResult::ParsedJSONCalculation(request) => Step::Respond(
                    evaluate_expr_json(request),
                ),
            },
        }
    }

    /// The server's decision where `evaluate` can take it; `None` where the
    /// evaluator would stop (see `answerable`).
    pub fn try_evaluate(&self, request_type: RequestType) -> (r: Option<Step>)
        ensures
            r is Some <==> self.answerable(request_type),
            r matches Some(step) ==> {
                &&& request_type == RequestType::ASYNC ==> step is Enqueue
                &&& request_type == RequestType::SYNC ==> match self {
                    RequestResult::ParsedStrCommand(_) => step is Stop,
                    RequestResult::ParsedJSONCommand(_) => step is Stop,
                    RequestResult::Error(_) => step is Skip,
                    RequestResult::ParsedStr(s) => step matches Step::Respond(a) && answer_view(a)
                        == expr_result(s@),
                    RequestResult::ParsedJSONCalculation(c) => step matches Step::Respond(a)
                        && answer_view(a) == json_result(*c),
                }
            },
    {
        if self.is_answerable(request_type) {
            Some(self.evaluate(request_type))
        } else {
            None
        }
    }
}

/// Whitespace before a request, and NUL padding after a request that has no
/// surrounding whitespace, change neither whether `evaluate_expr` can answer
/// it nor its answer.
pub proof fn lemma_padding_changes_no_answer(e: Seq<char>, w: Seq<char>, z: Seq<char>)
    requires
        forall|k: int| 0 <= k < w.len() ==> whitespace_char(#[trigger] w[k]),
        forall|k: int| 0 <= k < z.len() ==> #[trigger] z[k] == '\0',
    ensures
        expr_defined(w + e) == expr_defined(e),
        expr_result(w + e) == expr_result(e),
        trimmed(e) == e ==> expr_defined(e + z) == expr_defined(e),
        trimmed(e) == e ==> expr_result(e + z) == expr_result(e),
{
    lemma_padding_cleaned(e, w, z);
}

/// The first operand is the longest run of numeric characters at the start
/// of a request: every character before `numeric_prefix_len(t)` is numeric,
/// and the character there, where there is one, is not.
pub proof fn lemma_numeric_prefix_is_longest(t: Seq<char>)
    ensures
        0 <= numeric_prefix_len(t) <= t.len(),
        forall|q: int| 0 <= q < numeric_prefix_len(t) ==> numeric_char(#[trigger] t[q]),
        numeric_prefix_len(t) < t.len() ==> !numeric_char(t[numeric_prefix_len(t)]),
    decreases t.len(),
{
    if t.len() > 0 && numeric_char(t[0]) {
        let u = t.drop_first();
        lemma_numeric_prefix_is_longest(u);
        assert forall|q: int| 0 <= q < numeric_prefix_len(t) implies numeric_char(#[trigger] t[q]) by {
            if q > 0 {
                assert(t[q] == u[q - 1]);
            }
        }
        if numeric_prefix_len(t) < t.len() {
            assert(t[numeric_prefix_len(t)] == u[numeric_prefix_len(u)]);
        }
    }
}

/// A run of numeric characters followed by a character that is not numeric
/// (an operator) is read whole as the first operand: the operator is the
/// character right after the run.
pub proof fn lemma_operand_run_read_whole(d: Seq<char>, c: char, e: Seq<char>)
    requires
        forall|q: int| 0 <= q < d.len() ==> numeric_char(#[trigger] d[q]),
        !numeric_char(c),
    ensures
        numeric_prefix_len(d + seq![c] + e) == d.len(),
    decreases d.len(),
{
    let t = d + seq![c] + e;
    if d.len() == 0 {
        assert(t[0] == c);
    } else {
        let d1 = d.drop_first();
        lemma_operand_run_read_whole(d1, c, e);
        assert(t.drop_first() =~= d1 + seq![c] + e);
        assert(t[0] == d[0]);
    }
}

} // verus!
