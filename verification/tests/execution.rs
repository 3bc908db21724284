use rrpc::execution::{evaluate, evaluate_expr, evaluate_expr_json, Operation, RequestResult, Step};
use rrpc::shared::{Calculation, Command, RequestType};

fn chars(s: &str) -> Vec<char> {
    s.chars().collect()
}

#[test]
fn text_expressions_from_the_str_protocol() {
    let cases = vec![
        ("2+4", "6"),
        ("2+5", "7"),
        ("22+15", "37"),
        ("5-2", "3"),
        ("5*2", "10"),
        ("5/2", "2"),
        ("5/0", "Division by zero"),
    ];
    for (input, expected) in cases {
        assert_eq!(evaluate_expr(input), Ok(expected.to_string()));
    }
}

#[test]
fn padding_of_the_read_buffer_is_ignored() {
    let mut buffer = String::from("  7-10");
    buffer.push_str(&"\0".repeat(40));
    assert_eq!(evaluate_expr(&buffer), Ok("-3".to_string()));
}

#[test]
fn kill_is_echoed() {
    assert_eq!(evaluate_expr("KILL"), Ok("KILL".to_string()));
    assert_eq!(evaluate_expr(" KILL\0\0"), Ok("KILL".to_string()));
}

#[test]
fn expression_errors() {
    assert_eq!(
        evaluate_expr("123"),
        Err("Final return Invalid expr. Expect <opr1>+<opr2>".to_string())
    );
    assert_eq!(evaluate_expr("4%2"), Err("Operand '%' is not supported".to_string()));
    assert_eq!(evaluate_expr("abc"), Err("Operand 'a' is not supported".to_string()));
}

#[test]
fn negative_quotients_round_toward_zero() {
    assert_eq!(evaluate(&chars("7"), &chars("-2"), Operation::Divide), "-3");
    assert_eq!(evaluate(&chars("-7"), &chars("2"), Operation::Divide), "-3");
    assert_eq!(evaluate(&chars("-2147483648"), &chars("1"), Operation::Divide), "-2147483648");
    assert_eq!(evaluate(&chars("+12"), &chars("-0"), Operation::Multiply), "0");
}

#[test]
fn json_calculation() {
    let calc = Calculation { operand1: 1, operand2: 2, operator: "+".to_string(), request_type: RequestType::SYNC };
    assert_eq!(evaluate_expr_json(&calc), Ok("3".to_string()));
    let calc = Calculation { operand1: -9, operand2: 4, operator: "/x".to_string(), request_type: RequestType::SYNC };
    assert_eq!(evaluate_expr_json(&calc), Ok("-2".to_string()));
    let calc = Calculation { operand1: 9, operand2: 0, operator: "/".to_string(), request_type: RequestType::ASYNC };
    assert_eq!(evaluate_expr_json(&calc), Ok("Division by zero".to_string()));
    let calc = Calculation { operand1: 9, operand2: 1, operator: "^".to_string(), request_type: RequestType::SYNC };
    assert_eq!(evaluate_expr_json(&calc), Err("Operand '^' is not supported".to_string()));
}

#[test]
fn steps_of_the_server() {
    let r = RequestResult::ParsedStr("6*7".to_string());
    assert!(matches!(r.evaluate(RequestType::SYNC), Step::Respond(Ok(s)) if s == "42"));
    assert!(matches!(r.evaluate(RequestType::ASYNC), Step::Enqueue));
    let r = RequestResult::ParsedStrCommand("KILL".to_string());
    assert!(matches!(r.evaluate(RequestType::SYNC), Step::Stop));
    let r = RequestResult::ParsedJSONCommand(Command { cmd: "KILL".to_string(), operation_type: RequestType::SYNC });
    assert!(matches!(r.evaluate(RequestType::SYNC), Step::Stop));
    let r = RequestResult::Error("connection reset".to_string());
    assert!(matches!(r.evaluate(RequestType::SYNC), Step::Skip));
    let r = RequestResult::ParsedJSONCalculation(Calculation {
        operand1: 3,
        operand2: 4,
        operator: "-".to_string(),
        request_type: RequestType::SYNC,
    });
    assert!(matches!(r.evaluate(RequestType::SYNC), Step::Respond(Ok(s)) if s == "-1"));
    let r = RequestResult::ParsedStr("1?1".to_string());
    assert!(matches!(r.evaluate(RequestType::SYNC), Step::Respond(Err(s)) if s == "Operand '?' is not supported"));
}

#[test]
fn surrounding_padding_changes_no_answer() {
    for e in ["2+4", "5/0", "4%2", "KILL", "123", ""] {
        let padded = format!("{}{}", e, "\0".repeat(17));
        assert_eq!(evaluate_expr(&padded), evaluate_expr(e));
        let led = format!(" \t\n{}", e);
        assert_eq!(evaluate_expr(&led), evaluate_expr(e));
    }
}
