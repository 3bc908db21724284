use rrpc::plain::server::{evaluate_expr, Server};
use rrpc::plain::shared::{Calculation, InputType};

#[test]
fn plain_server_answers() {
    let server = Server::new(InputType::STR, 8080);
    let cases = vec![
        ("2+4", "6"),
        ("2+5", "7"),
        ("22+15", "37"),
        ("5-2", "3"),
        ("5*2", "10"),
        ("5/2", "2"),
        ("5/0", "Division by zero"),
    ];
    for (input, expected) in cases {
        let mut buffer = input.to_string();
        buffer.push_str(&"\0".repeat(16));
        assert_eq!(server.handle_client(&buffer), expected);
    }
    assert_eq!(server.address(), "127.0.0.1:8080");
}

#[test]
fn plain_expression_without_operator() {
    assert_eq!(evaluate_expr("42"), "Final return Invalid expr. Expect <opr1>+<opr2>");
    assert_eq!(evaluate_expr(""), "Final return Invalid expr. Expect <opr1>+<opr2>");
}

#[test]
fn plain_calculation_fields() {
    let c = Calculation { operand1: 1, operand2: 2, operator: "+".to_string() };
    assert_eq!(c.operand1 + c.operand2, 3);
    assert_eq!(c.operator, "+");
}
