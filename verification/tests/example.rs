use rrpc::example::{area_of_square, hello_world_fn, Operand, RpcFunction};

#[test]
fn hello_world_answers_zero() {
    let r = hello_world_fn.call(vec![Operand::Str("hi".to_string()), Operand::Int(5)]);
    assert!(matches!(r, Operand::Int(0)));
}

#[test]
fn area_is_the_product() {
    let r = area_of_square.call(vec![Operand::Int(3), Operand::Int(-4)]);
    assert!(matches!(r, Operand::Int(-12)));
    let r = area_of_square.call(vec![Operand::Int(1 << 31), Operand::Int(1 << 31)]);
    assert!(matches!(r, Operand::Int(v) if v == 1i64 << 62));
}
