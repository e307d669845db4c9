use stakk::render::decimal_text;
use stakk::utils::{JumpPointer, Node, Op, Value};

#[test]
fn values_print_as_the_language_writes_them() {
    assert_eq!(Value::Int(-42).to_text(), "-42");
    assert_eq!(Value::Int(0).to_text(), "0");
    assert_eq!(Value::Bool(true).to_text(), "sann");
    assert_eq!(Value::Bool(false).to_text(), "usann");
    assert_eq!(Value::Str("hei".to_string()).to_text(), "hei");
    assert_eq!(Value::Null.to_text(), "null");
}

#[test]
fn decimal_extremes() {
    assert_eq!(decimal_text(i64::MIN), "-9223372036854775808");
    assert_eq!(decimal_text(i64::MAX), "9223372036854775807");
    assert_eq!(decimal_text(1200), "1200");
}

#[test]
fn instructions_list_by_kind() {
    assert_eq!(Node::PushInt(12).to_text(), "12");
    assert_eq!(Node::PushBool(true).to_text(), "true");
    assert_eq!(Node::PushStr("hi".to_string()).to_text(), "\"hi\"");
    assert_eq!(Node::Operator { op: Op::SumInt, arity: 2 }.to_text(), "SumInt");
    assert_eq!(Node::Identifier("x".to_string()).to_text(), "x");
    assert_eq!(Node::Jump(JumpPointer::new(-3)).to_text(), "Jmp(-3)");
    assert_eq!(Node::JumpIfFalse(JumpPointer::new(4)).to_text(), "Jnt(4)");
    assert_eq!(Node::EndOfIf.to_text(), "EndOfIf");
    assert_eq!(Node::DefineConst("x".to_string()).to_text(), "DefConst(x)");
    assert_eq!(Node::Return("x".to_string()).to_text(), "Ret");
    assert_eq!(JumpPointer::new(-7).to_text(), "-7");
}
