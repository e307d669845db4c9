use stakk::eval::{eval, RuntimeError};
use stakk::parser::{CompileError, Parser};
use stakk::utils::{JumpPointer, Node, Op, Type, Value};

fn compile(src: &str) -> Result<Parser, CompileError> {
    let code: Vec<char> = src.chars().collect();
    Parser::parse(&code, None)
}

fn run(src: &str) -> (Vec<Value>, Result<bool, RuntimeError>) {
    let p = compile(src).expect("compiles");
    let ex = eval(&p.ast, 100_000);
    (ex.output, ex.result)
}

fn printed(src: &str) -> Vec<String> {
    let (out, res) = run(src);
    assert!(matches!(res, Ok(true)));
    out.iter().map(|v| v.to_text()).collect()
}

fn ints(vals: &[Value]) -> Vec<i64> {
    vals.iter()
        .map(|v| match v {
            Value::Int(n) => *n,
            other => panic!("not an int: {:?}", other),
        })
        .collect()
}

#[test]
fn addition_prints_sum() {
    let (out, res) = run("3 4 + skrivnl");
    assert_eq!(ints(&out), vec![7]);
    assert!(matches!(res, Ok(true)));
}

#[test]
fn addition_without_print_prints_nothing() {
    let (out, res) = run("3 4 +");
    assert!(out.is_empty());
    assert!(matches!(res, Ok(true)));
}

#[test]
fn arithmetic_left_to_right() {
    assert_eq!(printed("10 3 - 2 * skrivnl"), vec!["14"]);
    assert_eq!(printed("7 2 / skrivnl"), vec!["3"]);
    assert_eq!(printed("-7 2 / skrivnl"), vec!["-3"]);
    assert_eq!(printed("-7 2 % skrivnl"), vec!["-1"]);
    assert_eq!(printed("3 4 < skrivnl 4 3 < skrivnl"), vec!["sann", "usann"]);
    assert_eq!(printed("3 3 == skrivnl 3 4 >= skrivnl 3 3 <= skrivnl 5 2 > skrivnl"), vec!["sann", "usann", "sann", "sann"]);
    assert_eq!(printed("sann usann og skrivnl sann sann og skrivnl"), vec!["usann", "sann"]);
}

#[test]
fn strings_concatenate() {
    assert_eq!(printed("\"ab\" \"cd\" + skrivnl"), vec!["abcd"]);
    let (out, _) = run("\"hei du\" skrivnl");
    assert!(matches!(&out[0], Value::Str(s) if s == "hei du"));
}

#[test]
fn mixed_operands_are_a_type_error() {
    match compile("3 \"a\" +") {
        Err(CompileError::TypeError { operator, operand_types }) => {
            assert_eq!(operator, "+");
            assert_eq!(operand_types, vec![Type::Int, Type::Str]);
        }
        _ => panic!("expected a type error"),
    }
    assert!(matches!(compile("sann 1 og"), Err(CompileError::TypeError { .. })));
    assert!(matches!(compile("\"a\" \"b\" -"), Err(CompileError::TypeError { .. })));
}

#[test]
fn operator_without_operands_is_a_type_error() {
    match compile("1 +") {
        Err(CompileError::TypeError { operator, operand_types }) => {
            assert_eq!(operator, "+");
            assert_eq!(operand_types, vec![Type::Int]);
        }
        _ => panic!("expected a type error"),
    }
    assert!(matches!(compile("skrivnl"), Err(CompileError::TypeError { .. })));
}

#[test]
fn false_condition_skips_block() {
    assert!(printed("hvis usann { 1 skrivnl }").is_empty());
    assert_eq!(printed("hvis sann { 1 skrivnl }"), vec!["1"]);
}

#[test]
fn condition_must_follow_the_keyword() {
    assert!(matches!(compile("usann hvis { 1 skrivnl }"), Err(CompileError::ConditionError)));
    assert!(matches!(compile("hvis 1 { }"), Err(CompileError::ConditionError)));
}

#[test]
fn if_else_runs_exactly_one_block() {
    assert_eq!(printed("hvis sann { 1 skrivnl } ellers { 2 skrivnl }"), vec!["1"]);
    assert_eq!(printed("hvis usann { 1 skrivnl } ellers { 2 skrivnl }"), vec!["2"]);
    assert_eq!(printed("hvis 1 2 < { 1 skrivnl } ellers { 2 skrivnl } 3 skrivnl"), vec!["1", "3"]);
}

#[test]
fn else_if_arm() {
    assert_eq!(printed("hvis usann { 1 skrivnl } ellvis sann { 2 skrivnl }"), vec!["2"]);
    assert_eq!(printed("hvis sann { 1 skrivnl } ellvis sann { 2 skrivnl }"), vec!["1"]);
    assert!(printed("hvis usann { 1 skrivnl } ellvis usann { 2 skrivnl }").is_empty());
}

#[test]
fn else_without_conditional_is_misplaced() {
    assert!(matches!(compile("ellers { 1 skrivnl }"), Err(CompileError::MisplacedElse)));
    assert!(matches!(compile("ellvis sann { 1 skrivnl }"), Err(CompileError::MisplacedElse)));
    assert!(matches!(
        compile("hvis sann { } ellers { } ellers { }"),
        Err(CompileError::MisplacedElse)
    ));
}

#[test]
fn while_counts_down() {
    let src = "3 når dup 0 > {\n  dup skrivnl\n  1 -\n}\nslipp";
    assert_eq!(printed(src), vec!["3", "2", "1"]);
}

#[test]
fn while_with_false_condition_never_runs() {
    assert!(printed("når usann { 1 skrivnl } 2 skrivnl") == vec!["2"]);
}

#[test]
fn endless_loop_runs_out_of_steps() {
    let p = compile("når sann { }").unwrap();
    let ex = eval(&p.ast, 100);
    assert!(matches!(ex.result, Ok(false)));
}

#[test]
fn binding_then_loading() {
    assert_eq!(printed("var x = 5\nx skrivnl\n"), vec!["5"]);
    assert_eq!(printed("var x = 5\nvar x = 6\nx skrivnl\n"), vec!["6"]);
    assert_eq!(printed("var s = { \"a\" \"b\" + }\ns skrivnl"), vec!["ab"]);
}

#[test]
fn binding_compiles_to_define_value_return() {
    let p = compile("var x = 5\n").unwrap();
    assert_eq!(p.ast.len(), 3);
    assert!(matches!(&p.ast[0], Node::DefineConst(n) if n == "x"));
    assert!(matches!(&p.ast[1], Node::PushInt(5)));
    assert!(matches!(&p.ast[2], Node::Return(n) if n == "x"));
    assert!(p.type_stack.is_empty());
}

#[test]
fn binding_errors() {
    assert!(matches!(compile("var x 5"), Err(CompileError::MalformedBinding)));
    assert!(matches!(compile("var"), Err(CompileError::MalformedBinding)));
    assert!(matches!(compile("var + = 1"), Err(CompileError::MalformedBinding)));
    assert!(matches!(compile("var x = 1 2\n"), Err(CompileError::MalformedBinding)));
    assert!(matches!(compile("var x = 5\nvar x = \"a\"\n"), Err(CompileError::RebindingError(n)) if n == "x"));
    assert!(matches!(compile("var x = { 1"), Err(CompileError::UnterminatedBlock)));
}

#[test]
fn unknown_identifier_is_rejected() {
    assert!(matches!(compile("y skrivnl"), Err(CompileError::UnknownIdentifier(n)) if n == "y"));
}

#[test]
fn dup_copies_top_on_both_stacks() {
    let p = compile("5 dup").unwrap();
    assert_eq!(p.type_stack, vec![Type::Int, Type::Int]);
    assert!(matches!(p.ast[1], Node::Operator { op: Op::Dup, arity: 1 }));
    let ex = eval(&p.ast, 10);
    assert_eq!(ints(&ex.runtime.stack), vec![5, 5]);
}

#[test]
fn swap_reverses_top_two_on_both_stacks() {
    let p = compile("1 \"a\" snu").unwrap();
    assert_eq!(p.type_stack, vec![Type::Str, Type::Int]);
    let ex = eval(&p.ast, 10);
    assert!(matches!(&ex.runtime.stack[0], Value::Str(s) if s == "a"));
    assert!(matches!(ex.runtime.stack[1], Value::Int(1)));
}

#[test]
fn drop_and_over() {
    let p = compile("1 2 slipp").unwrap();
    assert_eq!(p.type_stack, vec![Type::Int]);
    assert_eq!(ints(&eval(&p.ast, 10).runtime.stack), vec![1]);
    let p = compile("1 2 over").unwrap();
    assert_eq!(p.type_stack, vec![Type::Int, Type::Int, Type::Int]);
    assert_eq!(ints(&eval(&p.ast, 10).runtime.stack), vec![1, 2, 1]);
}

#[test]
fn division_by_zero_is_a_runtime_error() {
    let (_, res) = run("1 0 /");
    assert!(matches!(res, Err(RuntimeError::DivisionByZero)));
    let (_, res) = run("1 0 %");
    assert!(matches!(res, Err(RuntimeError::DivisionByZero)));
}

#[test]
fn overflow_is_a_runtime_error() {
    let (_, res) = run("9223372036854775807 1 +");
    assert!(matches!(res, Err(RuntimeError::Overflow)));
    let (_, res) = run("-9223372036854775808 -1 /");
    assert!(matches!(res, Err(RuntimeError::Overflow)));
}

#[test]
fn number_limits() {
    assert_eq!(printed("-9223372036854775808 skrivnl"), vec!["-9223372036854775808"]);
    assert!(matches!(compile("9223372036854775808"), Err(CompileError::NumberOutOfRange)));
}

#[test]
fn block_and_string_errors() {
    assert!(matches!(compile("hvis sann { 1 skrivnl"), Err(CompileError::UnterminatedBlock)));
    assert!(matches!(compile("hvis sann"), Err(CompileError::MissingBlock)));
    assert!(matches!(compile("\"abc"), Err(CompileError::UnterminatedString)));
    assert!(matches!(compile("hvis sann { 1 }"), Err(CompileError::BlockStackError)));
}

#[test]
fn compiled_jump_offsets() {
    let p = compile("hvis sann { 1 skrivnl }").unwrap();
    assert_eq!(p.ast.len(), 5);
    assert!(matches!(&p.ast[1], Node::JumpIfFalse(j) if j.offset() == 3));
    assert!(matches!(p.ast[4], Node::EndOfIf));
    let p = compile("når sann { }").unwrap();
    assert!(matches!(&p.ast[1], Node::JumpIfFalse(j) if j.offset() == 1));
    assert!(matches!(&p.ast[2], Node::Jump(j) if j.offset() == -3));
}

#[test]
fn context_type_stack_is_inherited() {
    let code: Vec<char> = "1 +".chars().collect();
    let p = Parser::parse(&code, Some(vec![Type::Int])).unwrap();
    assert_eq!(p.type_stack, vec![Type::Int]);
}

#[test]
fn runtime_errors_on_hand_written_programs() {
    let ex = eval(&vec![Node::Operator { op: Op::SumInt, arity: 2 }], 10);
    assert!(matches!(ex.result, Err(RuntimeError::StackUnderflow)));
    let ex = eval(&vec![Node::Identifier("x".to_string())], 10);
    assert!(matches!(ex.result, Err(RuntimeError::UnboundName(n)) if n == "x"));
    let ex = eval(&vec![Node::Jump(JumpPointer::new(-5))], 10);
    assert!(matches!(ex.result, Err(RuntimeError::InvalidJump)));
    let ex = eval(&vec![Node::PushInt(1), Node::JumpIfFalse(JumpPointer::new(0))], 10);
    assert!(matches!(ex.result, Err(RuntimeError::TypeMismatch)));
    assert_eq!(ex.runtime.op_counter, 1);
}

#[test]
fn jump_pointer_resolves() {
    assert_eq!(JumpPointer::new(3).resolve(4), 7);
    assert_eq!(JumpPointer::new(-2).resolve(5), 3);
    assert_eq!(JumpPointer::new(0).resolve(9), 9);
}
