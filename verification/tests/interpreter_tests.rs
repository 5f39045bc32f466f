use minilang::ast::{BinOpcode, LiteralType, LogOpcode, Node, NodeKind, OpClass, Opcode, RelOpcode};
use minilang::bindings::Bindings;
use minilang::error::{LangError, ValueKind};
use minilang::interpreter::{
    assign_var, eval_bin_op, eval_bool_rel_op, eval_log_op, eval_num_rel_op, eval_op, eval_rel_op,
    interp, run, visit, Value,
};

fn number(n: i32) -> Box<Node> {
    Box::new(Node::NumberLiteral(n))
}

fn boolean(b: bool) -> Box<Node> {
    Box::new(Node::BoolLiteral(b))
}

fn var(name: &str) -> Box<Node> {
    Box::new(Node::VarRef(name.to_string()))
}

fn binary(left: Box<Node>, op: Opcode, right: Box<Node>) -> Box<Node> {
    Box::new(Node::BinaryExpr(left, op, right))
}

fn let_stmt(name: &str, ty: LiteralType, init: Box<Node>, next: Option<Box<Node>>) -> Box<Node> {
    Box::new(Node::LetStatement {
        binding: Box::new(Node::VarBinding(name.to_string(), ty)),
        init_expr: init,
        next,
    })
}

fn print_stmt(expr: Box<Node>, next: Option<Box<Node>>) -> Box<Node> {
    Box::new(Node::PrintStatement { expr, next })
}

fn sum_program(a: i32, b: i32) -> Vec<Box<Node>> {
    vec![
        let_stmt("x", LiteralType::I32, binary(number(a), Opcode::Add, number(b)), None),
        print_stmt(var("x"), None),
    ]
}

#[test]
fn sum_is_bound_and_printed() {
    let done = interp(sum_program(2, 3)).unwrap();
    assert_eq!(done.output, vec![Value::Number(5)]);
    assert_eq!(done.vars.entries(), &vec![("x".to_string(), Value::Number(5))]);
}

#[test]
fn sum_of_negative_numbers() {
    let done = interp(sum_program(-40, 15)).unwrap();
    assert_eq!(done.output, vec![Value::Number(-25)]);
}

#[test]
fn sum_wraps_at_32_bits() {
    let done = interp(sum_program(i32::MAX, 1)).unwrap();
    assert_eq!(done.output, vec![Value::Number(i32::MIN)]);
    let done = interp(sum_program(i32::MIN, -1)).unwrap();
    assert_eq!(done.output, vec![Value::Number(i32::MAX)]);
}

#[test]
fn division_by_zero_ends_the_program() {
    let program = vec![
        let_stmt("x", LiteralType::I32, binary(number(9), Opcode::Div, number(0)), None),
        print_stmt(var("x"), None),
    ];
    assert_eq!(interp(program).unwrap_err().error, LangError::DivisionByZero);
}

#[test]
fn division_by_zero_is_reported() {
    assert_eq!(
        eval_bin_op(Value::Number(7), BinOpcode::Div, Value::Number(0)),
        Err(LangError::DivisionByZero)
    );
    assert_eq!(
        eval_bin_op(Value::Number(0), BinOpcode::Div, Value::Number(0)),
        Err(LangError::DivisionByZero)
    );
}

#[test]
fn arithmetic_on_numbers() {
    assert_eq!(eval_bin_op(Value::Number(6), BinOpcode::Add, Value::Number(7)), Ok(Value::Number(13)));
    assert_eq!(eval_bin_op(Value::Number(6), BinOpcode::Sub, Value::Number(7)), Ok(Value::Number(-1)));
    assert_eq!(eval_bin_op(Value::Number(6), BinOpcode::Mul, Value::Number(7)), Ok(Value::Number(42)));
    assert_eq!(eval_bin_op(Value::Number(45), BinOpcode::Div, Value::Number(7)), Ok(Value::Number(6)));
}

#[test]
fn quotient_rounds_towards_zero() {
    assert_eq!(eval_bin_op(Value::Number(-7), BinOpcode::Div, Value::Number(2)), Ok(Value::Number(-3)));
    assert_eq!(eval_bin_op(Value::Number(7), BinOpcode::Div, Value::Number(-2)), Ok(Value::Number(-3)));
    assert_eq!(eval_bin_op(Value::Number(-7), BinOpcode::Div, Value::Number(-2)), Ok(Value::Number(3)));
}

#[test]
fn arithmetic_wraps() {
    assert_eq!(
        eval_bin_op(Value::Number(i32::MIN), BinOpcode::Div, Value::Number(-1)),
        Ok(Value::Number(i32::MIN))
    );
    assert_eq!(
        eval_bin_op(Value::Number(i32::MIN), BinOpcode::Sub, Value::Number(1)),
        Ok(Value::Number(i32::MAX))
    );
    assert_eq!(
        eval_bin_op(Value::Number(65536), BinOpcode::Mul, Value::Number(65536)),
        Ok(Value::Number(0))
    );
    assert_eq!(
        eval_bin_op(Value::Number(i32::MAX), BinOpcode::Mul, Value::Number(2)),
        Ok(Value::Number(-2))
    );
}

#[test]
fn arithmetic_wants_numbers() {
    assert_eq!(
        eval_bin_op(Value::Bool(true), BinOpcode::Add, Value::Number(1)),
        Err(LangError::TypeMismatch(ValueKind::Number, ValueKind::Bool))
    );
    assert_eq!(
        eval_bin_op(Value::Number(1), BinOpcode::Add, Value::Unit),
        Err(LangError::TypeMismatch(ValueKind::Number, ValueKind::Unit))
    );
    assert_eq!(
        eval_bin_op(Value::Unit, BinOpcode::Mul, Value::Bool(false)),
        Err(LangError::TypeMismatch(ValueKind::Number, ValueKind::Unit))
    );
}

#[test]
fn rebinding_overwrites() {
    let program = vec![
        let_stmt("x", LiteralType::I32, number(1), None),
        let_stmt("y", LiteralType::I32, number(7), None),
        let_stmt("x", LiteralType::I32, number(2), None),
    ];
    let done = interp(program).unwrap();
    assert_eq!(
        done.vars.entries(),
        &vec![("x".to_string(), Value::Number(2)), ("y".to_string(), Value::Number(7))]
    );
    assert_eq!(done.vars.get(&"x".to_string()), Some(Value::Number(2)));
    assert!(done.output.is_empty());
}

#[test]
fn logical_connectives() {
    assert_eq!(eval_log_op(Value::Bool(true), LogOpcode::AND, Value::Bool(false)), Ok(Value::Bool(false)));
    assert_eq!(eval_log_op(Value::Bool(true), LogOpcode::OR, Value::Bool(false)), Ok(Value::Bool(true)));
    assert_eq!(eval_log_op(Value::Bool(true), LogOpcode::AND, Value::Bool(true)), Ok(Value::Bool(true)));
    assert_eq!(eval_log_op(Value::Bool(false), LogOpcode::OR, Value::Bool(false)), Ok(Value::Bool(false)));
}

#[test]
fn logical_connectives_through_the_interpreter() {
    let program = vec![
        print_stmt(binary(boolean(true), Opcode::AND, boolean(false)), None),
        print_stmt(binary(boolean(true), Opcode::OR, boolean(false)), None),
    ];
    let done = interp(program).unwrap();
    assert_eq!(done.output, vec![Value::Bool(false), Value::Bool(true)]);
}

#[test]
fn logical_connectives_want_booleans() {
    assert_eq!(
        eval_log_op(Value::Number(1), LogOpcode::AND, Value::Bool(true)),
        Err(LangError::TypeMismatch(ValueKind::Bool, ValueKind::Number))
    );
    assert_eq!(
        eval_log_op(Value::Bool(true), LogOpcode::OR, Value::Number(0)),
        Err(LangError::TypeMismatch(ValueKind::Bool, ValueKind::Number))
    );
}

#[test]
fn both_operands_are_evaluated() {
    // The right operand is not skipped when the left one decides the result.
    let program = vec![print_stmt(binary(boolean(false), Opcode::AND, var("missing")), None)];
    assert_eq!(interp(program).unwrap_err().error, LangError::UndefinedVariable("missing".to_string()));
}

#[test]
fn mixed_comparison_is_a_type_mismatch() {
    assert_eq!(
        eval_rel_op(Value::Number(1), RelOpcode::EQ, Value::Bool(true)),
        Err(LangError::TypeMismatch(ValueKind::Number, ValueKind::Bool))
    );
    assert_eq!(
        eval_rel_op(Value::Bool(true), RelOpcode::LT, Value::Number(1)),
        Err(LangError::TypeMismatch(ValueKind::Bool, ValueKind::Number))
    );
    let program = vec![print_stmt(binary(number(1), Opcode::NEQ, boolean(false)), None)];
    assert_eq!(
        interp(program).unwrap_err().error,
        LangError::TypeMismatch(ValueKind::Number, ValueKind::Bool)
    );
}

#[test]
fn comparisons_of_numbers() {
    assert_eq!(eval_num_rel_op(3, RelOpcode::EQ, 3), Value::Bool(true));
    assert_eq!(eval_num_rel_op(3, RelOpcode::NEQ, 3), Value::Bool(false));
    assert_eq!(eval_num_rel_op(4, RelOpcode::GT, 3), Value::Bool(true));
    assert_eq!(eval_num_rel_op(4, RelOpcode::LT, 3), Value::Bool(false));
    assert_eq!(eval_num_rel_op(3, RelOpcode::GEQ, 3), Value::Bool(true));
    assert_eq!(eval_num_rel_op(4, RelOpcode::LEQ, 3), Value::Bool(false));
    assert_eq!(eval_rel_op(Value::Number(-1), RelOpcode::LT, Value::Number(0)), Ok(Value::Bool(true)));
}

#[test]
fn comparisons_of_booleans() {
    assert_eq!(eval_bool_rel_op(true, RelOpcode::EQ, true), Ok(Value::Bool(true)));
    assert_eq!(eval_bool_rel_op(true, RelOpcode::NEQ, true), Ok(Value::Bool(false)));
    assert_eq!(
        eval_bool_rel_op(true, RelOpcode::GT, false),
        Err(LangError::TypeMismatch(ValueKind::Number, ValueKind::Bool))
    );
    assert_eq!(eval_rel_op(Value::Bool(false), RelOpcode::EQ, Value::Bool(true)), Ok(Value::Bool(false)));
    assert_eq!(
        eval_rel_op(Value::Unit, RelOpcode::EQ, Value::Unit),
        Err(LangError::TypeMismatch(ValueKind::Number, ValueKind::Unit))
    );
}

#[test]
fn operators_are_sorted_into_families() {
    assert_eq!(Opcode::Div.classify(), OpClass::Arithmetic(BinOpcode::Div));
    assert_eq!(Opcode::GEQ.classify(), OpClass::Relational(RelOpcode::GEQ));
    assert_eq!(Opcode::OR.classify(), OpClass::Logical(LogOpcode::OR));
    assert_eq!(eval_op(Value::Number(2), Opcode::Mul, Value::Number(5)), Ok(Value::Number(10)));
    assert_eq!(eval_op(Value::Number(2), Opcode::LEQ, Value::Number(5)), Ok(Value::Bool(true)));
    assert_eq!(eval_op(Value::Bool(true), Opcode::AND, Value::Bool(true)), Ok(Value::Bool(true)));
}

#[test]
fn undefined_variable_is_reported() {
    let program = vec![print_stmt(var("nobody"), None)];
    assert_eq!(interp(program).unwrap_err().error, LangError::UndefinedVariable("nobody".to_string()));
}

#[test]
fn control_flow_and_functions_are_not_interpreted() {
    let an_if = Box::new(Node::IfStatement { cond: boolean(true), body: print_stmt(number(1), None), next: None });
    assert_eq!(interp(vec![an_if]).unwrap_err().error, LangError::UnsupportedNode(NodeKind::IfStatement));
    let a_return = Box::new(Node::ReturnStatement { expr: number(1) });
    assert_eq!(interp(vec![a_return]).unwrap_err().error, LangError::UnsupportedNode(NodeKind::ReturnStatement));
    let a_call = Box::new(Node::FuncCall { name: "f".to_string(), args: vec![], next: None });
    assert_eq!(interp(vec![a_call]).unwrap_err().error, LangError::UnsupportedNode(NodeKind::FuncCall));
    let a_decl = Box::new(Node::FuncDecl {
        name: "f".to_string(),
        params: vec![],
        return_type: None,
        body: Box::new(Node::ReturnStatement { expr: number(1) }),
    });
    assert_eq!(interp(vec![a_decl]).unwrap_err().error, LangError::UnsupportedNode(NodeKind::FuncDecl));
    let negation = Box::new(Node::UnaryOp(Opcode::Sub, number(1)));
    assert_eq!(interp(vec![print_stmt(negation, None)]).unwrap_err().error, LangError::UnsupportedNode(NodeKind::UnaryOp));
}

#[test]
fn let_needs_a_binding() {
    let broken = Box::new(Node::LetStatement { binding: var("x"), init_expr: number(1), next: None });
    assert_eq!(interp(vec![broken]).unwrap_err().error, LangError::UnsupportedNode(NodeKind::VarRef));
    let mut map = Bindings::new();
    assert_eq!(
        assign_var(&Node::NumberLiteral(3), Value::Number(1), &mut map),
        Err(LangError::UnsupportedNode(NodeKind::NumberLiteral))
    );
    assert!(map.entries().is_empty());
}

#[test]
fn assign_var_binds_the_declared_name() {
    let mut map = Bindings::new();
    let binding = Node::VarBinding("count".to_string(), LiteralType::I32);
    assert_eq!(assign_var(&binding, Value::Number(4), &mut map), Ok(Value::Unit));
    assert_eq!(map.get(&"count".to_string()), Some(Value::Number(4)));
    assert_eq!(map.get(&"other".to_string()), None);
    assert_eq!(assign_var(&binding, Value::Bool(true), &mut map), Ok(Value::Unit));
    assert_eq!(map.entries(), &vec![("count".to_string(), Value::Bool(true))]);
}

#[test]
fn a_chain_runs_to_its_end() {
    let chain = let_stmt(
        "a",
        LiteralType::I32,
        number(4),
        Some(print_stmt(var("a"), Some(print_stmt(binary(var("a"), Opcode::Mul, var("a")), None)))),
    );
    let done = interp(vec![chain]).unwrap();
    assert_eq!(done.output, vec![Value::Number(4), Value::Number(16)]);
}

#[test]
fn visit_leaves_the_rest_of_a_chain_alone() {
    let chain = print_stmt(number(1), Some(print_stmt(number(2), None)));
    let mut map = Bindings::new();
    let mut out = Vec::new();
    assert_eq!(visit(&chain, &mut map, &mut out), Ok(Value::Unit));
    assert_eq!(out, vec![Value::Number(1)]);
    let mut out = Vec::new();
    assert_eq!(run(&chain, &mut map, &mut out), Ok(Value::Unit));
    assert_eq!(out, vec![Value::Number(1), Value::Number(2)]);
}

#[test]
fn output_before_a_failure_is_kept_by_visit() {
    let chain = print_stmt(number(1), Some(print_stmt(var("gone"), Some(print_stmt(number(3), None)))));
    let mut map = Bindings::new();
    let mut out = Vec::new();
    assert_eq!(run(&chain, &mut map, &mut out), Err(LangError::UndefinedVariable("gone".to_string())));
    assert_eq!(out, vec![Value::Number(1)]);
}

#[test]
fn literals_evaluate_to_themselves() {
    let mut map = Bindings::new();
    let mut out = Vec::new();
    assert_eq!(visit(&Node::NumberLiteral(-12), &mut map, &mut out), Ok(Value::Number(-12)));
    assert_eq!(visit(&Node::BoolLiteral(true), &mut map, &mut out), Ok(Value::Bool(true)));
    assert!(out.is_empty());
    assert_eq!(Value::Number(1).kind(), ValueKind::Number);
    assert_eq!(Value::Bool(true).kind(), ValueKind::Bool);
    assert_eq!(Value::Unit.kind(), ValueKind::Unit);
}

#[test]
fn an_empty_program_does_nothing() {
    let done = interp(vec![]).unwrap();
    assert!(done.output.is_empty());
    assert!(done.vars.entries().is_empty());
}

#[test]
fn what_was_printed_before_a_failure_comes_back_with_it() {
    let an_if = Box::new(Node::IfStatement { cond: boolean(true), body: print_stmt(number(9), None), next: None });
    let program = vec![
        print_stmt(number(1), None),
        let_stmt("x", LiteralType::I32, number(2), None),
        print_stmt(var("x"), None),
        an_if,
        print_stmt(number(4), None),
    ];
    let stop = interp(program).unwrap_err();
    assert_eq!(stop.error, LangError::UnsupportedNode(NodeKind::IfStatement));
    assert_eq!(stop.output, vec![Value::Number(1), Value::Number(2)]);
    assert_eq!(stop.vars.entries(), &vec![("x".to_string(), Value::Number(2))]);
}

#[test]
fn a_failure_inside_a_chain_keeps_what_the_chain_printed() {
    let chain = print_stmt(number(1), Some(print_stmt(binary(number(1), Opcode::Div, number(0)), None)));
    let stop = interp(vec![print_stmt(number(0), None), chain, print_stmt(number(2), None)]).unwrap_err();
    assert_eq!(stop.error, LangError::DivisionByZero);
    assert_eq!(stop.output, vec![Value::Number(0), Value::Number(1)]);
}

#[test]
fn a_table_binds_as_many_names_as_it_lists() {
    let mut map = Bindings::new();
    assert_eq!(map.entries().len(), 0);
    map.insert("a".to_string(), Value::Number(1));
    map.insert("b".to_string(), Value::Bool(true));
    map.insert("a".to_string(), Value::Unit);
    assert_eq!(map.entries().len(), 2);
    assert_eq!(map.entries(), &vec![("a".to_string(), Value::Unit), ("b".to_string(), Value::Bool(true))]);
}
