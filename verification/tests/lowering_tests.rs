use minilang::ast::{LiteralType, Node, NodeKind, Opcode};
use minilang::cfg::{
    primitive, Block, BlockKind, Function, FunctionTable, Inst, Predicate, Primitive, Signature, Slot,
    Terminator,
};
use minilang::compiler::{compile_fn, compile_program, declare, get_function, header, lower_function, Compiler};
use minilang::error::LangError;
use minilang::validate::validate;

fn number(n: i32) -> Box<Node> {
    Box::new(Node::NumberLiteral(n))
}

fn var(name: &str) -> Box<Node> {
    Box::new(Node::VarRef(name.to_string()))
}

fn binary(left: Box<Node>, op: Opcode, right: Box<Node>) -> Box<Node> {
    Box::new(Node::BinaryExpr(left, op, right))
}

fn ret(expr: Box<Node>) -> Box<Node> {
    Box::new(Node::ReturnStatement { expr })
}

fn let_stmt(name: &str, ty: LiteralType, init: Box<Node>, next: Option<Box<Node>>) -> Box<Node> {
    Box::new(Node::LetStatement {
        binding: Box::new(Node::VarBinding(name.to_string(), ty)),
        init_expr: init,
        next,
    })
}

fn assign(name: &str, expr: Box<Node>, next: Option<Box<Node>>) -> Box<Node> {
    Box::new(Node::AssignStatement { var_name: name.to_string(), expr, next })
}

fn call(name: &str, args: Vec<Box<Node>>) -> Box<Node> {
    Box::new(Node::FuncCall { name: name.to_string(), args, next: None })
}

fn param(name: &str, ty: LiteralType) -> Box<Node> {
    Box::new(Node::FuncParam { name: name.to_string(), declared_type: ty })
}

fn func(name: &str, params: Vec<Box<Node>>, return_type: Option<LiteralType>, body: Box<Node>) -> Box<Node> {
    Box::new(Node::FuncDecl { name: name.to_string(), params, return_type, body })
}

fn no_functions() -> FunctionTable {
    FunctionTable { functions: vec![] }
}

fn block(kind: BlockKind, insts: Vec<Inst>, term: Option<Terminator>) -> Block {
    Block { kind, insts, term }
}

fn if_program(op: Opcode) -> Vec<Box<Node>> {
    let body = Box::new(Node::IfStatement {
        cond: binary(number(1), op, number(2)),
        body: ret(number(10)),
        next: Some(ret(number(20))),
    });
    vec![func("main", vec![], Some(LiteralType::I32), body)]
}

fn countdown_program() -> Vec<Box<Node>> {
    let loop_body = assign("x", binary(var("x"), Opcode::Sub, number(1)), None);
    let the_loop = Box::new(Node::WhileStatement {
        cond: binary(var("x"), Opcode::GT, number(0)),
        body: loop_body,
        next: Some(ret(var("x"))),
    });
    vec![func("main", vec![], Some(LiteralType::I32), let_stmt("x", LiteralType::I32, number(5), Some(the_loop)))]
}

fn forward_program() -> Vec<Box<Node>> {
    vec![
        func("main", vec![], Some(LiteralType::I32), ret(call("helper", vec![number(7)]))),
        func(
            "helper",
            vec![param("n", LiteralType::I32)],
            Some(LiteralType::I32),
            ret(binary(var("n"), Opcode::Add, number(1))),
        ),
    ]
}

fn apply(op: Primitive, l: i32, r: i32) -> i32 {
    match op {
        Primitive::Add => l.wrapping_add(r),
        Primitive::Sub => l.wrapping_sub(r),
        Primitive::Mul => l.wrapping_mul(r),
        Primitive::SignedDiv => l.wrapping_div(r),
        Primitive::And => l & r,
        Primitive::Or => l | r,
        Primitive::Compare(p) => {
            let holds = match p {
                Predicate::EQ => l == r,
                Predicate::NE => l != r,
                Predicate::SGT => l > r,
                Predicate::SLT => l < r,
                Predicate::SGE => l >= r,
                Predicate::SLE => l <= r,
            };
            if holds {
                1
            } else {
                0
            }
        },
    }
}

/// Walks the graph of one function as a machine would, from the entry block.
fn execute(table: &FunctionTable, index: usize, args: &[i32], fuel: &mut u32) -> Option<i32> {
    let function = &table.functions[index];
    let mut slots = vec![0i32; function.slots.len()];
    let mut current = 0usize;
    loop {
        assert!(*fuel > 0, "the program did not stop");
        *fuel -= 1;
        let block = &function.blocks[current];
        let mut vals: Vec<Option<i32>> = Vec::new();
        for inst in &block.insts {
            let value = match inst {
                Inst::ConstInt(n) => Some(*n),
                Inst::ConstBool(b) => Some(if *b { 1 } else { 0 }),
                Inst::Param(k) => Some(args[*k]),
                Inst::Load(slot) => Some(slots[*slot]),
                Inst::Store { slot, value } => {
                    slots[*slot] = vals[*value].unwrap();
                    None
                },
                Inst::Neg(v) => Some(vals[*v].unwrap().wrapping_neg()),
                Inst::Binary { op, lhs, rhs } => Some(apply(*op, vals[*lhs].unwrap(), vals[*rhs].unwrap())),
                Inst::Call { callee, args } => {
                    let values: Vec<i32> = args.iter().map(|a| vals[*a].unwrap()).collect();
                    execute(table, *callee, &values, fuel)
                },
            };
            vals.push(value);
        }
        match block.term.expect("control fell off the end of a block") {
            Terminator::Jump(target) => current = target,
            Terminator::Branch { cond, on_true, on_false } => {
                current = if vals[cond].unwrap() != 0 { on_true } else { on_false };
            },
            Terminator::Return(None) => return None,
            Terminator::Return(Some(v)) => return vals[v],
        }
    }
}

fn run_main(program: &Vec<Box<Node>>) -> Option<i32> {
    let table = compile_program(program).unwrap();
    assert!(validate(&table));
    let main = get_function(&table, &"main".to_string()).unwrap();
    let mut fuel = 10_000;
    execute(&table, main, &[], &mut fuel)
}

#[test]
fn if_lowers_to_three_blocks() {
    let table = compile_program(&if_program(Opcode::LT)).unwrap();
    assert_eq!(table.functions.len(), 1);
    let main = &table.functions[0];
    assert_eq!(main.sig, Signature { name: "main".to_string(), params: vec![], ret: Some(LiteralType::I32) });
    assert!(main.slots.is_empty());
    assert_eq!(
        main.blocks,
        vec![
            block(
                BlockKind::Entry,
                vec![
                    Inst::ConstInt(1),
                    Inst::ConstInt(2),
                    Inst::Binary { op: Primitive::Compare(Predicate::SLT), lhs: 0, rhs: 1 },
                ],
                Some(Terminator::Branch { cond: 2, on_true: 1, on_false: 2 }),
            ),
            block(BlockKind::Then, vec![Inst::ConstInt(10)], Some(Terminator::Return(Some(0)))),
            block(BlockKind::IfCont, vec![Inst::ConstInt(20)], Some(Terminator::Return(Some(0)))),
        ]
    );
}

#[test]
fn if_takes_the_branch_when_the_condition_holds() {
    assert_eq!(run_main(&if_program(Opcode::LT)), Some(10));
}

#[test]
fn if_skips_the_branch_when_the_condition_fails() {
    assert_eq!(run_main(&if_program(Opcode::GT)), Some(20));
}

#[test]
fn while_lowers_to_a_loop_of_blocks() {
    let table = compile_program(&countdown_program()).unwrap();
    let main = &table.functions[0];
    assert_eq!(main.slots, vec![Slot { name: "x".to_string(), ty: LiteralType::I32 }]);
    assert_eq!(
        main.blocks,
        vec![
            block(
                BlockKind::Entry,
                vec![Inst::ConstInt(5), Inst::Store { slot: 0, value: 0 }],
                Some(Terminator::Jump(1)),
            ),
            block(
                BlockKind::Cond,
                vec![
                    Inst::Load(0),
                    Inst::ConstInt(0),
                    Inst::Binary { op: Primitive::Compare(Predicate::SGT), lhs: 0, rhs: 1 },
                ],
                Some(Terminator::Branch { cond: 2, on_true: 2, on_false: 3 }),
            ),
            block(
                BlockKind::Do,
                vec![
                    Inst::Load(0),
                    Inst::ConstInt(1),
                    Inst::Binary { op: Primitive::Sub, lhs: 0, rhs: 1 },
                    Inst::Store { slot: 0, value: 2 },
                ],
                Some(Terminator::Jump(1)),
            ),
            block(BlockKind::WhileCont, vec![Inst::Load(0)], Some(Terminator::Return(Some(0)))),
        ]
    );
}

#[test]
fn while_counts_down_to_zero() {
    assert_eq!(run_main(&countdown_program()), Some(0));
}

#[test]
fn if_else_joins_in_a_shared_block() {
    let body = Box::new(Node::IfElseStatement {
        cond: Box::new(Node::BoolLiteral(false)),
        then_body: let_stmt("a", LiteralType::I32, number(1), None),
        else_body: let_stmt("a", LiteralType::I32, number(2), None),
        next: Some(ret(var("a"))),
    });
    let program = vec![func("main", vec![], Some(LiteralType::I32), body)];
    let table = compile_program(&program).unwrap();
    let main = &table.functions[0];
    assert_eq!(
        main.slots,
        vec![
            Slot { name: "a".to_string(), ty: LiteralType::I32 },
            Slot { name: "a".to_string(), ty: LiteralType::I32 },
        ]
    );
    assert_eq!(
        main.blocks,
        vec![
            block(
                BlockKind::Entry,
                vec![Inst::ConstBool(false)],
                Some(Terminator::Branch { cond: 0, on_true: 1, on_false: 2 }),
            ),
            block(
                BlockKind::Then,
                vec![Inst::ConstInt(1), Inst::Store { slot: 0, value: 0 }],
                Some(Terminator::Jump(3)),
            ),
            block(
                BlockKind::Else,
                vec![Inst::ConstInt(2), Inst::Store { slot: 1, value: 0 }],
                Some(Terminator::Jump(3)),
            ),
            block(BlockKind::IfCont, vec![Inst::Load(1)], Some(Terminator::Return(Some(0)))),
        ]
    );
    assert_eq!(run_main(&program), Some(2));
}

#[test]
fn a_return_ends_its_block_once() {
    // Both sides return: neither gets a jump behind its return, and the join
    // block stays open.
    let body = Box::new(Node::IfElseStatement {
        cond: Box::new(Node::BoolLiteral(true)),
        then_body: ret(number(1)),
        else_body: ret(number(2)),
        next: None,
    });
    let program = vec![func("pick", vec![], Some(LiteralType::I32), body)];
    let table = compile_program(&program).unwrap();
    let blocks = &table.functions[0].blocks;
    assert_eq!(blocks[1].term, Some(Terminator::Return(Some(0))));
    assert_eq!(blocks[2].term, Some(Terminator::Return(Some(0))));
    assert_eq!(blocks[3], block(BlockKind::IfCont, vec![], None));
}

#[test]
fn nested_control_flow_runs() {
    // sum = 0; i = 4; while (i > 0) { if (i == 2) { sum = sum + 10 } else { sum = sum + i } i = i - 1 } return sum
    let update = Box::new(Node::IfElseStatement {
        cond: binary(var("i"), Opcode::EQ, number(2)),
        then_body: assign("sum", binary(var("sum"), Opcode::Add, number(10)), None),
        else_body: assign("sum", binary(var("sum"), Opcode::Add, var("i")), None),
        next: Some(assign("i", binary(var("i"), Opcode::Sub, number(1)), None)),
    });
    let the_loop = Box::new(Node::WhileStatement {
        cond: binary(var("i"), Opcode::GT, number(0)),
        body: update,
        next: Some(ret(var("sum"))),
    });
    let body = let_stmt(
        "sum",
        LiteralType::I32,
        number(0),
        Some(let_stmt("i", LiteralType::I32, number(4), Some(the_loop))),
    );
    let program = vec![func("main", vec![], Some(LiteralType::I32), body)];
    assert_eq!(run_main(&program), Some(4 + 3 + 10 + 1));
    let table = compile_program(&program).unwrap();
    assert_eq!(table.functions[0].blocks.len(), 7);
}

#[test]
fn a_call_reaches_a_function_declared_later() {
    let table = compile_program(&forward_program()).unwrap();
    assert_eq!(get_function(&table, &"main".to_string()), Some(0));
    assert_eq!(get_function(&table, &"helper".to_string()), Some(1));
    assert_eq!(get_function(&table, &"absent".to_string()), None);
    assert_eq!(
        table.functions[0].blocks[0].insts,
        vec![Inst::ConstInt(7), Inst::Call { callee: 1, args: vec![0] }]
    );
    assert_eq!(run_main(&forward_program()), Some(8));
}

#[test]
fn declaration_order_does_not_matter() {
    let mut swapped = forward_program();
    swapped.reverse();
    let table = compile_program(&swapped).unwrap();
    assert_eq!(get_function(&table, &"main".to_string()), Some(1));
    assert_eq!(run_main(&swapped), Some(8));
}

#[test]
fn a_function_may_call_itself() {
    // fn main() -> i32 { return down(3) }  fn down(n) -> i32 { if (n <= 0) { return 0 } return down(n - 1) }
    let body = Box::new(Node::IfStatement {
        cond: binary(var("n"), Opcode::LEQ, number(0)),
        body: ret(number(0)),
        next: Some(ret(call("down", vec![binary(var("n"), Opcode::Sub, number(1))]))),
    });
    let program = vec![
        func("main", vec![], Some(LiteralType::I32), ret(call("down", vec![number(3)]))),
        func("down", vec![param("n", LiteralType::I32)], Some(LiteralType::I32), body),
    ];
    assert_eq!(run_main(&program), Some(0));
}

#[test]
fn parameters_get_slots_in_the_entry_block() {
    let program = vec![func(
        "second",
        vec![param("a", LiteralType::I32), param("b", LiteralType::Bool)],
        Some(LiteralType::Bool),
        ret(var("b")),
    )];
    let table = compile_program(&program).unwrap();
    let f = &table.functions[0];
    assert_eq!(f.sig.params, vec![LiteralType::I32, LiteralType::Bool]);
    assert_eq!(
        f.slots,
        vec![
            Slot { name: "a".to_string(), ty: LiteralType::I32 },
            Slot { name: "b".to_string(), ty: LiteralType::Bool },
        ]
    );
    assert_eq!(
        f.blocks,
        vec![block(
            BlockKind::Entry,
            vec![
                Inst::Param(0),
                Inst::Store { slot: 0, value: 0 },
                Inst::Param(1),
                Inst::Store { slot: 1, value: 2 },
                Inst::Load(1),
            ],
            Some(Terminator::Return(Some(4))),
        )]
    );
}

#[test]
fn a_function_without_return_type_gets_its_return() {
    let program = vec![func("quiet", vec![], None, let_stmt("x", LiteralType::I32, number(1), None))];
    let table = compile_program(&program).unwrap();
    assert_eq!(table.functions[0].blocks[0].term, Some(Terminator::Return(None)));
    let mut fuel = 100;
    assert_eq!(execute(&table, 0, &[], &mut fuel), None);
}

#[test]
fn let_allocates_a_fresh_slot_every_time() {
    let body = let_stmt(
        "x",
        LiteralType::I32,
        number(1),
        Some(let_stmt("x", LiteralType::I32, number(2), Some(ret(var("x"))))),
    );
    let program = vec![func("main", vec![], Some(LiteralType::I32), body)];
    let table = compile_program(&program).unwrap();
    assert_eq!(table.functions[0].slots.len(), 2);
    assert_eq!(
        table.functions[0].blocks[0].insts,
        vec![
            Inst::ConstInt(1),
            Inst::Store { slot: 0, value: 0 },
            Inst::ConstInt(2),
            Inst::Store { slot: 1, value: 2 },
            Inst::Load(1),
        ]
    );
    assert_eq!(run_main(&program), Some(2));
}

#[test]
fn assignment_reuses_the_slot() {
    let body = let_stmt(
        "x",
        LiteralType::I32,
        number(1),
        Some(assign("x", number(9), Some(ret(var("x"))))),
    );
    let program = vec![func("main", vec![], Some(LiteralType::I32), body)];
    let table = compile_program(&program).unwrap();
    assert_eq!(table.functions[0].slots.len(), 1);
    assert_eq!(run_main(&program), Some(9));
}

#[test]
fn slots_are_per_function() {
    // The local of the first function is not visible in the second.
    let program = vec![
        func("first", vec![], Some(LiteralType::I32), let_stmt("x", LiteralType::I32, number(1), Some(ret(var("x"))))),
        func("second", vec![], Some(LiteralType::I32), ret(var("x"))),
    ];
    assert_eq!(compile_program(&program), Err(LangError::UndefinedVariable("x".to_string())));
}

#[test]
fn assignment_to_an_undeclared_name_fails() {
    let program = vec![func("main", vec![], None, assign("ghost", number(1), None))];
    assert_eq!(compile_program(&program), Err(LangError::UndefinedVariable("ghost".to_string())));
}

#[test]
fn reading_an_undeclared_name_fails() {
    let program = vec![func("main", vec![], Some(LiteralType::I32), ret(var("ghost")))];
    assert_eq!(compile_program(&program), Err(LangError::UndefinedVariable("ghost".to_string())));
}

#[test]
fn calling_an_unknown_function_fails() {
    let program = vec![func("main", vec![], Some(LiteralType::I32), ret(call("nowhere", vec![])))];
    assert_eq!(compile_program(&program), Err(LangError::UnknownFunction("nowhere".to_string())));
}

#[test]
fn arguments_fail_before_the_callee_is_looked_up() {
    let program = vec![func("main", vec![], Some(LiteralType::I32), ret(call("nowhere", vec![var("ghost")])))];
    assert_eq!(compile_program(&program), Err(LangError::UndefinedVariable("ghost".to_string())));
}

#[test]
fn duplicate_functions_are_refused() {
    let program = vec![
        func("twice", vec![], Some(LiteralType::I32), ret(number(1))),
        func("twice", vec![], Some(LiteralType::I32), ret(number(2))),
    ];
    assert_eq!(compile_program(&program), Err(LangError::DuplicateFunction("twice".to_string())));
    assert_eq!(declare(&program), Err(LangError::DuplicateFunction("twice".to_string())));
}

#[test]
fn statements_that_do_not_lower_are_refused() {
    let print = Box::new(Node::PrintStatement { expr: number(1), next: None });
    let program = vec![func("main", vec![], None, print)];
    assert_eq!(compile_program(&program), Err(LangError::UnsupportedNode(NodeKind::PrintStatement)));
    let program = vec![func("main", vec![], None, call("main", vec![]))];
    assert_eq!(compile_program(&program), Err(LangError::UnsupportedNode(NodeKind::FuncCall)));
    let program = vec![func("main", vec![], None, number(1))];
    assert_eq!(compile_program(&program), Err(LangError::UnsupportedNode(NodeKind::NumberLiteral)));
}

#[test]
fn only_declarations_stand_at_the_top() {
    assert_eq!(compile_program(&vec![ret(number(1))]), Err(LangError::UnsupportedNode(NodeKind::ReturnStatement)));
    let with_odd_param = vec![func("f", vec![number(1)], None, ret(number(1)))];
    assert_eq!(compile_program(&with_odd_param), Err(LangError::UnsupportedNode(NodeKind::NumberLiteral)));
    assert_eq!(header(&Node::BoolLiteral(true)), Err(LangError::UnsupportedNode(NodeKind::BoolLiteral)));
}

#[test]
fn negation_is_the_only_unary_operator() {
    let table = no_functions();
    let mut c = Compiler::new();
    let negated = Node::UnaryOp(Opcode::Sub, number(5));
    assert_eq!(c.compile_expr(&negated, &table), Ok(1));
    assert_eq!(c.blocks[0].insts, vec![Inst::ConstInt(5), Inst::Neg(0)]);
    let odd = Node::UnaryOp(Opcode::Add, number(5));
    assert_eq!(c.compile_expr(&odd, &table), Err(LangError::UnsupportedNode(NodeKind::UnaryOp)));
}

#[test]
fn operands_lower_from_left_to_right() {
    let table = no_functions();
    let mut c = Compiler::new();
    let expr = binary(binary(number(1), Opcode::Add, number(2)), Opcode::Mul, binary(number(3), Opcode::Div, number(4)));
    assert_eq!(c.compile_expr(&expr, &table), Ok(6));
    assert_eq!(
        c.blocks[0].insts,
        vec![
            Inst::ConstInt(1),
            Inst::ConstInt(2),
            Inst::Binary { op: Primitive::Add, lhs: 0, rhs: 1 },
            Inst::ConstInt(3),
            Inst::ConstInt(4),
            Inst::Binary { op: Primitive::SignedDiv, lhs: 3, rhs: 4 },
            Inst::Binary { op: Primitive::Mul, lhs: 2, rhs: 5 },
        ]
    );
}

#[test]
fn every_operator_has_its_primitive() {
    assert_eq!(primitive(Opcode::Add), Primitive::Add);
    assert_eq!(primitive(Opcode::Sub), Primitive::Sub);
    assert_eq!(primitive(Opcode::Mul), Primitive::Mul);
    assert_eq!(primitive(Opcode::Div), Primitive::SignedDiv);
    assert_eq!(primitive(Opcode::AND), Primitive::And);
    assert_eq!(primitive(Opcode::OR), Primitive::Or);
    assert_eq!(primitive(Opcode::EQ), Primitive::Compare(Predicate::EQ));
    assert_eq!(primitive(Opcode::NEQ), Primitive::Compare(Predicate::NE));
    assert_eq!(primitive(Opcode::GT), Primitive::Compare(Predicate::SGT));
    assert_eq!(primitive(Opcode::LT), Primitive::Compare(Predicate::SLT));
    assert_eq!(primitive(Opcode::GEQ), Primitive::Compare(Predicate::SGE));
    assert_eq!(primitive(Opcode::LEQ), Primitive::Compare(Predicate::SLE));
}

#[test]
fn a_name_stands_for_its_latest_slot() {
    let mut c = Compiler::new();
    assert_eq!(c.lookup(&"v".to_string()), None);
    assert_eq!(c.create_entry_block_alloca(&"v".to_string(), LiteralType::I32), 0);
    assert_eq!(c.create_entry_block_alloca(&"w".to_string(), LiteralType::Bool), 1);
    assert_eq!(c.create_entry_block_alloca(&"v".to_string(), LiteralType::I32), 2);
    assert_eq!(c.lookup(&"v".to_string()), Some(2));
    assert_eq!(c.lookup(&"w".to_string()), Some(1));
}

#[test]
fn a_block_is_terminated_once() {
    let mut c = Compiler::new();
    let other = c.append_basic_block(BlockKind::Then);
    assert_eq!(other, 1);
    c.terminate(Terminator::Jump(1));
    c.terminate(Terminator::Return(None));
    assert_eq!(c.blocks[0].term, Some(Terminator::Jump(1)));
    c.position_at_end(other);
    assert_eq!(c.emit(Inst::ConstInt(3)), 0);
    assert_eq!(c.emit(Inst::ConstInt(4)), 1);
    assert_eq!(c.blocks[1].insts, vec![Inst::ConstInt(3), Inst::ConstInt(4)]);
    assert!(c.blocks[0].insts.is_empty());
}

#[test]
fn the_first_pass_registers_empty_functions() {
    let table = declare(&forward_program()).unwrap();
    assert_eq!(table.functions.len(), 2);
    assert_eq!(
        table.functions[1],
        Function {
            sig: Signature { name: "helper".to_string(), params: vec![LiteralType::I32], ret: Some(LiteralType::I32) },
            slots: vec![],
            blocks: vec![block(BlockKind::Entry, vec![], None)],
        }
    );
}

#[test]
fn lower_function_fills_one_entry() {
    let program = forward_program();
    let mut table = declare(&program).unwrap();
    assert_eq!(lower_function(&program[0], &mut table), Ok(()));
    assert_eq!(table.functions[0].blocks[0].term, Some(Terminator::Return(Some(1))));
    assert_eq!(table.functions[1].blocks, vec![block(BlockKind::Entry, vec![], None)]);
    assert_eq!(lower_function(&program[1], &mut table), Ok(()));
    assert_eq!(table, compile_program(&program).unwrap());
}

#[test]
fn lower_function_wants_a_registered_function() {
    let program = forward_program();
    let mut table = no_functions();
    assert_eq!(lower_function(&program[1], &mut table), Err(LangError::UnknownFunction("helper".to_string())));
    assert_eq!(lower_function(&Node::NumberLiteral(1), &mut table), Err(LangError::UnsupportedNode(NodeKind::NumberLiteral)));
    let mut table = declare(&program).unwrap();
    let before = declare(&program).unwrap();
    let broken = func("main", vec![], None, ret(var("ghost")));
    assert_eq!(lower_function(&broken, &mut table), Err(LangError::UndefinedVariable("ghost".to_string())));
    assert_eq!(table, before);
}

#[test]
fn compile_fn_lowers_against_the_names_of_the_table() {
    let program = forward_program();
    let table = declare(&program).unwrap();
    let main = compile_fn(&program[0], &table).unwrap();
    assert_eq!(main.blocks[0].insts[1], Inst::Call { callee: 1, args: vec![0] });
    assert_eq!(compile_fn(&program[0], &no_functions()), Err(LangError::UnknownFunction("helper".to_string())));
}

#[test]
fn lowering_twice_gives_the_same_graph() {
    for program in [if_program(Opcode::LT), countdown_program(), forward_program()] {
        let first = compile_program(&program).unwrap();
        let second = compile_program(&program).unwrap();
        assert_eq!(first, second);
        for (a, b) in first.functions.iter().zip(second.functions.iter()) {
            assert_eq!(a.blocks.len(), b.blocks.len());
            for (x, y) in a.blocks.iter().zip(b.blocks.iter()) {
                assert_eq!(x.term, y.term);
            }
        }
    }
}

#[test]
fn lowered_tables_are_well_formed() {
    for program in [if_program(Opcode::LT), countdown_program(), forward_program()] {
        assert!(validate(&compile_program(&program).unwrap()));
    }
    assert!(validate(&no_functions()));
}

#[test]
fn malformed_tables_are_told_apart() {
    let function = |blocks: Vec<Block>| FunctionTable {
        functions: vec![Function {
            sig: Signature { name: "f".to_string(), params: vec![], ret: None },
            slots: vec![],
            blocks,
        }],
    };
    assert!(validate(&function(vec![block(BlockKind::Entry, vec![], Some(Terminator::Jump(0)))])));
    assert!(!validate(&function(vec![])));
    assert!(!validate(&function(vec![block(BlockKind::Entry, vec![], Some(Terminator::Jump(1)))])));
    assert!(!validate(&function(vec![block(BlockKind::Entry, vec![Inst::Load(0)], None)])));
    assert!(!validate(&function(vec![block(BlockKind::Entry, vec![Inst::Param(0)], None)])));
    assert!(!validate(&function(vec![block(BlockKind::Entry, vec![Inst::Neg(0)], None)])));
    assert!(!validate(&function(vec![block(
        BlockKind::Entry,
        vec![Inst::ConstInt(1)],
        Some(Terminator::Return(Some(1)))
    )])));
    assert!(!validate(&function(vec![block(
        BlockKind::Entry,
        vec![Inst::ConstInt(1), Inst::Call { callee: 1, args: vec![0] }],
        None
    )])));
    assert!(!validate(&function(vec![block(
        BlockKind::Entry,
        vec![Inst::ConstInt(1), Inst::Call { callee: 0, args: vec![0, 1] }],
        None
    )])));
}

#[test]
fn a_function_has_the_same_graph_wherever_it_is_declared() {
    let first = compile_program(&forward_program()).unwrap();
    let mut swapped = forward_program();
    swapped.reverse();
    let second = compile_program(&swapped).unwrap();
    for name in ["main", "helper"] {
        let a = &first.functions[get_function(&first, &name.to_string()).unwrap()];
        let b = &second.functions[get_function(&second, &name.to_string()).unwrap()];
        assert_eq!(a.sig, b.sig);
        assert_eq!(a.slots, b.slots);
        assert_eq!(a.blocks.len(), b.blocks.len());
        for (x, y) in a.blocks.iter().zip(b.blocks.iter()) {
            assert_eq!(x.kind, y.kind);
            assert_eq!(x.term, y.term);
            assert_eq!(x.insts.len(), y.insts.len());
        }
    }
    // Only the handle of the callee differs, and it names the same function.
    assert_eq!(first.functions[0].blocks[0].insts[1], Inst::Call { callee: 1, args: vec![0] });
    assert_eq!(second.functions[1].blocks[0].insts[1], Inst::Call { callee: 0, args: vec![0] });
    assert_eq!(first.functions[1].sig.name, second.functions[0].sig.name);
}

#[test]
fn mutual_calls_lower() {
    // fn even(n) -> bool { if (n == 0) { return true } return odd(n - 1) }
    // fn odd(n) -> bool { if (n == 0) { return false } return even(n - 1) }
    let body = |base: bool, other: &str| -> Box<Node> {
        Box::new(Node::IfStatement {
            cond: binary(var("n"), Opcode::EQ, number(0)),
            body: ret(Box::new(Node::BoolLiteral(base))),
            next: Some(ret(call(other, vec![binary(var("n"), Opcode::Sub, number(1))]))),
        })
    };
    let program = vec![
        func("main", vec![], Some(LiteralType::Bool), ret(call("even", vec![number(5)]))),
        func("even", vec![param("n", LiteralType::I32)], Some(LiteralType::Bool), body(true, "odd")),
        func("odd", vec![param("n", LiteralType::I32)], Some(LiteralType::Bool), body(false, "even")),
    ];
    assert_eq!(run_main(&program), Some(0));
}
