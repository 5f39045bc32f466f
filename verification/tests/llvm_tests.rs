use inkwell::context::Context;
use minilang::ast::{LiteralType, Node, Opcode};
use minilang::cfg::{Block, BlockKind, Function, FunctionTable, Inst, Signature, Terminator};
use minilang::compiler::compile_program;
use inkwell::builder::BuilderError;
use minilang::emit::{const_bits, emit_program, from_builder, label, EmitError};
use minilang::error::LangError;
use minilang::llvm::{compile, CompileError};

fn number(n: i32) -> Box<Node> {
    Box::new(Node::NumberLiteral(n))
}

fn var(name: &str) -> Box<Node> {
    Box::new(Node::VarRef(name.to_string()))
}

fn binary(left: Box<Node>, op: Opcode, right: Box<Node>) -> Box<Node> {
    Box::new(Node::BinaryExpr(left, op, right))
}

fn ret(expr: Box<Node>) -> Box<Node> {
    Box::new(Node::ReturnStatement { expr })
}

fn call(name: &str, args: Vec<Box<Node>>) -> Box<Node> {
    Box::new(Node::FuncCall { name: name.to_string(), args, next: None })
}

fn func(name: &str, params: Vec<Box<Node>>, return_type: Option<LiteralType>, body: Box<Node>) -> Box<Node> {
    Box::new(Node::FuncDecl { name: name.to_string(), params, return_type, body })
}

fn let_stmt(name: &str, ty: LiteralType, init: Box<Node>, next: Option<Box<Node>>) -> Box<Node> {
    Box::new(Node::LetStatement {
        binding: Box::new(Node::VarBinding(name.to_string(), ty)),
        init_expr: init,
        next,
    })
}

fn countdown_program() -> Vec<Box<Node>> {
    let loop_body = Box::new(Node::AssignStatement {
        var_name: "x".to_string(),
        expr: binary(var("x"), Opcode::Sub, number(1)),
        next: None,
    });
    let the_loop = Box::new(Node::WhileStatement {
        cond: binary(var("x"), Opcode::GT, number(0)),
        body: loop_body,
        next: Some(ret(var("x"))),
    });
    vec![func("main", vec![], Some(LiteralType::I32), let_stmt("x", LiteralType::I32, number(5), Some(the_loop)))]
}

fn forward_program() -> Vec<Box<Node>> {
    vec![
        func("main", vec![], Some(LiteralType::I32), ret(call("helper", vec![number(7)]))),
        func(
            "helper",
            vec![Box::new(Node::FuncParam { name: "n".to_string(), declared_type: LiteralType::I32 })],
            Some(LiteralType::I32),
            ret(binary(var("n"), Opcode::Add, number(1))),
        ),
    ]
}

#[test]
fn a_loop_becomes_a_valid_module() {
    let context = Context::create();
    let module = compile(&countdown_program(), &context).unwrap().module;
    assert!(module.verify().is_ok(), "{}", module.print_to_string().to_string());
    let main = module.get_function("main").unwrap();
    assert_eq!(main.count_basic_blocks(), 4);
    assert_eq!(main.count_params(), 0);
    let text = module.print_to_string().to_string();
    assert!(text.contains("define i32 @main()"), "{}", text);
    assert!(text.contains("alloca i32"), "{}", text);
    assert!(text.contains("icmp sgt i32"), "{}", text);
    assert!(text.contains("sub i32"), "{}", text);
    assert!(text.contains("br i1"), "{}", text);
    assert!(text.contains("whilecont:"), "{}", text);
}

#[test]
fn a_forward_call_becomes_a_valid_module() {
    let context = Context::create();
    let module = compile(&forward_program(), &context).unwrap().module;
    assert!(module.verify().is_ok(), "{}", module.print_to_string().to_string());
    let helper = module.get_function("helper").unwrap();
    assert_eq!(helper.count_params(), 1);
    let text = module.print_to_string().to_string();
    assert!(text.contains("call i32 @helper(i32 7)"), "{}", text);
    assert!(text.contains("add i32"), "{}", text);
}

#[test]
fn an_if_becomes_a_valid_module() {
    let body = Box::new(Node::IfStatement {
        cond: binary(var("a"), Opcode::LT, var("b")),
        body: ret(number(10)),
        next: Some(ret(number(20))),
    });
    let program = vec![func(
        "pick",
        vec![
            Box::new(Node::FuncParam { name: "a".to_string(), declared_type: LiteralType::I32 }),
            Box::new(Node::FuncParam { name: "b".to_string(), declared_type: LiteralType::I32 }),
        ],
        Some(LiteralType::I32),
        body,
    )];
    let context = Context::create();
    let module = compile(&program, &context).unwrap().module;
    assert!(module.verify().is_ok(), "{}", module.print_to_string().to_string());
    let pick = module.get_function("pick").unwrap();
    assert_eq!(pick.count_basic_blocks(), 3);
    let text = module.print_to_string().to_string();
    assert!(text.contains("icmp slt i32"), "{}", text);
    assert!(text.contains("ret i32 10"), "{}", text);
    assert!(text.contains("ret i32 20"), "{}", text);
}

#[test]
fn booleans_are_one_bit_wide() {
    let program = vec![func(
        "both",
        vec![
            Box::new(Node::FuncParam { name: "p".to_string(), declared_type: LiteralType::Bool }),
            Box::new(Node::FuncParam { name: "q".to_string(), declared_type: LiteralType::Bool }),
        ],
        Some(LiteralType::Bool),
        ret(binary(var("p"), Opcode::AND, binary(var("q"), Opcode::OR, Box::new(Node::BoolLiteral(true))))),
    )];
    let context = Context::create();
    let module = compile(&program, &context).unwrap().module;
    assert!(module.verify().is_ok(), "{}", module.print_to_string().to_string());
    let text = module.print_to_string().to_string();
    assert!(text.contains("define i1 @both(i1 %0, i1 %1)"), "{}", text);
    assert!(text.contains("alloca i1"), "{}", text);
    assert!(text.contains("and i1"), "{}", text);
}

#[test]
fn a_block_left_open_is_closed_as_unreachable() {
    let body = Box::new(Node::IfElseStatement {
        cond: Box::new(Node::BoolLiteral(true)),
        then_body: ret(number(1)),
        else_body: ret(number(2)),
        next: None,
    });
    let program = vec![func("pick", vec![], Some(LiteralType::I32), body)];
    let context = Context::create();
    let module = compile(&program, &context).unwrap().module;
    assert!(module.verify().is_ok(), "{}", module.print_to_string().to_string());
    assert!(module.print_to_string().to_string().contains("unreachable"));
}

#[test]
fn a_function_without_return_type_returns_void() {
    let program = vec![
        func("quiet", vec![], None, let_stmt("x", LiteralType::I32, Box::new(Node::UnaryOp(Opcode::Sub, number(3))), None)),
    ];
    let context = Context::create();
    let module = compile(&program, &context).unwrap().module;
    assert!(module.verify().is_ok(), "{}", module.print_to_string().to_string());
    let text = module.print_to_string().to_string();
    assert!(text.contains("define void @quiet()"), "{}", text);
    assert!(text.contains("ret void"), "{}", text);
    assert!(text.contains("store i32 -3"), "{}", text);
}

#[test]
fn the_value_of_a_void_call_cannot_be_used() {
    let program = vec![
        func("quiet", vec![], None, let_stmt("x", LiteralType::I32, number(1), None)),
        func("main", vec![], Some(LiteralType::I32), ret(call("quiet", vec![]))),
    ];
    let context = Context::create();
    assert_eq!(compile(&program, &context).err().unwrap(), CompileError::Emission(EmitError::NoValue));
}

#[test]
fn lowering_failures_come_first() {
    let program = vec![func("main", vec![], Some(LiteralType::I32), ret(var("ghost")))];
    let context = Context::create();
    assert_eq!(
        compile(&program, &context).err().unwrap(),
        CompileError::Lowering(LangError::UndefinedVariable("ghost".to_string()))
    );
}

#[test]
fn the_module_is_named() {
    let context = Context::create();
    let module = compile(&forward_program(), &context).unwrap().module;
    assert_eq!(module.get_name().to_str().unwrap(), "program");
    let table = compile_program(&forward_program()).unwrap();
    let other = emit_program(&table, &context, "another").unwrap().module;
    assert_eq!(other.get_name().to_str().unwrap(), "another");
    assert!(other.verify().is_ok());
}

#[test]
fn a_malformed_table_never_reaches_llvm() {
    let table = FunctionTable {
        functions: vec![Function {
            sig: Signature { name: "f".to_string(), params: vec![], ret: None },
            slots: vec![],
            blocks: vec![Block { kind: BlockKind::Entry, insts: vec![Inst::Load(3)], term: Some(Terminator::Jump(9)) }],
        }],
    };
    let context = Context::create();
    assert_eq!(emit_program(&table, &context, "m").err().unwrap(), EmitError::Malformed);
}

#[test]
fn blocks_are_named_after_their_kind() {
    assert_eq!(label(BlockKind::Entry), "entry");
    assert_eq!(label(BlockKind::Then), "then");
    assert_eq!(label(BlockKind::Else), "else");
    assert_eq!(label(BlockKind::IfCont), "ifcont");
    assert_eq!(label(BlockKind::Cond), "cond");
    assert_eq!(label(BlockKind::Do), "do");
    assert_eq!(label(BlockKind::WhileCont), "whilecont");
}

fn folded(expr: Box<Node>, ty: LiteralType) -> String {
    let program = vec![func("main", vec![], Some(ty), ret(expr))];
    let context = Context::create();
    let module = compile(&program, &context).unwrap().module;
    assert!(module.verify().is_ok(), "{}", module.print_to_string().to_string());
    module.print_to_string().to_string()
}

fn boolean(b: bool) -> Box<Node> {
    Box::new(Node::BoolLiteral(b))
}

#[test]
fn llvm_computes_arithmetic_on_constants() {
    let text = folded(binary(number(6), Opcode::Add, number(7)), LiteralType::I32);
    assert!(text.contains("ret i32 13"), "{}", text);
    let text = folded(binary(number(6), Opcode::Sub, number(7)), LiteralType::I32);
    assert!(text.contains("ret i32 -1"), "{}", text);
    let text = folded(binary(number(6), Opcode::Mul, number(7)), LiteralType::I32);
    assert!(text.contains("ret i32 42"), "{}", text);
    let text = folded(binary(number(-7), Opcode::Div, number(2)), LiteralType::I32);
    assert!(text.contains("ret i32 -3"), "{}", text);
    let text = folded(Box::new(Node::UnaryOp(Opcode::Sub, number(5))), LiteralType::I32);
    assert!(text.contains("ret i32 -5"), "{}", text);
    let text = folded(binary(number(i32::MAX), Opcode::Add, number(1)), LiteralType::I32);
    assert!(text.contains("ret i32 -2147483648"), "{}", text);
}

#[test]
fn llvm_computes_comparisons_on_constants() {
    let cases = [
        (Opcode::EQ, 3, 3, true),
        (Opcode::EQ, 3, 4, false),
        (Opcode::NEQ, 3, 4, true),
        (Opcode::NEQ, 3, 3, false),
        (Opcode::GT, 4, 3, true),
        (Opcode::GT, -4, 3, false),
        (Opcode::LT, -4, 3, true),
        (Opcode::LT, 4, 3, false),
        (Opcode::GEQ, 3, 3, true),
        (Opcode::GEQ, -1, 0, false),
        (Opcode::LEQ, 3, 3, true),
        (Opcode::LEQ, 0, -1, false),
    ];
    for (op, l, r, expected) in cases {
        let text = folded(binary(number(l), op, number(r)), LiteralType::Bool);
        assert!(text.contains(&format!("ret i1 {}", expected)), "{:?} {} {}: {}", op, l, r, text);
    }
}

#[test]
fn llvm_computes_connectives_on_constants() {
    let text = folded(binary(boolean(true), Opcode::AND, boolean(false)), LiteralType::Bool);
    assert!(text.contains("ret i1 false"), "{}", text);
    let text = folded(binary(boolean(true), Opcode::OR, boolean(false)), LiteralType::Bool);
    assert!(text.contains("ret i1 true"), "{}", text);
    let text = folded(binary(boolean(false), Opcode::OR, boolean(false)), LiteralType::Bool);
    assert!(text.contains("ret i1 false"), "{}", text);
}

fn if_program(op: Opcode) -> Vec<Box<Node>> {
    let body = Box::new(Node::IfStatement {
        cond: binary(number(1), op, number(2)),
        body: ret(number(10)),
        next: Some(ret(number(20))),
    });
    vec![func("main", vec![], Some(LiteralType::I32), body)]
}

#[test]
fn a_true_condition_branches_to_the_return_of_ten() {
    let context = Context::create();
    let module = compile(&if_program(Opcode::LT), &context).unwrap().module;
    assert!(module.verify().is_ok());
    let text = module.print_to_string().to_string();
    let entry = text.find("entry:").unwrap();
    let then = text.find("then:").unwrap();
    let cont = text.find("ifcont:").unwrap();
    assert!(entry < then && then < cont);
    assert!(text[entry..then].contains("br i1 true, label %then, label %ifcont"), "{}", text);
    assert!(text[then..cont].contains("ret i32 10"), "{}", text);
    assert!(text[cont..].contains("ret i32 20"), "{}", text);
}

#[test]
fn a_false_condition_branches_past_it() {
    let context = Context::create();
    let module = compile(&if_program(Opcode::GT), &context).unwrap().module;
    assert!(module.verify().is_ok());
    let text = module.print_to_string().to_string();
    assert!(text.contains("br i1 false, label %then, label %ifcont"), "{}", text);
}

#[test]
fn slots_are_allocated_at_the_head_of_the_entry_block() {
    let context = Context::create();
    let module = compile(&countdown_program(), &context).unwrap().module;
    let text = module.print_to_string().to_string();
    let entry = text.find("entry:").unwrap();
    let alloca = text.find("%x = alloca i32").unwrap();
    let store = text.find("store i32 5, i32* %x").unwrap();
    let jump = text.find("br label %cond").unwrap();
    assert!(entry < alloca && alloca < store && store < jump, "{}", text);
}

#[test]
fn a_refusal_of_the_builder_is_a_backend_failure() {
    assert_eq!(from_builder(Ok::<i32, BuilderError>(5)), Ok(5));
    assert_eq!(from_builder(Err::<i32, BuilderError>(BuilderError::UnsetPosition)), Err(EmitError::Backend));
    assert_eq!(from_builder(Err::<(), BuilderError>(BuilderError::GEPIndex)), Err(EmitError::Backend));
}

#[test]
fn nothing_becomes_an_empty_module() {
    let context = Context::create();
    let module = compile(&vec![], &context).unwrap().module;
    assert!(module.verify().is_ok());
    assert!(module.get_first_function().is_none());
    let table = FunctionTable { functions: vec![] };
    assert!(emit_program(&table, &context, "empty").is_ok());
}

#[test]
fn a_program_that_reads_only_constants_always_compiles() {
    let context = Context::create();
    for op in [Opcode::LT, Opcode::GT] {
        let module = compile(&if_program(op), &context).unwrap().module;
        assert!(module.verify().is_ok());
    }
}

#[test]
fn a_number_is_handed_over_as_its_two_complement_bits() {
    assert_eq!(const_bits(0), 0);
    assert_eq!(const_bits(5), 5);
    assert_eq!(const_bits(i32::MAX), 0x7fff_ffff);
    assert_eq!(const_bits(-1), u64::MAX);
    assert_eq!(const_bits(-3), 0xffff_ffff_ffff_fffd);
    assert_eq!(const_bits(i32::MIN), 0xffff_ffff_8000_0000);
}

#[test]
fn negative_constants_reach_llvm_as_they_are() {
    let text = folded(number(i32::MIN), LiteralType::I32);
    assert!(text.contains("ret i32 -2147483648"), "{}", text);
    let text = folded(number(-1), LiteralType::I32);
    assert!(text.contains("ret i32 -1"), "{}", text);
}
