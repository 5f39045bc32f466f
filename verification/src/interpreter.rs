//! The tree-walking evaluator.

use vstd::prelude::*;
use crate::ast::{BinOpcode, LiteralType, LogOpcode, Node, OpClass, Opcode, RelOpcode};
use crate::bindings::Bindings;
use crate::error::{Failure, LangError, ValueKind};

verus! {

/// What an expression evaluates to.
#[derive(Clone, Copy, Debug, PartialEq, Eq, Structural)]
pub enum Value {
    Number(i32),
    Bool(bool),
    Unit,
}

impl Value {
    /// The sort of this value.
    pub open spec fn kind_of(self) -> ValueKind {
        match self {
            Value::Number(_) => ValueKind::Number,
            Value::Bool(_) => ValueKind::Bool,
            Value::Unit => ValueKind::Unit,
        }
    }

    /// Reports the sort of this value.
    pub fn kind(&self) -> (k: ValueKind)
        ensures
            k == self.kind_of(),
    {
        match self {
            Value::Number(_) => ValueKind::Number,
            Value::Bool(_) => ValueKind::Bool,
            Value::Unit => ValueKind::Unit,
        }
    }
}

/// The 32-bit two's-complement integer that is congruent to `x`.
pub open spec fn wrap32(x: int) -> int {
    let m = x % 0x1_0000_0000;
    if m >= 0x8000_0000 {
        m - 0x1_0000_0000
    } else {
        m
    }
}

/// The quotient of `l` by `r` rounded towards zero; `r` is not zero.
pub open spec fn trunc_div(l: int, r: int) -> int {
    if l >= 0 && r > 0 {
        l / r
    } else if l < 0 && r < 0 {
        (-l) / (-r)
    } else if l < 0 {
        -((-l) / r)
    } else {
        -(l / (-r))
    }
}

/// The outcome of an arithmetic operator on two values.
pub open spec fn bin_op_result(left: Value, op: BinOpcode, right: Value) -> Result<Value, Failure> {
    match (left, right) {
        (Value::Number(l), Value::Number(r)) => match op {
            BinOpcode::Add => Ok(Value::Number(wrap32(l + r) as i32)),
            BinOpcode::Sub => Ok(Value::Number(wrap32(l - r) as i32)),
            BinOpcode::Mul => Ok(Value::Number(wrap32(l * r) as i32)),
            BinOpcode::Div => if r == 0 {
                Err(Failure::DivisionByZero)
            } else {
                Ok(Value::Number(wrap32(trunc_div(l as int, r as int)) as i32))
            },
        },
        (Value::Number(_), _) => Err(Failure::TypeMismatch(ValueKind::Number, right.kind_of())),
        _ => Err(Failure::TypeMismatch(ValueKind::Number, left.kind_of())),
    }
}

/// The outcome of comparing two numbers.
pub open spec fn num_rel_op_result(left: i32, op: RelOpcode, right: i32) -> Value {
    match op {
        RelOpcode::EQ => Value::Bool(left == right),
        RelOpcode::NEQ => Value::Bool(left != right),
        RelOpcode::GT => Value::Bool(left > right),
        RelOpcode::LT => Value::Bool(left < right),
        RelOpcode::GEQ => Value::Bool(left >= right),
        RelOpcode::LEQ => Value::Bool(left <= right),
    }
}

/// The outcome of comparing two booleans: only equality and inequality apply.
pub open spec fn bool_rel_op_result(left: bool, op: RelOpcode, right: bool) -> Result<Value, Failure> {
    match op {
        RelOpcode::EQ => Ok(Value::Bool(left == right)),
        RelOpcode::NEQ => Ok(Value::Bool(left != right)),
        _ => Err(Failure::TypeMismatch(ValueKind::Number, ValueKind::Bool)),
    }
}

/// The outcome of a comparison: both operands must be of one sort.
pub open spec fn rel_op_result(left: Value, op: RelOpcode, right: Value) -> Result<Value, Failure> {
    match (left, right) {
        (Value::Number(l), Value::Number(r)) => Ok(num_rel_op_result(l, op, r)),
        (Value::Bool(l), Value::Bool(r)) => bool_rel_op_result(l, op, r),
        (Value::Unit, _) => Err(Failure::TypeMismatch(ValueKind::Number, ValueKind::Unit)),
        _ => Err(Failure::TypeMismatch(left.kind_of(), right.kind_of())),
    }
}

/// The outcome of a logical connective: both operands must be booleans.
pub open spec fn log_op_result(left: Value, op: LogOpcode, right: Value) -> Result<Value, Failure> {
    match (left, right) {
        (Value::Bool(l), Value::Bool(r)) => match op {
            LogOpcode::AND => Ok(Value::Bool(l && r)),
            LogOpcode::OR => Ok(Value::Bool(l || r)),
        },
        (Value::Bool(_), _) => Err(Failure::TypeMismatch(ValueKind::Bool, right.kind_of())),
        _ => Err(Failure::TypeMismatch(ValueKind::Bool, left.kind_of())),
    }
}

/// A result with its error taken by its view.
pub open spec fn outcome(r: Result<Value, LangError>) -> Result<Value, Failure> {
    match r {
        Ok(v) => Ok(v),
        Err(e) => Err(e@),
    }
}

/// Applies an arithmetic operator. Sums, differences and products wrap around
/// at 32 bits; a quotient rounds towards zero.
pub fn eval_bin_op(left: Value, op: BinOpcode, right: Value) -> (r: Result<Value, LangError>)
    ensures
        outcome(r) == bin_op_result(left, op, right),
{
    let l: i32 = match left {
        Value::Number(num) => num,
        _ => {
            return Err(LangError::TypeMismatch(ValueKind::Number, left.kind()));
        },
    };
    let r: i32 = match right {
        Value::Number(num) => num,
        _ => {
            return Err(LangError::TypeMismatch(ValueKind::Number, right.kind()));
        },
    };
    match op {
        BinOpcode::Add => Ok(Value::Number(l.wrapping_add(r))),
        BinOpcode::Sub => Ok(Value::Number(l.wrapping_sub(r))),
        BinOpcode::Mul => Ok(Value::Number(l.wrapping_mul(r))),
        BinOpcode::Div => {
            if r == 0 {
                Err(LangError::DivisionByZero)
            } else {
                match l.checked_div(r) {
                    Some(q) => Ok(Value::Number(q)),
                    None => Ok(Value::Number(i32::MIN)),
                }
            }
        },
    }
}

/// Compares two numbers.
pub fn eval_num_rel_op(left: i32, op: RelOpcode, right: i32) -> (r: Value)
    ensures
        r == num_rel_op_result(left, op, right),
{
    match op {
        RelOpcode::EQ => Value::Bool(left == right),
        RelOpcode::NEQ => Value::Bool(left != right),
        RelOpcode::GT => Value::Bool(left > right),
        RelOpcode::LT => Value::Bool(left < right),
        RelOpcode::GEQ => Value::Bool(left >= right),
        RelOpcode::LEQ => Value::Bool(left <= right),
    }
}

/// Compares two booleans.
pub fn eval_bool_rel_op(left: bool, op: RelOpcode, right: bool) -> (r: Result<Value, LangError>)
    ensures
        outcome(r) == bool_rel_op_result(left, op, right),
{
    match op {
        RelOpcode::EQ => Ok(Value::Bool(left == right)),
        RelOpcode::NEQ => Ok(Value::Bool(left != right)),
        _ => Err(LangError::TypeMismatch(ValueKind::Number, ValueKind::Bool)),
    }
}

/// Applies a comparison to two values of one sort.
pub fn eval_rel_op(left: Value, op: RelOpcode, right: Value) -> (r: Result<Value, LangError>)
    ensures
        outcome(r) == rel_op_result(left, op, right),
{
    match (left, right) {
        (Value::Number(l_num), Value::Number(r_num)) => Ok(eval_num_rel_op(l_num, op, r_num)),
        (Value::Bool(l_bool), Value::Bool(r_bool)) => eval_bool_rel_op(l_bool, op, r_bool),
        (Value::Unit, _) => Err(LangError::TypeMismatch(ValueKind::Number, ValueKind::Unit)),
        _ => Err(LangError::TypeMismatch(left.kind(), right.kind())),
    }
}

/// Applies a logical connective.
pub fn eval_log_op(left: Value, op: LogOpcode, right: Value) -> (r: Result<Value, LangError>)
    ensures
        outcome(r) == log_op_result(left, op, right),
{
    let l: bool = match left {
        Value::Bool(b) => b,
        _ => {
            return Err(LangError::TypeMismatch(ValueKind::Bool, left.kind()));
        },
    };
    let r: bool = match right {
        Value::Bool(b) => b,
        _ => {
            return Err(LangError::TypeMismatch(ValueKind::Bool, right.kind()));
        },
    };
    match op {
        LogOpcode::AND => Ok(Value::Bool(l && r)),
        LogOpcode::OR => Ok(Value::Bool(l || r)),
    }
}

/// The evaluator's state: what the names are bound to, and what was printed.
pub struct State {
    pub vars: Map<Seq<char>, Value>,
    pub output: Seq<Value>,
}

/// The outcome of evaluating one node: its value or the failure, and the state
/// that evaluation left behind.
pub struct Step {
    pub result: Result<Value, Failure>,
    pub state: State,
}

/// The state before anything ran.
pub open spec fn initial_state() -> State {
    State { vars: Map::empty(), output: Seq::empty() }
}

/// The outcome of any operator on two values.
pub open spec fn op_result(left: Value, op: Opcode, right: Value) -> Result<Value, Failure> {
    match op.class() {
        OpClass::Arithmetic(o) => bin_op_result(left, o, right),
        OpClass::Relational(o) => rel_op_result(left, o, right),
        OpClass::Logical(o) => log_op_result(left, o, right),
    }
}

/// The outcome of binding the name that `var` declares to `value`.
pub open spec fn assign_result(var: Node, value: Value, st: State) -> Step {
    match var {
        Node::VarBinding(name, _) => Step {
            result: Ok(Value::Unit),
            state: State { vars: st.vars.insert(name@, value), output: st.output },
        },
        _ => Step { result: Err(Failure::UnsupportedNode(var.kind_of())), state: st },
    }
}

/// The outcome of evaluating one node in state `st`.
///
/// Literals evaluate to themselves and a name to what it is bound to. An
/// operator evaluates its left operand, then its right one, then combines them.
/// `let` evaluates its initialiser and binds the name; `print` evaluates its
/// expression and appends the value to the output. No other node evaluates.
pub open spec fn visit_result(node: Node, st: State) -> Step
    decreases node,
{
    match node {
        Node::NumberLiteral(n) => Step { result: Ok(Value::Number(n)), state: st },
        Node::BoolLiteral(b) => Step { result: Ok(Value::Bool(b)), state: st },
        Node::VarRef(name) => if st.vars.contains_key(name@) {
            Step { result: Ok(st.vars[name@]), state: st }
        } else {
            Step { result: Err(Failure::UndefinedVariable(name@)), state: st }
        },
        Node::BinaryExpr(left, op, right) => {
            let l = visit_result(*left, st);
            match l.result {
                Err(_) => l,
                Ok(lv) => {
                    let r = visit_result(*right, l.state);
                    match r.result {
                        Err(_) => r,
                        Ok(rv) => Step { result: op_result(lv, op, rv), state: r.state },
                    }
                },
            }
        },
        Node::LetStatement { binding, init_expr, next } => {
            let e = visit_result(*init_expr, st);
            match e.result {
                Err(_) => e,
                Ok(v) => assign_result(*binding, v, e.state),
            }
        },
        Node::PrintStatement { expr, next } => {
            let e = visit_result(*expr, st);
            match e.result {
                Err(_) => e,
                Ok(v) => Step {
                    result: Ok(Value::Unit),
                    state: State { vars: e.state.vars, output: e.state.output.push(v) },
                },
            }
        },
        _ => Step { result: Err(Failure::UnsupportedNode(node.kind_of())), state: st },
    }
}

/// The outcome of running the chain of statements that `node` heads: each
/// statement in turn, up to the first failure.
pub open spec fn run_result(node: Node, st: State) -> Step
    decreases node,
{
    let s = visit_result(node, st);
    match s.result {
        Err(_) => s,
        Ok(_) => match node.next_of() {
            Some(n) => run_result(n, s.state),
            None => s,
        },
    }
}

/// The outcome of running the chains of `program` from index `i` on.
pub open spec fn program_result(program: Seq<Box<Node>>, i: int, st: State) -> Step
    decreases program.len() - i,
{
    if 0 <= i < program.len() {
        let s = run_result(*program[i], st);
        match s.result {
            Err(_) => s,
            Ok(_) => program_result(program, i + 1, s.state),
        }
    } else {
        Step { result: Ok(Value::Unit), state: st }
    }
}

/// What interpreting `program` from the empty state gives: the final state, or
/// the first failure.
pub open spec fn interp_result(program: Seq<Box<Node>>) -> Result<State, Failure> {
    let s = program_result(program, 0, initial_state());
    match s.result {
        Ok(_) => Ok(s.state),
        Err(e) => Err(e),
    }
}

/// Applies any operator to two values.
pub fn eval_op(left: Value, op: Opcode, right: Value) -> (r: Result<Value, LangError>)
    ensures
        outcome(r) == op_result(left, op, right),
{
    match op.classify() {
        OpClass::Arithmetic(o) => eval_bin_op(left, o, right),
        OpClass::Relational(o) => eval_rel_op(left, o, right),
        OpClass::Logical(o) => eval_log_op(left, o, right),
    }
}

/// Binds the name that `var` declares to the value `expr` and yields the unit
/// value. `var` has to be a `VarBinding`; any other node is refused and binds
/// nothing.
pub fn assign_var(var: &Node, expr: Value, map: &mut Bindings) -> (r: Result<Value, LangError>)
    ensures
        assign_result(*var, expr, State { vars: old(map)@, output: Seq::empty() }) == (Step {
            result: outcome(r),
            state: State { vars: final(map)@, output: Seq::empty() },
        }),
{
    match var {
        Node::VarBinding(name, _) => {
            map.insert(name.clone(), expr);
            Ok(Value::Unit)
        },
        _ => Err(LangError::UnsupportedNode(var.kind())),
    }
}

/// Evaluates one node: the value it has, the bindings it makes in `map` and the
/// values it prints, appended to `out`.
pub fn visit(node: &Node, map: &mut Bindings, out: &mut Vec<Value>) -> (r: Result<Value, LangError>)
    ensures
        visit_result(*node, State { vars: old(map)@, output: old(out)@ }) == (Step {
            result: outcome(r),
            state: State { vars: final(map)@, output: final(out)@ },
        }),
    decreases node,
{
    match node {
        Node::NumberLiteral(num) => Ok(Value::Number(*num)),
        Node::BoolLiteral(b) => Ok(Value::Bool(*b)),
        Node::VarRef(name) => match map.get(name) {
            Some(v) => Ok(v),
            None => Err(LangError::UndefinedVariable(name.clone())),
        },
        Node::BinaryExpr(left, op, right) => {
            let l = visit(left, map, out)?;
            let r = visit(right, map, out)?;
            eval_op(l, *op, r)
        },
        Node::LetStatement { binding, init_expr, .. } => {
            let v = visit(init_expr, map, out)?;
            assign_var(binding, v, map)
        },
        Node::PrintStatement { expr, .. } => {
            let v = visit(expr, map, out)?;
            out.push(v);
            Ok(Value::Unit)
        },
        _ => Err(LangError::UnsupportedNode(node.kind())),
    }
}

/// Runs the chain of statements that `node` heads, up to the first failure.
pub fn run(node: &Node, map: &mut Bindings, out: &mut Vec<Value>) -> (r: Result<Value, LangError>)
    ensures
        run_result(*node, State { vars: old(map)@, output: old(out)@ }) == (Step {
            result: outcome(r),
            state: State { vars: final(map)@, output: final(out)@ },
        }),
    decreases node,
{
    let v = visit(node, map, out)?;
    match node.next() {
        Some(n) => run(n, map, out),
        None => Ok(v),
    }
}

/// What a program printed and what its names are bound to at the end.
#[derive(Debug)]
pub struct Interpretation {
    pub output: Vec<Value>,
    pub vars: Bindings,
}

impl View for Interpretation {
    type V = State;

    open spec fn view(&self) -> State {
        State { vars: self.vars@, output: self.output@ }
    }
}

/// A run that a failure ended: the failure, and what had been printed and bound
/// when it came.
#[derive(Debug)]
pub struct Interrupted {
    pub error: LangError,
    pub output: Vec<Value>,
    pub vars: Bindings,
}

impl View for Interrupted {
    type V = State;

    open spec fn view(&self) -> State {
        State { vars: self.vars@, output: self.output@ }
    }
}

/// Interprets a program: the chains that its top-level nodes head, in order,
/// from a state that binds nothing. The first failure ends the run; what was
/// printed and bound up to it comes back with the failure, and nothing after it
/// is evaluated.
pub fn interp(ast: Vec<Box<Node>>) -> (r: Result<Interpretation, Interrupted>)
    ensures
        program_result(ast@, 0, initial_state()) == match r {
            Ok(done) => Step { result: Ok(Value::Unit), state: done@ },
            Err(stop) => Step { result: Err(stop.error@), state: stop@ },
        },
        interp_result(ast@) == match r {
            Ok(done) => Ok::<State, Failure>(done@),
            Err(stop) => Err::<State, Failure>(stop.error@),
        },
{
    let mut vars = Bindings::new();
    let mut output: Vec<Value> = Vec::new();
    let mut i: usize = 0;
    while i < ast.len()
        invariant
            i <= ast@.len(),
            program_result(ast@, 0, initial_state()) == program_result(
                ast@,
                i as int,
                State { vars: vars@, output: output@ },
            ),
        decreases ast@.len() - i,
    {
        match run(&ast[i], &mut vars, &mut output) {
            Ok(_) => {},
            Err(error) => {
                return Err(Interrupted { error, output, vars });
            },
        }
        i += 1;
    }
    Ok(Interpretation { output, vars })
}

/// What `shorter` holds, `longer` holds first.
pub open spec fn starts_with(longer: Seq<Value>, shorter: Seq<Value>) -> bool {
    shorter.len() <= longer.len() && longer.subrange(0, shorter.len() as int) == shorter
}

/// Evaluating a node takes nothing back that was printed.
pub proof fn lemma_visit_keeps_output(node: Node, st: State)
    ensures
        starts_with(visit_result(node, st).state.output, st.output),
    decreases node,
{
    assert(st.output.subrange(0, st.output.len() as int) == st.output);
    match node {
        Node::BinaryExpr(left, op, right) => {
            lemma_visit_keeps_output(*left, st);
            let l = visit_result(*left, st);
            if l.result is Ok {
                lemma_visit_keeps_output(*right, l.state);
                let r = visit_result(*right, l.state);
                assert(r.state.output.subrange(0, st.output.len() as int) == l.state.output.subrange(
                    0,
                    st.output.len() as int,
                ));
            }
        },
        Node::LetStatement { binding, init_expr, next } => {
            lemma_visit_keeps_output(*init_expr, st);
        },
        Node::PrintStatement { expr, next } => {
            lemma_visit_keeps_output(*expr, st);
            let e = visit_result(*expr, st);
            match e.result {
                Ok(v) => {
                    assert(e.state.output.push(v).subrange(0, st.output.len() as int)
                        == e.state.output.subrange(0, st.output.len() as int));
                },
                Err(_) => {},
            }
        },
        _ => {},
    }
}

/// Running a chain takes nothing back that was printed.
pub proof fn lemma_run_keeps_output(node: Node, st: State)
    ensures
        starts_with(run_result(node, st).state.output, st.output),
    decreases node,
{
    lemma_visit_keeps_output(node, st);
    let s = visit_result(node, st);
    if s.result is Ok {
        match node.next_of() {
            Some(n) => {
                lemma_run_keeps_output(n, s.state);
                let r = run_result(n, s.state);
                assert(r.state.output.subrange(0, st.output.len() as int) == s.state.output.subrange(
                    0,
                    st.output.len() as int,
                ));
            },
            None => {},
        }
    }
}

/// Running a program takes nothing back that was printed.
pub proof fn lemma_program_keeps_output(program: Seq<Box<Node>>, i: int, st: State)
    ensures
        starts_with(program_result(program, i, st).state.output, st.output),
    decreases program.len() - i,
{
    assert(st.output.subrange(0, st.output.len() as int) == st.output);
    if 0 <= i < program.len() {
        lemma_run_keeps_output(*program[i], st);
        let s = run_result(*program[i], st);
        if s.result is Ok {
            lemma_program_keeps_output(program, i + 1, s.state);
            let r = program_result(program, i + 1, s.state);
            assert(r.state.output.subrange(0, st.output.len() as int) == s.state.output.subrange(
                0,
                st.output.len() as int,
            ));
        }
    }
}

/// The first failure ends the run. Where the chains before index `i` run
/// without failure and the chain at `i` fails, the run ends in that failure,
/// in the state in which the failing chain left off: what the chains before
/// it printed is there, in order, and no chain after it has run.
pub proof fn lemma_failure_ends_the_run(program: Seq<Box<Node>>, i: int, j: int, st: State)
    requires
        0 <= j <= i < program.len(),
        program_result(program.take(i), j, st).result is Ok,
        run_result(*program[i], program_result(program.take(i), j, st).state).result is Err,
    ensures
        program_result(program, j, st) == run_result(
            *program[i],
            program_result(program.take(i), j, st).state,
        ),
        starts_with(
            program_result(program, j, st).state.output,
            program_result(program.take(i), j, st).state.output,
        ),
    decreases i - j,
{
    let before = program.take(i);
    if j < i {
        assert(before[j] == program[j]);
        let s = run_result(*program[j], st);
        lemma_failure_ends_the_run(program, i, j + 1, s.state);
    }
    lemma_run_keeps_output(*program[i], program_result(before, j, st).state);
}

/// The statement `let name: ty = init`, with nothing after it.
pub open spec fn let_statement(name: String, ty: LiteralType, init: Node) -> Node {
    Node::LetStatement {
        binding: Box::new(Node::VarBinding(name, ty)),
        init_expr: Box::new(init),
        next: None,
    }
}

/// The statement `print name`, with nothing after it.
pub open spec fn print_variable(name: String) -> Node {
    Node::PrintStatement { expr: Box::new(Node::VarRef(name)), next: None }
}

/// The expression that applies `op` to the literals `a` and `b`.
pub open spec fn literal_operation(a: i32, op: Opcode, b: i32) -> Node {
    Node::BinaryExpr(Box::new(Node::NumberLiteral(a)), op, Box::new(Node::NumberLiteral(b)))
}

/// A number that fits in 32 bits is left as it is by wrapping.
pub proof fn lemma_wrap32_in_range(x: int)
    requires
        i32::MIN <= x <= i32::MAX,
    ensures
        wrap32(x) == x,
{
}

/// Binding a name to the sum of two numbers and printing the name prints the
/// sum, wrapped to 32 bits: the program `let name: ty = a + b; print name;`
/// prints that one value and leaves the name bound to it.
pub proof fn lemma_sum_is_printed(a: i32, b: i32, name: String, ty: LiteralType)
    ensures
        interp_result(
            seq![
                Box::new(let_statement(name, ty, literal_operation(a, Opcode::Add, b))),
                Box::new(print_variable(name)),
            ],
        ) == Ok::<State, Failure>(
            State {
                vars: Map::<Seq<char>, Value>::empty().insert(
                    name@,
                    Value::Number(wrap32(a + b) as i32),
                ),
                output: seq![Value::Number(wrap32(a + b) as i32)],
            },
        ),
{
    let first = let_statement(name, ty, literal_operation(a, Opcode::Add, b));
    let second = print_variable(name);
    let program = seq![Box::new(first), Box::new(second)];
    let sum = Value::Number(wrap32(a + b) as i32);
    let s0 = initial_state();
    let s1 = State { vars: s0.vars.insert(name@, sum), output: s0.output };
    let s2 = State { vars: s1.vars, output: s1.output.push(sum) };
    reveal_with_fuel(visit_result, 3);
    assert(visit_result(first, s0) == Step { result: Ok(Value::Unit), state: s1 });
    assert(run_result(first, s0) == Step { result: Ok(Value::Unit), state: s1 });
    assert(visit_result(second, s1) == Step { result: Ok(Value::Unit), state: s2 });
    assert(run_result(second, s1) == Step { result: Ok(Value::Unit), state: s2 });
    reveal_with_fuel(program_result, 3);
    assert(*program[0] == first);
    assert(*program[1] == second);
    assert(program_result(program, 0, s0) == Step { result: Ok(Value::Unit), state: s2 });
    assert(s2.output == seq![sum]);
}

/// Dividing by the literal zero fails, whatever the dividend: the program
/// `let name: ty = a / 0;` ends in `DivisionByZero`.
pub proof fn lemma_division_by_zero_fails(a: i32, name: String, ty: LiteralType)
    ensures
        interp_result(seq![Box::new(let_statement(name, ty, literal_operation(a, Opcode::Div, 0)))])
            == Err::<State, Failure>(Failure::DivisionByZero),
{
    let first = let_statement(name, ty, literal_operation(a, Opcode::Div, 0));
    let program = seq![Box::new(first)];
    let s0 = initial_state();
    reveal_with_fuel(visit_result, 3);
    assert(visit_result(first, s0).result == Err::<Value, Failure>(Failure::DivisionByZero));
    assert(run_result(first, s0).result == Err::<Value, Failure>(Failure::DivisionByZero));
    reveal_with_fuel(program_result, 2);
    assert(*program[0] == first);
}

/// A `let` binds its name to the value of its initialiser, whatever the name was
/// bound to before, and changes no other binding that the initialiser left.
pub proof fn lemma_let_binds_anew(name: String, ty: LiteralType, init: Node, st: State)
    requires
        visit_result(init, st).result is Ok,
    ensures
        ({
            let e = visit_result(init, st);
            let after = visit_result(let_statement(name, ty, init), st);
            &&& after.result == Ok::<Value, Failure>(Value::Unit)
            &&& after.state.output == e.state.output
            &&& after.state.vars.contains_key(name@)
            &&& after.state.vars[name@] == e.result->Ok_0
            &&& forall|other: Seq<char>|
                other != name@ ==> (after.state.vars.contains_key(other)
                    <==> e.state.vars.contains_key(other)) && after.state.vars[other]
                    == e.state.vars[other]
        }),
{
}

/// A second `let` of a name replaces what the first one bound: after
/// `let name: t1 = a; let name: t2 = b;` the table binds `name` to `b` and holds
/// nothing else.
pub proof fn lemma_rebinding_overwrites(a: i32, b: i32, name: String, t1: LiteralType, t2: LiteralType)
    ensures
        interp_result(
            seq![
                Box::new(let_statement(name, t1, Node::NumberLiteral(a))),
                Box::new(let_statement(name, t2, Node::NumberLiteral(b))),
            ],
        ) == Ok::<State, Failure>(
            State {
                vars: Map::<Seq<char>, Value>::empty().insert(name@, Value::Number(b)),
                output: Seq::empty(),
            },
        ),
{
    let first = let_statement(name, t1, Node::NumberLiteral(a));
    let second = let_statement(name, t2, Node::NumberLiteral(b));
    let program = seq![Box::new(first), Box::new(second)];
    let s0 = initial_state();
    let s1 = State { vars: s0.vars.insert(name@, Value::Number(a)), output: s0.output };
    let s2 = State { vars: s1.vars.insert(name@, Value::Number(b)), output: s1.output };
    reveal_with_fuel(visit_result, 2);
    assert(run_result(first, s0) == Step { result: Ok(Value::Unit), state: s1 });
    assert(run_result(second, s1) == Step { result: Ok(Value::Unit), state: s2 });
    reveal_with_fuel(program_result, 3);
    assert(*program[0] == first);
    assert(*program[1] == second);
    assert(s2.vars == Map::<Seq<char>, Value>::empty().insert(name@, Value::Number(b)));
}

/// A comparison of a number with a boolean fails with a type mismatch, whichever
/// side the number is on and whatever the operator.
pub proof fn lemma_mixed_comparison_fails(n: i32, b: bool, op: RelOpcode)
    ensures
        rel_op_result(Value::Number(n), op, Value::Bool(b)) == Err::<Value, Failure>(
            Failure::TypeMismatch(ValueKind::Number, ValueKind::Bool),
        ),
        rel_op_result(Value::Bool(b), op, Value::Number(n)) == Err::<Value, Failure>(
            Failure::TypeMismatch(ValueKind::Bool, ValueKind::Number),
        ),
{
}

/// The names that the `let` statements inside a node bind.
pub open spec fn let_names(node: Node) -> Set<Seq<char>>
    decreases node,
{
    match node {
        Node::BinaryExpr(left, op, right) => let_names(*left).union(let_names(*right)),
        Node::LetStatement { binding, init_expr, next } => match *binding {
            Node::VarBinding(name, _) => let_names(*init_expr).insert(name@),
            _ => let_names(*init_expr),
        },
        Node::PrintStatement { expr, next } => let_names(*expr),
        _ => Set::empty(),
    }
}

/// The names that the `let` statements of a chain bind.
pub open spec fn chain_let_names(node: Node) -> Set<Seq<char>>
    decreases node,
{
    match node.next_of() {
        Some(n) => let_names(node).union(chain_let_names(n)),
        None => let_names(node),
    }
}

/// The names that the `let` statements of a program bind, from chain `i` on.
pub open spec fn program_let_names(program: Seq<Box<Node>>, i: int) -> Set<Seq<char>>
    decreases program.len() - i,
{
    if 0 <= i < program.len() {
        chain_let_names(*program[i]).union(program_let_names(program, i + 1))
    } else {
        Set::empty()
    }
}

/// Evaluating a node binds no name but those that its `let` statements bind.
pub proof fn lemma_visit_binds_lets(node: Node, st: State)
    ensures
        visit_result(node, st).state.vars.dom().subset_of(st.vars.dom().union(let_names(node))),
    decreases node,
{
    match node {
        Node::BinaryExpr(left, op, right) => {
            lemma_visit_binds_lets(*left, st);
            let l = visit_result(*left, st);
            if l.result is Ok {
                lemma_visit_binds_lets(*right, l.state);
            }
        },
        Node::LetStatement { binding, init_expr, next } => {
            lemma_visit_binds_lets(*init_expr, st);
        },
        Node::PrintStatement { expr, next } => {
            lemma_visit_binds_lets(*expr, st);
        },
        _ => {},
    }
}

/// Running a chain binds no name but those that its `let` statements bind.
pub proof fn lemma_run_binds_lets(node: Node, st: State)
    ensures
        run_result(node, st).state.vars.dom().subset_of(
            st.vars.dom().union(chain_let_names(node)),
        ),
    decreases node,
{
    lemma_visit_binds_lets(node, st);
    let s = visit_result(node, st);
    if s.result is Ok {
        match node.next_of() {
            Some(n) => {
                lemma_run_binds_lets(n, s.state);
            },
            None => {},
        }
    }
}

/// Running a program binds no name but those that its `let` statements bind.
pub proof fn lemma_program_binds_lets(program: Seq<Box<Node>>, i: int, st: State)
    ensures
        program_result(program, i, st).state.vars.dom().subset_of(
            st.vars.dom().union(program_let_names(program, i)),
        ),
    decreases program.len() - i,
{
    if 0 <= i < program.len() {
        lemma_run_binds_lets(*program[i], st);
        let s = run_result(*program[i], st);
        if s.result is Ok {
            lemma_program_binds_lets(program, i + 1, s.state);
        }
    }
}

/// Every name in the table that a program leaves behind is bound by one of the
/// program's `let` statements.
pub proof fn lemma_dump_holds_let_bound_names(program: Seq<Box<Node>>)
    ensures
        interp_result(program) matches Ok(end) ==> end.vars.dom().subset_of(
            program_let_names(program, 0),
        ),
{
    lemma_program_binds_lets(program, 0, initial_state());
}

} // verus!
