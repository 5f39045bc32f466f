//! The abstract syntax tree. Nodes are plain data: a parser builds them once and
//! both back ends read them.

use vstd::prelude::*;

verus! {

/// The types a declaration can name.
#[derive(Clone, Copy, Debug, PartialEq, Eq, Structural)]
pub enum LiteralType {
    I32,
    Bool,
}

/// Every operator of the surface language.
#[derive(Clone, Copy, Debug, PartialEq, Eq, Structural)]
pub enum Opcode {
    Add,
    Sub,
    Mul,
    Div,
    AND,
    OR,
    EQ,
    NEQ,
    GT,
    LT,
    GEQ,
    LEQ,
}

/// The arithmetic operators.
#[derive(Clone, Copy, Debug, PartialEq, Eq, Structural)]
pub enum BinOpcode {
    Add,
    Sub,
    Div,
    Mul,
}

/// The comparison operators.
#[derive(Clone, Copy, Debug, PartialEq, Eq, Structural)]
pub enum RelOpcode {
    EQ,
    NEQ,
    GT,
    LT,
    GEQ,
    LEQ,
}

/// The logical connectives.
#[derive(Clone, Copy, Debug, PartialEq, Eq, Structural)]
pub enum LogOpcode {
    AND,
    OR,
}

/// An operator together with the family it belongs to.
#[derive(Clone, Copy, Debug, PartialEq, Eq, Structural)]
pub enum OpClass {
    Arithmetic(BinOpcode),
    Relational(RelOpcode),
    Logical(LogOpcode),
}

impl Opcode {
    /// The family of an operator.
    pub open spec fn class(self) -> OpClass {
        match self {
            Opcode::Add => OpClass::Arithmetic(BinOpcode::Add),
            Opcode::Sub => OpClass::Arithmetic(BinOpcode::Sub),
            Opcode::Mul => OpClass::Arithmetic(BinOpcode::Mul),
            Opcode::Div => OpClass::Arithmetic(BinOpcode::Div),
            Opcode::AND => OpClass::Logical(LogOpcode::AND),
            Opcode::OR => OpClass::Logical(LogOpcode::OR),
            Opcode::EQ => OpClass::Relational(RelOpcode::EQ),
            Opcode::NEQ => OpClass::Relational(RelOpcode::NEQ),
            Opcode::GT => OpClass::Relational(RelOpcode::GT),
            Opcode::LT => OpClass::Relational(RelOpcode::LT),
            Opcode::GEQ => OpClass::Relational(RelOpcode::GEQ),
            Opcode::LEQ => OpClass::Relational(RelOpcode::LEQ),
        }
    }

    /// Sorts an operator into its family.
    pub fn classify(self) -> (r: OpClass)
        ensures
            r == self.class(),
    {
        match self {
            Opcode::Add => OpClass::Arithmetic(BinOpcode::Add),
            Opcode::Sub => OpClass::Arithmetic(BinOpcode::Sub),
            Opcode::Mul => OpClass::Arithmetic(BinOpcode::Mul),
            Opcode::Div => OpClass::Arithmetic(BinOpcode::Div),
            Opcode::AND => OpClass::Logical(LogOpcode::AND),
            Opcode::OR => OpClass::Logical(LogOpcode::OR),
            Opcode::EQ => OpClass::Relational(RelOpcode::EQ),
            Opcode::NEQ => OpClass::Relational(RelOpcode::NEQ),
            Opcode::GT => OpClass::Relational(RelOpcode::GT),
            Opcode::LT => OpClass::Relational(RelOpcode::LT),
            Opcode::GEQ => OpClass::Relational(RelOpcode::GEQ),
            Opcode::LEQ => OpClass::Relational(RelOpcode::LEQ),
        }
    }
}

/// A node of the syntax tree.
///
/// Every statement but `ReturnStatement` carries a `next` link; the links chain
/// the statements of one straight-line block, and an absent link ends the chain.
#[derive(Debug, PartialEq, Eq)]
pub enum Node {
    NumberLiteral(i32),
    BoolLiteral(bool),
    VarRef(String),
    UnaryOp(Opcode, Box<Node>),
    BinaryExpr(Box<Node>, Opcode, Box<Node>),
    VarBinding(String, LiteralType),
    LetStatement { binding: Box<Node>, init_expr: Box<Node>, next: Option<Box<Node>> },
    AssignStatement { var_name: String, expr: Box<Node>, next: Option<Box<Node>> },
    PrintStatement { expr: Box<Node>, next: Option<Box<Node>> },
    IfStatement { cond: Box<Node>, body: Box<Node>, next: Option<Box<Node>> },
    IfElseStatement {
        cond: Box<Node>,
        then_body: Box<Node>,
        else_body: Box<Node>,
        next: Option<Box<Node>>,
    },
    WhileStatement { cond: Box<Node>, body: Box<Node>, next: Option<Box<Node>> },
    ReturnStatement { expr: Box<Node> },
    FuncCall { name: String, args: Vec<Box<Node>>, next: Option<Box<Node>> },
    FuncParam { name: String, declared_type: LiteralType },
    FuncDecl {
        name: String,
        params: Vec<Box<Node>>,
        return_type: Option<LiteralType>,
        body: Box<Node>,
    },
}

/// The variant of a node, without its contents.
#[derive(Clone, Copy, Debug, PartialEq, Eq, Structural)]
pub enum NodeKind {
    NumberLiteral,
    BoolLiteral,
    VarRef,
    UnaryOp,
    BinaryExpr,
    VarBinding,
    LetStatement,
    AssignStatement,
    PrintStatement,
    IfStatement,
    IfElseStatement,
    WhileStatement,
    ReturnStatement,
    FuncCall,
    FuncParam,
    FuncDecl,
}

impl Node {
    /// The variant this node is.
    pub open spec fn kind_of(self) -> NodeKind {
        match self {
            Node::NumberLiteral(..) => NodeKind::NumberLiteral,
            Node::BoolLiteral(..) => NodeKind::BoolLiteral,
            Node::VarRef(..) => NodeKind::VarRef,
            Node::UnaryOp(..) => NodeKind::UnaryOp,
            Node::BinaryExpr(..) => NodeKind::BinaryExpr,
            Node::VarBinding(..) => NodeKind::VarBinding,
            Node::LetStatement { .. } => NodeKind::LetStatement,
            Node::AssignStatement { .. } => NodeKind::AssignStatement,
            Node::PrintStatement { .. } => NodeKind::PrintStatement,
            Node::IfStatement { .. } => NodeKind::IfStatement,
            Node::IfElseStatement { .. } => NodeKind::IfElseStatement,
            Node::WhileStatement { .. } => NodeKind::WhileStatement,
            Node::ReturnStatement { .. } => NodeKind::ReturnStatement,
            Node::FuncCall { .. } => NodeKind::FuncCall,
            Node::FuncParam { .. } => NodeKind::FuncParam,
            Node::FuncDecl { .. } => NodeKind::FuncDecl,
        }
    }

    /// Reports which variant this node is.
    pub fn kind(&self) -> (k: NodeKind)
        ensures
            k == self.kind_of(),
    {
        match self {
            Node::NumberLiteral(..) => NodeKind::NumberLiteral,
            Node::BoolLiteral(..) => NodeKind::BoolLiteral,
            Node::VarRef(..) => NodeKind::VarRef,
            Node::UnaryOp(..) => NodeKind::UnaryOp,
            Node::BinaryExpr(..) => NodeKind::BinaryExpr,
            Node::VarBinding(..) => NodeKind::VarBinding,
            Node::LetStatement { .. } => NodeKind::LetStatement,
            Node::AssignStatement { .. } => NodeKind::AssignStatement,
            Node::PrintStatement { .. } => NodeKind::PrintStatement,
            Node::IfStatement { .. } => NodeKind::IfStatement,
            Node::IfElseStatement { .. } => NodeKind::IfElseStatement,
            Node::WhileStatement { .. } => NodeKind::WhileStatement,
            Node::ReturnStatement { .. } => NodeKind::ReturnStatement,
            Node::FuncCall { .. } => NodeKind::FuncCall,
            Node::FuncParam { .. } => NodeKind::FuncParam,
            Node::FuncDecl { .. } => NodeKind::FuncDecl,
        }
    }

    /// The statement that follows this one in its chain, if there is one.
    pub open spec fn next_of(self) -> Option<Node> {
        match self {
            Node::LetStatement { next: Some(n), .. } => Some(*n),
            Node::AssignStatement { next: Some(n), .. } => Some(*n),
            Node::PrintStatement { next: Some(n), .. } => Some(*n),
            Node::IfStatement { next: Some(n), .. } => Some(*n),
            Node::IfElseStatement { next: Some(n), .. } => Some(*n),
            Node::WhileStatement { next: Some(n), .. } => Some(*n),
            Node::FuncCall { next: Some(n), .. } => Some(*n),
            _ => None,
        }
    }

    /// Follows the `next` link of a statement.
    pub fn next(&self) -> (r: Option<&Node>)
        ensures
            match r {
                Some(n) => self.next_of() == Some(*n),
                None => self.next_of().is_none(),
            },
    {
        match self {
            Node::LetStatement { next: Some(n), .. } => Some(&**n),
            Node::AssignStatement { next: Some(n), .. } => Some(&**n),
            Node::PrintStatement { next: Some(n), .. } => Some(&**n),
            Node::IfStatement { next: Some(n), .. } => Some(&**n),
            Node::IfElseStatement { next: Some(n), .. } => Some(&**n),
            Node::WhileStatement { next: Some(n), .. } => Some(&**n),
            Node::FuncCall { next: Some(n), .. } => Some(&**n),
            _ => None,
        }
    }
}

} // verus!
