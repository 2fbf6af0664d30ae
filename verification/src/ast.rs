use vstd::prelude::*;

use crate::token::{Token, TokenType};

verus! {

/// Expressions of the syntax tree.
#[derive(Debug)]
pub enum Expr {
    Literal(Token),
    Unary(Token, Box<Expr>),
    Binary(Token, Box<Expr>, Box<Expr>),
    Grouping(Box<Expr>),
    Variable(Token),
    Assign(Token, Box<Expr>),
    And(Token, Box<Expr>, Box<Expr>),
    Or(Token, Box<Expr>, Box<Expr>),
    Call(Box<Expr>, Vec<Expr>, Token),
    Get(Box<Expr>, Token),
    SetField(Box<Expr>, Token, Box<Expr>),
    This(Token),
    Super(Token, Token),
}

/// Statements of the syntax tree.
#[derive(Debug)]
pub enum Stmt {
    Print(Token, Expr),
    Expr(Token, Expr),
    DeclareVar(Token, Option<Expr>),
    Block(Vec<Stmt>),
    If(Token, Expr, Box<Stmt>, Option<Box<Stmt>>),
    While(Token, Expr, Box<Stmt>),
    DeclareFunc(Token, Vec<Token>, Vec<Stmt>),
    Return(Token, Expr),
    DeclareClass(Token, Option<Token>, Vec<(Token, Vec<Token>, Vec<Stmt>)>),
}

/// Kinds of tokens that a literal expression holds.
pub open spec fn is_literal_kind(t: TokenType) -> bool {
    t == TokenType::Number || t == TokenType::String || t == TokenType::True || t
        == TokenType::False || t == TokenType::Nil
}

/// Kinds of tokens that a unary expression applies.
pub open spec fn is_unary_kind(t: TokenType) -> bool {
    t == TokenType::Minus || t == TokenType::Bang
}

/// Kinds of tokens that a binary expression applies.
pub open spec fn is_binary_kind(t: TokenType) -> bool {
    t == TokenType::Plus || t == TokenType::Minus || t == TokenType::Star || t
        == TokenType::Slash || t == TokenType::EqualEqual || t == TokenType::BangEqual || t
        == TokenType::LessThan || t == TokenType::LessEqual || t == TokenType::GreaterThan || t
        == TokenType::GreaterEqual
}

/// The shape the parser gives an expression: every operator and literal
/// token is of a kind that its node admits, names are identifiers, and a
/// call has at most 255 arguments.
pub open spec fn wf_expr(e: Expr) -> bool
    decreases e,
{
    match e {
        Expr::Literal(t) => is_literal_kind(t.token),
        Expr::Unary(op, inner) => is_unary_kind(op.token) && wf_expr(*inner),
        Expr::Binary(op, l, r) => is_binary_kind(op.token) && wf_expr(*l) && wf_expr(*r),
        Expr::Grouping(inner) => wf_expr(*inner),
        Expr::Variable(t) => t.token == TokenType::Identifier,
        Expr::Assign(t, value) => t.token == TokenType::Identifier && wf_expr(*value),
        Expr::And(_, l, r) => wf_expr(*l) && wf_expr(*r),
        Expr::Or(_, l, r) => wf_expr(*l) && wf_expr(*r),
        Expr::Call(callee, args, _) => wf_expr(*callee) && args@.len() <= 255 && forall|i: int|
            0 <= i < args@.len() ==> wf_expr(#[trigger] args@[i]),
        Expr::Get(obj, prop) => wf_expr(*obj) && prop.token == TokenType::Identifier,
        Expr::SetField(obj, prop, value) => wf_expr(*obj) && prop.token == TokenType::Identifier
            && wf_expr(*value),
        Expr::This(_) => true,
        Expr::Super(_, prop) => prop.token == TokenType::Identifier,
    }
}

/// The shape the parser gives a function: its name and parameters are
/// identifiers, it has at most 255 parameters, and its body is well formed.
pub open spec fn wf_function(id: Token, params: Vec<Token>, body: Vec<Stmt>) -> bool
    decreases body, 0int,
{
    &&& id.token == TokenType::Identifier
    &&& params@.len() <= 255
    &&& forall|i: int|
        0 <= i < params@.len() ==> (#[trigger] params@[i]).token == TokenType::Identifier
    &&& forall|i: int| 0 <= i < body@.len() ==> wf_stmt(#[trigger] body@[i])
}

/// The shape the parser gives a statement: its expressions are well formed,
/// declared names and parameters are identifiers, and a function has at
/// most 255 parameters.
pub open spec fn wf_stmt(s: Stmt) -> bool
    decreases s, 1int,
{
    match s {
        Stmt::Print(_, e) => wf_expr(e),
        Stmt::Expr(_, e) => wf_expr(e),
        Stmt::DeclareVar(id, init) => id.token == TokenType::Identifier && match init {
            Some(e) => wf_expr(e),
            None => true,
        },
        Stmt::Block(stmts) => forall|i: int| 0 <= i < stmts@.len() ==> wf_stmt(#[trigger] stmts@[i]),
        Stmt::If(_, cond, then_branch, else_branch) => wf_expr(cond) && wf_stmt(*then_branch)
            && match else_branch {
            Some(b) => wf_stmt(*b),
            None => true,
        },
        Stmt::While(_, cond, body) => wf_expr(cond) && wf_stmt(*body),
        Stmt::DeclareFunc(id, params, body) => wf_function(id, params, body),
        Stmt::Return(_, e) => wf_expr(e),
        Stmt::DeclareClass(id, parent, methods) => id.token == TokenType::Identifier && (
        parent matches Some(p) ==> p.token == TokenType::Identifier) && forall|i: int|
            0 <= i < methods@.len() ==> wf_function(
                (#[trigger] methods@[i]).0,
                methods@[i].1,
                methods@[i].2,
            ),
    }
}

/// The number of nodes of an expression: a measure that every
/// sub-expression lowers.
pub open spec fn expr_size(e: Expr) -> nat
    decreases e,
{
    match e {
        Expr::Literal(_) => 1,
        Expr::Unary(_, x) => 1 + expr_size(*x),
        Expr::Binary(_, l, r) => 1 + expr_size(*l) + expr_size(*r),
        Expr::Grouping(x) => 1 + expr_size(*x),
        Expr::Variable(_) => 1,
        Expr::Assign(_, x) => 1 + expr_size(*x),
        Expr::And(_, l, r) => 1 + expr_size(*l) + expr_size(*r),
        Expr::Or(_, l, r) => 1 + expr_size(*l) + expr_size(*r),
        Expr::Call(c, args, _) => 1 + expr_size(*c) + exprs_size(args@),
        Expr::Get(o, _) => 1 + expr_size(*o),
        Expr::SetField(o, _, v) => 1 + expr_size(*o) + expr_size(*v),
        Expr::This(_) => 1,
        Expr::Super(_, _) => 1,
    }
}

/// The number of nodes of a list of expressions.
pub open spec fn exprs_size(s: Seq<Expr>) -> nat
    decreases s,
{
    if s.len() == 0 {
        0
    } else {
        expr_size(s[0]) + exprs_size(s.drop_first())
    }
}

/// Each expression of a list is smaller than the list.
pub proof fn lemma_exprs_size(s: Seq<Expr>, i: int)
    requires
        0 <= i < s.len(),
    ensures
        expr_size(s[i]) <= exprs_size(s),
    decreases s.len(),
{
    if i > 0 {
        lemma_exprs_size(s.drop_first(), i - 1);
    }
}

/// The number of nodes of a statement, not counting its expressions.
pub open spec fn stmt_size(s: Stmt) -> nat
    decreases s,
{
    match s {
        Stmt::Block(stmts) => 1 + stmts_size(stmts@),
        Stmt::If(_, _, t, e) => 1 + stmt_size(*t) + match e {
            Some(b) => stmt_size(*b),
            None => 0,
        },
        Stmt::While(_, _, body) => 1 + stmt_size(*body),
        Stmt::DeclareFunc(_, _, body) => 1 + stmts_size(body@),
        _ => 1,
    }
}

/// The number of nodes of a list of statements.
pub open spec fn stmts_size(s: Seq<Stmt>) -> nat
    decreases s,
{
    if s.len() == 0 {
        0
    } else {
        stmt_size(s[0]) + stmts_size(s.drop_first())
    }
}

/// Each statement of a list is smaller than the list.
pub proof fn lemma_stmts_size(s: Seq<Stmt>, i: int)
    requires
        0 <= i < s.len(),
    ensures
        stmt_size(s[i]) <= stmts_size(s),
    decreases s.len(),
{
    if i > 0 {
        lemma_stmts_size(s.drop_first(), i - 1);
    }
}

} // verus!
