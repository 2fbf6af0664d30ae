use vstd::prelude::*;

use crate::ast::{Expr, Stmt};
use crate::errors::{CompileError, InterpretError, PanicError, ScanError, SyntaxError};
use crate::token::{Token, TokenType};

verus! {

/// What a token holds: its kind, its text and its line.
pub struct TokV {
    pub kind: TokenType,
    pub lexeme: Seq<char>,
    pub line: u32,
}

/// The contents of a token.
pub open spec fn tok_view(t: Token) -> TokV {
    TokV { kind: t.token, lexeme: t.lexeme@, line: t.line }
}

/// The contents of a list of tokens.
pub open spec fn toks_view(ts: Seq<Token>) -> Seq<TokV> {
    ts.map_values(|t: Token| tok_view(t))
}

/// What an expression holds, its tokens taken by their contents.
pub enum ExprV {
    Literal(TokV),
    Unary(TokV, Box<ExprV>),
    Binary(TokV, Box<ExprV>, Box<ExprV>),
    Grouping(Box<ExprV>),
    Variable(TokV),
    Assign(TokV, Box<ExprV>),
    And(TokV, Box<ExprV>, Box<ExprV>),
    Or(TokV, Box<ExprV>, Box<ExprV>),
    Call(Box<ExprV>, Seq<ExprV>, TokV),
    Get(Box<ExprV>, TokV),
    SetField(Box<ExprV>, TokV, Box<ExprV>),
    This(TokV),
    Super(TokV, TokV),
}

/// What a statement holds, its tokens taken by their contents.
pub enum StmtV {
    Print(TokV, ExprV),
    Expr(TokV, ExprV),
    DeclareVar(TokV, Option<ExprV>),
    Block(Seq<StmtV>),
    If(TokV, ExprV, Box<StmtV>, Option<Box<StmtV>>),
    While(TokV, ExprV, Box<StmtV>),
    DeclareFunc(TokV, Seq<TokV>, Seq<StmtV>),
    Return(TokV, ExprV),
    DeclareClass(TokV, Option<TokV>, Seq<(TokV, Seq<TokV>, Seq<StmtV>)>),
}

/// An error of the scanner, the parser or the compiler, its texts taken by
/// their characters.
pub enum ErrV {
    Scan(ScanError),
    ExpectedChar(u32, Seq<char>, Seq<char>),
    ExpectedExpression(u32, Seq<char>),
    UnexpectedEOF,
    InvalidAssignment(u32),
    TooManyArgs(u32),
    TooManyParams(u32),
    AlreadyDeclared(u32, Seq<char>),
    SelfInitialization(u32),
    LargeJump(u32, usize),
    TopReturn(u32),
    General(u32, Seq<char>),
    InvalidToken(u32, TokenType, Seq<char>),
    UnImplemented,
    Other,
}

/// The contents of an error.
pub open spec fn err_view(e: InterpretError) -> ErrV {
    match e {
        InterpretError::Scan(s) => ErrV::Scan(s),
        InterpretError::Syntax(SyntaxError::ExpectedChar(l, a, b)) => ErrV::ExpectedChar(l, a@, b@),
        InterpretError::Syntax(SyntaxError::ExpectedExpression(l, a)) => ErrV::ExpectedExpression(
            l,
            a@,
        ),
        InterpretError::Syntax(SyntaxError::UnexpectedEOF) => ErrV::UnexpectedEOF,
        InterpretError::Syntax(SyntaxError::InvalidAssignment(l)) => ErrV::InvalidAssignment(l),
        InterpretError::Syntax(SyntaxError::TooManyArgs(l)) => ErrV::TooManyArgs(l),
        InterpretError::Syntax(SyntaxError::TooManyParams(l)) => ErrV::TooManyParams(l),
        InterpretError::Compile(CompileError::AlreadyDeclared(l, n)) => ErrV::AlreadyDeclared(l, n@),
        InterpretError::Compile(CompileError::SelfInitialization(l)) => ErrV::SelfInitialization(l),
        InterpretError::Compile(CompileError::LargeJump(l, d)) => ErrV::LargeJump(l, d),
        InterpretError::Compile(CompileError::TopReturn(l)) => ErrV::TopReturn(l),
        InterpretError::Panic(PanicError::General(l, m)) => ErrV::General(l, m@),
        InterpretError::Panic(PanicError::InvalidToken(l, k, m)) => ErrV::InvalidToken(l, k, m@),
        InterpretError::UnImplemented => ErrV::UnImplemented,
        _ => ErrV::Other,
    }
}

/// The contents of an item the scanner hands out: a token or its error.
pub open spec fn item_view(r: Result<Token, InterpretError>) -> Result<TokV, ScanError> {
    match r {
        Ok(t) => Ok(tok_view(t)),
        Err(InterpretError::Scan(e)) => Err(e),
        Err(_) => Err(ScanError::UnexpectedCharacter(0, ' ')),
    }
}

/// The contents of an expression.
pub open spec fn expr_view(e: Expr) -> ExprV
    decreases e, 0int,
{
    match e {
        Expr::Literal(t) => ExprV::Literal(tok_view(t)),
        Expr::Unary(t, x) => ExprV::Unary(tok_view(t), Box::new(expr_view(*x))),
        Expr::Binary(t, l, r) => ExprV::Binary(
            tok_view(t),
            Box::new(expr_view(*l)),
            Box::new(expr_view(*r)),
        ),
        Expr::Grouping(x) => ExprV::Grouping(Box::new(expr_view(*x))),
        Expr::Variable(t) => ExprV::Variable(tok_view(t)),
        Expr::Assign(t, x) => ExprV::Assign(tok_view(t), Box::new(expr_view(*x))),
        Expr::And(t, l, r) => ExprV::And(
            tok_view(t),
            Box::new(expr_view(*l)),
            Box::new(expr_view(*r)),
        ),
        Expr::Or(t, l, r) => ExprV::Or(tok_view(t), Box::new(expr_view(*l)), Box::new(expr_view(*r))),
        Expr::Call(c, args, t) => ExprV::Call(
            Box::new(expr_view(*c)),
            exprs_view(args@),
            tok_view(t),
        ),
        Expr::Get(o, t) => ExprV::Get(Box::new(expr_view(*o)), tok_view(t)),
        Expr::SetField(o, t, v) => ExprV::SetField(
            Box::new(expr_view(*o)),
            tok_view(t),
            Box::new(expr_view(*v)),
        ),
        Expr::This(t) => ExprV::This(tok_view(t)),
        Expr::Super(t, p) => ExprV::Super(tok_view(t), tok_view(p)),
    }
}

/// The contents of a list of expressions.
pub open spec fn exprs_view(es: Seq<Expr>) -> Seq<ExprV>
    decreases es, 1int,
{
    if es.len() == 0 {
        Seq::empty()
    } else {
        seq![expr_view(es[0])] + exprs_view(es.subrange(1, es.len() as int))
    }
}

/// The contents of a statement.
pub open spec fn stmt_view(s: Stmt) -> StmtV
    decreases s, 0int,
{
    match s {
        Stmt::Print(t, x) => StmtV::Print(tok_view(t), expr_view(x)),
        Stmt::Expr(t, x) => StmtV::Expr(tok_view(t), expr_view(x)),
        Stmt::DeclareVar(t, init) => StmtV::DeclareVar(
            tok_view(t),
            match init {
                Some(x) => Some(expr_view(x)),
                None => None,
            },
        ),
        Stmt::Block(ss) => StmtV::Block(stmts_view(ss@)),
        Stmt::If(t, c, a, b) => StmtV::If(
            tok_view(t),
            expr_view(c),
            Box::new(stmt_view(*a)),
            match b {
                Some(x) => Some(Box::new(stmt_view(*x))),
                None => None,
            },
        ),
        Stmt::While(t, c, b) => StmtV::While(tok_view(t), expr_view(c), Box::new(stmt_view(*b))),
        Stmt::DeclareFunc(t, ps, body) => StmtV::DeclareFunc(
            tok_view(t),
            toks_view(ps@),
            stmts_view(body@),
        ),
        Stmt::Return(t, x) => StmtV::Return(tok_view(t), expr_view(x)),
        Stmt::DeclareClass(t, p, ms) => StmtV::DeclareClass(
            tok_view(t),
            match p {
                Some(x) => Some(tok_view(x)),
                None => None,
            },
            methods_view(ms@),
        ),
    }
}

/// The contents of a list of statements.
pub open spec fn stmts_view(ss: Seq<Stmt>) -> Seq<StmtV>
    decreases ss, 1int,
{
    if ss.len() == 0 {
        Seq::empty()
    } else {
        seq![stmt_view(ss[0])] + stmts_view(ss.subrange(1, ss.len() as int))
    }
}

/// The contents of the methods of a class.
pub open spec fn methods_view(ms: Seq<(Token, Vec<Token>, Vec<Stmt>)>) -> Seq<
    (TokV, Seq<TokV>, Seq<StmtV>),
>
    decreases ms, 1int,
{
    if ms.len() == 0 {
        Seq::empty()
    } else {
        seq![(tok_view(ms[0].0), toks_view(ms[0].1@), stmts_view(ms[0].2@))] + methods_view(
            ms.subrange(1, ms.len() as int),
        )
    }
}

/// The contents of a token or of the error met instead.
pub open spec fn tok_result(r: Result<Token, InterpretError>) -> Result<TokV, ErrV> {
    match r {
        Ok(t) => Ok(tok_view(t)),
        Err(e) => Err(err_view(e)),
    }
}

/// The contents of an expression or of the error met instead.
pub open spec fn expr_result_view(r: Result<Expr, InterpretError>) -> Result<ExprV, ErrV> {
    match r {
        Ok(e) => Ok(expr_view(e)),
        Err(e) => Err(err_view(e)),
    }
}

/// The contents of a statement or of the error met instead.
pub open spec fn stmt_result_view(r: Result<Stmt, InterpretError>) -> Result<StmtV, ErrV> {
    match r {
        Ok(s) => Ok(stmt_view(s)),
        Err(e) => Err(err_view(e)),
    }
}

/// The contents of a list of expressions are those of each, in order.
pub proof fn lemma_exprs_view(es: Seq<Expr>)
    ensures
        exprs_view(es).len() == es.len(),
        forall|i: int| 0 <= i < es.len() ==> #[trigger] exprs_view(es)[i] == expr_view(es[i]),
    decreases es.len(),
{
    if es.len() > 0 {
        let tail = es.subrange(1, es.len() as int);
        lemma_exprs_view(tail);
        assert forall|i: int| 0 <= i < es.len() implies #[trigger] exprs_view(es)[i] == expr_view(
            es[i],
        ) by {
            if i > 0 {
                assert(es[i] == tail[i - 1]);
            }
        }
    }
}

/// The contents of a list of statements are those of each, in order.
pub proof fn lemma_stmts_view(ss: Seq<Stmt>)
    ensures
        stmts_view(ss).len() == ss.len(),
        forall|i: int| 0 <= i < ss.len() ==> #[trigger] stmts_view(ss)[i] == stmt_view(ss[i]),
    decreases ss.len(),
{
    if ss.len() > 0 {
        let tail = ss.subrange(1, ss.len() as int);
        lemma_stmts_view(tail);
        assert forall|i: int| 0 <= i < ss.len() implies #[trigger] stmts_view(ss)[i] == stmt_view(
            ss[i],
        ) by {
            if i > 0 {
                assert(ss[i] == tail[i - 1]);
            }
        }
    }
}

/// The contents of the methods of a class are those of each, in order.
pub proof fn lemma_methods_view(ms: Seq<(Token, Vec<Token>, Vec<Stmt>)>)
    ensures
        methods_view(ms).len() == ms.len(),
        forall|i: int|
            0 <= i < ms.len() ==> #[trigger] methods_view(ms)[i] == (
                tok_view(ms[i].0),
                toks_view(ms[i].1@),
                stmts_view(ms[i].2@),
            ),
    decreases ms.len(),
{
    if ms.len() > 0 {
        let tail = ms.subrange(1, ms.len() as int);
        lemma_methods_view(tail);
        assert forall|i: int| 0 <= i < ms.len() implies #[trigger] methods_view(ms)[i] == (
            tok_view(ms[i].0),
            toks_view(ms[i].1@),
            stmts_view(ms[i].2@),
        ) by {
            if i > 0 {
                assert(ms[i] == tail[i - 1]);
            }
        }
    }
}

/// The contents of a function's parts or of the error met instead.
pub open spec fn function_result_view(r: Result<(Token, Vec<Token>, Vec<Stmt>), InterpretError>) -> Result<
    (TokV, Seq<TokV>, Seq<StmtV>),
    ErrV,
> {
    match r {
        Ok(f) => Ok((tok_view(f.0), toks_view(f.1@), stmts_view(f.2@))),
        Err(e) => Err(err_view(e)),
    }
}

/// The contents of an optional statement or of the error met instead.
pub open spec fn opt_stmt_result_view(r: Result<Option<Stmt>, InterpretError>) -> Result<
    Option<StmtV>,
    ErrV,
> {
    match r {
        Ok(Some(s)) => Ok(Some(stmt_view(s))),
        Ok(None) => Ok(None),
        Err(e) => Err(err_view(e)),
    }
}

/// The contents of an optional expression or of the error met instead.
pub open spec fn opt_expr_result_view(r: Result<Option<Expr>, InterpretError>) -> Result<
    Option<ExprV>,
    ErrV,
> {
    match r {
        Ok(Some(x)) => Ok(Some(expr_view(x))),
        Ok(None) => Ok(None),
        Err(e) => Err(err_view(e)),
    }
}

/// The contents of what the parser's `next` gives.
pub open spec fn next_result_view(r: Option<Result<Stmt, InterpretError>>) -> Option<
    Result<StmtV, ErrV>,
> {
    match r {
        Some(x) => Some(stmt_result_view(x)),
        None => None,
    }
}

/// The number of nodes of a statement, not counting expressions nor the
/// methods of classes: a measure that every sub-statement lowers.
pub open spec fn stmtv_size(s: StmtV) -> nat
    decreases s, 0int,
{
    match s {
        StmtV::Block(ss) => 1 + stmtsv_size(ss),
        StmtV::If(_, _, t, e) => 1 + stmtv_size(*t) + match e {
            Some(b) => stmtv_size(*b),
            None => 0,
        },
        StmtV::While(_, _, b) => 1 + stmtv_size(*b),
        StmtV::DeclareFunc(_, _, body) => 1 + stmtsv_size(body),
        _ => 1,
    }
}

/// The number of nodes of a list of statements.
pub open spec fn stmtsv_size(ss: Seq<StmtV>) -> nat
    decreases ss, 1int,
{
    if ss.len() == 0 {
        0
    } else {
        stmtv_size(ss[0]) + stmtsv_size(ss.subrange(1, ss.len() as int))
    }
}

/// Whether a compilation step succeeded, or the contents of its error.
pub open spec fn unit_result(r: Result<(), InterpretError>) -> Result<(), ErrV> {
    match r {
        Ok(_) => Ok(()),
        Err(e) => Err(err_view(e)),
    }
}

} // verus!
