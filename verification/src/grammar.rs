use vstd::prelude::*;

use crate::errors::ScanError;
use crate::parser::kind_name;
use crate::syntax::{ErrV, ExprV, StmtV, TokV};
use crate::token::TokenType;

verus! {

/// The items a parser has still to read: tokens, or the scanner's errors,
/// up to the `Eof` token.
pub type Items = Seq<Result<TokV, ScanError>>;

/// What an expression rule gives: the expression or the error, and the
/// items left after it.
pub type ExprParse = (Result<ExprV, ErrV>, Items);

/// The next item, not taken: `UnexpectedEOF` when none is left.
pub open spec fn peek_spec(rest: Items) -> Result<TokV, ErrV> {
    if rest.len() == 0 {
        Err(ErrV::UnexpectedEOF)
    } else {
        match rest[0] {
            Ok(t) => Ok(t),
            Err(e) => Err(ErrV::Scan(e)),
        }
    }
}

/// The next item, taken.
pub open spec fn advance_spec(rest: Items) -> (Result<TokV, ErrV>, Items) {
    if rest.len() == 0 {
        (Err(ErrV::UnexpectedEOF), rest)
    } else {
        (peek_spec(rest), rest.drop_first())
    }
}

/// The next token, taken if it is of kind `kind`; else the error that names
/// the token found and the kind expected, and nothing is taken.
pub open spec fn consume_spec(rest: Items, kind: TokenType) -> (Result<TokV, ErrV>, Items) {
    match peek_spec(rest) {
        Ok(t) => if t.kind == kind {
            (Ok(t), rest.drop_first())
        } else {
            (Err(ErrV::ExpectedChar(t.line, t.lexeme, kind_name(kind))), rest)
        },
        Err(e) => (Err(e), rest),
    }
}

/// Whether `k` is an operator of binary level `level`: 0 `or`, 1 `and`,
/// 2 equality, 3 comparison, 4 terms, 5 factors.
pub open spec fn level_op(level: nat, k: TokenType) -> bool {
    if level == 0 {
        k == TokenType::Or
    } else if level == 1 {
        k == TokenType::And
    } else if level == 2 {
        k == TokenType::EqualEqual || k == TokenType::BangEqual
    } else if level == 3 {
        k == TokenType::LessEqual || k == TokenType::LessThan || k == TokenType::GreaterEqual || k
            == TokenType::GreaterThan
    } else if level == 4 {
        k == TokenType::Plus || k == TokenType::Minus
    } else {
        k == TokenType::Star || k == TokenType::Slash
    }
}

/// The node that operator `op` of level `level` makes of its operands.
pub open spec fn combine(level: nat, op: TokV, l: ExprV, r: ExprV) -> ExprV {
    if level == 0 {
        ExprV::Or(op, Box::new(l), Box::new(r))
    } else if level == 1 {
        ExprV::And(op, Box::new(l), Box::new(r))
    } else {
        ExprV::Binary(op, Box::new(l), Box::new(r))
    }
}

/// What the parser reads when no item is left to read where one was
/// needed. (It stands where a rule would read nothing, which never
/// happens: every rule that succeeds takes an item.)
pub open spec fn stuck(rest: Items) -> ExprParse {
    (Err(ErrV::UnexpectedEOF), rest)
}

/// expression → assignment
pub open spec fn expression_spec(rest: Items) -> ExprParse
    decreases rest.len(), 40int,
{
    assignment_spec(rest)
}

/// assignment → logic_or ( "=" assignment )?, whose target must be a
/// variable or a property.
pub open spec fn assignment_spec(rest: Items) -> ExprParse
    decreases rest.len(), 39int,
{
    match binary_spec(0, rest) {
        (Ok(target), rest1) => match peek_spec(rest1) {
            Ok(t) => if t.kind == TokenType::Equal {
                let rest2 = rest1.drop_first();
                if rest2.len() < rest.len() {
                    match assignment_spec(rest2) {
                        (Ok(value), rest3) => match target {
                            ExprV::Variable(id) => (Ok(ExprV::Assign(id, Box::new(value))), rest3),
                            ExprV::Get(obj, prop) => (
                                Ok(ExprV::SetField(obj, prop, Box::new(value))),
                                rest3,
                            ),
                            _ => (Err(ErrV::InvalidAssignment(t.line)), rest3),
                        },
                        (Err(e), rest3) => (Err(e), rest3),
                    }
                } else {
                    stuck(rest2)
                }
            } else {
                (Ok(target), rest1)
            },
            Err(e) => (Err(e), rest1),
        },
        (Err(e), rest1) => (Err(e), rest1),
    }
}

/// A binary level: an operand (of the next level, or `unary` after the
/// last), then operators of the level with their right operands, grouped
/// to the left.
pub open spec fn binary_spec(level: nat, rest: Items) -> ExprParse
    decreases rest.len(), 30 - 2 * (if level <= 5 { level } else { 5 }),
{
    match operand_spec(level, rest) {
        (Ok(left), rest1) => if rest1.len() < rest.len() {
            binary_tail_spec(level, left, rest1)
        } else {
            stuck(rest1)
        },
        (Err(e), rest1) => (Err(e), rest1),
    }
}

/// The operand of binary level `level`.
pub open spec fn operand_spec(level: nat, rest: Items) -> ExprParse
    decreases rest.len(), 29 - 2 * (if level <= 5 { level } else { 5 }),
{
    if level < 5 {
        binary_spec(level + 1, rest)
    } else {
        unary_spec(rest)
    }
}

/// After `left`: while the next token is an operator of level `level`, it
/// and the operand after it extend `left`.
pub open spec fn binary_tail_spec(level: nat, left: ExprV, rest: Items) -> ExprParse
    decreases rest.len(), 0int,
{
    match peek_spec(rest) {
        Ok(t) => if level_op(level, t.kind) {
            match operand_spec(level, rest.drop_first()) {
                (Ok(right), rest2) => if rest2.len() < rest.len() {
                    binary_tail_spec(level, combine(level, t, left, right), rest2)
                } else {
                    stuck(rest2)
                },
                (Err(e), rest2) => (Err(e), rest2),
            }
        } else {
            (Ok(left), rest)
        },
        Err(e) => (Err(e), rest),
    }
}

/// unary → ( "!" | "-" ) unary | call
pub open spec fn unary_spec(rest: Items) -> ExprParse
    decreases rest.len(), 5int,
{
    match peek_spec(rest) {
        Ok(t) => if t.kind == TokenType::Bang || t.kind == TokenType::Minus {
            match unary_spec(rest.drop_first()) {
                (Ok(x), rest2) => (Ok(ExprV::Unary(t, Box::new(x))), rest2),
                (Err(e), rest2) => (Err(e), rest2),
            }
        } else {
            call_spec(rest)
        },
        Err(e) => (Err(e), rest),
    }
}

/// call → primary ( "(" arguments? ")" | "." IDENTIFIER )*
pub open spec fn call_spec(rest: Items) -> ExprParse
    decreases rest.len(), 4int,
{
    match primary_spec(rest) {
        (Ok(callee), rest1) => if rest1.len() < rest.len() {
            call_tail_spec(callee, rest1)
        } else {
            stuck(rest1)
        },
        (Err(e), rest1) => (Err(e), rest1),
    }
}

/// After `callee`: each argument list or property access extends it.
pub open spec fn call_tail_spec(callee: ExprV, rest: Items) -> ExprParse
    decreases rest.len(), 0int,
{
    if consume_spec(rest, TokenType::LeftParen).0 is Ok {
        let rest1 = rest.drop_first();
        match args_spec(Seq::empty(), rest1) {
            (Ok(args), rest2) => match consume_spec(rest2, TokenType::RightParen) {
                (Ok(closing), rest3) => if rest3.len() < rest.len() {
                    call_tail_spec(ExprV::Call(Box::new(callee), args, closing), rest3)
                } else {
                    stuck(rest3)
                },
                (Err(e), rest3) => (Err(e), rest3),
            },
            (Err(e), rest2) => (Err(e), rest2),
        }
    } else if consume_spec(rest, TokenType::Dot).0 is Ok {
        match consume_spec(rest.drop_first(), TokenType::Identifier) {
            (Ok(prop), rest2) => if rest2.len() < rest.len() {
                call_tail_spec(ExprV::Get(Box::new(callee), prop), rest2)
            } else {
                stuck(rest2)
            },
            (Err(e), rest2) => (Err(e), rest2),
        }
    } else {
        (Ok(callee), rest)
    }
}

/// The arguments of a call after `args`, up to (not past) the closing
/// parenthesis: expressions separated by commas, at most 255.
pub open spec fn args_spec(args: Seq<ExprV>, rest: Items) -> (Result<Seq<ExprV>, ErrV>, Items)
    decreases rest.len(), 41int,
{
    match peek_spec(rest) {
        Ok(t) => if t.kind == TokenType::RightParen || t.kind == TokenType::Eof {
            (Ok(args), rest)
        } else if args.len() >= 255 {
            (Err(ErrV::TooManyArgs(t.line)), rest)
        } else {
            match expression_spec(rest) {
                (Ok(arg), rest1) => if consume_spec(rest1, TokenType::Comma).0 is Ok {
                    if rest1.len() < rest.len() {
                        args_spec(args.push(arg), rest1.drop_first())
                    } else {
                        (Err(ErrV::UnexpectedEOF), rest1)
                    }
                } else {
                    (Ok(args.push(arg)), rest1)
                },
                (Err(e), rest1) => (Err(e), rest1),
            }
        },
        Err(e) => (Err(e), rest),
    }
}

/// primary → NUMBER | STRING | "true" | "false" | "nil" | "(" expression ")"
///         | IDENTIFIER | "this" | "super" "." IDENTIFIER
pub open spec fn primary_spec(rest: Items) -> ExprParse
    decreases rest.len(), 3int,
{
    match advance_spec(rest) {
        (Ok(t), rest1) => if t.kind == TokenType::Identifier {
            (Ok(ExprV::Variable(t)), rest1)
        } else if t.kind == TokenType::True || t.kind == TokenType::False || t.kind
            == TokenType::Nil || t.kind == TokenType::String || t.kind == TokenType::Number {
            (Ok(ExprV::Literal(t)), rest1)
        } else if t.kind == TokenType::LeftParen {
            match expression_spec(rest1) {
                (Ok(x), rest2) => match consume_spec(rest2, TokenType::RightParen) {
                    (Ok(_), rest3) => (Ok(ExprV::Grouping(Box::new(x))), rest3),
                    (Err(e), rest3) => (Err(e), rest3),
                },
                (Err(e), rest2) => (Err(e), rest2),
            }
        } else if t.kind == TokenType::This {
            (Ok(ExprV::This(t)), rest1)
        } else if t.kind == TokenType::Super {
            match consume_spec(rest1, TokenType::Dot) {
                (Ok(_), rest2) => match consume_spec(rest2, TokenType::Identifier) {
                    (Ok(prop), rest3) => (Ok(ExprV::Super(t, prop)), rest3),
                    (Err(e), rest3) => (Err(e), rest3),
                },
                (Err(e), rest2) => (Err(e), rest2),
            }
        } else {
            (Err(ErrV::ExpectedExpression(t.line, t.lexeme)), rest1)
        },
        (Err(e), rest1) => (Err(e), rest1),
    }
}

/// What a statement rule gives: the statement or the error, and the items
/// left after it.
pub type StmtParse = (Result<StmtV, ErrV>, Items);

/// The parts of a function: name, parameters and body.
pub type FunctionV = (TokV, Seq<TokV>, Seq<StmtV>);

/// declaration → varDecl | funDecl | classDecl | statement
pub open spec fn declaration_spec(rest: Items) -> StmtParse
    decreases rest.len(), 5int,
{
    match peek_spec(rest) {
        Ok(t) => if t.kind == TokenType::Var {
            declare_var_spec(rest.drop_first())
        } else if t.kind == TokenType::Fun {
            declare_func_spec(rest.drop_first())
        } else if t.kind == TokenType::Class {
            declare_class_spec(rest.drop_first())
        } else {
            statement_spec(rest)
        },
        Err(e) => (Err(e), rest),
    }
}

/// varDecl → IDENTIFIER ( "=" expression )? ";"
pub open spec fn declare_var_spec(rest: Items) -> StmtParse {
    match consume_spec(rest, TokenType::Identifier) {
        (Ok(id), rest1) => if consume_spec(rest1, TokenType::Equal).0 is Ok {
            match expression_spec(rest1.drop_first()) {
                (Ok(init), rest2) => match consume_spec(rest2, TokenType::Semicolon) {
                    (Ok(_), rest3) => (Ok(StmtV::DeclareVar(id, Some(init))), rest3),
                    (Err(e), rest3) => (Err(e), rest3),
                },
                (Err(e), rest2) => (Err(e), rest2),
            }
        } else {
            match consume_spec(rest1, TokenType::Semicolon) {
                (Ok(_), rest2) => (Ok(StmtV::DeclareVar(id, None)), rest2),
                (Err(e), rest2) => (Err(e), rest2),
            }
        },
        (Err(e), rest1) => (Err(e), rest1),
    }
}

/// The parameters of a function after `params`, up to (not past) the
/// closing parenthesis: identifiers separated by commas, at most 255.
pub open spec fn params_spec(params: Seq<TokV>, rest: Items) -> (Result<Seq<TokV>, ErrV>, Items)
    decreases rest.len(),
{
    match peek_spec(rest) {
        Ok(t) => if t.kind == TokenType::RightParen || t.kind == TokenType::Eof {
            (Ok(params), rest)
        } else if params.len() >= 255 {
            (Err(ErrV::TooManyParams(t.line)), rest)
        } else {
            match consume_spec(rest, TokenType::Identifier) {
                (Ok(p), rest1) => if consume_spec(rest1, TokenType::Comma).0 is Ok {
                    params_spec(params.push(p), rest.drop_first().drop_first())
                } else {
                    (Ok(params.push(p)), rest1)
                },
                (Err(e), rest1) => (Err(e), rest1),
            }
        },
        Err(e) => (Err(e), rest),
    }
}

/// The name, parameters and body of a function: IDENTIFIER "(" params? ")"
/// block.
pub open spec fn function_spec(rest: Items) -> (Result<FunctionV, ErrV>, Items)
    decreases rest.len(), 8int,
{
    match consume_spec(rest, TokenType::Identifier) {
        (Ok(id), rest1) => match consume_spec(rest1, TokenType::LeftParen) {
            (Ok(_), rest2) => match params_spec(Seq::empty(), rest2) {
                (Ok(params), rest3) => match consume_spec(rest3, TokenType::RightParen) {
                    (Ok(closing), rest4) => if rest4.len() < rest.len() {
                        match statement_spec(rest4) {
                            (Ok(StmtV::Block(body)), rest5) => (Ok((id, params, body)), rest5),
                            (Ok(_), rest5) => (
                                Err(ErrV::ExpectedChar(closing.line, ")"@, "function body"@)),
                                rest5,
                            ),
                            (Err(e), rest5) => (Err(e), rest5),
                        }
                    } else {
                        (Err(ErrV::UnexpectedEOF), rest4)
                    },
                    (Err(e), rest4) => (Err(e), rest4),
                },
                (Err(e), rest3) => (Err(e), rest3),
            },
            (Err(e), rest2) => (Err(e), rest2),
        },
        (Err(e), rest1) => (Err(e), rest1),
    }
}

/// funDecl → "fun" function
pub open spec fn declare_func_spec(rest: Items) -> StmtParse
    decreases rest.len(), 9int,
{
    match function_spec(rest) {
        (Ok(f), rest1) => (Ok(StmtV::DeclareFunc(f.0, f.1, f.2)), rest1),
        (Err(e), rest1) => (Err(e), rest1),
    }
}

/// The methods of a class after `methods`, up to (not past) the closing
/// brace.
pub open spec fn methods_spec(methods: Seq<FunctionV>, rest: Items) -> (Result<Seq<FunctionV>, ErrV>, Items)
    decreases rest.len(), 9int,
{
    match peek_spec(rest) {
        Ok(t) => if t.kind == TokenType::RightBrace || t.kind == TokenType::Eof {
            (Ok(methods), rest)
        } else {
            match function_spec(rest) {
                (Ok(m), rest1) => if rest1.len() < rest.len() {
                    methods_spec(methods.push(m), rest1)
                } else {
                    (Err(ErrV::UnexpectedEOF), rest1)
                },
                (Err(e), rest1) => (Err(e), rest1),
            }
        },
        Err(e) => (Err(e), rest),
    }
}

/// classDecl → "class" IDENTIFIER ( "<" IDENTIFIER )? "{" function* "}"
pub open spec fn declare_class_spec(rest: Items) -> StmtParse
    decreases rest.len(), 10int,
{
    match consume_spec(rest, TokenType::Identifier) {
        (Ok(id), rest1) => {
            let (sup, rest2): (Result<Option<TokV>, ErrV>, Items) = if consume_spec(
                rest1,
                TokenType::LessThan,
            ).0 is Ok {
                match consume_spec(rest1.drop_first(), TokenType::Identifier) {
                    (Ok(p), r) => (Ok(Some(p)), r),
                    (Err(e), r) => (Err(e), r),
                }
            } else {
                (Ok(None), rest1)
            };
            match sup {
                Ok(superclass) => match consume_spec(rest2, TokenType::LeftBrace) {
                    (Ok(_), rest3) => if rest3.len() < rest.len() {
                        match methods_spec(Seq::empty(), rest3) {
                            (Ok(methods), rest4) => match consume_spec(rest4, TokenType::RightBrace) {
                                (Ok(_), rest5) => (
                                    Ok(StmtV::DeclareClass(id, superclass, methods)),
                                    rest5,
                                ),
                                (Err(e), rest5) => (Err(e), rest5),
                            },
                            (Err(e), rest4) => (Err(e), rest4),
                        }
                    } else {
                        (Err(ErrV::UnexpectedEOF), rest3)
                    },
                    (Err(e), rest3) => (Err(e), rest3),
                },
                Err(e) => (Err(e), rest2),
            }
        },
        (Err(e), rest1) => (Err(e), rest1),
    }
}

/// statement → printStmt | block | ifStmt | whileStmt | forStmt
///           | returnStmt | exprStmt
pub open spec fn statement_spec(rest: Items) -> StmtParse
    decreases rest.len(), 4int,
{
    match peek_spec(rest) {
        Ok(t) => if t.kind == TokenType::Print {
            print_stmt_spec(t, rest.drop_first())
        } else if t.kind == TokenType::LeftBrace {
            block_spec(rest.drop_first())
        } else if t.kind == TokenType::If {
            if_stmt_spec(rest.drop_first())
        } else if t.kind == TokenType::While {
            while_stmt_spec(rest.drop_first())
        } else if t.kind == TokenType::For {
            for_stmt_spec(rest.drop_first())
        } else if t.kind == TokenType::Return {
            return_stmt_spec(t, rest.drop_first())
        } else {
            expression_stmt_spec(rest)
        },
        Err(e) => (Err(e), rest),
    }
}

/// printStmt → "print" expression ";"
pub open spec fn print_stmt_spec(token: TokV, rest: Items) -> StmtParse {
    match expression_spec(rest) {
        (Ok(x), rest1) => match consume_spec(rest1, TokenType::Semicolon) {
            (Ok(_), rest2) => (Ok(StmtV::Print(token, x)), rest2),
            (Err(e), rest2) => (Err(e), rest2),
        },
        (Err(e), rest1) => (Err(e), rest1),
    }
}

/// exprStmt → expression ";"
pub open spec fn expression_stmt_spec(rest: Items) -> StmtParse {
    match expression_spec(rest) {
        (Ok(x), rest1) => match consume_spec(rest1, TokenType::Semicolon) {
            (Ok(token), rest2) => (Ok(StmtV::Expr(token, x)), rest2),
            (Err(e), rest2) => (Err(e), rest2),
        },
        (Err(e), rest1) => (Err(e), rest1),
    }
}

/// returnStmt → "return" expression? ";", a bare `return` giving `nil`.
pub open spec fn return_stmt_spec(token: TokV, rest: Items) -> StmtParse {
    if consume_spec(rest, TokenType::Semicolon).0 is Ok {
        (
            Ok(
                StmtV::Return(
                    token,
                    ExprV::Literal(TokV { kind: TokenType::Nil, lexeme: "nil"@, line: token.line }),
                ),
            ),
            rest.drop_first(),
        )
    } else {
        match expression_spec(rest) {
            (Ok(x), rest1) => match consume_spec(rest1, TokenType::Semicolon) {
                (Ok(_), rest2) => (Ok(StmtV::Return(token, x)), rest2),
                (Err(e), rest2) => (Err(e), rest2),
            },
            (Err(e), rest1) => (Err(e), rest1),
        }
    }
}

/// block → "{" declaration* "}", after the opening brace.
pub open spec fn block_spec(rest: Items) -> StmtParse
    decreases rest.len(), 7int,
{
    match block_items_spec(Seq::empty(), rest) {
        (Ok(stmts), rest1) => match consume_spec(rest1, TokenType::RightBrace) {
            (Ok(_), rest2) => (Ok(StmtV::Block(stmts)), rest2),
            (Err(e), rest2) => (Err(e), rest2),
        },
        (Err(e), rest1) => (Err(e), rest1),
    }
}

/// The declarations of a block after `stmts`, up to (not past) the closing
/// brace.
pub open spec fn block_items_spec(stmts: Seq<StmtV>, rest: Items) -> (Result<Seq<StmtV>, ErrV>, Items)
    decreases rest.len(), 6int,
{
    match peek_spec(rest) {
        Ok(t) => if t.kind == TokenType::RightBrace || t.kind == TokenType::Eof {
            (Ok(stmts), rest)
        } else {
            match declaration_spec(rest) {
                (Ok(st), rest1) => if rest1.len() < rest.len() {
                    block_items_spec(stmts.push(st), rest1)
                } else {
                    (Err(ErrV::UnexpectedEOF), rest1)
                },
                (Err(e), rest1) => (Err(e), rest1),
            }
        },
        Err(e) => (Err(e), rest),
    }
}

/// ifStmt → "if" "(" expression ")" statement ( "else" statement )?
pub open spec fn if_stmt_spec(rest: Items) -> StmtParse
    decreases rest.len(), 3int,
{
    match consume_spec(rest, TokenType::LeftParen) {
        (Ok(token), rest1) => match expression_spec(rest1) {
            (Ok(cond), rest2) => match consume_spec(rest2, TokenType::RightParen) {
                (Ok(_), rest3) => if rest3.len() < rest.len() {
                    match statement_spec(rest3) {
                        (Ok(then_branch), rest4) => if consume_spec(rest4, TokenType::Else).0 is Ok {
                            if rest4.len() < rest.len() {
                                match statement_spec(rest4.drop_first()) {
                                    (Ok(else_branch), rest5) => (
                                        Ok(
                                            StmtV::If(
                                                token,
                                                cond,
                                                Box::new(then_branch),
                                                Some(Box::new(else_branch)),
                                            ),
                                        ),
                                        rest5,
                                    ),
                                    (Err(e), rest5) => (Err(e), rest5),
                                }
                            } else {
                                (Err(ErrV::UnexpectedEOF), rest4)
                            }
                        } else {
                            (Ok(StmtV::If(token, cond, Box::new(then_branch), None)), rest4)
                        },
                        (Err(e), rest4) => (Err(e), rest4),
                    }
                } else {
                    (Err(ErrV::UnexpectedEOF), rest3)
                },
                (Err(e), rest3) => (Err(e), rest3),
            },
            (Err(e), rest2) => (Err(e), rest2),
        },
        (Err(e), rest1) => (Err(e), rest1),
    }
}

/// whileStmt → "while" "(" expression ")" statement
pub open spec fn while_stmt_spec(rest: Items) -> StmtParse
    decreases rest.len(), 3int,
{
    match consume_spec(rest, TokenType::LeftParen) {
        (Ok(token), rest1) => match expression_spec(rest1) {
            (Ok(cond), rest2) => match consume_spec(rest2, TokenType::RightParen) {
                (Ok(_), rest3) => if rest3.len() < rest.len() {
                    match statement_spec(rest3) {
                        (Ok(body), rest4) => (Ok(StmtV::While(token, cond, Box::new(body))), rest4),
                        (Err(e), rest4) => (Err(e), rest4),
                    }
                } else {
                    (Err(ErrV::UnexpectedEOF), rest3)
                },
                (Err(e), rest3) => (Err(e), rest3),
            },
            (Err(e), rest2) => (Err(e), rest2),
        },
        (Err(e), rest1) => (Err(e), rest1),
    }
}

/// The `while` loop a `for` statement stands for: the increment after the
/// body, `true` for a missing condition, and the initializer in a block
/// before the loop.
pub open spec fn for_loop(
    left_paren: TokV,
    init: Option<StmtV>,
    cond: Option<ExprV>,
    inc: Option<ExprV>,
    right_paren: TokV,
    body: StmtV,
) -> StmtV {
    let body1 = match inc {
        Some(x) => StmtV::Block(seq![body, StmtV::Expr(right_paren, x)]),
        None => body,
    };
    let cond1 = match cond {
        Some(c) => c,
        None => ExprV::Literal(TokV { kind: TokenType::True, lexeme: "true"@, line: left_paren.line }),
    };
    let w = StmtV::While(left_paren, cond1, Box::new(body1));
    match init {
        Some(i) => StmtV::Block(seq![i, w]),
        None => w,
    }
}

/// The initializer of a `for` statement: nothing after a `;`, a variable
/// declaration, or an expression statement.
pub open spec fn for_init_spec(rest: Items) -> (Result<Option<StmtV>, ErrV>, Items) {
    match peek_spec(rest) {
        Ok(k) => if k.kind == TokenType::Semicolon {
            (Ok(None), rest.drop_first())
        } else if k.kind == TokenType::Var {
            match declare_var_spec(rest.drop_first()) {
                (Ok(st), r) => (Ok(Some(st)), r),
                (Err(e), r) => (Err(e), r),
            }
        } else {
            match expression_stmt_spec(rest) {
                (Ok(st), r) => (Ok(Some(st)), r),
                (Err(e), r) => (Err(e), r),
            }
        },
        Err(e) => (Err(e), rest),
    }
}

/// The condition or increment of a `for` statement: nothing if the next
/// token is `stop` (which stays), else an expression.
pub open spec fn for_clause_spec(rest: Items, stop: TokenType) -> (Result<Option<ExprV>, ErrV>, Items) {
    match peek_spec(rest) {
        Ok(k) => if k.kind == stop {
            (Ok(None), rest)
        } else {
            match expression_spec(rest) {
                (Ok(x), r) => (Ok(Some(x)), r),
                (Err(e), r) => (Err(e), r),
            }
        },
        Err(e) => (Err(e), rest),
    }
}

/// forStmt → "for" "(" ( varDecl | exprStmt | ";" ) expression? ";"
/// expression? ")" statement
pub open spec fn for_stmt_spec(rest: Items) -> StmtParse
    decreases rest.len(), 3int,
{
    match consume_spec(rest, TokenType::LeftParen) {
        (Ok(left_paren), rest1) => match for_init_spec(rest1) {
            (Ok(init), rest2) => match for_clause_spec(rest2, TokenType::Semicolon) {
                (Ok(cond), rest3) => match consume_spec(rest3, TokenType::Semicolon) {
                    (Ok(_), rest4) => match for_clause_spec(rest4, TokenType::RightParen) {
                        (Ok(inc), rest5) => match consume_spec(rest5, TokenType::RightParen) {
                            (Ok(right_paren), rest6) => if rest6.len() < rest.len() {
                                match statement_spec(rest6) {
                                    (Ok(body), rest7) => (
                                        Ok(for_loop(left_paren, init, cond, inc, right_paren, body)),
                                        rest7,
                                    ),
                                    (Err(e), rest7) => (Err(e), rest7),
                                }
                            } else {
                                (Err(ErrV::UnexpectedEOF), rest6)
                            },
                            (Err(e), rest6) => (Err(e), rest6),
                        },
                        (Err(e), rest5) => (Err(e), rest5),
                    },
                    (Err(e), rest4) => (Err(e), rest4),
                },
                (Err(e), rest3) => (Err(e), rest3),
            },
            (Err(e), rest2) => (Err(e), rest2),
        },
        (Err(e), rest1) => (Err(e), rest1),
    }
}

/// How tightly a Lox binary operator binds: `or` loosest, then `and`,
/// equality, comparison, terms, factors; -1 for a token that is no binary
/// operator.
pub open spec fn binding(k: TokenType) -> int {
    if k == TokenType::Or {
        0
    } else if k == TokenType::And {
        1
    } else if k == TokenType::EqualEqual || k == TokenType::BangEqual {
        2
    } else if k == TokenType::LessThan || k == TokenType::LessEqual || k == TokenType::GreaterThan
        || k == TokenType::GreaterEqual {
        3
    } else if k == TokenType::Plus || k == TokenType::Minus {
        4
    } else if k == TokenType::Star || k == TokenType::Slash {
        5
    } else {
        -1
    }
}

/// Whether the operators of `e` are grouped as their binding asks, where
/// `e` stands as an operand that binds at least as tightly as `level`: an
/// `or` node holds an `or` token, an `and` node an `and` token, any other
/// binary node an operator that binds at least as tightly as `and`'s
/// operands; each binds at least as tightly as `level`, its left operand
/// at least as tightly as itself (operators group to the left) and its
/// right operand more tightly. Other nodes are operands of their own.
pub open spec fn grouped(e: ExprV, level: int) -> bool
    decreases e,
{
    match e {
        ExprV::Or(op, l, r) => op.kind == TokenType::Or && level <= 0 && grouped(*l, 0) && grouped(
            *r,
            1,
        ),
        ExprV::And(op, l, r) => op.kind == TokenType::And && level <= 1 && grouped(*l, 1)
            && grouped(*r, 2),
        ExprV::Binary(op, l, r) => 2 <= binding(op.kind) && level <= binding(op.kind) && grouped(
            *l,
            binding(op.kind),
        ) && grouped(*r, binding(op.kind) + 1),
        _ => true,
    }
}

/// Whether `e` is a node of a binary operator.
pub open spec fn is_operator_node(e: ExprV) -> bool {
    e is Or || e is And || e is Binary
}

/// Operator precedence: an expression the parser reads at binary level
/// `level` (0 for `or`, up to 5 for factors) is grouped as the operators'
/// binding asks, with nothing looser than that level at its top. So
/// `a or b and c` is read as `a or (b and c)`, and `a - b - c` as
/// `(a - b) - c`.
pub proof fn lemma_precedence(level: nat, rest: Items)
    requires
        level <= 5,
    ensures
        binary_spec(level, rest) matches (Ok(e), _) ==> grouped(e, level as int),
    decreases rest.len(), 6 - level,
{
    if level < 5 {
        lemma_precedence(level + 1, rest);
    } else {
        lemma_unary_operand(rest);
    }
    match operand_spec(level, rest) {
        (Ok(left), rest1) => if rest1.len() < rest.len() {
            lemma_tail_grouped(level, left, rest1);
        },
        _ => {},
    }
}

/// An expression the parser reads as a whole is grouped as the operators'
/// binding asks.
pub proof fn lemma_expression_grouped(rest: Items)
    ensures
        expression_spec(rest) matches (Ok(e), _) ==> grouped(e, 0),
{
    lemma_precedence(0, rest);
}

/// Extending `left` at level `level` keeps the grouping.
proof fn lemma_tail_grouped(level: nat, left: ExprV, rest: Items)
    requires
        level <= 5,
        grouped(left, level as int),
    ensures
        binary_tail_spec(level, left, rest) matches (Ok(e), _) ==> grouped(e, level as int),
    decreases rest.len(), 0int,
{
    match peek_spec(rest) {
        Ok(t) => if level_op(level, t.kind) {
            let rest1 = rest.drop_first();
            if level < 5 {
                lemma_precedence(level + 1, rest1);
            } else {
                lemma_unary_operand(rest1);
            }
            match operand_spec(level, rest1) {
                (Ok(right), rest2) => if rest2.len() < rest.len() {
                    let combined = combine(level, t, left, right);
                    lemma_grouped_looser(right, level as int + 1);
                    assert(grouped(combined, level as int));
                    lemma_tail_grouped(level, combined, rest2);
                },
                _ => {},
            }
        },
        _ => {},
    }
}

/// A node that is no operator node is grouped at any level.
proof fn lemma_grouped_looser(e: ExprV, level: int)
    requires
        !is_operator_node(e) || grouped(e, level),
    ensures
        grouped(e, level),
{
}

/// The operand of factors (a unary expression, call or primary) is no
/// operator node, and so is grouped at any level.
proof fn lemma_unary_operand(rest: Items)
    ensures
        unary_spec(rest) matches (Ok(e), _) ==> !is_operator_node(e) && grouped(e, 6),
    decreases rest.len(),
{
    match peek_spec(rest) {
        Ok(t) => if !(t.kind == TokenType::Bang || t.kind == TokenType::Minus) {
            assert(unary_spec(rest) == call_spec(rest));
            match primary_spec(rest) {
                (Ok(callee), rest1) => {
                    assert(!is_operator_node(callee));
                    if rest1.len() < rest.len() {
                        lemma_call_tail_operand(callee, rest1);
                    }
                },
                _ => {},
            }
        },
        _ => {},
    }
}

/// Calls and property accesses of something that is no operator node are
/// no operator nodes.
proof fn lemma_call_tail_operand(callee: ExprV, rest: Items)
    requires
        !is_operator_node(callee),
    ensures
        call_tail_spec(callee, rest) matches (Ok(e), _) ==> !is_operator_node(e),
    decreases rest.len(),
{
    if consume_spec(rest, TokenType::LeftParen).0 is Ok {
        let rest1 = rest.drop_first();
        match args_spec(Seq::empty(), rest1) {
            (Ok(args), rest2) => match consume_spec(rest2, TokenType::RightParen) {
                (Ok(closing), rest3) => if rest3.len() < rest.len() {
                    lemma_call_tail_operand(ExprV::Call(Box::new(callee), args, closing), rest3);
                },
                _ => {},
            },
            _ => {},
        }
    } else if consume_spec(rest, TokenType::Dot).0 is Ok {
        match consume_spec(rest.drop_first(), TokenType::Identifier) {
            (Ok(prop), rest2) => if rest2.len() < rest.len() {
                lemma_call_tail_operand(ExprV::Get(Box::new(callee), prop), rest2);
            },
            _ => {},
        }
    }
}

/// Whether a token of kind `k` starts a declaration or statement that the
/// parser resumes at after a syntax error.
pub open spec fn sync_start(k: TokenType) -> bool {
    k == TokenType::Class || k == TokenType::Fun || k == TokenType::Var || k == TokenType::If || k
        == TokenType::While || k == TokenType::Print || k == TokenType::Return
}

/// After a syntax error: the items left once the parser has skipped to
/// the end of the statement or to the start of the next one. It takes items
/// until it has taken a `;` or the next token starts a declaration or
/// statement (that token is kept; a scanner error counts as neither).
pub open spec fn synchronize_spec(rest: Items) -> Items
    decreases rest.len(),
{
    if rest.len() == 0 {
        rest
    } else if rest[0] matches Ok(t) && sync_start(t.kind) {
        rest
    } else if rest[0] matches Ok(t) && t.kind == TokenType::Semicolon {
        rest.drop_first()
    } else {
        synchronize_spec(rest.drop_first())
    }
}

/// What one call of the parser's `next` gives: nothing at the end (no item
/// left, or the `Eof` token next); else the next declaration, or the error
/// met in it after which the parser skips ahead.
pub open spec fn next_spec(rest: Items) -> (Option<Result<StmtV, ErrV>>, Items) {
    if rest.len() == 0 || (rest[0] matches Ok(t) && t.kind == TokenType::Eof) {
        (None, rest)
    } else {
        match declaration_spec(rest) {
            (Ok(st), rest1) => (Some(Ok(st)), rest1),
            (Err(e), rest1) => (Some(Err(e)), synchronize_spec(rest1)),
        }
    }
}

/// What the parser's `next` gives, call after call, until it gives
/// nothing: each declaration or the error met in it.
pub open spec fn parsed_program(rest: Items) -> Seq<Result<StmtV, ErrV>>
    decreases rest.len(),
{
    match next_spec(rest) {
        (Some(r), rest1) => if rest1.len() < rest.len() {
            seq![r] + parsed_program(rest1)
        } else {
            seq![r]
        },
        (None, _) => Seq::empty(),
    }
}

} // verus!
