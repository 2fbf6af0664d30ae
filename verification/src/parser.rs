use vstd::prelude::*;

use crate::ast::{
    is_binary_kind, is_literal_kind, is_unary_kind, wf_expr, wf_function, wf_stmt, Expr, Stmt,
};
use crate::errors::{InterpretError, SyntaxError};
use crate::grammar::{
    block_items_spec, block_spec, declaration_spec, declare_class_spec, declare_func_spec,
    declare_var_spec, expression_stmt_spec, for_stmt_spec, function_spec, if_stmt_spec,
    methods_spec, next_spec, params_spec, print_stmt_spec, return_stmt_spec, statement_spec,
    sync_start, synchronize_spec, while_stmt_spec, for_loop, for_init_spec, for_clause_spec,
    advance_spec, args_spec, assignment_spec, binary_spec, binary_tail_spec, call_spec,
    call_tail_spec, consume_spec, operand_spec, expression_spec, peek_spec, primary_spec, unary_spec, Items,
};
use crate::scanner::Scanner;
use crate::syntax::{
    err_view, expr_result_view, expr_view, exprs_view, function_result_view, item_view,
    methods_view, stmt_result_view, stmt_view, stmts_view, tok_result, tok_view, toks_view,
};
use crate::token::{Token, TokenType};

verus! {

/// Whether a token of kind `k` starts a declaration or statement that the
/// parser resumes at after a syntax error.
fn sync_start_kind(k: TokenType) -> (b: bool)
    ensures
        b == sync_start(k),
{
    k == TokenType::Class || k == TokenType::Fun || k == TokenType::Var || k == TokenType::If || k
        == TokenType::While || k == TokenType::Print || k == TokenType::Return
}

/// The name of a token kind, as it appears in syntax errors.
pub open spec fn kind_name(t: TokenType) -> Seq<char> {
    match t {
        TokenType::LeftParen => "LeftParen"@,
        TokenType::RightParen => "RightParen"@,
        TokenType::LeftBrace => "LeftBrace"@,
        TokenType::RightBrace => "RightBrace"@,
        TokenType::Star => "Star"@,
        TokenType::Slash => "Slash"@,
        TokenType::Semicolon => "Semicolon"@,
        TokenType::Plus => "Plus"@,
        TokenType::Minus => "Minus"@,
        TokenType::Dot => "Dot"@,
        TokenType::Comma => "Comma"@,
        TokenType::Equal => "Equal"@,
        TokenType::EqualEqual => "EqualEqual"@,
        TokenType::BangEqual => "BangEqual"@,
        TokenType::Bang => "Bang"@,
        TokenType::LessThan => "LessThan"@,
        TokenType::GreaterThan => "GreaterThan"@,
        TokenType::LessEqual => "LessEqual"@,
        TokenType::GreaterEqual => "GreaterEqual"@,
        TokenType::String => "String"@,
        TokenType::Number => "Number"@,
        TokenType::Identifier => "Identifier"@,
        TokenType::And => "And"@,
        TokenType::Class => "Class"@,
        TokenType::Else => "Else"@,
        TokenType::False => "False"@,
        TokenType::For => "For"@,
        TokenType::Fun => "Fun"@,
        TokenType::If => "If"@,
        TokenType::Nil => "Nil"@,
        TokenType::Or => "Or"@,
        TokenType::Print => "Print"@,
        TokenType::Return => "Return"@,
        TokenType::Super => "Super"@,
        TokenType::This => "This"@,
        TokenType::True => "True"@,
        TokenType::Var => "Var"@,
        TokenType::While => "While"@,
        TokenType::Eof => "Eof"@,
    }
}

/// The name of a token kind, as it appears in syntax errors.
pub fn token_kind_name(t: TokenType) -> (s: String)
    ensures
        s@ == kind_name(t),
{
    match t {
        TokenType::LeftParen => String::from_str("LeftParen"),
        TokenType::RightParen => String::from_str("RightParen"),
        TokenType::LeftBrace => String::from_str("LeftBrace"),
        TokenType::RightBrace => String::from_str("RightBrace"),
        TokenType::Star => String::from_str("Star"),
        TokenType::Slash => String::from_str("Slash"),
        TokenType::Semicolon => String::from_str("Semicolon"),
        TokenType::Plus => String::from_str("Plus"),
        TokenType::Minus => String::from_str("Minus"),
        TokenType::Dot => String::from_str("Dot"),
        TokenType::Comma => String::from_str("Comma"),
        TokenType::Equal => String::from_str("Equal"),
        TokenType::EqualEqual => String::from_str("EqualEqual"),
        TokenType::BangEqual => String::from_str("BangEqual"),
        TokenType::Bang => String::from_str("Bang"),
        TokenType::LessThan => String::from_str("LessThan"),
        TokenType::GreaterThan => String::from_str("GreaterThan"),
        TokenType::LessEqual => String::from_str("LessEqual"),
        TokenType::GreaterEqual => String::from_str("GreaterEqual"),
        TokenType::String => String::from_str("String"),
        TokenType::Number => String::from_str("Number"),
        TokenType::Identifier => String::from_str("Identifier"),
        TokenType::And => String::from_str("And"),
        TokenType::Class => String::from_str("Class"),
        TokenType::Else => String::from_str("Else"),
        TokenType::False => String::from_str("False"),
        TokenType::For => String::from_str("For"),
        TokenType::Fun => String::from_str("Fun"),
        TokenType::If => String::from_str("If"),
        TokenType::Nil => String::from_str("Nil"),
        TokenType::Or => String::from_str("Or"),
        TokenType::Print => String::from_str("Print"),
        TokenType::Return => String::from_str("Return"),
        TokenType::Super => String::from_str("Super"),
        TokenType::This => String::from_str("This"),
        TokenType::True => String::from_str("True"),
        TokenType::Var => String::from_str("Var"),
        TokenType::While => String::from_str("While"),
        TokenType::Eof => String::from_str("Eof"),
    }
}

/// Reads statements from the tokens of a scanner, one at a time.
pub struct Parser {
    /// The source of tokens.
    tokens: Scanner,
    /// The token read ahead, if one was: `Some(None)` once the scanner is
    /// exhausted.
    peeked: Option<Option<Result<Token, InterpretError>>>,
}

/// Whether `e` is an error of the scanner or of the parser.
pub open spec fn is_front_end_error(e: InterpretError) -> bool {
    e is Scan || e is Syntax
}

/// Whether `e` is the error for a token stream that ended early.
pub open spec fn is_eof_error(e: InterpretError) -> bool {
    e == InterpretError::Syntax(SyntaxError::UnexpectedEOF)
}

impl Parser {
    /// The scanner's invariant holds.
    pub closed spec fn wf(&self) -> bool {
        &&& self.tokens.wf()
        &&& self.peeked matches Some(Some(Err(e))) ==> e is Scan
        &&& self.peeked == Some(None::<Result<Token, InterpretError>>) ==> self.tokens.stream().len()
            == 0
    }

    /// The items still to be read: the one read ahead, if any, then those
    /// the scanner has still to hand out.
    pub closed spec fn items(&self) -> Items {
        match self.peeked {
            Some(Some(item)) => seq![item_view(item)] + self.tokens.stream(),
            _ => self.tokens.stream(),
        }
    }

    /// A measure that every token taken from the parser lowers.
    pub closed spec fn measure(&self) -> nat {
        self.tokens.measure() + match self.peeked {
            Some(Some(_)) => 1nat,
            _ => 0nat,
        }
    }

    /// Whether, since `before`, the parser either took no item or took some
    /// and lowered its measure.
    spec fn took_or_kept(&self, before: Parser) -> bool {
        ||| self.items() == before.items()
        ||| self.items().len() < before.items().len() && self.measure() < before.measure()
    }

    /// Whether a token or a scanner error was read ahead and not yet taken.
    pub closed spec fn pending(&self) -> bool {
        self.peeked matches Some(Some(_))
    }

    /// The token read ahead, when it is a token.
    pub closed spec fn peeked_token(&self) -> Option<Token> {
        match self.peeked {
            Some(Some(Ok(t))) => Some(t),
            _ => None,
        }
    }

    /// A parser that reads the tokens of `tokens`.
    pub fn new(tokens: Scanner) -> (p: Parser)
        requires
            tokens.wf(),
        ensures
            p.wf(),
            p.measure() == tokens.measure(),
            p.items() == tokens.stream(),
    {
        Parser { tokens, peeked: None }
    }

    /// Reads one token ahead unless one was.
    fn fill(&mut self)
        requires
            old(self).wf(),
        ensures
            final(self).wf(),
            final(self).peeked is Some,
            final(self).measure() <= old(self).measure(),
            old(self).peeked is Some ==> *final(self) == *old(self),
            final(self).items() == old(self).items(),
    {
        if self.peeked.is_none() {
            let item = self.tokens.next();
            self.peeked = Some(item);
            proof {
                if item is None {
                    assert(self.tokens.stream() =~= Seq::<Result<crate::syntax::TokV, crate::errors::ScanError>>::empty());
                } else {
                    assert(self.items() =~= old(self).items());
                }
            }
        }
    }

    /// The kind and line of the next token, without taking it; the
    /// scanner's error, or `UnexpectedEOF` when no token is left.
    fn peek(&mut self) -> (res: Result<(TokenType, u32), InterpretError>)
        requires
            old(self).wf(),
        ensures
            final(self).wf(),
            final(self).peeked is Some,
            final(self).measure() <= old(self).measure(),
            res matches Ok((k, l)) ==> final(self).peeked_token() matches Some(t) && t.token == k
                && t.line == l,
            old(self).peeked_token() matches Some(t) ==> res == Ok::<(TokenType, u32), InterpretError>((t.token, t.line)),
            res is Err ==> final(self).peeked_token() is None,
            res matches Err(e) ==> is_front_end_error(e),
            old(self).pending() ==> final(self).pending(),
            final(self).peeked == Some(None::<Result<Token, InterpretError>>) ==> res
                == Err::<(TokenType, u32), InterpretError>(
                InterpretError::Syntax(SyntaxError::UnexpectedEOF),
            ),
            final(self).items() == old(self).items(),
            res matches Ok((k, l)) ==> peek_spec(old(self).items()) matches Ok(t) && t.kind == k
                && t.line == l,
            res matches Err(e) ==> peek_spec(old(self).items()) == Err::<crate::syntax::TokV, crate::syntax::ErrV>(
                err_view(e),
            ),
            peek_spec(old(self).items()) is Ok ==> res is Ok,
    {
        self.fill();
        match &self.peeked {
            Some(Some(Ok(t))) => Ok((t.token, t.line)),
            Some(Some(Err(e))) => Err(e.duplicate()),
            _ => Err(InterpretError::Syntax(SyntaxError::UnexpectedEOF)),
        }
    }

    /// Takes the next token; `UnexpectedEOF` when no token is left.
    fn advance(&mut self) -> (res: Result<Token, InterpretError>)
        requires
            old(self).wf(),
        ensures
            final(self).wf(),
            final(self).measure() <= old(self).measure(),
            old(self).peeked_token() matches Some(t) ==> res == Ok::<Token, InterpretError>(t),
            res is Ok ==> final(self).measure() < old(self).measure(),
            res matches Err(e) ==> is_front_end_error(e),
            !(res matches Err(e) && is_eof_error(e)) ==> final(self).measure() < old(self).measure(),
            final(self).peeked is None,
            old(self).pending() ==> final(self).measure() < old(self).measure(),
            (tok_result(res), final(self).items()) == advance_spec(old(self).items()),
    {
        let item = match self.peeked.take() {
            Some(item) => item,
            None => self.tokens.next(),
        };
        match item {
            Some(Ok(t)) => Ok(t),
            Some(Err(e)) => Err(e),
            None => Err(InterpretError::Syntax(SyntaxError::UnexpectedEOF)),
        }
    }

    /// Takes the next token if it is of kind `kind`; else the error that
    /// names the token found and the kind expected.
    fn consume(&mut self, kind: TokenType) -> (res: Result<Token, InterpretError>)
        requires
            old(self).wf(),
        ensures
            final(self).wf(),
            final(self).measure() <= old(self).measure(),
            res matches Ok(t) ==> t.token == kind && final(self).measure() < old(self).measure(),
            res matches Err(e) ==> is_front_end_error(e),
            res is Err ==> final(self).peeked is Some,
            old(self).pending() ==> final(self).pending() || final(self).measure() < old(
                self,
            ).measure(),
            res is Err && final(self).peeked_token() is Some ==> {
                let t = final(self).peeked_token()->0;
                &&& t.token != kind
                &&& res matches Err(InterpretError::Syntax(SyntaxError::ExpectedChar(l, found, expected)))
                    && l == t.line && found@ == t.lexeme@ && expected@ == kind_name(kind)
            },
            (tok_result(res), final(self).items()) == consume_spec(old(self).items(), kind),
    {
        self.fill();
        let found = match &self.peeked {
            Some(Some(Ok(t))) => {
                if t.token == kind {
                    None
                } else {
                    Some(InterpretError::Syntax(SyntaxError::ExpectedChar(
                        t.line,
                        t.lexeme.clone(),
                        token_kind_name(kind),
                    )))
                }
            },
            Some(Some(Err(e))) => Some(e.duplicate()),
            _ => Some(InterpretError::Syntax(SyntaxError::UnexpectedEOF)),
        };
        match found {
            None => self.advance(),
            Some(e) => Err(e),
        }
    }

    /// expression → assignment
    fn expression(&mut self) -> (res: Result<Expr, InterpretError>)
        requires
            old(self).wf(),
        ensures
            final(self).wf(),
            final(self).measure() <= old(self).measure(),
            res is Ok ==> final(self).measure() < old(self).measure(),
            res matches Err(e) ==> is_front_end_error(e),
            old(self).pending() ==> final(self).pending() || final(self).measure() < old(
                self,
            ).measure(),
            res matches Ok(e) ==> wf_expr(e),
            (expr_result_view(res), final(self).items()) == expression_spec(old(self).items()),
            res is Ok ==> final(self).items().len() < old(self).items().len(),
            final(self).items().len() <= old(self).items().len(),
            final(self).took_or_kept(*old(self)),
        decreases old(self).measure(), 15int,
    {
        self.assignment()
    }

    /// assignment → logic_or ( "=" assignment )? — the target must be a
    /// variable or a property.
    fn assignment(&mut self) -> (res: Result<Expr, InterpretError>)
        requires
            old(self).wf(),
        ensures
            final(self).wf(),
            final(self).measure() <= old(self).measure(),
            res is Ok ==> final(self).measure() < old(self).measure(),
            res matches Err(e) ==> is_front_end_error(e),
            old(self).pending() ==> final(self).pending() || final(self).measure() < old(
                self,
            ).measure(),
            res matches Ok(e) ==> wf_expr(e),
            (expr_result_view(res), final(self).items()) == assignment_spec(old(self).items()),
            res is Ok ==> final(self).items().len() < old(self).items().len(),
            final(self).items().len() <= old(self).items().len(),
            final(self).took_or_kept(*old(self)),
        decreases old(self).measure(), 14int,
    {
        let expr = self.logic_or()?;
        let (k, _line) = self.peek()?;
        if k == TokenType::Equal {
            let actual = self.advance()?;
            let value = self.assignment()?;
            match expr {
                Expr::Variable(id) => Ok(Expr::Assign(id, Box::new(value))),
                Expr::Get(obj, prop) => Ok(Expr::SetField(obj, prop, Box::new(value))),
                _ => Err(InterpretError::Syntax(SyntaxError::InvalidAssignment(actual.line))),
            }
        } else {
            Ok(expr)
        }
    }

    /// logic_or → logic_and ( "or" logic_and )*
    fn logic_or(&mut self) -> (res: Result<Expr, InterpretError>)
        requires
            old(self).wf(),
        ensures
            final(self).wf(),
            final(self).measure() <= old(self).measure(),
            res is Ok ==> final(self).measure() < old(self).measure(),
            res matches Err(e) ==> is_front_end_error(e),
            old(self).pending() ==> final(self).pending() || final(self).measure() < old(
                self,
            ).measure(),
            res matches Ok(e) ==> wf_expr(e),
            (expr_result_view(res), final(self).items()) == binary_spec(0, old(self).items()),
            res is Ok ==> final(self).items().len() < old(self).items().len(),
            final(self).items().len() <= old(self).items().len(),
            final(self).took_or_kept(*old(self)),
        decreases old(self).measure(), 13int,
    {
        proof {
            assert(operand_spec(0, self.items()) == binary_spec(1, self.items()));
        }
        let mut expr = self.logic_and()?;
        loop
            invariant
                self.wf(),
                self.measure() < old(self).measure(),
                wf_expr(expr),
                binary_spec(0, old(self).items()) == binary_tail_spec(0, expr_view(expr), self.items()),
                self.items().len() < old(self).items().len(),
            ensures
                binary_spec(0, old(self).items()) == (Ok::<crate::syntax::ExprV, crate::syntax::ErrV>(expr_view(expr)), self.items()),
                self.items().len() < old(self).items().len(),
                self.wf(),
                self.measure() < old(self).measure(),
                wf_expr(expr),
            decreases self.measure(),
        {
            let (k, _line) = self.peek()?;
            if k == TokenType::Or {
                let actual = self.advance()?;
                proof {
                    assert(operand_spec(0, self.items()) == binary_spec(1, self.items()));
                }
                let right = self.logic_and()?;
                expr = Expr::Or(actual, Box::new(expr), Box::new(right));
            } else {
                break;
            }
        }
        Ok(expr)
    }

    /// logic_and → equality ( "and" equality )*
    fn logic_and(&mut self) -> (res: Result<Expr, InterpretError>)
        requires
            old(self).wf(),
        ensures
            final(self).wf(),
            final(self).measure() <= old(self).measure(),
            res is Ok ==> final(self).measure() < old(self).measure(),
            res matches Err(e) ==> is_front_end_error(e),
            old(self).pending() ==> final(self).pending() || final(self).measure() < old(
                self,
            ).measure(),
            res matches Ok(e) ==> wf_expr(e),
            (expr_result_view(res), final(self).items()) == binary_spec(1, old(self).items()),
            res is Ok ==> final(self).items().len() < old(self).items().len(),
            final(self).items().len() <= old(self).items().len(),
            final(self).took_or_kept(*old(self)),
        decreases old(self).measure(), 12int,
    {
        proof {
            assert(operand_spec(1, self.items()) == binary_spec(2, self.items()));
        }
        let mut expr = self.equality()?;
        loop
            invariant
                self.wf(),
                self.measure() < old(self).measure(),
                wf_expr(expr),
                binary_spec(1, old(self).items()) == binary_tail_spec(1, expr_view(expr), self.items()),
                self.items().len() < old(self).items().len(),
            ensures
                binary_spec(1, old(self).items()) == (Ok::<crate::syntax::ExprV, crate::syntax::ErrV>(expr_view(expr)), self.items()),
                self.items().len() < old(self).items().len(),
                self.wf(),
                self.measure() < old(self).measure(),
                wf_expr(expr),
            decreases self.measure(),
        {
            let (k, _line) = self.peek()?;
            if k == TokenType::And {
                let actual = self.advance()?;
                proof {
                    assert(operand_spec(1, self.items()) == binary_spec(2, self.items()));
                }
                let right = self.equality()?;
                expr = Expr::And(actual, Box::new(expr), Box::new(right));
            } else {
                break;
            }
        }
        Ok(expr)
    }

    /// equality → comparison ( ( "!=" | "==" ) comparison )*
    fn equality(&mut self) -> (res: Result<Expr, InterpretError>)
        requires
            old(self).wf(),
        ensures
            final(self).wf(),
            final(self).measure() <= old(self).measure(),
            res is Ok ==> final(self).measure() < old(self).measure(),
            res matches Err(e) ==> is_front_end_error(e),
            old(self).pending() ==> final(self).pending() || final(self).measure() < old(
                self,
            ).measure(),
            res matches Ok(e) ==> wf_expr(e),
            (expr_result_view(res), final(self).items()) == binary_spec(2, old(self).items()),
            res is Ok ==> final(self).items().len() < old(self).items().len(),
            final(self).items().len() <= old(self).items().len(),
            final(self).took_or_kept(*old(self)),
        decreases old(self).measure(), 11int,
    {
        proof {
            assert(operand_spec(2, self.items()) == binary_spec(3, self.items()));
        }
        let mut expr = self.comparison()?;
        loop
            invariant
                self.wf(),
                self.measure() < old(self).measure(),
                wf_expr(expr),
                binary_spec(2, old(self).items()) == binary_tail_spec(2, expr_view(expr), self.items()),
                self.items().len() < old(self).items().len(),
            ensures
                binary_spec(2, old(self).items()) == (Ok::<crate::syntax::ExprV, crate::syntax::ErrV>(expr_view(expr)), self.items()),
                self.items().len() < old(self).items().len(),
                self.wf(),
                self.measure() < old(self).measure(),
                wf_expr(expr),
            decreases self.measure(),
        {
            let (k, _line) = self.peek()?;
            if k == TokenType::EqualEqual || k == TokenType::BangEqual {
                let op = self.advance()?;
                proof {
                    assert(operand_spec(2, self.items()) == binary_spec(3, self.items()));
                }
                let right = self.comparison()?;
                expr = Expr::Binary(op, Box::new(expr), Box::new(right));
            } else {
                break;
            }
        }
        Ok(expr)
    }

    /// comparison → term ( ( ">" | ">=" | "<" | "<=" ) term )*
    fn comparison(&mut self) -> (res: Result<Expr, InterpretError>)
        requires
            old(self).wf(),
        ensures
            final(self).wf(),
            final(self).measure() <= old(self).measure(),
            res is Ok ==> final(self).measure() < old(self).measure(),
            res matches Err(e) ==> is_front_end_error(e),
            old(self).pending() ==> final(self).pending() || final(self).measure() < old(
                self,
            ).measure(),
            res matches Ok(e) ==> wf_expr(e),
            (expr_result_view(res), final(self).items()) == binary_spec(3, old(self).items()),
            res is Ok ==> final(self).items().len() < old(self).items().len(),
            final(self).items().len() <= old(self).items().len(),
            final(self).took_or_kept(*old(self)),
        decreases old(self).measure(), 10int,
    {
        proof {
            assert(operand_spec(3, self.items()) == binary_spec(4, self.items()));
        }
        let mut expr = self.term()?;
        loop
            invariant
                self.wf(),
                self.measure() < old(self).measure(),
                wf_expr(expr),
                binary_spec(3, old(self).items()) == binary_tail_spec(3, expr_view(expr), self.items()),
                self.items().len() < old(self).items().len(),
            ensures
                binary_spec(3, old(self).items()) == (Ok::<crate::syntax::ExprV, crate::syntax::ErrV>(expr_view(expr)), self.items()),
                self.items().len() < old(self).items().len(),
                self.wf(),
                self.measure() < old(self).measure(),
                wf_expr(expr),
            decreases self.measure(),
        {
            let (k, _line) = self.peek()?;
            if k == TokenType::LessEqual || k == TokenType::LessThan || k == TokenType::GreaterEqual || k == TokenType::GreaterThan {
                let op = self.advance()?;
                proof {
                    assert(operand_spec(3, self.items()) == binary_spec(4, self.items()));
                }
                let right = self.term()?;
                expr = Expr::Binary(op, Box::new(expr), Box::new(right));
            } else {
                break;
            }
        }
        Ok(expr)
    }

    /// term → factor ( ( "-" | "+" ) factor )*
    fn term(&mut self) -> (res: Result<Expr, InterpretError>)
        requires
            old(self).wf(),
        ensures
            final(self).wf(),
            final(self).measure() <= old(self).measure(),
            res is Ok ==> final(self).measure() < old(self).measure(),
            res matches Err(e) ==> is_front_end_error(e),
            old(self).pending() ==> final(self).pending() || final(self).measure() < old(
                self,
            ).measure(),
            res matches Ok(e) ==> wf_expr(e),
            (expr_result_view(res), final(self).items()) == binary_spec(4, old(self).items()),
            res is Ok ==> final(self).items().len() < old(self).items().len(),
            final(self).items().len() <= old(self).items().len(),
            final(self).took_or_kept(*old(self)),
        decreases old(self).measure(), 9int,
    {
        proof {
            assert(operand_spec(4, self.items()) == binary_spec(5, self.items()));
        }
        let mut expr = self.factor()?;
        loop
            invariant
                self.wf(),
                self.measure() < old(self).measure(),
                wf_expr(expr),
                binary_spec(4, old(self).items()) == binary_tail_spec(4, expr_view(expr), self.items()),
                self.items().len() < old(self).items().len(),
            ensures
                binary_spec(4, old(self).items()) == (Ok::<crate::syntax::ExprV, crate::syntax::ErrV>(expr_view(expr)), self.items()),
                self.items().len() < old(self).items().len(),
                self.wf(),
                self.measure() < old(self).measure(),
                wf_expr(expr),
            decreases self.measure(),
        {
            let (k, _line) = self.peek()?;
            if k == TokenType::Plus || k == TokenType::Minus {
                let op = self.advance()?;
                proof {
                    assert(operand_spec(4, self.items()) == binary_spec(5, self.items()));
                }
                let right = self.factor()?;
                expr = Expr::Binary(op, Box::new(expr), Box::new(right));
            } else {
                break;
            }
        }
        Ok(expr)
    }

    /// factor → unary ( ( "/" | "*" ) unary )*
    fn factor(&mut self) -> (res: Result<Expr, InterpretError>)
        requires
            old(self).wf(),
        ensures
            final(self).wf(),
            final(self).measure() <= old(self).measure(),
            res is Ok ==> final(self).measure() < old(self).measure(),
            res matches Err(e) ==> is_front_end_error(e),
            old(self).pending() ==> final(self).pending() || final(self).measure() < old(
                self,
            ).measure(),
            res matches Ok(e) ==> wf_expr(e),
            (expr_result_view(res), final(self).items()) == binary_spec(5, old(self).items()),
            res is Ok ==> final(self).items().len() < old(self).items().len(),
            final(self).items().len() <= old(self).items().len(),
            final(self).took_or_kept(*old(self)),
        decreases old(self).measure(), 8int,
    {
        proof {
            assert(operand_spec(5, self.items()) == unary_spec(self.items()));
        }
        let mut expr = self.unary()?;
        loop
            invariant
                self.wf(),
                self.measure() < old(self).measure(),
                wf_expr(expr),
                binary_spec(5, old(self).items()) == binary_tail_spec(5, expr_view(expr), self.items()),
                self.items().len() < old(self).items().len(),
            ensures
                binary_spec(5, old(self).items()) == (Ok::<crate::syntax::ExprV, crate::syntax::ErrV>(expr_view(expr)), self.items()),
                self.items().len() < old(self).items().len(),
                self.wf(),
                self.measure() < old(self).measure(),
                wf_expr(expr),
            decreases self.measure(),
        {
            let (k, _line) = self.peek()?;
            if k == TokenType::Star || k == TokenType::Slash {
                let op = self.advance()?;
                proof {
                    assert(operand_spec(5, self.items()) == unary_spec(self.items()));
                }
                let right = self.unary()?;
                expr = Expr::Binary(op, Box::new(expr), Box::new(right));
            } else {
                break;
            }
        }
        Ok(expr)
    }

    /// unary → ( "!" | "-" ) unary | call
    fn unary(&mut self) -> (res: Result<Expr, InterpretError>)
        requires
            old(self).wf(),
        ensures
            final(self).wf(),
            final(self).measure() <= old(self).measure(),
            res is Ok ==> final(self).measure() < old(self).measure(),
            res matches Err(e) ==> is_front_end_error(e),
            old(self).pending() ==> final(self).pending() || final(self).measure() < old(
                self,
            ).measure(),
            res matches Ok(e) ==> wf_expr(e),
            (expr_result_view(res), final(self).items()) == unary_spec(old(self).items()),
            res is Ok ==> final(self).items().len() < old(self).items().len(),
            final(self).items().len() <= old(self).items().len(),
            final(self).took_or_kept(*old(self)),
        decreases old(self).measure(), 7int,
    {
        let (k, _line) = self.peek()?;
        if k == TokenType::Bang || k == TokenType::Minus {
            let op = self.advance()?;
            let expr = self.unary()?;
            Ok(Expr::Unary(op, Box::new(expr)))
        } else {
            self.call()
        }
    }

    /// call → primary ( "(" arguments? ")" | "." IDENTIFIER )*, with at most
    /// 255 arguments.
    fn call(&mut self) -> (res: Result<Expr, InterpretError>)
        requires
            old(self).wf(),
        ensures
            final(self).wf(),
            final(self).measure() <= old(self).measure(),
            res is Ok ==> final(self).measure() < old(self).measure(),
            res matches Err(e) ==> is_front_end_error(e),
            old(self).pending() ==> final(self).pending() || final(self).measure() < old(
                self,
            ).measure(),
            res matches Ok(e) ==> wf_expr(e),
            (expr_result_view(res), final(self).items()) == call_spec(old(self).items()),
            res is Ok ==> final(self).items().len() < old(self).items().len(),
            final(self).items().len() <= old(self).items().len(),
            final(self).took_or_kept(*old(self)),
        decreases old(self).measure(), 6int,
    {
        let mut expr = self.primary()?;
        loop
            invariant
                self.wf(),
                self.measure() < old(self).measure(),
                wf_expr(expr),
                call_spec(old(self).items()) == call_tail_spec(expr_view(expr), self.items()),
                self.items().len() < old(self).items().len(),
            ensures
                call_spec(old(self).items()) == (Ok::<crate::syntax::ExprV, crate::syntax::ErrV>(
                    expr_view(expr),
                ), self.items()),
                self.items().len() < old(self).items().len(),
                self.wf(),
                self.measure() < old(self).measure(),
                wf_expr(expr),
            decreases self.measure(),
        {
            let ghost m = self.measure();
            let ghost cur = self.items();
            if self.consume(TokenType::LeftParen).is_ok() {
                let ghost cur1 = self.items();
                let mut args: Vec<Expr> = Vec::new();
                proof {
                    crate::syntax::lemma_exprs_view(args@);
                    assert(exprs_view(args@) =~= Seq::<crate::syntax::ExprV>::empty());
                }
                loop
                    invariant_except_break
                        args_spec(Seq::empty(), cur1) == args_spec(exprs_view(args@), self.items()),
                    invariant
                        self.wf(),
                        self.measure() < m,
                        self.measure() < old(self).measure(),
                        wf_expr(expr),
                        args@.len() <= 255,
                        forall|i: int| 0 <= i < args@.len() ==> wf_expr(#[trigger] args@[i]),
                        cur1 == cur.drop_first(),
                        cur.len() > 0,
                        call_spec(old(self).items()) == call_tail_spec(expr_view(expr), cur),
                        cur.len() < old(self).items().len(),
                        consume_spec(cur, TokenType::LeftParen).0 is Ok,
                        self.items().len() <= cur1.len(),
                    ensures
                        self.wf(),
                        self.measure() < m,
                        self.measure() < old(self).measure(),
                        wf_expr(expr),
                        forall|i: int| 0 <= i < args@.len() ==> wf_expr(#[trigger] args@[i]),
                        args@.len() <= 255,
                        args_spec(Seq::empty(), cur1) == (Ok::<Seq<crate::syntax::ExprV>, crate::syntax::ErrV>(
                            exprs_view(args@),
                        ), self.items()),
                        self.items().len() <= cur1.len(),
                    decreases self.measure(),
                {
                    let ghost before = self.items();
                    proof {
                        crate::syntax::lemma_exprs_view(args@);
                    }
                    let (k, line) = self.peek()?;
                    if k == TokenType::RightParen || k == TokenType::Eof {
                        break;
                    }
                    if args.len() >= 255 {
                        return Err(InterpretError::Syntax(SyntaxError::TooManyArgs(line)));
                    }
                    let arg = self.expression()?;
                    let ghost old_args = args@;
                    args.push(arg);
                    proof {
                        crate::syntax::lemma_exprs_view(args@);
                        assert(exprs_view(args@) =~= exprs_view(old_args).push(expr_view(arg)));
                    }
                    if self.consume(TokenType::Comma).is_err() {
                        break;
                    }
                }
                let closing = self.consume(TokenType::RightParen)?;
                expr = Expr::Call(Box::new(expr), args, closing);
            } else if self.consume(TokenType::Dot).is_ok() {
                let prop = self.consume(TokenType::Identifier)?;
                expr = Expr::Get(Box::new(expr), prop);
            } else {
                break;
            }
        }
        Ok(expr)
    }

    /// primary → NUMBER | STRING | "true" | "false" | "nil" | "(" expression ")"
    ///         | IDENTIFIER | "this" | "super" "." IDENTIFIER
    fn primary(&mut self) -> (res: Result<Expr, InterpretError>)
        requires
            old(self).wf(),
        ensures
            final(self).wf(),
            final(self).measure() <= old(self).measure(),
            res is Ok ==> final(self).measure() < old(self).measure(),
            res matches Err(e) ==> is_front_end_error(e),
            old(self).pending() ==> final(self).pending() || final(self).measure() < old(
                self,
            ).measure(),
            res matches Ok(e) ==> wf_expr(e),
            old(self).peeked_token() matches Some(t) ==> (is_literal_kind(t.token) ==> res
                == Ok::<Expr, InterpretError>(Expr::Literal(t))),
            old(self).peeked_token() matches Some(t) ==> (t.token == TokenType::Identifier ==> res
                == Ok::<Expr, InterpretError>(Expr::Variable(t))),
            (expr_result_view(res), final(self).items()) == primary_spec(old(self).items()),
            res is Ok ==> final(self).items().len() < old(self).items().len(),
            final(self).items().len() <= old(self).items().len(),
            final(self).took_or_kept(*old(self)),
        decreases old(self).measure(), 5int,
    {
        let t = self.advance()?;
        if t.token == TokenType::Identifier {
            Ok(Expr::Variable(t))
        } else if t.token == TokenType::True || t.token == TokenType::False || t.token
            == TokenType::Nil || t.token == TokenType::String || t.token == TokenType::Number {
            Ok(Expr::Literal(t))
        } else if t.token == TokenType::LeftParen {
            let expr = self.expression()?;
            self.consume(TokenType::RightParen)?;
            Ok(Expr::Grouping(Box::new(expr)))
        } else if t.token == TokenType::This {
            Ok(Expr::This(t))
        } else if t.token == TokenType::Super {
            self.consume(TokenType::Dot)?;
            let prop = self.consume(TokenType::Identifier)?;
            Ok(Expr::Super(t, prop))
        } else {
            Err(InterpretError::Syntax(SyntaxError::ExpectedExpression(t.line, t.lexeme)))
        }
    }

    /// declaration → varDecl | funDecl | classDecl | statement
    fn declaration(&mut self) -> (res: Result<Stmt, InterpretError>)
        requires
            old(self).wf(),
        ensures
            final(self).wf(),
            final(self).measure() <= old(self).measure(),
            res is Ok ==> final(self).measure() < old(self).measure(),
            res matches Err(e) ==> is_front_end_error(e),
            old(self).pending() ==> final(self).pending() || final(self).measure() < old(
                self,
            ).measure(),
            res matches Ok(s) ==> wf_stmt(s),
            (stmt_result_view(res), final(self).items()) == declaration_spec(old(self).items()),
            res is Ok ==> final(self).items().len() < old(self).items().len(),
            final(self).items().len() <= old(self).items().len(),
            final(self).took_or_kept(*old(self)),
            old(self).peeked_token() matches Some(t) && sync_start(t.token) ==> final(self).items().len()
                < old(self).items().len() && final(self).measure() < old(self).measure(),
        decreases old(self).measure(), 22int,
    {
        let (k, _line) = self.peek()?;
        if k == TokenType::Var {
            self.advance()?;
            self.declare_var()
        } else if k == TokenType::Fun {
            self.advance()?;
            self.declare_func()
        } else if k == TokenType::Class {
            self.advance()?;
            self.declare_class()
        } else {
            self.statement()
        }
    }

    /// varDecl → IDENTIFIER ( "=" expression )? ";"
    fn declare_var(&mut self) -> (res: Result<Stmt, InterpretError>)
        requires
            old(self).wf(),
        ensures
            final(self).wf(),
            final(self).measure() <= old(self).measure(),
            res is Ok ==> final(self).measure() < old(self).measure(),
            res matches Err(e) ==> is_front_end_error(e),
            old(self).pending() ==> final(self).pending() || final(self).measure() < old(
                self,
            ).measure(),
            res matches Ok(s) ==> wf_stmt(s),
            (stmt_result_view(res), final(self).items()) == declare_var_spec(old(self).items()),
            res is Ok ==> final(self).items().len() < old(self).items().len(),
            final(self).items().len() <= old(self).items().len(),
    {
        let id = self.consume(TokenType::Identifier)?;
        if self.consume(TokenType::Equal).is_ok() {
            let init = self.expression()?;
            self.consume(TokenType::Semicolon)?;
            Ok(Stmt::DeclareVar(id, Some(init)))
        } else {
            self.consume(TokenType::Semicolon)?;
            Ok(Stmt::DeclareVar(id, None))
        }
    }

    /// The name, parameters and body of a function: IDENTIFIER "(" params? ")"
    /// block, with at most 255 parameters.
    fn function_parts(&mut self) -> (res: Result<(Token, Vec<Token>, Vec<Stmt>), InterpretError>)
        requires
            old(self).wf(),
        ensures
            final(self).wf(),
            final(self).measure() <= old(self).measure(),
            res is Ok ==> final(self).measure() < old(self).measure(),
            res matches Err(e) ==> is_front_end_error(e),
            old(self).pending() ==> final(self).pending() || final(self).measure() < old(
                self,
            ).measure(),
            res matches Ok(parts) ==> wf_function(parts.0, parts.1, parts.2),
            (function_result_view(res), final(self).items()) == function_spec(old(self).items()),
            res is Ok ==> final(self).items().len() < old(self).items().len(),
            final(self).items().len() <= old(self).items().len(),
        decreases old(self).measure(), 17int,
    {
        let id = self.consume(TokenType::Identifier)?;
        let ghost cur1 = self.items();
        let mut params: Vec<Token> = Vec::new();
        self.consume(TokenType::LeftParen)?;
        let ghost cur2 = self.items();
        proof {
            assert(toks_view(params@) =~= Seq::<crate::syntax::TokV>::empty());
        }
        loop
            invariant_except_break
                params_spec(Seq::empty(), cur2) == params_spec(toks_view(params@), self.items()),
            invariant
                self.wf(),
                self.measure() < old(self).measure(),
                id.token == TokenType::Identifier,
                params@.len() <= 255,
                forall|i: int|
                    0 <= i < params@.len() ==> (#[trigger] params@[i]).token
                        == TokenType::Identifier,
                consume_spec(old(self).items(), TokenType::Identifier) == (Ok::<crate::syntax::TokV, crate::syntax::ErrV>(tok_view(id)), cur1),
                consume_spec(cur1, TokenType::LeftParen).0 is Ok,
                consume_spec(cur1, TokenType::LeftParen).1 == cur2,
                cur2.len() < old(self).items().len(),
                self.items().len() <= cur2.len(),
            ensures
                self.wf(),
                self.measure() < old(self).measure(),
                id.token == TokenType::Identifier,
                params@.len() <= 255,
                forall|i: int|
                    0 <= i < params@.len() ==> (#[trigger] params@[i]).token
                        == TokenType::Identifier,
                params_spec(Seq::empty(), cur2) == (Ok::<Seq<crate::syntax::TokV>, crate::syntax::ErrV>(toks_view(params@)), self.items()),
                self.items().len() <= cur2.len(),
            decreases self.measure(),
        {
            let (k, line) = self.peek()?;
            if k == TokenType::RightParen || k == TokenType::Eof {
                break ;
            }
            if params.len() >= 255 {
                return Err(InterpretError::Syntax(SyntaxError::TooManyParams(line)));
            }
            let param = self.consume(TokenType::Identifier)?;
            let ghost old_params = params@;
            params.push(param);
            proof {
                assert(toks_view(params@) =~= toks_view(old_params).push(tok_view(param)));
            }
            if self.consume(TokenType::Comma).is_err() {
                break ;
            }
        }
        let closing = self.consume(TokenType::RightParen)?;
        let body = match self.statement()? {
            Stmt::Block(v) => v,
            _ => {
                return Err(
                    InterpretError::Syntax(
                        SyntaxError::ExpectedChar(
                            closing.line,
                            String::from_str(")"),
                            String::from_str("function body"),
                        ),
                    ),
                );
            },
        };
        Ok((id, params, body))
    }

    /// funDecl → "fun" function
    fn declare_func(&mut self) -> (res: Result<Stmt, InterpretError>)
        requires
            old(self).wf(),
        ensures
            final(self).wf(),
            final(self).measure() <= old(self).measure(),
            res is Ok ==> final(self).measure() < old(self).measure(),
            res matches Err(e) ==> is_front_end_error(e),
            old(self).pending() ==> final(self).pending() || final(self).measure() < old(
                self,
            ).measure(),
            res matches Ok(s) ==> wf_stmt(s),
            (stmt_result_view(res), final(self).items()) == declare_func_spec(old(self).items()),
            res is Ok ==> final(self).items().len() < old(self).items().len(),
            final(self).items().len() <= old(self).items().len(),
        decreases old(self).measure(), 18int,
    {
        let (id, params, body) = self.function_parts()?;
        Ok(Stmt::DeclareFunc(id, params, body))
    }

    /// classDecl → "class" IDENTIFIER ( "<" IDENTIFIER )? "{" function* "}"
    fn declare_class(&mut self) -> (res: Result<Stmt, InterpretError>)
        requires
            old(self).wf(),
        ensures
            final(self).wf(),
            final(self).measure() <= old(self).measure(),
            res is Ok ==> final(self).measure() < old(self).measure(),
            res matches Err(e) ==> is_front_end_error(e),
            old(self).pending() ==> final(self).pending() || final(self).measure() < old(
                self,
            ).measure(),
            res matches Ok(s) ==> wf_stmt(s),
            (stmt_result_view(res), final(self).items()) == declare_class_spec(old(self).items()),
            res is Ok ==> final(self).items().len() < old(self).items().len(),
            final(self).items().len() <= old(self).items().len(),
        decreases old(self).measure(), 19int,
    {
        let id = self.consume(TokenType::Identifier)?;
        let mut methods: Vec<(Token, Vec<Token>, Vec<Stmt>)> = Vec::new();
        let superclass = if self.consume(TokenType::LessThan).is_ok() {
            Some(self.consume(TokenType::Identifier)?)
        } else {
            None
        };
        let ghost before_brace = self.items();
        self.consume(TokenType::LeftBrace)?;
        let ghost cur3 = self.items();
        proof {
            crate::syntax::lemma_methods_view(methods@);
            assert(methods_view(methods@) =~= Seq::<crate::grammar::FunctionV>::empty());
        }
        loop
            invariant_except_break
                methods_spec(Seq::empty(), cur3) == methods_spec(methods_view(methods@), self.items()),
            invariant
                self.wf(),
                self.measure() < old(self).measure(),
                id.token == TokenType::Identifier,
                superclass matches Some(p) ==> p.token == TokenType::Identifier,
                forall|i: int|
                    0 <= i < methods@.len() ==> wf_function(
                        (#[trigger] methods@[i]).0,
                        methods@[i].1,
                        methods@[i].2,
                    ),
                declare_class_spec(old(self).items()) == match methods_spec(Seq::empty(), cur3) {
                    (Ok(ms), rest4) => match consume_spec(rest4, TokenType::RightBrace) {
                        (Ok(_), rest5) => (
                            Ok(crate::syntax::StmtV::DeclareClass(
                                tok_view(id),
                                match superclass {
                                    Some(p) => Some(tok_view(p)),
                                    None => None,
                                },
                                ms,
                            )),
                            rest5,
                        ),
                        (Err(e), rest5) => (Err(e), rest5),
                    },
                    (Err(e), rest4) => (Err(e), rest4),
                },
                self.items().len() <= cur3.len(),
                cur3.len() < old(self).items().len(),
            ensures
                self.wf(),
                self.measure() < old(self).measure(),
                id.token == TokenType::Identifier,
                superclass matches Some(p) ==> p.token == TokenType::Identifier,
                forall|i: int|
                    0 <= i < methods@.len() ==> wf_function(
                        (#[trigger] methods@[i]).0,
                        methods@[i].1,
                        methods@[i].2,
                    ),
                declare_class_spec(old(self).items()) == match methods_spec(Seq::empty(), cur3) {
                    (Ok(ms), rest4) => match consume_spec(rest4, TokenType::RightBrace) {
                        (Ok(_), rest5) => (
                            Ok(crate::syntax::StmtV::DeclareClass(
                                tok_view(id),
                                match superclass {
                                    Some(p) => Some(tok_view(p)),
                                    None => None,
                                },
                                ms,
                            )),
                            rest5,
                        ),
                        (Err(e), rest5) => (Err(e), rest5),
                    },
                    (Err(e), rest4) => (Err(e), rest4),
                },
                methods_spec(Seq::empty(), cur3) == (Ok::<Seq<crate::grammar::FunctionV>, crate::syntax::ErrV>(
                    methods_view(methods@),
                ), self.items()),
                self.items().len() <= cur3.len(),
                cur3.len() < old(self).items().len(),
            decreases self.measure(),
        {
            proof {
                crate::syntax::lemma_methods_view(methods@);
            }
            let (k, _line) = self.peek()?;
            if k == TokenType::RightBrace || k == TokenType::Eof {
                break ;
            }
            let method = self.function_parts()?;
            let ghost old_methods = methods@;
            methods.push(method);
            proof {
                crate::syntax::lemma_methods_view(old_methods);
                crate::syntax::lemma_methods_view(methods@);
                assert(methods_view(methods@) =~= methods_view(old_methods).push(
                    (tok_view(method.0), toks_view(method.1@), stmts_view(method.2@)),
                ));
            }
        }
        self.consume(TokenType::RightBrace)?;
        Ok(Stmt::DeclareClass(id, superclass, methods))
    }

    /// statement → printStmt | block | ifStmt | whileStmt | forStmt
    ///           | returnStmt | exprStmt
    fn statement(&mut self) -> (res: Result<Stmt, InterpretError>)
        requires
            old(self).wf(),
        ensures
            final(self).wf(),
            final(self).measure() <= old(self).measure(),
            res is Ok ==> final(self).measure() < old(self).measure(),
            res matches Err(e) ==> is_front_end_error(e),
            old(self).pending() ==> final(self).pending() || final(self).measure() < old(
                self,
            ).measure(),
            res matches Ok(s) ==> wf_stmt(s),
            (stmt_result_view(res), final(self).items()) == statement_spec(old(self).items()),
            res is Ok ==> final(self).items().len() < old(self).items().len(),
            final(self).items().len() <= old(self).items().len(),
            final(self).took_or_kept(*old(self)),
            old(self).peeked_token() matches Some(t) && (t.token == TokenType::Print || t.token
                == TokenType::If || t.token == TokenType::While || t.token == TokenType::Return)
                ==> final(self).items().len() < old(self).items().len() && final(self).measure()
                < old(self).measure(),
        decreases old(self).measure(), 21int,
    {
        let (k, _line) = self.peek()?;
        if k == TokenType::Print {
            let actual = self.advance()?;
            self.print_stmt(actual)
        } else if k == TokenType::LeftBrace {
            self.advance()?;
            self.block()
        } else if k == TokenType::If {
            self.advance()?;
            self.if_stmt()
        } else if k == TokenType::While {
            self.advance()?;
            self.while_stmt()
        } else if k == TokenType::For {
            self.advance()?;
            self.for_stmt()
        } else if k == TokenType::Return {
            let actual = self.advance()?;
            self.return_stmt(actual)
        } else {
            self.expression_stmt()
        }
    }

    /// printStmt → "print" expression ";"
    fn print_stmt(&mut self, token: Token) -> (res: Result<Stmt, InterpretError>)
        requires
            old(self).wf(),
        ensures
            final(self).wf(),
            final(self).measure() <= old(self).measure(),
            res is Ok ==> final(self).measure() < old(self).measure(),
            res matches Err(e) ==> is_front_end_error(e),
            old(self).pending() ==> final(self).pending() || final(self).measure() < old(
                self,
            ).measure(),
            res matches Ok(s) ==> wf_stmt(s),
            (stmt_result_view(res), final(self).items()) == print_stmt_spec(tok_view(token), old(self).items()),
            res is Ok ==> final(self).items().len() < old(self).items().len(),
            final(self).items().len() <= old(self).items().len(),
    {
        let print_expr = self.expression()?;
        self.consume(TokenType::Semicolon)?;
        Ok(Stmt::Print(token, print_expr))
    }

    /// block → "{" declaration* "}"
    fn block(&mut self) -> (res: Result<Stmt, InterpretError>)
        requires
            old(self).wf(),
        ensures
            final(self).wf(),
            final(self).measure() <= old(self).measure(),
            res is Ok ==> final(self).measure() < old(self).measure(),
            res matches Err(e) ==> is_front_end_error(e),
            old(self).pending() ==> final(self).pending() || final(self).measure() < old(
                self,
            ).measure(),
            res matches Ok(s) ==> wf_stmt(s),
            (stmt_result_view(res), final(self).items()) == block_spec(old(self).items()),
            res is Ok ==> final(self).items().len() < old(self).items().len(),
            final(self).items().len() <= old(self).items().len(),
        decreases old(self).measure(), 23int,
    {
        let mut statements: Vec<Stmt> = Vec::new();
        proof {
            crate::syntax::lemma_stmts_view(statements@);
            assert(stmts_view(statements@) =~= Seq::<crate::syntax::StmtV>::empty());
        }
        loop
            invariant_except_break
                block_items_spec(Seq::empty(), old(self).items()) == block_items_spec(
                    stmts_view(statements@),
                    self.items(),
                ),
            invariant
                self.wf(),
                self.measure() <= old(self).measure(),
                old(self).pending() ==> self.pending() || self.measure() < old(self).measure(),
                forall|i: int| 0 <= i < statements@.len() ==> wf_stmt(#[trigger] statements@[i]),
                self.items().len() <= old(self).items().len(),
            ensures
                self.wf(),
                self.measure() <= old(self).measure(),
                old(self).pending() ==> self.pending() || self.measure() < old(self).measure(),
                forall|i: int| 0 <= i < statements@.len() ==> wf_stmt(#[trigger] statements@[i]),
                self.items().len() <= old(self).items().len(),
                block_items_spec(Seq::empty(), old(self).items()) == (Ok::<Seq<crate::syntax::StmtV>, crate::syntax::ErrV>(
                    stmts_view(statements@),
                ), self.items()),
            decreases self.measure(),
        {
            proof {
                crate::syntax::lemma_stmts_view(statements@);
            }
            let (k, _line) = self.peek()?;
            if k == TokenType::RightBrace || k == TokenType::Eof {
                break ;
            }
            let s = self.declaration()?;
            let ghost old_statements = statements@;
            statements.push(s);
            proof {
                crate::syntax::lemma_stmts_view(old_statements);
                crate::syntax::lemma_stmts_view(statements@);
                assert(stmts_view(statements@) =~= stmts_view(old_statements).push(stmt_view(s)));
            }
        }
        self.consume(TokenType::RightBrace)?;
        Ok(Stmt::Block(statements))
    }

    /// ifStmt → "if" "(" expression ")" statement ( "else" statement )?
    fn if_stmt(&mut self) -> (res: Result<Stmt, InterpretError>)
        requires
            old(self).wf(),
        ensures
            final(self).wf(),
            final(self).measure() <= old(self).measure(),
            res is Ok ==> final(self).measure() < old(self).measure(),
            res matches Err(e) ==> is_front_end_error(e),
            old(self).pending() ==> final(self).pending() || final(self).measure() < old(
                self,
            ).measure(),
            res matches Ok(s) ==> wf_stmt(s),
            (stmt_result_view(res), final(self).items()) == if_stmt_spec(old(self).items()),
            res is Ok ==> final(self).items().len() < old(self).items().len(),
            final(self).items().len() <= old(self).items().len(),
        decreases old(self).measure(), 17int,
    {
        let token = self.consume(TokenType::LeftParen)?;
        let condition = self.expression()?;
        self.consume(TokenType::RightParen)?;
        let if_block = self.statement()?;
        if self.consume(TokenType::Else).is_ok() {
            let else_block = self.statement()?;
            Ok(Stmt::If(token, condition, Box::new(if_block), Some(Box::new(else_block))))
        } else {
            Ok(Stmt::If(token, condition, Box::new(if_block), None))
        }
    }

    /// whileStmt → "while" "(" expression ")" statement
    fn while_stmt(&mut self) -> (res: Result<Stmt, InterpretError>)
        requires
            old(self).wf(),
        ensures
            final(self).wf(),
            final(self).measure() <= old(self).measure(),
            res is Ok ==> final(self).measure() < old(self).measure(),
            res matches Err(e) ==> is_front_end_error(e),
            old(self).pending() ==> final(self).pending() || final(self).measure() < old(
                self,
            ).measure(),
            res matches Ok(s) ==> wf_stmt(s),
            (stmt_result_view(res), final(self).items()) == while_stmt_spec(old(self).items()),
            res is Ok ==> final(self).items().len() < old(self).items().len(),
            final(self).items().len() <= old(self).items().len(),
        decreases old(self).measure(), 17int,
    {
        let token = self.consume(TokenType::LeftParen)?;
        let condition = self.expression()?;
        self.consume(TokenType::RightParen)?;
        let while_block = self.statement()?;
        Ok(Stmt::While(token, condition, Box::new(while_block)))
    }

    /// The initializer of a `for` statement: nothing after a `;`, a variable
    /// declaration, or an expression statement.
    fn for_initializer(&mut self) -> (res: Result<Option<Stmt>, InterpretError>)
        requires
            old(self).wf(),
        ensures
            final(self).wf(),
            final(self).measure() <= old(self).measure(),
            res is Ok ==> final(self).measure() < old(self).measure(),
            res matches Err(e) ==> is_front_end_error(e),
            old(self).pending() ==> final(self).pending() || final(self).measure() < old(
                self,
            ).measure(),
            res matches Ok(Some(s)) ==> wf_stmt(s),
            (crate::syntax::opt_stmt_result_view(res), final(self).items()) == for_init_spec(old(self).items()),
            res is Ok ==> final(self).items().len() < old(self).items().len(),
            final(self).items().len() <= old(self).items().len(),
    {
        let (k, _l) = self.peek()?;
        if k == TokenType::Semicolon {
            self.advance()?;
            Ok(None)
        } else if k == TokenType::Var {
            self.advance()?;
            Ok(Some(self.declare_var()?))
        } else {
            Ok(Some(self.expression_stmt()?))
        }
    }

    /// The condition or increment of a `for` statement: nothing if the next
    /// token is `stop`, which is not taken, else an expression.
    fn for_clause(&mut self, stop: TokenType) -> (res: Result<Option<Expr>, InterpretError>)
        requires
            old(self).wf(),
        ensures
            final(self).wf(),
            final(self).measure() <= old(self).measure(),
            res matches Err(e) ==> is_front_end_error(e),
            old(self).pending() ==> final(self).pending() || final(self).measure() < old(
                self,
            ).measure(),
            res matches Ok(Some(x)) ==> wf_expr(x),
            (crate::syntax::opt_expr_result_view(res), final(self).items()) == for_clause_spec(old(self).items(), stop),
            final(self).items().len() <= old(self).items().len(),
    {
        let (k, _l) = self.peek()?;
        if k == stop {
            Ok(None)
        } else {
            Ok(Some(self.expression()?))
        }
    }

    /// forStmt → "for" "(" ( varDecl | exprStmt | ";" ) expression? ";"
    /// expression? ")" statement, read as the `while` loop it stands for.
    #[verifier::spinoff_prover]
    #[verifier::rlimit(50)]
    fn for_stmt(&mut self) -> (res: Result<Stmt, InterpretError>)
        requires
            old(self).wf(),
        ensures
            final(self).wf(),
            final(self).measure() <= old(self).measure(),
            res is Ok ==> final(self).measure() < old(self).measure(),
            res matches Err(e) ==> is_front_end_error(e),
            old(self).pending() ==> final(self).pending() || final(self).measure() < old(
                self,
            ).measure(),
            res matches Ok(s) ==> wf_stmt(s),
            (stmt_result_view(res), final(self).items()) == for_stmt_spec(old(self).items()),
            res is Ok ==> final(self).items().len() < old(self).items().len(),
            final(self).items().len() <= old(self).items().len(),
        decreases old(self).measure(), 17int,
    {
        let left_paren = self.consume(TokenType::LeftParen)?;
        let line = left_paren.line;
        let initializer = self.for_initializer()?;
        let condition = self.for_clause(TokenType::Semicolon)?;
        self.consume(TokenType::Semicolon)?;
        let increment = self.for_clause(TokenType::RightParen)?;
        let right_paren = self.consume(TokenType::RightParen)?;
        let ghost rp = tok_view(right_paren);
        let ghost lp = tok_view(left_paren);
        let mut body = self.statement()?;
        let ghost body_v = stmt_view(body);
        let ghost init_v = match initializer {
            Some(ref i) => Some(stmt_view(*i)),
            None => None::<crate::syntax::StmtV>,
        };
        let ghost cond_v = match condition {
            Some(ref c) => Some(expr_view(*c)),
            None => None::<crate::syntax::ExprV>,
        };
        let ghost inc_v = match increment {
            Some(ref c) => Some(expr_view(*c)),
            None => None::<crate::syntax::ExprV>,
        };
        assert(initializer matches Some(i) ==> wf_stmt(i));
        match increment {
            Some(inc) => {
                let parts = vec![body, Stmt::Expr(right_paren, inc)];
                assert(wf_stmt(parts@[0]) && wf_stmt(parts@[1]));
                proof {
                    crate::syntax::lemma_stmts_view(parts@);
                    assert(stmts_view(parts@) =~= seq![body_v, crate::syntax::StmtV::Expr(rp, expr_view(inc))]);
                }
                body = Stmt::Block(parts);
            },
            None => {},
        }
        let ghost body1_v = stmt_view(body);
        proof {
            assert(body1_v == match inc_v {
                Some(x) => crate::syntax::StmtV::Block(seq![body_v, crate::syntax::StmtV::Expr(rp, x)]),
                None => body_v,
            });
        }
        assert(wf_stmt(body));
        assert(condition matches Some(c) ==> wf_expr(c));
        match condition {
            Some(cond) => {
                body = Stmt::While(left_paren, cond, Box::new(body));
            },
            None => {
                let always = Token { token: TokenType::True, lexeme: String::from_str("true"), line };
                assert(wf_expr(Expr::Literal(always)));
                body = Stmt::While(left_paren, Expr::Literal(always), Box::new(body));
            },
        }
        let ghost while_v = stmt_view(body);
        proof {
            assert(while_v == crate::syntax::StmtV::While(
                lp,
                match cond_v {
                    Some(c) => c,
                    None => crate::syntax::ExprV::Literal(crate::syntax::TokV { kind: TokenType::True, lexeme: "true"@, line: lp.line }),
                },
                Box::new(body1_v),
            ));
        }
        assert(wf_stmt(body));
        match initializer {
            Some(init) => {
                let parts = vec![init, body];
                assert(wf_stmt(parts@[0]) && wf_stmt(parts@[1]));
                proof {
                    crate::syntax::lemma_stmts_view(parts@);
                    assert(stmts_view(parts@) =~= seq![stmt_view(init), while_v]);
                }
                body = Stmt::Block(parts);
            },
            None => {},
        }
        proof {
            assert(stmt_view(body) == for_loop(lp, init_v, cond_v, inc_v, rp, body_v));
        }
        Ok(body)
    }

    /// returnStmt → "return" expression? ";" — a bare `return` gives `nil`.
    fn return_stmt(&mut self, token: Token) -> (res: Result<Stmt, InterpretError>)
        requires
            old(self).wf(),
        ensures
            final(self).wf(),
            final(self).measure() <= old(self).measure(),
            res is Ok ==> final(self).measure() < old(self).measure(),
            res matches Err(e) ==> is_front_end_error(e),
            old(self).pending() ==> final(self).pending() || final(self).measure() < old(
                self,
            ).measure(),
            res matches Ok(s) ==> wf_stmt(s),
            (stmt_result_view(res), final(self).items()) == return_stmt_spec(tok_view(token), old(self).items()),
            res is Ok ==> final(self).items().len() < old(self).items().len(),
            final(self).items().len() <= old(self).items().len(),
    {
        if self.consume(TokenType::Semicolon).is_ok() {
            let line = token.line;
            let nil = Token { token: TokenType::Nil, lexeme: String::from_str("nil"), line };
            return Ok(Stmt::Return(token, Expr::Literal(nil)));
        }
        let expr = self.expression()?;
        self.consume(TokenType::Semicolon)?;
        Ok(Stmt::Return(token, expr))
    }

    /// exprStmt → expression ";"
    fn expression_stmt(&mut self) -> (res: Result<Stmt, InterpretError>)
        requires
            old(self).wf(),
        ensures
            final(self).wf(),
            final(self).measure() <= old(self).measure(),
            res is Ok ==> final(self).measure() < old(self).measure(),
            res matches Err(e) ==> is_front_end_error(e),
            old(self).pending() ==> final(self).pending() || final(self).measure() < old(
                self,
            ).measure(),
            res matches Ok(s) ==> wf_stmt(s),
            (stmt_result_view(res), final(self).items()) == expression_stmt_spec(old(self).items()),
            res is Ok ==> final(self).items().len() < old(self).items().len(),
            final(self).items().len() <= old(self).items().len(),
            final(self).took_or_kept(*old(self)),
    {
        let expr = self.expression()?;
        let token = self.consume(TokenType::Semicolon)?;
        Ok(Stmt::Expr(token, expr))
    }

    /// Skips tokens after a syntax error up to the end of the statement or
    /// the start of the next one, which it keeps.
    fn synchronize(&mut self)
        requires
            old(self).wf(),
        ensures
            final(self).wf(),
            final(self).measure() <= old(self).measure(),
            final(self).items() == synchronize_spec(old(self).items()),
            final(self).items().len() <= old(self).items().len(),
            old(self).items().len() > 0 && !(old(self).items()[0] matches Ok(t) && sync_start(t.kind))
                ==> final(self).items().len() < old(self).items().len() && final(self).measure()
                < old(self).measure(),
    {
        loop
            invariant
                self.wf(),
                self.measure() <= old(self).measure(),
                synchronize_spec(old(self).items()) == synchronize_spec(self.items()),
                self.items().len() <= old(self).items().len(),
                old(self).items().len() > 0 && !(old(self).items()[0] matches Ok(t) && sync_start(
                    t.kind,
                )) ==> self.items() == old(self).items() || (self.items().len() < old(
                    self,
                ).items().len() && self.measure() < old(self).measure()),
            decreases self.measure(),
        {
            let next = match self.peek() {
                Ok((k, _l)) => k,
                Err(InterpretError::Syntax(SyntaxError::UnexpectedEOF)) => {
                    return ;
                },
                Err(_) => TokenType::Nil,
            };
            if sync_start_kind(next) {
                return ;
            }
            let cur = match self.advance() {
                Ok(t) => t.token,
                Err(_) => TokenType::Nil,
            };
            if cur == TokenType::Semicolon {
                return ;
            }
        }
    }

    /// Whether the stream is at its end: the next token is `Eof`, or no token
    /// is left.
    pub closed spec fn at_end(&self) -> bool {
        match self.peeked {
            Some(None) => true,
            Some(Some(Ok(t))) => t.token == TokenType::Eof,
            _ => false,
        }
    }

    /// The next statement, or the error met while reading it (after which the
    /// parser skips to the next statement); `None` at the end of the tokens.
    pub fn next(&mut self) -> (res: Option<Result<Stmt, InterpretError>>)
        requires
            old(self).wf(),
        ensures
            final(self).wf(),
            final(self).measure() <= old(self).measure(),
            res is Some ==> final(self).measure() < old(self).measure(),
            res is None ==> final(self).at_end(),
            res matches Some(Ok(s)) ==> wf_stmt(s),
            res matches Some(Err(e)) ==> is_front_end_error(e),
            (crate::syntax::next_result_view(res), final(self).items()) == next_spec(old(self).items()),
            res is Some ==> final(self).items().len() < old(self).items().len(),
    {
        self.fill();
        match &self.peeked {
            Some(Some(Ok(t))) => {
                if t.token == TokenType::Eof {
                    return None;
                }
            },
            Some(Some(Err(_))) => {},
            _ => {
                return None;
            },
        }
        let ghost before = *self;
        match self.declaration() {
            Ok(s) => Some(Ok(s)),
            Err(e) => {
                let ghost failed = *self;
                self.synchronize();
                proof {
                    if failed.items() == before.items() {
                        assert(before.items()[0] == item_view(before.peeked->0->0));
                    }
                }
                Some(Err(e))
            },
        }
    }
}

} // verus!
