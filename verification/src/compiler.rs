use std::rc::Rc;

use vstd::prelude::*;

use crate::ast::{
    expr_size, exprs_size, is_literal_kind, is_unary_kind, lemma_exprs_size, lemma_stmts_size,
    stmt_size, stmts_size, wf_expr, wf_function, wf_stmt, Expr, Stmt,
};
use crate::chunk::{byte_len, operand_value, Chunk};
use crate::errors::{CompileError, InterpretError, PanicError};
use crate::heap::{
    heap_grows, lemma_heap_grows_trans, lemma_str_pushed_grows, lemma_str_pushed_names, str_pushed,
    Heap,
};
use crate::object::{Function, FunctionType, Object};
use crate::opcode::{binary_meaning, op_byte, spec_long, OpCode};
use crate::parser::Parser;
use crate::text::{strip_quotes, without_quotes};
use crate::token::{operator_meaning, Token, TokenType};
use crate::grammar::parsed_program;
use crate::emission::{
    run_program,
    declared_at, last_local, local_view, locals_view, stays, LocalV,
    Emission, Progress, functions_of, func_view, FuncV, function_progress, params_progress, define, declare, access_emission, args_emission, block_progress, emission, func_progress, if_progress, progress, reaches, then_op, var_progress, while_progress, stmt_progress, stmts_progress, expr_emission, intern, jump_bytes, patch, literal_emission, put, put_constant, string_index,
};
use crate::syntax::{err_view, unit_result, expr_view, exprs_view, stmt_view, stmts_view, tok_view, toks_view, ExprV, StmtV};
use crate::value::{boolean_bits, nil_bits, object_bits, value_of, Value};

verus! {

/// The value of each number literal of a program: the literal's text and the
/// bits of the `f64` it denotes.
pub struct NumberTable {
    entries: Vec<(String, u64)>,
}

/// The bits the first entry for `lexeme` gives, if any.
pub open spec fn number_lookup(entries: Seq<(Seq<char>, u64)>, lexeme: Seq<char>) -> Option<u64>
    decreases entries.len(),
{
    if entries.len() == 0 {
        None
    } else if entries[0].0 == lexeme {
        Some(entries[0].1)
    } else {
        number_lookup(entries.drop_first(), lexeme)
    }
}

impl NumberTable {
    /// The entries, in the order they were added.
    pub closed spec fn view(&self) -> Seq<(Seq<char>, u64)> {
        self.entries@.map_values(|e: (String, u64)| (e.0@, e.1))
    }

    /// A table with no entry.
    pub fn new() -> (t: NumberTable)
        ensures
            t@ == Seq::<(Seq<char>, u64)>::empty(),
    {
        let t = NumberTable { entries: Vec::new() };
        assert(t@ =~= Seq::<(Seq<char>, u64)>::empty());
        t
    }

    /// Records that the literal `lexeme` denotes the number with bits `bits`.
    pub fn insert(&mut self, lexeme: String, bits: u64)
        ensures
            final(self)@ == old(self)@.push((lexeme@, bits)),
    {
        let ghost l = lexeme@;
        self.entries.push((lexeme, bits));
        assert(self@ =~= old(self)@.push((l, bits)));
    }

    /// The bits recorded first for `lexeme`.
    pub fn lookup(&self, lexeme: &String) -> (r: Option<u64>)
        ensures
            r == number_lookup(self@, lexeme@),
    {
        let mut i: usize = 0;
        assert(self@.skip(0) =~= self@);
        while i < self.entries.len()
            invariant
                i <= self.entries@.len(),
                number_lookup(self@, lexeme@) == number_lookup(self@.skip(i as int), lexeme@),
            decreases self.entries@.len() - i,
        {
            proof {
                assert(self@.skip(i as int)[0] == self@[i as int]);
                assert(self@.skip(i as int).drop_first() =~= self@.skip(i + 1));
            }
            if self.entries[i].0 == *lexeme {
                return Some(self.entries[i].1);
            }
            i = i + 1;
        }
        assert(self@.skip(i as int) =~= Seq::<(Seq<char>, u64)>::empty());
        None
    }
}

/// A local variable the compiler knows of.
pub struct Local {
    name: String,
    depth: usize,
    init: bool,
    is_captured: bool,
}

/// A variable a function captures from an enclosing one.
pub struct CompilerUpvalue {
    pub(crate) index: usize,
    pub(crate) is_local: bool,
}

impl Local {
    /// The name of the variable.
    pub closed spec fn spec_name(&self) -> Seq<char> {
        self.name@
    }

    /// The depth of the scope it was declared in.
    pub closed spec fn spec_depth(&self) -> usize {
        self.depth
    }

    /// Whether its initializer has been compiled.
    pub closed spec fn spec_init(&self) -> bool {
        self.init
    }

    /// Whether a closure captures it.
    pub closed spec fn spec_captured(&self) -> bool {
        self.is_captured
    }

    /// The variable `name` of scope depth `depth`, not yet initialized nor
    /// captured.
    pub closed spec fn fresh(name: String, depth: usize) -> Local {
        Local { name, depth, init: false, is_captured: false }
    }

    /// This variable, initialized.
    pub closed spec fn initialized(self) -> Local {
        Local { name: self.name, depth: self.depth, init: true, is_captured: self.is_captured }
    }

    /// A variable `name` of scope depth `depth`, not yet initialized nor
    /// captured.
    pub fn new(name: String, depth: usize) -> (l: Local)
        ensures
            l == Local::fresh(name, depth),
            l.spec_name() == name@,
            l.spec_depth() == depth,
            !l.spec_init(),
            !l.spec_captured(),
    {
        Local { name, depth, init: false, is_captured: false }
    }

    /// Marks the variable initialized.
    pub fn initialize(&mut self)
        ensures
            *final(self) == old(self).initialized(),
            final(self).spec_init(),
            final(self).spec_name() == old(self).spec_name(),
            final(self).spec_depth() == old(self).spec_depth(),
            final(self).spec_captured() == old(self).spec_captured(),
    {
        self.init = true;
    }

    /// Marks the variable captured by a closure.
    pub fn capture(&mut self)
        ensures
            final(self).spec_captured(),
            final(self).spec_name() == old(self).spec_name(),
            final(self).spec_depth() == old(self).spec_depth(),
            final(self).spec_init() == old(self).spec_init(),
    {
        self.is_captured = true;
    }
}

/// The bytes of instruction `op` with index operand `index`: one operand
/// byte up to 255, else the long form of `op` and three little-endian bytes
/// (of which bits past the 24th are lost).
pub open spec fn operand_instruction(op: OpCode, index: nat) -> Seq<u8> {
    if index > 255 {
        seq![
            op_byte(spec_long(op)),
            (index % 256) as u8,
            ((index / 256) % 256) as u8,
            ((index / 65536) % 256) as u8,
        ]
    } else {
        seq![op_byte(op), index as u8]
    }
}

/// `n` copies of `line`.
pub open spec fn repeat_line(line: u32, n: nat) -> Seq<u32> {
    Seq::new(n, |_i: int| line)
}

/// The index of the last local named `name` among `locals`, if any.
pub open spec fn last_named(locals: Seq<Local>, name: Seq<char>) -> Option<int>
    decreases locals.len(),
{
    if locals.len() == 0 {
        None
    } else if locals.last().spec_name() == name {
        Some(locals.len() - 1)
    } else {
        last_named(locals.drop_last(), name)
    }
}

/// Whether `r` is the internal error for a token of a kind its node does
/// not admit.
pub open spec fn is_invalid_token(r: Result<(), InterpretError>) -> bool {
    r matches Err(InterpretError::Panic(PanicError::InvalidToken(_, _, _)))
}

/// The instruction of a binary operator.
pub open spec fn binary_opcode(t: TokenType) -> Option<OpCode> {
    match t {
        TokenType::Plus => Some(OpCode::Add),
        TokenType::Minus => Some(OpCode::Subtract),
        TokenType::Star => Some(OpCode::Multiply),
        TokenType::Slash => Some(OpCode::Divide),
        TokenType::EqualEqual => Some(OpCode::Equal),
        TokenType::BangEqual => Some(OpCode::NotEqual),
        TokenType::LessThan => Some(OpCode::LessThan),
        TokenType::LessEqual => Some(OpCode::LessEqual),
        TokenType::GreaterThan => Some(OpCode::GreaterThan),
        TokenType::GreaterEqual => Some(OpCode::GreaterEqual),
        _ => None,
    }
}

/// Whether `s` ends with `t`.
pub open spec fn ends_with<A>(s: Seq<A>, t: Seq<A>) -> bool {
    t.len() <= s.len() && s.subrange(s.len() - t.len(), s.len() as int) == t
}

/// The token of an internal error raised for `t` by the visitor `site`.
pub open spec fn invalid_token_error(r: Result<(), InterpretError>, t: Token, site: Seq<char>) -> bool {
    r matches Err(InterpretError::Panic(PanicError::InvalidToken(l, k, m))) && l == t.line && k
        == t.token && m@ == site
}

/// The heap did not change.
pub open spec fn heap_same(h0: Heap, h1: Heap) -> bool {
    h1.objects() == h0.objects() && h1.strings() == h0.strings()
}

/// Whether compiling `x` took compiler `c0` and heap `h0` to `c1` and `h1`
/// with result `res` as `expr_emission` says: to what it gives, or to an
/// error where it gives nothing.
pub open spec fn expr_result(
    c0: Compiler,
    h0: Heap,
    x: Expr,
    c1: Compiler,
    h1: Heap,
    res: Result<(), InterpretError>,
) -> bool {
    expr_emission(locals_view(c0.locals()), c0.numbers(), emission(c0, h0), expr_view(x)) == (
        emission(c1, h1),
        unit_result(res),
    )
}

/// Whether compiling statement `st` took compiler `c0` and heap `h0` to
/// `c1` and `h1` with result `res` as `stmt_progress` says: to where it
/// gives, or to an error where it gives nothing.
pub open spec fn stmt_result(
    c0: Compiler,
    h0: Heap,
    st: Stmt,
    c1: Compiler,
    h1: Heap,
    res: Result<(), InterpretError>,
) -> bool {
    reaches(stmt_progress(c0.numbers(), progress(c0, h0), stmt_view(st)), c1, h1, res)
}

/// The contents of a list of errors.
pub open spec fn errs_view(v: Seq<InterpretError>) -> Seq<crate::syntax::ErrV> {
    v.map_values(|e: InterpretError| err_view(e))
}

/// Whether the scope of depth `depth` already has a local named `name`.
pub open spec fn declared_in_scope(locals: Seq<Local>, depth: usize, name: Seq<char>) -> bool {
    exists|j: int|
        0 <= j < locals.len() && #[trigger] locals[j].spec_depth() == depth && locals[j].spec_name()
            == name
}

/// Whether a local stays when the scope of depth `depth + 1` ends.
pub open spec fn kept_in(depth: usize) -> spec_fn(Local) -> bool {
    |l: Local| l.spec_depth() <= depth
}

/// The last local of a name is one of the locals, and has that name.
pub proof fn lemma_last_named(locals: Seq<Local>, name: Seq<char>)
    ensures
        last_named(locals, name) matches Some(i) ==> 0 <= i < locals.len()
            && locals[i].spec_name() == name,
        last_named(locals, name) is None ==> forall|j: int|
            0 <= j < locals.len() ==> (#[trigger] locals[j]).spec_name() != name,
    decreases locals.len(),
{
    if locals.len() > 0 {
        lemma_last_named(locals.drop_last(), name);
        if last_named(locals, name) is None {
            assert forall|j: int| 0 <= j < locals.len() implies (#[trigger] locals[j]).spec_name() != name by {
                if j < locals.len() - 1 {
                    assert(locals[j] == locals.drop_last()[j]);
                }
            }
        }
    }
}

/// Compiles the statements a parser reads into the code of a `main`
/// function.
pub struct Compiler {
    statements: Parser,
    function: Function,
    function_type: FunctionType,
    /// Depth of nested scopes: 0 is the global scope.
    scope_depth: usize,
    locals: Vec<Local>,
    numbers: NumberTable,
}

impl Compiler {
    /// The code emitted so far.
    pub closed spec fn code(&self) -> Seq<u8> {
        self.function.chunk.code@
    }

    /// The source line of every byte emitted so far.
    pub closed spec fn lines(&self) -> Seq<u32> {
        self.function.chunk.line_of()
    }

    /// The constant pool so far.
    pub closed spec fn constants(&self) -> Seq<Value> {
        self.function.chunk.constants@
    }

    /// The depth of the current scope.
    pub closed spec fn depth(&self) -> usize {
        self.scope_depth
    }

    /// The local variables, innermost last.
    pub closed spec fn locals(&self) -> Seq<Local> {
        self.locals@
    }

    /// The kind of function being compiled.
    pub closed spec fn kind(&self) -> FunctionType {
        self.function_type
    }

    /// The name of the function being compiled.
    pub closed spec fn function_name(&self) -> Seq<char> {
        self.function.name@
    }

    /// The number of parameters of the function being compiled.
    pub closed spec fn function_arity(&self) -> u8 {
        self.function.arity
    }

    /// The number literals' values.
    pub closed spec fn numbers(&self) -> Seq<(Seq<char>, u64)> {
        self.numbers@
    }

    /// The parser and the chunk keep their invariants, and no local is
    /// deeper than the current scope.
    pub closed spec fn wf(&self) -> bool {
        &&& self.statements.wf()
        &&& self.function.chunk.wf()
        &&& forall|i: int|
            0 <= i < self.locals@.len() ==> (#[trigger] self.locals@[i]).spec_depth()
                <= self.scope_depth
    }

    /// A compiler of the statements of `statements` into a function `main`,
    /// which reads number literals from `numbers`. Slot 0 of the stack is
    /// reserved for the function being run.
    pub fn new(statements: Parser, numbers: NumberTable) -> (c: Compiler)
        requires
            statements.wf(),
        ensures
            c.wf(),
            c.code() == Seq::<u8>::empty(),
            c.constants() == Seq::<Value>::empty(),
            c.depth() == 0,
            c.kind() == FunctionType::Main,
            c.locals().len() == 1,
            c.locals()[0].spec_name() == Seq::<char>::empty(),
            c.locals()[0].spec_depth() == 0,
            c.numbers() == numbers@,
            c.function_name() == "main"@,
            c.function_arity() == 0,
    {
        let mut locals: Vec<Local> = Vec::new();
        locals.push(Local::new(String::new(), 0));
        Compiler {
            statements,
            function: Function::new(String::from_str("main"), 0),
            function_type: FunctionType::Main,
            scope_depth: 0,
            locals,
            numbers,
        }
    }

    /// The number of bytes emitted so far.
    fn get_code_length(&self) -> (n: usize)
        ensures
            n == self.code().len(),
            n <= isize::MAX,
    {
        byte_len(&self.function.chunk.code)
    }

    /// Appends one byte read from line `line`.
    fn emit_byte(&mut self, byte: u8, line: u32)
        requires
            old(self).wf(),
        ensures
            final(self).wf(),
            final(self).code() == old(self).code().push(byte),
            final(self).lines() == old(self).lines().push(line),
            final(self).constants() == old(self).constants(),
            final(self).depth() == old(self).depth(),
            final(self).locals() == old(self).locals(),
            final(self).kind() == old(self).kind(),
            final(self).numbers() == old(self).numbers(),
            final(self).function_name() == old(self).function_name(),
            final(self).function_arity() == old(self).function_arity(),
            final(self).statements == old(self).statements,
    {
        self.function.chunk.write_byte(byte, line);
    }

    /// Emits `op` with operand `index`: one byte up to 255, else the long
    /// form of `op` with three bytes.
    pub fn emit_operand_instruction(&mut self, op: OpCode, index: usize, line: u32)
        requires
            old(self).wf(),
        ensures
            final(self).wf(),
            final(self).code() == old(self).code() + operand_instruction(op, index as nat),
            final(self).lines() == old(self).lines() + repeat_line(
                line,
                operand_instruction(op, index as nat).len(),
            ),
            final(self).constants() == old(self).constants(),
            final(self).depth() == old(self).depth(),
            final(self).locals() == old(self).locals(),
            final(self).kind() == old(self).kind(),
            final(self).numbers() == old(self).numbers(),
            final(self).function_name() == old(self).function_name(),
            final(self).function_arity() == old(self).function_arity(),
            final(self).parser_view() == old(self).parser_view(),
    {
        if index > 255 {
            let long = op.to_long();
            self.emit_byte(long.to_byte(), line);
            self.emit_byte((index & 255) as u8, line);
            self.emit_byte(((index >> 8) & 255) as u8, line);
            self.emit_byte(((index >> 16) & 255) as u8, line);
            proof {
                assert((index & 255) == index % 256) by (bit_vector);
                assert(((index >> 8) & 255) == (index / 256) % 256) by (bit_vector);
                assert(((index >> 16) & 255) == (index / 65536) % 256) by (bit_vector);
            }
            assert(self.code() =~= old(self).code() + operand_instruction(op, index as nat));
            assert(self.lines() =~= old(self).lines() + repeat_line(line, 4));
        } else {
            self.emit_byte(op.to_byte(), line);
            self.emit_byte(index as u8, line);
            assert(self.code() =~= old(self).code() + operand_instruction(op, index as nat));
            assert(self.lines() =~= old(self).lines() + repeat_line(line, 2));
        }
    }

    /// Adds `operand` to the constant pool and emits `op` with its index.
    fn emit_constant_instruction(&mut self, op: OpCode, operand: Value, line: u32)
        requires
            old(self).wf(),
        ensures
            final(self).wf(),
            final(self).constants() == old(self).constants().push(operand),
            final(self).code() == old(self).code() + operand_instruction(
                op,
                old(self).constants().len(),
            ),
            final(self).lines() == old(self).lines() + repeat_line(
                line,
                operand_instruction(op, old(self).constants().len()).len(),
            ),
            final(self).depth() == old(self).depth(),
            final(self).locals() == old(self).locals(),
            final(self).kind() == old(self).kind(),
            final(self).numbers() == old(self).numbers(),
            final(self).function_name() == old(self).function_name(),
            final(self).function_arity() == old(self).function_arity(),
            final(self).statements == old(self).statements,
    {
        let constant_idx = self.function.chunk.add_constant(operand);
        self.emit_operand_instruction(op, constant_idx, line);
    }

    /// Emits jump `op` with a two-byte placeholder and returns the position
    /// of the placeholder.
    pub fn emit_jump_instruction(&mut self, op: OpCode, line: u32) -> (offset: usize)
        requires
            old(self).wf(),
        ensures
            final(self).wf(),
            final(self).code() == old(self).code() + seq![
                op_byte(op),
                op_byte(OpCode::Nop),
                op_byte(OpCode::Nop),
            ],
            final(self).lines() == old(self).lines() + repeat_line(line, 3),
            offset == old(self).code().len() + 1,
            final(self).constants() == old(self).constants(),
            final(self).depth() == old(self).depth(),
            final(self).locals() == old(self).locals(),
            final(self).kind() == old(self).kind(),
            final(self).numbers() == old(self).numbers(),
            final(self).function_name() == old(self).function_name(),
            final(self).function_arity() == old(self).function_arity(),
            final(self).parser_view() == old(self).parser_view(),
    {
        self.emit_byte(op.to_byte(), line);
        self.emit_byte(OpCode::Nop.to_byte(), line);
        self.emit_byte(OpCode::Nop.to_byte(), line);
        assert(self.code() =~= old(self).code() + seq![
            op_byte(op),
            op_byte(OpCode::Nop),
            op_byte(OpCode::Nop),
        ]);
        assert(self.lines() =~= old(self).lines() + repeat_line(line, 3));
        self.get_code_length() - 2
    }

    /// Writes into the placeholder at `offset` the distance from the end of
    /// the placeholder to the end of the code, so that the jump lands there;
    /// `LargeJump` if the distance does not fit in two bytes.
    pub fn patch_jump_instruction(&mut self, offset: usize, line: u32) -> (res: Result<(), InterpretError>)
        requires
            old(self).wf(),
            1 <= offset,
            offset + 2 <= old(self).code().len(),
        ensures
            final(self).wf(),
            ({
                let distance = old(self).code().len() - offset - 2;
                &&& distance > 65535 ==> res == Err::<(), InterpretError>(
                    InterpretError::Compile(CompileError::LargeJump(line, distance as usize)),
                ) && final(self).code() == old(self).code()
                &&& distance <= 65535 ==> res is Ok && final(self).code() == old(self).code().update(
                    offset as int,
                    (distance % 256) as u8,
                ).update(offset + 1, (distance / 256) as u8)
            }),
            res is Ok ==> offset + 2 + operand_value(final(self).code(), offset - 1, 2)
                == final(self).code().len(),
            final(self).code().len() == old(self).code().len(),
            final(self).lines() == old(self).lines(),
            final(self).constants() == old(self).constants(),
            final(self).depth() == old(self).depth(),
            final(self).locals() == old(self).locals(),
            final(self).kind() == old(self).kind(),
            final(self).numbers() == old(self).numbers(),
            final(self).function_name() == old(self).function_name(),
            final(self).function_arity() == old(self).function_arity(),
            final(self).parser_view() == old(self).parser_view(),
    {
        let jump_distance = self.function.chunk.code.len() - offset - 2;
        if jump_distance > 65535 {
            return Err(InterpretError::Compile(CompileError::LargeJump(line, jump_distance)));
        }
        self.function.chunk.code.set(offset, (jump_distance & 255) as u8);
        self.function.chunk.code.set(offset + 1, ((jump_distance >> 8) & 255) as u8);
        proof {
            assert((jump_distance & 255) == jump_distance % 256) by (bit_vector);
            assert(jump_distance <= 65535 ==> ((jump_distance >> 8) & 255) == jump_distance / 256)
                by (bit_vector);
        }
        Ok(())
    }

    /// Emits a backward jump to `loop_start`; `LargeJump` (after the `Loop`
    /// byte) if the distance does not fit in two bytes.
    fn emit_loop_instruction(&mut self, loop_start: usize, line: u32) -> (res: Result<(), InterpretError>)
        requires
            old(self).wf(),
            loop_start <= old(self).code().len(),
        ensures
            final(self).wf(),
            ({
                let pos = old(self).code().len() as int;
                let distance = pos + 1 - loop_start + 2;
                &&& distance > 65535 ==> res == Err::<(), InterpretError>(
                    InterpretError::Compile(CompileError::LargeJump(line, distance as usize)),
                ) && final(self).code() == old(self).code().push(op_byte(OpCode::Loop))
                    && final(self).lines() == old(self).lines().push(line)
                &&& distance <= 65535 ==> res is Ok && final(self).code() == old(self).code()
                    + seq![op_byte(OpCode::Loop), (distance % 256) as u8, (distance / 256) as u8]
                    && final(self).lines() == old(self).lines() + repeat_line(line, 3)
                &&& res is Ok ==> pos + 3 - operand_value(final(self).code(), pos, 2)
                    == loop_start
            }),
            final(self).constants() == old(self).constants(),
            final(self).depth() == old(self).depth(),
            final(self).locals() == old(self).locals(),
            final(self).kind() == old(self).kind(),
            final(self).numbers() == old(self).numbers(),
            final(self).function_name() == old(self).function_name(),
            final(self).function_arity() == old(self).function_arity(),
            final(self).statements == old(self).statements,
    {
        self.emit_byte(OpCode::Loop.to_byte(), line);
        let jump_distance = self.get_code_length() - loop_start + 2;
        if jump_distance > 65535 {
            return Err(InterpretError::Compile(CompileError::LargeJump(line, jump_distance)));
        }
        self.emit_byte((jump_distance & 255) as u8, line);
        self.emit_byte(((jump_distance >> 8) & 255) as u8, line);
        proof {
            assert((jump_distance & 255) == jump_distance % 256) by (bit_vector);
            assert(jump_distance <= 65535 ==> ((jump_distance >> 8) & 255) == jump_distance / 256)
                by (bit_vector);
        }
        assert(self.code() =~= old(self).code() + seq![
            op_byte(OpCode::Loop),
            (jump_distance % 256) as u8,
            (jump_distance / 256) as u8,
        ]);
        assert(self.lines() =~= old(self).lines() + repeat_line(line, 3));
        Ok(())
    }

    /// Enters a nested scope.
    fn begin_scope(&mut self)
        requires
            old(self).wf(),
            old(self).depth() < usize::MAX,
        ensures
            final(self).wf(),
            final(self).depth() == old(self).depth() + 1,
            final(self).code() == old(self).code(),
            final(self).lines() == old(self).lines(),
            final(self).constants() == old(self).constants(),
            final(self).locals() == old(self).locals(),
            final(self).kind() == old(self).kind(),
            final(self).numbers() == old(self).numbers(),
            final(self).function_name() == old(self).function_name(),
            final(self).function_arity() == old(self).function_arity(),
            final(self).statements == old(self).statements,
    {
        self.scope_depth = self.scope_depth + 1;
    }

    /// Leaves the current scope: drops the locals declared in it, in order,
    /// and emits one `Pop` (on line 0) for each.
    fn end_scope(&mut self)
        requires
            old(self).wf(),
            old(self).depth() > 0,
        ensures
            final(self).wf(),
            final(self).depth() == old(self).depth() - 1,
            final(self).locals() == old(self).locals().filter(kept_in(final(self).depth())),
            locals_view(final(self).locals()) == locals_view(old(self).locals()).filter(
                stays(final(self).depth()),
            ),
            final(self).code() == old(self).code() + Seq::new(
                (old(self).locals().len() - final(self).locals().len()) as nat,
                |_i: int| op_byte(OpCode::Pop),
            ),
            final(self).lines() == old(self).lines() + repeat_line(
                0,
                (old(self).locals().len() - final(self).locals().len()) as nat,
            ),
            final(self).constants() == old(self).constants(),
            final(self).kind() == old(self).kind(),
            final(self).numbers() == old(self).numbers(),
            final(self).function_name() == old(self).function_name(),
            final(self).function_arity() == old(self).function_arity(),
            final(self).statements == old(self).statements,
    {
        self.scope_depth = self.scope_depth - 1;
        let ghost d = self.scope_depth;
        proof {
            lemma_filter_view(old(self).locals(), d);
        }
        let mut scoped: Vec<Local> = Vec::new();
        std::mem::swap(&mut scoped, &mut self.locals);
        let mut to_remove: usize = 0;
        let ghost all = scoped@;
        let count = scoped.len();
        assert(all.len() == count);
        assert(all.take(0).filter(kept_in(d)) =~= Seq::<Local>::empty()) by {
            reveal(Seq::filter);
        }
        for l in it: scoped
            invariant
                self.wf(),
                self.scope_depth == d,
                d == old(self).depth() - 1,
                it.seq() == all,
                it.index() <= all.len(),
                all.len() <= usize::MAX,
                all == old(self).locals(),
                self.locals@ == all.take(it.index() as int).filter(kept_in(d)),
                to_remove + self.locals@.len() == it.index(),
                self.code() == old(self).code(),
                self.lines() == old(self).lines(),
                self.constants() == old(self).constants(),
                self.function_type == old(self).function_type,
                self.numbers@ == old(self).numbers@,
                self.function.name@ == old(self).function.name@,
                self.function.arity == old(self).function.arity,
                self.statements == old(self).statements,
        {
            proof {
                reveal(Seq::filter);
                assert(it.index() < all.len());
                assert(all[it.index() as int] == l);
                assert(all.take(it.index() + 1).drop_last() =~= all.take(it.index() as int));
                assert(all.take(it.index() + 1).last() == l);
            }
            let ghost before = all.take(it.index() as int);
            let ghost after = all.take(it.index() + 1);
            assert(after.len() > 0 && after.last() == l && after.drop_last() == before);
            if l.depth > self.scope_depth {
                assert(!kept_in(d)(l));
                assert(after.filter(kept_in(d)) == before.filter(kept_in(d)));
                to_remove = to_remove + 1;
            } else {
                assert(kept_in(d)(l));
                assert(after.filter(kept_in(d)) == before.filter(kept_in(d)).push(l));
                self.locals.push(l);
            }
        }
        assert(all.take(all.len() as int) =~= all);
        let ghost mid_code = self.code();
        let ghost mid_lines = self.lines();
        let mut k: usize = 0;
        while k < to_remove
            invariant
                self.wf(),
                k <= to_remove,
                to_remove + self.locals@.len() == all.len(),
                all.len() == old(self).locals().len(),
                self.code() == mid_code + Seq::new(k as nat, |_i: int| op_byte(OpCode::Pop)),
                self.lines() == mid_lines + repeat_line(0, k as nat),
                self.scope_depth == d,
                self.locals@ == old(self).locals().filter(kept_in(d)),
                mid_code == old(self).code(),
                mid_lines == old(self).lines(),
                self.constants() == old(self).constants(),
                self.function_type == old(self).function_type,
                self.numbers@ == old(self).numbers@,
                self.function.name@ == old(self).function.name@,
                self.function.arity == old(self).function.arity,
                self.statements == old(self).statements,
            decreases to_remove - k,
        {
            self.emit_byte(OpCode::Pop.to_byte(), 0);
            assert(self.code() =~= mid_code + Seq::new((k + 1) as nat, |_i: int| op_byte(OpCode::Pop)));
            assert(self.lines() =~= mid_lines + repeat_line(0, (k + 1) as nat));
            k = k + 1;
        }
    }

    /// Declares a local `name` in the current scope; nothing at the global
    /// scope, and `AlreadyDeclared` if the scope has a local of that name.
    fn declare_local(&mut self, name: String, line: u32) -> (res: Result<(), InterpretError>)
        requires
            old(self).wf(),
        ensures
            res is Ok <==> (old(self).depth() == 0 || !declared_at(
                locals_view(old(self).locals()),
                old(self).depth(),
                name@,
            )),
            locals_view(final(self).locals()) == (if old(self).depth() > 0 && !declared_at(
                locals_view(old(self).locals()),
                old(self).depth(),
                name@,
            ) {
                locals_view(old(self).locals()).push(
                    LocalV { name: name@, depth: old(self).depth(), init: false },
                )
            } else {
                locals_view(old(self).locals())
            }),
            final(self).wf(),
            old(self).depth() == 0 ==> res is Ok && final(self).locals() == old(self).locals(),
            old(self).depth() > 0 && declared_in_scope(old(self).locals(), old(self).depth(), name@)
                ==> final(self).locals() == old(self).locals() && (res matches Err(
                InterpretError::Compile(CompileError::AlreadyDeclared(l, n)),
            ) && l == line && n@ == name@),
            old(self).depth() > 0 && !declared_in_scope(old(self).locals(), old(self).depth(), name@)
                ==> res is Ok && final(self).locals() == old(self).locals().push(
                Local::fresh(name, old(self).depth()),
            ) && final(self).locals().drop_last() == old(self).locals()
                && final(self).locals().len() == old(self).locals().len() + 1
                && final(self).locals().last().spec_name() == name@
                && final(self).locals().last().spec_depth() == old(self).depth()
                && !final(self).locals().last().spec_init()
                && !final(self).locals().last().spec_captured(),
            final(self).code() == old(self).code(),
            final(self).lines() == old(self).lines(),
            final(self).constants() == old(self).constants(),
            final(self).depth() == old(self).depth(),
            final(self).kind() == old(self).kind(),
            final(self).numbers() == old(self).numbers(),
            final(self).function_name() == old(self).function_name(),
            final(self).function_arity() == old(self).function_arity(),
            final(self).statements == old(self).statements,
    {
        proof {
            lemma_declared_view(old(self).locals(), old(self).depth(), name@);
            lemma_fresh_view(name, old(self).depth());
        }
        if self.scope_depth == 0 {
            return Ok(());
        }
        let mut i: usize = 0;
        while i < self.locals.len()
            invariant
                i <= self.locals@.len(),
                *self == *old(self),
                self.wf(),
                self.scope_depth > 0,
                forall|j: int|
                    0 <= j < i ==> !(#[trigger] self.locals@[j].spec_depth() == self.scope_depth
                        && self.locals@[j].spec_name() == name@),
            decreases self.locals@.len() - i,
        {
            proof {
                lemma_declared_view(old(self).locals(), old(self).depth(), name@);
            }
            if self.locals[i].depth == self.scope_depth && self.locals[i].name == name {
                assert(self.locals@[i as int].spec_depth() == self.scope_depth
                    && self.locals@[i as int].spec_name() == name@);
                return Err(InterpretError::Compile(CompileError::AlreadyDeclared(line, name)));
            }
            i = i + 1;
        }
        let depth = self.scope_depth;
        let ghost n = name;
        self.locals.push(Local::new(name, depth));
        assert(self.locals@ =~= old(self).locals().push(Local::fresh(n, depth)));
        assert(self.locals@.drop_last() =~= old(self).locals());
        assert(locals_view(self.locals@) =~= locals_view(old(self).locals()).push(
            LocalV { name: n@, depth, init: false },
        ));
        Ok(())
    }

    /// Marks the innermost local initialized; nothing at the global scope.
    fn define_local(&mut self)
        requires
            old(self).wf(),
            old(self).depth() > 0 ==> old(self).locals().len() > 0,
        ensures
            locals_view(final(self).locals()) == (if old(self).depth() > 0 {
                locals_view(old(self).locals()).update(
                    old(self).locals().len() - 1,
                    LocalV {
                        name: locals_view(old(self).locals()).last().name,
                        depth: locals_view(old(self).locals()).last().depth,
                        init: true,
                    },
                )
            } else {
                locals_view(old(self).locals())
            }),
            final(self).wf(),
            old(self).depth() == 0 ==> final(self).locals() == old(self).locals(),
            old(self).depth() > 0 ==> {
                let n = old(self).locals().len() - 1;
                &&& final(self).locals() == old(self).locals().update(n, old(self).locals()[n].initialized())
                &&& final(self).locals().len() == old(self).locals().len()
                &&& final(self).locals().drop_last() == old(self).locals().drop_last()
                &&& final(self).locals()[n].spec_init()
                &&& final(self).locals()[n].spec_name() == old(self).locals()[n].spec_name()
                &&& final(self).locals()[n].spec_depth() == old(self).locals()[n].spec_depth()
                &&& final(self).locals()[n].spec_captured() == old(self).locals()[n].spec_captured()
            },
            final(self).code() == old(self).code(),
            final(self).lines() == old(self).lines(),
            final(self).constants() == old(self).constants(),
            final(self).depth() == old(self).depth(),
            final(self).kind() == old(self).kind(),
            final(self).numbers() == old(self).numbers(),
            final(self).function_name() == old(self).function_name(),
            final(self).function_arity() == old(self).function_arity(),
            final(self).statements == old(self).statements,
    {
        if self.scope_depth == 0 {
            return ;
        }
        let last = self.locals.len() - 1;
        let mut local = self.locals.pop().unwrap();
        local.initialize();
        self.locals.push(local);
        assert(self.locals@.drop_last() =~= old(self).locals().drop_last());
        assert(self.locals@ =~= old(self).locals().update(last as int, old(self).locals()[last as int].initialized()));
        proof {
            lemma_initialized_view(old(self).locals()[last as int]);
            assert(locals_view(self.locals@) =~= locals_view(old(self).locals()).update(
                last as int,
                LocalV {
                    name: locals_view(old(self).locals()).last().name,
                    depth: locals_view(old(self).locals()).last().depth,
                    init: true,
                },
            ));
        }
    }

    /// The stack slot of the innermost local named `name`: `None` if there
    /// is none, `SelfInitialization` if it is not initialized yet.
    fn resolve_local(&self, name: &String, line: u32) -> (res: Result<Option<usize>, InterpretError>)
        ensures
            last_local(locals_view(self.locals()), name@) is None ==> res == Ok::<Option<usize>, InterpretError>(
                None,
            ),
            last_local(locals_view(self.locals()), name@) matches Some(i) ==> (if locals_view(self.locals())[i].init {
                (res matches Ok(Some(k)) && k == i)
            } else {
                res == Err::<Option<usize>, InterpretError>(
                    InterpretError::Compile(CompileError::SelfInitialization(line)),
                )
            }),
            last_named(self.locals(), name@) is None ==> res == Ok::<Option<usize>, InterpretError>(
                None,
            ),
            last_named(self.locals(), name@) matches Some(i) ==> (if self.locals()[i].spec_init() {
                (res matches Ok(Some(k)) && k == i)
            } else {
                res == Err::<Option<usize>, InterpretError>(
                    InterpretError::Compile(CompileError::SelfInitialization(line)),
                )
            }),
    {
        proof {
            lemma_last_local_view(self.locals(), name@);
            lemma_last_named(self.locals(), name@);
        }
        let mut i: usize = self.locals.len();
        assert(self.locals@.take(i as int) =~= self.locals@);
        while i > 0
            invariant
                i <= self.locals@.len(),
                last_named(self.locals@, name@) == last_named(self.locals@.take(i as int), name@),
            decreases i,
        {
            let ghost prefix = self.locals@.take(i as int);
            assert(prefix.drop_last() =~= self.locals@.take(i - 1));
            proof {
                lemma_last_local_view(self.locals(), name@);
                lemma_last_named(self.locals(), name@);
            }
            if self.locals[i - 1].name == *name {
                if !self.locals[i - 1].init {
                    return Err(InterpretError::Compile(CompileError::SelfInitialization(line)));
                }
                return Ok(Some(i - 1));
            }
            i = i - 1;
        }
        assert(self.locals@.take(0) =~= Seq::<Local>::empty());
        Ok(None)
    }

    /// The compiler state did not change.
    pub open spec fn same_as(&self, before: Compiler) -> bool {
        &&& self.code() == before.code()
        &&& self.lines() == before.lines()
        &&& self.constants() == before.constants()
        &&& self.depth() == before.depth()
        &&& self.locals() == before.locals()
        &&& self.kind() == before.kind()
        &&& self.numbers() == before.numbers()
        &&& self.function_name() == before.function_name()
        &&& self.function_arity() == before.function_arity()
        &&& self.parser_view() == before.parser_view()
    }

    /// The parser the statements come from.
    pub closed spec fn parser_view(&self) -> Parser {
        self.statements
    }

    /// What compiling a part of a function keeps: the invariants hold; the
    /// code, the line table and the constant pool only grow at their ends;
    /// the scopes, locals, function kind, number table and parser stay.
    pub open spec fn grows_from(&self, before: Compiler) -> bool {
        &&& self.wf()
        &&& before.code().is_prefix_of(self.code())
        &&& before.lines().is_prefix_of(self.lines())
        &&& before.constants().is_prefix_of(self.constants())
        &&& self.depth() == before.depth()
        &&& self.locals() == before.locals()
        &&& self.kind() == before.kind()
        &&& self.numbers() == before.numbers()
        &&& self.function_name() == before.function_name()
        &&& self.function_arity() == before.function_arity()
        &&& self.parser_view() == before.parser_view()
    }

    /// `self` is `before` with constant `v` added to the pool and loaded by
    /// instruction `op`, on line `line`.
    pub open spec fn emitted_constant(&self, before: Compiler, op: OpCode, v: Value, line: u32) -> bool {
        &&& self.wf()
        &&& self.constants() == before.constants().push(v)
        &&& self.code() == before.code() + operand_instruction(op, before.constants().len())
        &&& self.lines() == before.lines() + repeat_line(
            line,
            operand_instruction(op, before.constants().len()).len(),
        )
        &&& self.depth() == before.depth()
        &&& self.locals() == before.locals()
        &&& self.kind() == before.kind()
        &&& self.numbers() == before.numbers()
        &&& self.function_name() == before.function_name()
        &&& self.function_arity() == before.function_arity()
        &&& self.parser_view() == before.parser_view()
    }

    /// Compiles an expression: code that leaves its value on the stack.
    fn compile_expr(&mut self, heap: &mut Heap, e: &Expr) -> (res: Result<(), InterpretError>)
        requires
            old(self).wf(),
            old(heap).wf(),
        ensures
            final(self).grows_from(*old(self)),
            heap_grows(*old(heap), *final(heap)),
            wf_expr(*e) ==> !is_invalid_token(res),
            expr_result(*old(self), *old(heap), *e, *final(self), *final(heap), res),
        decreases expr_size(*e), 1int,
    {
        match e {
            Expr::Literal(t) => self.compile_literal(heap, t),
            Expr::Unary(op, x) => self.compile_unary(heap, op, x),
            Expr::Binary(op, l, r) => self.compile_binary(heap, op, l, r),
            Expr::Grouping(x) => self.compile_expr(heap, x),
            Expr::Variable(t) => self.compile_variable(heap, t),
            Expr::Assign(t, x) => self.compile_assignment(heap, t, x),
            Expr::And(t, l, r) => self.compile_and(heap, t, l, r),
            Expr::Or(t, l, r) => self.compile_or(heap, t, l, r),
            Expr::Call(c, args, closing) => self.compile_call(heap, c, args, closing),
            _ => {
                proof {
                    lemma_same_grows(*old(self), *self);
                }
                Err(InterpretError::UnImplemented)
            },
        }
    }

    /// A literal: its value loaded from the constant pool. A number's value
    /// comes from the number table, a string is interned without its quotes.
    fn compile_literal(&mut self, heap: &mut Heap, token: &Token) -> (res: Result<(), InterpretError>)
        requires
            old(self).wf(),
            old(heap).wf(),
        ensures
            final(self).grows_from(*old(self)),
            heap_grows(*old(heap), *final(heap)),
            token.token == TokenType::Number ==> match number_lookup(
                old(self).numbers(),
                token.lexeme@,
            ) {
                Some(b) => res is Ok && final(self).emitted_constant(
                    *old(self),
                    OpCode::LoadConstant,
                    final(self).constants().last(),
                    token.line,
                ) && final(self).constants().last().spec_bits() == b && heap_same(
                    *old(heap),
                    *final(heap),
                ),
                None => (res matches Err(InterpretError::Panic(PanicError::General(l, _))) && l
                    == token.line) && final(self).same_as(*old(self)) && heap_same(
                    *old(heap),
                    *final(heap),
                ),
            },
            token.token == TokenType::True || token.token == TokenType::False || token.token
                == TokenType::Nil ==> res is Ok && final(self).emitted_constant(
                *old(self),
                OpCode::LoadConstant,
                final(self).constants().last(),
                token.line,
            ) && final(self).constants().last().spec_bits() == (if token.token == TokenType::Nil {
                nil_bits()
            } else {
                boolean_bits(token.token == TokenType::True)
            }) && heap_same(*old(heap), *final(heap)),
            token.token == TokenType::String ==> res is Ok && final(self).emitted_constant(
                *old(self),
                OpCode::LoadConstant,
                final(self).constants().last(),
                token.line,
            ) && str_pushed(
                *old(heap),
                without_quotes(token.lexeme@),
                *final(heap),
                final(self).constants().last(),
            ),
            !is_literal_kind(token.token) ==> invalid_token_error(
                res,
                *token,
                "<compiler.visit_literal>"@,
            ) && final(self).same_as(*old(self)) && heap_same(*old(heap), *final(heap)),
            literal_emission(old(self).numbers(), emission(*old(self), *old(heap)), tok_view(*token)) == (
                emission(*final(self), *final(heap)),
                unit_result(res),
            ),
    {
        match token.token {
            TokenType::Number => {
                match self.numbers.lookup(&token.lexeme) {
                    Some(bits) => {
                        let v = Value::from_bits(bits);
                        self.emit_constant_instruction(OpCode::LoadConstant, v, token.line);
                        proof {
                            lemma_emitted_grows(*old(self), *self, OpCode::LoadConstant, v, token.line);
                        }
                        Ok(())
                    },
                    None => {
                        proof {
                            lemma_same_grows(*old(self), *self);
                        }
                        Err(
                        InterpretError::Panic(
                            PanicError::General(
                                token.line,
                                String::from_str("number literal without a value"),
                            ),
                        ),
                    )
                    },
                }
            },
            TokenType::True => {
                let v = Value::boolean(true);
                self.emit_constant_instruction(OpCode::LoadConstant, v, token.line);
                proof {
                    lemma_emitted_grows(*old(self), *self, OpCode::LoadConstant, v, token.line);
                }
                Ok(())
            },
            TokenType::False => {
                let v = Value::boolean(false);
                self.emit_constant_instruction(OpCode::LoadConstant, v, token.line);
                proof {
                    lemma_emitted_grows(*old(self), *self, OpCode::LoadConstant, v, token.line);
                }
                Ok(())
            },
            TokenType::Nil => {
                let v = Value::nil();
                self.emit_constant_instruction(OpCode::LoadConstant, v, token.line);
                proof {
                    lemma_emitted_grows(*old(self), *self, OpCode::LoadConstant, v, token.line);
                }
                Ok(())
            },
            TokenType::String => {
                let object_idx = heap.push_str(strip_quotes(token.lexeme.as_str()));
                proof {
                    lemma_str_pushed_grows(*old(heap), *heap, without_quotes(token.lexeme@), object_idx);
                    lemma_str_emission(*old(self), *old(heap), *heap, without_quotes(token.lexeme@), object_idx);
                }
                self.emit_constant_instruction(OpCode::LoadConstant, object_idx, token.line);
                proof {
                    lemma_emitted_grows(*old(self), *self, OpCode::LoadConstant, object_idx, token.line);
                }
                Ok(())
            },
            _ => {
                proof {
                    lemma_same_grows(*old(self), *self);
                }
                Err(
                InterpretError::Panic(
                    PanicError::InvalidToken(
                        token.line,
                        token.token,
                        String::from_str("<compiler.visit_literal>"),
                    ),
                ),
            )
            },
        }
    }

    /// `-x` or `!x`: the operand, then `Negate` or `Not`.
    fn compile_unary(&mut self, heap: &mut Heap, operator: &Token, expr: &Expr) -> (res: Result<(), InterpretError>)
        requires
            old(self).wf(),
            old(heap).wf(),
        ensures
            final(self).grows_from(*old(self)),
            heap_grows(*old(heap), *final(heap)),
            is_unary_kind(operator.token) ==> (wf_expr(*expr) ==> !is_invalid_token(res)) && (
            res is Ok ==> final(self).code().len() > old(self).code().len() && final(self).code().last() == op_byte(
                if operator.token == TokenType::Minus {
                    OpCode::Negate
                } else {
                    OpCode::Not
                },
            ) && final(self).lines().last() == operator.line),
            !is_unary_kind(operator.token) ==> invalid_token_error(
                res,
                *operator,
                "<compiler.visit_unary>"@,
            ) && final(self).same_as(*old(self)) && heap_same(*old(heap), *final(heap)),
            expr_result(
                *old(self),
                *old(heap),
                Expr::Unary(*operator, Box::new(*expr)),
                *final(self),
                *final(heap),
                res,
            ),
        decreases 1 + expr_size(*expr), 0int,
    {
        let code = if operator.token == TokenType::Minus {
            OpCode::Negate
        } else if operator.token == TokenType::Bang {
            OpCode::Not
        } else {
            proof {
                lemma_same_grows(*old(self), *self);
            }
            return Err(
                InterpretError::Panic(
                    PanicError::InvalidToken(
                        operator.line,
                        operator.token,
                        String::from_str("<compiler.visit_unary>"),
                    ),
                ),
            );
        };
        self.compile_expr(heap, expr)?;
        let ghost mid = *self;
        self.emit_byte(code.to_byte(), operator.line);
        proof {
            lemma_push_grows(*old(self), mid, *self, op_byte(code), operator.line);
            lemma_put_byte(mid, *heap, *self, *heap, op_byte(code), operator.line);
        }
        Ok(())
    }

    /// `l op r`: both operands, then the operator's instruction.
    fn compile_binary(&mut self, heap: &mut Heap, operator: &Token, left: &Expr, right: &Expr) -> (res: Result<(), InterpretError>)
        requires
            old(self).wf(),
            old(heap).wf(),
        ensures
            final(self).grows_from(*old(self)),
            heap_grows(*old(heap), *final(heap)),
            binary_opcode(operator.token) matches Some(op) ==> (wf_expr(*left) && wf_expr(*right)
                ==> !is_invalid_token(res)) && (res is Ok ==> final(self).code().len() > old(self).code().len() && final(self).code().last() == op_byte(op) && final(self).lines().last() == operator.line),
            binary_opcode(operator.token) is None ==> invalid_token_error(
                res,
                *operator,
                "<compiler.visit_binary>"@,
            ) && final(self).same_as(*old(self)) && heap_same(*old(heap), *final(heap)),
            expr_result(
                *old(self),
                *old(heap),
                Expr::Binary(*operator, Box::new(*left), Box::new(*right)),
                *final(self),
                *final(heap),
                res,
            ),
        decreases 1 + expr_size(*left) + expr_size(*right), 0int,
    {
        let opcode = match binary_instruction(operator.token) {
            Some(op) => op,
            None => {
                proof {
                    lemma_same_grows(*old(self), *self);
                }
                return Err(
                    InterpretError::Panic(
                        PanicError::InvalidToken(
                            operator.line,
                            operator.token,
                            String::from_str("<compiler.visit_binary>"),
                        ),
                    ),
                );
            },
        };
        self.compile_expr(heap, left)?;
        let ghost c1 = *self;
        let ghost h1 = *heap;
        let r = self.compile_expr(heap, right);
        let ghost mid = *self;
        proof {
            lemma_grows_trans(*old(self), c1, mid);
            lemma_heap_grows_trans(*old(heap), h1, *heap);
        }
        r?;
        self.emit_byte(opcode.to_byte(), operator.line);
        proof {
            lemma_push_grows(*old(self), mid, *self, op_byte(opcode), operator.line);
            lemma_put_byte(mid, *heap, *self, *heap, op_byte(opcode), operator.line);
        }
        Ok(())
    }

    /// A variable read: `GetLocal` with its slot if it is a local, else
    /// `GetGlobal` with its interned name.
    fn compile_variable(&mut self, heap: &mut Heap, id: &Token) -> (res: Result<(), InterpretError>)
        requires
            old(self).wf(),
            old(heap).wf(),
        ensures
            final(self).grows_from(*old(self)),
            heap_grows(*old(heap), *final(heap)),
            !is_invalid_token(res),
            match last_named(old(self).locals(), id.lexeme@) {
                None => res is Ok && final(self).emitted_constant(
                    *old(self),
                    OpCode::GetGlobal,
                    final(self).constants().last(),
                    id.line,
                ) && str_pushed(
                    *old(heap),
                    id.lexeme@,
                    *final(heap),
                    final(self).constants().last(),
                ),
                Some(i) => if old(self).locals()[i].spec_init() {
                    res is Ok && final(self).code() == old(self).code() + operand_instruction(
                        OpCode::GetLocal,
                        i as nat,
                    ) && final(self).lines() == old(self).lines() + repeat_line(
                        id.line,
                        operand_instruction(OpCode::GetLocal, i as nat).len(),
                    ) && final(self).constants() == old(self).constants() && final(self).depth()
                        == old(self).depth() && final(self).locals() == old(self).locals()
                        && final(self).kind() == old(self).kind() && final(self).numbers() == old(self).numbers() && final(self).parser_view() == old(self).parser_view()
                        && heap_same(*old(heap), *final(heap))
                } else {
                    res == Err::<(), InterpretError>(
                        InterpretError::Compile(CompileError::SelfInitialization(id.line)),
                    ) && final(self).same_as(*old(self)) && heap_same(*old(heap), *final(heap))
                },
            },
            expr_result(*old(self), *old(heap), Expr::Variable(*id), *final(self), *final(heap), res),
    {
        let resolved = self.resolve_local(&id.lexeme, id.line);
        proof {
            lemma_same_grows(*old(self), *self);
            lemma_last_named(self.locals(), id.lexeme@);
        }
        let slot = match resolved {
            Ok(slot) => slot,
            Err(e) => {
                return Err(e);
            },
        };
        match slot {
            Some(index) => {
                self.emit_operand_instruction(OpCode::GetLocal, index, id.line);
                proof {
                    lemma_put(*old(self), *heap, *self, *heap, operand_instruction(OpCode::GetLocal, index as nat), id.line);
                    lemma_prefix_concat(old(self).code(), operand_instruction(OpCode::GetLocal, index as nat));
                    lemma_prefix_concat(old(self).lines(), repeat_line(id.line, operand_instruction(OpCode::GetLocal, index as nat).len()));
                    lemma_prefix_refl(old(self).constants());
                }
            },
            None => {
                let variable_idx = heap.push_str(id.lexeme.clone());
                proof {
                    lemma_str_pushed_grows(*old(heap), *heap, id.lexeme@, variable_idx);
                    lemma_str_emission(*old(self), *old(heap), *heap, id.lexeme@, variable_idx);
                }
                self.emit_constant_instruction(OpCode::GetGlobal, variable_idx, id.line);
                proof {
                    lemma_emitted_grows(*old(self), *self, OpCode::GetGlobal, variable_idx, id.line);
                }
            },
        }
        Ok(())
    }

    /// `name = value`: the value, then `SetLocal` with the slot of a local,
    /// else `SetGlobal` with the interned name.
    fn compile_assignment(&mut self, heap: &mut Heap, id: &Token, value: &Expr) -> (res: Result<(), InterpretError>)
        requires
            old(self).wf(),
            old(heap).wf(),
        ensures
            final(self).grows_from(*old(self)),
            heap_grows(*old(heap), *final(heap)),
            wf_expr(*value) ==> !is_invalid_token(res),
            res is Ok ==> match last_named(old(self).locals(), id.lexeme@) {
                Some(i) => ends_with(
                    final(self).code(),
                    operand_instruction(OpCode::SetLocal, i as nat),
                ),
                None => final(self).constants().len() > 0 && ends_with(
                    final(self).code(),
                    operand_instruction(OpCode::SetGlobal, (final(self).constants().len() - 1) as nat),
                ) && final(heap).strings().dom().contains(id.lexeme@) && final(self).constants().last().spec_bits() == object_bits(
                    final(heap).strings()[id.lexeme@] as u64,
                ),
            },
            expr_result(
                *old(self),
                *old(heap),
                Expr::Assign(*id, Box::new(*value)),
                *final(self),
                *final(heap),
                res,
            ),
        decreases 1 + expr_size(*value), 0int,
    {
        self.compile_expr(heap, value)?;
        let ghost mid = *self;
        let ghost hmid = *heap;
        let resolved = self.resolve_local(&id.lexeme, id.line);
        proof {
            lemma_last_named(self.locals(), id.lexeme@);
        }
        let slot = match resolved {
            Ok(slot) => slot,
            Err(e) => {
                return Err(e);
            },
        };
        match slot {
            Some(index) => {
                self.emit_operand_instruction(OpCode::SetLocal, index, id.line);
                proof {
                    let instr = operand_instruction(OpCode::SetLocal, index as nat);
                    lemma_put(mid, hmid, *self, *heap, instr, id.line);
                    lemma_prefix_concat(mid.code(), instr);
                    lemma_prefix_concat(mid.lines(), repeat_line(id.line, instr.len()));
                    lemma_prefix_refl(mid.constants());
                    lemma_grows_trans(*old(self), mid, *self);
                    assert(self.code().subrange(self.code().len() - instr.len(), self.code().len() as int) =~= instr);
                }
            },
            None => {
                let object = heap.push_str(id.lexeme.clone());
                proof {
                    lemma_str_pushed_grows(hmid, *heap, id.lexeme@, object);
                    lemma_heap_grows_trans(*old(heap), hmid, *heap);
                    lemma_str_pushed_names(hmid, *heap, id.lexeme@, object);
                    lemma_str_emission(mid, hmid, *heap, id.lexeme@, object);
                }
                self.emit_constant_instruction(OpCode::SetGlobal, object, id.line);
                proof {
                    let instr = operand_instruction(OpCode::SetGlobal, mid.constants().len());
                    lemma_emitted_grows(mid, *self, OpCode::SetGlobal, object, id.line);
                    lemma_grows_trans(*old(self), mid, *self);
                    assert(self.code().subrange(self.code().len() - instr.len(), self.code().len() as int) =~= instr);
                }
            },
        }
        Ok(())
    }

    /// `l and r`: `l`; if it is false, jump past `r` keeping it; else pop it
    /// and evaluate `r`.
    fn compile_and(&mut self, heap: &mut Heap, token: &Token, left: &Expr, right: &Expr) -> (res: Result<(), InterpretError>)
        requires
            old(self).wf(),
            old(heap).wf(),
        ensures
            final(self).grows_from(*old(self)),
            heap_grows(*old(heap), *final(heap)),
            wf_expr(*left) && wf_expr(*right) ==> !is_invalid_token(res),
            expr_result(
                *old(self),
                *old(heap),
                Expr::And(*token, Box::new(*left), Box::new(*right)),
                *final(self),
                *final(heap),
                res,
            ),
        decreases 1 + expr_size(*left) + expr_size(*right), 0int,
    {
        self.compile_expr(heap, left)?;
        let ghost c1 = *self;
        let end_offset = self.emit_jump_instruction(OpCode::JumpIfFalse, token.line);
        let ghost c2 = *self;
        self.emit_byte(OpCode::Pop.to_byte(), token.line);
        let ghost c3 = *self;
        let ghost h3 = *heap;
        proof {
            lemma_jump_grows(c1, c2, OpCode::JumpIfFalse, token.line);
            lemma_push_grows(c1, c2, c3, op_byte(OpCode::Pop), token.line);
            lemma_grows_trans(*old(self), c1, c3);
            lemma_put(c1, h3, c2, h3, jump_bytes(OpCode::JumpIfFalse), token.line);
            lemma_put_byte(c2, h3, c3, h3, op_byte(OpCode::Pop), token.line);
        }
        let r = self.compile_expr(heap, right);
        let ghost c4 = *self;
        proof {
            lemma_grows_trans(*old(self), c3, c4);
            lemma_heap_grows_trans(*old(heap), h3, *heap);
        }
        r?;
        self.patch_jump_instruction(end_offset, token.line)?;
        proof {
            lemma_patch_grows(*old(self), c4, *self, end_offset as int);
        }
        Ok(())
    }

    /// `l or r`: `l`; if it is true, jump past `r` keeping it; else pop it
    /// and evaluate `r`.
    fn compile_or(&mut self, heap: &mut Heap, token: &Token, left: &Expr, right: &Expr) -> (res: Result<(), InterpretError>)
        requires
            old(self).wf(),
            old(heap).wf(),
        ensures
            final(self).grows_from(*old(self)),
            heap_grows(*old(heap), *final(heap)),
            wf_expr(*left) && wf_expr(*right) ==> !is_invalid_token(res),
            expr_result(
                *old(self),
                *old(heap),
                Expr::Or(*token, Box::new(*left), Box::new(*right)),
                *final(self),
                *final(heap),
                res,
            ),
        decreases 1 + expr_size(*left) + expr_size(*right), 0int,
    {
        self.compile_expr(heap, left)?;
        let ghost c1 = *self;
        let else_offset = self.emit_jump_instruction(OpCode::JumpIfFalse, token.line);
        let ghost c2 = *self;
        let end_offset = self.emit_jump_instruction(OpCode::Jump, token.line);
        let ghost c3 = *self;
        proof {
            lemma_jump_grows(c1, c2, OpCode::JumpIfFalse, token.line);
            lemma_jump_grows(c2, c3, OpCode::Jump, token.line);
            lemma_grows_trans(*old(self), c1, c2);
            lemma_grows_trans(*old(self), c2, c3);
            lemma_put(c1, *heap, c2, *heap, jump_bytes(OpCode::JumpIfFalse), token.line);
            lemma_put(c2, *heap, c3, *heap, jump_bytes(OpCode::Jump), token.line);
        }
        self.patch_jump_instruction(else_offset, token.line)?;
        let ghost c4 = *self;
        proof {
            lemma_patch_grows(*old(self), c3, c4, else_offset as int);
        }
        self.emit_byte(OpCode::Pop.to_byte(), token.line);
        let ghost c5 = *self;
        let ghost h5 = *heap;
        proof {
            lemma_push_grows(*old(self), c4, c5, op_byte(OpCode::Pop), token.line);
            lemma_put_byte(c4, h5, c5, h5, op_byte(OpCode::Pop), token.line);
        }
        let r = self.compile_expr(heap, right);
        let ghost c6 = *self;
        proof {
            lemma_grows_trans(*old(self), c5, c6);
            lemma_heap_grows_trans(*old(heap), h5, *heap);
        }
        r?;
        self.patch_jump_instruction(end_offset, token.line)?;
        proof {
            lemma_patch_grows(*old(self), c6, *self, end_offset as int);
        }
        Ok(())
    }

    /// `callee(args)`: the callee, each argument, then `Call` with the
    /// number of arguments.
    fn compile_call(&mut self, heap: &mut Heap, callee: &Expr, args: &Vec<Expr>, closing: &Token) -> (res: Result<(), InterpretError>)
        requires
            old(self).wf(),
            old(heap).wf(),
        ensures
            final(self).grows_from(*old(self)),
            heap_grows(*old(heap), *final(heap)),
            wf_expr(*callee) && (forall|j: int| 0 <= j < args@.len() ==> wf_expr(#[trigger] args@[j]))
                ==> !is_invalid_token(res),
            res is Ok ==> ends_with(
                final(self).code(),
                operand_instruction(OpCode::Call, args@.len()),
            ),
            expr_result(
                *old(self),
                *old(heap),
                Expr::Call(Box::new(*callee), *args, *closing),
                *final(self),
                *final(heap),
                res,
            ),
        decreases 1 + expr_size(*callee) + exprs_size(args@), 0int,
    {
        let argc = args.len();
        self.compile_expr(heap, callee)?;
        let ghost e1 = emission(*self, *heap);
        let mut i: usize = 0;
        proof {
            crate::syntax::lemma_exprs_view(args@);
            assert(exprs_view(args@).skip(0) =~= exprs_view(args@));
        }
        while i < args.len()
            invariant
                i <= args@.len(),
                argc == args@.len(),
                self.grows_from(*old(self)),
                heap_grows(*old(heap), *heap),
                expr_emission(locals_view(old(self).locals()), old(self).numbers(), emission(*old(self), *old(heap)), expr_view(*callee))
                    == crate::emission::done(e1),
                args_emission(locals_view(old(self).locals()), old(self).numbers(), e1, exprs_view(args@)) == args_emission(
                    locals_view(old(self).locals()),
                    old(self).numbers(),
                    emission(*self, *heap),
                    exprs_view(args@).skip(i as int),
                ),
            decreases args@.len() - i,
        {
            let ghost before = *self;
            let ghost hbefore = *heap;
            proof {
                lemma_exprs_size(args@, i as int);
                crate::syntax::lemma_exprs_view(args@);
                assert(exprs_view(args@).skip(i as int)[0] == expr_view(args@[i as int]));
                assert(exprs_view(args@).skip(i as int).subrange(1, exprs_view(args@).skip(i as int).len() as int) =~= exprs_view(args@).skip(i + 1));
            }
            let r = self.compile_expr(heap, &args[i]);
            proof {
                lemma_grows_trans(*old(self), before, *self);
                lemma_heap_grows_trans(*old(heap), hbefore, *heap);
                let rest = exprs_view(args@).skip(i as int);
                assert(args_emission(locals_view(old(self).locals()), old(self).numbers(), emission(before, hbefore), rest)
                    == match expr_emission(locals_view(old(self).locals()), old(self).numbers(), emission(before, hbefore), rest[0]) {
                        (e2, Ok(_)) => args_emission(locals_view(old(self).locals()), old(self).numbers(), e2, rest.subrange(1, rest.len() as int)),
                        failed => failed,
                    });
            }
            r?;
            i = i + 1;
        }
        let ghost mid = *self;
        proof {
            crate::syntax::lemma_exprs_view(args@);
            assert(exprs_view(args@).skip(i as int) =~= Seq::<ExprV>::empty());
        }
        self.emit_operand_instruction(OpCode::Call, argc, closing.line);
        proof {
            let instr = operand_instruction(OpCode::Call, argc as nat);
            lemma_put(mid, *heap, *self, *heap, instr, closing.line);
            lemma_prefix_concat(mid.code(), instr);
            lemma_prefix_concat(mid.lines(), repeat_line(closing.line, instr.len()));
            lemma_prefix_refl(mid.constants());
            lemma_grows_trans(*old(self), mid, *self);
            assert(self.code().subrange(self.code().len() - instr.len(), self.code().len() as int) =~= instr);
        }
        Ok(())
    }

    /// What compiling a statement keeps, whether it succeeds or not: the
    /// invariants hold; the code, the line table and the constant pool only
    /// grow at their ends; the number table and the parser stay.
    pub open spec fn stmt_grows_from(&self, before: Compiler) -> bool {
        &&& self.wf()
        &&& before.code().is_prefix_of(self.code())
        &&& before.lines().is_prefix_of(self.lines())
        &&& before.constants().is_prefix_of(self.constants())
        &&& self.numbers() == before.numbers()
        &&& self.function_name() == before.function_name()
        &&& self.function_arity() == before.function_arity()
        &&& self.parser_view() == before.parser_view()
    }

    /// What a statement that compiled leaves: the same scope depth; the
    /// locals before it, followed by those it declared, at that depth; the
    /// same function kind.
    pub open spec fn stmt_done(&self, before: Compiler) -> bool {
        &&& self.depth() == before.depth()
        &&& before.locals().is_prefix_of(self.locals())
        &&& forall|i: int|
            before.locals().len() <= i < self.locals().len() ==> (#[trigger] self.locals()[i]).spec_depth()
                == before.depth()
        &&& self.kind() == before.kind()
    }

    /// Compiles a statement.
    #[verifier::spinoff_prover]
    #[verifier::rlimit(40)]
    fn compile_stmt(&mut self, heap: &mut Heap, s: &Stmt) -> (res: Result<(), InterpretError>)
        requires
            old(self).wf(),
            old(heap).wf(),
        ensures
            final(self).stmt_grows_from(*old(self)),
            heap_grows(*old(heap), *final(heap)),
            res is Ok ==> final(self).stmt_done(*old(self)),
            wf_stmt(*s) ==> !is_invalid_token(res),
            stmt_result(*old(self), *old(heap), *s, *final(self), *final(heap), res),
        decreases stmt_size(*s), 1int,
    {
        proof {
            reveal_with_fuel(wf_stmt, 2);
        }
        match s {
            Stmt::Print(token, expr) => self.compile_print(heap, token, expr),
            Stmt::Expr(token, expr) => self.compile_expr_stmt(heap, token, expr),
            Stmt::DeclareVar(id, init) => self.compile_declare_var(heap, id, init),
            Stmt::Block(stmts) => self.compile_block(heap, stmts),
            Stmt::If(token, cond, then_branch, else_branch) => self.compile_if(
                heap,
                token,
                cond,
                then_branch,
                else_branch,
            ),
            Stmt::While(token, cond, body) => self.compile_while(heap, token, cond, body),
            Stmt::DeclareFunc(id, params, body) => self.compile_declare_func(heap, id, params, body),
            Stmt::Return(token, expr) => self.compile_return(heap, token, expr),
            Stmt::DeclareClass(_, _, _) => {
                proof {
                    lemma_prefix_refl(old(self).code());
                    lemma_prefix_refl(old(self).lines());
                    lemma_prefix_refl(old(self).constants());
                }
                Err(InterpretError::UnImplemented)
            },
        }
    }

    /// `print e;`: the value, then `Print`.
    fn compile_print(&mut self, heap: &mut Heap, token: &Token, expr: &Expr) -> (res: Result<(), InterpretError>)
        requires
            old(self).wf(),
            old(heap).wf(),
        ensures
            final(self).stmt_grows_from(*old(self)),
            heap_grows(*old(heap), *final(heap)),
            res is Ok ==> final(self).stmt_done(*old(self)),
            res is Ok ==> final(self).code().len() > old(self).code().len() && final(self).code().last()
                == op_byte(OpCode::Print),
            wf_expr(*expr) ==> !is_invalid_token(res),
            reaches(
                then_op(old(self).numbers(), progress(*old(self), *old(heap)), expr_view(*expr), OpCode::Print, token.line),
                *final(self),
                *final(heap),
                res,
            ),
    {
        let r = self.compile_expr(heap, expr);
        let ghost mid = *self;
        proof {
            lemma_expr_stmt(*old(self), mid);
        }
        r?;
        self.emit_byte(OpCode::Print.to_byte(), token.line);
        proof {
            lemma_push_grows(*old(self), mid, *self, op_byte(OpCode::Print), token.line);
            lemma_put_byte(mid, *heap, *self, *heap, op_byte(OpCode::Print), token.line);
            lemma_expr_stmt(*old(self), *self);
        }
        Ok(())
    }

    /// `e;`: the value, then `Pop`.
    fn compile_expr_stmt(&mut self, heap: &mut Heap, token: &Token, expr: &Expr) -> (res: Result<(), InterpretError>)
        requires
            old(self).wf(),
            old(heap).wf(),
        ensures
            final(self).stmt_grows_from(*old(self)),
            heap_grows(*old(heap), *final(heap)),
            res is Ok ==> final(self).stmt_done(*old(self)),
            res is Ok ==> final(self).code().len() > old(self).code().len() && final(self).code().last()
                == op_byte(OpCode::Pop),
            wf_expr(*expr) ==> !is_invalid_token(res),
            reaches(
                then_op(old(self).numbers(), progress(*old(self), *old(heap)), expr_view(*expr), OpCode::Pop, token.line),
                *final(self),
                *final(heap),
                res,
            ),
    {
        let r = self.compile_expr(heap, expr);
        let ghost mid = *self;
        proof {
            lemma_expr_stmt(*old(self), mid);
        }
        r?;
        self.emit_byte(OpCode::Pop.to_byte(), token.line);
        proof {
            lemma_push_grows(*old(self), mid, *self, op_byte(OpCode::Pop), token.line);
            lemma_put_byte(mid, *heap, *self, *heap, op_byte(OpCode::Pop), token.line);
            lemma_expr_stmt(*old(self), *self);
        }
        Ok(())
    }

    /// `return e;`: `TopReturn` outside a function; else the value, then
    /// `Return`.
    fn compile_return(&mut self, heap: &mut Heap, token: &Token, expr: &Expr) -> (res: Result<(), InterpretError>)
        requires
            old(self).wf(),
            old(heap).wf(),
        ensures
            final(self).stmt_grows_from(*old(self)),
            heap_grows(*old(heap), *final(heap)),
            res is Ok ==> final(self).stmt_done(*old(self)),
            old(self).kind() == FunctionType::Main ==> res == Err::<(), InterpretError>(
                InterpretError::Compile(CompileError::TopReturn(token.line)),
            ) && final(self).same_as(*old(self)) && heap_same(*old(heap), *final(heap)),
            old(self).kind() != FunctionType::Main ==> (res is Ok ==> final(self).code().len()
                > old(self).code().len() && final(self).code().last() == op_byte(OpCode::Return)),
            wf_expr(*expr) ==> !is_invalid_token(res),
            reaches(
                if old(self).kind() == FunctionType::Main {
                    (
                        progress(*old(self), *old(heap)),
                        Err::<(), crate::syntax::ErrV>(crate::syntax::ErrV::TopReturn(token.line)),
                    )
                } else {
                    then_op(old(self).numbers(), progress(*old(self), *old(heap)), expr_view(*expr), OpCode::Return, token.line)
                },
                *final(self),
                *final(heap),
                res,
            ),
    {
        if self.function_type == FunctionType::Main {
            proof {
                lemma_same_grows(*old(self), *self);
                lemma_expr_stmt(*old(self), *self);
            }
            return Err(InterpretError::Compile(CompileError::TopReturn(token.line)));
        }
        let r = self.compile_expr(heap, expr);
        let ghost mid = *self;
        proof {
            lemma_expr_stmt(*old(self), mid);
        }
        r?;
        self.emit_byte(OpCode::Return.to_byte(), token.line);
        proof {
            lemma_push_grows(*old(self), mid, *self, op_byte(OpCode::Return), token.line);
            lemma_put_byte(mid, *heap, *self, *heap, op_byte(OpCode::Return), token.line);
            lemma_expr_stmt(*old(self), *self);
        }
        Ok(())
    }

    /// `var name = init;`: declares a local in a scope; the value (`nil`
    /// without initializer); at the global scope, `DefineGlobal` with the
    /// interned name; then the local counts as initialized.
    fn compile_declare_var(&mut self, heap: &mut Heap, id: &Token, init: &Option<Expr>) -> (res: Result<(), InterpretError>)
        requires
            old(self).wf(),
            old(heap).wf(),
        ensures
            final(self).stmt_grows_from(*old(self)),
            heap_grows(*old(heap), *final(heap)),
            res is Ok ==> final(self).stmt_done(*old(self)),
            res is Ok && old(self).depth() > 0 ==> final(self).locals().len() == old(self).locals().len() + 1
                && final(self).locals().last().spec_name() == id.lexeme@ && final(self).locals().last().spec_init(),
            res is Ok && old(self).depth() == 0 ==> final(self).locals() == old(self).locals()
                && final(self).constants().len() > 0 && ends_with(
                final(self).code(),
                operand_instruction(OpCode::DefineGlobal, (final(self).constants().len() - 1) as nat),
            ) && final(heap).strings().dom().contains(id.lexeme@) && final(self).constants().last().spec_bits()
                == object_bits(final(heap).strings()[id.lexeme@] as u64),
            (match *init {
                Some(e) => wf_expr(e),
                None => true,
            }) ==> !is_invalid_token(res),
            reaches(
                var_progress(
                    old(self).numbers(),
                    progress(*old(self), *old(heap)),
                    tok_view(*id),
                    match *init {
                        Some(x) => Some(expr_view(x)),
                        None => None,
                    },
                ),
                *final(self),
                *final(heap),
                res,
            ),
    {
        let declared = self.declare_local(id.lexeme.clone(), id.line);
        proof {
            lemma_prefix_refl(old(self).code());
            lemma_prefix_refl(old(self).lines());
            lemma_prefix_refl(old(self).constants());
        }
        declared?;
        let ghost c1 = *self;
        match init {
            Some(e) => {
                let r = self.compile_expr(heap, e);
                proof {
                    lemma_expr_stmt(c1, *self);
                    lemma_stmt_trans(*old(self), c1, *self);
                }
                r?;
            },
            None => {
                let nil = Value::nil();
                self.emit_constant_instruction(OpCode::LoadConstant, nil, id.line);
                proof {
                    assert(emission(*self, *heap) == put_constant(emission(c1, *heap), OpCode::LoadConstant, value_of(nil_bits()), id.line));
                    lemma_emitted_grows(c1, *self, OpCode::LoadConstant, nil, id.line);
                    lemma_expr_stmt(c1, *self);
                    lemma_stmt_trans(*old(self), c1, *self);
                }
            },
        }
        let ghost c2 = *self;
        let ghost h2 = *heap;
        if self.scope_depth == 0 {
            let object = heap.push_str(id.lexeme.clone());
            proof {
                lemma_str_pushed_grows(h2, *heap, id.lexeme@, object);
                lemma_heap_grows_trans(*old(heap), h2, *heap);
                lemma_str_pushed_names(h2, *heap, id.lexeme@, object);
                lemma_str_emission(c2, h2, *heap, id.lexeme@, object);
            }
            self.emit_constant_instruction(OpCode::DefineGlobal, object, id.line);
            proof {
                let instr = operand_instruction(OpCode::DefineGlobal, c2.constants().len());
                lemma_emitted_grows(c2, *self, OpCode::DefineGlobal, object, id.line);
                lemma_expr_stmt(c2, *self);
                lemma_stmt_trans(*old(self), c2, *self);
                assert(self.code().subrange(self.code().len() - instr.len(), self.code().len() as int) =~= instr);
            }
        }
        let ghost c3 = *self;
        self.define_local();
        proof {
            lemma_prefix_refl(c3.code());
            lemma_prefix_refl(c3.lines());
            lemma_prefix_refl(c3.constants());
            lemma_stmt_trans(*old(self), c3, *self);
            if old(self).depth() > 0 {
                assert(old(self).locals().is_prefix_of(self.locals())) by {
                    assert(old(self).locals() =~= self.locals().subrange(0, old(self).locals().len() as int));
                }
            } else {
                lemma_prefix_refl(old(self).locals());
            }
        }
        Ok(())
    }

    /// `{ stmts }`: the statements in a new scope, whose locals are then
    /// dropped. (A statement that fails leaves the scope open.)
    #[verifier::spinoff_prover]
    #[verifier::rlimit(40)]
    fn compile_block(&mut self, heap: &mut Heap, stmts: &Vec<Stmt>) -> (res: Result<(), InterpretError>)
        requires
            old(self).wf(),
            old(heap).wf(),
        ensures
            final(self).stmt_grows_from(*old(self)),
            heap_grows(*old(heap), *final(heap)),
            res is Ok ==> final(self).stmt_done(*old(self)),
            res is Ok ==> final(self).locals() == old(self).locals(),
            (forall|j: int| 0 <= j < stmts@.len() ==> wf_stmt(#[trigger] stmts@[j])) ==> !is_invalid_token(res),
            reaches(
                block_progress(old(self).numbers(), progress(*old(self), *old(heap)), stmts_view(stmts@)),
                *final(self),
                *final(heap),
                res,
            ),
        decreases 1 + stmts_size(stmts@), 0int,
    {
        proof {
            lemma_prefix_refl(old(self).code());
            lemma_prefix_refl(old(self).lines());
            lemma_prefix_refl(old(self).constants());
            lemma_prefix_refl(old(self).locals());
        }
        if self.scope_depth == usize::MAX {
            return Err(
                InterpretError::Panic(
                    PanicError::General(0, String::from_str("too many nested scopes")),
                ),
            );
        }
        self.begin_scope();
        let ghost inner = *self;
        let mut i: usize = 0;
        proof {
            crate::syntax::lemma_stmts_view(stmts@);
            assert(stmts_view(stmts@).skip(0) =~= stmts_view(stmts@));
        }
        while i < stmts.len()
            invariant
                i <= stmts@.len(),
                stmts_progress(old(self).numbers(), progress(inner, *old(heap)), stmts_view(stmts@))
                    == stmts_progress(old(self).numbers(), progress(*self, *heap), stmts_view(stmts@).skip(i as int)),
                self.numbers() == old(self).numbers(),
                old(self).wf(),
                inner.depth() == old(self).depth() + 1,
                inner.locals() == old(self).locals(),
                inner.code() == old(self).code(),
                inner.lines() == old(self).lines(),
                inner.constants() == old(self).constants(),
                inner.kind() == old(self).kind(),
                inner.numbers() == old(self).numbers(),
                inner.function_name() == old(self).function_name(),
                inner.function_arity() == old(self).function_arity(),
                inner.parser_view() == old(self).parser_view(),
                inner.stmt_grows_from(*old(self)),
                self.stmt_grows_from(inner),
                self.stmt_done(inner),
                heap_grows(*old(heap), *heap),
            decreases stmts@.len() - i,
        {
            let ghost before = *self;
            let ghost hbefore = *heap;
            proof {
                lemma_stmts_size(stmts@, i as int);
                crate::syntax::lemma_stmts_view(stmts@);
                assert(stmts_view(stmts@).skip(i as int)[0] == stmt_view(stmts@[i as int]));
                assert(stmts_view(stmts@).skip(i as int).subrange(1, stmts_view(stmts@).skip(i as int).len() as int) =~= stmts_view(stmts@).skip(i + 1));
            }
            let r = self.compile_stmt(heap, &stmts[i]);
            proof {
                lemma_stmt_trans(inner, before, *self);
                lemma_stmt_trans(*old(self), inner, *self);
                lemma_heap_grows_trans(*old(heap), hbefore, *heap);
            }
            r?;
            proof {
                lemma_done_trans(inner, before, *self);
            }
            i = i + 1;
        }
        let ghost last = *self;
        proof {
            crate::syntax::lemma_stmts_view(stmts@);
            assert(stmts_view(stmts@).skip(i as int) =~= Seq::<StmtV>::empty());
        }
        self.end_scope();
        proof {
            assert forall|k: int| 0 <= k < old(self).locals().len() implies (#[trigger] old(self).locals()[k]).spec_depth()
                <= old(self).depth() by {
                assert(old(self).locals()[k] == old(self).locals@[k]);
            }
            lemma_scope_filter(old(self).locals(), last.locals(), old(self).depth());
            lemma_prefix_concat(last.code(), Seq::new(
                (last.locals().len() - self.locals().len()) as nat,
                |_i: int| op_byte(OpCode::Pop),
            ));
            lemma_prefix_concat(last.lines(), repeat_line(0, (last.locals().len() - self.locals().len()) as nat));
            lemma_prefix_refl(last.constants());
            lemma_stmt_trans(*old(self), last, *self);
        }
        Ok(())
    }

    /// `if (c) t else e`: the condition; if it is false jump to the else
    /// part; each branch starts by popping the condition.
    #[verifier::spinoff_prover]
    #[verifier::rlimit(40)]
    fn compile_if(
        &mut self,
        heap: &mut Heap,
        token: &Token,
        condition: &Expr,
        if_block: &Stmt,
        else_block: &Option<Box<Stmt>>,
    ) -> (res: Result<(), InterpretError>)
        requires
            old(self).wf(),
            old(heap).wf(),
        ensures
            final(self).stmt_grows_from(*old(self)),
            heap_grows(*old(heap), *final(heap)),
            res is Ok ==> final(self).stmt_done(*old(self)),
            wf_expr(*condition) && wf_stmt(*if_block) && (match *else_block {
                Some(b) => wf_stmt(*b),
                None => true,
            }) ==> !is_invalid_token(res),
            reaches(
                if_progress(
                    old(self).numbers(),
                    progress(*old(self), *old(heap)),
                    tok_view(*token),
                    expr_view(*condition),
                    stmt_view(*if_block),
                    match *else_block {
                        Some(b) => Some(Box::new(stmt_view(*b))),
                        None => None,
                    },
                ),
                *final(self),
                *final(heap),
                res,
            ),
        decreases 1 + stmt_size(*if_block) + match *else_block {
            Some(b) => stmt_size(*b),
            None => 0,
        }, 0int,
    {
        let r = self.compile_expr(heap, condition);
        let ghost c1 = *self;
        proof {
            lemma_expr_stmt(*old(self), c1);
        }
        r?;
        let if_offset = self.emit_jump_instruction(OpCode::JumpIfFalse, token.line);
        let ghost c2 = *self;
        self.emit_byte(OpCode::Pop.to_byte(), token.line);
        let ghost c3 = *self;
        let ghost h3 = *heap;
        proof {
            lemma_jump_grows(c1, c2, OpCode::JumpIfFalse, token.line);
            lemma_push_grows(c1, c2, c3, op_byte(OpCode::Pop), token.line);
            lemma_grows_trans(*old(self), c1, c3);
            lemma_expr_stmt(*old(self), c3);
            lemma_put(c1, h3, c2, h3, jump_bytes(OpCode::JumpIfFalse), token.line);
            lemma_put_byte(c2, h3, c3, h3, op_byte(OpCode::Pop), token.line);
        }
        let r = self.compile_stmt(heap, if_block);
        let ghost c4 = *self;
        proof {
            lemma_stmt_trans(*old(self), c3, c4);
            lemma_heap_grows_trans(*old(heap), h3, *heap);
        }
        r?;
        proof {
            lemma_done_trans(*old(self), c3, c4);
        }
        let else_offset = self.emit_jump_instruction(OpCode::Jump, token.line);
        let ghost c5 = *self;
        self.emit_byte(OpCode::Pop.to_byte(), token.line);
        let ghost c6 = *self;
        proof {
            lemma_put(c4, *heap, c5, *heap, jump_bytes(OpCode::Jump), token.line);
            lemma_put_byte(c5, *heap, c6, *heap, op_byte(OpCode::Pop), token.line);
            lemma_jump_grows(c4, c5, OpCode::Jump, token.line);
            lemma_push_grows(c4, c5, c6, op_byte(OpCode::Pop), token.line);
            lemma_expr_stmt(c4, c6);
            lemma_stmt_trans(*old(self), c4, c6);
            lemma_done_trans(*old(self), c4, c6);
        }
        let p = self.patch_jump_instruction(if_offset, token.line);
        let ghost c7 = *self;
        proof {
            lemma_patch_stmt(*old(self), c6, c7, if_offset as int);
        }
        p?;
        let ghost h7 = *heap;
        match else_block {
            Some(b) => {
                let r = self.compile_stmt(heap, b);
                proof {
                    lemma_stmt_trans(*old(self), c7, *self);
                    lemma_heap_grows_trans(*old(heap), h7, *heap);
                }
                r?;
                proof {
                    lemma_done_trans(*old(self), c7, *self);
                }
            },
            None => {},
        }
        let ghost c8 = *self;
        let p = self.patch_jump_instruction(else_offset, token.line);
        proof {
            lemma_patch_stmt(*old(self), c8, *self, else_offset as int);
        }
        p?;
        Ok(())
    }

    /// `while (c) body`: the condition; if it is false jump past the loop;
    /// else pop it, run the body and loop back to the condition; the
    /// condition is popped on the way out.
    #[verifier::spinoff_prover]
    #[verifier::rlimit(40)]
    fn compile_while(&mut self, heap: &mut Heap, token: &Token, condition: &Expr, body: &Stmt) -> (res: Result<(), InterpretError>)
        requires
            old(self).wf(),
            old(heap).wf(),
        ensures
            final(self).stmt_grows_from(*old(self)),
            heap_grows(*old(heap), *final(heap)),
            res is Ok ==> final(self).stmt_done(*old(self)),
            wf_expr(*condition) && wf_stmt(*body) ==> !is_invalid_token(res),
            reaches(
                while_progress(
                    old(self).numbers(),
                    progress(*old(self), *old(heap)),
                    tok_view(*token),
                    expr_view(*condition),
                    stmt_view(*body),
                ),
                *final(self),
                *final(heap),
                res,
            ),
        decreases 1 + stmt_size(*body), 0int,
    {
        let loop_start = self.get_code_length();
        let r = self.compile_expr(heap, condition);
        let ghost c1 = *self;
        proof {
            lemma_expr_stmt(*old(self), c1);
        }
        r?;
        let offset = self.emit_jump_instruction(OpCode::JumpIfFalse, token.line);
        let ghost c2 = *self;
        self.emit_byte(OpCode::Pop.to_byte(), token.line);
        let ghost c3 = *self;
        let ghost h3 = *heap;
        proof {
            lemma_jump_grows(c1, c2, OpCode::JumpIfFalse, token.line);
            lemma_push_grows(c1, c2, c3, op_byte(OpCode::Pop), token.line);
            lemma_grows_trans(*old(self), c1, c3);
            lemma_expr_stmt(*old(self), c3);
            lemma_put(c1, h3, c2, h3, jump_bytes(OpCode::JumpIfFalse), token.line);
            lemma_put_byte(c2, h3, c3, h3, op_byte(OpCode::Pop), token.line);
        }
        let r = self.compile_stmt(heap, body);
        let ghost c4 = *self;
        proof {
            lemma_stmt_trans(*old(self), c3, c4);
            lemma_heap_grows_trans(*old(heap), h3, *heap);
        }
        r?;
        proof {
            lemma_done_trans(*old(self), c3, c4);
        }
        let l = self.emit_loop_instruction(loop_start, token.line);
        let ghost c5 = *self;
        proof {
            if l is Ok {
                let d = c4.code().len() + 1 - loop_start + 2;
                lemma_put(c4, *heap, *self, *heap, seq![op_byte(OpCode::Loop), (d % 256) as u8, (d / 256) as u8], token.line);
                lemma_prefix_concat(c4.code(), seq![op_byte(OpCode::Loop), self.code()[c4.code().len() as int + 1], self.code()[c4.code().len() as int + 2]]);
                assert(self.code() =~= c4.code() + seq![op_byte(OpCode::Loop), self.code()[c4.code().len() as int + 1], self.code()[c4.code().len() as int + 2]]);
                lemma_prefix_concat(c4.lines(), repeat_line(token.line, 3));
            } else {
                lemma_put_byte(c4, *heap, *self, *heap, op_byte(OpCode::Loop), token.line);
                lemma_prefix_concat(c4.code(), seq![op_byte(OpCode::Loop)]);
                assert(self.code() =~= c4.code() + seq![op_byte(OpCode::Loop)]);
                lemma_prefix_concat(c4.lines(), seq![token.line]);
                assert(self.lines() =~= c4.lines() + seq![token.line]);
            }
            lemma_prefix_refl(c4.constants());
            lemma_stmt_trans(*old(self), c4, c5);
        }
        l?;
        let p = self.patch_jump_instruction(offset, token.line);
        let ghost c6 = *self;
        proof {
            lemma_patch_stmt(*old(self), c5, c6, offset as int);
        }
        p?;
        self.emit_byte(OpCode::Pop.to_byte(), token.line);
        proof {
            lemma_put_byte(c6, *heap, *self, *heap, op_byte(OpCode::Pop), token.line);
            lemma_prefix_concat(c6.code(), seq![op_byte(OpCode::Pop)]);
            assert(self.code() =~= c6.code() + seq![op_byte(OpCode::Pop)]);
            lemma_prefix_concat(c6.lines(), seq![token.line]);
            assert(self.lines() =~= c6.lines() + seq![token.line]);
            lemma_prefix_refl(c6.constants());
            lemma_stmt_trans(*old(self), c6, *self);
        }
        Ok(())
    }

    /// Puts back the function, scope and locals that a function declaration
    /// set aside.
    fn restore(
        &mut self,
        function: Function,
        depth: usize,
        locals: Vec<Local>,
        kind: FunctionType,
        before: Ghost<Compiler>,
    )
        requires
            old(self).statements == before@.statements,
            old(self).statements.wf(),
            function == before@.function,
            depth == before@.scope_depth,
            locals == before@.locals,
            before@.wf(),
        ensures
            final(self).function == before@.function,
            final(self).scope_depth == before@.scope_depth,
            final(self).locals == before@.locals,
            final(self).function_type == kind,
            final(self).numbers == old(self).numbers,
            final(self).statements == old(self).statements,
            final(self).wf(),
    {
        self.function = function;
        self.scope_depth = depth;
        self.locals = locals;
        self.function_type = kind;
    }

    /// The body of function `id`, compiled into the function being compiled,
    /// which is still empty, at scope depth 1 with no local: slot 0 holds
    /// the function itself, the parameters are the next locals, and the code
    /// ends with `return nil`.
    #[verifier::spinoff_prover]
    #[verifier::rlimit(40)]
    fn compile_function_body(
        &mut self,
        heap: &mut Heap,
        id: &Token,
        params: &Vec<Token>,
        body: &Vec<Stmt>,
    ) -> (res: Result<(), InterpretError>)
        requires
            old(self).wf(),
            old(heap).wf(),
            old(self).code() == Seq::<u8>::empty(),
            old(self).lines() == Seq::<u32>::empty(),
            old(self).constants() == Seq::<Value>::empty(),
            old(self).locals() == Seq::<Local>::empty(),
            old(self).depth() == 1,
            old(self).kind() == FunctionType::Function,
        ensures
            final(self).wf(),
            heap_grows(*old(heap), *final(heap)),
            final(self).numbers() == old(self).numbers(),
            final(self).function_name() == old(self).function_name(),
            final(self).function_arity() == old(self).function_arity(),
            final(self).parser_view() == old(self).parser_view(),
            reaches(
                function_progress(
                    old(self).numbers(),
                    old(heap).strings(),
                    old(heap).slots(),
                    functions_of(old(heap).objects()),
                    tok_view(*id),
                    toks_view(params@),
                    stmts_view(body@),
                ),
                *final(self),
                *final(heap),
                res,
            ),
            res is Ok ==> final(self).code().len() > 0 && final(self).code().last() == op_byte(
                OpCode::Return,
            ),
            res is Ok ==> final(self).kind() == FunctionType::Function,
            (forall|j: int| 0 <= j < body@.len() ==> wf_stmt(#[trigger] body@[j])) ==> !is_invalid_token(res),
        decreases stmts_size(body@), 2int,
    {
        let ghost numbers = old(self).numbers();
        let ghost start = Progress {
            out: Emission {
                code: Seq::empty(),
                lines: Seq::empty(),
                constants: Seq::empty(),
                strings: old(heap).strings(),
                slots: old(heap).slots(),
                funcs: functions_of(old(heap).objects()),
            },
            locals: seq![LocalV { name: id.lexeme@, depth: 1, init: true }],
            depth: 1,
            kind: FunctionType::Function,
        };
        let own = self.declare_local(id.lexeme.clone(), id.line);
        assert(own is Ok);
        self.define_local();
        proof {
            assert(locals_view(self.locals@) =~= seq![LocalV { name: id.lexeme@, depth: 1, init: true }]);
            assert(progress(*self, *heap) == start);
            assert(toks_view(params@).skip(0) =~= toks_view(params@));
        }
        let mut i: usize = 0;
        while i < params.len()
            invariant
                i <= params@.len(),
                self.wf(),
                self.depth() == 1,
                self.kind() == FunctionType::Function,
                self.numbers() == numbers,
                numbers == old(self).numbers(),
                self.function_name() == old(self).function_name(),
                self.function_arity() == old(self).function_arity(),
                self.parser_view() == old(self).parser_view(),
                self.locals().len() > 0,
                *heap == *old(heap),
                heap_grows(*old(heap), *heap),
                emission(*self, *heap) == start.out,
                start == (Progress {
                    out: Emission {
                        code: Seq::empty(),
                        lines: Seq::empty(),
                        constants: Seq::empty(),
                        strings: old(heap).strings(),
                        slots: old(heap).slots(),
                        funcs: functions_of(old(heap).objects()),
                    },
                    locals: seq![LocalV { name: id.lexeme@, depth: 1, init: true }],
                    depth: 1,
                    kind: FunctionType::Function,
                }),
                params_progress(start, toks_view(params@)) == params_progress(
                    progress(*self, *heap),
                    toks_view(params@).skip(i as int),
                ),
            decreases params@.len() - i,
        {
            proof {
                assert(toks_view(params@).skip(i as int)[0] == tok_view(params@[i as int]));
                assert(toks_view(params@).skip(i as int).drop_first() =~= toks_view(params@).skip(i + 1));
            }
            let declared = self.declare_local(params[i].lexeme.clone(), params[i].line);
            match declared {
                Ok(()) => {},
                Err(e) => {
                    return Err(e);
                },
            }
            self.define_local();
            i = i + 1;
        }
        let ghost pp = progress(*self, *heap);
        proof {
            assert(toks_view(params@).skip(i as int) =~= Seq::<crate::syntax::TokV>::empty());
            crate::syntax::lemma_stmts_view(body@);
            assert(stmts_view(body@).skip(0) =~= stmts_view(body@));
        }
        let mut i: usize = 0;
        while i < body.len()
            invariant
                i <= body@.len(),
                self.wf(),
                self.numbers() == numbers,
                numbers == old(self).numbers(),
                self.function_name() == old(self).function_name(),
                self.function_arity() == old(self).function_arity(),
                self.parser_view() == old(self).parser_view(),
                heap_grows(*old(heap), *heap),
                start == (Progress {
                    out: Emission {
                        code: Seq::empty(),
                        lines: Seq::empty(),
                        constants: Seq::empty(),
                        strings: old(heap).strings(),
                        slots: old(heap).slots(),
                        funcs: functions_of(old(heap).objects()),
                    },
                    locals: seq![LocalV { name: id.lexeme@, depth: 1, init: true }],
                    depth: 1,
                    kind: FunctionType::Function,
                }),
                params_progress(start, toks_view(params@)) == (pp, Ok::<(), crate::syntax::ErrV>(())),
                self.kind() == FunctionType::Function,
                stmts_progress(numbers, pp, stmts_view(body@)) == stmts_progress(
                    numbers,
                    progress(*self, *heap),
                    stmts_view(body@).skip(i as int),
                ),
                (forall|j: int| 0 <= j < body@.len() ==> wf_stmt(#[trigger] body@[j])) ==> forall|j: int|
                    0 <= j < i ==> wf_stmt(#[trigger] body@[j]),
            decreases body@.len() - i,
        {
            let ghost hbefore = *heap;
            proof {
                lemma_stmts_size(body@, i as int);
                crate::syntax::lemma_stmts_view(body@);
                assert(stmts_view(body@).skip(i as int)[0] == stmt_view(body@[i as int]));
                assert(stmts_view(body@).skip(i as int).subrange(1, stmts_view(body@).skip(i as int).len() as int) =~= stmts_view(body@).skip(i + 1));
            }
            let r = self.compile_stmt(heap, &body[i]);
            proof {
                lemma_heap_grows_trans(*old(heap), hbefore, *heap);
            }
            match r {
                Ok(()) => {},
                Err(e) => {
                    return Err(e);
                },
            }
            i = i + 1;
        }
        let ghost pb = *self;
        proof {
            crate::syntax::lemma_stmts_view(body@);
            assert(stmts_view(body@).skip(i as int) =~= Seq::<StmtV>::empty());
        }
        self.emit_constant_instruction(OpCode::LoadConstant, Value::nil(), id.line);
        let ghost pn = *self;
        self.emit_byte(OpCode::Return.to_byte(), id.line);
        proof {
            lemma_put_byte(pn, *heap, *self, *heap, op_byte(OpCode::Return), id.line);
        }
        Ok(())
    }

    /// `fun name(params) { body }`: declares `name` as a local (in a
    /// scope); compiles the body as a new function whose slot 0 holds the
    /// function itself and whose parameters are its next locals, ending with
    /// `return nil`; stores it in the heap; emits `Closure` with its heap
    /// index, and at the global scope `DefineGlobal` with the interned name.
    /// The function kind stays `Function` afterwards.
    #[verifier::spinoff_prover]
    #[verifier::rlimit(100)]
    fn compile_declare_func(
        &mut self,
        heap: &mut Heap,
        id: &Token,
        params: &Vec<Token>,
        body: &Vec<Stmt>,
    ) -> (res: Result<(), InterpretError>)
        requires
            old(self).wf(),
            old(heap).wf(),
        ensures
            final(self).stmt_grows_from(*old(self)),
            heap_grows(*old(heap), *final(heap)),
            res is Ok ==> final(self).stmt_done(*old(self)),
            res is Ok ==> final(self).kind() == old(self).kind(),
            res is Ok && old(self).depth() > 0 ==> final(self).locals().len() == old(self).locals().len() + 1
                && final(self).locals().last().spec_name() == id.lexeme@ && final(self).locals().last().spec_init(),
            res is Ok && old(self).depth() == 0 ==> final(self).locals() == old(self).locals(),
            res is Ok ==> exists|k: usize|
                #![trigger final(heap).objects()[k]]
                old(heap).slots() <= k < final(heap).slots() && (final(heap).objects()[k] matches Object::Function(
                    f,
                ) && f.name@ == id.lexeme@ && f.arity == params@.len() as u8 && f.chunk.wf()
                    && f.chunk.code@.len() > 0 && f.chunk.code@.last() == op_byte(OpCode::Return)),
            res is Ok ==> ({
                let fp = function_progress(
                    old(self).numbers(),
                    old(heap).strings(),
                    old(heap).slots(),
                    functions_of(old(heap).objects()),
                    tok_view(*id),
                    toks_view(params@),
                    stmts_view(body@),
                ).0;
                final(heap).objects()[fp.out.slots] matches Object::Function(f) && f.chunk.code@
                    == fp.out.code && f.chunk.line_of() == fp.out.lines && f.chunk.constants@
                    == fp.out.constants
            }),
            (forall|j: int| 0 <= j < body@.len() ==> wf_stmt(#[trigger] body@[j])) ==> !is_invalid_token(res),
            reaches(
                func_progress(
                    old(self).numbers(),
                    progress(*old(self), *old(heap)),
                    tok_view(*id),
                    toks_view(params@),
                    stmts_view(body@),
                ),
                *final(self),
                *final(heap),
                res,
            ),
        decreases 1 + stmts_size(body@), 0int,
    {
        proof {
            lemma_prefix_refl(old(self).code());
            lemma_prefix_refl(old(self).lines());
            lemma_prefix_refl(old(self).constants());
        }
        let declared = self.declare_local(id.lexeme.clone(), id.line);
        declared?;
        self.define_local();
        let ghost outer = *self;
        proof {
            assert(progress(outer, *heap) == define(declare(progress(*old(self), *old(heap)), id.lexeme@)->0));
        }
        let mut enclosing_function = Function::new(id.lexeme.clone(), params.len() as u8);
        std::mem::swap(&mut self.function, &mut enclosing_function);
        let mut enclosing_depth: usize = 1;
        std::mem::swap(&mut self.scope_depth, &mut enclosing_depth);
        let mut enclosing_locals: Vec<Local> = Vec::new();
        std::mem::swap(&mut self.locals, &mut enclosing_locals);
        let enclosing_type = self.function_type;
        self.function_type = FunctionType::Function;
        proof {
            assert(self.locals() =~= Seq::<Local>::empty());
        }
        let r = self.compile_function_body(heap, id, params, body);
        match r {
            Ok(()) => {},
            Err(e) => {
                self.restore(enclosing_function, enclosing_depth, enclosing_locals, enclosing_type, Ghost(outer));
                return Err(e);
            },
        }
        let ghost inner = *self;
        std::mem::swap(&mut self.function, &mut enclosing_function);
        let new_function = enclosing_function;
        let ghost h1 = *heap;
        let ghost k = h1.slots();
        let function_index = heap.push(Object::Function(Rc::new(new_function)));
        let ghost fobj = heap.objects()[k];
        proof {
            lemma_function_stored(h1.objects(), k, fobj);
            lemma_heap_grows_trans(*old(heap), h1, *heap);
            assert(fobj matches Object::Function(f) && f.name@ == id.lexeme@ && f.arity
                == params@.len() as u8 && f.chunk.wf() && f.chunk.code@.len() > 0
                && f.chunk.code@.last() == op_byte(OpCode::Return));
        }
        let ghost h_after_push = *heap;
        self.scope_depth = enclosing_depth;
        self.locals = enclosing_locals;
        self.function_type = enclosing_type;
        let ghost c1 = *self;
        proof {
            lemma_prefix_refl(outer.code());
            lemma_prefix_refl(outer.lines());
            lemma_prefix_refl(outer.constants());
        }
        let index = function_index.as_object();
        proof {
            crate::value::lemma_value_of_bits(object_bits(k as u64));
            assert(index == value_of(object_bits(k as u64)).spec_as_object());
            assert(progress(inner, h1) == function_progress(
                old(self).numbers(),
                old(heap).strings(),
                old(heap).slots(),
                functions_of(old(heap).objects()),
                tok_view(*id),
                toks_view(params@),
                stmts_view(body@),
            ).0);
        }
        self.emit_operand_instruction(OpCode::Closure, index, id.line);
        let ghost c2 = *self;
        proof {
            let instr = operand_instruction(OpCode::Closure, index as nat);
            lemma_put(c1, *heap, c2, *heap, instr, id.line);
            lemma_prefix_concat(c1.code(), instr);
            lemma_prefix_concat(c1.lines(), repeat_line(id.line, instr.len()));
            lemma_prefix_refl(c1.constants());
            lemma_stmt_trans(*old(self), c1, c2);
        }
        if self.scope_depth == 0 {
            let ghost h2 = *heap;
            let name = heap.push_str(id.lexeme.clone());
            proof {
                lemma_heap_grows_trans(*old(heap), h2, *heap);
                lemma_str_emission(c2, h2, *heap, id.lexeme@, name);
            }
            self.emit_constant_instruction(OpCode::DefineGlobal, name, id.line);
            proof {
                lemma_emitted_grows(c2, *self, OpCode::DefineGlobal, name, id.line);
                lemma_expr_stmt(c2, *self);
                lemma_stmt_trans(*old(self), c2, *self);
            }
        }
        proof {
            if old(self).depth() > 0 {
                assert(old(self).locals() =~= self.locals().subrange(0, old(self).locals().len() as int));
            } else {
                lemma_prefix_refl(old(self).locals());
            }
            assert(h_after_push.objects().dom().contains(k));
            assert(heap.objects()[k] == fobj);
        }
        Ok(())
    }

    /// Compiles every statement the parser reads, in order. If any statement
    /// fails, whether to parse or to compile, the errors of all failing
    /// statements in order; else the function, ended by a `Return` (on line
    /// 2).
    pub fn compile(self, heap: &mut Heap) -> (res: Result<Function, Vec<InterpretError>>)
        requires
            self.wf(),
            old(heap).wf(),
        ensures
            heap_grows(*old(heap), *final(heap)),
            res matches Err(errs) ==> errs@.len() > 0,
            res matches Err(errs) ==> forall|i: int|
                0 <= i < errs@.len() ==> !(#[trigger] errs@[i] matches InterpretError::Panic(
                    PanicError::InvalidToken(_, _, _),
                )),
            res matches Ok(f) ==> {
                &&& f.chunk.wf()
                &&& self.code().is_prefix_of(f.chunk.code@)
                &&& f.chunk.code@.len() > self.code().len()
                &&& f.chunk.code@.last() == op_byte(OpCode::Return)
                &&& f.chunk.line_of().last() == 2
                &&& f.name@ == self.function_name()
                &&& f.arity == self.function_arity()
            },
            ({
                let (p, errs) = run_program(
                    self.numbers(),
                    progress(self, *old(heap)),
                    parsed_program(self.parser_view().items()),
                );
                if errs.len() == 0 {
                    res matches Ok(f) && f.chunk.code@ == p.out.code.push(op_byte(OpCode::Return))
                        && f.chunk.line_of() == p.out.lines.push(2) && f.chunk.constants@
                        == p.out.constants && final(heap).strings() == p.out.strings
                        && final(heap).slots() == p.out.slots
                        && functions_of(final(heap).objects()) == p.out.funcs
                } else {
                    res matches Err(list) && errs_view(list@) == errs
                }
            }),
    {
        let mut this = self;
        let mut errors: Vec<InterpretError> = Vec::new();
        let ghost numbers = self.numbers();
        let ghost p0 = progress(self, *old(heap));
        let ghost all = parsed_program(self.parser_view().items());
        let ghost mut done: Seq<Result<StmtV, crate::syntax::ErrV>> = Seq::empty();
        proof {
            assert(all =~= done + parsed_program(this.statements.items()));
        }
        proof {
            lemma_prefix_refl(self.code());
            lemma_prefix_refl(self.lines());
            lemma_prefix_refl(self.constants());
        }
        loop
            invariant
                this.wf(),
                self.code().is_prefix_of(this.code()),
                self.lines().is_prefix_of(this.lines()),
                this.function.name@ == self.function.name@,
                this.function.arity == self.function.arity,
                heap_grows(*old(heap), *heap),
                forall|i: int|
                    0 <= i < errors@.len() ==> !(#[trigger] errors@[i] matches InterpretError::Panic(
                        PanicError::InvalidToken(_, _, _),
                    )),
                this.numbers() == numbers,
                all == done + parsed_program(this.statements.items()),
                run_program(numbers, p0, done) == (progress(this, *heap), errs_view(errors@)),
            ensures
                this.wf(),
                self.code().is_prefix_of(this.code()),
                self.lines().is_prefix_of(this.lines()),
                this.function.name@ == self.function.name@,
                this.function.arity == self.function.arity,
                heap_grows(*old(heap), *heap),
                forall|i: int|
                    0 <= i < errors@.len() ==> !(#[trigger] errors@[i] matches InterpretError::Panic(
                        PanicError::InvalidToken(_, _, _),
                    )),
                all == done,
                run_program(numbers, p0, done) == (progress(this, *heap), errs_view(errors@)),
            decreases this.statements.measure(),
        {
            let ghost before = this;
            let ghost hbefore = *heap;
            let ghost items = this.statements.items();
            let item = this.statements.next();
            let ghost after_parse = this;
            proof {
                if item is Some {
                    let r = crate::syntax::next_result_view(item)->0;
                    assert(parsed_program(items) =~= seq![r] + parsed_program(this.statements.items()));
                    assert(all =~= done.push(r) + parsed_program(this.statements.items()));
                    assert(done.push(r).drop_last() =~= done);
                    reveal(crate::emission::decl_progress);
                    done = done.push(r);
                }
            }

            match item {
                None => {
                    proof {
                        assert(parsed_program(items) =~= Seq::<Result<StmtV, crate::syntax::ErrV>>::empty());
                        assert(all =~= done);
                    }
                    break ;
                },
                Some(Ok(stmt)) => {
                    let r = this.compile_stmt(heap, &stmt);
                    proof {
                        lemma_prefix_trans(self.code(), after_parse.code(), this.code());
                        lemma_prefix_trans(self.lines(), after_parse.lines(), this.lines());
                        lemma_heap_grows_trans(*old(heap), hbefore, *heap);
                    }
                    match r {
                        Ok(()) => {},
                        Err(e) => {
                            let ghost before_errors = errors@;
                            errors.push(e);
                            proof {
                                assert(errs_view(errors@) =~= errs_view(before_errors).push(err_view(e)));
                            }
                        },
                    }
                },
                Some(Err(e)) => {
                    let ghost before_errors = errors@;
                    errors.push(e);
                    proof {
                        assert(errs_view(errors@) =~= errs_view(before_errors).push(err_view(e)));
                    }
                },
            }
        }
        if errors.len() > 0 {
            return Err(errors);
        }
        let ghost last = this;
        this.emit_byte(OpCode::Return.to_byte(), 2);
        proof {
            lemma_prefix_concat(last.code(), seq![op_byte(OpCode::Return)]);
            assert(this.code() =~= last.code() + seq![op_byte(OpCode::Return)]);
            lemma_prefix_trans(self.code(), last.code(), this.code());
            assert(this.function.chunk.code@ == this.code());
            assert(this.function.chunk.line_of() == this.lines());
        }
        Ok(this.function)
    }
}

/// The instruction of a binary operator.
fn binary_instruction(t: TokenType) -> (op: Option<OpCode>)
    ensures
        op == binary_opcode(t),
{
    match t {
        TokenType::Plus => Some(OpCode::Add),
        TokenType::Minus => Some(OpCode::Subtract),
        TokenType::Star => Some(OpCode::Multiply),
        TokenType::Slash => Some(OpCode::Divide),
        TokenType::EqualEqual => Some(OpCode::Equal),
        TokenType::BangEqual => Some(OpCode::NotEqual),
        TokenType::LessThan => Some(OpCode::LessThan),
        TokenType::LessEqual => Some(OpCode::LessEqual),
        TokenType::GreaterThan => Some(OpCode::GreaterThan),
        TokenType::GreaterEqual => Some(OpCode::GreaterEqual),
        _ => None,
    }
}

/// The instruction compiled for a binary operator computes that operator:
/// for every operator token, and any two numbers, the instruction gives
/// what the operator means; and a token is compiled to an instruction
/// exactly when it is a binary operator.
pub proof fn lemma_binary_opcode_meaning(k: TokenType, a: int, b: int)
    ensures
        binary_opcode(k) is Some <==> operator_meaning(k, a, b) is Some,
        binary_opcode(k) matches Some(op) ==> binary_meaning(op, a, b) == operator_meaning(k, a, b),
{
}

/// A sequence is a prefix of itself.
proof fn lemma_prefix_refl<A>(s: Seq<A>)
    ensures
        s.is_prefix_of(s),
{
    assert(s =~= s.subrange(0, s.len() as int));
}

/// A sequence is a prefix of itself followed by more.
proof fn lemma_prefix_concat<A>(s: Seq<A>, t: Seq<A>)
    ensures
        s.is_prefix_of(s + t),
{
    assert(s =~= (s + t).subrange(0, s.len() as int));
}

/// Being a prefix is transitive.
proof fn lemma_prefix_trans<A>(a: Seq<A>, b: Seq<A>, c: Seq<A>)
    requires
        a.is_prefix_of(b),
        b.is_prefix_of(c),
    ensures
        a.is_prefix_of(c),
{
    assert forall|i: int| 0 <= i < a.len() implies a[i] == c[i] by {
        assert(a[i] == b.subrange(0, a.len() as int)[i]);
        assert(b[i] == c.subrange(0, b.len() as int)[i]);
    }
    assert(a =~= c.subrange(0, a.len() as int));
}

/// Growing is transitive.
proof fn lemma_grows_trans(c0: Compiler, c1: Compiler, c2: Compiler)
    requires
        c1.grows_from(c0),
        c2.grows_from(c1),
    ensures
        c2.grows_from(c0),
{
    lemma_prefix_trans(c0.code(), c1.code(), c2.code());
    lemma_prefix_trans(c0.lines(), c1.lines(), c2.lines());
    lemma_prefix_trans(c0.constants(), c1.constants(), c2.constants());
}

/// An unchanged compiler has grown from itself.
proof fn lemma_same_grows(c0: Compiler, c1: Compiler)
    requires
        c1.wf(),
        c1.same_as(c0),
    ensures
        c1.grows_from(c0),
{
    lemma_prefix_refl(c0.code());
    lemma_prefix_refl(c0.lines());
    lemma_prefix_refl(c0.constants());
}

/// Emitting a constant grows the compiler.
proof fn lemma_emitted_grows(c0: Compiler, c1: Compiler, op: OpCode, v: Value, line: u32)
    requires
        c1.emitted_constant(c0, op, v, line),
    ensures
        c1.grows_from(c0),
{
    let instr = operand_instruction(op, c0.constants().len());
    lemma_prefix_concat(c0.code(), instr);
    lemma_prefix_concat(c0.lines(), repeat_line(line, instr.len()));
    lemma_prefix_concat(c0.constants(), seq![v]);
    assert(c0.constants().push(v) =~= c0.constants() + seq![v]);
}

/// Emitting one byte after growing still grows.
proof fn lemma_push_grows(c0: Compiler, mid: Compiler, c1: Compiler, byte: u8, line: u32)
    requires
        mid.grows_from(c0),
        c1.wf(),
        c1.code() == mid.code().push(byte),
        c1.lines() == mid.lines().push(line),
        c1.constants() == mid.constants(),
        c1.depth() == mid.depth(),
        c1.locals() == mid.locals(),
        c1.kind() == mid.kind(),
        c1.numbers() == mid.numbers(),
        c1.function_name() == mid.function_name(),
        c1.function_arity() == mid.function_arity(),
        c1.parser_view() == mid.parser_view(),
    ensures
        c1.grows_from(c0),
{
    lemma_prefix_concat(mid.code(), seq![byte]);
    assert(mid.code().push(byte) =~= mid.code() + seq![byte]);
    lemma_prefix_concat(mid.lines(), seq![line]);
    assert(mid.lines().push(line) =~= mid.lines() + seq![line]);
    lemma_prefix_refl(mid.constants());
    lemma_grows_trans(c0, mid, c1);
}

/// Emitting a jump grows the compiler.
proof fn lemma_jump_grows(c0: Compiler, c1: Compiler, op: OpCode, line: u32)
    requires
        c1.wf(),
        c1.code() == c0.code() + seq![op_byte(op), op_byte(OpCode::Nop), op_byte(OpCode::Nop)],
        c1.lines() == c0.lines() + repeat_line(line, 3),
        c1.constants() == c0.constants(),
        c1.depth() == c0.depth(),
        c1.locals() == c0.locals(),
        c1.kind() == c0.kind(),
        c1.numbers() == c0.numbers(),
        c1.function_name() == c0.function_name(),
        c1.function_arity() == c0.function_arity(),
        c1.parser_view() == c0.parser_view(),
    ensures
        c1.grows_from(c0),
{
    lemma_prefix_concat(c0.code(), seq![op_byte(op), op_byte(OpCode::Nop), op_byte(OpCode::Nop)]);
    lemma_prefix_concat(c0.lines(), repeat_line(line, 3));
    lemma_prefix_refl(c0.constants());
}

/// Patching a jump emitted after `c0` keeps the growth from `c0`.
proof fn lemma_patch_grows(c0: Compiler, mid: Compiler, c1: Compiler, offset: int)
    requires
        mid.grows_from(c0),
        c1.wf(),
        c0.code().len() <= offset,
        offset + 2 <= mid.code().len(),
        c1.code().len() == mid.code().len(),
        forall|j: int|
            0 <= j < mid.code().len() && j != offset && j != offset + 1 ==> #[trigger] c1.code()[j]
                == mid.code()[j],
        c1.lines() == mid.lines(),
        c1.constants() == mid.constants(),
        c1.depth() == mid.depth(),
        c1.locals() == mid.locals(),
        c1.kind() == mid.kind(),
        c1.numbers() == mid.numbers(),
        c1.function_name() == mid.function_name(),
        c1.function_arity() == mid.function_arity(),
        c1.parser_view() == mid.parser_view(),
    ensures
        c1.grows_from(c0),
{
    assert forall|j: int| 0 <= j < c0.code().len() implies c0.code()[j] == c1.code()[j] by {
        assert(c0.code()[j] == mid.code().subrange(0, c0.code().len() as int)[j]);
    }
    assert(c0.code() =~= c1.code().subrange(0, c0.code().len() as int));
}

/// Growing as a statement is transitive.
proof fn lemma_stmt_trans(c0: Compiler, c1: Compiler, c2: Compiler)
    requires
        c1.stmt_grows_from(c0),
        c2.stmt_grows_from(c1),
    ensures
        c2.stmt_grows_from(c0),
{
    lemma_prefix_trans(c0.code(), c1.code(), c2.code());
    lemma_prefix_trans(c0.lines(), c1.lines(), c2.lines());
    lemma_prefix_trans(c0.constants(), c1.constants(), c2.constants());
}

/// An expression's growth is a statement's growth, and leaves what a
/// statement leaves.
proof fn lemma_expr_stmt(c0: Compiler, c1: Compiler)
    requires
        c1.grows_from(c0),
    ensures
        c1.stmt_grows_from(c0),
        c1.stmt_done(c0),
{
    lemma_prefix_refl(c0.locals());
}

/// What statements leave composes.
proof fn lemma_done_trans(c0: Compiler, c1: Compiler, c2: Compiler)
    requires
        c1.stmt_done(c0),
        c2.stmt_done(c1),
    ensures
        c2.stmt_done(c0),
{
    lemma_prefix_trans(c0.locals(), c1.locals(), c2.locals());
    assert forall|i: int| c0.locals().len() <= i < c2.locals().len() implies (
    #[trigger] c2.locals()[i]).spec_depth() == c0.depth() by {
        if i < c1.locals().len() {
            assert(c2.locals()[i] == c2.locals().subrange(0, c1.locals().len() as int)[i]);
            assert(c1.locals()[i].spec_depth() == c0.depth());
        }
    }
}

/// Patching a jump emitted after `c0` keeps the statement growth from `c0`.
proof fn lemma_patch_stmt(c0: Compiler, mid: Compiler, c1: Compiler, offset: int)
    requires
        mid.stmt_grows_from(c0),
        c1.wf(),
        c0.code().len() <= offset,
        offset + 2 <= mid.code().len(),
        c1.code().len() == mid.code().len(),
        forall|j: int|
            0 <= j < mid.code().len() && j != offset && j != offset + 1 ==> #[trigger] c1.code()[j]
                == mid.code()[j],
        c1.lines() == mid.lines(),
        c1.constants() == mid.constants(),
        c1.numbers() == mid.numbers(),
        c1.function_name() == mid.function_name(),
        c1.function_arity() == mid.function_arity(),
        c1.parser_view() == mid.parser_view(),
    ensures
        c1.stmt_grows_from(c0),
{
    assert forall|j: int| 0 <= j < c0.code().len() implies c0.code()[j] == c1.code()[j] by {
        assert(c0.code()[j] == mid.code().subrange(0, c0.code().len() as int)[j]);
    }
    assert(c0.code() =~= c1.code().subrange(0, c0.code().len() as int));
}

/// When the locals before a scope all stay and those declared in it all
/// go, ending the scope leaves the locals before it.
proof fn lemma_scope_filter(prefix: Seq<Local>, s: Seq<Local>, d: usize)
    requires
        prefix.is_prefix_of(s),
        forall|i: int| 0 <= i < prefix.len() ==> (#[trigger] prefix[i]).spec_depth() <= d,
        forall|i: int| prefix.len() <= i < s.len() ==> (#[trigger] s[i]).spec_depth() > d,
    ensures
        s.filter(kept_in(d)) == prefix,
    decreases s.len(),
{
    reveal(Seq::filter);
    if s.len() == prefix.len() {
        assert(s =~= prefix);
        if s.len() > 0 {
            let p2 = prefix.drop_last();
            assert(p2.is_prefix_of(s.drop_last()));
            assert forall|i: int| 0 <= i < p2.len() implies (#[trigger] p2[i]).spec_depth() <= d by {
                assert(p2[i] == prefix[i]);
            }
            lemma_scope_filter(p2, s.drop_last(), d);
            assert(kept_in(d)(s.last()));
            assert(s.drop_last().push(s.last()) =~= s);
        }
    } else {
        assert(prefix.is_prefix_of(s.drop_last())) by {
            assert(prefix =~= s.drop_last().subrange(0, prefix.len() as int));
        }
        assert forall|i: int| prefix.len() <= i < s.drop_last().len() implies (
        #[trigger] s.drop_last()[i]).spec_depth() > d by {
            assert(s.drop_last()[i] == s[i]);
        }
        lemma_scope_filter(prefix, s.drop_last(), d);
        assert(!kept_in(d)(s.last()));
    }
}

/// What the compiler encodes, the reader decodes: the operand of an
/// instruction emitted with an index below 2^24 reads back (one byte up to
/// 255, three above) as that index, after the instruction's byte.
pub proof fn lemma_operand_roundtrip(code: Seq<u8>, op: OpCode, index: u64)
    requires
        index < 0x1000000,
    ensures
        ({
            let emitted = code + operand_instruction(op, index as nat);
            &&& emitted[code.len() as int] == op_byte(if index > 255 { spec_long(op) } else { op })
            &&& operand_value(emitted, code.len() as int, if index > 255 { 3 } else { 1 }) == index
        }),
{
    let emitted = code + operand_instruction(op, index as nat);
    let n = code.len() as int;
    if index > 255 {
        assert(emitted[n + 1] == (index % 256) as u8);
        assert(emitted[n + 2] == ((index / 256) % 256) as u8);
        assert(emitted[n + 3] == ((index / 65536) % 256) as u8);
        assert(index < 0x1000000 ==> (index % 256) + 256 * ((index / 256) % 256) + 65536 * ((index
            / 65536) % 256) == index) by (bit_vector);
    } else {
        assert(emitted[n + 1] == index as u8);
    }
}

/// A local that was declared and then defined is found again by its name,
/// initialized, at the slot after the locals before it: what
/// `declare_local` and `define_local` leave, `resolve_local` resolves to
/// that slot.
pub proof fn lemma_declared_local_resolves(before: Seq<Local>, after: Seq<Local>, name: Seq<char>)
    requires
        after.len() == before.len() + 1,
        after.drop_last() == before,
        after.last().spec_name() == name,
        after.last().spec_init(),
    ensures
        last_named(after, name) == Some(before.len() as int),
        after[before.len() as int].spec_init(),
{
}

/// Appending bytes to the code, with no change to the constant pool or the
/// heap, is `put`.
proof fn lemma_put(c0: Compiler, h0: Heap, c1: Compiler, h1: Heap, bytes: Seq<u8>, line: u32)
    requires
        c1.code() == c0.code() + bytes,
        c1.lines() == c0.lines() + repeat_line(line, bytes.len()),
        c1.constants() == c0.constants(),
        h1.strings() == h0.strings(),
        h1.slots() == h0.slots(),
        h1.objects() == h0.objects(),
    ensures
        emission(c1, h1) == put(emission(c0, h0), bytes, line),
{
}

/// Appending one byte is `put` of that byte.
proof fn lemma_put_byte(c0: Compiler, h0: Heap, c1: Compiler, h1: Heap, byte: u8, line: u32)
    requires
        c1.code() == c0.code().push(byte),
        c1.lines() == c0.lines().push(line),
        c1.constants() == c0.constants(),
        h1.strings() == h0.strings(),
        h1.slots() == h0.slots(),
        h1.objects() == h0.objects(),
    ensures
        emission(c1, h1) == put(emission(c0, h0), seq![byte], line),
{
    assert(c1.code() =~= c0.code() + seq![byte]);
    assert(c1.lines() =~= c0.lines() + repeat_line(line, 1));
}

/// Interning a string in the heap is `intern`, and gives the reference
/// `string_index` names.
proof fn lemma_str_emission(c: Compiler, h0: Heap, h1: Heap, s: Seq<char>, v: Value)
    requires
        h0.wf(),
        str_pushed(h0, s, h1, v),
    ensures
        emission(c, h1) == intern(emission(c, h0), s),
        v == value_of(object_bits(string_index(emission(c, h0), s) as u64)),
{
    broadcast use crate::value::lemma_bits_value_of;

    assert(value_of(v.spec_bits()) == v);
    assert(functions_of(h1.objects()) =~= functions_of(h0.objects()));
}

/// Storing a function object at a free index adds what it holds to the
/// compiled functions.
proof fn lemma_function_stored(o0: Map<usize, Object>, k: usize, o: Object)
    requires
        !o0.dom().contains(k),
        o is Function,
    ensures
        functions_of(o0.insert(k, o)) == functions_of(o0).insert(k, func_view(o)),
{
    assert(functions_of(o0.insert(k, o)) =~= functions_of(o0).insert(k, func_view(o)));
}

/// What the compiler knows of a fresh local.
proof fn lemma_fresh_view(name: String, depth: usize)
    ensures
        local_view(Local::fresh(name, depth)) == (LocalV { name: name@, depth, init: false }),
{
}

/// What the compiler knows of an initialized local.
proof fn lemma_initialized_view(l: Local)
    ensures
        local_view(l.initialized()) == (LocalV { name: l.spec_name(), depth: l.spec_depth(), init: true }),
{
}

/// The last local of a name is found alike in the locals and in what the
/// compiler knows of them.
proof fn lemma_last_local_view(ls: Seq<Local>, name: Seq<char>)
    ensures
        last_local(locals_view(ls), name) == last_named(ls, name),
        locals_view(ls).len() == ls.len(),
        forall|i: int| 0 <= i < ls.len() ==> #[trigger] locals_view(ls)[i] == local_view(ls[i]),
    decreases ls.len(),
{
    if ls.len() > 0 {
        assert(locals_view(ls).drop_last() =~= locals_view(ls.drop_last()));
        lemma_last_local_view(ls.drop_last(), name);
    }
}

/// A scope has a local of a name alike in the locals and in what the
/// compiler knows of them.
proof fn lemma_declared_view(ls: Seq<Local>, depth: usize, name: Seq<char>)
    ensures
        declared_at(locals_view(ls), depth, name) == declared_in_scope(ls, depth, name),
{
    if declared_in_scope(ls, depth, name) {
        let j = choose|j: int| 0 <= j < ls.len() && #[trigger] ls[j].spec_depth() == depth && ls[j].spec_name() == name;
        assert(locals_view(ls)[j].depth == depth);
    }
    if declared_at(locals_view(ls), depth, name) {
        let j = choose|j: int| 0 <= j < locals_view(ls).len() && #[trigger] locals_view(ls)[j].depth == depth && locals_view(ls)[j].name == name;
        assert(ls[j].spec_depth() == depth);
    }
}

/// Dropping the locals of a scope commutes with what the compiler knows of
/// them.
proof fn lemma_filter_view(ls: Seq<Local>, d: usize)
    ensures
        locals_view(ls.filter(kept_in(d))) == locals_view(ls).filter(stays(d)),
    decreases ls.len(),
{
    reveal(Seq::filter);
    if ls.len() > 0 {
        lemma_filter_view(ls.drop_last(), d);
        assert(locals_view(ls).drop_last() =~= locals_view(ls.drop_last()));
        assert(locals_view(ls).last() == local_view(ls.last()));
        if kept_in(d)(ls.last()) {
            assert(locals_view(ls.drop_last().filter(kept_in(d)).push(ls.last())) =~= locals_view(
                ls.drop_last().filter(kept_in(d)),
            ).push(local_view(ls.last())));
        }
    } else {
        assert(locals_view(ls.filter(kept_in(d))) =~= locals_view(ls).filter(stays(d)));
    }
}

} // verus!
