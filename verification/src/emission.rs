use vstd::prelude::*;

use crate::ast::is_unary_kind;
use crate::compiler::{binary_opcode, number_lookup, operand_instruction, repeat_line, Compiler, Local};
use crate::syntax::{stmtsv_size, stmtv_size, unit_result, ErrV, ExprV, StmtV, TokV};
use crate::heap::Heap;
use crate::errors::InterpretError;
use crate::object::{FunctionType, Object};
use crate::opcode::{op_byte, OpCode};
use crate::text::without_quotes;
use crate::token::TokenType;
use crate::value::{boolean_bits, nil_bits, object_bits, value_of, Value};

verus! {

/// What compiling part of a function has produced: the code, the source line
/// of each byte, the constant pool, and the heap's interned strings, number
/// of objects and compiled functions.
#[verifier::ext_equal]
pub struct Emission {
    pub code: Seq<u8>,
    pub lines: Seq<u32>,
    pub constants: Seq<Value>,
    pub strings: Map<Seq<char>, usize>,
    pub slots: usize,
    pub funcs: Map<usize, FuncV>,
}

/// A compiled function as the heap holds it: its name, number of
/// parameters, code, the source line of each byte, and constant pool.
#[verifier::ext_equal]
pub struct FuncV {
    pub name: Seq<char>,
    pub arity: u8,
    pub code: Seq<u8>,
    pub lines: Seq<u32>,
    pub constants: Seq<Value>,
}

/// What a function object holds (of any other object, nothing).
pub open spec fn func_view(o: Object) -> FuncV {
    match o {
        Object::Function(f) => FuncV {
            name: f.name@,
            arity: f.arity,
            code: f.chunk.code@,
            lines: f.chunk.line_of(),
            constants: f.chunk.constants@,
        },
        _ => FuncV {
            name: Seq::empty(),
            arity: 0,
            code: Seq::empty(),
            lines: Seq::empty(),
            constants: Seq::empty(),
        },
    }
}

/// The function objects among `objects`, by heap index.
pub open spec fn functions_of(objects: Map<usize, Object>) -> Map<usize, FuncV> {
    Map::new(
        |k: usize| objects.dom().contains(k) && objects[k] is Function,
        |k: usize| func_view(objects[k]),
    )
}

/// What compiler `c` has produced so far, with heap `h`.
pub open spec fn emission(c: Compiler, h: Heap) -> Emission {
    Emission {
        code: c.code(),
        lines: c.lines(),
        constants: c.constants(),
        strings: h.strings(),
        slots: h.slots(),
        funcs: functions_of(h.objects()),
    }
}

/// What the compiler knows of a local variable: its name, the depth of the
/// scope it was declared in, and whether its initializer has been compiled.
pub struct LocalV {
    pub name: Seq<char>,
    pub depth: usize,
    pub init: bool,
}

/// What the compiler knows of a local.
pub open spec fn local_view(l: Local) -> LocalV {
    LocalV { name: l.spec_name(), depth: l.spec_depth(), init: l.spec_init() }
}

/// What the compiler knows of its locals.
pub open spec fn locals_view(ls: Seq<Local>) -> Seq<LocalV> {
    ls.map_values(|l: Local| local_view(l))
}

/// The index of the last local named `name`, if any.
pub open spec fn last_local(locals: Seq<LocalV>, name: Seq<char>) -> Option<int>
    decreases locals.len(),
{
    if locals.len() == 0 {
        None
    } else if locals.last().name == name {
        Some(locals.len() - 1)
    } else {
        last_local(locals.drop_last(), name)
    }
}

/// Whether the scope of depth `depth` already has a local named `name`.
pub open spec fn declared_at(locals: Seq<LocalV>, depth: usize, name: Seq<char>) -> bool {
    exists|j: int| 0 <= j < locals.len() && #[trigger] locals[j].depth == depth && locals[j].name == name
}

/// Whether a local stays when the scope of depth `depth + 1` ends.
pub open spec fn stays(depth: usize) -> spec_fn(LocalV) -> bool {
    |l: LocalV| l.depth <= depth
}

/// `e` with `bytes` appended to the code, each read from line `line`.
pub open spec fn put(e: Emission, bytes: Seq<u8>, line: u32) -> Emission {
    Emission {
        code: e.code + bytes,
        lines: e.lines + repeat_line(line, bytes.len()),
        constants: e.constants,
        strings: e.strings,
        slots: e.slots,
        funcs: e.funcs,
    }
}

/// `e` with `v` added to the constant pool and loaded by instruction `op`.
pub open spec fn put_constant(e: Emission, op: OpCode, v: Value, line: u32) -> Emission {
    Emission {
        code: e.code + operand_instruction(op, e.constants.len()),
        lines: e.lines + repeat_line(line, operand_instruction(op, e.constants.len()).len()),
        constants: e.constants.push(v),
        strings: e.strings,
        slots: e.slots,
        funcs: e.funcs,
    }
}

/// The heap index that string `s` has once it is interned.
pub open spec fn string_index(e: Emission, s: Seq<char>) -> usize {
    if e.strings.dom().contains(s) {
        e.strings[s]
    } else {
        e.slots
    }
}

/// `e` once string `s` is interned: a new string object is stored unless
/// `s` already was.
pub open spec fn intern(e: Emission, s: Seq<char>) -> Emission {
    if e.strings.dom().contains(s) {
        e
    } else {
        Emission {
            code: e.code,
            lines: e.lines,
            constants: e.constants,
            strings: e.strings.insert(s, e.slots),
            slots: (e.slots + 1) as usize,
            funcs: e.funcs,
        }
    }
}

/// `e` once string `s` is interned and a reference to it is loaded by
/// instruction `op`.
pub open spec fn put_string(e: Emission, op: OpCode, s: Seq<char>, line: u32) -> Emission {
    put_constant(intern(e, s), op, value_of(object_bits(string_index(e, s) as u64)), line)
}

/// A jump instruction with a two-byte placeholder for its distance.
pub open spec fn jump_bytes(op: OpCode) -> Seq<u8> {
    seq![op_byte(op), op_byte(OpCode::Nop), op_byte(OpCode::Nop)]
}

/// `e` with the placeholder at `offset` filled with the distance from the
/// end of the placeholder to the end of the code; `None` if that distance
/// does not fit in two bytes.
pub open spec fn patch(e: Emission, offset: int) -> Option<Emission> {
    let distance = e.code.len() - offset - 2;
    if distance > 65535 {
        None
    } else {
        Some(
            Emission {
                code: e.code.update(offset, (distance % 256) as u8).update(
                    offset + 1,
                    (distance / 256) as u8,
                ),
                lines: e.lines,
                constants: e.constants,
                strings: e.strings,
                slots: e.slots,
                funcs: e.funcs,
            },
        )
    }
}

/// What a compilation step gives: what was produced, up to where it
/// stopped, and whether it succeeded or the error that stopped it.
pub type Emitted = (Emission, Result<(), ErrV>);

/// A step that succeeded with `e`.
pub open spec fn done(e: Emission) -> Emitted {
    (e, Ok(()))
}

/// `e` with the placeholder at `offset` filled; where the distance does not
/// fit, `e` unchanged and `LargeJump` on line `line`.
pub open spec fn patched(e: Emission, offset: int, line: u32) -> Emitted {
    match patch(e, offset) {
        Some(e1) => done(e1),
        None => (e, Err(ErrV::LargeJump(line, (e.code.len() - offset - 2) as usize))),
    }
}

/// What a literal compiles to: its value loaded from the constant pool (a
/// number's value from the number table, a string interned without its
/// quotes); an internal error for a number the table lacks or a token that
/// is no literal.
pub open spec fn literal_emission(
    numbers: Seq<(Seq<char>, u64)>,
    e: Emission,
    t: TokV,
) -> Emitted {
    match t.kind {
        TokenType::Number => match number_lookup(numbers, t.lexeme) {
            Some(b) => done(put_constant(e, OpCode::LoadConstant, value_of(b), t.line)),
            None => (e, Err(ErrV::General(t.line, "number literal without a value"@))),
        },
        TokenType::True => done(
            put_constant(e, OpCode::LoadConstant, value_of(boolean_bits(true)), t.line),
        ),
        TokenType::False => done(
            put_constant(e, OpCode::LoadConstant, value_of(boolean_bits(false)), t.line),
        ),
        TokenType::Nil => done(put_constant(e, OpCode::LoadConstant, value_of(nil_bits()), t.line)),
        TokenType::String => done(
            put_string(e, OpCode::LoadConstant, without_quotes(t.lexeme), t.line),
        ),
        _ => (e, Err(ErrV::InvalidToken(t.line, t.kind, "<compiler.visit_literal>"@))),
    }
}

/// What reading or writing variable `t` compiles to: `local_op` with the
/// slot of the innermost local of that name, which must be initialized;
/// else `global_op` with its interned name.
pub open spec fn access_emission(
    locals: Seq<LocalV>,
    e: Emission,
    t: TokV,
    local_op: OpCode,
    global_op: OpCode,
) -> Emitted {
    match last_local(locals, t.lexeme) {
        Some(i) => if locals[i].init {
            done(put(e, operand_instruction(local_op, i as nat), t.line))
        } else {
            (e, Err(ErrV::SelfInitialization(t.line)))
        },
        None => done(put_string(e, global_op, t.lexeme, t.line)),
    }
}

/// What an expression compiles to, from `e`, with the locals `locals` in
/// scope and the number table `numbers`: the code that leaves its value on
/// the stack, or where compiling it stops and why.
pub open spec fn expr_emission(
    locals: Seq<LocalV>,
    numbers: Seq<(Seq<char>, u64)>,
    e: Emission,
    x: ExprV,
) -> Emitted
    decreases x, 0int,
{
    match x {
        ExprV::Literal(t) => literal_emission(numbers, e, t),
        ExprV::Unary(op, y) => if is_unary_kind(op.kind) {
            match expr_emission(locals, numbers, e, *y) {
                (e1, Ok(_)) => done(
                    put(
                        e1,
                        seq![
                            op_byte(
                                if op.kind == TokenType::Minus {
                                    OpCode::Negate
                                } else {
                                    OpCode::Not
                                },
                            ),
                        ],
                        op.line,
                    ),
                ),
                failed => failed,
            }
        } else {
            (e, Err(ErrV::InvalidToken(op.line, op.kind, "<compiler.visit_unary>"@)))
        },
        ExprV::Binary(op, l, r) => match binary_opcode(op.kind) {
            Some(code) => match expr_emission(locals, numbers, e, *l) {
                (e1, Ok(_)) => match expr_emission(locals, numbers, e1, *r) {
                    (e2, Ok(_)) => done(put(e2, seq![op_byte(code)], op.line)),
                    failed => failed,
                },
                failed => failed,
            },
            None => (e, Err(ErrV::InvalidToken(op.line, op.kind, "<compiler.visit_binary>"@))),
        },
        ExprV::Grouping(y) => expr_emission(locals, numbers, e, *y),
        ExprV::Variable(t) => access_emission(locals, e, t, OpCode::GetLocal, OpCode::GetGlobal),
        ExprV::Assign(t, y) => match expr_emission(locals, numbers, e, *y) {
            (e1, Ok(_)) => access_emission(locals, e1, t, OpCode::SetLocal, OpCode::SetGlobal),
            failed => failed,
        },
        ExprV::And(t, l, r) => match expr_emission(locals, numbers, e, *l) {
            (e1, Ok(_)) => {
                let e2 = put(put(e1, jump_bytes(OpCode::JumpIfFalse), t.line), seq![op_byte(OpCode::Pop)], t.line);
                match expr_emission(locals, numbers, e2, *r) {
                    (e3, Ok(_)) => patched(e3, e1.code.len() + 1int, t.line),
                    failed => failed,
                }
            },
            failed => failed,
        },
        ExprV::Or(t, l, r) => match expr_emission(locals, numbers, e, *l) {
            (e1, Ok(_)) => {
                let e2 = put(put(e1, jump_bytes(OpCode::JumpIfFalse), t.line), jump_bytes(OpCode::Jump), t.line);
                match patched(e2, e1.code.len() + 1int, t.line) {
                    (e3, Ok(_)) => {
                        let e4 = put(e3, seq![op_byte(OpCode::Pop)], t.line);
                        match expr_emission(locals, numbers, e4, *r) {
                            (e5, Ok(_)) => patched(e5, e1.code.len() + 4int, t.line),
                            failed => failed,
                        }
                    },
                    failed => failed,
                }
            },
            failed => failed,
        },
        ExprV::Call(c, args, closing) => match expr_emission(locals, numbers, e, *c) {
            (e1, Ok(_)) => match args_emission(locals, numbers, e1, args) {
                (e2, Ok(_)) => done(put(e2, operand_instruction(OpCode::Call, args.len()), closing.line)),
                failed => failed,
            },
            failed => failed,
        },
        _ => (e, Err(ErrV::UnImplemented)),
    }
}

/// What a list of expressions compiles to: each in turn, from `e`, up to
/// the first that fails.
pub open spec fn args_emission(
    locals: Seq<LocalV>,
    numbers: Seq<(Seq<char>, u64)>,
    e: Emission,
    xs: Seq<ExprV>,
) -> Emitted
    decreases xs, 1int,
{
    if xs.len() == 0 {
        done(e)
    } else {
        match expr_emission(locals, numbers, e, xs[0]) {
            (e1, Ok(_)) => args_emission(locals, numbers, e1, xs.subrange(1, xs.len() as int)),
            failed => failed,
        }
    }
}

/// What compiling statements changes: what was produced, the locals in
/// scope, the scope depth and the kind of function being compiled.
#[verifier::ext_equal]
pub struct Progress {
    pub out: Emission,
    pub locals: Seq<LocalV>,
    pub depth: usize,
    pub kind: FunctionType,
}

/// Where compiler `c`, with heap `h`, stands.
pub open spec fn progress(c: Compiler, h: Heap) -> Progress {
    Progress {
        out: emission(c, h),
        locals: locals_view(c.locals()),
        depth: c.depth(),
        kind: c.kind(),
    }
}

/// What a statement step gives: where compilation stands, up to where it
/// stopped, and whether it succeeded or the error that stopped it.
pub type Stepped = (Progress, Result<(), ErrV>);

/// Whether a compilation that ended with compiler `c`, heap `h` and result
/// `res` ended as `r` says.
pub open spec fn reaches(r: Stepped, c: Compiler, h: Heap, res: Result<(), InterpretError>) -> bool {
    progress(c, h) == r.0 && unit_result(res) == r.1
}

/// `p` with its output replaced by `out`.
pub open spec fn with_out(p: Progress, out: Emission) -> Progress {
    Progress { out, locals: p.locals, depth: p.depth, kind: p.kind }
}

/// `p` after the code of expression `x`, up to where it stops.
pub open spec fn with_expr(numbers: Seq<(Seq<char>, u64)>, p: Progress, x: ExprV) -> Stepped {
    let (out, r) = expr_emission(p.locals, numbers, p.out, x);
    (with_out(p, out), r)
}

/// `p` with a local `name` declared: nothing at the global scope, `None`
/// if the scope already has a local of that name.
pub open spec fn declare(p: Progress, name: Seq<char>) -> Option<Progress> {
    if p.depth == 0 {
        Some(p)
    } else if declared_at(p.locals, p.depth, name) {
        None
    } else {
        Some(
            Progress {
                out: p.out,
                locals: p.locals.push(LocalV { name, depth: p.depth, init: false }),
                depth: p.depth,
                kind: p.kind,
            },
        )
    }
}

/// `p` with its innermost local initialized; nothing at the global scope.
pub open spec fn define(p: Progress) -> Progress {
    if p.depth == 0 {
        p
    } else {
        Progress {
            out: p.out,
            locals: p.locals.update(
                p.locals.len() - 1,
                LocalV { name: p.locals.last().name, depth: p.locals.last().depth, init: true },
            ),
            depth: p.depth,
            kind: p.kind,
        }
    }
}

/// `p` once the scope of depth `d + 1` ends: its locals dropped, with a
/// `Pop` (on line 0) for each.
pub open spec fn end_scope(p: Progress, d: usize) -> Progress {
    let kept = p.locals.filter(stays(d));
    Progress {
        out: put(
            p.out,
            Seq::new((p.locals.len() - kept.len()) as nat, |_i: int| op_byte(OpCode::Pop)),
            0,
        ),
        locals: kept,
        depth: d,
        kind: p.kind,
    }
}

/// `e` with a backward jump to `loop_start`; where the distance does not
/// fit in two bytes, only the `Loop` byte and `LargeJump`.
pub open spec fn loop_back(e: Emission, loop_start: int, line: u32) -> Emitted {
    let distance = e.code.len() + 1 - loop_start + 2;
    if distance > 65535 {
        (put(e, seq![op_byte(OpCode::Loop)], line), Err(ErrV::LargeJump(line, distance as usize)))
    } else {
        done(
            put(
                e,
                seq![op_byte(OpCode::Loop), (distance % 256) as u8, (distance / 256) as u8],
                line,
            ),
        )
    }
}

/// `p` with the parameters `params` declared and initialized in turn, up
/// to one whose name the function already has.
pub open spec fn params_progress(p: Progress, params: Seq<TokV>) -> Stepped
    decreases params.len(),
{
    if params.len() == 0 {
        (p, Ok(()))
    } else {
        match declare(p, params[0].lexeme) {
            Some(p1) => params_progress(define(p1), params.drop_first()),
            None => (p, Err(ErrV::AlreadyDeclared(params[0].line, params[0].lexeme))),
        }
    }
}

/// Where the compilation of the body of function `id` ends, starting from
/// the heap's interned strings `strings`, size `slots` and compiled
/// functions `funcs`: a new function whose slot 0 holds the function itself
/// and whose parameters are its next locals, ending with `return nil`; or
/// where it stops.
pub open spec fn function_progress(
    numbers: Seq<(Seq<char>, u64)>,
    strings: Map<Seq<char>, usize>,
    slots: usize,
    funcs: Map<usize, FuncV>,
    id: TokV,
    params: Seq<TokV>,
    body: Seq<StmtV>,
) -> Stepped
    decreases stmtsv_size(body), 3int,
{
    let start = Progress {
        out: Emission {
            code: Seq::empty(),
            lines: Seq::empty(),
            constants: Seq::empty(),
            strings,
            slots,
            funcs,
        },
        locals: seq![LocalV { name: id.lexeme, depth: 1, init: true }],
        depth: 1,
        kind: FunctionType::Function,
    };
    match params_progress(start, params) {
        (p1, Ok(_)) => match stmts_progress(numbers, p1, body) {
            (p2, Ok(_)) => (
                with_out(
                    p2,
                    put(
                        put_constant(p2.out, OpCode::LoadConstant, value_of(nil_bits()), id.line),
                        seq![op_byte(OpCode::Return)],
                        id.line,
                    ),
                ),
                Ok(()),
            ),
            failed => failed,
        },
        failed => failed,
    }
}

/// `p` after the code of `x` and then instruction `op` on line `line`.
pub open spec fn then_op(
    numbers: Seq<(Seq<char>, u64)>,
    p: Progress,
    x: ExprV,
    op: OpCode,
    line: u32,
) -> Stepped {
    match with_expr(numbers, p, x) {
        (p1, Ok(_)) => (with_out(p1, put(p1.out, seq![op_byte(op)], line)), Ok(())),
        failed => failed,
    }
}

/// What `var id = init;` compiles to: a local declared in a scope; the
/// value (`nil` without initializer); at the global scope, `DefineGlobal`
/// with the interned name; then the local initialized.
pub open spec fn var_progress(
    numbers: Seq<(Seq<char>, u64)>,
    p: Progress,
    id: TokV,
    init: Option<ExprV>,
) -> Stepped {
    match declare(p, id.lexeme) {
        Some(p1) => match (match init {
            Some(x) => with_expr(numbers, p1, x),
            None => (
                with_out(
                    p1,
                    put_constant(p1.out, OpCode::LoadConstant, value_of(nil_bits()), id.line),
                ),
                Ok(()),
            ),
        }) {
            (p2, Ok(_)) => (
                define(
                    if p.depth == 0 {
                        with_out(p2, put_string(p2.out, OpCode::DefineGlobal, id.lexeme, id.line))
                    } else {
                        p2
                    },
                ),
                Ok(()),
            ),
            failed => failed,
        },
        None => (p, Err(ErrV::AlreadyDeclared(id.line, id.lexeme))),
    }
}

/// What a block compiles to: its statements in a new scope, which then
/// ends. (A statement that fails leaves the scope open.)
pub open spec fn block_progress(numbers: Seq<(Seq<char>, u64)>, p: Progress, stmts: Seq<StmtV>) -> Stepped
    decreases 1 + stmtsv_size(stmts), 0int,
{
    if p.depth == usize::MAX {
        (p, Err(ErrV::General(0, "too many nested scopes"@)))
    } else {
        let inner = Progress {
            out: p.out,
            locals: p.locals,
            depth: (p.depth + 1) as usize,
            kind: p.kind,
        };
        match stmts_progress(numbers, inner, stmts) {
            (p1, Ok(_)) => (end_scope(p1, p.depth), Ok(())),
            failed => failed,
        }
    }
}

/// What `if (cond) then_branch else else_branch` compiles to: the
/// condition; a jump to the else part if it is false; `Pop`, the then
/// branch and a jump past the else part; `Pop`; the else branch. (The
/// first jump lands after that second `Pop`.)
pub open spec fn if_progress(
    numbers: Seq<(Seq<char>, u64)>,
    p: Progress,
    t: TokV,
    cond: ExprV,
    then_branch: StmtV,
    else_branch: Option<Box<StmtV>>,
) -> Stepped
    decreases 1 + stmtv_size(then_branch) + match else_branch {
        Some(b) => stmtv_size(*b),
        None => 0,
    }, 0int,
{
    match with_expr(numbers, p, cond) {
        (p1, Ok(_)) => {
            let if_offset = p1.out.code.len() + 1int;
            let p2 = with_out(
                p1,
                put(put(p1.out, jump_bytes(OpCode::JumpIfFalse), t.line), seq![op_byte(OpCode::Pop)], t.line),
            );
            match stmt_progress(numbers, p2, then_branch) {
                (p3, Ok(_)) => {
                    let else_offset = p3.out.code.len() + 1int;
                    let p4 = with_out(
                        p3,
                        put(put(p3.out, jump_bytes(OpCode::Jump), t.line), seq![op_byte(OpCode::Pop)], t.line),
                    );
                    match patched(p4.out, if_offset, t.line) {
                        (o5, Ok(_)) => match (match else_branch {
                            Some(b) => stmt_progress(numbers, with_out(p4, o5), *b),
                            None => (with_out(p4, o5), Ok(())),
                        }) {
                            (p6, Ok(_)) => {
                                let (o7, r) = patched(p6.out, else_offset, t.line);
                                (with_out(p6, o7), r)
                            },
                            failed => failed,
                        },
                        (o5, r) => (with_out(p4, o5), r),
                    }
                },
                failed => failed,
            }
        },
        failed => failed,
    }
}

/// What `while (cond) body` compiles to: the condition; a jump past the
/// loop if it is false; `Pop`, the body and a jump back to the condition;
/// `Pop` on the way out.
pub open spec fn while_progress(
    numbers: Seq<(Seq<char>, u64)>,
    p: Progress,
    t: TokV,
    cond: ExprV,
    body: StmtV,
) -> Stepped
    decreases 1 + stmtv_size(body), 0int,
{
    match with_expr(numbers, p, cond) {
        (p1, Ok(_)) => {
            let offset = p1.out.code.len() + 1int;
            let p2 = with_out(
                p1,
                put(put(p1.out, jump_bytes(OpCode::JumpIfFalse), t.line), seq![op_byte(OpCode::Pop)], t.line),
            );
            match stmt_progress(numbers, p2, body) {
                (p3, Ok(_)) => match loop_back(p3.out, p.out.code.len() as int, t.line) {
                    (o4, Ok(_)) => match patched(o4, offset, t.line) {
                        (o5, Ok(_)) => (with_out(p3, put(o5, seq![op_byte(OpCode::Pop)], t.line)), Ok(())),
                        (o5, r) => (with_out(p3, o5), r),
                    },
                    (o4, r) => (with_out(p3, o4), r),
                },
                failed => failed,
            }
        },
        failed => failed,
    }
}

/// What `fun id(params) { body }` compiles to: `id` declared and
/// initialized as a local in a scope; the function compiled and stored at
/// the next heap index, with its name, number of parameters, code, lines
/// and constants; `Closure` with the reference to it; at the global
/// scope, `DefineGlobal` with the interned name; the enclosing code's
/// locals, scope and kind are back. Where the function fails to compile,
/// the enclosing code, locals, scope and kind are back, and the heap keeps
/// what the function interned.
pub open spec fn func_progress(
    numbers: Seq<(Seq<char>, u64)>,
    p: Progress,
    id: TokV,
    params: Seq<TokV>,
    body: Seq<StmtV>,
) -> Stepped
    decreases 1 + stmtsv_size(body), 0int,
{
    match declare(p, id.lexeme) {
        Some(p1) => {
            let p2 = define(p1);
            match function_progress(numbers, p2.out.strings, p2.out.slots, p2.out.funcs, id, params, body) {
                (f, Ok(_)) => {
                    let k = f.out.slots;
                    let o = put(
                        Emission {
                            code: p2.out.code,
                            lines: p2.out.lines,
                            constants: p2.out.constants,
                            strings: f.out.strings,
                            slots: (k + 1) as usize,
                            funcs: f.out.funcs.insert(
                                k,
                                FuncV {
                                    name: id.lexeme,
                                    arity: params.len() as u8,
                                    code: f.out.code,
                                    lines: f.out.lines,
                                    constants: f.out.constants,
                                },
                            ),
                        },
                        operand_instruction(
                            OpCode::Closure,
                            value_of(object_bits(k as u64)).spec_as_object() as nat,
                        ),
                        id.line,
                    );
                    (
                        Progress {
                            out: if p2.depth == 0 {
                                put_string(o, OpCode::DefineGlobal, id.lexeme, id.line)
                            } else {
                                o
                            },
                            locals: p2.locals,
                            depth: p2.depth,
                            kind: p2.kind,
                        },
                        Ok(()),
                    )
                },
                (f, r) => (
                    Progress {
                        out: Emission {
                            code: p2.out.code,
                            lines: p2.out.lines,
                            constants: p2.out.constants,
                            strings: f.out.strings,
                            slots: f.out.slots,
                            funcs: f.out.funcs,
                        },
                        locals: p2.locals,
                        depth: p2.depth,
                        kind: p2.kind,
                    },
                    r,
                ),
            }
        },
        None => (p, Err(ErrV::AlreadyDeclared(id.line, id.lexeme))),
    }
}

/// What a statement compiles to, from `p`, or where it stops.
pub open spec fn stmt_progress(numbers: Seq<(Seq<char>, u64)>, p: Progress, s: StmtV) -> Stepped
    decreases stmtv_size(s), 1int,
{
    match s {
        StmtV::Print(t, x) => then_op(numbers, p, x, OpCode::Print, t.line),
        StmtV::Expr(t, x) => then_op(numbers, p, x, OpCode::Pop, t.line),
        StmtV::Return(t, x) => if p.kind == FunctionType::Main {
            (p, Err(ErrV::TopReturn(t.line)))
        } else {
            then_op(numbers, p, x, OpCode::Return, t.line)
        },
        StmtV::DeclareVar(id, init) => var_progress(numbers, p, id, init),
        StmtV::Block(stmts) => block_progress(numbers, p, stmts),
        StmtV::If(t, cond, then_branch, else_branch) => if_progress(
            numbers,
            p,
            t,
            cond,
            *then_branch,
            else_branch,
        ),
        StmtV::While(t, cond, body) => while_progress(numbers, p, t, cond, *body),
        StmtV::DeclareFunc(id, params, body) => func_progress(numbers, p, id, params, body),
        StmtV::DeclareClass(_, _, _) => (p, Err(ErrV::UnImplemented)),
    }
}

/// What a list of statements compiles to: each in turn, from `p`, up to
/// the first that fails.
pub open spec fn stmts_progress(numbers: Seq<(Seq<char>, u64)>, p: Progress, ss: Seq<StmtV>) -> Stepped
    decreases stmtsv_size(ss), 2int,
{
    if ss.len() == 0 {
        (p, Ok(()))
    } else {
        match stmt_progress(numbers, p, ss[0]) {
            (p1, Ok(_)) => {
                proof {
                    assert(stmtv_size(ss[0]) >= 1);
                }
                stmts_progress(numbers, p1, ss.subrange(1, ss.len() as int))
            },
            failed => failed,
        }
    }
}

/// What a declaration of a program compiles to, from `p`.
#[verifier::opaque]
pub open spec fn decl_progress(numbers: Seq<(Seq<char>, u64)>, p: Progress, st: StmtV) -> Stepped {
    stmt_progress(numbers, p, st)
}

/// What a program compiles to, from `p`, given what the parser gave for
/// each declaration: every declaration that was read is compiled from where
/// the one before it left off, whether or not that one failed; the errors
/// are those of the declarations that could not be read or compiled, in
/// order.
pub open spec fn run_program(
    numbers: Seq<(Seq<char>, u64)>,
    p: Progress,
    results: Seq<Result<StmtV, ErrV>>,
) -> (Progress, Seq<ErrV>)
    decreases results.len(),
{
    if results.len() == 0 {
        (p, Seq::empty())
    } else {
        let last = results.last();
        let (q, errs) = run_program(numbers, p, results.drop_last());
        match last {
            Ok(st) => match decl_progress(numbers, q, st) {
                (q1, Ok(_)) => (q1, errs),
                (q1, Err(e)) => (q1, errs.push(e)),
            },
            Err(e) => (q, errs.push(e)),
        }
    }
}

} // verus!
