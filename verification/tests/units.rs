use lox_bytecode_vm::chunk::{Chunk, Instruction};
use lox_bytecode_vm::compiler::{Compiler, Local, NumberTable};
use lox_bytecode_vm::errors::{CompileError, InterpretError, ScanError, SyntaxError};
use lox_bytecode_vm::heap::Heap;
use lox_bytecode_vm::object::{Clock, Function, Native, NativeFn, Object, Sqrt};
use lox_bytecode_vm::opcode::OpCode;
use lox_bytecode_vm::parser::Parser;
use lox_bytecode_vm::scanner::Scanner;
use lox_bytecode_vm::ast::{Expr, Stmt};
use lox_bytecode_vm::text::decimal_text;
use lox_bytecode_vm::token::TokenType;
use lox_bytecode_vm::value::Value;
use lox_bytecode_vm::vm::VM;

#[test]
fn nil_is_only_nil() {
    let v = Value::nil();
    assert!(v.is_nil());
    assert!(!v.is_boolean());
    assert!(!v.is_number());
    assert!(!v.is_object());
    assert!(!v.is_truthy());
}

#[test]
fn booleans_read_back() {
    for b in [true, false] {
        let v = Value::boolean(b);
        assert!(v.is_boolean());
        assert_eq!(v.as_boolean(), b);
        assert!(!v.is_nil() && !v.is_number() && !v.is_object());
        assert_eq!(v.is_truthy(), b);
    }
}

#[test]
fn objects_read_back() {
    let v = Value::object(12345);
    assert!(v.is_object());
    assert_eq!(v.as_object(), 12345);
    assert!(v.is_truthy());
    assert_eq!(v.bits(), 0x8000000000000000 | 0x7ffc000000000000 | 12345);
}

#[test]
fn numbers_are_numbers() {
    for n in [0.0f64, -1.5, 1e300, f64::INFINITY] {
        let v = Value::from_bits(n.to_bits());
        assert!(v.is_number());
        assert!(!v.is_nil() && !v.is_boolean() && !v.is_object());
        assert!(v.is_truthy());
    }
}

#[test]
fn opcodes_round_trip_through_bytes() {
    for b in 0u8..34 {
        let op = OpCode::from_byte(b).unwrap();
        assert_eq!(op.to_byte(), b);
    }
    assert!(OpCode::from_byte(34).is_none());
    assert!(OpCode::from_byte(255).is_none());
}

#[test]
fn long_forms() {
    assert_eq!(OpCode::LoadConstant.to_long(), OpCode::LoadConstantLong);
    assert_eq!(OpCode::DefineGlobal.to_long(), OpCode::DefineGlobalLong);
    assert_eq!(OpCode::GetGlobal.to_long(), OpCode::GetGlobalLong);
    assert_eq!(OpCode::GetLocal.to_long(), OpCode::GetLocalLong);
    assert_eq!(OpCode::SetLocal.to_long(), OpCode::SetLocalLong);
    assert_eq!(OpCode::Closure.to_long(), OpCode::ClosureLong);
    assert_eq!(OpCode::SetGlobal.to_long(), OpCode::SetGlobalLong);
    assert_eq!(OpCode::Add.to_long(), OpCode::Add);
}

#[test]
fn chunk_lines_are_run_length_encoded() {
    let mut c = Chunk::new();
    c.write_byte(1, 10);
    c.write_byte(2, 10);
    c.write_byte(3, 11);
    c.write_byte(4, 10);
    assert_eq!(c.code, vec![1, 2, 3, 4]);
    assert_eq!(c.lines, vec![(10, 2), (11, 1), (10, 1)]);
    assert_eq!(c.get_line(0), 10);
    assert_eq!(c.get_line(1), 10);
    assert_eq!(c.get_line(2), 11);
    assert_eq!(c.get_line(3), 10);
    assert_eq!(c.get_line(4), 0);
}

#[test]
fn constants_are_numbered_in_order() {
    let mut c = Chunk::new();
    assert_eq!(c.add_constant(Value::nil()), 0);
    assert_eq!(c.add_constant(Value::boolean(true)), 1);
    assert_eq!(c.constants.len(), 2);
}

#[test]
fn operands_read_little_endian() {
    let mut c = Chunk::new();
    for b in [7u8, 0x34, 0x12, 0x56] {
        c.write_byte(b, 1);
    }
    assert_eq!(c.read_operand(1, 0), 0x34);
    assert_eq!(c.read_operand(2, 0), 0x1234);
    assert_eq!(c.read_operand(3, 0), 0x561234);
}

fn kinds(source: &str) -> Vec<TokenType> {
    let mut s = Scanner::new(source);
    let mut out = vec![];
    while let Some(item) = s.next() {
        out.push(item.unwrap().token);
    }
    out
}

#[test]
fn scanner_reads_every_kind_of_token() {
    assert_eq!(
        kinds("(){};,.-+*/ ! != = == < <= > >= \"s\" 12.5 name and class else false for fun if nil or print return super this true var while"),
        vec![
            TokenType::LeftParen, TokenType::RightParen, TokenType::LeftBrace, TokenType::RightBrace, TokenType::Semicolon, TokenType::Comma, TokenType::Dot, TokenType::Minus, TokenType::Plus, TokenType::Star,
            TokenType::Slash, TokenType::Bang, TokenType::BangEqual, TokenType::Equal, TokenType::EqualEqual, TokenType::LessThan, TokenType::LessEqual, TokenType::GreaterThan,
            TokenType::GreaterEqual, TokenType::String, TokenType::Number, TokenType::Identifier, TokenType::And, TokenType::Class, TokenType::Else, TokenType::False, TokenType::For, TokenType::Fun, TokenType::If, TokenType::Nil,
            TokenType::Or, TokenType::Print, TokenType::Return, TokenType::Super, TokenType::This, TokenType::True, TokenType::Var, TokenType::While, TokenType::Eof
        ]
    );
}

#[test]
fn scanner_skips_comments_and_counts_lines() {
    let mut s = Scanner::new("// one\n\nvar // two\n x");
    let var = s.next().unwrap().unwrap();
    assert_eq!((var.token, var.line), (TokenType::Var, 3));
    let x = s.next().unwrap().unwrap();
    assert_eq!((x.token, x.lexeme.as_str(), x.line), (TokenType::Identifier, "x", 4));
    let eof = s.next().unwrap().unwrap();
    assert_eq!((eof.token, eof.line), (TokenType::Eof, 4));
    assert!(s.next().is_none());
}

#[test]
fn scanner_keeps_quotes_and_numbers_text() {
    let mut s = Scanner::new("\"a b\" 3.14 7.");
    assert_eq!(s.next().unwrap().unwrap().lexeme, "\"a b\"");
    assert_eq!(s.next().unwrap().unwrap().lexeme, "3.14");
    assert_eq!(s.next().unwrap().unwrap().lexeme, "7");
    assert_eq!(s.next().unwrap().unwrap().token, TokenType::Dot);
}

#[test]
fn scanner_reports_bad_input() {
    let mut s = Scanner::new("@ \"open\nstring");
    assert!(matches!(s.next(), Some(Err(InterpretError::Scan(ScanError::UnexpectedCharacter(1, '@'))))));
    assert!(matches!(s.next(), Some(Err(InterpretError::Scan(ScanError::UnterminatedString(2))))));
}

fn parse(source: &str) -> Vec<Result<Stmt, InterpretError>> {
    let mut p = Parser::new(Scanner::new(source));
    let mut out = vec![];
    while let Some(item) = p.next() {
        out.push(item);
    }
    out
}

#[test]
fn parser_builds_statements() {
    let stmts = parse("var a = 1 + 2 * 3; print a;");
    assert_eq!(stmts.len(), 2);
    match &stmts[0] {
        Ok(Stmt::DeclareVar(id, Some(Expr::Binary(op, _, right)))) => {
            assert_eq!(id.lexeme, "a");
            assert_eq!(op.token, TokenType::Plus);
            assert!(matches!(&**right, Expr::Binary(t, _, _) if t.token == TokenType::Star));
        }
        other => panic!("{:?}", other),
    }
    assert!(matches!(&stmts[1], Ok(Stmt::Print(_, Expr::Variable(t))) if t.lexeme == "a"));
}

#[test]
fn parser_reads_for_as_while() {
    let stmts = parse("for (var i = 0; i < 2; i = i + 1) print i;");
    match &stmts[..] {
        [Ok(Stmt::Block(parts))] => {
            assert!(matches!(&parts[0], Stmt::DeclareVar(_, _)));
            assert!(matches!(&parts[1], Stmt::While(_, Expr::Binary(_, _, _), body) if matches!(&**body, Stmt::Block(b) if b.len() == 2)));
        }
        other => panic!("{:?}", other),
    }
}

#[test]
fn parser_rejects_invalid_assignment_target() {
    let stmts = parse("1 = 2;");
    assert!(matches!(&stmts[..], [Err(InterpretError::Syntax(SyntaxError::InvalidAssignment(1)))]));
}

#[test]
fn parser_limits_arguments() {
    let args = vec!["1"; 256].join(",");
    let stmts = parse(&format!("f({});", args));
    assert!(matches!(&stmts[0], Err(InterpretError::Syntax(SyntaxError::TooManyArgs(1)))));
}

#[test]
fn parser_stops_at_end_of_input() {
    assert!(parse("").is_empty());
    let stmts = parse("print 1");
    assert!(matches!(&stmts[..], [Err(InterpretError::Syntax(SyntaxError::ExpectedChar(1, found, expected)))] if found.is_empty() && expected == "Semicolon"));
}

fn compile(source: &str, numbers: Vec<(&str, f64)>) -> Result<Function, Vec<InterpretError>> {
    let mut table = NumberTable::new();
    for (text, n) in numbers {
        table.insert(text.to_string(), n.to_bits());
    }
    let mut heap = Heap::new();
    Compiler::new(Parser::new(Scanner::new(source)), table).compile(&mut heap)
}

#[test]
fn compiler_emits_print_program() {
    let f = compile("print 1;", vec![("1", 1.0)]).unwrap();
    assert_eq!(f.name, "main");
    assert_eq!(f.arity, 0);
    assert_eq!(f.chunk.code, vec![
        OpCode::LoadConstant.to_byte(), 0, OpCode::Print.to_byte(), OpCode::Return.to_byte()
    ]);
    assert_eq!(f.chunk.constants[0].bits(), 1.0f64.to_bits());
    assert_eq!(f.chunk.lines, vec![(1, 3), (2, 1)]);
}

#[test]
fn compiler_emits_globals() {
    let f = compile("var a = nil; a = true;", vec![]).unwrap();
    assert_eq!(f.chunk.code, vec![
        OpCode::LoadConstant.to_byte(), 0, OpCode::DefineGlobal.to_byte(), 1,
        OpCode::LoadConstant.to_byte(), 2, OpCode::SetGlobal.to_byte(), 3, OpCode::Pop.to_byte(), OpCode::Return.to_byte()
    ]);
    // The name is interned once: both constants refer to the same string.
    assert_eq!(f.chunk.constants[1].bits(), f.chunk.constants[3].bits());
}

#[test]
fn compiler_uses_local_slots() {
    let f = compile("{ var a = nil; print a; }", vec![]).unwrap();
    assert_eq!(f.chunk.code, vec![
        OpCode::LoadConstant.to_byte(), 0, OpCode::GetLocal.to_byte(), 1, OpCode::Print.to_byte(), OpCode::Pop.to_byte(), OpCode::Return.to_byte()
    ]);
}

#[test]
fn compiler_patches_jumps() {
    let f = compile("if (true) print nil;", vec![]).unwrap();
    assert_eq!(f.chunk.code, vec![
        OpCode::LoadConstant.to_byte(), 0, OpCode::JumpIfFalse.to_byte(), 8, 0, OpCode::Pop.to_byte(),
        OpCode::LoadConstant.to_byte(), 1, OpCode::Print.to_byte(), OpCode::Jump.to_byte(), 1, 0, OpCode::Pop.to_byte(),
        OpCode::Return.to_byte()
    ]);
}

#[test]
fn compiler_loops_back_to_the_condition() {
    let f = compile("while (false) print nil;", vec![]).unwrap();
    assert_eq!(f.chunk.code, vec![
        OpCode::LoadConstant.to_byte(), 0, OpCode::JumpIfFalse.to_byte(), 7, 0, OpCode::Pop.to_byte(),
        OpCode::LoadConstant.to_byte(), 1, OpCode::Print.to_byte(), OpCode::Loop.to_byte(), 12, 0, OpCode::Pop.to_byte(),
        OpCode::Return.to_byte()
    ]);
}

#[test]
fn compiler_switches_to_long_operands() {
    let source: String = (0..300).map(|_| "nil;").collect();
    let f = compile(&source, vec![]).unwrap();
    let n = f.chunk.code.len();
    // The 257th constant is loaded with the long form and a 3-byte index.
    let at = 256 * 3;
    assert_eq!(&f.chunk.code[at..at + 4], &[OpCode::LoadConstantLong.to_byte(), 0, 1, 0]);
    assert_eq!(f.chunk.code[n - 1], OpCode::Return.to_byte());
}

#[test]
fn compiler_reports_missing_number_values() {
    let errors = compile("print 1;", vec![]).err().unwrap();
    assert!(matches!(&errors[..], [InterpretError::Panic(_)]));
}

#[test]
fn number_table_finds_first_entry() {
    let mut t = NumberTable::new();
    t.insert("1".to_string(), 10);
    t.insert("1".to_string(), 20);
    t.insert("2".to_string(), 30);
    assert_eq!(t.lookup(&"1".to_string()), Some(10));
    assert_eq!(t.lookup(&"2".to_string()), Some(30));
    assert_eq!(t.lookup(&"3".to_string()), None);
}

#[test]
fn locals_start_uninitialized() {
    let mut l = Local::new("x".to_string(), 2);
    l.initialize();
    l.capture();
}

#[test]
fn heap_interns_strings() {
    let mut h = Heap::new();
    let a = h.push_str("abc".to_string());
    let b = h.push_str("abc".to_string());
    let c = h.push_str("abd".to_string());
    assert_eq!(a.bits(), b.bits());
    assert_ne!(a.bits(), c.bits());
    assert!(matches!(h.get(&a), Some(Object::String(s)) if s == "abc"));
    let n = h.push(Object::Native(NativeFn::Sqrt));
    assert_eq!(n.as_object(), 2);
    assert_eq!(h.format_value(h.get(&n).unwrap()).ok().unwrap(), "<fn sqrt>");
    assert!(h.get(&Value::nil()).is_none());
}

#[test]
fn natives_have_names_and_arities() {
    assert_eq!((Clock.name(), Clock.arity()), ("clock", 0));
    assert_eq!((Sqrt.name(), Sqrt.arity()), ("sqrt", 1));
}

#[test]
fn machine_formats_values() {
    let vm = VM::new();
    assert_eq!(vm.format_value(&Value::nil()).ok().unwrap(), "nil");
    assert_eq!(vm.format_value(&Value::boolean(false)).ok().unwrap(), "false");
    assert_eq!(vm.format_value(&Value::object(999)).ok().unwrap(), "nil");
    assert!(vm.format_value(&Value::from_bits(2.0f64.to_bits())).is_err());
}

#[test]
fn decimal_numerals() {
    assert_eq!(decimal_text(0), "0");
    assert_eq!(decimal_text(1234567890), "1234567890");
}

#[test]
fn parser_skips_to_next_statement_after_error() {
    let stmts = parse("print 1 +; var x = 1; print 2;");
    match &stmts[..] {
        [Err(InterpretError::Syntax(SyntaxError::ExpectedExpression(1, found))), Ok(Stmt::DeclareVar(id, _)), Ok(Stmt::Print(_, Expr::Literal(t)))] => {
            assert_eq!(found, ";");
            assert_eq!(id.lexeme, "x");
            assert_eq!(t.lexeme, "2");
        }
        other => panic!("{:?}", other),
    }
}

#[test]
fn parser_keeps_the_statement_after_an_error() {
    let mut p = Parser::new(Scanner::new("print ; print 1;"));
    assert!(matches!(p.next(), Some(Err(InterpretError::Syntax(SyntaxError::ExpectedExpression(1, found)))) if found == ";"));
    assert!(matches!(p.next(), Some(Ok(Stmt::Print(_, Expr::Literal(t)))) if t.lexeme == "1"));
    assert!(p.next().is_none());
}

#[test]
fn parser_skips_to_the_end_of_a_statement_after_an_error() {
    let stmts = parse("1 + + 2 3; print 4;");
    match &stmts[..] {
        [Err(InterpretError::Syntax(SyntaxError::ExpectedExpression(1, found))), Ok(Stmt::Print(_, Expr::Literal(t)))] => {
            assert_eq!(found, "+");
            assert_eq!(t.lexeme, "4");
        }
        other => panic!("{:?}", other),
    }
}

#[test]
fn parser_resumes_after_a_scanner_error() {
    let stmts = parse("@ print 1; print 2;");
    match &stmts[..] {
        [Err(InterpretError::Scan(ScanError::UnexpectedCharacter(1, '@'))), Ok(Stmt::Print(_, Expr::Literal(a))), Ok(Stmt::Print(_, Expr::Literal(b)))] => {
            assert_eq!(a.lexeme, "1");
            assert_eq!(b.lexeme, "2");
        }
        other => panic!("{:?}", other),
    }
}

#[test]
fn parser_reads_bare_return_as_nil() {
    let stmts = parse("fun f() { return; }");
    match &stmts[..] {
        [Ok(Stmt::DeclareFunc(id, params, body))] => {
            assert_eq!(id.lexeme, "f");
            assert!(params.is_empty());
            assert!(matches!(&body[..], [Stmt::Return(_, Expr::Literal(t))] if t.token == TokenType::Nil && t.lexeme == "nil"));
        }
        other => panic!("{:?}", other),
    }
}

#[test]
fn parser_reads_classes() {
    let stmts = parse("class B < A { m(x) { print x; } }");
    match &stmts[..] {
        [Ok(Stmt::DeclareClass(id, Some(sup), methods))] => {
            assert_eq!(id.lexeme, "B");
            assert_eq!(sup.lexeme, "A");
            assert_eq!(methods.len(), 1);
            assert_eq!(methods[0].0.lexeme, "m");
            assert_eq!(methods[0].1.len(), 1);
        }
        other => panic!("{:?}", other),
    }
}

#[test]
fn compiler_stores_declared_functions_in_the_heap() {
    let mut heap = Heap::new();
    let f = Compiler::new(Parser::new(Scanner::new("fun f(a) { print a; }")), NumberTable::new())
        .compile(&mut heap)
        .unwrap();
    assert_eq!(f.chunk.code, vec![
        OpCode::Closure.to_byte(), 0, OpCode::DefineGlobal.to_byte(), 0, OpCode::Return.to_byte()
    ]);
    match heap.get(&Value::object(0)) {
        Some(Object::Function(g)) => {
            assert_eq!(g.name, "f");
            assert_eq!(g.arity, 1);
            assert_eq!(g.chunk.code, vec![
                OpCode::GetLocal.to_byte(), 1, OpCode::Print.to_byte(),
                OpCode::LoadConstant.to_byte(), 0, OpCode::Return.to_byte()
            ]);
            assert_eq!(g.chunk.constants[0].bits(), Value::nil().bits());
        }
        _ => panic!("no function at heap index 0"),
    }
    assert!(matches!(heap.get(&Value::object(1)), Some(Object::String(s)) if s == "f"));
}

#[test]
fn set_global_has_a_long_form() {
    assert_eq!(OpCode::SetGlobal.to_long(), OpCode::SetGlobalLong);
    assert_eq!(OpCode::LoadConstant.to_long(), OpCode::LoadConstantLong);
    assert_eq!(OpCode::GetLocal.to_long(), OpCode::GetLocalLong);
    assert_eq!(OpCode::Closure.to_long(), OpCode::ClosureLong);
    assert_eq!(OpCode::Print.to_long(), OpCode::Print);
}

#[test]
fn long_closures_read_a_three_byte_index() {
    let mut c = Chunk::new();
    for b in [OpCode::ClosureLong.to_byte(), 1, 2, 0, OpCode::Return.to_byte()] {
        c.write_byte(b, 1);
    }
    assert_eq!(c.instruction_at(0), Some((Instruction::Closure(OpCode::ClosureLong, 0x201), 4)));
    assert_eq!(c.instruction_at(4), Some((Instruction::Simple(OpCode::Return), 1)));
}

#[test]
fn return_after_a_function_is_still_top_level() {
    let errors = compile("fun f() {} return 1;", vec![("1", 1.0)]).err().unwrap();
    assert!(matches!(&errors[..], [InterpretError::Compile(CompileError::TopReturn(1))]));
}

#[test]
fn scanner_peek_shows_what_advance_takes() {
    let mut s = Scanner::new("ab");
    assert_eq!(s.peek(), Some('a'));
    assert_eq!(s.peek(), Some('a'));
    assert_eq!(s.advance(), Some('a'));
    assert_eq!(s.peek(), Some('b'));
    assert_eq!(s.advance(), Some('b'));
    assert_eq!(s.peek(), None);
    assert_eq!(s.advance(), None);
}

#[test]
fn scanner_stream_ends_with_one_eof() {
    let mut s = Scanner::new("var x = @;");
    let mut items = vec![];
    while let Some(item) = s.next() {
        items.push(item);
    }
    assert!(items.len() <= "var x = @;".chars().count() + 1);
    assert!(matches!(items.last(), Some(Ok(t)) if t.token == TokenType::Eof && t.lexeme.is_empty()));
    assert_eq!(items.iter().filter(|i| matches!(i, Ok(t) if t.token == TokenType::Eof)).count(), 1);
    assert!(items.iter().any(|i| i.is_err()));
    assert!(s.next().is_none());
}

#[test]
fn operands_above_255_use_the_long_form() {
    let mut c = Compiler::new(Parser::new(Scanner::new("")), NumberTable::new());
    c.emit_operand_instruction(OpCode::SetGlobal, 7, 1);
    c.emit_operand_instruction(OpCode::SetGlobal, 0x10203, 1);
    let f = c.compile(&mut Heap::new()).unwrap();
    assert_eq!(f.chunk.code, vec![
        OpCode::SetGlobal.to_byte(), 7,
        OpCode::SetGlobalLong.to_byte(), 3, 2, 1,
        OpCode::Return.to_byte()
    ]);
    assert_eq!(f.chunk.read_operand(3, 2), 0x10203);
}

#[test]
fn patched_jumps_land_at_the_end_of_the_code() {
    let mut c = Compiler::new(Parser::new(Scanner::new("")), NumberTable::new());
    let offset = c.emit_jump_instruction(OpCode::JumpIfFalse, 1);
    assert_eq!(offset, 1);
    c.emit_operand_instruction(OpCode::LoadConstant, 5, 1);
    assert!(c.patch_jump_instruction(offset, 1).is_ok());
    let f = c.compile(&mut Heap::new()).unwrap();
    assert_eq!(f.chunk.code, vec![
        OpCode::JumpIfFalse.to_byte(), 2, 0, OpCode::LoadConstant.to_byte(), 5, OpCode::Return.to_byte()
    ]);
}

#[test]
fn chunk_lines_extend_the_last_run() {
    let mut c = Chunk::new();
    c.write_byte(0, 1);
    c.write_byte(0, 1);
    c.write_byte(0, 3);
    assert_eq!(c.lines, vec![(1, 2), (3, 1)]);
}
