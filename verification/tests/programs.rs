use std::rc::Rc;

use lox_bytecode_vm::compiler::{Compiler, NumberTable};
use lox_bytecode_vm::errors::{CompileError, InterpretError, RuntimeError, SyntaxError};
use lox_bytecode_vm::frame::Frame;
use lox_bytecode_vm::object::{Closure, NativeFn};
use lox_bytecode_vm::opcode::OpCode;
use lox_bytecode_vm::parser::Parser;
use lox_bytecode_vm::scanner::Scanner;
use lox_bytecode_vm::token::TokenType;
use lox_bytecode_vm::value::Value;
use lox_bytecode_vm::vm::{Action, VM};

/// The values of the number literals of `source`.
fn numbers_of(source: &str) -> NumberTable {
    let mut table = NumberTable::new();
    let mut scanner = Scanner::new(source);
    while let Some(item) = scanner.next() {
        if let Ok(token) = item {
            if token.token == TokenType::Number {
                let n: f64 = token.lexeme.parse().unwrap();
                table.insert(token.lexeme.clone(), n.to_bits());
            }
        }
    }
    table
}

/// How a number prints.
fn number_text(v: Value) -> String {
    format!("{}", f64::from_bits(v.bits()))
}

/// How a value prints.
fn text(vm: &VM, v: Value) -> String {
    match vm.format_value(&v) {
        Ok(s) => s,
        Err(n) => number_text(n),
    }
}

/// Runs `source`: what it printed, and the errors it stopped on.
fn run(source: &str) -> (Vec<String>, Vec<InterpretError>) {
    let mut vm = VM::new();
    run_on(&mut vm, source)
}

fn run_on(vm: &mut VM, source: &str) -> (Vec<String>, Vec<InterpretError>) {
    let numbers = numbers_of(source);
    let parser = Parser::new(Scanner::new(source));
    let compiled = Compiler::new(parser, numbers).compile(vm.heap_mut());
    let main = match compiled {
        Ok(f) => f,
        Err(errors) => return (vec![], errors),
    };
    let mut printed = vec![];
    vm.start(Frame::new(Rc::new(Closure::new(Rc::new(main), 0)), 0));
    loop {
        match vm.step() {
            Ok(Action::Continue) => {}
            Ok(Action::Halt) => break,
            Ok(Action::Print(v)) => printed.push(text(vm, v)),
            Ok(Action::Negate(v)) => {
                vm.push(Value::from_bits((-f64::from_bits(v.bits())).to_bits()));
            }
            Ok(Action::Numeric(op, l, r)) => {
                let (a, b) = (f64::from_bits(l.bits()), f64::from_bits(r.bits()));
                let result = match op {
                    OpCode::Add => Value::from_bits((a + b).to_bits()),
                    OpCode::Subtract => Value::from_bits((a - b).to_bits()),
                    OpCode::Multiply => Value::from_bits((a * b).to_bits()),
                    OpCode::Divide => Value::from_bits((a / b).to_bits()),
                    OpCode::LessThan => Value::boolean(a < b),
                    OpCode::LessEqual => Value::boolean(a <= b),
                    OpCode::GreaterThan => Value::boolean(a > b),
                    OpCode::Equal => Value::boolean(a == b),
                    OpCode::NotEqual => Value::boolean(a != b),
                    _ => Value::boolean(a >= b),
                };
                vm.push(result);
            }
            Ok(Action::CallNative(native, args)) => {
                let result = match native {
                    NativeFn::Clock => Value::from_bits(1.0f64.to_bits()),
                    NativeFn::Sqrt => {
                        Value::from_bits(f64::from_bits(args[0].bits()).sqrt().to_bits())
                    }
                };
                vm.push(result);
            }
            Ok(Action::NotCallable(line, v)) => {
                return (
                    printed,
                    vec![InterpretError::Runtime(RuntimeError::InvalidCall(line, number_text(v)))],
                );
            }
            Err(e) => return (printed, vec![e]),
        }
    }
    (printed, vec![])
}

fn prints(source: &str) -> Vec<String> {
    let (out, errors) = run(source);
    assert!(errors.is_empty(), "{:?}", errors);
    out
}

#[test]
fn prints_literals() {
    assert_eq!(prints("print 1; print nil; print true; print false; print \"hi\";"), vec![
        "1", "nil", "true", "false", "hi"
    ]);
}

#[test]
fn arithmetic_follows_precedence() {
    assert_eq!(prints("print 1 + 2 * 3; print (1 + 2) * 3; print 10 / 4; print -2 - 3;"), vec![
        "7", "9", "2.5", "-5"
    ]);
}

#[test]
fn comparisons_and_equality() {
    assert_eq!(
        prints("print 1 < 2; print 2 <= 1; print 3 > 2; print 2 >= 2; print 1 == 1; print 1 != 1; print nil == false;"),
        vec!["true", "false", "true", "true", "true", "false", "false"]
    );
}

#[test]
fn strings_concatenate_and_compare() {
    assert_eq!(prints("print \"a\" + \"b\"; print \"ab\" == \"a\" + \"b\"; print \"a\" == \"b\";"), vec![
        "ab", "true", "false"
    ]);
}

#[test]
fn not_and_truthiness() {
    assert_eq!(prints("print !nil; print !0; print !\"\"; print !!true;"), vec![
        "true", "false", "false", "true"
    ]);
}

#[test]
fn logical_operators_short_circuit() {
    assert_eq!(prints("print nil or \"x\"; print 1 and 2; print false and 1; print 1 or 2;"), vec![
        "x", "2", "false", "1"
    ]);
}

#[test]
fn globals_define_read_assign() {
    assert_eq!(prints("var a = 1; print a; a = a + 1; print a; var b; print b;"), vec![
        "1", "2", "nil"
    ]);
}

#[test]
fn blocks_shadow_and_scope_locals() {
    assert_eq!(
        prints("var a = \"global\"; { var a = \"local\"; print a; { var b = a + \"!\"; print b; } } print a;"),
        vec!["local", "local!", "global"]
    );
}

#[test]
fn if_else_branches() {
    assert_eq!(prints("if (1 < 2) print \"yes\"; else print \"no\"; if (nil) print 1; else print 2;"), vec![
        "yes", "2"
    ]);
}

#[test]
fn while_loop_counts() {
    assert_eq!(prints("var i = 0; while (i < 3) { print i; i = i + 1; }"), vec!["0", "1", "2"]);
}

#[test]
fn for_loop_counts() {
    assert_eq!(prints("for (var i = 0; i < 3; i = i + 1) print i;"), vec!["0", "1", "2"]);
}

#[test]
fn functions_take_arguments_and_return() {
    assert_eq!(prints("fun add(a, b) { return a + b; } print add(1, 2); print add;"), vec![
        "3", "<closure add>"
    ]);
}

#[test]
fn functions_without_return_give_nil() {
    assert_eq!(prints("fun f() { print \"in\"; } print f();"), vec!["in", "nil"]);
}

#[test]
fn recursion_computes_fibonacci() {
    assert_eq!(
        prints("fun fib(n) { if (n < 2) return n; return fib(n - 1) + fib(n - 2); } print fib(10);"),
        vec!["55"]
    );
}

#[test]
fn native_functions_are_globals() {
    assert_eq!(prints("print sqrt(16); print clock; print clock() > 0;"), vec![
        "4", "<fn clock>", "true"
    ]);
}

#[test]
fn undefined_global_is_a_name_error() {
    let (out, errors) = run("print 1; print undefined;");
    assert_eq!(out, vec!["1"]);
    assert!(matches!(&errors[..], [InterpretError::Runtime(RuntimeError::NameError(1, name))] if name == "undefined"));
}

#[test]
fn assigning_undefined_global_is_a_name_error() {
    let (_, errors) = run("x = 1;");
    assert!(matches!(&errors[..], [InterpretError::Runtime(RuntimeError::NameError(1, name))] if name == "x"));
}

#[test]
fn negating_a_string_is_an_operand_error() {
    let (_, errors) = run("print -\"x\";");
    assert!(matches!(&errors[..], [InterpretError::Runtime(RuntimeError::OperandMismatch(1, what))] if what == "numbers"));
}

#[test]
fn adding_number_and_string_is_an_operand_error() {
    let (_, errors) = run("print 1 + \"x\";");
    assert!(matches!(&errors[..], [InterpretError::Runtime(RuntimeError::OperandMismatch(1, what))] if what == "numbers or strings"));
}

#[test]
fn calling_a_number_is_an_invalid_call() {
    let (_, errors) = run("1();");
    assert!(matches!(&errors[..], [InterpretError::Runtime(RuntimeError::InvalidCall(1, what))] if what == "1"));
}

#[test]
fn calling_nil_is_an_invalid_call() {
    let (_, errors) = run("nil();");
    assert!(matches!(&errors[..], [InterpretError::Runtime(RuntimeError::InvalidCall(1, what))] if what == "nil"));
}

#[test]
fn wrong_argument_count_is_an_arity_error() {
    let (_, errors) = run("fun f(a) {}\nf();");
    assert!(matches!(&errors[..], [InterpretError::Runtime(RuntimeError::FunctionCallArityMismatch(2, 1, 0))]));
}

#[test]
fn unbounded_recursion_overflows_the_frames() {
    let (_, errors) = run("fun f() { f(); } f();");
    assert!(matches!(&errors[..], [InterpretError::Runtime(RuntimeError::StackOverflow(1))]));
}

#[test]
fn top_level_return_is_a_compile_error() {
    let (_, errors) = run("return 1;");
    assert!(matches!(&errors[..], [InterpretError::Compile(CompileError::TopReturn(1))]));
}

#[test]
fn redeclared_local_is_a_compile_error() {
    let (_, errors) = run("{ var a = 1; var a = 2; }");
    assert!(matches!(&errors[..], [InterpretError::Compile(CompileError::AlreadyDeclared(1, name))] if name == "a"));
}

#[test]
fn local_in_its_own_initializer_is_a_compile_error() {
    let (_, errors) = run("{ var a = a; }");
    assert!(matches!(&errors[..], [InterpretError::Compile(CompileError::SelfInitialization(1))]));
}

#[test]
fn classes_are_not_implemented() {
    let (_, errors) = run("class A {}");
    assert!(matches!(&errors[..], [InterpretError::UnImplemented]));
}

#[test]
fn every_failing_statement_is_reported() {
    let (_, errors) = run("print ;\nprint 2;\nvar 1;");
    assert_eq!(errors.len(), 2);
    assert!(matches!(&errors[0], InterpretError::Syntax(SyntaxError::ExpectedExpression(1, found)) if found == ";"));
    assert!(matches!(&errors[1], InterpretError::Syntax(SyntaxError::ExpectedChar(3, found, expected)) if found == "1" && expected == "Identifier"));
}

#[test]
fn globals_persist_across_runs_of_one_machine() {
    let mut vm = VM::new();
    let (_, e1) = run_on(&mut vm, "var a = 40;");
    assert!(e1.is_empty());
    let (out, e2) = run_on(&mut vm, "print a + 2;");
    assert!(e2.is_empty());
    assert_eq!(out, vec!["42"]);
}

#[test]
fn numbers_are_equal_by_value() {
    let (out, errors) = run("print 0 == -0; print (0/0) == (0/0); print 0 != -0; print 1 == 1; print 1 == nil; print \"a\" == \"a\";");
    assert!(errors.is_empty());
    assert_eq!(out, vec!["true", "false", "false", "true", "false", "true"]);
}
