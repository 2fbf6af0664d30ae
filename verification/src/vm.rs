use std::collections::HashMap;
use std::rc::Rc;

use rustc_hash::FxBuildHasher;
use vstd::prelude::*;

use crate::chunk::{byte_len, disassembled, line_at, operand_value, Chunk, Instruction};
use crate::errors::{CompileError, InterpretError, PanicError, RuntimeError};
use crate::frame::{frame_depth, Frame};
use crate::heap::{heap_grows, is_string_object, object_text, str_pushed, Heap};
use crate::object::{native_arity, native_name, Closure, Function, Native, NativeFn, Object};
use crate::opcode::{byte_op, OpCode};
use vstd::string::StringExecFns;
use crate::value::{
    boolean_bits, lemma_bits_value_of, lemma_nil_kind, lemma_object_roundtrip, lemma_value_of_bits, nil_bits,
    object_bits, value_of, Value,
};

verus! {

broadcast use {lemma_value_of_bits, lemma_bits_value_of};

/// The deepest the calls may nest.
pub const FRAME_MAX: usize = 64;

/// The number of stack slots reserved up front.
pub const STACK_MAX: usize = 256;

/// The value of each global, by the bits of its interned name, as bits.
pub uninterp spec fn global_values(g: HashMap<u64, Value, FxBuildHasher>) -> Map<u64, u64>;

/// `HashMap::default` with the Fx hasher: a table of no global.
#[verifier::external_body]
fn new_globals() -> (table: HashMap<u64, Value, FxBuildHasher>)
    ensures
        global_values(table).dom() == Set::<u64>::empty(),
{
    HashMap::default()
}

/// `HashMap::get`: the value of the global named `key`, if any.
#[verifier::external_body]
fn global_get(g: &HashMap<u64, Value, FxBuildHasher>, key: u64) -> (r: Option<Value>)
    ensures
        r is Some <==> global_values(*g).dom().contains(key),
        r matches Some(v) ==> v.spec_bits() == global_values(*g)[key],
{
    g.get(&key).copied()
}

/// `HashMap::contains_key`: whether the global named `key` is defined.
#[verifier::external_body]
fn global_contains(g: &HashMap<u64, Value, FxBuildHasher>, key: u64) -> (r: bool)
    ensures
        r == global_values(*g).dom().contains(key),
{
    g.contains_key(&key)
}

/// `HashMap::insert`: sets the global named `key` to `v`; the others stay.
#[verifier::external_body]
fn global_insert(g: &mut HashMap<u64, Value, FxBuildHasher>, key: u64, v: Value)
    ensures
        global_values(*final(g)) == global_values(*old(g)).insert(key, v.spec_bits()),
{
    g.insert(key, v);
}

/// `Rc::clone`: another reference to the same function.
#[verifier::external_body]
fn share_function(f: &Rc<Function>) -> (g: Rc<Function>)
    ensures
        g == *f,
{
    Rc::clone(f)
}

/// `Rc::clone`: another reference to the same closure.
#[verifier::external_body]
fn share_closure(c: &Rc<Closure>) -> (d: Rc<Closure>)
    ensures
        d == *c,
{
    Rc::clone(c)
}

/// What the virtual machine asks of the program that runs it after an
/// instruction.
#[derive(Debug)]
pub enum Action {
    /// Go on.
    Continue,
    /// The program ended.
    Halt,
    /// Print this value (taken off the stack).
    Print(Value),
    /// Apply a numeric instruction (`Add`, `Subtract`, `Multiply`,
    /// `Divide`, a comparison, `Equal` or `NotEqual`) to these two numbers, taken off the stack,
    /// and `push` the result.
    Numeric(OpCode, Value, Value),
    /// Negate this number, taken off the stack, and `push` the result.
    Negate(Value),
    /// Call this native function with these arguments (taken off the stack
    /// with the function) and `push` the result.
    CallNative(NativeFn, Vec<Value>),
    /// A value whose text is that of a number was called, on this line: the
    /// error is `InvalidCall` with that text.
    NotCallable(u32, Value),
}

/// The value on top of a stack and the stack without it; `nil` and the
/// stack itself when it is empty.
pub open spec fn pop_top(s: Seq<Value>) -> (Seq<Value>, Value) {
    if s.len() > 0 {
        (s.drop_last(), s.last())
    } else {
        (s, value_of(nil_bits()))
    }
}

/// The value `i` places below the top of a stack; `nil` past the bottom.
pub open spec fn peek_at(s: Seq<Value>, i: int) -> Value {
    if 0 <= i < s.len() {
        s[s.len() - 1 - i]
    } else {
        value_of(nil_bits())
    }
}

/// The value in stack slot `i`; `nil` past the top.
pub open spec fn slot_at(s: Seq<Value>, i: int) -> Value {
    if 0 <= i < s.len() {
        s[i]
    } else {
        value_of(nil_bits())
    }
}

/// How `print` shows a value: `nil`, `true`, `false`, or the text of the
/// object it refers to (`nil` for a reference to nothing); `Err(n)` where the
/// text is that of the number `n`.
pub open spec fn value_text(heap: Heap, v: Value) -> Result<Seq<char>, Value> {
    if v.spec_is_object() {
        if heap.objects().dom().contains(v.spec_as_object()) {
            object_text(heap.objects()[v.spec_as_object()])
        } else {
            Ok("nil"@)
        }
    } else if v.spec_is_boolean() {
        Ok(if v.spec_as_boolean() { "true"@ } else { "false"@ })
    } else if v.spec_is_nil() {
        Ok("nil"@)
    } else {
        Err(v)
    }
}

/// A stack-based virtual machine that runs compiled Lox functions one
/// instruction at a time, asking the program that drives it for the work
/// it leaves out: printing, arithmetic on numbers and native calls.
pub struct VM {
    frame: Frame,
    frame_count: usize,
    stack: Vec<Value>,
    heap: Heap,
    globals: HashMap<u64, Value, FxBuildHasher>,
}

impl VM {
    /// The values on the stack, bottom first.
    pub closed spec fn stack(&self) -> Seq<Value> {
        self.stack@
    }

    /// The current frame.
    pub closed spec fn frame(&self) -> Frame {
        self.frame
    }

    /// The position in the current code.
    pub closed spec fn ip(&self) -> usize {
        self.frame.ip
    }

    /// Where the current frame's slots start on the stack.
    pub closed spec fn fp(&self) -> usize {
        self.frame.fp
    }

    /// The code being run.
    pub closed spec fn code(&self) -> Seq<u8> {
        self.frame.closure.function.chunk.code@
    }

    /// The constant pool of the code being run.
    pub closed spec fn constants(&self) -> Seq<Value> {
        self.frame.closure.function.chunk.constants@
    }

    /// The source line of byte `offset` of the code being run; 0 past its
    /// end.
    pub closed spec fn line(&self, offset: int) -> u32 {
        line_at(self.frame.closure.function.chunk.lines@, offset)
    }

    /// The number of calls in progress.
    pub closed spec fn frame_count(&self) -> usize {
        self.frame_count
    }

    /// The globals: the bits of each value, by the bits of its interned
    /// name.
    pub closed spec fn globals(&self) -> Map<u64, u64> {
        global_values(self.globals)
    }

    /// The heap.
    pub closed spec fn heap(&self) -> Heap {
        self.heap
    }

    /// The heap keeps its invariant and the call counter counts the frames.
    pub closed spec fn wf(&self) -> bool {
        &&& self.heap.wf()
        &&& self.frame_count == frame_depth(self.frame)
    }

    /// `self` is `before` with the stack `stack`, the position `ip` in the
    /// same frame, the globals `globals` and the heap `heap`; the calls stay.
    pub open spec fn stepped(
        &self,
        before: VM,
        stack: Seq<Value>,
        ip: int,
        globals: Map<u64, u64>,
        heap: Heap,
    ) -> bool {
        &&& self.wf()
        &&& self.stack() == stack
        &&& self.ip() == ip
        &&& self.fp() == before.fp()
        &&& self.code() == before.code()
        &&& self.constants() == before.constants()
        &&& forall|o: int| #[trigger] self.line(o) == before.line(o)
        &&& self.frame().closure == before.frame().closure
        &&& self.frame().caller == before.frame().caller
        &&& self.frame_count() == before.frame_count()
        &&& self.globals() == globals
        &&& self.heap() == heap
    }

    /// `self` is `before` with the stack `stack` and the position `ip` in
    /// the same frame; the calls, globals and heap stay.
    pub open spec fn moved(&self, before: VM, stack: Seq<Value>, ip: int) -> bool {
        self.stepped(before, stack, ip, before.globals(), before.heap())
    }

    /// The key of the global named `name`: the bits of a reference to the
    /// interned string.
    pub open spec fn name_key(&self, name: Seq<char>) -> u64 {
        object_bits(self.heap().strings()[name] as u64)
    }

    /// Whether the global named after the native function `n` holds a
    /// reference to a stored `n`.
    pub open spec fn native_defined(&self, n: NativeFn) -> bool {
        let h = self.heap();
        let name = crate::object::native_name(n);
        &&& h.strings().dom().contains(name)
        &&& self.globals().dom().contains(self.name_key(name))
        &&& exists|k: usize|
            #![trigger h.objects()[k]]
            h.objects().dom().contains(k) && h.objects()[k] == Object::Native(n)
                && self.globals()[self.name_key(name)] == object_bits(k as u64)
    }

    /// A machine with an empty stack, whose globals are the native
    /// functions `clock` and `sqrt`.
    pub fn new() -> (vm: VM)
        ensures
            vm.wf(),
            vm.stack() == Seq::<Value>::empty(),
            vm.frame_count() == 1,
            vm.frame().caller is None,
            vm.ip() == 0,
            vm.fp() == 0,
            vm.code() == Seq::<u8>::empty(),
            vm.heap().slots() == 4,
            vm.native_defined(NativeFn::Clock),
            vm.native_defined(NativeFn::Sqrt),
            forall|k: u64|
                #![trigger vm.globals().dom().contains(k)]
                vm.globals().dom().contains(k) <==> (k == vm.name_key(
                    crate::object::native_name(NativeFn::Clock),
                ) || k == vm.name_key(crate::object::native_name(NativeFn::Sqrt))),
    {
        let main = Function::new(String::new(), 0);
        let closure = Closure::new(Rc::new(main), 0);
        let frame = Frame::new(Rc::new(closure), 0);
        let mut vm = VM {
            frame,
            frame_count: 1,
            stack: Vec::with_capacity(STACK_MAX),
            heap: Heap::new(),
            globals: new_globals(),
        };
        proof {
            reveal_strlit("clock");
            reveal_strlit("sqrt");
        }
        vm.insert_native_fn(String::from_str("clock"), NativeFn::Clock);
        let ghost v1 = vm;
        assert(v1.heap().strings()[native_name(NativeFn::Clock)] == 0);
        vm.insert_native_fn(String::from_str("sqrt"), NativeFn::Sqrt);
        proof {
            assert(native_name(NativeFn::Sqrt).len() == 4);
            assert(native_name(NativeFn::Clock).len() == 5);
            assert(v1.heap().strings().dom() =~= set![native_name(NativeFn::Clock)]);
            assert(!v1.heap().strings().dom().contains(native_name(NativeFn::Sqrt)));
            assert(vm.heap().strings()[native_name(NativeFn::Sqrt)] == 2);
            assert(vm.heap().strings()[native_name(NativeFn::Clock)] == 0);
            assert(object_bits(0u64) != object_bits(2u64)) by (bit_vector);
            assert(vm.heap().objects()[1] == Object::Native(NativeFn::Clock));
            assert(vm.heap().objects()[3] == Object::Native(NativeFn::Sqrt));
        }
        vm
    }

    /// Stores the native function `native` and defines it as the global
    /// named `name`.
    fn insert_native_fn(&mut self, name: String, native: NativeFn)
        requires
            old(self).wf(),
            name@ == native_name(native),
        ensures
            final(self).wf(),
            final(self).stack() == old(self).stack(),
            final(self).frame() == old(self).frame(),
            final(self).frame_count() == old(self).frame_count(),
            heap_grows(old(self).heap(), final(self).heap()),
            final(self).heap().strings().dom().contains(name@),
            !old(self).heap().strings().dom().contains(name@) ==> {
                let k = old(self).heap().slots();
                &&& final(self).heap().strings() == old(self).heap().strings().insert(name@, k)
                &&& final(self).heap().slots() == k + 2
                &&& final(self).heap().objects() == old(self).heap().objects().insert(
                    k,
                    final(self).heap().objects()[k],
                ).insert((k + 1) as usize, Object::Native(native))
            },
            old(self).heap().strings().dom().contains(name@) ==> {
                let k = old(self).heap().slots();
                &&& final(self).heap().strings() == old(self).heap().strings()
                &&& final(self).heap().slots() == k + 1
                &&& final(self).heap().objects() == old(self).heap().objects().insert(
                    k,
                    Object::Native(native),
                )
            },
            final(self).heap().objects()[(final(self).heap().slots() - 1) as usize] == Object::Native(native),
            final(self).globals() == old(self).globals().insert(
                final(self).name_key(name@),
                object_bits((final(self).heap().slots() - 1) as u64),
            ),
    {
        let ghost s = name@;
        let name_idx = self.heap.push_str(name);
        let native_idx = self.heap.push(Object::Native(native));
        global_insert(&mut self.globals, name_idx.bits(), native_idx);
    }

    /// Whether `r` is the internal error for code that cannot be run as it
    /// stands: an operand past the end of the code, or an index out of its
    /// range.
    pub open spec fn is_malformed(r: Result<Action, InterpretError>) -> bool {
        r matches Err(InterpretError::Panic(PanicError::General(_, _)))
    }

    /// `self` is `before` with the stack `stack`: the frame, calls, globals
    /// and heap stay.
    pub open spec fn restacked(&self, before: VM, stack: Seq<Value>) -> bool {
        &&& self.stack() == stack
        &&& self.frame() == before.frame()
        &&& self.frame_count() == before.frame_count()
        &&& self.globals() == before.globals()
        &&& self.heap() == before.heap()
    }

    /// Machines in the same frame stand at the same position of the same
    /// code, with the same constants and lines; with the same frame, call
    /// count and heap, one keeps the invariant when the other does.
    pub proof fn lemma_same_frame(a: VM, b: VM)
        requires
            a.frame() == b.frame(),
        ensures
            a.ip() == b.ip(),
            a.fp() == b.fp(),
            a.code() == b.code(),
            a.constants() == b.constants(),
            forall|o: int| #[trigger] a.line(o) == b.line(o),
            a.frame_count() == b.frame_count() && a.heap() == b.heap() ==> (a.wf() <==> b.wf()),
    {
    }

    /// Takes the value on top of the stack; `nil` when it is empty.
    fn stack_pop(&mut self) -> (v: Value)
        ensures
            final(self).restacked(*old(self), pop_top(old(self).stack()).0),
            v == pop_top(old(self).stack()).1,
    {
        match self.stack.pop() {
            Some(v) => v,
            None => Value::nil(),
        }
    }

    /// Puts `value` on top of the stack.
    fn stack_push(&mut self, value: Value)
        ensures
            final(self).restacked(*old(self), old(self).stack().push(value)),
    {
        self.stack.push(value);
    }

    /// Puts the result of an instruction the driver carried out on top of
    /// the stack.
    pub fn push(&mut self, value: Value)
        requires
            old(self).wf(),
        ensures
            final(self).wf(),
            final(self).restacked(*old(self), old(self).stack().push(value)),
            final(self).ip() == old(self).ip(),
            final(self).fp() == old(self).fp(),
            final(self).code() == old(self).code(),
            final(self).constants() == old(self).constants(),
            forall|o: int| #[trigger] final(self).line(o) == old(self).line(o),
    {
        self.stack_push(value);
    }

    /// The value `i` places below the top of the stack; `nil` past the
    /// bottom.
    fn stack_peek(&self, i: usize) -> (v: Value)
        ensures
            v == peek_at(self.stack(), i as int),
    {
        let len = self.stack.len();
        if i < len {
            self.stack[len - 1 - i]
        } else {
            Value::nil()
        }
    }

    /// The value in slot `i` of the current frame; `nil` past the top.
    fn stack_get(&self, i: usize) -> (v: Value)
        ensures
            v == slot_at(self.stack(), self.fp() + i),
    {
        let fp = self.frame.fp;
        let len = self.stack.len();
        if fp < len && i < len - fp {
            self.stack[fp + i]
        } else {
            Value::nil()
        }
    }

    /// The source line of the byte at the current position.
    fn get_current_line(&self) -> (line: u32)
        ensures
            line == self.line(self.ip() as int),
    {
        self.frame.closure.function.chunk.get_line(self.frame.ip)
    }

    /// The number of bytes of the code being run.
    fn get_code_length(&self) -> (n: usize)
        ensures
            n == self.code().len(),
            n <= isize::MAX,
    {
        byte_len(&self.frame.closure.function.chunk.code)
    }

    /// Moves to position `ip` of the current code.
    fn set_ip(&mut self, ip: usize)
        requires
            old(self).wf(),
        ensures
            final(self).moved(*old(self), old(self).stack(), ip as int),
    {
        self.frame.ip = ip;
    }

    /// The operand of `n` bytes after the instruction at the current
    /// position; `None` when the code ends first.
    fn read_operand(&self, n: usize) -> (r: Option<usize>)
        requires
            1 <= n <= 3,
        ensures
            r is Some <==> self.ip() + n < self.code().len(),
            r matches Some(v) ==> v == operand_value(self.code(), self.ip() as int, n as int),
    {
        let len = self.get_code_length();
        let ip = self.frame.ip;
        if ip < len && n < len - ip {
            Some(self.frame.closure.function.chunk.read_operand(n, ip))
        } else {
            None
        }
    }

    /// The internal error for code that cannot be run as it stands.
    fn malformed(&self) -> (e: InterpretError)
        ensures
            e matches InterpretError::Panic(PanicError::General(l, _)) && l == self.line(
                self.ip() as int,
            ),
    {
        InterpretError::Panic(
            PanicError::General(self.get_current_line(), String::from_str("malformed bytecode")),
        )
    }

    /// What `Pop` does.
    pub open spec fn pop_done(before: VM, after: VM) -> bool {
        after.moved(before, pop_top(before.stack()).0, before.ip() + 1)
    }

    /// What `Not` does.
    pub open spec fn not_done(before: VM, after: VM) -> bool {
        let (s1, v) = pop_top(before.stack());
        after.moved(before, s1.push(value_of(boolean_bits(!v.spec_is_truthy()))), before.ip() + 1)
    }

    /// What `Equal` (`equality`) and `NotEqual` do: two numbers are taken
    /// off the stack for the driver to compare as numbers; any other two
    /// values are replaced by whether they are (not) the same value: the
    /// same `nil` or boolean, or a reference to the same object (strings
    /// are interned, so alike strings are the same object). Values of
    /// different kinds are never the same.
    pub open spec fn equals_done(before: VM, after: VM, equality: bool, res: Option<(Value, Value)>) -> bool {
        let (s1, right) = pop_top(before.stack());
        let (s2, left) = pop_top(s1);
        if left.spec_is_number() && right.spec_is_number() {
            res == Some((left, right)) && after.moved(before, s2, before.ip() + 1)
        } else {
            res is None && after.moved(
                before,
                s2.push(value_of(boolean_bits((left.spec_bits() == right.spec_bits()) == equality))),
                before.ip() + 1,
            )
        }
    }

    /// What `LoadConstant` (`n` = 1) and `LoadConstantLong` (`n` = 3) do.
    pub open spec fn constant_done(before: VM, after: VM, res: Result<Action, InterpretError>, n: int) -> bool {
        let ip = before.ip() as int;
        let idx = operand_value(before.code(), ip, n);
        if ip + n < before.code().len() && idx < before.constants().len() {
            res is Ok && after.moved(before, before.stack().push(before.constants()[idx]), ip + 1 + n)
        } else {
            Self::is_malformed(res)
        }
    }

    /// What `GetLocal` (`n` = 1) and `GetLocalLong` (`n` = 3) do.
    pub open spec fn get_local_done(before: VM, after: VM, res: Result<Action, InterpretError>, n: int) -> bool {
        let ip = before.ip() as int;
        let idx = operand_value(before.code(), ip, n);
        if ip + n < before.code().len() {
            res is Ok && after.moved(
                before,
                before.stack().push(slot_at(before.stack(), before.fp() + idx)),
                ip + 1 + n,
            )
        } else {
            Self::is_malformed(res)
        }
    }

    /// What `SetLocal` (`n` = 1) and `SetLocalLong` (`n` = 3) do.
    pub open spec fn set_local_done(before: VM, after: VM, res: Result<Action, InterpretError>, n: int) -> bool {
        let ip = before.ip() as int;
        let idx = operand_value(before.code(), ip, n);
        let slot = before.fp() + idx;
        if ip + n < before.code().len() && slot < before.stack().len() {
            res is Ok && after.moved(
                before,
                before.stack().update(slot, peek_at(before.stack(), 0)),
                ip + 1 + n,
            )
        } else {
            Self::is_malformed(res)
        }
    }

    /// What `JumpIfFalse` does.
    pub open spec fn jump_if_done(before: VM, after: VM, res: Result<Action, InterpretError>) -> bool {
        let ip = before.ip() as int;
        let d = operand_value(before.code(), ip, 2);
        if ip + 2 < before.code().len() {
            res is Ok && after.moved(
                before,
                before.stack(),
                ip + 3 + if peek_at(before.stack(), 0).spec_is_truthy() {
                    0
                } else {
                    d
                },
            )
        } else {
            Self::is_malformed(res)
        }
    }

    /// What `Jump` does.
    pub open spec fn jump_done(before: VM, after: VM, res: Result<Action, InterpretError>) -> bool {
        let ip = before.ip() as int;
        if ip + 2 < before.code().len() {
            res is Ok && after.moved(before, before.stack(), ip + 3 + operand_value(before.code(), ip, 2))
        } else {
            Self::is_malformed(res)
        }
    }

    /// What `Loop` does.
    pub open spec fn loop_done(before: VM, after: VM, res: Result<Action, InterpretError>) -> bool {
        let ip = before.ip() as int;
        let d = operand_value(before.code(), ip, 2);
        if ip + 2 < before.code().len() && d <= ip + 3 {
            res is Ok && after.moved(before, before.stack(), ip + 3 - d)
        } else {
            Self::is_malformed(res)
        }
    }

    /// Whether the current position is that of an instruction in the code.
    pub open spec fn at_instruction(&self) -> bool {
        self.ip() < self.code().len() <= isize::MAX
    }

    /// `Pop`: drops the value on top of the stack.
    fn run_pop(&mut self)
        requires
            old(self).wf(),
            old(self).at_instruction(),
        ensures
            final(self).wf(),
            Self::pop_done(*old(self), *final(self)),
    {
        self.stack_pop();
        let ip = self.frame.ip;
        self.set_ip(ip + 1);
    }

    /// `Not`: replaces the value on top of the stack by whether it is
    /// falsey.
    fn run_not(&mut self)
        requires
            old(self).wf(),
            old(self).at_instruction(),
        ensures
            final(self).wf(),
            Self::not_done(*old(self), *final(self)),
    {
        let constant = self.stack_pop();
        self.stack_push(Value::boolean(!constant.is_truthy()));
        let ip = self.frame.ip;
        self.set_ip(ip + 1);
    }

    /// `Equal` (`equality`) or `NotEqual`: two numbers are handed back to be
    /// compared; other values are replaced by whether they are (not) the
    /// same value.
    fn run_equals(&mut self, equality: bool) -> (res: Option<(Value, Value)>)
        requires
            old(self).wf(),
            old(self).at_instruction(),
        ensures
            final(self).wf(),
            Self::equals_done(*old(self), *final(self), equality, res),
    {
        let right = self.stack_pop();
        let left = self.stack_pop();
        let ip = self.frame.ip;
        if left.is_number() && right.is_number() {
            self.set_ip(ip + 1);
            return Some((left, right));
        }
        let result = (left.bits() == right.bits()) == equality;
        self.stack_push(Value::boolean(result));
        self.set_ip(ip + 1);
        None
    }

    /// `Print`: takes the value on top of the stack for the driver to print.
    fn run_print(&mut self) -> (v: Value)
        requires
            old(self).wf(),
            old(self).at_instruction(),
        ensures
            final(self).wf(),
            v == pop_top(old(self).stack()).1,
            final(self).moved(*old(self), pop_top(old(self).stack()).0, old(self).ip() + 1),
    {
        let constant = self.stack_pop();
        let ip = self.frame.ip;
        self.set_ip(ip + 1);
        constant
    }

    /// `LoadConstant` (`n` = 1) or `LoadConstantLong` (`n` = 3): pushes the
    /// constant the operand indexes.
    fn run_constant(&mut self, n: usize) -> (res: Result<(), InterpretError>)
        requires
            old(self).wf(),
            old(self).at_instruction(),
            n == 1 || n == 3,
        ensures
            final(self).wf(),
            Self::constant_done(*old(self), *final(self), as_action(res), n as int),
    {
        let index = match self.read_operand(n) {
            Some(i) => i,
            None => {
                return Err(self.malformed());
            },
        };
        if index >= self.frame.closure.function.chunk.constants.len() {
            return Err(self.malformed());
        }
        let constant = self.frame.closure.function.chunk.constants[index];
        self.stack_push(constant);
        let ip = self.frame.ip;
        self.set_ip(ip + 1 + n);
        Ok(())
    }

    /// `GetLocal` / `GetLocalLong`: pushes the value of the frame's slot the
    /// operand gives (`nil` past the top of the stack).
    fn run_get_local(&mut self, n: usize) -> (res: Result<(), InterpretError>)
        requires
            old(self).wf(),
            old(self).at_instruction(),
            n == 1 || n == 3,
        ensures
            final(self).wf(),
            Self::get_local_done(*old(self), *final(self), as_action(res), n as int),
    {
        let index = match self.read_operand(n) {
            Some(i) => i,
            None => {
                return Err(self.malformed());
            },
        };
        let v = self.stack_get(index);
        self.stack_push(v);
        let ip = self.frame.ip;
        self.set_ip(ip + 1 + n);
        Ok(())
    }

    /// `SetLocal` / `SetLocalLong`: stores the value on top of the stack in
    /// the frame's slot the operand gives, keeping it on the stack.
    fn run_set_local(&mut self, n: usize) -> (res: Result<(), InterpretError>)
        requires
            old(self).wf(),
            old(self).at_instruction(),
            n == 1 || n == 3,
        ensures
            final(self).wf(),
            Self::set_local_done(*old(self), *final(self), as_action(res), n as int),
    {
        let index = match self.read_operand(n) {
            Some(i) => i,
            None => {
                return Err(self.malformed());
            },
        };
        let fp = self.frame.fp;
        let len = self.stack.len();
        if !(fp < len && index < len - fp) {
            return Err(self.malformed());
        }
        let v = self.stack_peek(0);
        self.stack.set(fp + index, v);
        let ip = self.frame.ip;
        self.set_ip(ip + 1 + n);
        Ok(())
    }

    /// `JumpIfFalse`: jumps forward by the operand when the value on top of
    /// the stack is falsey, which stays.
    fn run_jump_if(&mut self) -> (res: Result<(), InterpretError>)
        requires
            old(self).wf(),
            old(self).at_instruction(),
        ensures
            final(self).wf(),
            Self::jump_if_done(*old(self), *final(self), as_action(res)),
    {
        let distance = match self.read_operand(2) {
            Some(d) => d,
            None => {
                return Err(self.malformed());
            },
        };
        let condition = self.stack_peek(0);
        let ip = self.frame.ip;
        if !condition.is_truthy() {
            self.set_ip(ip + 3 + distance);
        } else {
            self.set_ip(ip + 3);
        }
        Ok(())
    }

    /// `Jump`: jumps forward by the operand.
    fn run_jump(&mut self) -> (res: Result<(), InterpretError>)
        requires
            old(self).wf(),
            old(self).at_instruction(),
        ensures
            final(self).wf(),
            Self::jump_done(*old(self), *final(self), as_action(res)),
    {
        let distance = match self.read_operand(2) {
            Some(d) => d,
            None => {
                return Err(self.malformed());
            },
        };
        let ip = self.frame.ip;
        self.set_ip(ip + 3 + distance);
        Ok(())
    }

    /// `Loop`: jumps backward by the operand, counted from the end of the
    /// instruction.
    fn run_loop(&mut self) -> (res: Result<(), InterpretError>)
        requires
            old(self).wf(),
            old(self).at_instruction(),
        ensures
            final(self).wf(),
            Self::loop_done(*old(self), *final(self), as_action(res)),
    {
        let distance = match self.read_operand(2) {
            Some(d) => d,
            None => {
                return Err(self.malformed());
            },
        };
        let ip = self.frame.ip;
        if distance > ip + 3 {
            return Err(self.malformed());
        }
        self.set_ip(ip + 3 - distance);
        Ok(())
    }

    /// The error for a global that is not defined, whose name is the
    /// constant `name`, reported on `line`: `NameError` with the name when
    /// it refers to a stored string; else the internal error for a name that
    /// refers to nothing or is not a reference, on `name_line`.
    pub open spec fn unknown_global(&self, name: Value, e: InterpretError, line: u32, name_line: u32) -> bool {
        let h = self.heap();
        if name.spec_is_object() {
            if h.objects().dom().contains(name.spec_as_object())
                && h.objects()[name.spec_as_object()] is String {
                e matches InterpretError::Runtime(RuntimeError::NameError(l, s)) && l == line
                    && is_string_object(h.objects()[name.spec_as_object()], s@)
            } else {
                e == InterpretError::Panic(PanicError::DeallocatedObject(name_line))
            }
        } else {
            e == InterpretError::Panic(PanicError::NonObjectVariable(name_line))
        }
    }

    /// What `DefineGlobal` (`n` = 1) and `DefineGlobalLong` (`n` = 3) do:
    /// set the global named by the constant the operand indexes to the value
    /// taken off the stack.
    pub open spec fn define_global_done(before: VM, after: VM, res: Result<Action, InterpretError>, n: int) -> bool {
        let ip = before.ip() as int;
        let idx = operand_value(before.code(), ip, n);
        if ip + n < before.code().len() && idx < before.constants().len() {
            let name = before.constants()[idx];
            let (s1, v) = pop_top(before.stack());
            res is Ok && after.stepped(
                before,
                s1,
                ip + 1 + n,
                before.globals().insert(name.spec_bits(), v.spec_bits()),
                before.heap(),
            )
        } else {
            Self::is_malformed(res)
        }
    }

    /// What `GetGlobal` (`n` = 1) and `GetGlobalLong` (`n` = 3) do: push
    /// the value of the global named by the constant the operand indexes.
    pub open spec fn get_global_done(before: VM, after: VM, res: Result<Action, InterpretError>, n: int) -> bool {
        let ip = before.ip() as int;
        let idx = operand_value(before.code(), ip, n);
        if ip + n < before.code().len() && idx < before.constants().len() {
            let key = before.constants()[idx].spec_bits();
            if before.globals().dom().contains(key) {
                res is Ok && after.moved(
                    before,
                    before.stack().push(value_of(before.globals()[key])),
                    ip + 1 + n,
                )
            } else {
                res matches Err(e) && before.unknown_global(
                    before.constants()[idx],
                    e,
                    before.line(ip + 1 + n),
                    before.line(ip),
                )
            }
        } else {
            Self::is_malformed(res)
        }
    }

    /// What `SetGlobal` (`n` = 1) and `SetGlobalLong` (`n` = 3) do: set the
    /// defined global named by the constant the operand indexes to the value
    /// on top of the stack, which stays.
    pub open spec fn set_global_done(before: VM, after: VM, res: Result<Action, InterpretError>, n: int) -> bool {
        let ip = before.ip() as int;
        let idx = operand_value(before.code(), ip, n);
        if ip + n < before.code().len() && idx < before.constants().len() {
            let key = before.constants()[idx].spec_bits();
            if before.globals().dom().contains(key) {
                res is Ok && after.stepped(
                    before,
                    before.stack(),
                    ip + 1 + n,
                    before.globals().insert(key, peek_at(before.stack(), 0).spec_bits()),
                    before.heap(),
                )
            } else {
                res matches Err(e) && before.unknown_global(
                    before.constants()[idx],
                    e,
                    before.line(ip + 1 + n),
                    before.line(ip),
                )
            }
        } else {
            Self::is_malformed(res)
        }
    }

    /// The index of the constant that the instruction at the current
    /// position names, if its operand is in the code and in the pool's
    /// range.
    fn constant_operand(&self, n: usize) -> (r: Option<usize>)
        requires
            n == 1 || n == 3,
        ensures
            r is Some <==> self.ip() + n < self.code().len() && operand_value(
                self.code(),
                self.ip() as int,
                n as int,
            ) < self.constants().len(),
            r matches Some(i) ==> i == operand_value(self.code(), self.ip() as int, n as int),
    {
        match self.read_operand(n) {
            Some(i) => {
                if i < self.frame.closure.function.chunk.constants.len() {
                    Some(i)
                } else {
                    None
                }
            },
            None => None,
        }
    }

    /// The name of a global, for the error that it is not defined: the
    /// characters of the string `name` refers to; else the internal error for
    /// a name that refers to nothing or is not a reference, on the line of
    /// byte `ip`.
    fn get_variable_name(&self, name: &Value, ip: usize, line: u32) -> (e: InterpretError)
        ensures
            self.unknown_global(*name, e, line, self.line(ip as int)),
    {
        if name.is_object() {
            match self.heap.get(name) {
                Some(Object::String(s)) => InterpretError::Runtime(RuntimeError::NameError(line, s.clone())),
                _ => InterpretError::Panic(
                    PanicError::DeallocatedObject(self.frame.closure.function.chunk.get_line(ip)),
                ),
            }
        } else {
            InterpretError::Panic(
                PanicError::NonObjectVariable(self.frame.closure.function.chunk.get_line(ip)),
            )
        }
    }

    /// `DefineGlobal` / `DefineGlobalLong`.
    fn run_define_global(&mut self, n: usize) -> (res: Result<(), InterpretError>)
        requires
            old(self).wf(),
            old(self).at_instruction(),
            n == 1 || n == 3,
        ensures
            final(self).wf(),
            Self::define_global_done(*old(self), *final(self), as_action(res), n as int),
    {
        let index = match self.constant_operand(n) {
            Some(i) => i,
            None => {
                return Err(self.malformed());
            },
        };
        let name_value = self.frame.closure.function.chunk.constants[index];
        let value = self.stack_pop();
        global_insert(&mut self.globals, name_value.bits(), value);
        let ip = self.frame.ip;
        self.set_ip(ip + 1 + n);
        Ok(())
    }

    /// `GetGlobal` / `GetGlobalLong`.
    fn run_get_global(&mut self, n: usize) -> (res: Result<(), InterpretError>)
        requires
            old(self).wf(),
            old(self).at_instruction(),
            n == 1 || n == 3,
        ensures
            final(self).wf(),
            Self::get_global_done(*old(self), *final(self), as_action(res), n as int),
    {
        let ip = self.frame.ip;
        let index = match self.constant_operand(n) {
            Some(i) => i,
            None => {
                return Err(self.malformed());
            },
        };
        let name_value = self.frame.closure.function.chunk.constants[index];
        match global_get(&self.globals, name_value.bits()) {
            Some(v) => {
                self.stack_push(v);
                self.set_ip(ip + 1 + n);
                Ok(())
            },
            None => {
                let line = self.frame.closure.function.chunk.get_line(ip + 1 + n);
                Err(self.get_variable_name(&name_value, ip, line))
            },
        }
    }

    /// `SetGlobal` / `SetGlobalLong`.
    fn run_set_global(&mut self, n: usize) -> (res: Result<(), InterpretError>)
        requires
            old(self).wf(),
            old(self).at_instruction(),
            n == 1 || n == 3,
        ensures
            final(self).wf(),
            Self::set_global_done(*old(self), *final(self), as_action(res), n as int),
    {
        let value = self.stack_peek(0);
        let ip = self.frame.ip;
        let index = match self.constant_operand(n) {
            Some(i) => i,
            None => {
                return Err(self.malformed());
            },
        };
        let name_value = self.frame.closure.function.chunk.constants[index];
        if global_contains(&self.globals, name_value.bits()) {
            global_insert(&mut self.globals, name_value.bits(), value);
            self.set_ip(ip + 1 + n);
            Ok(())
        } else {
            let line = self.frame.closure.function.chunk.get_line(ip + 1 + n);
            Err(self.get_variable_name(&name_value, ip, line))
        }
    }

    /// What `Negate` does: takes the number on top of the stack for the
    /// driver to negate; `OperandMismatch` for anything else.
    pub open spec fn negate_done(before: VM, after: VM, res: Result<Value, InterpretError>) -> bool {
        let (s1, v) = pop_top(before.stack());
        if v.spec_is_number() {
            res == Ok::<Value, InterpretError>(v) && after.moved(before, s1, before.ip() + 1)
        } else {
            res matches Err(InterpretError::Runtime(RuntimeError::OperandMismatch(l, m))) && l
                == before.line(before.ip() as int) && m@ == "numbers"@
        }
    }

    /// What the numeric instructions other than `Add` do: take two numbers
    /// off the stack for the driver; `OperandMismatch` for anything else.
    pub open spec fn numeric_done(before: VM, after: VM, res: Result<(Value, Value), InterpretError>) -> bool {
        let (s1, right) = pop_top(before.stack());
        let (s2, left) = pop_top(s1);
        if left.spec_is_number() && right.spec_is_number() {
            res == Ok::<(Value, Value), InterpretError>((left, right)) && after.moved(
                before,
                s2,
                before.ip() + 1,
            )
        } else {
            res matches Err(InterpretError::Runtime(RuntimeError::OperandMismatch(l, m))) && l
                == before.line(before.ip() as int) && m@ == "numbers"@
        }
    }

    /// The string object a value refers to, if it refers to one.
    pub open spec fn string_at(&self, v: Value) -> Option<Seq<char>> {
        let h = self.heap();
        if v.spec_is_object() && h.objects().dom().contains(v.spec_as_object()) {
            match h.objects()[v.spec_as_object()] {
                Object::String(s) => Some(s@),
                _ => None,
            }
        } else {
            None
        }
    }

    /// What `Add` does: two numbers are taken off the stack for the driver;
    /// two strings are replaced by their concatenation, interned;
    /// `OperandMismatch` for anything else.
    pub open spec fn add_done(before: VM, after: VM, res: Result<Option<(Value, Value)>, InterpretError>) -> bool {
        let (s1, right) = pop_top(before.stack());
        let (s2, left) = pop_top(s1);
        if left.spec_is_number() && right.spec_is_number() {
            res == Ok::<Option<(Value, Value)>, InterpretError>(Some((left, right))) && after.moved(
                before,
                s2,
                before.ip() + 1,
            )
        } else if left.spec_is_object() && right.spec_is_object() && before.string_at(left) is Some
            && before.string_at(right) is Some {
            &&& res == Ok::<Option<(Value, Value)>, InterpretError>(None)
            &&& after.stack().len() > 0
            &&& after.stepped(
                before,
                s2.push(after.stack().last()),
                before.ip() + 1,
                before.globals(),
                after.heap(),
            )
            &&& str_pushed(
                before.heap(),
                before.string_at(left)->0 + before.string_at(right)->0,
                after.heap(),
                after.stack().last(),
            )
        } else {
            res matches Err(InterpretError::Runtime(RuntimeError::OperandMismatch(l, m))) && l
                == before.line(before.ip() as int) && m@ == "numbers or strings"@
        }
    }

    /// `Negate`.
    fn run_negate(&mut self) -> (res: Result<Value, InterpretError>)
        requires
            old(self).wf(),
            old(self).at_instruction(),
        ensures
            final(self).wf(),
            Self::negate_done(*old(self), *final(self), res),
    {
        let constant = self.stack_pop();
        if constant.is_number() {
            let ip = self.frame.ip;
            self.set_ip(ip + 1);
            Ok(constant)
        } else {
            Err(
                InterpretError::Runtime(
                    RuntimeError::OperandMismatch(
                        self.get_current_line(),
                        String::from_str("numbers"),
                    ),
                ),
            )
        }
    }

    /// `Subtract`, `Multiply`, `Divide` and the comparisons.
    fn run_numeric(&mut self) -> (res: Result<(Value, Value), InterpretError>)
        requires
            old(self).wf(),
            old(self).at_instruction(),
        ensures
            final(self).wf(),
            Self::numeric_done(*old(self), *final(self), res),
    {
        let right = self.stack_pop();
        let left = self.stack_pop();
        if !left.is_number() || !right.is_number() {
            return Err(
                InterpretError::Runtime(
                    RuntimeError::OperandMismatch(
                        self.get_current_line(),
                        String::from_str("numbers"),
                    ),
                ),
            );
        }
        let ip = self.frame.ip;
        self.set_ip(ip + 1);
        Ok((left, right))
    }

    /// The string a value refers to, if it refers to one.
    fn get_string(&self, v: &Value) -> (r: Option<&String>)
        ensures
            r matches Some(s) ==> self.string_at(*v) == Some(s@),
            r is None ==> self.string_at(*v) is None,
    {
        match self.heap.get(v) {
            Some(Object::String(s)) => Some(s),
            _ => None,
        }
    }

    /// `Add`.
    fn run_add(&mut self) -> (res: Result<Option<(Value, Value)>, InterpretError>)
        requires
            old(self).wf(),
            old(self).at_instruction(),
        ensures
            final(self).wf(),
            Self::add_done(*old(self), *final(self), res),
    {
        let ip = self.frame.ip;
        let right = self.stack_pop();
        let left = self.stack_pop();
        if left.is_number() && right.is_number() {
            self.set_ip(ip + 1);
            return Ok(Some((left, right)));
        }
        if left.is_object() && right.is_object() {
            let joined = match (self.get_string(&left), self.get_string(&right)) {
                (Some(s1), Some(s2)) => {
                    let mut s = String::new();
                    s.append(s1.as_str());
                    s.append(s2.as_str());
                    Some(s)
                },
                _ => None,
            };
            match joined {
                Some(s) => {
                    let value = self.heap.push_str(s);
                    self.stack_push(value);
                    self.set_ip(ip + 1);
                    return Ok(None);
                },
                None => {},
            }
        }
        Err(
            InterpretError::Runtime(
                RuntimeError::OperandMismatch(
                    self.get_current_line(),
                    String::from_str("numbers or strings"),
                ),
            ),
        )
    }

    /// The error, or the request to the driver, for calling a value that
    /// cannot be called, on `line`: `InvalidCall` with the value's text, or
    /// `NotCallable` where that text is a number's.
    pub open spec fn not_callable(text: Result<Seq<char>, Value>, res: Result<Action, InterpretError>, line: u32) -> bool {
        match text {
            Ok(t) => res matches Err(InterpretError::Runtime(RuntimeError::InvalidCall(l, s))) && l
                == line && s@ == t,
            Err(n) => res matches Ok(Action::NotCallable(l, m)) && l == line && m == n,
        }
    }

    /// What `Call` does with `argc` arguments (its operand) above the
    /// callee: a closure of that arity gets a new frame whose slots start at
    /// the callee; a native function of that arity is handed to the driver
    /// with the arguments, both taken off the stack; anything else, and too
    /// deep a call, is an error.
    pub open spec fn call_done(before: VM, after: VM, res: Result<Action, InterpretError>) -> bool {
        let ip = before.ip() as int;
        let len = before.stack().len();
        if ip + 1 < before.code().len() {
            let argc = operand_value(before.code(), ip, 1);
            let line = before.line(ip + 2);
            let callee = peek_at(before.stack(), argc);
            let h = before.heap();
            if before.frame_count() >= FRAME_MAX {
                res == Err::<Action, InterpretError>(
                    InterpretError::Runtime(RuntimeError::StackOverflow(line)),
                ) && after.moved(before, before.stack(), ip + 2)
            } else if callee.spec_is_object() {
                let k = callee.spec_as_object();
                if !h.objects().dom().contains(k) {
                    res == Err::<Action, InterpretError>(
                        InterpretError::Panic(PanicError::DeallocatedObject(line)),
                    ) && after.moved(before, before.stack(), ip + 2)
                } else {
                    match h.objects()[k] {
                        Object::Closure(c) => if argc != c.function.arity {
                            res == Err::<Action, InterpretError>(
                                InterpretError::Runtime(
                                    RuntimeError::FunctionCallArityMismatch(
                                        line,
                                        c.function.arity as usize,
                                        argc as usize,
                                    ),
                                ),
                            ) && after.moved(before, before.stack(), ip + 2)
                        } else {
                            &&& res matches Ok(Action::Continue)
                            &&& after.wf()
                            &&& after.stack() == before.stack()
                            &&& after.ip() == 0
                            &&& after.fp() == len - argc - 1
                            &&& after.frame().closure == c
                            &&& after.frame().caller matches Some(b) && b.ip == ip + 2 && b.fp
                                == before.fp() && b.closure == before.frame().closure && b.caller
                                == before.frame().caller
                            &&& after.frame_count() == before.frame_count() + 1
                            &&& after.globals() == before.globals()
                            &&& after.heap() == before.heap()
                        },
                        Object::Native(nf) => if argc != native_arity(nf) {
                            res == Err::<Action, InterpretError>(
                                InterpretError::Runtime(
                                    RuntimeError::FunctionCallArityMismatch(
                                        line,
                                        native_arity(nf) as usize,
                                        argc as usize,
                                    ),
                                ),
                            ) && after.moved(before, before.stack(), ip + 2)
                        } else {
                            &&& res matches Ok(Action::CallNative(m, args)) && m == nf && args@
                                == before.stack().subrange(len - argc, len as int)
                            &&& after.moved(before, before.stack().subrange(0, len - argc - 1), ip + 2)
                        },
                        o => Self::not_callable(object_text(o), res, line) && after.moved(
                            before,
                            before.stack(),
                            ip + 2,
                        ),
                    }
                }
            } else {
                Self::not_callable(value_text(h, callee), res, line) && after.moved(
                    before,
                    before.stack(),
                    ip + 2,
                )
            }
        } else {
            res matches Err(InterpretError::Panic(PanicError::General(_, _))) && after == before
        }
    }

    /// The first `n` values of `s`; all of them when there are fewer.
    pub open spec fn truncated(s: Seq<Value>, n: int) -> Seq<Value> {
        if n <= s.len() {
            s.subrange(0, n)
        } else {
            s
        }
    }

    /// What `Return` does: takes the value on top of the stack; from the
    /// outermost frame, also takes the function's slot and ends the program;
    /// else goes back to the caller, drops the frame's slots and pushes the
    /// value.
    pub open spec fn return_done(before: VM, after: VM, res: Result<Action, InterpretError>) -> bool {
        let (s1, v) = pop_top(before.stack());
        match before.frame().caller {
            None => res matches Ok(Action::Halt) && after.moved(
                before,
                pop_top(s1).0,
                before.ip() + 1,
            ),
            Some(c) => {
                &&& res matches Ok(Action::Continue)
                &&& after.wf()
                &&& after.frame() == *c
                &&& after.frame_count() == before.frame_count() - 1
                &&& after.stack() == Self::truncated(s1, before.fp() as int).push(v)
                &&& after.globals() == before.globals()
                &&& after.heap() == before.heap()
            },
        }
    }

    /// What `Closure` (`n` = 1) and `ClosureLong` (`n` = 3) do: store a
    /// closure, without upvalues, of the function stored at the heap index
    /// the operand gives, and push a reference to it.
    pub open spec fn closure_done(before: VM, after: VM, res: Result<Action, InterpretError>, n: int) -> bool {
        let ip = before.ip() as int;
        let idx = operand_value(before.code(), ip, n);
        let h = before.heap();
        if ip + n < before.code().len() && h.objects().dom().contains(idx as usize)
            && h.objects()[idx as usize] is Function {
            let k = h.slots();
            &&& res is Ok
            &&& after.stepped(
                before,
                before.stack().push(value_of(object_bits(k as u64))),
                ip + 1 + n,
                before.globals(),
                after.heap(),
            )
            &&& after.heap().slots() == k + 1
            &&& after.heap().objects() == h.objects().insert(k, after.heap().objects()[k])
            &&& after.heap().strings() == h.strings()
            &&& after.heap().objects()[k] matches Object::Closure(c) && h.objects()[idx as usize]
                == Object::Function(c.function) && c.upvalue_count == 0 && c.upvalues@
                == Seq::<usize>::empty()
        } else {
            Self::is_malformed(res) && after == before
        }
    }

    /// The text of `value_text`.
    pub fn format_value(&self, value: &Value) -> (text: Result<String, Value>)
        ensures
            text matches Ok(t) ==> value_text(self.heap(), *value) == Ok::<Seq<char>, Value>(t@),
            text matches Err(n) ==> value_text(self.heap(), *value) == Err::<Seq<char>, Value>(n),
    {
        if value.is_object() {
            match self.heap.get(value) {
                Some(object) => self.heap.format_value(object),
                None => Ok(String::from_str("nil")),
            }
        } else if value.is_boolean() {
            if value.as_boolean() {
                Ok(String::from_str("true"))
            } else {
                Ok(String::from_str("false"))
            }
        } else if value.is_nil() {
            Ok(String::from_str("nil"))
        } else {
            Err(*value)
        }
    }

    /// The error, or the request, for calling a value that cannot be called.
    fn invalid_call(&self, callee: &Value, line: u32) -> (res: Result<Action, InterpretError>)
        ensures
            Self::not_callable(value_text(self.heap(), *callee), res, line),
    {
        match self.format_value(callee) {
            Ok(text) => Err(InterpretError::Runtime(RuntimeError::InvalidCall(line, text))),
            Err(n) => Ok(Action::NotCallable(line, n)),
        }
    }

    /// `Call`.
    fn run_call(&mut self) -> (res: Result<Action, InterpretError>)
        requires
            old(self).wf(),
            old(self).at_instruction(),
        ensures
            final(self).wf(),
            Self::call_done(*old(self), *final(self), res),
    {
        let ip = self.frame.ip;
        let argc = match self.read_operand(1) {
            Some(a) => a,
            None => {
                return Err(self.malformed());
            },
        };
        self.set_ip(ip + 2);
        let line = self.get_current_line();
        if self.frame_count >= FRAME_MAX {
            return Err(InterpretError::Runtime(RuntimeError::StackOverflow(line)));
        }
        let callee = self.stack_peek(argc);
        proof {
            lemma_nil_kind();
        }
        if !callee.is_object() {
            return self.invalid_call(&callee, line);
        }
        let found = match self.heap.get(&callee) {
            Some(Object::Closure(c)) => Some(Ok(share_closure(c))),
            Some(Object::Native(n)) => Some(Err(*n)),
            Some(_) => None,
            None => {
                return Err(InterpretError::Panic(PanicError::DeallocatedObject(line)));
            },
        };
        match found {
            Some(Ok(closure)) => {
                let arity = closure.function.arity;
                if argc != arity as usize {
                    return Err(
                        InterpretError::Runtime(
                            RuntimeError::FunctionCallArityMismatch(line, arity as usize, argc),
                        ),
                    );
                }
                let fp = self.stack.len() - argc - 1;
                let mut callee_frame = Frame::new(closure, fp);
                std::mem::swap(&mut self.frame, &mut callee_frame);
                self.frame.caller = Some(Box::new(callee_frame));
                self.frame_count = self.frame_count + 1;
                Ok(Action::Continue)
            },
            Some(Err(native)) => {
                let arity = native.arity();
                if argc != arity as usize {
                    return Err(
                        InterpretError::Runtime(
                            RuntimeError::FunctionCallArityMismatch(line, arity as usize, argc),
                        ),
                    );
                }
                let at = self.stack.len() - argc;
                let ghost whole = self.stack@;
                let args = self.stack.split_off(at);
                assert(self.stack@.drop_last() =~= whole.subrange(0, at - 1));
                self.stack_pop();
                Ok(Action::CallNative(native, args))
            },
            None => {
                match self.heap.get(&callee) {
                    Some(object) => match self.heap.format_value(object) {
                        Ok(text) => Err(InterpretError::Runtime(RuntimeError::InvalidCall(line, text))),
                        Err(n) => Ok(Action::NotCallable(line, n)),
                    },
                    None => Err(InterpretError::Panic(PanicError::DeallocatedObject(line))),
                }
            },
        }
    }

    /// `Return`.
    fn run_return(&mut self) -> (res: Result<Action, InterpretError>)
        requires
            old(self).wf(),
            old(self).at_instruction(),
        ensures
            final(self).wf(),
            Self::return_done(*old(self), *final(self), res),
    {
        let ip = self.frame.ip;
        self.set_ip(ip + 1);
        let return_val = self.stack_pop();
        let new_stack_top = self.frame.fp;
        let caller = self.frame.caller.take();
        match caller {
            Some(caller) => {
                self.frame = *caller;
                self.frame_count = self.frame_count - 1;
                self.stack.truncate(new_stack_top);
                self.stack_push(return_val);
                Ok(Action::Continue)
            },
            None => {
                self.stack_pop();
                Ok(Action::Halt)
            },
        }
    }

    /// `Closure` / `ClosureLong`.
    fn run_closure(&mut self, n: usize) -> (res: Result<(), InterpretError>)
        requires
            old(self).wf(),
            old(self).at_instruction(),
            n == 1 || n == 3,
        ensures
            final(self).wf(),
            Self::closure_done(*old(self), *final(self), as_action(res), n as int),
    {
        let ip = self.frame.ip;
        let function_idx = match self.read_operand(n) {
            Some(i) => i,
            None => {
                return Err(self.malformed());
            },
        };
        proof {
            lemma_operand_small(self.code(), ip as int, n as int);
            lemma_object_roundtrip(function_idx as u64);
        }
        let function = match self.heap.get(&Value::object(function_idx)) {
            Some(Object::Function(f)) => share_function(f),
            _ => {
                return Err(self.malformed());
            },
        };
        let closure = Closure::new(function, 0);
        let closure_idx = self.heap.push(Object::Closure(Rc::new(closure)));
        self.stack_push(closure_idx);
        self.set_ip(ip + 1 + n);
        Ok(())
    }

    /// What the instruction `op` at the current position does.
    pub open spec fn op_done(op: OpCode, before: VM, after: VM, res: Result<Action, InterpretError>) -> bool {
        let continues = res is Ok ==> res matches Ok(Action::Continue);
        match op {
            OpCode::LoadConstant => Self::constant_done(before, after, res, 1) && continues,
            OpCode::LoadConstantLong => Self::constant_done(before, after, res, 3)
                && continues,
            OpCode::Negate => match res {
                Ok(Action::Negate(v)) => Self::negate_done(before, after, Ok(v)),
                Err(e) => Self::negate_done(before, after, Err(e)),
                _ => false,
            },
            OpCode::Not => res matches Ok(Action::Continue) && Self::not_done(before, after),
            OpCode::Add => match res {
                Ok(Action::Numeric(o, l, r)) => o == OpCode::Add && Self::add_done(
                    before,
                    after,
                    Ok(Some((l, r))),
                ),
                Ok(Action::Continue) => Self::add_done(before, after, Ok(None)),
                Err(e) => Self::add_done(before, after, Err(e)),
                _ => false,
            },
            OpCode::Subtract | OpCode::Multiply | OpCode::Divide | OpCode::LessThan
            | OpCode::LessEqual | OpCode::GreaterThan | OpCode::GreaterEqual => match res {
                Ok(Action::Numeric(o, l, r)) => o == op && Self::numeric_done(
                    before,
                    after,
                    Ok((l, r)),
                ),
                Err(e) => Self::numeric_done(before, after, Err(e)),
                _ => false,
            },
            OpCode::Equal | OpCode::NotEqual => match res {
                Ok(Action::Numeric(o, l, r)) => o == op && Self::equals_done(
                    before,
                    after,
                    op == OpCode::Equal,
                    Some((l, r)),
                ),
                Ok(Action::Continue) => Self::equals_done(before, after, op == OpCode::Equal, None),
                _ => false,
            },
            OpCode::Print => res matches Ok(Action::Print(v)) && v == pop_top(before.stack()).1
                && after.moved(before, pop_top(before.stack()).0, before.ip() + 1),
            OpCode::Pop => res matches Ok(Action::Continue) && Self::pop_done(before, after),
            OpCode::DefineGlobal => Self::define_global_done(before, after, res, 1)
                && continues,
            OpCode::DefineGlobalLong => Self::define_global_done(before, after, res, 3)
                && continues,
            OpCode::GetGlobal => Self::get_global_done(before, after, res, 1) && continues,
            OpCode::GetGlobalLong => Self::get_global_done(before, after, res, 3)
                && continues,
            OpCode::SetGlobal => Self::set_global_done(before, after, res, 1) && continues,
            OpCode::SetGlobalLong => Self::set_global_done(before, after, res, 3)
                && continues,
            OpCode::GetLocal => Self::get_local_done(before, after, res, 1) && continues,
            OpCode::GetLocalLong => Self::get_local_done(before, after, res, 3)
                && continues,
            OpCode::SetLocal => Self::set_local_done(before, after, res, 1) && continues,
            OpCode::SetLocalLong => Self::set_local_done(before, after, res, 3)
                && continues,
            OpCode::Jump => Self::jump_done(before, after, res) && continues,
            OpCode::JumpIfFalse => Self::jump_if_done(before, after, res) && continues,
            OpCode::Loop => Self::loop_done(before, after, res) && continues,
            OpCode::Call => Self::call_done(before, after, res),
            OpCode::Return => Self::return_done(before, after, res),
            OpCode::Closure => Self::closure_done(before, after, res, 1) && continues,
            OpCode::ClosureLong => Self::closure_done(before, after, res, 3)
                && continues,
            OpCode::Nop => res matches Ok(Action::Continue) && after.moved(
                before,
                before.stack(),
                before.ip() + 1,
            ),
        }
    }

    /// What one step does: past the end of the code the program ends;
    /// else the instruction at the current position runs; a byte that
    /// encodes no instruction is skipped and reported.
    pub open spec fn step_done(before: VM, after: VM, res: Result<Action, InterpretError>) -> bool {
        let ip = before.ip() as int;
        if ip >= before.code().len() {
            res matches Ok(Action::Halt) && after == before
        } else {
            let byte = before.code()[ip];
            match byte_op(byte) {
                Some(op) => Self::op_done(op, before, after, res),
                None => res == Err::<Action, InterpretError>(
                    InterpretError::Compile(CompileError::InvalidOpCode(before.line(ip + 1), byte)),
                ) && after.moved(before, before.stack(), ip + 1),
            }
        }
    }

    /// Runs the instruction at the current position and says what the
    /// driver is to do next.
    pub fn step(&mut self) -> (res: Result<Action, InterpretError>)
        requires
            old(self).wf(),
        ensures
            final(self).wf(),
            Self::step_done(*old(self), *final(self), res),
    {
        let len = self.get_code_length();
        let ip = self.frame.ip;
        if ip >= len {
            return Ok(Action::Halt);
        }
        let byte = self.frame.closure.function.chunk.code[ip];
        match OpCode::from_byte(byte) {
            Some(OpCode::LoadConstant) => continued(self.run_constant(1)),
            Some(OpCode::LoadConstantLong) => continued(self.run_constant(3)),
            Some(OpCode::Negate) => match self.run_negate() {
                Ok(v) => Ok(Action::Negate(v)),
                Err(e) => Err(e),
            },
            Some(OpCode::Not) => {
                self.run_not();
                Ok(Action::Continue)
            },
            Some(OpCode::Add) => match self.run_add() {
                Ok(Some((l, r))) => Ok(Action::Numeric(OpCode::Add, l, r)),
                Ok(None) => Ok(Action::Continue),
                Err(e) => Err(e),
            },
            Some(OpCode::Subtract) => numeric(OpCode::Subtract, self.run_numeric()),
            Some(OpCode::Multiply) => numeric(OpCode::Multiply, self.run_numeric()),
            Some(OpCode::Divide) => numeric(OpCode::Divide, self.run_numeric()),
            Some(OpCode::LessThan) => numeric(OpCode::LessThan, self.run_numeric()),
            Some(OpCode::LessEqual) => numeric(OpCode::LessEqual, self.run_numeric()),
            Some(OpCode::GreaterThan) => numeric(OpCode::GreaterThan, self.run_numeric()),
            Some(OpCode::GreaterEqual) => numeric(OpCode::GreaterEqual, self.run_numeric()),
            Some(OpCode::Equal) => match self.run_equals(true) {
                Some((l, r)) => Ok(Action::Numeric(OpCode::Equal, l, r)),
                None => Ok(Action::Continue),
            },
            Some(OpCode::NotEqual) => match self.run_equals(false) {
                Some((l, r)) => Ok(Action::Numeric(OpCode::NotEqual, l, r)),
                None => Ok(Action::Continue),
            },
            Some(OpCode::Print) => Ok(Action::Print(self.run_print())),
            Some(OpCode::Pop) => {
                self.run_pop();
                Ok(Action::Continue)
            },
            Some(OpCode::DefineGlobal) => continued(self.run_define_global(1)),
            Some(OpCode::DefineGlobalLong) => continued(self.run_define_global(3)),
            Some(OpCode::GetGlobal) => continued(self.run_get_global(1)),
            Some(OpCode::GetGlobalLong) => continued(self.run_get_global(3)),
            Some(OpCode::SetGlobal) => continued(self.run_set_global(1)),
            Some(OpCode::SetGlobalLong) => continued(self.run_set_global(3)),
            Some(OpCode::GetLocal) => continued(self.run_get_local(1)),
            Some(OpCode::GetLocalLong) => continued(self.run_get_local(3)),
            Some(OpCode::SetLocal) => continued(self.run_set_local(1)),
            Some(OpCode::SetLocalLong) => continued(self.run_set_local(3)),
            Some(OpCode::JumpIfFalse) => continued(self.run_jump_if()),
            Some(OpCode::Jump) => continued(self.run_jump()),
            Some(OpCode::Loop) => continued(self.run_loop()),
            Some(OpCode::Call) => self.run_call(),
            Some(OpCode::Return) => self.run_return(),
            Some(OpCode::Closure) => continued(self.run_closure(1)),
            Some(OpCode::ClosureLong) => continued(self.run_closure(3)),
            Some(OpCode::Nop) => {
                self.set_ip(ip + 1);
                Ok(Action::Continue)
            },
            None => {
                self.set_ip(ip + 1);
                Err(
                    InterpretError::Compile(
                        CompileError::InvalidOpCode(self.get_current_line(), byte),
                    ),
                )
            },
        }
    }

    /// Starts running `frame`, with the stack slot of its function (the
    /// number 0) pushed.
    pub fn start(&mut self, frame: Frame)
        requires
            old(self).wf(),
            frame_depth(frame) <= usize::MAX,
        ensures
            final(self).wf(),
            final(self).frame() == frame,
            final(self).ip() == frame.ip,
            final(self).fp() == frame.fp,
            final(self).code() == frame.closure.function.chunk.code@,
            final(self).constants() == frame.closure.function.chunk.constants@,
            forall|o: int| #[trigger] final(self).line(o) == line_at(frame.closure.function.chunk.lines@, o),
            final(self).frame_count() == frame_depth(frame),
            final(self).stack() == old(self).stack().push(value_of(0)),
            final(self).globals() == old(self).globals(),
            final(self).heap() == old(self).heap(),
    {
        self.frame_count = frame_count_of(&frame);
        self.frame = frame;
        self.stack_push(Value::from_bits(0));
    }

    /// The values on the stack, bottom first.
    pub fn stack_values(&self) -> (s: &Vec<Value>)
        ensures
            s@ == self.stack(),
    {
        &self.stack
    }

    /// The chunk being run.
    pub fn current_chunk(&self) -> (c: &Chunk)
        ensures
            c.code@ == self.code(),
            c.constants@ == self.constants(),
            forall|o: int| line_at(c.lines@, o) == #[trigger] self.line(o),
    {
        &self.frame.closure.function.chunk
    }

    /// The position in the chunk being run.
    pub fn current_ip(&self) -> (ip: usize)
        ensures
            ip == self.ip(),
    {
        self.frame.ip
    }

    /// The value of slot `i` of the current frame; `nil` past the top of the
    /// stack.
    pub fn slot(&self, i: usize) -> (v: Value)
        ensures
            v == slot_at(self.stack(), self.fp() + i),
    {
        self.stack_get(i)
    }

    /// The heap, to store what the compiler produces.
    pub fn heap_mut(&mut self) -> (h: &mut Heap)
        ensures
            *h == old(self).heap(),
            final(self).heap() == *final(h),
            final(self).stack() == old(self).stack(),
            final(self).frame() == old(self).frame(),
            final(self).frame_count() == old(self).frame_count(),
            final(self).globals() == old(self).globals(),
            final(self).ip() == old(self).ip(),
            final(self).fp() == old(self).fp(),
            final(self).code() == old(self).code(),
            final(self).constants() == old(self).constants(),
            forall|o: int| #[trigger] final(self).line(o) == old(self).line(o),
            old(self).wf() && final(h).wf() ==> final(self).wf(),
    {
        &mut self.heap
    }
}

/// An instruction's outcome that leaves nothing to the driver, as an
/// action.
pub open spec fn as_action(r: Result<(), InterpretError>) -> Result<Action, InterpretError> {
    match r {
        Ok(_) => Ok(Action::Continue),
        Err(e) => Err(e),
    }
}

/// The outcome `as_action` gives.
fn continued(r: Result<(), InterpretError>) -> (res: Result<Action, InterpretError>)
    ensures
        res == as_action(r),
{
    match r {
        Ok(_) => Ok(Action::Continue),
        Err(e) => Err(e),
    }
}

/// A numeric instruction's outcome, as an action.
fn numeric(op: OpCode, r: Result<(Value, Value), InterpretError>) -> (res: Result<Action, InterpretError>)
    ensures
        r matches Ok((l, rr)) ==> res matches Ok(Action::Numeric(o, a, b)) && o == op && a == l && b
            == rr,
        r matches Err(e) ==> res == Err::<Action, InterpretError>(e),
{
    match r {
        Ok((l, rr)) => Ok(Action::Numeric(op, l, rr)),
        Err(e) => Err(e),
    }
}

/// The number of frames in the chain of `f`.
fn frame_count_of(f: &Frame) -> (n: usize)
    requires
        frame_depth(*f) <= usize::MAX,
    ensures
        n == frame_depth(*f),
    decreases *f,
{
    match &f.caller {
        Some(c) => 1 + frame_count_of(c),
        None => 1,
    }
}

/// An operand of at most three bytes is below 2^24.
proof fn lemma_operand_small(code: Seq<u8>, offset: int, n: int)
    requires
        1 <= n <= 3,
        offset + n < code.len(),
        0 <= offset,
    ensures
        0 <= operand_value(code, offset, n) < 0x1000000,
{
}

/// Assigning a global leaves the stack as it was (the assigned value stays
/// on top, as the value of the assignment): a step that runs `SetGlobal`
/// or `SetGlobalLong` and succeeds keeps the stack, keeps which globals
/// are defined, and sets one of them to the value on top of the stack.
pub proof fn lemma_set_global_keeps_stack(before: VM, after: VM, res: Result<Action, InterpretError>)
    requires
        VM::step_done(before, after, res),
        before.ip() < before.code().len(),
        byte_op(before.code()[before.ip() as int]) == Some(OpCode::SetGlobal) || byte_op(
            before.code()[before.ip() as int],
        ) == Some(OpCode::SetGlobalLong),
        res is Ok,
    ensures
        after.stack() == before.stack(),
        after.globals().dom() == before.globals().dom(),
        exists|k: u64|
            before.globals().dom().contains(k) && after.globals() == before.globals().insert(
                k,
                peek_at(before.stack(), 0).spec_bits(),
            ),
{
    let ip = before.ip() as int;
    let n: int = if byte_op(before.code()[ip]) == Some(OpCode::SetGlobal) { 1 } else { 3 };
    let key = before.constants()[operand_value(before.code(), ip, n)].spec_bits();
    assert(before.globals().dom().contains(key));
    assert(before.globals().insert(key, peek_at(before.stack(), 0).spec_bits()).dom()
        =~= before.globals().dom());
}

/// The disassembler reads a jump as the machine runs it: where a step runs
/// `Jump`, `JumpIfFalse` or `Loop` at position `ip` and succeeds, the
/// disassembler reads there a number `d` and a width `w` such that the
/// machine goes on at `ip + w + d` (`Jump`), at `ip + w` or `ip + w + d`
/// (`JumpIfFalse`), or at `ip + w - d` (`Loop`).
pub proof fn lemma_disassembly_follows_jumps(before: VM, after: VM, res: Result<Action, InterpretError>)
    requires
        VM::step_done(before, after, res),
        before.ip() < before.code().len(),
        res is Ok,
    ensures
        ({
            let ip = before.ip() as int;
            let code = before.code();
            match byte_op(code[ip]) {
                Some(OpCode::Jump) => disassembled(code, ip) matches Some((Instruction::Number(op, d), w))
                    && op == OpCode::Jump && after.ip() == ip + w + d,
                Some(OpCode::JumpIfFalse) => disassembled(code, ip) matches Some(
                    (Instruction::Number(op, d), w),
                ) && op == OpCode::JumpIfFalse && (after.ip() == ip + w || after.ip() == ip + w + d),
                Some(OpCode::Loop) => disassembled(code, ip) matches Some((Instruction::Number(op, d), w))
                    && op == OpCode::Loop && after.ip() == ip + w - d,
                _ => true,
            }
        }),
{
    let ip = before.ip() as int;
    let code = before.code();
    if ip + 2 < code.len() {
        lemma_operand_small(code, ip, 2);
    }
}

/// `JumpIfFalse` jumps exactly on a falsey value: where a step runs it and
/// succeeds, the machine goes on past the jump's distance when the value on
/// top of the stack is `nil` or `false`, and just after the instruction for
/// any other value; the value stays on the stack.
pub proof fn lemma_jump_if_false_on_falsey(before: VM, after: VM, res: Result<Action, InterpretError>)
    requires
        VM::step_done(before, after, res),
        before.ip() < before.code().len(),
        byte_op(before.code()[before.ip() as int]) == Some(OpCode::JumpIfFalse),
        res is Ok,
    ensures
        ({
            let ip = before.ip() as int;
            let top = peek_at(before.stack(), 0).spec_bits();
            let d = operand_value(before.code(), ip, 2);
            &&& (top == nil_bits() || top == boolean_bits(false)) ==> after.ip() == ip + 3 + d
            &&& !(top == nil_bits() || top == boolean_bits(false)) ==> after.ip() == ip + 3
            &&& after.stack() == before.stack()
        }),
{
    crate::value::lemma_falsey_values(peek_at(before.stack(), 0).spec_bits());
}

/// The disassembler reads every instruction as wide as the machine runs
/// it: where a step runs an instruction that neither jumps, calls nor
/// returns, and succeeds, the machine goes on just past the width the
/// disassembler reads there.
#[verifier::rlimit(40)]
pub proof fn lemma_disassembly_width(before: VM, after: VM, res: Result<Action, InterpretError>)
    requires
        VM::step_done(before, after, res),
        before.ip() < before.code().len(),
        res is Ok,
        !(byte_op(before.code()[before.ip() as int]) matches Some(op) && (op == OpCode::Jump || op
            == OpCode::JumpIfFalse || op == OpCode::Loop || op == OpCode::Call || op
            == OpCode::Return)),
    ensures
        disassembled(before.code(), before.ip() as int) matches Some((_, w)) && after.ip()
            == before.ip() + w,
{
}

/// A read gives back a write: after `DefineGlobal` sets a global to the
/// value on top of the stack, a `GetGlobal` of a constant with the same bits
/// (the same interned name) pushes that value.
pub proof fn lemma_define_then_get(
    v0: VM,
    v1: VM,
    v2: VM,
    n: int,
    m: int,
    res: Result<Action, InterpretError>,
)
    requires
        n == 1 || n == 3,
        m == 1 || m == 3,
        VM::define_global_done(v0, v1, Ok(Action::Continue), n),
        v1.ip() + m < v1.code().len(),
        operand_value(v1.code(), v1.ip() as int, m) < v1.constants().len(),
        v1.constants()[operand_value(v1.code(), v1.ip() as int, m)].spec_bits() == v0.constants()[operand_value(
            v0.code(),
            v0.ip() as int,
            n,
        )].spec_bits(),
        VM::get_global_done(v1, v2, res, m),
    ensures
        res is Ok,
        v2.stack() == v1.stack().push(pop_top(v0.stack()).1),
{
}

/// A local read gives back a local write: after `SetLocal` stores the value
/// on top of the stack in a slot, a `GetLocal` of the same slot pushes that
/// value.
pub proof fn lemma_set_then_get_local(
    v0: VM,
    v1: VM,
    v2: VM,
    n: int,
    m: int,
    res: Result<Action, InterpretError>,
)
    requires
        n == 1 || n == 3,
        m == 1 || m == 3,
        VM::set_local_done(v0, v1, Ok(Action::Continue), n),
        v1.ip() + m < v1.code().len(),
        operand_value(v1.code(), v1.ip() as int, m) == operand_value(v0.code(), v0.ip() as int, n),
        VM::get_local_done(v1, v2, res, m),
    ensures
        res is Ok,
        v2.stack().last() == peek_at(v0.stack(), 0),
{
}

/// Returning undoes calling: after `Call` enters a closure, a `Return` from
/// a state of that call (same caller, same slots) goes back to the caller's
/// frame, after the call instruction, with the callee and its arguments
/// replaced by the value returned.
pub proof fn lemma_call_then_return(
    v0: VM,
    v1: VM,
    w: VM,
    w2: VM,
    res: Result<Action, InterpretError>,
)
    requires
        VM::call_done(v0, v1, Ok(Action::Continue)),
        v1.frame().caller is Some,
        w.frame().caller == v1.frame().caller,
        w.fp() == v1.fp(),
        w.stack().len() > 0,
        w.stack().len() - 1 >= w.fp(),
        VM::return_done(w, w2, res),
    ensures
        res matches Ok(Action::Continue),
        w2.ip() == v0.ip() + 2,
        w2.fp() == v0.fp(),
        w2.frame().closure == v0.frame().closure,
        w2.frame().caller == v0.frame().caller,
        w2.stack() == w.stack().subrange(0, w.fp() as int).push(w.stack().last()),
{
}

} // verus!
