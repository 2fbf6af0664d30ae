use std::rc::Rc;

use vstd::prelude::*;

use crate::chunk::Chunk;
use crate::value::Value;

verus! {

/// Whether a function body is the top-level script or a declared function.
#[derive(Debug, Clone, Copy, PartialEq, Eq, Structural)]
pub enum FunctionType {
    Main,
    Function,
}

/// A compiled function: its name, its number of parameters and its code.
pub struct Function {
    pub name: String,
    pub arity: u8,
    pub chunk: Chunk,
}

impl Function {
    /// A function named `name` with `arity` parameters and no code yet.
    pub fn new(name: String, arity: u8) -> (f: Function)
        ensures
            f.name@ == name@,
            f.arity == arity,
            f.chunk.wf(),
            f.chunk.code@ == Seq::<u8>::empty(),
            f.chunk.line_of() == Seq::<u32>::empty(),
            f.chunk.constants@ == Seq::<Value>::empty(),
    {
        Function { name, arity, chunk: Chunk::new() }
    }
}

/// A function together with the upvalues it captured.
pub struct Closure {
    pub function: Rc<Function>,
    pub upvalue_count: u8,
    /// Slots of the virtual machine's upvalue table.
    pub upvalues: Vec<usize>,
}

impl Closure {
    /// A closure of `function` that has room for `upvalue_count` upvalues
    /// and has captured none yet.
    pub fn new(function: Rc<Function>, upvalue_count: u8) -> (c: Closure)
        ensures
            c.function == function,
            c.upvalue_count == upvalue_count,
            c.upvalues@ == Seq::<usize>::empty(),
    {
        Closure { function, upvalue_count, upvalues: Vec::with_capacity(upvalue_count as usize) }
    }
}

/// A function that the virtual machine provides, as opposed to one written
/// in Lox.
pub trait Native {
    /// The name under which the function is a global.
    fn name(&self) -> &'static str;

    /// The number of arguments it takes.
    fn arity(&self) -> u8;
}

/// `clock()`: the seconds since the Unix epoch.
pub struct Clock;

impl Native for Clock {
    fn name(&self) -> (s: &'static str)
        ensures
            s@ == "clock"@,
    {
        "clock"
    }

    fn arity(&self) -> (n: u8)
        ensures
            n == 0,
    {
        0
    }
}

/// `sqrt(x)`: the square root of a number.
pub struct Sqrt;

impl Native for Sqrt {
    fn name(&self) -> (s: &'static str)
        ensures
            s@ == "sqrt"@,
    {
        "sqrt"
    }

    fn arity(&self) -> (n: u8)
        ensures
            n == 1,
    {
        1
    }
}

/// The native functions a heap can hold.
#[derive(Debug, Clone, Copy, PartialEq, Eq, Structural)]
pub enum NativeFn {
    Clock,
    Sqrt,
}

/// The number of arguments a native function takes.
pub open spec fn native_arity(n: NativeFn) -> u8 {
    match n {
        NativeFn::Clock => 0,
        NativeFn::Sqrt => 1,
    }
}

/// The global name of a native function.
pub open spec fn native_name(n: NativeFn) -> Seq<char> {
    match n {
        NativeFn::Clock => "clock"@,
        NativeFn::Sqrt => "sqrt"@,
    }
}

impl Native for NativeFn {
    fn name(&self) -> (s: &'static str)
        ensures
            s@ == native_name(*self),
    {
        match self {
            NativeFn::Clock => Clock.name(),
            NativeFn::Sqrt => Sqrt.name(),
        }
    }

    fn arity(&self) -> (n: u8)
        ensures
            n == native_arity(*self),
    {
        match self {
            NativeFn::Clock => Clock.arity(),
            NativeFn::Sqrt => Sqrt.arity(),
        }
    }
}

/// What the heap holds.
pub enum Object {
    String(String),
    Function(Rc<Function>),
    Native(NativeFn),
    Closure(Rc<Closure>),
    UpValue(Value),
}

} // verus!
