use std::rc::Rc;

use vstd::prelude::*;

use crate::object::Closure;

verus! {

/// A call in progress: where it is in its code, where its slots start on
/// the stack, what it runs, and the call it returns to.
pub struct Frame {
    /// Index into the code of the closure's function.
    pub ip: usize,
    /// Index into the stack of the frame's slot 0.
    pub fp: usize,
    pub closure: Rc<Closure>,
    pub caller: Option<Box<Frame>>,
}

/// The number of frames in a call chain.
pub open spec fn frame_depth(f: Frame) -> nat
    decreases f,
{
    match f.caller {
        Some(c) => 1 + frame_depth(*c),
        None => 1,
    }
}

impl Frame {
    /// The outermost frame of `closure`, at the start of its code, with its
    /// slots from `fp` on.
    pub fn new(closure: Rc<Closure>, fp: usize) -> (f: Frame)
        ensures
            f.ip == 0,
            f.fp == fp,
            f.closure == closure,
            f.caller is None,
            frame_depth(f) == 1,
    {
        Frame { ip: 0, fp, closure, caller: None }
    }

    /// A frame of `closure` at the start of its code, with its slots from
    /// `fp` on, that returns to `caller`.
    pub fn with_caller(closure: Rc<Closure>, fp: usize, caller: Box<Frame>) -> (f: Frame)
        ensures
            f.ip == 0,
            f.fp == fp,
            f.closure == closure,
            f.caller == Some(caller),
            frame_depth(f) == 1 + frame_depth(*caller),
    {
        Frame { ip: 0, fp, closure, caller: Some(caller) }
    }
}

/// Where a captured variable lives: still on the stack, or moved to the
/// heap once its frame returned.
#[derive(Debug, Clone, Copy)]
pub enum VMUpvalue {
    /// Index into the stack.
    Open(usize),
    /// Index into the heap.
    Closed(usize),
}

} // verus!
