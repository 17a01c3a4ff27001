//! The instructions of the stack machine.
use vstd::prelude::*;

verus! {

/// One instruction. Targets of jumps are positions in the code; a target at
/// or past the end of the code ends the run.
#[derive(Debug)]
pub enum Op {
    /// A floating-point literal, kept as the text of its digits.
    PushFloat(Vec<char>),
    PushStr(Vec<char>),
    PushChar(char),
    PushNumber(i64),
    PushBool(bool),
    /// A reference to the global slot.
    PushRefGlobal(usize),
    /// A reference to the slot of the frame `depth` levels out.
    PushRefLocal(usize, usize),
    /// A closure whose body starts at the position.
    PushFn(usize),
    PushVoid,
    PushNone,
    Pop,
    Dup,
    /// Copies the indexing target and its `n` indices on top of the stack.
    DupTarget(usize),
    /// Unwraps an `Ok`/`Some`, or returns the `Err`/`None` from the function.
    Try,
    Plus,
    Sub,
    Mult,
    Div,
    Mod,
    Pow,
    ArifmAnd,
    ArifmOr,
    Not,
    Equal,
    NotEqual,
    Greater,
    Less,
    GreaterEq,
    LessEq,
    UnpackTuple,
    LoadGlobal(usize),
    StoreGlobal(usize),
    LoadLocal(usize, usize),
    StoreLocal(usize, usize),
    MakeOk,
    MakeErr,
    MakeSome,
    /// Builds a range from the two values on top; `true` includes the end.
    MakeRange(bool),
    MakeIter,
    Jump(usize),
    JumpIfFalse(usize),
    JumpIfTrue(usize),
    /// Replaces an `Err` by its payload, or jumps.
    SafeUnwL(usize),
    /// Replaces an `Ok`/`Some` by its payload, or jumps.
    SafeUnwR(usize),
    /// Pushes the next item of the iterator on top, or jumps when it is done.
    IterNext(usize),
    MakeTuple(usize),
    MakeSet(usize),
    StoreIndex(usize),
    LoadIndex(usize),
    /// Calls the function on top of the stack with the arguments below it.
    CallFunc(usize),
    Return,
}

/// The instruction with its jump target replaced by `t`.
pub open spec fn retarget(op: Op, t: usize) -> Op {
    match op {
        Op::Jump(_) => Op::Jump(t),
        Op::JumpIfFalse(_) => Op::JumpIfFalse(t),
        Op::JumpIfTrue(_) => Op::JumpIfTrue(t),
        Op::SafeUnwL(_) => Op::SafeUnwL(t),
        Op::SafeUnwR(_) => Op::SafeUnwR(t),
        Op::IterNext(_) => Op::IterNext(t),
        _ => op,
    }
}

} // verus!
