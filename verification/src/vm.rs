//! The state of the stack machine and its primitive moves.
use vstd::prelude::*;
use crate::consts;
use crate::errors::VMError;
use crate::value::{Value, ValueV, vview, vview_seq, lemma_vview_seq, lemma_vview_seq_push, lemma_vview_seq_pop, lemma_vview_seq_update};

verus! {

/// A function call in progress.
#[derive(Debug, Clone, Copy, PartialEq, Eq, Structural)]
pub struct CallFrame {
    /// Where execution goes on after the return; `STOP_FLAG` for a call made
    /// by a builtin on behalf of `map`, `filter` or `filter_map`.
    pub return_ip: usize,
    /// The frame base of the caller.
    pub old_frame: usize,
    /// The call whose frame encloses the function's definition, or
    /// `STOP_FLAG` when that is the global scope.
    pub parent_frame: usize,
    /// The first variable slot of this call.
    pub frame_idx: usize,
}

/// What a builtin does with each result of the function it applies.
#[derive(Debug, Clone, Copy, PartialEq, Eq, Structural)]
pub enum EachKind {
    /// Keeps every result.
    Mapping,
    /// Keeps the items for which the result is true.
    Filtering,
    /// Keeps the payload of every `Some` result.
    FilterMapping,
}

/// A builtin that is waiting on the machine.
#[derive(Debug)]
pub enum Pending {
    /// Applying the function at `lambda_ip` to `items` one after another;
    /// `next` items have been handed to it so far.
    Each {
        kind: EachKind,
        items: Vec<Value>,
        next: usize,
        acc: Vec<Value>,
        lambda_ip: usize,
        env: usize,
        resume_ip: usize,
    },
    /// Collecting the items of an iterator, held in the frame slot `slot`
    /// or, when that is `None`, in `iter`.
    Collect { slot: Option<usize>, iter: Value, acc: Vec<Value>, resume_ip: usize },
}

/// How a file is to be opened.
#[derive(Debug, Clone, Copy, PartialEq, Eq, Structural)]
pub struct OpenMode {
    pub read: bool,
    pub write: bool,
    pub create: bool,
    pub append: bool,
    pub truncate: bool,
}

/// Where `write` and `print` send their text.
#[derive(Debug)]
pub enum WriteTarget {
    Stdout,
    Stderr,
    /// An open file.
    File(u64),
    /// A path, opened for appending (standard output when that fails).
    Path(Vec<char>),
}

/// Outside work the machine asks its host to do before it can go on.
#[derive(Debug)]
pub enum IoRequest {
    /// Read up to `READ_AT_ONCE` bytes from an open file.
    ReadChunk { file: u64, path: Vec<char> },
    /// Rewind an open file and read all of it.
    ReadAll { file: u64, path: Vec<char> },
    /// Read the whole file at a path.
    ReadPath { path: Vec<char> },
    /// Create (or truncate) the file at a path.
    Create { path: Vec<char> },
    /// Open the file at a path.
    Open { path: Vec<char>, mode: OpenMode },
    /// Write the text, then flush; `to_stdout` marks `print`/`println`.
    Write { target: WriteTarget, text: Vec<char>, to_stdout: bool },
    /// Show the prompt, if any, then read one line of standard input.
    ReadLine { prompt: Option<Vec<char>> },
    /// Clear the terminal.
    ClearConsole,
}

/// What the host reports back for an `IoRequest`.
#[derive(Debug)]
pub enum IoReply {
    /// The text read (for the read requests and `ReadLine`).
    Text(Vec<char>),
    /// A read failed; `at_seek` when rewinding failed, with the system's
    /// message.
    ReadFailed { at_seek: bool, message: Vec<char> },
    /// A file was opened; the handle the host keeps it under.
    Opened(u64),
    NotOpened,
    /// A write or clear went through.
    Done,
    /// A write failed.
    Failed,
}

/// What one step of the machine led to.
#[derive(Debug)]
pub enum Step {
    /// The machine can take another step.
    Continue,
    /// The program has ended.
    Halt,
    /// The host must do this work and hand back its reply.
    Io(IoRequest),
}

/// The machine: operand stack, variable slots, calls and builtins in
/// progress, and the position of the next instruction.
pub struct VM {
    pub stack: Vec<Value>,
    pub frame: Vec<Value>,
    /// One past the highest variable slot written in the current call.
    pub fp: usize,
    pub call_stack: Vec<CallFrame>,
    /// The first variable slot of the current call.
    pub now_frame: usize,
    pub ip: usize,
    pub pending: Vec<Pending>,
    /// The request the machine is waiting on, if any.
    pub awaiting: Option<IoRequest>,
}

// ---------------------------------------------------------------------------
// Views
// ---------------------------------------------------------------------------

pub enum PendingV {
    Each {
        kind: EachKind,
        items: Seq<ValueV>,
        next: usize,
        acc: Seq<ValueV>,
        lambda_ip: usize,
        env: usize,
        resume_ip: usize,
    },
    Collect { slot: Option<usize>, iter: ValueV, acc: Seq<ValueV>, resume_ip: usize },
}

pub enum WriteTargetV {
    Stdout,
    Stderr,
    File(u64),
    Path(Seq<char>),
}

pub enum IoRequestV {
    ReadChunk { file: u64, path: Seq<char> },
    ReadAll { file: u64, path: Seq<char> },
    ReadPath { path: Seq<char> },
    Create { path: Seq<char> },
    Open { path: Seq<char>, mode: OpenMode },
    Write { target: WriteTargetV, text: Seq<char>, to_stdout: bool },
    ReadLine { prompt: Option<Seq<char>> },
    ClearConsole,
}

pub enum StepV {
    Continue,
    Halt,
    Io(IoRequestV),
}

/// The machine with values and texts as sequences.
#[verifier::ext_equal]
pub struct VMV {
    pub stack: Seq<ValueV>,
    pub frame: Seq<ValueV>,
    pub fp: usize,
    pub calls: Seq<CallFrame>,
    pub now_frame: usize,
    pub ip: usize,
    pub pending: Seq<PendingV>,
    pub awaiting: Option<IoRequestV>,
}

pub open spec fn pending_view(p: Pending) -> PendingV {
    match p {
        Pending::Each { kind, items, next, acc, lambda_ip, env, resume_ip } => PendingV::Each {
            kind,
            items: vview_seq(items@),
            next,
            acc: vview_seq(acc@),
            lambda_ip,
            env,
            resume_ip,
        },
        Pending::Collect { slot, iter, acc, resume_ip } => PendingV::Collect {
            slot,
            iter: vview(iter),
            acc: vview_seq(acc@),
            resume_ip,
        },
    }
}

pub open spec fn pendings_view(s: Seq<Pending>) -> Seq<PendingV> {
    Seq::new(s.len(), |i: int| pending_view(s[i]))
}

/// Taking views commutes with pushing a pending builtin.
pub proof fn lemma_pendings_push(s: Seq<Pending>, p: Pending)
    ensures
        pendings_view(s.push(p)) == pendings_view(s).push(pending_view(p)),
{
    assert(pendings_view(s.push(p)) =~= pendings_view(s).push(pending_view(p)));
}

pub open spec fn target_view(t: WriteTarget) -> WriteTargetV {
    match t {
        WriteTarget::Stdout => WriteTargetV::Stdout,
        WriteTarget::Stderr => WriteTargetV::Stderr,
        WriteTarget::File(id) => WriteTargetV::File(id),
        WriteTarget::Path(p) => WriteTargetV::Path(p@),
    }
}

pub open spec fn request_view(r: IoRequest) -> IoRequestV {
    match r {
        IoRequest::ReadChunk { file, path } => IoRequestV::ReadChunk { file, path: path@ },
        IoRequest::ReadAll { file, path } => IoRequestV::ReadAll { file, path: path@ },
        IoRequest::ReadPath { path } => IoRequestV::ReadPath { path: path@ },
        IoRequest::Create { path } => IoRequestV::Create { path: path@ },
        IoRequest::Open { path, mode } => IoRequestV::Open { path: path@, mode },
        IoRequest::Write { target, text, to_stdout } => IoRequestV::Write {
            target: target_view(target),
            text: text@,
            to_stdout,
        },
        IoRequest::ReadLine { prompt } => IoRequestV::ReadLine {
            prompt: match prompt {
                Some(p) => Some(p@),
                None => None,
            },
        },
        IoRequest::ClearConsole => IoRequestV::ClearConsole,
    }
}

pub open spec fn step_view(s: Step) -> StepV {
    match s {
        Step::Continue => StepV::Continue,
        Step::Halt => StepV::Halt,
        Step::Io(r) => StepV::Io(request_view(r)),
    }
}

impl View for VM {
    type V = VMV;

    open spec fn view(&self) -> VMV {
        VMV {
            stack: vview_seq(self.stack@),
            frame: vview_seq(self.frame@),
            fp: self.fp,
            calls: self.call_stack@,
            now_frame: self.now_frame,
            ip: self.ip,
            pending: pendings_view(self.pending@),
            awaiting: match self.awaiting {
                Some(r) => Some(request_view(r)),
                None => None,
            },
        }
    }
}

/// `n` void values.
pub open spec fn voids(n: nat) -> Seq<ValueV> {
    Seq::new(n, |i: int| ValueV::Void)
}

/// The frame base of the call `depth` definitions out, following parent
/// links from `cur` `k` more times; `None` where the walk would index past
/// the call stack.
pub open spec fn base_walk(calls: Seq<CallFrame>, cur: usize, k: nat) -> Option<usize>
    decreases k,
{
    if cur == consts::STOP_FLAG {
        Some(0)
    } else if cur >= calls.len() {
        None
    } else if k == 0 {
        Some(calls[cur as int].frame_idx)
    } else {
        base_walk(calls, calls[cur as int].parent_frame, (k - 1) as nat)
    }
}

/// The first slot of the frame `depth` definitions out from the current
/// call (the global frame counts as base `0`).
pub open spec fn frame_base(vm: VMV, depth: usize) -> Option<usize> {
    if depth == 0 {
        Some(vm.now_frame)
    } else if vm.calls.len() == 0 {
        None
    } else {
        base_walk(vm.calls, vm.calls.last().parent_frame, (depth - 1) as nat)
    }
}

impl VM {
    /// A machine with an empty stack and `FRAME_START` void variable slots,
    /// about to run the code from its start.
    pub fn new() -> (r: VM)
        ensures
            r@.stack == Seq::<ValueV>::empty(),
            r@.frame == voids(consts::FRAME_START as nat),
            r@.fp == 0,
            r@.calls == Seq::<CallFrame>::empty(),
            r@.now_frame == 0,
            r@.ip == 0,
            r@.pending == Seq::<PendingV>::empty(),
            r@.awaiting is None,
    {
        let mut frame: Vec<Value> = Vec::new();
        let mut i: usize = 0;
        while i < consts::FRAME_START
            invariant
                i <= consts::FRAME_START,
                vview_seq(frame@) == voids(i as nat),
            decreases consts::FRAME_START - i,
        {
            proof {
                lemma_vview_seq_push(frame@, Value::Void);
                assert(voids(i as nat).push(ValueV::Void) =~= voids((i + 1) as nat));
            }
            frame.push(Value::Void);
            i = i + 1;
        }
        let pending: Vec<Pending> = Vec::new();
        let r = VM {
            stack: Vec::new(),
            frame,
            fp: 0,
            call_stack: Vec::new(),
            now_frame: 0,
            ip: 0,
            pending,
            awaiting: None,
        };
        assert(r@.stack =~= Seq::<ValueV>::empty());
        assert(r@.pending =~= Seq::<PendingV>::empty());
        r
    }

    /// Puts a value on top of the stack.
    pub fn push(&mut self, val: Value)
        ensures
            final(self)@ == (VMV { stack: old(self)@.stack.push(val@), ..old(self)@ }),
    {
        proof {
            lemma_vview_seq_push(self.stack@, val);
        }
        self.stack.push(val);
    }

    /// Takes the value on top of the stack.
    pub fn pop(&mut self) -> (r: Result<Value, VMError>)
        ensures
            old(self)@.stack.len() > 0 ==> r is Ok && r->Ok_0@ == old(self)@.stack.last()
                && final(self)@ == (VMV { stack: old(self)@.stack.drop_last(), ..old(self)@ }),
            old(self)@.stack.len() == 0 ==> r == Err::<Value, VMError>(VMError::InvalidState),
    {
        proof {
            if self.stack@.len() > 0 {
                lemma_vview_seq_pop(self.stack@);
            }
        }
        match self.stack.pop() {
            Some(v) => Ok(v),
            None => Err(VMError::InvalidState),
        }
    }

    /// The first slot of the frame `depth_delta` definitions out from the
    /// current call.
    pub fn get_frame_base(&self, depth_delta: usize) -> (r: Option<usize>)
        ensures
            r == frame_base(self@, depth_delta),
    {
        if depth_delta == 0 {
            return Some(self.now_frame);
        }
        let n = self.call_stack.len();
        if n == 0 {
            return None;
        }
        let mut cur = self.call_stack[n - 1].parent_frame;
        let mut k: usize = 1;
        while k < depth_delta
            invariant
                1 <= k <= depth_delta,
                n == self.call_stack.len(),
                frame_base(self@, depth_delta) == base_walk(self@.calls, cur, (depth_delta - k) as nat),
            decreases depth_delta - k,
        {
            if cur == consts::STOP_FLAG {
                return Some(0);
            }
            if cur >= n {
                return None;
            }
            cur = self.call_stack[cur].parent_frame;
            k = k + 1;
        }
        if cur == consts::STOP_FLAG {
            Some(0)
        } else if cur >= n {
            None
        } else {
            Some(self.call_stack[cur].frame_idx)
        }
    }

    /// The value a reference stands for (itself when it is no reference).
    pub fn deref<'a>(&'a self, arg: &'a Value) -> (r: Result<&'a Value, VMError>)
        ensures
            match arg@ {
                ValueV::Ref(i) => if i < self@.frame.len() {
                    r is Ok && r->Ok_0@ == self@.frame[i as int]
                } else {
                    r == Err::<&Value, VMError>(VMError::InvalidState)
                },
                _ => r is Ok && r->Ok_0 == arg,
            },
    {
        match arg {
            Value::Ref(i) => {
                proof {
                    lemma_vview_seq(self.frame@);
                }
                if *i < self.frame.len() {
                    Ok(&self.frame[*i])
                } else {
                    Err(VMError::InvalidState)
                }
            },
            _ => Ok(arg),
        }
    }
}

impl WriteTarget {
    /// A copy of this target.
    pub fn copy(&self) -> (r: WriteTarget)
        ensures
            target_view(r) == target_view(*self),
    {
        match self {
            WriteTarget::Stdout => WriteTarget::Stdout,
            WriteTarget::Stderr => WriteTarget::Stderr,
            WriteTarget::File(id) => WriteTarget::File(*id),
            WriteTarget::Path(p) => WriteTarget::Path(crate::text::copy_text(p)),
        }
    }
}

impl IoRequest {
    /// A copy of this request.
    pub fn copy(&self) -> (r: IoRequest)
        ensures
            request_view(r) == request_view(*self),
    {
        match self {
            IoRequest::ReadChunk { file, path } => IoRequest::ReadChunk { file: *file, path: crate::text::copy_text(path) },
            IoRequest::ReadAll { file, path } => IoRequest::ReadAll { file: *file, path: crate::text::copy_text(path) },
            IoRequest::ReadPath { path } => IoRequest::ReadPath { path: crate::text::copy_text(path) },
            IoRequest::Create { path } => IoRequest::Create { path: crate::text::copy_text(path) },
            IoRequest::Open { path, mode } => IoRequest::Open { path: crate::text::copy_text(path), mode: *mode },
            IoRequest::Write { target, text, to_stdout } => IoRequest::Write {
                target: target.copy(),
                text: crate::text::copy_text(text),
                to_stdout: *to_stdout,
            },
            IoRequest::ReadLine { prompt } => IoRequest::ReadLine {
                prompt: match prompt {
                    Some(p) => Some(crate::text::copy_text(p)),
                    None => None,
                },
            },
            IoRequest::ClearConsole => IoRequest::ClearConsole,
        }
    }
}

} // verus!
