//! A register virtual machine: a stack of values addressed relative to the
//! current call frame, call frames, and instruction dispatch.
use vstd::prelude::*;

use crate::budget::{after_take, BudgetGuard, UNLIMITED};
use crate::value::{
    clone_value, inline_op, inline_op_spec, kind_of, type_kind, BinOp, TypeKind, Value, ValueError,
};

verus! {

/// Where an instruction writes its result.
#[derive(Clone, Copy, Debug, PartialEq, Eq, Structural)]
pub enum Output {
    /// The stack slot at this address of the current frame.
    Keep(usize),
    /// Nowhere.
    Discard,
}

/// Whether popping a frame ends the execution.
#[derive(Clone, Copy, Debug, PartialEq, Eq, Structural)]
pub enum Isolated {
    /// Popping the frame completes the execution.
    Isolated,
    /// Popping the frame continues in the caller.
    NotIsolated,
}

impl Isolated {
    /// `Isolated` for `true`.
    pub fn new(value: bool) -> (r: Self)
        ensures
            r == (if value {
                Isolated::Isolated
            } else {
                Isolated::NotIsolated
            }),
    {
        if value {
            Isolated::Isolated
        } else {
            Isolated::NotIsolated
        }
    }

    /// `Some(value)` for an isolated frame.
    pub fn then_some<T>(self, value: T) -> (r: Option<T>)
        ensures
            self == Isolated::Isolated ==> r == Some(value),
            self == Isolated::NotIsolated ==> r is None,
    {
        match self {
            Isolated::Isolated => Some(value),
            Isolated::NotIsolated => None,
        }
    }
}

/// What a call saves, to be restored by the matching return.
#[derive(Clone, Copy, Debug, PartialEq, Eq, Structural)]
pub struct CallFrame {
    /// The caller's instruction pointer.
    pub ip: usize,
    /// The caller's frame base.
    pub top: usize,
    /// Whether returning from this frame ends the execution.
    pub isolated: Isolated,
    /// Where the return value goes in the caller's frame.
    pub out: Output,
}

/// An inline constant.
#[derive(Clone, Copy, Debug, PartialEq, Eq, Structural)]
pub enum Inline {
    Unit,
    Bool(bool),
    Char(char),
    Integer(i64),
    Unsigned(u64),
    Byte(u8),
    /// The empty option.
    Nothing,
}

/// A constructor that wraps one value.
#[derive(Clone, Copy, Debug, PartialEq, Eq, Structural)]
pub enum Wrap {
    ResultOk,
    ResultErr,
    OptionSome,
}

/// An instruction. Addresses are relative to the current frame's base.
#[derive(Clone, Copy, Debug, PartialEq, Eq, Structural)]
pub enum Inst {
    Allocate { size: usize },
    Store { value: Inline, out: Output },
    Copy { addr: usize, out: Output },
    Move { addr: usize, out: Output },
    Op { op: BinOp, a: usize, b: usize, out: Output },
    Jump { jump: usize },
    JumpIf { cond: usize, jump: usize },
    JumpIfNot { cond: usize, jump: usize },
    Call { offset: usize, addr: usize, args: usize, out: Output },
    Wrap { wrap: Wrap, addr: usize, out: Output },
    TupleIndexGet { addr: usize, index: usize, out: Output },
    Try { addr: usize, out: Output },
    Return { addr: usize },
    ReturnUnit,
    Yield { addr: usize, out: Output },
    Panic { reason: u32 },
}

/// A protocol handler: the function at `offset` implements `op` for host
/// objects of type `type_hash`.
#[derive(Clone, Copy, Debug, PartialEq, Eq, Structural)]
pub struct ProtocolFn {
    pub type_hash: u64,
    pub op: BinOp,
    pub offset: usize,
}

/// A compiled unit: instructions and protocol handlers.
pub struct Unit {
    pub instructions: Vec<Inst>,
    pub protocols: Vec<ProtocolFn>,
}

/// An execution failure.
#[derive(Clone, Copy, Debug, PartialEq, Eq, Structural)]
pub enum VmError {
    /// An address lies outside the current frame.
    StackOutOfBounds { addr: usize },
    /// The instruction pointer lies outside the unit.
    IpOutOfBounds { ip: usize },
    /// An operator failed.
    Value(ValueError),
    /// A condition is not a boolean.
    ExpectedBool { actual: TypeKind },
    /// `Try` on a value that is neither a result nor an option.
    UnsupportedTryOperand { actual: TypeKind },
    /// The program panicked.
    Panic { reason: u32 },
    /// A tuple-like value has no field `index`.
    MissingIndexInteger { target: TypeKind, index: usize },
    /// The value has no tuple fields.
    UnsupportedTupleIndexGet { actual: TypeKind },
}

/// How a run stopped without failing.
#[derive(Clone, Copy, Debug, PartialEq, Eq, Structural)]
pub enum Halt {
    /// An isolated frame returned; its value is at this output.
    Exited(Output),
    /// The program yielded the value at `value`; to resume, store the value
    /// sent back at `resume` and run again.
    Yielded { value: Output, resume: Output },
    /// The budget ran out; running again resumes.
    Limited,
}

/// The machine's state, as contracts see it.
pub struct VmState {
    pub ip: usize,
    pub stack: Seq<Value>,
    pub top: usize,
    pub frames: Seq<CallFrame>,
}

/// The virtual machine.
pub struct Vm {
    ip: usize,
    stack: Vec<Value>,
    top: usize,
    frames: Vec<CallFrame>,
}

/// The value of an inline constant.
pub open spec fn inline_value(c: Inline) -> Value {
    match c {
        Inline::Unit => Value::Unit,
        Inline::Bool(b) => Value::Bool(b),
        Inline::Char(c) => Value::Char(c),
        Inline::Integer(n) => Value::Integer(n),
        Inline::Unsigned(n) => Value::Unsigned(n),
        Inline::Byte(n) => Value::Byte(n),
        Inline::Nothing => Value::Option(Option::None),
    }
}

/// The frame bases are ordered: each saved base lies at or below the base
/// that was current above it, and the current base lies within the stack.
pub open spec fn state_wf(s: VmState) -> bool {
    &&& s.top <= s.stack.len()
    &&& forall|i: int|
        0 <= i < s.frames.len() ==> (#[trigger] s.frames[i]).top <= (if i + 1 < s.frames.len() {
            s.frames[i + 1].top as int
        } else {
            s.top as int
        })
}

/// The value at `addr` of the current frame.
pub open spec fn read_spec(s: VmState, addr: usize) -> Result<Value, VmError> {
    if s.top + addr < s.stack.len() {
        Ok(s.stack[s.top + addr])
    } else {
        Err(VmError::StackOutOfBounds { addr })
    }
}

/// The state after writing `v` to `out`.
pub open spec fn store_spec(s: VmState, out: Output, v: Value) -> Result<VmState, VmError> {
    match out {
        Output::Discard => Ok(s),
        Output::Keep(addr) => if s.top + addr < s.stack.len() {
            Ok(VmState { stack: s.stack.update(s.top + addr, v), ..s })
        } else {
            Err(VmError::StackOutOfBounds { addr })
        },
    }
}

/// The state after a call: the arguments are pushed, they start the new
/// frame, and the caller's position is saved.
pub open spec fn call_spec(s: VmState, target: usize, args: Seq<Value>, isolated: Isolated, out: Output) -> VmState {
    VmState {
        ip: target,
        stack: s.stack + args,
        top: s.stack.len() as usize,
        frames: s.frames.push(CallFrame { ip: s.ip, top: s.top, isolated, out }),
    }
}

/// The state after popping the current frame, with its isolation and output
/// destination (`None` when there was no frame, which counts as isolated).
pub open spec fn pop_frame_spec(s: VmState) -> (VmState, Isolated, Option<Output>) {
    if s.frames.len() == 0 {
        (VmState { stack: s.stack.subrange(0, s.top as int), top: 0, ..s }, Isolated::Isolated, Option::None)
    } else {
        let f = s.frames.last();
        (
            VmState {
                ip: f.ip,
                stack: s.stack.subrange(0, s.top as int),
                top: f.top,
                frames: s.frames.drop_last(),
            },
            f.isolated,
            Some(f.out),
        )
    }
}

/// Returning `v`: the frame is popped, `v` goes where the frame said (or is
/// pushed when there was no frame), and an isolated frame ends the
/// execution with the output that holds `v`.
pub open spec fn return_spec(s: VmState, v: Value) -> Result<(VmState, Option<Halt>), VmError> {
    let (p, isolated, out) = pop_frame_spec(s);
    let stored: Result<(VmState, Output), VmError> = match out {
        Some(o) => match store_spec(p, o, v) {
            Ok(q) => Ok((q, o)),
            Err(e) => Err(e),
        },
        Option::None => {
            if p.stack.len() - p.top <= usize::MAX {
                Ok((VmState { stack: p.stack.push(v), ..p }, Output::Keep((p.stack.len() - p.top) as usize)))
            } else {
                Err(VmError::StackOutOfBounds { addr: usize::MAX })
            }
        },
    };
    match stored {
        Ok((q, o)) => Ok((q, if isolated == Isolated::Isolated { Some(Halt::Exited(o)) } else { Option::None })),
        Err(e) => Err(e),
    }
}

/// The handler of `op` for type `type_hash`: the first that matches, from
/// index `i` on.
pub open spec fn lookup_protocol_from(protocols: Seq<ProtocolFn>, i: int, type_hash: u64, op: BinOp) -> Option<usize>
    decreases protocols.len() - i,
{
    if i < 0 || i >= protocols.len() {
        Option::None
    } else if protocols[i].type_hash == type_hash && protocols[i].op == op {
        Some(protocols[i].offset)
    } else {
        lookup_protocol_from(protocols, i + 1, type_hash, op)
    }
}

/// The handler of `op` for type `type_hash`: the first that matches.
pub open spec fn lookup_protocol(protocols: Seq<ProtocolFn>, type_hash: u64, op: BinOp) -> Option<usize> {
    lookup_protocol_from(protocols, 0, type_hash, op)
}

/// What an operator instruction does with its operands: the built-in rule
/// on inline values, else a call of the left operand's protocol handler,
/// else an error naming both kinds.
pub open spec fn dispatch_spec(
    s: VmState,
    protocols: Seq<ProtocolFn>,
    op: BinOp,
    a: Value,
    b: Value,
    out: Output,
) -> Result<(VmState, Option<Halt>), VmError> {
    match inline_op_spec(op, a, b) {
        Some(Ok(v)) => match store_spec(s, out, v) {
            Ok(q) => Ok((q, Option::None)),
            Err(e) => Err(e),
        },
        Some(Err(e)) => Err(VmError::Value(e)),
        Option::None => {
            let unsupported = Err(
                VmError::Value(
                    ValueError::UnsupportedBinaryOperation { op, lhs: kind_of(a), rhs: kind_of(b) },
                ),
            );
            match a {
                Value::Any(r) => match lookup_protocol(protocols, r.type_hash, op) {
                    Some(offset) => Ok(
                        (call_spec(s, offset, seq![a, b], Isolated::NotIsolated, out), Option::None),
                    ),
                    Option::None => unsupported,
                },
                _ => unsupported,
            }
        },
    }
}

/// Stores `v` and goes on.
pub open spec fn store_continue(s: VmState, out: Output, v: Value) -> Result<(VmState, Option<Halt>), VmError> {
    match store_spec(s, out, v) {
        Ok(q) => Ok((q, Option::None)),
        Err(e) => Err(e),
    }
}

/// One instruction: the state after it, and the output of the value the
/// execution ended with, if it ended.
pub open spec fn step_spec(s: VmState, code: Seq<Inst>, protocols: Seq<ProtocolFn>) -> Result<
    (VmState, Option<Halt>),
    VmError,
> {
    if s.ip >= code.len() {
        Err(VmError::IpOutOfBounds { ip: s.ip })
    } else {
        inst_spec(VmState { ip: (s.ip + 1) as usize, ..s }, code[s.ip as int], protocols)
    }
}

/// What `inst` does in state `n`, whose instruction pointer already points
/// past it.
pub open spec fn inst_spec(n: VmState, inst: Inst, protocols: Seq<ProtocolFn>) -> Result<
    (VmState, Option<Halt>),
    VmError,
> {
match inst {
        Inst::Allocate { size } => Ok((VmState { stack: n.stack + Seq::new(size as nat, |i: int| Value::Unit), ..n }, Option::None)),
        Inst::Store { value, out } => store_continue(n, out, inline_value(value)),
        Inst::Copy { addr, out } => match read_spec(n, addr) {
            Ok(v) => store_continue(n, out, v),
            Err(e) => Err(e),
        },
        Inst::Move { addr, out } => match read_spec(n, addr) {
            Ok(v) => store_continue(
                VmState { stack: n.stack.update(n.top + addr, Value::Unit), ..n },
                out,
                v,
            ),
            Err(e) => Err(e),
        },
        Inst::Op { op, a, b, out } => match (read_spec(n, a), read_spec(n, b)) {
            (Ok(x), Ok(y)) => dispatch_spec(n, protocols, op, x, y, out),
            (Err(e), _) => Err(e),
            (_, Err(e)) => Err(e),
        },
        Inst::Jump { jump } => Ok((VmState { ip: jump, ..n }, Option::None)),
        Inst::JumpIf { cond, jump } => match read_spec(n, cond) {
            Ok(Value::Bool(c)) => Ok((if c { VmState { ip: jump, ..n } } else { n }, Option::None)),
            Ok(v) => Err(VmError::ExpectedBool { actual: kind_of(v) }),
            Err(e) => Err(e),
        },
        Inst::JumpIfNot { cond, jump } => match read_spec(n, cond) {
            Ok(Value::Bool(c)) => Ok((if !c { VmState { ip: jump, ..n } } else { n }, Option::None)),
            Ok(v) => Err(VmError::ExpectedBool { actual: kind_of(v) }),
            Err(e) => Err(e),
        },
        Inst::Call { offset, addr, args, out } => if n.top + addr + args <= n.stack.len() {
            Ok(
                (
                    call_spec(
                        n,
                        offset,
                        n.stack.subrange(n.top + addr, n.top + addr + args),
                        Isolated::NotIsolated,
                        out,
                    ),
                    Option::None,
                ),
            )
        } else {
            Err(VmError::StackOutOfBounds { addr })
        },
        Inst::Wrap { wrap, addr, out } => match read_spec(n, addr) {
            Ok(v) => store_continue(n, out, wrapped(wrap, v)),
            Err(e) => Err(e),
        },
        Inst::TupleIndexGet { addr, index, out } => match read_spec(n, addr) {
            Ok(v) => match tuple_index_spec(v, index) {
                Ok(Some(x)) => store_continue(n, out, x),
                Ok(Option::None) => Err(VmError::UnsupportedTupleIndexGet { actual: kind_of(v) }),
                Err(e) => Err(e),
            },
            Err(e) => Err(e),
        },
        Inst::Try { addr, out } => match read_spec(n, addr) {
            Ok(v) => try_spec(n, v, out),
            Err(e) => Err(e),
        },
        Inst::Return { addr } => match read_spec(n, addr) {
            Ok(v) => return_spec(n, v),
            Err(e) => Err(e),
        },
        Inst::ReturnUnit => return_spec(n, Value::Unit),
        Inst::Yield { addr, out } => if n.top + addr < n.stack.len() {
            Ok((n, Some(Halt::Yielded { value: Output::Keep(addr), resume: out })))
        } else {
            Err(VmError::StackOutOfBounds { addr })
        },
        Inst::Panic { reason } => Err(VmError::Panic { reason }),
    }
}

/// Field `index` of a tuple-like value: the payload of `Ok`, `Err` or
/// `Some` at index 0; `None` where the value is no tuple, for the caller to
/// try the value's protocol.
pub open spec fn tuple_index_spec(target: Value, index: usize) -> Result<Option<Value>, VmError> {
    let missing = Err(VmError::MissingIndexInteger { target: kind_of(target), index });
    match target {
        Value::Unit => missing,
        Value::Result(Ok(v)) => if index == 0 { Ok(Some(*v)) } else { missing },
        Value::Result(Err(v)) => if index == 0 { Ok(Some(*v)) } else { missing },
        Value::Option(Some(v)) => if index == 0 { Ok(Some(*v)) } else { missing },
        Value::Option(Option::None) => missing,
        _ => Ok(Option::None),
    }
}

/// `v` wrapped by `w`.
pub open spec fn wrapped(w: Wrap, v: Value) -> Value {
    match w {
        Wrap::ResultOk => Value::Result(Ok(Box::new(v))),
        Wrap::ResultErr => Value::Result(Err(Box::new(v))),
        Wrap::OptionSome => Value::Option(Some(Box::new(v))),
    }
}

/// `Try`: an `Ok` or `Some` value is unwrapped into `out`; an `Err` or
/// `None` is returned from the current frame as it is.
pub open spec fn try_spec(s: VmState, v: Value, out: Output) -> Result<(VmState, Option<Halt>), VmError> {
    match v {
        Value::Result(Ok(x)) => store_continue(s, out, *x),
        Value::Result(Err(_)) => return_spec(s, v),
        Value::Option(Some(x)) => store_continue(s, out, *x),
        Value::Option(Option::None) => return_spec(s, v),
        _ => Err(VmError::UnsupportedTryOperand { actual: kind_of(v) }),
    }
}

/// Running with `fuel` steps left: the final state and how it stopped.
pub open spec fn run_spec(s: VmState, code: Seq<Inst>, protocols: Seq<ProtocolFn>, fuel: nat) -> (
    VmState,
    Result<Halt, VmError>,
)
    decreases fuel,
{
    if fuel == 0 {
        (s, Ok(Halt::Limited))
    } else {
        match step_spec(s, code, protocols) {
            Err(e) => (s, Err(e)),
            Ok((q, Some(h))) => (q, Ok(h)),
            Ok((q, Option::None)) => run_spec(q, code, protocols, (fuel - 1) as nat),
        }
    }
}

/// A call keeps the frame bases ordered.
#[verifier::rlimit(30)]
pub proof fn lemma_call_wf(s: VmState, target: usize, args: Seq<Value>, isolated: Isolated, out: Output)
    requires
        state_wf(s),
        s.stack.len() <= usize::MAX,
    ensures
        state_wf(call_spec(s, target, args, isolated, out)),
{
    let c = call_spec(s, target, args, isolated, out);
    let n = s.frames.len() as int;
    assert(c.frames.len() == n + 1);
    assert(c.frames[n].top == s.top);
    assert forall|i: int| 0 <= i < c.frames.len() implies (#[trigger] c.frames[i]).top <= (if i + 1
        < c.frames.len() {
        c.frames[i + 1].top as int
    } else {
        c.top as int
    }) by {
        if i < n - 1 {
            assert(c.frames[i] == s.frames[i]);
            assert(c.frames[i + 1] == s.frames[i + 1]);
        } else if i == n - 1 {
            assert(c.frames[i] == s.frames[i]);
        }
    }
}

/// Popping a frame keeps the frame bases ordered.
#[verifier::rlimit(50)]
pub proof fn lemma_pop_wf(s: VmState)
    requires
        state_wf(s),
    ensures
        state_wf(pop_frame_spec(s).0),
        pop_frame_spec(s).0.stack.len() == s.top,
{
    let p = pop_frame_spec(s).0;
    if s.frames.len() > 0 {
        let n = s.frames.len() as int;
        assert(p.frames.len() == n - 1);
        assert(p.top == s.frames[n - 1].top);
        assert forall|i: int| 0 <= i < p.frames.len() implies (#[trigger] p.frames[i]).top <= (if i + 1
            < p.frames.len() {
            p.frames[i + 1].top as int
        } else {
            p.top as int
        }) by {
            assert(p.frames[i] == s.frames[i]);
            assert(s.frames[i].top <= s.frames[i + 1].top);
            if i + 1 < n - 1 {
                assert(p.frames[i + 1] == s.frames[i + 1]);
            }
        }
    }
}

impl View for Vm {
    type V = VmState;

    closed spec fn view(&self) -> VmState {
        VmState { ip: self.ip, stack: self.stack@, top: self.top, frames: self.frames@ }
    }
}

/// The handler of `op` for host type `type_hash`, if the unit has one.
pub fn lookup_protocol_fn(protocols: &Vec<ProtocolFn>, type_hash: u64, op: BinOp) -> (r: Option<usize>)
    ensures
        r == lookup_protocol(protocols@, type_hash, op),
{
    let mut i: usize = 0;
    while i < protocols.len()
        invariant
            i <= protocols@.len(),
            lookup_protocol(protocols@, type_hash, op) == lookup_protocol_from(protocols@, i as int, type_hash, op),
        decreases protocols.len() - i,
    {
        let p = protocols[i];
        if p.type_hash == type_hash && p.op == op {
            return Some(p.offset);
        }
        i += 1;
    }
    None
}

/// `c` as a value.
pub fn inline_to_value(c: Inline) -> (r: Value)
    ensures
        r == inline_value(c),
{
    match c {
        Inline::Unit => Value::Unit,
        Inline::Bool(b) => Value::Bool(b),
        Inline::Char(c) => Value::Char(c),
        Inline::Integer(n) => Value::Integer(n),
        Inline::Unsigned(n) => Value::Unsigned(n),
        Inline::Byte(n) => Value::Byte(n),
        Inline::Nothing => Value::Option(None),
    }
}

/// Field `index` of a tuple-like value.
pub fn tuple_index_get(target: &Value, index: usize) -> (r: Result<Option<Value>, VmError>)
    ensures
        r == tuple_index_spec(*target, index),
{
    match target {
        Value::Unit => Err(VmError::MissingIndexInteger { target: TypeKind::Unit, index }),
        Value::Result(Ok(v)) | Value::Result(Err(v)) | Value::Option(Some(v)) => {
            if index == 0 {
                Ok(Some(clone_value(v)))
            } else {
                Err(VmError::MissingIndexInteger { target: type_kind(target), index })
            }
        },
        Value::Option(None) => Err(VmError::MissingIndexInteger { target: TypeKind::Option, index }),
        _ => Ok(None),
    }
}

/// `v` wrapped by `w`.
pub fn wrap_value(w: Wrap, v: Value) -> (r: Value)
    ensures
        r == wrapped(w, v),
{
    match w {
        Wrap::ResultOk => Value::Result(Ok(Box::new(v))),
        Wrap::ResultErr => Value::Result(Err(Box::new(v))),
        Wrap::OptionSome => Value::Option(Some(Box::new(v))),
    }
}

impl Vm {
    /// A machine with an empty stack, about to run the instruction at `ip`.
    pub fn new(ip: usize) -> (r: Self)
        ensures
            r@ == (VmState { ip, stack: Seq::empty(), top: 0, frames: Seq::empty() }),
            state_wf(r@),
    {
        Vm { ip, stack: Vec::new(), top: 0, frames: Vec::new() }
    }

    /// The instruction pointer.
    pub fn ip(&self) -> (r: usize)
        ensures
            r == self@.ip,
    {
        self.ip
    }

    /// The number of values on the stack.
    pub fn stack_len(&self) -> (r: usize)
        ensures
            r == self@.stack.len(),
    {
        self.stack.len()
    }

    /// The base of the current frame.
    pub fn top(&self) -> (r: usize)
        ensures
            r == self@.top,
    {
        self.top
    }

    /// The number of saved call frames.
    pub fn call_frames(&self) -> (r: usize)
        ensures
            r == self@.frames.len(),
    {
        self.frames.len()
    }

    /// Pushes `v` on the stack, outside any addressing.
    pub fn push(&mut self, v: Value)
        requires
            state_wf(old(self)@),
        ensures
            state_wf(final(self)@),
            final(self)@ == (VmState { stack: old(self)@.stack.push(v), ..old(self)@ }),
    {
        self.stack.push(v);
    }

    /// Grows the stack by `size` unit values.
    pub fn allocate(&mut self, size: usize)
        requires
            state_wf(old(self)@),
        ensures
            state_wf(final(self)@),
            final(self)@ == (VmState { stack: old(self)@.stack + Seq::new(size as nat, |i: int| Value::Unit), ..old(self)@ }),
    {
        let ghost s = self.stack@;
        let mut i: usize = 0;
        while i < size
            invariant
                i <= size,
                self.ip == old(self)@.ip,
                self.top == old(self)@.top,
                self.frames@ == old(self)@.frames,
                self.stack@ == s + Seq::new(i as nat, |j: int| Value::Unit),
            decreases size - i,
        {
            self.stack.push(Value::Unit);
            proof {
                assert(s + Seq::new((i + 1) as nat, |j: int| Value::Unit) =~= (s + Seq::new(i as nat, |j: int| Value::Unit)).push(Value::Unit));
            }
            i += 1;
        }
        proof {
            let q = VmState { stack: old(self)@.stack + Seq::new(size as nat, |i: int| Value::Unit), ..old(self)@ };
            assert(self.stack@ =~= q.stack);
            assert(self@ == q);
        }
    }

    /// A copy of the value at `addr` of the current frame.
    pub fn read(&self, addr: usize) -> (r: Result<Value, VmError>)
        ensures
            r == read_spec(self@, addr),
    {
        if addr < self.stack.len() && self.top < self.stack.len() - addr {
            Ok(clone_value(&self.stack[self.top + addr]))
        } else {
            Err(VmError::StackOutOfBounds { addr })
        }
    }

    /// The value an execution ended with, at `out`.
    pub fn value_at(&self, out: Output) -> (r: Result<Value, VmError>)
        ensures
            out matches Output::Keep(addr) ==> r == read_spec(self@, addr),
            out == Output::Discard ==> r == Ok::<Value, VmError>(Value::Unit),
    {
        match out {
            Output::Keep(addr) => self.read(addr),
            Output::Discard => Ok(Value::Unit),
        }
    }

    /// Writes `v` to `out`.
    pub fn store(&mut self, out: Output, v: Value) -> (r: Result<(), VmError>)
        requires
            state_wf(old(self)@),
        ensures
            state_wf(final(self)@),
            store_spec(old(self)@, out, v) matches Ok(q) ==> r is Ok && final(self)@ == q,
            store_spec(old(self)@, out, v) matches Err(e) ==> r == Err::<(), VmError>(e) && final(self)@ == old(self)@,
    {
        match out {
            Output::Discard => Ok(()),
            Output::Keep(addr) => {
                if addr < self.stack.len() && self.top < self.stack.len() - addr {
                    let i = self.top + addr;
                    self.stack.set(i, v);
                    Ok(())
                } else {
                    Err(VmError::StackOutOfBounds { addr })
                }
            },
        }
    }

    /// Enters a function at `target`: `args` are pushed and start the new
    /// frame; the caller's position is saved.
    pub fn push_call_frame(&mut self, target: usize, args: Vec<Value>, isolated: Isolated, out: Output)
        requires
            state_wf(old(self)@),
        ensures
            state_wf(final(self)@),
            final(self)@ == call_spec(old(self)@, target, args@, isolated, out),
    {
        let frame = CallFrame { ip: self.ip, top: self.top, isolated, out };
        let ghost old_stack = self.stack@;
        let new_top = self.stack.len();
        let mut args = args;
        let ghost all = args@;
        let mut i: usize = 0;
        let mut rev: Vec<Value> = Vec::new();
        while args.len() > 0
            invariant
                args@.len() + rev@.len() == all.len(),
                args@ == all.subrange(0, args@.len() as int),
                forall|j: int| 0 <= j < rev@.len() ==> rev@[j] == all[all.len() - 1 - j],
            decreases args.len(),
        {
            let ghost n = args@.len();
            match args.pop() {
                Some(v) => rev.push(v),
                None => {},
            }
            proof {
                assert(args@ =~= all.subrange(0, n - 1));
            }
        }
        while rev.len() > 0
            invariant
                self.ip == old(self)@.ip,
                self.top == old(self)@.top,
                self.frames@ == old(self)@.frames,
                self.stack@.len() >= old_stack.len(),
                self.stack@.len() - old_stack.len() + rev@.len() == all.len(),
                self.stack@ == old_stack + all.subrange(0, self.stack@.len() - old_stack.len()),
                forall|j: int| 0 <= j < rev@.len() ==> rev@[j] == all[all.len() - 1 - j],
            decreases rev.len(),
        {
            let ghost k = self.stack@.len() - old_stack.len();
            match rev.pop() {
                Some(v) => {
                    self.stack.push(v);
                    proof {
                        assert(all.subrange(0, k + 1) =~= all.subrange(0, k).push(all[k]));
                    }
                },
                None => {},
            }
        }
        proof {
            assert(all.subrange(0, all.len() as int) =~= all);
        }
        self.frames.push(frame);
        self.top = new_top;
        self.ip = target;
        proof {
            let c = call_spec(old(self)@, target, all, isolated, out);
            assert(self.stack@ =~= c.stack);
            assert(self.frames@ =~= c.frames);
            assert(self@ == c);
            lemma_call_wf(old(self)@, target, all, isolated, out);
        }
    }

    /// Leaves the current frame: the stack is cut back to its base and the
    /// caller's position restored. Returns the frame's isolation and output
    /// destination; with no frame, the execution counts as isolated.
    pub fn pop_call_frame(&mut self) -> (r: (Isolated, Option<Output>))
        requires
            state_wf(old(self)@),
        ensures
            state_wf(final(self)@),
            (final(self)@, r.0, r.1) == pop_frame_spec(old(self)@),
            final(self)@.stack.len() == old(self)@.top,
    {
        let top = self.top;
        self.stack.truncate(top);
        let r = match self.frames.pop() {
            None => {
                self.top = 0;
                (Isolated::Isolated, None)
            },
            Some(frame) => {
                self.top = frame.top;
                self.ip = frame.ip;
                (frame.isolated, Some(frame.out))
            },
        };
        proof {
            let q = pop_frame_spec(old(self)@).0;
            assert(self.stack@ =~= q.stack);
            assert(self.frames@ =~= q.frames);
            assert(self@ == q);
            lemma_pop_wf(old(self)@);
        }
        r
    }

    /// Returns `v` from the current frame.
    #[verifier::rlimit(60)]
    pub fn op_return_internal(&mut self, v: Value) -> (r: Result<Option<Halt>, VmError>)
        requires
            state_wf(old(self)@),
        ensures
            transition(r, final(self)@, return_spec(old(self)@, v)),
    {
        let ghost s = self@;
        let ghost popped = pop_frame_spec(s);
        let (isolated, out) = self.pop_call_frame();
        proof {
            lemma_pop_wf(s);
            assert(self@ == popped.0 && isolated == popped.1 && out == popped.2);
        }
        let o = match out {
            Some(o) => {
                match self.store(o, v) {
                    Ok(()) => o,
                    Err(e) => {
                        return Err(e);
                    },
                }
            },
            None => {
                let addr = self.stack.len() - self.top;
                self.stack.push(v);
                proof {
                    let q = VmState { stack: popped.0.stack.push(v), ..popped.0 };
                    assert(self.stack@ =~= q.stack);
                    assert(self@ == q);
                }
                Output::Keep(addr)
            },
        };
        Ok(isolated.then_some(Halt::Exited(o)))
    }

    /// `Try` on `v`: unwraps `Ok` and `Some` into `out`, returns `Err` and
    /// `None` from the current frame.
    pub fn op_try(&mut self, v: Value, out: Output) -> (r: Result<Option<Halt>, VmError>)
        requires
            state_wf(old(self)@),
        ensures
            transition(r, final(self)@, try_spec(old(self)@, v, out)),
    {
        let ghost whole = v;
        match v {
            Value::Result(Ok(x)) => {
                match self.store(out, *x) {
                    Ok(()) => Ok(None),
                    Err(e) => Err(e),
                }
            },
            Value::Option(Some(x)) => {
                match self.store(out, *x) {
                    Ok(()) => Ok(None),
                    Err(e) => Err(e),
                }
            },
            Value::Result(Err(e)) => self.op_return_internal(Value::Result(Err(e))),
            Value::Option(None) => self.op_return_internal(Value::Option(None)),
            other => Err(VmError::UnsupportedTryOperand { actual: type_kind(&other) }),
        }
    }

    /// An operator on `a` and `b`: the built-in rule, else the left
    /// operand's protocol handler, else an error.
    pub fn dispatch(&mut self, protocols: &Vec<ProtocolFn>, op: BinOp, a: Value, b: Value, out: Output) -> (r:
        Result<Option<Halt>, VmError>)
        requires
            state_wf(old(self)@),
        ensures
            transition(r, final(self)@, dispatch_spec(old(self)@, protocols@, op, a, b, out)),
    {
        match inline_op(op, &a, &b) {
            Some(Ok(v)) => match self.store(out, v) {
                Ok(()) => Ok(None),
                Err(e) => Err(e),
            },
            Some(Err(e)) => Err(VmError::Value(e)),
            None => {
                let lhs = type_kind(&a);
                let rhs = type_kind(&b);
                match &a {
                    Value::Any(obj) => match lookup_protocol_fn(protocols, obj.type_hash, op) {
                        Some(offset) => {
                            let mut args: Vec<Value> = Vec::new();
                            args.push(a);
                            args.push(b);
                            proof {
                                assert(args@ =~= seq![a, b]);
                            }
                            self.push_call_frame(offset, args, Isolated::NotIsolated, out);
                            Ok(None)
                        },
                        None => Err(
                            VmError::Value(ValueError::UnsupportedBinaryOperation { op, lhs, rhs }),
                        ),
                    },
                    _ => Err(VmError::Value(ValueError::UnsupportedBinaryOperation { op, lhs, rhs })),
                }
            },
        }
    }

    /// Copies `count` values from `addr` of the current frame.
    fn copy_range(&self, addr: usize, count: usize) -> (r: Vec<Value>)
        requires
            self@.top + addr + count <= self@.stack.len(),
            self@.stack.len() <= usize::MAX,
        ensures
            r@ == self@.stack.subrange(self@.top + addr, self@.top + addr + count),
    {
        let start = self.top + addr;
        let mut v: Vec<Value> = Vec::new();
        let mut i: usize = 0;
        while i < count
            invariant
                start == self@.top + addr,
                start + count <= self@.stack.len(),
                self@.stack.len() <= usize::MAX,
                i <= count,
                v@ == self@.stack.subrange(start as int, start + i),
            decreases count - i,
        {
            let x = clone_value(&self.stack[start + i]);
            v.push(x);
            proof {
                assert(self@.stack.subrange(start as int, start + i + 1) =~= self@.stack.subrange(
                    start as int,
                    start + i,
                ).push(x));
            }
            i += 1;
        }
        v
    }

    /// Runs one instruction.
    pub fn step(&mut self, unit: &Unit) -> (r: Result<Option<Halt>, VmError>)
        requires
            state_wf(old(self)@),
        ensures
            transition(r, final(self)@, step_spec(old(self)@, unit.instructions@, unit.protocols@)),
    {
        if self.ip >= unit.instructions.len() {
            return Err(VmError::IpOutOfBounds { ip: self.ip });
        }
        let inst = unit.instructions[self.ip];
        self.ip = self.ip + 1;
        self.execute(inst, &unit.protocols)
    }

    /// Runs `inst`, the instruction pointer already past it.
    pub fn execute(&mut self, inst: Inst, protocols: &Vec<ProtocolFn>) -> (r: Result<Option<Halt>, VmError>)
        requires
            state_wf(old(self)@),
        ensures
            transition(r, final(self)@, inst_spec(old(self)@, inst, protocols@)),
    {
        match inst {
            Inst::Allocate { .. } | Inst::Store { .. } | Inst::Copy { .. } | Inst::Move { .. } | Inst::Op { .. }
            | Inst::Wrap { .. } | Inst::TupleIndexGet { .. } => self.execute_data(inst, protocols),
            _ => self.execute_control(inst, protocols),
        }
    }

    /// Runs `inst`, one of the data instructions.
    #[verifier::rlimit(80)]
    fn execute_data(&mut self, inst: Inst, protocols: &Vec<ProtocolFn>) -> (r: Result<Option<Halt>, VmError>)
        requires
            state_wf(old(self)@),
            inst is Allocate || inst is Store || inst is Copy || inst is Move || inst is Op || inst is Wrap || inst is TupleIndexGet,
        ensures
            transition(r, final(self)@, inst_spec(old(self)@, inst, protocols@)),
    {
        match inst {
            Inst::Allocate { size } => {
                self.allocate(size);
                Ok(None)
            },
            Inst::Store { value, out } => match self.store(out, inline_to_value(value)) {
                Ok(()) => Ok(None),
                Err(e) => Err(e),
            },
            Inst::Copy { addr, out } => match self.read(addr) {
                Ok(v) => match self.store(out, v) {
                    Ok(()) => Ok(None),
                    Err(e) => Err(e),
                },
                Err(e) => Err(e),
            },
            Inst::Move { addr, out } => match self.read(addr) {
                Ok(v) => {
                    let len = self.stack.len();
                    assert(self@.top + addr < len);
                    let i = self.top + addr;
                    self.stack.set(i, Value::Unit);
                    match self.store(out, v) {
                        Ok(()) => Ok(None),
                        Err(e) => Err(e),
                    }
                },
                Err(e) => Err(e),
            },
            Inst::Op { op, a, b, out } => match self.read(a) {
                Ok(x) => match self.read(b) {
                    Ok(y) => self.dispatch(protocols, op, x, y, out),
                    Err(e) => Err(e),
                },
                Err(e) => Err(e),
            },
            Inst::Wrap { wrap, addr, out } => match self.read(addr) {
                Ok(v) => match self.store(out, wrap_value(wrap, v)) {
                    Ok(()) => Ok(None),
                    Err(e) => Err(e),
                },
                Err(e) => Err(e),
            },
            Inst::TupleIndexGet { addr, index, out } => match self.read(addr) {
                Ok(v) => match tuple_index_get(&v, index) {
                    Ok(Some(x)) => match self.store(out, x) {
                        Ok(()) => Ok(None),
                        Err(e) => Err(e),
                    },
                    Ok(None) => Err(VmError::UnsupportedTupleIndexGet { actual: type_kind(&v) }),
                    Err(e) => Err(e),
                },
                Err(e) => Err(e),
            },
            _ => Err(VmError::Panic { reason: 0 }),
        }
    }

    /// Runs `inst`, one of the control instructions.
    #[verifier::rlimit(80)]
    fn execute_control(&mut self, inst: Inst, protocols: &Vec<ProtocolFn>) -> (r: Result<Option<Halt>, VmError>)
        requires
            state_wf(old(self)@),
            inst is Jump || inst is JumpIf || inst is JumpIfNot || inst is Call || inst is Try || inst is Return || inst is ReturnUnit || inst is Yield || inst is Panic,
        ensures
            transition(r, final(self)@, inst_spec(old(self)@, inst, protocols@)),
    {
        match inst {
            Inst::Jump { jump } => {
                self.ip = jump;
                Ok(None)
            },
            Inst::JumpIf { cond, jump } => match self.read(cond) {
                Ok(Value::Bool(c)) => {
                    if c {
                        self.ip = jump;
                    }
                    Ok(None)
                },
                Ok(v) => Err(VmError::ExpectedBool { actual: type_kind(&v) }),
                Err(e) => Err(e),
            },
            Inst::JumpIfNot { cond, jump } => match self.read(cond) {
                Ok(Value::Bool(c)) => {
                    if !c {
                        self.ip = jump;
                    }
                    Ok(None)
                },
                Ok(v) => Err(VmError::ExpectedBool { actual: type_kind(&v) }),
                Err(e) => Err(e),
            },
            Inst::Call { offset, addr, args, out } => {
                let len = self.stack.len();
                if addr <= len - self.top && args <= len - self.top - addr {
                    let values = self.copy_range(addr, args);
                    self.push_call_frame(offset, values, Isolated::NotIsolated, out);
                    Ok(None)
                } else {
                    Err(VmError::StackOutOfBounds { addr })
                }
            },
            Inst::Try { addr, out } => match self.read(addr) {
                Ok(v) => self.op_try(v, out),
                Err(e) => Err(e),
            },
            Inst::Return { addr } => match self.read(addr) {
                Ok(v) => self.op_return_internal(v),
                Err(e) => Err(e),
            },
            Inst::ReturnUnit => self.op_return_internal(Value::Unit),
            Inst::Yield { addr, out } => {
                if addr < self.stack.len() && self.top < self.stack.len() - addr {
                    Ok(Some(Halt::Yielded { value: Output::Keep(addr), resume: out }))
                } else {
                    Err(VmError::StackOutOfBounds { addr })
                }
            },
            Inst::Panic { reason } => Err(VmError::Panic { reason }),

            _ => Err(VmError::Panic { reason: 0 }),
        }
    }

    /// Calls the function at `offset` from the host with `args`: a slot for
    /// its result is reserved in the current frame, the arguments start an
    /// isolated frame whose return lands in that slot, and the machine runs
    /// under `budget`.
    pub fn call(&mut self, unit: &Unit, offset: usize, args: Vec<Value>, budget: &mut BudgetGuard) -> (r: Result<Halt, VmError>)
        requires
            state_wf(old(self)@),
        ensures
            r == run_spec(entry_spec(old(self)@, offset, args@), unit.instructions@, unit.protocols@, old(budget).remaining() as nat).1,
            r is Ok ==> final(self)@ == run_spec(entry_spec(old(self)@, offset, args@), unit.instructions@, unit.protocols@, old(budget).remaining() as nat).0,
    {
        let addr = self.stack.len() - self.top;
        self.push(Value::Unit);
        self.push_call_frame(offset, args, Isolated::Isolated, Output::Keep(addr));
        self.run(unit, budget)
    }

    /// Runs until an isolated frame returns, an error, or the budget runs
    /// out; each instruction draws one unit of `budget`. A run that stops
    /// for the budget can be resumed by running again. An unlimited budget
    /// runs at most `usize::MAX` instructions.
    #[verifier::rlimit(100)]
    pub fn run(&mut self, unit: &Unit, budget: &mut BudgetGuard) -> (r: Result<Halt, VmError>)
        requires
            state_wf(old(self)@),
        ensures
            r == run_spec(old(self)@, unit.instructions@, unit.protocols@, old(budget).remaining() as nat).1,
            r is Ok ==> final(self)@ == run_spec(old(self)@, unit.instructions@, unit.protocols@, old(budget).remaining() as nat).0,
            r is Ok ==> state_wf(final(self)@),
            old(budget).is_unlimited() ==> final(budget).is_unlimited(),
            !old(budget).is_unlimited() && r == Ok::<Halt, VmError>(Halt::Limited) ==> final(budget).remaining() == 0,
            !old(budget).is_unlimited() ==> final(budget).remaining() == old(budget).remaining() - run_drawn(
                old(self)@,
                unit.instructions@,
                unit.protocols@,
                old(budget).remaining() as nat,
            ),
    {
        let ghost code = unit.instructions@;
        let ghost protos = unit.protocols@;
        let ghost total = run_spec(self@, code, protos, budget.remaining() as nat);
        let ghost drawn = run_drawn(self@, code, protos, budget.remaining() as nat);
        let unlimited = budget.get() == UNLIMITED;
        let mut fuel: usize = budget.get();
        loop
            invariant
                state_wf(self@),
                code == unit.instructions@,
                protos == unit.protocols@,
                total == run_spec(self@, code, protos, fuel as nat),
                total == run_spec(old(self)@, unit.instructions@, unit.protocols@, old(budget).remaining() as nat),
                unlimited ==> budget.is_unlimited(),
                !unlimited ==> budget.remaining() == fuel && fuel < UNLIMITED,
                unlimited == old(budget).is_unlimited(),
                fuel <= old(budget).remaining(),
                drawn == run_drawn(old(self)@, unit.instructions@, unit.protocols@, old(budget).remaining() as nat),
                drawn == (old(budget).remaining() - fuel) + run_drawn(self@, code, protos, fuel as nat),
            decreases fuel,
        {
            if fuel == 0 {
                assert(run_spec(self@, code, protos, 0) == (self@, Ok::<Halt, VmError>(Halt::Limited)));
                return Ok(Halt::Limited);
            }
            let ghost b = budget.remaining();
            let _ = budget.take();
            proof {
                if !unlimited {
                    assert(b == fuel && b != UNLIMITED && b != 0);
                    assert(after_take(b) == b - 1);
                }
            }
            let ghost before = self@;
            let ghost left = fuel as nat;
            fuel = fuel - 1;
            let stepped = self.step(unit);
            match stepped {
                Err(e) => {
                    proof {
                        lemma_run_step(before, code, protos, left);
                        lemma_drawn_step(before, code, protos, left);
                    }
                    return Err(e);
                },
                Ok(Some(h)) => {
                    proof {
                        lemma_run_step(before, code, protos, left);
                        lemma_drawn_step(before, code, protos, left);
                    }
                    return Ok(h);
                },
                Ok(None) => {
                    proof {
                        lemma_run_step(before, code, protos, left);
                        lemma_drawn_step(before, code, protos, left);
                    }
                },
            }
        }
    }
}

/// The state after a host call of the function at `offset` with `args`.
pub open spec fn entry_spec(s: VmState, offset: usize, args: Seq<Value>) -> VmState {
    call_spec(
        VmState { stack: s.stack.push(Value::Unit), ..s },
        offset,
        args,
        Isolated::Isolated,
        Output::Keep((s.stack.len() - s.top) as usize),
    )
}

/// The budget units a run with `fuel` units draws: one per instruction
/// attempted, the failing or ending one included.
pub open spec fn run_drawn(s: VmState, code: Seq<Inst>, protocols: Seq<ProtocolFn>, fuel: nat) -> nat
    decreases fuel,
{
    if fuel == 0 {
        0
    } else {
        match step_spec(s, code, protocols) {
            Ok((q, Option::None)) => 1 + run_drawn(q, code, protocols, (fuel - 1) as nat),
            _ => 1,
        }
    }
}

/// Running with fuel left draws one unit for the step, then what the rest
/// draws.
pub proof fn lemma_drawn_step(s: VmState, code: Seq<Inst>, protocols: Seq<ProtocolFn>, fuel: nat)
    requires
        fuel > 0,
    ensures
        run_drawn(s, code, protocols, fuel) == match step_spec(s, code, protocols) {
            Ok((q, Option::None)) => 1 + run_drawn(q, code, protocols, (fuel - 1) as nat),
            _ => 1,
        },
        run_drawn(s, code, protocols, fuel) <= fuel,
    decreases fuel,
{
    match step_spec(s, code, protocols) {
        Ok((q, Option::None)) => {
            if fuel > 1 {
                lemma_drawn_step(q, code, protocols, (fuel - 1) as nat);
            }
        },
        _ => {},
    }
}

/// Running with fuel left takes one step, then goes on with one unit less.
pub proof fn lemma_run_step(s: VmState, code: Seq<Inst>, protocols: Seq<ProtocolFn>, fuel: nat)
    requires
        fuel > 0,
    ensures
        run_spec(s, code, protocols, fuel) == match step_spec(s, code, protocols) {
            Err(e) => (s, Err(e)),
            Ok((q, Some(h))) => (q, Ok(h)),
            Ok((q, Option::None)) => run_spec(q, code, protocols, (fuel - 1) as nat),
        },
{
}

/// `r` and the state `after` are what `expected` describes; on success the
/// state stays well formed.
pub open spec fn transition(
    r: Result<Option<Halt>, VmError>,
    after: VmState,
    expected: Result<(VmState, Option<Halt>), VmError>,
) -> bool {
    match expected {
        Ok((q, o)) => r == Ok::<Option<Halt>, VmError>(o) && after == q && state_wf(q),
        Err(e) => r == Err::<Option<Halt>, VmError>(e),
    }
}


/// A run that stops for the budget resumes where it stopped: running with
/// `a + b` units is running with `a`, then with `b` from the state reached.
pub proof fn lemma_run_resume(s: VmState, code: Seq<Inst>, protocols: Seq<ProtocolFn>, a: nat, b: nat)
    requires
        run_spec(s, code, protocols, a).1 == Ok::<Halt, VmError>(Halt::Limited),
    ensures
        run_spec(s, code, protocols, a + b) == run_spec(run_spec(s, code, protocols, a).0, code, protocols, b),
    decreases a,
{
    if a > 0 {
        lemma_run_step(s, code, protocols, a);
        lemma_run_step(s, code, protocols, a + b);
        match step_spec(s, code, protocols) {
            Ok((q, Option::None)) => {
                lemma_run_resume(q, code, protocols, (a - 1) as nat, b);
                assert((a - 1) as nat + b == (a + b - 1) as nat);
            },
            _ => {},
        }
    }
}

/// A run that ends (it exits or fails) within `n` units ends the same way
/// with any larger budget.
pub proof fn lemma_run_more_fuel(s: VmState, code: Seq<Inst>, protocols: Seq<ProtocolFn>, n: nat, m: nat)
    requires
        run_spec(s, code, protocols, n).1 != Ok::<Halt, VmError>(Halt::Limited),
        n <= m,
    ensures
        run_spec(s, code, protocols, m) == run_spec(s, code, protocols, n),
    decreases n,
{
    if n > 0 {
        lemma_run_step(s, code, protocols, n);
        lemma_run_step(s, code, protocols, m);
        match step_spec(s, code, protocols) {
            Ok((q, Option::None)) => {
                lemma_run_more_fuel(q, code, protocols, (n - 1) as nat, (m - 1) as nat);
            },
            _ => {},
        }
    }
}

/// A program that exits after exactly `n` instructions completes with a
/// budget of `n`; with `n - 1` it stops for the budget, and one more unit
/// from there completes it the same way.
pub proof fn lemma_budget_exact(s: VmState, code: Seq<Inst>, protocols: Seq<ProtocolFn>, n: nat)
    requires
        n > 0,
        run_spec(s, code, protocols, (n - 1) as nat).1 == Ok::<Halt, VmError>(Halt::Limited),
    ensures
        run_spec(run_spec(s, code, protocols, (n - 1) as nat).0, code, protocols, 1) == run_spec(
            s,
            code,
            protocols,
            n,
        ),
{
    lemma_run_resume(s, code, protocols, (n - 1) as nat, 1);
}

/// A return from a called frame cuts the stack back to that frame's base,
/// restores the caller's base and instruction pointer, and ends the
/// execution exactly when the frame was isolated, naming where the value
/// went.
pub proof fn lemma_return_restores_frame(s: VmState, v: Value)
    requires
        state_wf(s),
        s.frames.len() > 0,
        return_spec(s, v) is Ok,
    ensures
        ({
            let (q, exit) = return_spec(s, v)->Ok_0;
            let f = s.frames.last();
            &&& q.stack.len() == s.top
            &&& q.top == f.top
            &&& q.ip == f.ip
            &&& q.frames == s.frames.drop_last()
            &&& (exit is Some <==> f.isolated == Isolated::Isolated)
            &&& (exit matches Some(h) ==> h == Halt::Exited(f.out))
        }),
{
    lemma_pop_wf(s);
}

/// With no frame left, a return is isolated: it ends the execution, and the
/// value is pushed on the cut-back stack where the exit output names it.
pub proof fn lemma_return_without_frame(s: VmState, v: Value)
    requires
        state_wf(s),
        s.frames.len() == 0,
    ensures
        return_spec(s, v) matches Ok((q, Some(Halt::Exited(Output::Keep(addr))))) && q.stack.len() == s.top + 1
            && q.top == 0 && addr == s.top && q.stack[addr as int] == v,
{
}

/// `Try` on `Ok(x)` or `Some(x)` writes `x` and goes on; on `Err(e)` or
/// `None` it is a return of that same value from the current frame.
pub proof fn lemma_try(s: VmState, v: Value, out: Output)
    ensures
        v matches Value::Result(Ok(x)) ==> try_spec(s, v, out) == store_continue(s, out, *x),
        v matches Value::Option(Some(x)) ==> try_spec(s, v, out) == store_continue(s, out, *x),
        v matches Value::Result(Err(_)) ==> try_spec(s, v, out) == return_spec(s, v),
        v == Value::Option(Option::None) ==> try_spec(s, v, out) == return_spec(s, v),
{
}

/// Operators on inline values follow the built-in rule whatever protocol
/// handlers the unit registers; host objects go to their handler.
pub proof fn lemma_inline_ignores_protocols(
    s: VmState,
    p1: Seq<ProtocolFn>,
    p2: Seq<ProtocolFn>,
    op: BinOp,
    a: Value,
    b: Value,
    out: Output,
)
    requires
        inline_op_spec(op, a, b) is Some,
    ensures
        dispatch_spec(s, p1, op, a, b, out) == dispatch_spec(s, p2, op, a, b, out),
{
}


/// `Yield` suspends without changing anything but the instruction pointer:
/// the run stops naming the yielded value and where the value sent back on
/// resumption goes.
pub proof fn lemma_yield_suspends(s: VmState, code: Seq<Inst>, protocols: Seq<ProtocolFn>, addr: usize, out: Output)
    requires
        s.ip < code.len(),
        code[s.ip as int] == (Inst::Yield { addr, out }),
        s.top + addr < s.stack.len(),
    ensures
        step_spec(s, code, protocols) == Ok::<(VmState, Option<Halt>), VmError>(
            (VmState { ip: (s.ip + 1) as usize, ..s }, Some(Halt::Yielded { value: Output::Keep(addr), resume: out })),
        ),
{
}

} // verus!
