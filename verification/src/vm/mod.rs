//! The bytecode side of the interpreter: instructions and chunks of them.

pub mod chunk;
pub mod op;

use crate::vm::chunk::{spec_read_at, Chunk};
use crate::vm::op::Op;
use vstd::prelude::*;

verus! {

/// How a run of the virtual machine ended.
#[derive(Debug, Clone, Copy, PartialEq, Eq, Structural)]
pub enum InterpretResult {
    Success,
    CompileError,
    RuntimeError,
}

/// What the machine leaves to whoever runs it after one instruction.
#[derive(Debug)]
pub enum Step<V> {
    /// Go on with the next instruction.
    Continue,
    /// Push the result of the arithmetic `op` on `left` and `right`.
    Arithmetic { op: Op, left: V, right: V },
    /// Push `value` with its sign flipped.
    Negate(V),
    /// The chunk returned; here is the value it left on top of the stack,
    /// if any.
    Return(Option<V>),
    /// The instruction could not run: its bytes are no op, or the stack
    /// holds too few values.
    Error,
}

/// A stack machine that runs chunks of bytecode. The arithmetic itself is
/// left to its caller (see `Step`).
#[derive(Debug)]
pub struct VM<V> {
    /// Offset of the next instruction in the code.
    pub ip: usize,
    pub stack: Vec<V>,
}

/// The instruction at `ip` can run without panicking: it lies inside the
/// code, and a constant it loads exists.
pub open spec fn step_runs<V>(code: Seq<u8>, constants: Seq<V>, ip: int) -> bool {
    &&& 0 <= ip < code.len()
    &&& spec_read_at(code, ip) matches Ok((Op::Constant(p), _)) ==> p < constants.len()
}

/// Running the instruction at `ip` with `stack`: the next `ip`, the stack
/// after it, and what is left to the caller.
pub open spec fn spec_step<V>(code: Seq<u8>, constants: Seq<V>, ip: int, stack: Seq<V>) -> (int, Seq<V>, Step<V>) {
    match spec_read_at(code, ip) {
        Err(()) => (ip, stack, Step::Error),
        Ok((op, n)) => {
            let next = ip + n;
            match op {
                Op::Return => if stack.len() > 0 {
                    (next, stack.drop_last(), Step::Return(Some(stack.last())))
                } else {
                    (next, stack, Step::Return(None))
                },
                Op::Constant(p) => (next, stack.push(constants[p as int]), Step::Continue),
                Op::Negate => if stack.len() > 0 {
                    (next, stack.drop_last(), Step::Negate(stack.last()))
                } else {
                    (next, stack, Step::Error)
                },
                _ => if stack.len() >= 2 {
                    (
                        next,
                        stack.subrange(0, stack.len() - 2),
                        Step::Arithmetic { op, left: stack[stack.len() - 2], right: stack.last() },
                    )
                } else {
                    (next, Seq::empty(), Step::Error)
                },
            }
        },
    }
}

impl<V: Copy> VM<V> {
    pub fn new() -> (r: Self)
        ensures
            r.ip == 0,
            r.stack@.len() == 0,
    {
        Self { ip: 0, stack: Vec::new() }
    }

    /// Pushes a value computed by the caller.
    pub fn push(&mut self, value: V)
        ensures
            final(self).ip == old(self).ip,
            final(self).stack@ == old(self).stack@.push(value),
    {
        self.stack.push(value);
    }

    /// Runs the instruction at `ip`.
    pub fn step(&mut self, chunk: &Chunk<V>) -> (r: Step<V>)
        requires
            step_runs(chunk.code@, chunk.constants@, old(self).ip as int),
        ensures
            (final(self).ip as int, final(self).stack@, r) == spec_step(
                chunk.code@,
                chunk.constants@,
                old(self).ip as int,
                old(self).stack@,
            ),
    {
        let (op, read) = match chunk.read(self.ip) {
            Ok(x) => x,
            Err(_) => return Step::Error,
        };
        let len = chunk.code.len();
        assert(read <= len - self.ip);
        self.ip = self.ip + read;
        match op {
            Op::Return => Step::Return(self.stack.pop()),
            Op::Constant(ptr) => {
                let val = chunk.constants[ptr as usize];
                self.stack.push(val);
                Step::Continue
            },
            Op::Negate => match self.stack.pop() {
                Some(v) => Step::Negate(v),
                None => Step::Error,
            },
            _ => {
                let b = self.stack.pop();
                let a = self.stack.pop();
                match (a, b) {
                    (Some(left), Some(right)) => Step::Arithmetic { op, left, right },
                    _ => {
                        assert(self.stack@ =~= Seq::<V>::empty());
                        Step::Error
                    },
                }
            },
        }
    }
}

/// `op` is one of the four arithmetic instructions.
pub open spec fn is_arithmetic(op: Op) -> bool {
    op is Add || op is Subtract || op is Multiply || op is Divide
}

/// An arithmetic instruction takes its two operands off the top of the
/// stack in the order they were pushed, whichever instruction it is: the
/// value pushed first is the left operand, the value pushed last the right
/// one, and the rest of the stack is left as it was below them.
pub proof fn law_arithmetic_takes_operands_in_push_order<V>(
    code: Seq<u8>,
    constants: Seq<V>,
    ip: int,
    below: Seq<V>,
    first: V,
    last: V,
)
    requires
        spec_read_at(code, ip) matches Ok((op, _)) && is_arithmetic(op),
    ensures
        ({
            let (next, rest, step) = spec_step(code, constants, ip, below.push(first).push(last));
            &&& rest == below
            &&& step matches Step::Arithmetic { op, left, right } && left == first && right == last
                && Ok::<(Op, usize), ()>((op, (next - ip) as usize)) == spec_read_at(code, ip)
        }),
{
    let s = below.push(first).push(last);
    assert(s.subrange(0, s.len() - 2) =~= below);
    assert(s[s.len() - 2] == first);
}

/// The other instructions: loading constant `p` pushes that constant and
/// goes on; negating takes the top value off the stack and hands it over
/// to be negated; returning takes the top value off the stack and hands it
/// over, or nothing when the stack is empty. Each moves on past the bytes
/// of its instruction.
pub proof fn law_loads_negations_and_returns<V>(
    code: Seq<u8>,
    constants: Seq<V>,
    ip: int,
    below: Seq<V>,
    top: V,
)
    requires
        spec_read_at(code, ip) is Ok,
    ensures
        ({
            let (op, n) = spec_read_at(code, ip).unwrap();
            let (next, rest, step) = spec_step(code, constants, ip, below.push(top));
            &&& next == ip + n
            &&& op matches Op::Constant(p) ==> rest == below.push(top).push(constants[p as int]) && step is Continue
            &&& op is Negate ==> rest == below && (step matches Step::Negate(v) && v == top)
            &&& op is Return ==> rest == below && (step matches Step::Return(Some(v)) && v == top)
            &&& op is Return ==> (spec_step(code, constants, ip, Seq::<V>::empty()).2 matches Step::Return(None))
        }),
{
    assert(below.push(top).drop_last() =~= below);
}

} // verus!
