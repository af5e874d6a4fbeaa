//! Bytecode instructions and their encoding.
use vstd::prelude::*;

verus! {

pub type ConstIndex = u8;

/// One bytecode instruction.
#[derive(Debug, Clone, Copy, PartialEq, Eq, Structural)]
pub enum Op {
    /// Load constant
    Constant(ConstIndex),
    Add,
    Subtract,
    Multiply,
    Divide,
    /// negate the sign of a number
    Negate,
    Return,
}

impl Op {
    /// The bytes that encode this op: an opcode, then its operand if it has
    /// one.
    pub open spec fn spec_serialize(self) -> Seq<u8> {
        match self {
            Op::Constant(c) => seq![0u8, c],
            Op::Add => seq![1u8],
            Op::Subtract => seq![2u8],
            Op::Multiply => seq![3u8],
            Op::Divide => seq![4u8],
            Op::Negate => seq![5u8],
            Op::Return => seq![6u8],
        }
    }

    /// The op that `bytes` starts with, and how many bytes it takes; `None`
    /// for an unknown opcode or a missing operand.
    pub open spec fn spec_read_from(bytes: Seq<u8>) -> Option<(Op, nat)>
        recommends
            bytes.len() > 0,
    {
        let code = bytes[0];
        if code == 0 {
            if bytes.len() >= 2 {
                Some((Op::Constant(bytes[1]), 2))
            } else {
                None
            }
        } else if code == 1 {
            Some((Op::Add, 1))
        } else if code == 2 {
            Some((Op::Subtract, 1))
        } else if code == 3 {
            Some((Op::Multiply, 1))
        } else if code == 4 {
            Some((Op::Divide, 1))
        } else if code == 5 {
            Some((Op::Negate, 1))
        } else if code == 6 {
            Some((Op::Return, 1))
        } else {
            None
        }
    }

    /// Convert an op to bytes
    pub fn serialize(&self) -> (bytes: Vec<u8>)
        ensures
            bytes@ == self.spec_serialize(),
    {
        let mut bytes = Vec::with_capacity(3);
        match self {
            Self::Constant(const_val) => {
                bytes.push(0);
                bytes.push(*const_val);
            },
            Self::Add => bytes.push(1),
            Self::Subtract => bytes.push(2),
            Self::Multiply => bytes.push(3),
            Self::Divide => bytes.push(4),
            Self::Negate => bytes.push(5),
            Self::Return => bytes.push(6),
        }
        assert(bytes@ =~= self.spec_serialize());
        bytes
    }

    /// Construct a single op from the byte slice, which must not be empty.
    ///
    /// If successful, will yield both the op and the number of bytes read
    pub fn read_from(bytes: &[u8]) -> (r: Option<(Op, usize)>)
        requires
            bytes@.len() > 0,
        ensures
            r matches Some((op, n)) ==> Self::spec_read_from(bytes@) == Some((op, n as nat)),
            r is None ==> Self::spec_read_from(bytes@) is None,
    {
        let mut bytes_read: usize = 1;
        let op = if bytes[0] == 0 {
            if bytes.len() < 2 {
                return None;
            }
            let const_index = bytes[1];
            bytes_read += 1;
            Op::Constant(const_index)
        } else if bytes[0] == 1 {
            Op::Add
        } else if bytes[0] == 2 {
            Op::Subtract
        } else if bytes[0] == 3 {
            Op::Multiply
        } else if bytes[0] == 4 {
            Op::Divide
        } else if bytes[0] == 5 {
            Op::Negate
        } else if bytes[0] == 6 {
            Op::Return
        } else {
            return None;
        };
        Some((op, bytes_read))
    }
}

/// Reading back the encoding of an op, with anything after it, gives the op
/// and the length of its encoding.
pub proof fn law_read_after_serialize(op: Op, rest: Seq<u8>)
    ensures
        Op::spec_read_from(op.spec_serialize() + rest) == Some((op, op.spec_serialize().len())),
{
    let b = op.spec_serialize() + rest;
    assert(b[0] == op.spec_serialize()[0]);
    if let Op::Constant(c) = op {
        assert(b[1] == c);
    }
}

/// Whatever is read was encoded by the bytes it took.
pub proof fn law_serialize_after_read(bytes: Seq<u8>)
    requires
        bytes.len() > 0,
    ensures
        Op::spec_read_from(bytes) matches Some((op, n)) ==> n <= bytes.len() && op.spec_serialize()
            == bytes.take(n as int),
{
    if let Some((op, n)) = Op::spec_read_from(bytes) {
        assert(op.spec_serialize() =~= bytes.take(n as int));
    }
}

} // verus!
