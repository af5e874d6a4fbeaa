//! A chunk of bytecode with its constants and the source spans of its bytes.
use crate::parser::span::Span;
use crate::vm::op::{law_read_after_serialize, Op};
use vstd::prelude::*;

verus! {

/// Bytecode, the constants it loads, and for each byte the span of source
/// it came from. `V` is the type of constant values.
#[derive(Debug, Clone, PartialEq)]
pub struct Chunk<V> {
    pub code: Vec<u8>,
    pub constants: Vec<V>,
    pub source: String,
    // The book uses line numbers, but, I think I'll be even less efficient than
    // the book and use spans.
    pub spans: Vec<Span>,
}

/// What reading an op at `at` gives: the op and its length, or an error.
pub open spec fn spec_read_at(code: Seq<u8>, at: int) -> Result<(Op, usize), ()> {
    match Op::spec_read_from(code.skip(at)) {
        Some((op, n)) => Ok((op, n as usize)),
        None => Err(()),
    }
}

impl<V> Chunk<V> {
    /// Reads the op that starts at byte `at`, which must lie inside the code.
    pub fn read(&self, at: usize) -> (r: Result<(Op, usize), ()>)
        requires
            at < self.code@.len(),
        ensures
            r == spec_read_at(self.code@, at as int),
    {
        let len = self.code.len();
        let rest = &self.code.as_slice()[at..len];
        assert(rest@ =~= self.code@.skip(at as int));
        match Op::read_from(rest) {
            Some(r) => Ok(r),
            None => Err(()),
        }
    }

    /// An empty chunk.
    pub fn new() -> (r: Self)
        ensures
            r.code@.len() == 0,
            r.constants@.len() == 0,
            r.spans@.len() == 0,
            r.source@.len() == 0,
    {
        Self { code: vec![], constants: vec![], source: String::new(), spans: vec![] }
    }

    /// Adds a constant; returns its index, cut down to a byte.
    pub fn add_const(&mut self, value: V) -> (idx: u8)
        requires
            old(self).constants@.len() < usize::MAX,
        ensures
            final(self).constants@ == old(self).constants@.push(value),
            idx == old(self).constants@.len() as u8,
            final(self).code == old(self).code,
            final(self).spans == old(self).spans,
            final(self).source == old(self).source,
    {
        self.constants.push(value);
        (self.constants.len() - 1) as u8
    }

    /// Appends one byte, with its span.
    pub fn write(&mut self, byte: u8, span: Span)
        ensures
            final(self).code@ == old(self).code@.push(byte),
            final(self).spans@ == old(self).spans@.push(span),
            final(self).constants == old(self).constants,
            final(self).source == old(self).source,
    {
        self.code.push(byte);
        self.spans.push(span);
    }

    /// Appends the encoding of `op`, each of its bytes with `span`.
    pub fn write_op(&mut self, op: Op, span: Span)
        ensures
            final(self).code@ == old(self).code@ + op.spec_serialize(),
            final(self).spans@ == old(self).spans@ + Seq::new(op.spec_serialize().len(), |i: int| span),
            final(self).constants == old(self).constants,
            final(self).source == old(self).source,
    {
        let bytes = op.serialize();
        let bytes_len = bytes.len();
        let mut i: usize = 0;
        while i < bytes_len
            invariant
                bytes@ == op.spec_serialize(),
                bytes_len == bytes@.len(),
                i <= bytes_len,
                self.code@ == old(self).code@ + bytes@.take(i as int),
                self.spans@ == old(self).spans@ + Seq::new(i as nat, |j: int| span),
                self.constants == old(self).constants,
                self.source == old(self).source,
            decreases bytes_len - i,
        {
            self.code.push(bytes[i]);
            self.spans.push(span);
            i = i + 1;
            assert(self.code@ =~= old(self).code@ + bytes@.take(i as int));
            assert(self.spans@ =~= old(self).spans@ + Seq::new(i as nat, |j: int| span));
        }
        assert(bytes@.take(bytes_len as int) =~= bytes@);
    }

    /// Adds `value` as a constant and appends an op that loads it.
    pub fn write_const(&mut self, value: V, span: Span)
        requires
            old(self).constants@.len() < usize::MAX,
        ensures
            final(self).constants@ == old(self).constants@.push(value),
            final(self).code@ == old(self).code@ + Op::Constant(old(self).constants@.len() as u8).spec_serialize(),
            final(self).spans@ == old(self).spans@ + seq![span, span],
            final(self).source == old(self).source,
    {
        let idx = self.add_const(value);
        self.write_op(Op::Constant(idx), span);
        assert(final(self).spans@ =~= old(self).spans@ + seq![span, span]);
    }
}

/// Reading a chunk where an op was written gives that op back.
pub proof fn law_read_written_op(code: Seq<u8>, op: Op)
    ensures
        spec_read_at(code + op.spec_serialize(), code.len() as int) == Ok::<(Op, usize), ()>(
            (op, op.spec_serialize().len() as usize),
        ),
{
    assert((code + op.spec_serialize()).skip(code.len() as int) =~= op.spec_serialize() + Seq::empty());
    law_read_after_serialize(op, Seq::empty());
}

} // verus!
