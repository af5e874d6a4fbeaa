use cflox::parser::span::Span;
use cflox::vm::chunk::Chunk;
use cflox::vm::op::Op;
use cflox::vm::{Step, VM};

#[test]
fn ops_round_trip_through_bytes() {
    for op in [
        Op::Constant(7),
        Op::Add,
        Op::Subtract,
        Op::Multiply,
        Op::Divide,
        Op::Negate,
        Op::Return,
    ] {
        let bytes = op.serialize();
        assert_eq!(Op::read_from(&bytes), Some((op, bytes.len())));
    }
    assert_eq!(Op::Constant(3).serialize(), vec![0, 3]);
    assert_eq!(Op::read_from(&[0]), None);
    assert_eq!(Op::read_from(&[9]), None);
}

#[test]
fn chunk_writes_and_reads_back() {
    let mut chunk: Chunk<i64> = Chunk::new();
    let span = Span { start: 0, end: 0 };
    chunk.write_const(12, span);
    chunk.write_op(Op::Negate, span);
    chunk.write_op(Op::Return, span);
    assert_eq!(chunk.code, vec![0, 0, 5, 6]);
    assert_eq!(chunk.constants, vec![12]);
    assert_eq!(chunk.spans.len(), 4);
    assert_eq!(chunk.read(0), Ok((Op::Constant(0), 2)));
    assert_eq!(chunk.read(2), Ok((Op::Negate, 1)));
    assert_eq!(chunk.read(3), Ok((Op::Return, 1)));
    assert_eq!(chunk.add_const(5), 1);
    chunk.write(9, span);
    assert_eq!(chunk.read(4), Err(()));
}

#[derive(Debug, Clone, Copy, PartialEq)]
enum Num {
    N(f64),
}

#[test]
fn machine_steps_through_a_chunk() {
    let span = Span { start: 0, end: 0 };
    let mut chunk = Chunk::new();
    chunk.write_const(Num::N(1.5), span);
    chunk.write_const(Num::N(2.0), span);
    chunk.write_op(Op::Multiply, span);
    chunk.write_op(Op::Negate, span);
    chunk.write_op(Op::Return, span);

    let mut vm = VM::new();
    assert!(matches!(vm.step(&chunk), Step::Continue));
    assert_eq!(vm.ip, 2);
    assert!(matches!(vm.step(&chunk), Step::Continue));
    assert_eq!(vm.stack, vec![Num::N(1.5), Num::N(2.0)]);
    match vm.step(&chunk) {
        Step::Arithmetic { op, left, right } => {
            assert_eq!(op, Op::Multiply);
            assert_eq!(left, Num::N(1.5));
            assert_eq!(right, Num::N(2.0));
            vm.push(Num::N(3.0));
        },
        other => panic!("expected arithmetic, got {other:?}"),
    }
    match vm.step(&chunk) {
        Step::Negate(v) => {
            assert_eq!(v, Num::N(3.0));
            vm.push(Num::N(-3.0));
        },
        other => panic!("expected a negation, got {other:?}"),
    }
    match vm.step(&chunk) {
        Step::Return(v) => assert_eq!(v, Some(Num::N(-3.0))),
        other => panic!("expected a return, got {other:?}"),
    }
    assert!(vm.stack.is_empty());
}

#[test]
fn machine_reports_a_short_stack() {
    let span = Span { start: 0, end: 0 };
    let mut chunk: Chunk<Num> = Chunk::new();
    chunk.write_op(Op::Add, span);
    let mut vm = VM::new();
    assert!(matches!(vm.step(&chunk), Step::Error));
    assert_eq!(vm.ip, 1);
}
