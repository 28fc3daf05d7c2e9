//! Chunks: the byte stream, the constant pool, patching, and decoding.
use rlox::chunk::{Chunk, Ip, OpCode, ReadInstructionError};
use rlox::value::Value;

#[test]
fn write_and_read_instruction() {
    let mut chunk = Chunk::new();
    chunk.write_op(OpCode::Constant, 1);
    let idx = chunk.constant(Value::Number(7));
    chunk.write(idx, 1);
    chunk.write_op(OpCode::Return, 2);

    assert_eq!(chunk.read_instruction(0), Ok((OpCode::Constant, 2)));
    assert_eq!(chunk.read_instruction(2), Ok((OpCode::Return, 3)));
    assert_eq!(
        chunk.read_instruction(3),
        Err(ReadInstructionError::InvalidInstruction)
    );
    assert_eq!(chunk.get_line(0), Some(1));
    assert_eq!(chunk.get_line(1), Some(1));
    assert_eq!(chunk.get_line(2), Some(2));
}

#[test]
fn opcode_bytes_round_trip() {
    let ops = [
        OpCode::Return,
        OpCode::Constant,
        OpCode::Negate,
        OpCode::Add,
        OpCode::Jump,
        OpCode::JumpIfFalse,
        OpCode::Loop,
        OpCode::Closure,
        OpCode::SuperInvoke,
    ];
    for op in ops {
        assert_eq!(OpCode::from_byte(op.to_byte()), Some(op));
    }
    assert_eq!(OpCode::from_byte(37), None);
    assert_eq!(OpCode::from_byte(255), None);
}

#[test]
fn jump_patching_round_trip() {
    // Emit a jump with a placeholder, then more code, then patch: reading
    // the operand and stepping lands just past the emitted code.
    let mut chunk = Chunk::new();
    chunk.write_op(OpCode::Jump, 1);
    let operand_offset = chunk.code.len();
    chunk.write(255, 1);
    chunk.write(255, 1);
    chunk.write_op(OpCode::Nil, 1);
    chunk.write_op(OpCode::Pop, 1);
    let target = chunk.code.len();
    let distance = (target - operand_offset - 2) as u16;
    chunk.patch_u16(operand_offset, distance);

    let read = chunk.read_u16(operand_offset);
    assert_eq!(operand_offset + 2 + read as usize, target);
}

#[test]
fn chunk_names() {
    let mut chunk = Chunk::new();
    assert_eq!(chunk.get_name(), "");
    chunk.set_name("script");
    assert_eq!(chunk.get_name(), "script");
    chunk.clear_name();
    assert_eq!(chunk.get_name(), "");
    let boxed = chunk.pin();
    assert_eq!(boxed.get_name(), "");
}

#[test]
fn cursor_moves() {
    let mut ip = Ip::null();
    assert_eq!(ip.offset(), 0);
    ip.jump_forward(5);
    assert_eq!(ip.offset(), 5);
    ip.jump_back(2);
    assert_eq!(ip.offset(), 3);
}
