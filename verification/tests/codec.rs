use tootvm::bytecode::{
    BytesIO, BytesReadError, DataIO, Function, LiteralValue, Module, ModuleItem, Op, Program,
};
use tootvm::datamodel::Real;

/// The bytes that `write` puts at the front of a buffer that is large
/// enough.
fn written<T: BytesIO>(t: &T) -> Vec<u8> {
    let mut buffer = vec![0xaau8; 4096];
    let left = match T::write(t, &mut buffer) {
        Some(rest) => rest.len(),
        None => panic!("the value does not fit"),
    };
    buffer.truncate(4096 - left);
    buffer
}

/// The value that `read` finds at the front of the bytes, with the number of
/// bytes that are left.
fn read_back<T: BytesIO>(bytes: &[u8]) -> (usize, T) {
    match T::read(bytes) {
        Ok((rest, t)) => (rest.len(), t),
        Err(BytesReadError::EndOfFile) => panic!("the bytes end too early"),
        Err(BytesReadError::InvalidValue(at)) => panic!("no value {} bytes before the end", at.len()),
    }
}

#[test]
fn numbers_are_written_with_the_most_significant_byte_first() {
    assert_eq!(written(&0x12u8), [0x12]);
    assert_eq!(written(&0x1234u16), [0x12, 0x34]);
    assert_eq!(written(&0x1234_5678u32), [0x12, 0x34, 0x56, 0x78]);
    assert_eq!(
        written(&0x0102_0304_0506_0708u64),
        [0x01, 0x02, 0x03, 0x04, 0x05, 0x06, 0x07, 0x08]
    );
    assert_eq!(written(&-2i8), [0xfe]);
    assert_eq!(written(&-2i16), [0xff, 0xfe]);
    assert_eq!(written(&-2i32), [0xff, 0xff, 0xff, 0xfe]);
    assert_eq!(written(&-2i64), [0xff, 0xff, 0xff, 0xff, 0xff, 0xff, 0xff, 0xfe]);
    assert_eq!(written(&i64::MIN), [0x80, 0, 0, 0, 0, 0, 0, 0]);
    assert_eq!(written(&0x0102i16), [0x01, 0x02]);
}

#[test]
fn numbers_are_written_as_the_standard_library_writes_them() {
    for x in [0u64, 1, 255, 256, 0xdead_beef, u64::MAX, 1 << 63] {
        assert_eq!(written(&x), x.to_be_bytes());
        assert_eq!(written(&(x as u32)), (x as u32).to_be_bytes());
        assert_eq!(written(&(x as u16)), (x as u16).to_be_bytes());
        assert_eq!(written(&(x as i64)), (x as i64).to_be_bytes());
        assert_eq!(written(&(x as i32)), (x as i32).to_be_bytes());
        assert_eq!(written(&(x as i16)), (x as i16).to_be_bytes());
        assert_eq!(written(&(x as i8)), (x as i8).to_be_bytes());
    }
}

#[test]
fn numbers_are_read_back() {
    for x in [0i64, 1, -1, 127, -128, 255, 256, -32768, i64::MAX, i64::MIN, 0x1234_5678_9abc] {
        assert_eq!(read_back::<i64>(&written(&x)), (0, x));
        assert_eq!(read_back::<u64>(&written(&(x as u64))), (0, x as u64));
        assert_eq!(read_back::<i32>(&written(&(x as i32))), (0, x as i32));
        assert_eq!(read_back::<u32>(&written(&(x as u32))), (0, x as u32));
        assert_eq!(read_back::<i16>(&written(&(x as i16))), (0, x as i16));
        assert_eq!(read_back::<u16>(&written(&(x as u16))), (0, x as u16));
        assert_eq!(read_back::<i8>(&written(&(x as i8))), (0, x as i8));
        assert_eq!(read_back::<u8>(&written(&(x as u8))), (0, x as u8));
    }
}

#[test]
fn reader_hands_back_the_bytes_behind_the_value() {
    let bytes = [0x00, 0x00, 0x01, 0x00, 0x77, 0x88];
    let (rest, x) = match <u32 as BytesIO>::read(&bytes) {
        Ok(r) => r,
        Err(_) => panic!("the bytes hold a number"),
    };
    assert_eq!(x, 256);
    assert_eq!(rest, &[0x77, 0x88]);
}

#[test]
fn writer_hands_back_the_bytes_behind_the_value() {
    let mut buffer = [9u8; 6];
    {
        let rest = <u32 as BytesIO>::write(&0x0a0b0c0d, &mut buffer).unwrap();
        assert_eq!(rest.len(), 2);
        rest[0] = 1;
    }
    assert_eq!(buffer, [0x0a, 0x0b, 0x0c, 0x0d, 1, 9]);
}

#[test]
fn number_that_is_cut_short_is_the_end_of_the_file() {
    assert!(matches!(<u32 as BytesIO>::read(&[1, 2, 3]), Err(BytesReadError::EndOfFile)));
    assert!(matches!(<i64 as BytesIO>::read(&[1, 2, 3, 4, 5, 6, 7]), Err(BytesReadError::EndOfFile)));
    assert!(matches!(<u8 as BytesIO>::read(&[]), Err(BytesReadError::EndOfFile)));
}

#[test]
fn number_that_does_not_fit_is_not_written() {
    let mut buffer = [0u8; 3];
    assert!(<u32 as BytesIO>::write(&1, &mut buffer).is_none());
    let mut buffer = [0u8; 0];
    assert!(<u8 as BytesIO>::write(&1, &mut buffer).is_none());
}

#[test]
fn real_is_written_as_its_pattern() {
    let x = Real::from_bits(1.5f64.to_bits());
    assert_eq!(written(&x), 1.5f64.to_be_bytes());
    assert_eq!(read_back::<Real>(&1.5f64.to_be_bytes()), (0, x));
    assert_eq!(x.into_bytes(), 1.5f64.to_bits());
    assert_eq!(Real::from_bytes(7), Some(Real::from_bits(7)));
}

#[test]
fn pair_is_written_as_its_parts_in_order() {
    assert_eq!(written(&(0x01u8, 0x0203u16)), [1, 2, 3]);
    assert_eq!(read_back::<(u8, u16)>(&[1, 2, 3, 4]), (1, (1, 0x0203)));
    assert!(matches!(<(u8, u16)>::read(&[1, 2]), Err(BytesReadError::EndOfFile)));
}

#[test]
fn sequence_is_written_with_its_count_in_front() {
    assert_eq!(written(&vec![0x0102u16, 0x0304]), [0, 0, 0, 2, 1, 2, 3, 4]);
    assert_eq!(written(&Vec::<u16>::new()), [0, 0, 0, 0]);
    assert_eq!(read_back::<Vec<u16>>(&[0, 0, 0, 2, 1, 2, 3, 4, 5]), (1, vec![0x0102, 0x0304]));
}

#[test]
fn sequence_that_is_cut_short_is_the_end_of_the_file() {
    assert!(matches!(
        <Vec<u16> as BytesIO>::read(&[0, 0, 0, 2, 1, 2, 3]),
        Err(BytesReadError::EndOfFile)
    ));
    assert!(matches!(<Vec<u16> as BytesIO>::read(&[0, 0, 0]), Err(BytesReadError::EndOfFile)));
    assert!(matches!(
        <Vec<u8> as BytesIO>::read(&[0xff, 0xff, 0xff, 0xff, 1, 2]),
        Err(BytesReadError::EndOfFile)
    ));
}

#[test]
fn sequence_that_does_not_fit_is_not_written() {
    let mut buffer = [0u8; 5];
    assert!(<Vec<u16> as BytesIO>::write(&vec![1, 2], &mut buffer).is_none());
}

#[test]
fn literal_is_written_with_its_kind_in_front() {
    assert_eq!(written(&LiteralValue::Nil), [0]);
    assert_eq!(written(&LiteralValue::Integer(258)), [1, 0, 0, 0, 0, 0, 0, 1, 2]);
    let mut expected = vec![2];
    expected.extend_from_slice(&(-0.5f64).to_be_bytes());
    assert_eq!(written(&LiteralValue::Real(Real::from_bits((-0.5f64).to_bits()))), expected);
}

#[test]
fn literal_of_an_unknown_kind_is_invalid() {
    match <LiteralValue as BytesIO>::read(&[3, 0, 0]) {
        Err(BytesReadError::InvalidValue(at)) => assert_eq!(at, &[3, 0, 0]),
        _ => panic!("kind 3 is no literal"),
    }
    assert!(matches!(
        <LiteralValue as BytesIO>::read(&[1, 0, 0]),
        Err(BytesReadError::EndOfFile)
    ));
}

fn every_op() -> Vec<Op> {
    vec![
        Op::Add,
        Op::Sub,
        Op::Mul,
        Op::Div,
        Op::Rem,
        Op::Neg,
        Op::Shl,
        Op::Shr,
        Op::And,
        Op::Or,
        Op::Xor,
        Op::Not,
        Op::Cmp,
        Op::GetType,
        Op::IntToReal,
        Op::Floor,
        Op::Ceil,
        Op::Trunc,
        Op::Round,
        Op::Call(3),
        Op::Return,
        Op::Jump(-2),
        Op::JumpZero(5),
        Op::JumpNeg(i32::MIN),
        Op::LiteralCreate(LiteralValue::Integer(-7)),
        Op::StackCopy,
        Op::StackPop,
        Op::StackLoad(1),
        Op::StackStore(2),
        Op::StackSwap(255),
        Op::TupleCreate(4),
        Op::TupleFromList,
        Op::TupleWeakRef,
        Op::TupleWeakUpgrade,
        Op::TableCreate,
        Op::ListCreate(0),
        Op::ListPush,
        Op::ListPop,
        Op::ListGetSlice,
        Op::BufferCreate,
        Op::BufferGetSlice,
        Op::BufferSetSlice,
        Op::SeqLen,
        Op::SeqResize,
        Op::SeqGet,
        Op::SeqSet,
        Op::SeqToList,
        Op::SeqAppend,
    ]
}

#[test]
fn instructions_are_numbered_in_the_order_of_their_declaration() {
    for (number, op) in every_op().iter().enumerate() {
        assert_eq!(written(op)[0] as usize, number, "{:?}", op);
        assert_eq!(op.get_type().get_code() as usize, number);
    }
    assert_eq!(every_op().len(), 48);
}

#[test]
fn instructions_carry_their_payload_behind_their_number() {
    assert_eq!(written(&Op::Add), [0]);
    assert_eq!(written(&Op::Call(3)), [19, 3]);
    assert_eq!(written(&Op::Jump(-2)), [21, 0xff, 0xff, 0xff, 0xfe]);
    assert_eq!(written(&Op::JumpZero(5)), [22, 0, 0, 0, 5]);
    assert_eq!(written(&Op::LiteralCreate(LiteralValue::Nil)), [24, 0]);
    assert_eq!(written(&Op::StackLoad(9)), [27, 9]);
    assert_eq!(written(&Op::SeqAppend), [47]);
}

#[test]
fn every_instruction_is_read_back() {
    for op in every_op() {
        assert_eq!(read_back::<Op>(&written(&op)), (0, op));
    }
}

#[test]
fn instruction_of_an_unknown_number_is_invalid() {
    match <Op as BytesIO>::read(&[48, 1, 2]) {
        Err(BytesReadError::InvalidValue(at)) => assert_eq!(at, &[48, 1, 2]),
        _ => panic!("48 is no instruction"),
    }
    match <Vec<Op> as BytesIO>::read(&[0, 0, 0, 2, 0, 200, 7]) {
        Err(BytesReadError::InvalidValue(at)) => assert_eq!(at, &[200, 7]),
        _ => panic!("200 is no instruction"),
    }
    match <Op as BytesIO>::read(&[24, 9]) {
        Err(BytesReadError::InvalidValue(at)) => assert_eq!(at, &[9]),
        _ => panic!("9 is no kind of literal"),
    }
    assert!(matches!(<Op as BytesIO>::read(&[21, 0, 0]), Err(BytesReadError::EndOfFile)));
}

fn sample_program() -> Program {
    Program {
        modules: vec![
            Module {
                items: vec![
                    ModuleItem::LiteralValue(LiteralValue::Integer(5)),
                    ModuleItem::Buffer(vec![1, 2, 3]),
                    ModuleItem::ModuleRef(1),
                    ModuleItem::Function(Function { ops: every_op() }),
                ],
            },
            Module { items: vec![] },
        ],
    }
}

#[test]
fn program_has_the_layout_of_the_wire_format() {
    let program = Program {
        modules: vec![Module {
            items: vec![
                ModuleItem::LiteralValue(LiteralValue::Nil),
                ModuleItem::Buffer(vec![7, 8]),
                ModuleItem::ModuleRef(3),
                ModuleItem::Function(Function { ops: vec![Op::Return] }),
            ],
        }],
    };
    assert_eq!(
        written(&program),
        [
            0, 0, 0, 1, // one module
            0, 0, 0, 4, // four items
            0, 0, // a literal: nothing
            1, 0, 0, 0, 2, 7, 8, // two bytes
            2, 0, 0, 0, 3, // module 3
            3, 0, 0, 0, 1, 20, // a function of one instruction
        ]
    );
}

#[test]
fn program_is_read_back_and_written_again_to_the_same_bytes() {
    let bytes = written(&sample_program());
    let (left, program) = read_back::<Program>(&bytes);
    assert_eq!(left, 0);
    assert_eq!(program.modules.len(), 2);
    assert_eq!(program.modules[0].items.len(), 4);
    match &program.modules[0].items[3] {
        ModuleItem::Function(f) => assert_eq!(f.ops, every_op()),
        _ => panic!("the fourth item is a function"),
    }
    match &program.modules[0].items[1] {
        ModuleItem::Buffer(b) => assert_eq!(b, &[1, 2, 3]),
        _ => panic!("the second item is bytes"),
    }
    assert_eq!(written(&program), bytes);
}

#[test]
fn item_of_an_unknown_kind_is_invalid() {
    match <ModuleItem as BytesIO>::read(&[4, 0]) {
        Err(BytesReadError::InvalidValue(at)) => assert_eq!(at, &[4, 0]),
        _ => panic!("kind 4 is no item"),
    }
    match <Program as BytesIO>::read(&[0, 0, 0, 1, 0, 0, 0, 1, 9]) {
        Err(BytesReadError::InvalidValue(at)) => assert_eq!(at, &[9]),
        _ => panic!("kind 9 is no item"),
    }
}
