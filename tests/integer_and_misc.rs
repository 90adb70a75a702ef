use brainfuck::optimize::Options;
use brainfuck::{Brainfuck, BrainfuckInteger, Instruct};

#[test]
fn cell_descriptors() {
    assert_eq!(<i8 as BrainfuckInteger>::c_type(), "int8_t");
    assert_eq!(<i16 as BrainfuckInteger>::c_type(), "int16_t");
    assert_eq!(<i32 as BrainfuckInteger>::c_type(), "int32_t");
    assert_eq!(<i64 as BrainfuckInteger>::c_type(), "int64_t");
    assert_eq!(<i8 as BrainfuckInteger>::nasm_prefix(), "byte");
    assert_eq!(<i16 as BrainfuckInteger>::nasm_prefix(), "word");
    assert_eq!(<i32 as BrainfuckInteger>::nasm_prefix(), "dword");
    assert_eq!(<i64 as BrainfuckInteger>::nasm_prefix(), "qword");
    assert_eq!(<i8 as BrainfuckInteger>::size(), 1);
    assert_eq!(<i16 as BrainfuckInteger>::size(), 2);
    assert_eq!(<i32 as BrainfuckInteger>::size(), 4);
    assert_eq!(<i64 as BrainfuckInteger>::size(), 8);
}

#[test]
fn cell_arithmetic_wraps() {
    assert_eq!(BrainfuckInteger::wrapping_add(127i8, 1i8), -128);
    assert_eq!(BrainfuckInteger::wrapping_add(-1i16, 1i16), 0);
    assert_eq!(BrainfuckInteger::wrapping_add(i32::MAX, 1), i32::MIN);
    assert_eq!(BrainfuckInteger::wrapping_add(i64::MIN, -1), i64::MAX);
    assert_eq!(BrainfuckInteger::wrapping_neg(i8::MIN), i8::MIN);
    assert_eq!(BrainfuckInteger::wrapping_neg(5i64), -5);
}

#[test]
fn cell_bytes() {
    assert_eq!(BrainfuckInteger::get_least_byte(-1i8), 255);
    assert_eq!(BrainfuckInteger::get_least_byte(0x1234i16), 0x34);
    assert_eq!(BrainfuckInteger::get_least_byte(-2i32), 254);
    assert_eq!(BrainfuckInteger::get_least_byte(-257i64), 255);
    assert_eq!(<i8 as BrainfuckInteger>::from_byte(255), -1);
    assert_eq!(<i16 as BrainfuckInteger>::from_byte(255), 255);
    assert_eq!(BrainfuckInteger::i64(-7i8), -7);
    assert!(BrainfuckInteger::is_zero(0i32));
    assert!(BrainfuckInteger::is_positive(3i16));
    assert!(!BrainfuckInteger::is_positive(-3i16));
}

#[test]
fn empty_program() {
    let code = Brainfuck::<i32>::from_str("no commands here").unwrap();
    assert_eq!(code.len(), 0);
    assert_eq!(code.find_set_before(0), None);
    let (opt, echo) = code.optimize(&Options::all());
    assert_eq!(opt.len(), 0);
    assert!(echo.is_empty());
    assert_eq!(code.write_bf().unwrap(), Vec::<u8>::new());
}

#[test]
fn iterate_instructions() {
    let code = Brainfuck::<i32>::from_str("+>.").unwrap();
    let v: Vec<&Instruct<i32>> = code.iter().collect();
    assert_eq!(v, vec![&Instruct::Add(1), &Instruct::Move(1), &Instruct::Write]);
    assert_eq!(code.get(3), None);
}

#[test]
fn push_builds_loops() {
    let mut code = Brainfuck::<i32>::new();
    code.push(&Instruct::LoopStart(0));
    code.push(&Instruct::Add(-1));
    code.push(&Instruct::LoopEnd(0));
    assert_eq!(code.get(0), Some(&Instruct::LoopStart(3)));
    assert_eq!(code.get(2), Some(&Instruct::LoopEnd(0)));
    let copy = code.clone();
    assert_eq!(copy.get(0), Some(&Instruct::LoopStart(3)));
    assert_eq!(copy.len(), 3);
}

#[test]
fn parse_into_new_program() {
    let mut code = Brainfuck::<i64>::new();
    assert!(code.parse("[+]").is_ok());
    assert_eq!(code.len(), 3);
    assert_eq!(code.get(1), Some(&Instruct::Add(1)));
}
