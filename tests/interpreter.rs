use brainfuck::machine::{Action, Machine};
use brainfuck::optimize::Options;
use brainfuck::{Brainfuck, BrainfuckInteger};

const HELLO: &str = "++++++++[>++++[>++>+++>+++>+<<<<-]>+>+>->>+[<]<-]>>.>---.+++++++..+++.>>.<-.<.+++.------.--------.>>+.>++.";

fn run<Int: BrainfuckInteger>(code: &Brainfuck<Int>, input: &[u8]) -> (Vec<u8>, Machine<Int>) {
    let mut m = Machine::<Int>::new();
    let mut out = Vec::new();
    let mut pos = 0usize;
    let mut steps = 0u64;
    loop {
        steps += 1;
        assert!(steps < 50_000_000, "program does not halt");
        match m.step(code) {
            Action::Continue => {}
            Action::Output(bytes) => out.extend_from_slice(&bytes),
            Action::Input { .. } => {
                let b = input.get(pos).copied();
                pos += 1;
                m.feed(code, b);
            }
            Action::Halt { .. } => break,
            Action::OutOfRange => panic!("pointer out of range"),
        }
    }
    (out, m)
}

fn run_src<Int: BrainfuckInteger>(src: &str, options: &Options, input: &[u8]) -> Vec<u8> {
    let code = Brainfuck::<Int>::from_str(src).unwrap();
    let (opt, _) = code.optimize(options);
    run(&opt, input).0
}

fn no_echo_all() -> Options {
    let mut o = Options::all();
    o.constexpr_echo = false;
    o
}

#[test]
fn hello_world_all_widths() {
    let expected = b"Hello World!\n".to_vec();
    assert_eq!(run_src::<i8>(HELLO, &Options::none(), b""), expected);
    assert_eq!(run_src::<i16>(HELLO, &Options::none(), b""), expected);
    assert_eq!(run_src::<i32>(HELLO, &Options::none(), b""), expected);
    assert_eq!(run_src::<i64>(HELLO, &Options::none(), b""), expected);
}

#[test]
fn hello_world_optimized_all_widths() {
    let expected = b"Hello World!\n".to_vec();
    assert_eq!(run_src::<i8>(HELLO, &no_echo_all(), b""), expected);
    assert_eq!(run_src::<i16>(HELLO, &no_echo_all(), b""), expected);
    assert_eq!(run_src::<i32>(HELLO, &no_echo_all(), b""), expected);
    assert_eq!(run_src::<i64>(HELLO, &no_echo_all(), b""), expected);
}

#[test]
fn hello_world_constexpr_echo_bytes() {
    let code = Brainfuck::<i32>::from_str(HELLO).unwrap();
    let (_, echo) = code.optimize(&Options::all());
    assert_eq!(echo, b"Hello World!\n".to_vec());
}

#[test]
fn echo_cat_with_terminator() {
    assert_eq!(run_src::<i32>(",[.,]", &Options::none(), b"AB\n\0"), b"AB\n".to_vec());
    assert_eq!(run_src::<i32>(",[.,]", &no_echo_all(), b"AB\n\0"), b"AB\n".to_vec());
}

#[test]
fn echo_cat_empty_input_with_terminator() {
    assert_eq!(run_src::<i8>(",[.,]", &Options::none(), b"\0"), Vec::<u8>::new());
}

#[test]
fn copy_loop_moves_value() {
    let code = Brainfuck::<i32>::from_str("+++++[->+<]").unwrap();
    let (_, m) = run(&code, b"");
    assert_eq!(m.cell_value(0), 0);
    assert_eq!(m.cell_value(1), 5);
    assert_eq!(m.pointer_index(), 0);
    let mut o = Options::none();
    o.fold = true;
    o.add_to = true;
    let (opt, _) = code.optimize(&o);
    let (_, m2) = run(&opt, b"");
    assert_eq!(m2.cell_value(0), 0);
    assert_eq!(m2.cell_value(1), 5);
    assert_eq!(m2.pointer_index(), 0);
}

#[test]
fn wrapping_at_width_eight() {
    let src = "+".repeat(256);
    let code = Brainfuck::<i8>::from_str(&src).unwrap();
    let (_, m) = run(&code, b"");
    assert_eq!(m.cell_value(0), 0);
    let code = Brainfuck::<i8>::from_str(&"+".repeat(128)).unwrap();
    let (_, m) = run(&code, b"");
    assert_eq!(m.cell_value(0), -128);
    let code = Brainfuck::<i16>::from_str("-").unwrap();
    let (_, m) = run(&code, b"");
    assert_eq!(m.cell_value(0), -1);
}

#[test]
fn read_at_eof_gives_minus_one() {
    let (_, m) = run(&Brainfuck::<i8>::from_str(",").unwrap(), b"");
    assert_eq!(m.cell_value(0), -1);
    let (_, m) = run(&Brainfuck::<i64>::from_str(",").unwrap(), b"");
    assert_eq!(m.cell_value(0), -1);
    let (_, m) = run(&Brainfuck::<i8>::from_str(",").unwrap(), &[200]);
    assert_eq!(m.cell_value(0), -56);
    let (_, m) = run(&Brainfuck::<i32>::from_str(",").unwrap(), &[200]);
    assert_eq!(m.cell_value(0), 200);
}

#[test]
fn pointer_underflow_extends_tape() {
    let code = Brainfuck::<i32>::from_str("+++>++<<<+").unwrap();
    let (_, m) = run(&code, b"");
    assert_eq!(m.pointer_index(), 0);
    assert_eq!(m.cell_value(0), 1);
    assert_eq!(m.cell_value(1), 0);
    assert_eq!(m.cell_value(2), 3);
    assert_eq!(m.cell_value(3), 2);
}

#[test]
fn sub_from_underflow_extends_tape() {
    let mut code = Brainfuck::<i32>::new();
    code.push_add(4);
    code.push_sub_from(-2);
    code.push_set(0);
    let (_, m) = run(&code, b"");
    assert_eq!(m.pointer_index(), 2);
    assert_eq!(m.cell_value(0), -4);
    assert_eq!(m.cell_value(2), 0);
}

#[test]
fn write_flush_tracking() {
    let code = Brainfuck::<i32>::from_str("++++++++++.").unwrap();
    let mut m = Machine::<i32>::new();
    let mut last = Action::Continue;
    for _ in 0..20 {
        last = m.step(&code);
        if let Action::Halt { .. } = last {
            break;
        }
    }
    assert_eq!(last, Action::Halt { flush: false });
    let code = Brainfuck::<i32>::from_str("+.").unwrap();
    let mut m = Machine::<i32>::new();
    assert_eq!(m.step(&code), Action::Continue);
    assert_eq!(m.step(&code), Action::Output(vec![1]));
    assert_eq!(m.step(&code), Action::Halt { flush: true });
}

#[test]
fn read_asks_for_flush_after_output() {
    let code = Brainfuck::<i32>::from_str("+.,").unwrap();
    let mut m = Machine::<i32>::new();
    m.step(&code);
    m.step(&code);
    assert_eq!(m.step(&code), Action::Input { flush: true });
}

#[test]
fn constexpr_with_input_keeps_read() {
    let mut o = Options::none();
    o.constexpr = true;
    assert_eq!(run_src::<i32>(",+.", &o, b"A"), b"B".to_vec());
    assert_eq!(run_src::<i32>("+++>,<.>.", &o, b"x"), vec![3u8, b'x']);
    assert_eq!(run_src::<i32>(",[-]+++.", &o, b"z"), vec![3u8]);
    assert_eq!(run_src::<i32>(",>,<.>.", &o, b"pq"), b"pq".to_vec());
}

#[test]
fn constexpr_stops_inside_loop() {
    let mut o = Options::none();
    o.constexpr = true;
    let src = "++[>,.<-]";
    assert_eq!(run_src::<i32>(src, &o, b"ab"), b"ab".to_vec());
    assert_eq!(run_src::<i32>(src, &no_echo_all(), b"ab"), b"ab".to_vec());
}

#[test]
fn all_passes_keep_output() {
    let programs: [(&str, &[u8]); 5] = [
        ("+++[>++<-]>[<+>-]<.", b""),
        (",[>+>+<<-]>.>.", b"\x05"),
        ("++>+++[<[->>+<<]>>[-<<+>>]<-]<.", b""),
        ("+[-]++++[-]++.>++[-]<.", b""),
        ("+++++[>+++++<-]>[-<+>]<[->+>+<<]>>.", b""),
    ];
    for (src, input) in programs.iter() {
        let plain = run_src::<i32>(src, &Options::none(), input);
        let opt = run_src::<i32>(src, &no_echo_all(), input);
        assert_eq!(plain, opt, "{}", src);
        let opt8 = run_src::<i8>(src, &no_echo_all(), input);
        assert_eq!(run_src::<i8>(src, &Options::none(), input), opt8, "{}", src);
    }
}
