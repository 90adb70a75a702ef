use brainfuck::codegen::generate_asm_str::generate_asm_str;
use brainfuck::codegen::generate_c_write_str::generate_c_write_str;
use brainfuck::codegen::linux_x86_64::Generated;
use brainfuck::optimize::Options;
use brainfuck::{Brainfuck, Error, Instruct};

#[test]
fn parse_builds_instructions() {
    let code = Brainfuck::<i32>::from_str("a+-<>[.,]b").unwrap();
    let v: Vec<Instruct<i32>> = (0..code.len()).map(|i| code.get(i).unwrap().clone()).collect();
    assert_eq!(
        v,
        vec![
            Instruct::Add(1),
            Instruct::Add(-1),
            Instruct::Move(-1),
            Instruct::Move(1),
            Instruct::LoopStart(8),
            Instruct::Write,
            Instruct::Read,
            Instruct::LoopEnd(4),
        ]
    );
}

#[test]
fn parse_unmatched_end() {
    assert_eq!(
        Brainfuck::<i32>::from_str("+\n+]").err(),
        Some(Error::UnmatchedLoopEnd { lineno: 2, column: 2 })
    );
    assert_eq!(
        Brainfuck::<i32>::from_str("é]").err(),
        Some(Error::UnmatchedLoopEnd { lineno: 1, column: 2 })
    );
}

#[test]
fn parse_unmatched_start_reports_outermost() {
    assert_eq!(
        Brainfuck::<i32>::from_str("+\n [[]").err(),
        Some(Error::UnmatchedLoopStart { lineno: 2, column: 2 })
    );
    assert_eq!(
        Brainfuck::<i32>::from_str("[]\n[").err(),
        Some(Error::UnmatchedLoopStart { lineno: 2, column: 1 })
    );
}

#[test]
fn error_lines() {
    let e = Error::UnmatchedLoopStart { lineno: 3, column: 14 };
    assert_eq!(e.print("prog.bf"), b"error:prog.bf:3:14: unmatched '['\n".to_vec());
    let e = Error::UnmatchedLoopEnd { lineno: 1, column: 2 };
    assert_eq!(e.print("x"), b"error:x:1:2: unmatched ']'\n".to_vec());
    let e = Error::IO("No such file".to_string());
    assert_eq!(e.print("x"), b"error:x: No such file\n".to_vec());
}

#[test]
fn c_write_str_single_line() {
    let mut out = Vec::new();
    generate_c_write_str(&mut out, b"a\"b\n", 1);
    assert_eq!(out, b"    fwrite(\"a\\\"b\\n\", 4, 1, stdout);\n".to_vec());
}

#[test]
fn c_write_str_multi_line_and_escapes() {
    let mut out = Vec::new();
    generate_c_write_str(&mut out, b"a\nb\x01", 0);
    assert_eq!(out, b"fwrite(\n    \"a\\n\"\n    \"b\\001\", 4, 1, stdout);\n".to_vec());
    let mut out = Vec::new();
    generate_c_write_str(&mut out, b"\x01a\x00\x31", 0);
    assert_eq!(out, b"fwrite(\"\\001a\\0001\", 4, 1, stdout);\n".to_vec());
    let mut out = Vec::new();
    generate_c_write_str(&mut out, b"", 2);
    assert!(out.is_empty());
}

#[test]
fn asm_str_line() {
    let mut out = Vec::new();
    generate_asm_str(&mut out, b"msg0", b"Hi\n");
    assert_eq!(out, b"msg0:   db \"Hi\",10\n".to_vec());
    let mut out = Vec::new();
    generate_asm_str(&mut out, b"msg1", b"\n\x07'x");
    assert_eq!(out, b"msg1:   db 10, \\\n           7,39,\"x\"\n".to_vec());
    let mut out = Vec::new();
    generate_asm_str(&mut out, b"msg2", b"a\"b");
    assert_eq!(out, b"msg2:   db \"a\",34,\"b\"\n".to_vec());
    let mut out = Vec::new();
    generate_asm_str(&mut out, b"m", b"");
    assert_eq!(out, b"m:      db \"\"\n".to_vec());
}

#[test]
fn write_debug_listing() {
    let code = Brainfuck::<i32>::from_str("+[>,]").unwrap();
    assert_eq!(code.write_debug(), b"add 1\nloop {\n    move 1\n    read\n}\n".to_vec());
    let mut code = Brainfuck::<i32>::new();
    code.push_write_str(vec![72, 105]);
    assert_eq!(code.write_debug(), b"write [72, 105]\n".to_vec());
}

#[test]
fn write_bf_round_trip() {
    let src = "+>-<[.,]";
    let code = Brainfuck::<i32>::from_str(src).unwrap();
    assert_eq!(code.write_bf().unwrap(), src.as_bytes().to_vec());
    let mut o = Options::none();
    o.fold = true;
    o.add_to = true;
    let code = Brainfuck::<i32>::from_str("++[->+<<->]").unwrap();
    let (opt, _) = code.optimize(&o);
    let text = opt.write_bf().unwrap();
    assert_eq!(text, b"++[-<->>+<]".to_vec());
    let again = Brainfuck::<i32>::from_str(std::str::from_utf8(&text).unwrap()).unwrap();
    let (again_opt, _) = again.optimize(&o);
    assert_eq!(again_opt.write_debug(), opt.write_debug());
}

#[test]
fn write_bf_refuses_open_copy() {
    let mut code = Brainfuck::<i32>::new();
    code.push_add_to(1);
    assert!(matches!(code.write_bf(), Err(Error::IO(_))));
}

#[test]
fn write_bf_of_set_and_string() {
    let mut code = Brainfuck::<i32>::new();
    code.push_set(-2);
    code.push_write_str(vec![2]);
    assert_eq!(code.write_bf().unwrap(), b"[-]--[-]++.".to_vec());
}

#[test]
fn c_backend_uses_tape() {
    let code = Brainfuck::<i32>::from_str("+>-.").unwrap();
    let out = String::from_utf8(brainfuck::codegen::c::generate(&code)).unwrap();
    assert!(out.starts_with("#define _GNU_SOURCE"));
    assert!(out.contains("#define PAGESIZE 4096\n"));
    assert!(out.contains("volatile int32_t* mem = NULL;"));
    assert!(out.contains("    *ptr += 1;\n    ptr += 1;\n    *ptr += -1;\n    putchar(*ptr);\n"));
    assert!(out.ends_with("\n    return 0;\n}"));
}

#[test]
fn c_backend_constant_output() {
    let code = Brainfuck::<i32>::from_str("++++++++++.").unwrap();
    let (opt, _) = code.optimize(&Options::all());
    let out = String::from_utf8(brainfuck::codegen::c::generate(&opt)).unwrap();
    assert_eq!(out, "#include <stdio.h>\n\nint main() {\n    fwrite(\"\\n\", 1, 1, stdout);\n\n    return 0;\n}");
}

#[test]
fn c_backend_loop_nesting() {
    let code = Brainfuck::<i8>::from_str("[[-]]").unwrap();
    let out = String::from_utf8(brainfuck::codegen::c::generate(&code)).unwrap();
    assert!(out.contains("    while (*ptr) {\n        while (*ptr) {\n            *ptr += -1;\n        }\n    }\n"));
    assert!(out.contains("volatile int8_t* ptr = NULL;"));
}

#[test]
fn asm_backend_files() {
    let code = Brainfuck::<i64>::from_str("+[>+<-]>.").unwrap();
    match brainfuck::codegen::linux_x86_64::generate(&code) {
        Generated::Assembly { runtime, source } => {
            let rt = String::from_utf8(runtime).unwrap();
            assert!(rt.contains("#define PAGESIZE 4096\n#define CELL_T int64_t\n"));
            let s = String::from_utf8(source).unwrap();
            assert!(s.starts_with("        bits 64\n        section .data\n"));
            assert!(s.contains("bfmain:"));
            assert!(s.contains("        inc  qword [r12]           ; *ptr += 1;\n"));
            assert!(s.contains("add  qword  r12 ,        8 ;     ptr  += 1;\n"));
            assert!(s.ends_with("        pop  r12\n        mov  rsp, rbp\n        pop  rbp\n        ret\n"));
        }
        Generated::Plain { .. } => panic!("expected assembly"),
    }
}

#[test]
fn asm_backend_constant_output_is_plain_c() {
    let code = Brainfuck::<i32>::from_str("++++++++[>++++++++<-]>+.").unwrap();
    let (opt, _) = code.optimize(&Options::all());
    match brainfuck::codegen::linux_x86_64::generate(&opt) {
        Generated::Plain { c } => {
            assert_eq!(
                String::from_utf8(c).unwrap(),
                "#include <stdio.h>\n\nint main() {\n    fwrite(\"A\", 1, 1, stdout);\n    fflush(stdout);\n\n    return 0;\n}\n"
            );
        }
        Generated::Assembly { .. } => panic!("expected plain C"),
    }
}

#[test]
fn page_size_grows_with_reach() {
    let src = format!("{}+.", ">".repeat(2000));
    let code = Brainfuck::<i32>::from_str(&src).unwrap();
    let (opt, _) = code.optimize(&{
        let mut o = Options::none();
        o.fold = true;
        o
    });
    let out = String::from_utf8(brainfuck::codegen::c::generate(&opt)).unwrap();
    assert!(out.contains("#define PAGESIZE 8192\n"));
}

#[test]
fn asm_backend_guarded_copy_and_strings() {
    let mut o = Options::none();
    o.fold = true;
    o.add_to = true;
    let code = Brainfuck::<i32>::from_str(",[-<+>]").unwrap();
    let (opt, _) = code.optimize(&o);
    match brainfuck::codegen::linux_x86_64::generate(&opt) {
        Generated::Assembly { source, .. } => {
            let s = String::from_utf8(source).unwrap();
            assert!(s.contains(
                "        cmp  dword [r12],        0\n        je   end1\n        mov         eax , [r12]\n        sub  qword r12, 4\n        add  dword [r12], eax      ; ptr[-1] += *ptr;\n        add  qword r12, 4\nend1:\n"
            ));
        }
        Generated::Plain { .. } => panic!("expected assembly"),
    }
    let mut code = Brainfuck::<i32>::new();
    code.push_read();
    code.push_write_str(vec![b'o', b'k']);
    code.push_write_str(vec![b'o', b'k']);
    match brainfuck::codegen::linux_x86_64::generate(&code) {
        Generated::Assembly { source, .. } => {
            let s = String::from_utf8(source).unwrap();
            assert!(s.contains("msg0:   db \"ok\"\n"));
            assert!(!s.contains("msg1:"));
            assert_eq!(s.matches("fwrite(msg0, 2, 1, stdout);").count(), 2);
        }
        Generated::Plain { .. } => panic!("expected assembly"),
    }
}
