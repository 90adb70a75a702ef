//! The assembly back-end for Linux on x86-64: a NASM file with the program
//! as procedure `bfmain`, and the C runtime that provides the tape.
use vstd::prelude::*;
use crate::codegen::generate_asm_str::generate_asm_str;
use crate::codegen::generate_c_runtime::{c_runtime, generate_c_runtime};
use crate::codegen::generate_c_write_str::{c_write_str, generate_c_write_str};
use crate::codegen::memory::{pagesize, scan_memory, uses_mem};
use crate::instruct::{Instruct, Op, depth, loop_closed, lemma_depth_bound, lemma_depth_step, lemma_depth_zero, lemma_wf_facts};
use crate::integer::{BrainfuckInteger, bytes_of, c_type_of};
use crate::program::Brainfuck;
use crate::text::{decimal, push_bytes, push_decimal, push_left, push_right_decimal, push_spaces, push_str, repeat, text};

verus! {

/// The files that the assembly back-end produces.
#[derive(Debug, PartialEq, Eq)]
pub enum Generated {
    /// A program that uses the tape: the C runtime and the NASM source.
    Assembly { runtime: Vec<u8>, source: Vec<u8> },
    /// A program that only writes constant output: one C file.
    Plain { c: Vec<u8> },
}

/// The start of the NASM source.
pub const ASM_DATA: &'static str = "        bits 64\n        section .data\n";

/// The start of a C file for a program that only writes constant output.
pub const PLAIN_HEAD: &'static str = "#include <stdio.h>\n\nint main() {\n";

/// The output statements of the first `n` instructions, each at nesting 1.
pub open spec fn plain_body(s: Seq<Op>, n: int) -> Seq<u8>
    decreases n,
{
    if n <= 0 {
        Seq::empty()
    } else {
        plain_body(s, n - 1) + match s[n - 1] {
            Op::WriteStr(data) => c_write_str(data, 1),
            _ => Seq::empty(),
        }
    }
}

/// Does the last non-empty `WriteStr` among the first `n` instructions end
/// in a byte other than a newline?
pub open spec fn plain_needs_flush(s: Seq<Op>, n: int) -> bool
    decreases n,
{
    if n <= 0 {
        false
    } else {
        match s[n - 1] {
            Op::WriteStr(data) => if data.len() > 0 {
                data.last() != '\n' as u8
            } else {
                plain_needs_flush(s, n - 1)
            },
            _ => plain_needs_flush(s, n - 1),
        }
    }
}

/// The C file for a program that only writes constant output.
pub open spec fn plain_program(s: Seq<Op>) -> Seq<u8> {
    text(PLAIN_HEAD) + plain_body(s, s.len() as int) + (if plain_needs_flush(s, s.len() as int) {
        text("    fflush(stdout);\n")
    } else {
        Seq::empty()
    }) + text("\n    return 0;\n}\n")
}

/// `n` spaces.
pub open spec fn spaces(n: int) -> Seq<u8> {
    repeat(seq![' ' as u8], n as nat)
}

/// Appends `n` spaces of comment indentation.
pub(crate) fn nest(out: &mut Vec<u8>, n: usize)
    ensures
        final(out)@ == old(out)@ + spaces(n as int),
{
    push_spaces(out, n);
}

/// The instruction that moves `r12` by `off` bytes.
#[verifier::opaque]
pub open spec fn move_text(off: int) -> Seq<u8> {
    if off == 1 {
        text("        inc  qword r12\n")
    } else if off == -1 {
        text("        dec  qword r12\n")
    } else if off < 0 {
        text("        sub  qword r12, ") + decimal(-off) + text("\n")
    } else if off > 0 {
        text("        add  qword r12, ") + decimal(off) + text("\n")
    } else {
        Seq::empty()
    }
}

/// `x * size`, for an offset and a cell width.
pub(crate) fn scale(x: i128, size: i128) -> (r: i128)
    requires
        -0x4_0000_0000_0000_0000 <= x <= 0x4_0000_0000_0000_0000,
        1 <= size <= 8,
    ensures
        r == x * size,
        -0x20_0000_0000_0000_0000 <= r <= 0x20_0000_0000_0000_0000,
{
    proof {
        assert(-0x20_0000_0000_0000_0000 <= x * size <= 0x20_0000_0000_0000_0000) by (nonlinear_arith)
            requires
                -0x4_0000_0000_0000_0000 <= x <= 0x4_0000_0000_0000_0000,
                1 <= size <= 8,
        ;
    }
    x * size
}

/// Appends an instruction that moves `r12` by `off` bytes.
pub(crate) fn generate_move(text_out: &mut Vec<u8>, off: i128)
    requires
        off > i128::MIN,
    ensures
        final(text_out)@ == old(text_out)@ + move_text(off as int),
{
    proof {
        reveal(move_text);
    }
    if off == 1 {
        push_str(text_out, "        inc  qword r12\n");
    } else if off == -1 {
        push_str(text_out, "        dec  qword r12\n");
    } else if off < 0 {
        push_str(text_out, "        sub  qword r12, ");
        push_decimal(text_out, -off);
        push_str(text_out, "\n");
    } else if off > 0 {
        push_str(text_out, "        add  qword r12, ");
        push_decimal(text_out, off);
        push_str(text_out, "\n");
    }
    proof {
        assert(text_out@ =~= old(text_out)@ + move_text(off as int));
    }
}

/// Appends `name` followed by the decimal number `id`.
pub(crate) fn push_label(out: &mut Vec<u8>, name: &str, id: usize)
    ensures
        final(out)@ == old(out)@ + text(name) + decimal(id as int),
{
    push_str(out, name);
    push_decimal(out, id as i128);
    proof {
        assert(out@ =~= old(out)@ + text(name) + decimal(id as int));
    }
}

/// The operand size keyword, padded to five columns, for cells of `size` bytes.
pub open spec fn operand_of(size: int) -> &'static str {
    if size == 1 {
        "byte "
    } else if size == 2 {
        "word "
    } else if size == 4 {
        "dword"
    } else {
        "qword"
    }
}

/// The accumulator register for cells of `size` bytes.
pub open spec fn register_of(size: int) -> &'static str {
    if size == 1 {
        "al"
    } else if size == 2 {
        "ax"
    } else if size == 4 {
        "eax"
    } else {
        "rax"
    }
}

/// The code of a `WriteStr` of `data`, whose entry in the string table is `id`.
#[verifier::opaque]
pub open spec fn write_str_text(data: Seq<u8>, id: int, nesting: int) -> Seq<u8> {
    if data.len() == 1 {
        text("        mov  edi, ") + decimal(data[0] as int) + text("\n        call putchar               ; ")
            + spaces(nesting) + text("putchar(") + decimal(data[0] as int) + text(")\n")
    } else if data.len() > 0 {
        text("        mov  rcx, [rel stdout]\n        mov  edx, 1\n        mov  esi, ") + decimal(
            data.len() as int,
        ) + text("\n        mov  edi, msg") + decimal(id) + text("\n        call fwrite                ; ")
            + spaces(nesting) + text("fwrite(msg") + decimal(id) + text(", ") + decimal(data.len() as int)
            + text(", 1, stdout);\n")
    } else {
        Seq::empty()
    }
}

/// The byte size, the operand size keyword and the accumulator register of a cell.
pub(crate) fn cell_info<Int: BrainfuckInteger>() -> (r: (i128, &'static str, &'static str))
    ensures
        1 <= r.0 <= 8,
        r.0 == bytes_of(Int::modulus()),
        r.1 == operand_of(r.0 as int),
        r.2 == register_of(r.0 as int),
{
    let z = Int::zero();
    proof {
        z.lemma_value();
    }
    let size = Int::size();
    if size == 1 {
        (1, "byte ", "al")
    } else if size == 2 {
        (2, "word ", "ax")
    } else if size == 4 {
        (4, "dword", "eax")
    } else {
        (8, "qword", "rax")
    }
}

/// Appends the code of a `WriteStr` whose bytes are `data`; a longer string
/// is written from its entry `msg_id` in the data section.
pub(crate) fn generate_write_str(text_out: &mut Vec<u8>, data: &Vec<u8>, msg_id: usize, nesting: usize)
    ensures
        final(text_out)@ == old(text_out)@ + write_str_text(data@, msg_id as int, nesting as int),
{
    proof {
        reveal(write_str_text);
    }
    let ghost o = old(text_out)@;
    if data.len() == 1 {
        push_str(text_out, "        mov  edi, ");
        push_decimal(text_out, data[0] as i128);
        push_str(text_out, "\n        call putchar               ; ");
        nest(text_out, nesting);
        push_str(text_out, "putchar(");
        push_decimal(text_out, data[0] as i128);
        push_str(text_out, ")\n");
        proof {
            assert(text_out@ =~= o + write_str_text(data@, msg_id as int, nesting as int));
        }
    } else if data.len() > 0 {
        push_str(text_out, "        mov  rcx, [rel stdout]\n        mov  edx, 1\n        mov  esi, ");
        push_decimal(text_out, data.len() as i128);
        push_label(text_out, "\n        mov  edi, msg", msg_id);
        push_str(text_out, "\n        call fwrite                ; ");
        nest(text_out, nesting);
        push_label(text_out, "fwrite(msg", msg_id);
        push_str(text_out, ", ");
        push_decimal(text_out, data.len() as i128);
        push_str(text_out, ", 1, stdout);\n");
        proof {
            assert(text_out@ =~= o + write_str_text(data@, msg_id as int, nesting as int));
        }
    } else {
        proof {
            assert(text_out@ =~= o + write_str_text(data@, msg_id as int, nesting as int));
        }
    }
}

/// Generates the files for `code`: for a program that uses the tape, the C
/// runtime for its page size and cell type, and the NASM source; for one that
/// only writes constant output, a C file that writes it.
pub fn generate<Int: BrainfuckInteger>(code: &Brainfuck<Int>) -> (r: Generated)
    requires
        code.complete(),
        code@.len() < 0x0800_0000_0000_0000,
        code@.len() + 3 < usize::MAX,
    ensures
        uses_mem(code@) ==> r is Assembly,
        !uses_mem(code@) ==> r == (Generated::Plain { c: r->c }) && r->c@ == plain_program(code@),
        r is Assembly ==> r->runtime@ == c_runtime(
            text(c_type_of(Int::modulus())),
            pagesize(code@, bytes_of(Int::modulus())),
        ) && r->source@ == crate::codegen::nasm::asm_program(
            code@,
            Int::modulus(),
            pagesize(code@, bytes_of(Int::modulus())),
        ),
{
    let (uses, page) = scan_memory(code);
    if uses {
        let mut runtime: Vec<u8> = Vec::new();
        generate_c_runtime(&mut runtime, Int::c_type(), page);
        let text_out = crate::codegen::nasm::generate_asm(code, page);
        Generated::Assembly { runtime, source: text_out }
    } else {
        let n = code.len();
        let mut out: Vec<u8> = Vec::new();
        push_str(&mut out, PLAIN_HEAD);
        let ghost head = out@;
        let mut need_flush = false;
        let mut i: usize = 0;
        while i < n
            invariant
                n == code@.len(),
                i <= n,
                out@ == head + plain_body(code@, i as int),
                need_flush == plain_needs_flush(code@, i as int),
            decreases n - i,
        {
            match code.get(i) {
                Some(Instruct::WriteStr(data)) => {
                    if data.len() > 0 {
                        generate_c_write_str(&mut out, data.as_slice(), 1);
                        need_flush = data[data.len() - 1] != 10u8;
                    }
                },
                _ => {},
            }
            i += 1;
            proof {
                assert(out@ =~= head + plain_body(code@, i as int));
            }
        }
        if need_flush {
            push_str(&mut out, "    fflush(stdout);\n");
        }
        push_str(&mut out, "\n    return 0;\n}\n");
        proof {
            assert(out@ =~= plain_program(code@));
        }
        Generated::Plain { c: out }
    }
}

} // verus!
