//! The C back-end: one C file with the tape runtime built in.
use vstd::prelude::*;
use crate::codegen::generate_c_write_str::{c_write_str, generate_c_write_str};
use crate::codegen::memory::{pagesize, scan_memory, uses_mem};
use crate::instruct::{Instruct, Op, depth, lemma_depth_bound, lemma_depth_step, lemma_depth_zero, lemma_wf_facts};
use crate::integer::{BrainfuckInteger, bytes_of, c_type_of};
use crate::program::Brainfuck;
use crate::text::{decimal, indent, push_decimal, push_str, repeat, text};

verus! {

/// The start of a program that uses the tape, up to the page size.
pub const C_HEAD: &'static str = r##"#define _GNU_SOURCE

#include <stdio.h>
#include <stdlib.h>
#include <sys/mman.h>
#include <inttypes.h>
#include <signal.h>
#include <string.h>

#define PAGESIZE "##;

/// Between the page size and the first mention of the cell type.
pub const C_CELL1: &'static str = r##"

volatile "##;

/// Between the two mentions of the cell type.
pub const C_CELL2: &'static str = r##"* mem = NULL;
volatile size_t mem_size = 0;
volatile "##;

/// After the second mention of the cell type.
pub const C_CELL3: &'static str = r##"* ptr = NULL;
"##;

/// The guard-page handler and the start of `main`.
pub const C_RUNTIME: &'static str = r##"
void memmng(int signum) {
    (void)signum;

    if (!(((void*)ptr >= (void*)mem && (void*)ptr < (void*)mem + PAGESIZE) || ((void*)ptr >= (void*)mem + (mem_size - PAGESIZE) && (void*)ptr < (void*)mem + mem_size))) {
        // Some other segmantation fault! This is a compiler error!
        fprintf(stderr,
            "unhandeled segmantation fault: pagesize = %zu, ptr = 0x%zX (offset %zu), mem = 0x%zX ... 0x%zX (size %zu)\n",
            (size_t)PAGESIZE,
            (uintptr_t)(void*)ptr, (uintptr_t)((void*)ptr - (void*)mem),
            (uintptr_t)(void*)mem, (uintptr_t)((void*)mem + mem_size), mem_size);
        fflush(stderr);
        abort();
    }

    if (SIZE_MAX - PAGESIZE < mem_size) {
        fprintf(stderr, "out of address space\n");
        fflush(stderr);
        abort();
    }

    size_t new_size = mem_size + PAGESIZE;
    if (mprotect((void*)mem + (mem_size - PAGESIZE), PAGESIZE, PROT_READ | PROT_WRITE) != 0) {
        perror("release guard page protection");
        abort();
    }

    void *new_mem = mremap((void*)mem, mem_size, new_size, MREMAP_MAYMOVE);
    if (new_mem == MAP_FAILED) {
        perror("mremap");
        abort();
    }

    if (new_mem != (void*)mem) {
        // memory was moved. not sure if I need to re-protect?
        if (mprotect((void*)new_mem, PAGESIZE, PROT_NONE) != 0) {
            perror("mprotect guard before");
            abort();
        }
    }

    if (mprotect(new_mem + (new_size - PAGESIZE), PAGESIZE, PROT_NONE) != 0) {
        perror("mprotect guard after");
        abort();
    }

    if (ptr < mem) {
        // memory underflow, move everything to the right
        memmove(new_mem + PAGESIZE * 2, (void*)mem + PAGESIZE, mem_size - PAGESIZE * 2);
        ptr = (void*)ptr + PAGESIZE;
    }

    mem = new_mem;
    mem_size = new_size;
}

struct sigaction segv_action;

int main() {
    memset(&segv_action, 0, sizeof(struct sigaction));

    segv_action.sa_handler = memmng;
    if (sigaction(SIGSEGV, &segv_action, NULL) == -1) {
        perror("sigaction");
        return EXIT_FAILURE;
    }

    mem_size = PAGESIZE * 3;
    mem = mmap(NULL, mem_size, PROT_READ | PROT_WRITE, MAP_PRIVATE | MAP_ANONYMOUS, -1, 0);
    if (mem == MAP_FAILED) {
        perror("mmap");
        return EXIT_FAILURE;
    }

    if (mprotect((void*)mem, PAGESIZE, PROT_NONE) != 0) {
        perror("mprotect guard before");
        return EXIT_FAILURE;
    }

    if (mprotect((void*)mem + (mem_size - PAGESIZE), PAGESIZE, PROT_NONE) != 0) {
        perror("mprotect guard after");
        return EXIT_FAILURE;
    }

    ptr = (void*)mem + PAGESIZE;

"##;

/// The start of a program that only writes constant output.
pub const C_PLAIN_HEAD: &'static str = "#include <stdio.h>\n\nint main() {\n";

/// The end of every program.
pub const C_END: &'static str = "\n    return 0;\n}";

/// The C statement of instruction `o` at nesting level `k`.
pub open spec fn c_line(o: Op, k: int) -> Seq<u8> {
    let ind = repeat(text("    "), k as nat);
    match o {
        Op::Move(off) => ind + text("ptr += ") + decimal(off) + text(";\n"),
        Op::Add(v) => ind + text("*ptr += ") + decimal(v) + text(";\n"),
        Op::SetValue(v) => ind + text("*ptr = ") + decimal(v) + text(";\n"),
        Op::AddTo(off) => ind + text("ptr[") + decimal(off) + text("] += *ptr;\n"),
        Op::SubFrom(off) => ind + text("ptr[") + decimal(off) + text("] -= *ptr;\n"),
        Op::Read => ind + text("*ptr = getchar();\n"),
        Op::Write => ind + text("putchar(*ptr);\n"),
        Op::LoopStart(_) => ind + text("while (*ptr) {\n"),
        Op::LoopEnd(_) => repeat(text("    "), (k - 1) as nat) + text("}\n"),
        Op::WriteStr(data) => c_write_str(data, k as nat),
    }
}

/// The statements of the first `n` instructions, each at its loop depth.
pub open spec fn c_body(s: Seq<Op>, n: int) -> Seq<u8>
    decreases n,
{
    if n <= 0 {
        Seq::empty()
    } else {
        c_body(s, n - 1) + c_line(s[n - 1], depth(s, n - 1) + 1)
    }
}

/// The output statements of the first `n` instructions.
pub open spec fn c_str_body(s: Seq<Op>, n: int) -> Seq<u8>
    decreases n,
{
    if n <= 0 {
        Seq::empty()
    } else {
        c_str_body(s, n - 1) + match s[n - 1] {
            Op::WriteStr(data) => c_write_str(data, 1),
            _ => Seq::empty(),
        }
    }
}

/// The C program for `s` with cells of `m` distinct values.
pub open spec fn c_program(s: Seq<Op>, m: int) -> Seq<u8> {
    if uses_mem(s) {
        text(C_HEAD) + decimal(pagesize(s, bytes_of(m))) + text(C_CELL1) + text(c_type_of(m)) + text(C_CELL2) + text(c_type_of(m)) + text(C_CELL3) + text(
            C_RUNTIME,
        ) + c_body(s, s.len() as int) + text(C_END)
    } else {
        text(C_PLAIN_HEAD) + c_str_body(s, s.len() as int) + text(C_END)
    }
}

/// Appends the statement of one instruction.
fn generate_line<Int: BrainfuckInteger>(out: &mut Vec<u8>, instr: &Instruct<Int>, nesting: usize)
    requires
        1 <= nesting < usize::MAX - 2,
        instr@ is LoopEnd ==> nesting >= 2,
    ensures
        final(out)@ == old(out)@ + c_line(instr@, nesting as int),
{
    match instr {
        Instruct::LoopEnd(_) => {
            indent(out, nesting - 1);
            push_str(out, "}\n");
        },
        Instruct::WriteStr(data) => {
            generate_c_write_str(out, data.as_slice(), nesting);
        },
        _ => {
            indent(out, nesting);
            match instr {
                Instruct::Move(off) => {
                    push_str(out, "ptr += ");
                    push_decimal(out, *off as i128);
                    push_str(out, ";\n");
                },
                Instruct::Add(v) => {
                    push_str(out, "*ptr += ");
                    push_decimal(out, v.i64() as i128);
                    push_str(out, ";\n");
                },
                Instruct::SetValue(v) => {
                    push_str(out, "*ptr = ");
                    push_decimal(out, v.i64() as i128);
                    push_str(out, ";\n");
                },
                Instruct::AddTo(off) => {
                    push_str(out, "ptr[");
                    push_decimal(out, *off as i128);
                    push_str(out, "] += *ptr;\n");
                },
                Instruct::SubFrom(off) => {
                    push_str(out, "ptr[");
                    push_decimal(out, *off as i128);
                    push_str(out, "] -= *ptr;\n");
                },
                Instruct::Read => {
                    push_str(out, "*ptr = getchar();\n");
                },
                Instruct::Write => {
                    push_str(out, "putchar(*ptr);\n");
                },
                _ => {
                    push_str(out, "while (*ptr) {\n");
                },
            }
        },
    }
    proof {
        assert(out@ =~= old(out)@ + c_line(instr@, nesting as int));
    }
}

/// The C source file for `code` (see `c_program`).
pub fn generate<Int: BrainfuckInteger>(code: &Brainfuck<Int>) -> (r: Vec<u8>)
    requires
        code.complete(),
        code@.len() < 0x0800_0000_0000_0000,
        code@.len() + 3 < usize::MAX,
    ensures
        r@ == c_program(code@, Int::modulus()),
{
    let (uses, page) = scan_memory(code);
    let n = code.len();
    let mut out: Vec<u8> = Vec::new();
    proof {
        code.lemma_complete();
        lemma_wf_facts(code@);
        lemma_depth_zero(code@);
    }
    if uses {
        let ctype = Int::c_type();
        push_str(&mut out, C_HEAD);
        push_decimal(&mut out, page as i128);
        push_str(&mut out, C_CELL1);
        push_str(&mut out, ctype);
        push_str(&mut out, C_CELL2);
        push_str(&mut out, ctype);
        push_str(&mut out, C_CELL3);
        push_str(&mut out, C_RUNTIME);
        let ghost head = out@;
        let mut nesting: usize = 1;
        let mut i: usize = 0;
        while i < n
            invariant
                code.complete(),
                n == code@.len(),
                n + 3 < usize::MAX,
                i <= n,
                nesting == depth(code@, i as int) + 1,
                forall|k: int| 0 <= k <= n ==> depth(code@, k) >= 0,
                forall|j: int| 0 <= j < n && (#[trigger] code@[j]) is LoopEnd ==> depth(code@, j) >= 1,
                out@ == head + c_body(code@, i as int),
            decreases n - i,
        {
            proof {
                lemma_depth_step(code@, i as int);
                lemma_depth_bound(code@, i as int);
            }
            let instr = code.get(i).unwrap();
            generate_line(&mut out, instr, nesting);
            match instr {
                Instruct::LoopStart(_) => {
                    nesting += 1;
                },
                Instruct::LoopEnd(_) => {
                    nesting -= 1;
                },
                _ => {},
            }
            i += 1;
        }
        push_str(&mut out, C_END);
        proof {
            assert(out@ =~= c_program(code@, Int::modulus()));
        }
    } else {
        push_str(&mut out, C_PLAIN_HEAD);
        let ghost head = out@;
        let mut i: usize = 0;
        while i < n
            invariant
                n == code@.len(),
                i <= n,
                out@ == head + c_str_body(code@, i as int),
            decreases n - i,
        {
            match code.get(i) {
                Some(Instruct::WriteStr(data)) => {
                    generate_c_write_str(&mut out, data.as_slice(), 1);
                },
                _ => {},
            }
            i += 1;
            proof {
                assert(out@ =~= head + c_str_body(code@, i as int));
            }
        }
        push_str(&mut out, C_END);
        proof {
            assert(out@ =~= c_program(code@, Int::modulus()));
        }
    }
    out
}

} // verus!
