//! The NASM source of the assembly back-end: the string table, the entry of
//! `bfmain`, and the code of each instruction.
use vstd::prelude::*;
use crate::codegen::copy_group::{generate_add_to_group, group_text, left, right};
use crate::codegen::generate_asm_str::{asm_str, generate_asm_str};
use crate::codegen::linux_x86_64::{
    ASM_DATA, cell_info, generate_write_str, nest, operand_of, push_label, register_of, scale, spaces,
    write_str_text,
};
use crate::instruct::{Instruct, Op, depth, loop_closed, lemma_depth_step, lemma_depth_zero, lemma_wf_facts, wf};
use crate::integer::{BrainfuckInteger, bytes_of, c_type_of};
use crate::program::{Brainfuck, set_before};
use crate::text::{decimal, push_bytes, push_decimal, push_left, push_right_decimal, push_str, text};

verus! {

/// The start of the text section, up to the page offset of `bfmain`.
pub const TEXT_HEAD: &'static str = "        section .text\n        extern stdout\n        extern fwrite\n        extern putchar\n        extern getchar\n        extern fflush\n        extern mem\n        global bfmain\nbfmain:\n        push rbp\n        mov  rbp, rsp\n        push r12\n        mov  qword  r12 , [rel mem]\n        add  qword  r12 , ";

/// The end of `bfmain`.
pub const EPILOGUE: &'static str = "        pop  r12\n        mov  rsp, rbp\n        pop  rbp\n        ret\n";

/// The first index of `d` in `t`.
pub open spec fn index_of(t: Seq<Seq<u8>>, d: Seq<u8>) -> Option<int>
    decreases t.len(),
{
    if t.len() == 0 {
        None
    } else {
        match index_of(t.drop_last(), d) {
            Some(k) => Some(k),
            None => if t.last() == d {
                Some(t.len() - 1)
            } else {
                None
            },
        }
    }
}

/// The distinct strings longer than one byte of the `WriteStr`s among the
/// first `n` instructions, in order of first appearance.
pub open spec fn str_table(s: Seq<Op>, n: int) -> Seq<Seq<u8>>
    decreases n,
{
    if n <= 0 || n > s.len() {
        Seq::empty()
    } else {
        let t = str_table(s, n - 1);
        match s[n - 1] {
            Op::WriteStr(d) => if d.len() > 1 && index_of(t, d) is None {
                t.push(d)
            } else {
                t
            },
            _ => t,
        }
    }
}

/// The label of entry `k` of the string table.
pub open spec fn msg_name(k: int) -> Seq<u8> {
    text("msg") + decimal(k)
}

/// The data section entries for the first `k` strings of `t`.
pub open spec fn data_text(t: Seq<Seq<u8>>, k: int) -> Seq<u8>
    decreases k,
{
    if k <= 0 || k > t.len() {
        Seq::empty()
    } else {
        data_text(t, k - 1) + (if msg_name(k - 1).len() < 64 {
            asm_str(msg_name(k - 1), t[k - 1])
        } else {
            Seq::empty()
        })
    }
}

/// A move line with its comment: `op`, the operand, the comment `what`
/// followed by `arg`.
#[verifier::opaque]
pub open spec fn move_line(op: &str, operand: Seq<u8>, n: int, what: &str, arg: Seq<u8>) -> Seq<u8> {
    text(op) + operand + text(" ; ") + spaces(n) + text(what) + arg + text(";\n")
}

/// The code of a move by `off` cells of `size` bytes, commented at `n`.
#[verifier::opaque]
pub open spec fn move_instr_text(off: int, size: int, n: int) -> Seq<u8> {
    if size == 1 && off == 1 {
        move_line("        inc  qword  r12           ", Seq::empty(), n, "ptr ++", Seq::empty())
    } else if size == 1 && off == -1 {
        move_line("        dec  qword  r12           ", Seq::empty(), n, "ptr --", Seq::empty())
    } else if off > 0 {
        move_line("        add  qword  r12 , ", right(off * size, 8), n, "ptr  += ", decimal(off))
    } else if off != 0 {
        move_line("        sub  qword  r12 , ", right(-off * size, 8), n, "ptr  -= ", decimal(-off))
    } else {
        Seq::empty()
    }
}

/// The code of an addition of `v` to the current cell.
#[verifier::opaque]
pub open spec fn add_text(v: int, prefix: &str, n: int) -> Seq<u8> {
    if v == 1 {
        move_line("        inc  ", text(prefix) + text(" [r12]          "), n, "*ptr += 1", Seq::empty())
    } else if v == -1 {
        move_line("        dec  ", text(prefix) + text(" [r12]          "), n, "*ptr -= 1", Seq::empty())
    } else if v > 0 {
        move_line("        add  ", text(prefix) + text(" [r12], ") + right(v, 8), n, "*ptr += ", decimal(v))
    } else if v != 0 {
        move_line("        sub  ", text(prefix) + text(" [r12], ") + right(-v, 8), n, "*ptr -= ", decimal(-v))
    } else {
        Seq::empty()
    }
}

/// The code of an assignment of `v`.
#[verifier::opaque]
pub open spec fn set_text(v: int, prefix: &str, n: int) -> Seq<u8> {
    text("        mov  ") + text(prefix) + text(" [r12], ") + right(v, 8) + text(" ; ") + spaces(n) + text(
        "*ptr  = ",
    ) + decimal(v) + text(";\n")
}

/// The code of a read: flush the output, then read a byte.
#[verifier::opaque]
pub open spec fn read_text(prefix: &str, reg: &str, n: int) -> Seq<u8> {
    text("        mov  rdi, [rel stdout]\n        call fflush                ; ") + spaces(n) + text(
        "fflush(stdout);\n        call getchar\n        mov  ",
    ) + text(prefix) + text(" [r12], ") + left(text(reg), 7) + text("      ; ") + spaces(n) + text(
        "*ptr = getchar();\n",
    )
}

/// The code of a write.
#[verifier::opaque]
pub open spec fn write_text(n: int) -> Seq<u8> {
    text("        mov  edi,  [r12]\n        call putchar               ; ") + spaces(n) + text(
        "putchar(*ptr)\n",
    )
}

/// The start of loop `c` whose cell is known not to be zero: no test.
#[verifier::opaque]
pub open spec fn do_text(c: int, n: int) -> Seq<u8> {
    text("start") + decimal(c) + text(":                           ; ") + spaces(n) + text("do {\n")
}

/// The start of loop `c` with its test; shown as `if` where its body ends
/// by clearing the cell.
#[verifier::opaque]
pub open spec fn while_text(prefix: &str, c: int, n: int, is_if: bool) -> Seq<u8> {
    text("        cmp  ") + text(prefix) + text(" [r12],        0 ; ") + spaces(n) + (if is_if {
        text("if (*ptr) {\n")
    } else {
        text("while (*ptr) {\n")
    }) + text("        je   end") + decimal(c) + text("\nstart") + decimal(c) + text(":\n")
}

/// The comment that closes a loop.
pub open spec fn close_stmt(do_while: bool) -> &'static str {
    if do_while {
        "} while (*ptr);"
    } else {
        "}"
    }
}

/// The jump at the end of loop `id`: none where the cell is known to be
/// zero, an unconditional one where it is known not to be, else a test.
#[verifier::opaque]
pub open spec fn end_jump(known: Option<int>, prefix: &str, id: int, n: int, stmt: &str) -> Seq<u8> {
    match known {
        Some(v) => if v == 0 {
            text("                                   ; ") + spaces(n) + text(stmt) + text("\n")
        } else {
            text("        jmp  ") + left(text("start") + decimal(id), 7) + text(" ; ") + spaces(n) + text(stmt)
                + text("\n")
        },
        None => text("        cmp  ") + text(prefix) + text(" [r12],        0 ; ") + spaces(n) + text(stmt)
            + text("\n        jne  start") + decimal(id) + text("\n"),
    }
}

/// The end of loop `id`: its jump back and its label.
pub open spec fn end_text(known: Option<int>, prefix: &str, id: int, n: int, stmt: &str) -> Seq<u8> {
    end_jump(known, prefix, id, n, stmt) + text("end") + decimal(id) + text(":\n")
}

/// The state of the generation of the body: the next instruction, the
/// number of loops and copy groups so far, the numbers of the open loops,
/// the comment indentation, and the code so far.
pub struct AsmGen {
    pub pc: int,
    pub count: int,
    pub ids: Seq<int>,
    pub nest: int,
    pub text: Seq<u8>,
}

/// The indentation inside one more loop.
pub open spec fn deeper(n: int) -> int {
    if n < usize::MAX - 4 {
        n + 4
    } else {
        n
    }
}

/// The indentation after a loop.
pub open spec fn shallower(n: int) -> int {
    if n >= 4 {
        n - 4
    } else {
        n
    }
}

/// Is the instruction before the end of the loop that ends at `e` `SetValue(0)`?
pub open spec fn ends_clearing(s: Seq<Op>, e: int) -> bool {
    0 <= e - 2 < s.len() && s[e - 2] == Op::SetValue(0)
}

/// The message number of a `WriteStr` of `d`.
pub open spec fn msg_id(t: Seq<Seq<u8>>, d: Seq<u8>) -> int {
    match index_of(t, d) {
        Some(k) => k,
        None => 0,
    }
}

/// One step of the generation of the body of `s` for cells of `m` values.
pub open spec fn asm_step(s: Seq<Op>, m: int, t: Seq<Seq<u8>>, g: AsmGen) -> AsmGen {
    let size = bytes_of(m);
    let prefix = operand_of(size);
    let reg = register_of(size);
    let p = g.pc;
    let n = g.nest;
    match s[p] {
        Op::Move(off) => AsmGen { pc: p + 1, text: g.text + move_instr_text(off, size, n), ..g },
        Op::Add(v) => AsmGen { pc: p + 1, text: g.text + add_text(v, prefix, n), ..g },
        Op::SetValue(v) => AsmGen { pc: p + 1, text: g.text + set_text(v, prefix, n), ..g },
        Op::AddTo(_) => {
            let (c, e) = group_text(s, m, p, g.count + 1, n);
            AsmGen { pc: e, count: g.count + 1, text: g.text + c, ..g }
        },
        Op::SubFrom(_) => {
            let (c, e) = group_text(s, m, p, g.count + 1, n);
            AsmGen { pc: e, count: g.count + 1, text: g.text + c, ..g }
        },
        Op::Read => AsmGen { pc: p + 1, text: g.text + read_text(prefix, reg, n), ..g },
        Op::Write => AsmGen { pc: p + 1, text: g.text + write_text(n), ..g },
        Op::LoopStart(e) => {
            let c = g.count + 1;
            match set_before(s, p, 0) {
                Some(v) => if v == 0 {
                    AsmGen { pc: e, count: c, ..g }
                } else {
                    AsmGen {
                        pc: p + 1,
                        count: c,
                        ids: g.ids.push(c),
                        nest: deeper(n),
                        text: g.text + do_text(c, n),
                    }
                },
                None => AsmGen {
                    pc: p + 1,
                    count: c,
                    ids: g.ids.push(c),
                    nest: deeper(n),
                    text: g.text + while_text(prefix, c, n, ends_clearing(s, e)),
                },
            }
        },
        Op::LoopEnd(st) => {
            let n2 = shallower(n);
            let stmt = close_stmt(set_before(s, st, 0) is Some);
            AsmGen {
                pc: p + 1,
                ids: g.ids.drop_last(),
                nest: n2,
                text: g.text + end_text(set_before(s, p, 0), prefix, g.ids.last(), n2, stmt),
                ..g
            }
        },
        Op::WriteStr(d) => AsmGen { pc: p + 1, text: g.text + write_str_text(d, msg_id(t, d), n), ..g },
    }
}

/// The generation of the body from state `g` to the end.
pub open spec fn asm_run(s: Seq<Op>, m: int, t: Seq<Seq<u8>>, g: AsmGen) -> AsmGen
    decreases s.len() - g.pc,
{
    if g.pc < 0 || g.pc >= s.len() {
        g
    } else {
        let g2 = asm_step(s, m, t, g);
        if g.pc < g2.pc <= s.len() {
            asm_run(s, m, t, g2)
        } else {
            g2
        }
    }
}

/// The NASM source for `s`, with cells of `m` values and pages of `page` bytes.
pub open spec fn asm_program(s: Seq<Op>, m: int, page: int) -> Seq<u8> {
    let t = str_table(s, s.len() as int);
    let start = AsmGen { pc: 0, count: 0, ids: Seq::empty(), nest: 0, text: Seq::empty() };
    text(ASM_DATA) + data_text(t, t.len() as int) + text(TEXT_HEAD) + right(page, 8) + text(" ; ") + text(
        c_type_of(m),
    ) + text("* ptr = (void*)mem + PAGESIZE;\n") + asm_run(s, m, t, start).text + text(EPILOGUE)
}

proof fn lemma_index_of_prefix(t: Seq<Seq<u8>>, d: Seq<u8>, i: int)
    requires
        0 <= i <= t.len(),
        index_of(t.take(i), d) is Some,
    ensures
        index_of(t, d) == index_of(t.take(i), d),
    decreases t.len() - i,
{
    if i < t.len() {
        assert(t.take(i + 1).drop_last() =~= t.take(i));
        lemma_index_of_prefix(t, d, i + 1);
    } else {
        assert(t.take(i) =~= t);
    }
}

/// The view of a table of strings.
pub open spec fn table_view(t: Seq<Vec<u8>>) -> Seq<Seq<u8>> {
    t.map_values(|v: Vec<u8>| v@)
}

/// Whether two byte strings are equal.
fn same_bytes(a: &Vec<u8>, b: &Vec<u8>) -> (r: bool)
    ensures
        r == (a@ == b@),
{
    if a.len() != b.len() {
        return false;
    }
    let mut j: usize = 0;
    while j < a.len()
        invariant
            j <= a@.len(),
            a@.len() == b@.len(),
            a@.take(j as int) == b@.take(j as int),
        decreases a@.len() - j,
    {
        if a[j] != b[j] {
            proof {
                assert(a@[j as int] != b@[j as int]);
            }
            return false;
        }
        j += 1;
        proof {
            assert(a@.take(j as int) =~= a@.take(j - 1).push(a@[j - 1]));
            assert(b@.take(j as int) =~= b@.take(j - 1).push(b@[j - 1]));
        }
    }
    proof {
        assert(a@ =~= a@.take(j as int));
        assert(b@ =~= b@.take(j as int));
    }
    true
}

/// The index of `data` in `table`, if it is there.
fn find_str(table: &Vec<Vec<u8>>, data: &Vec<u8>) -> (r: Option<usize>)
    ensures
        r is Some <==> index_of(table_view(table@), data@) is Some,
        r is Some ==> r->Some_0 as int == index_of(table_view(table@), data@)->Some_0,
{
    let ghost tv = table_view(table@);
    let mut i: usize = 0;
    while i < table.len()
        invariant
            i <= table@.len(),
            tv == table_view(table@),
            index_of(tv.take(i as int), data@) is None,
        decreases table@.len() - i,
    {
        if same_bytes(&table[i], data) {
            proof {
                assert(tv.take(i + 1).drop_last() =~= tv.take(i as int));
                assert(tv.take(i + 1).last() == tv[i as int]);
                lemma_index_of_prefix(tv, data@, i + 1);
            }
            return Some(i);
        }
        i += 1;
        proof {
            assert(tv.take(i as int).drop_last() =~= tv.take(i - 1));
        }
    }
    proof {
        assert(tv.take(i as int) =~= tv);
    }
    None
}

/// The string table of `code`.
fn build_table<Int: BrainfuckInteger>(code: &Brainfuck<Int>) -> (r: Vec<Vec<u8>>)
    ensures
        table_view(r@) == str_table(code@, code@.len() as int),
{
    let n = code.len();
    let mut table: Vec<Vec<u8>> = Vec::new();
    let mut i: usize = 0;
    proof {
        assert(table_view(table@) =~= str_table(code@, 0));
    }
    while i < n
        invariant
            n == code@.len(),
            i <= n,
            table_view(table@) == str_table(code@, i as int),
        decreases n - i,
    {
        let ghost before = table_view(table@);
        match code.get(i) {
            Some(Instruct::WriteStr(data)) => {
                if data.len() > 1 && find_str(&table, data).is_none() {
                    table.push(data.clone());
                    proof {
                        assert(table_view(table@) =~= before.push(data@));
                    }
                }
            },
            _ => {},
        }
        i += 1;
    }
    table
}

/// Appends the data section entries of `table`.
fn emit_data(out: &mut Vec<u8>, table: &Vec<Vec<u8>>)
    ensures
        final(out)@ == old(out)@ + data_text(table_view(table@), table@.len() as int),
{
    let ghost tv = table_view(table@);
    let mut t: usize = 0;
    proof {
        assert(old(out)@ =~= old(out)@ + data_text(tv, 0));
    }
    while t < table.len()
        invariant
            t <= table@.len(),
            tv == table_view(table@),
            out@ == old(out)@ + data_text(tv, t as int),
        decreases table@.len() - t,
    {
        let ghost before = out@;
        let mut name: Vec<u8> = Vec::new();
        push_label(&mut name, "msg", t);
        proof {
            assert(name@ =~= msg_name(t as int));
        }
        if name.len() < 64 {
            generate_asm_str(out, name.as_slice(), table[t].as_slice());
        }
        t += 1;
        proof {
            assert(tv[t - 1] == table@[t - 1]@);
            assert(out@ =~= old(out)@ + data_text(tv, t as int));
        }
    }
}

/// Appends a line made by `move_line`.
fn emit_move_line(out: &mut Vec<u8>, op: &str, operand: &Vec<u8>, n: usize, what: &str, arg: &Vec<u8>)
    ensures
        final(out)@ == old(out)@ + move_line(op, operand@, n as int, what, arg@),
{
    proof {
        reveal(move_line);
    }
    push_str(out, op);
    push_bytes(out, operand.as_slice());
    push_str(out, " ; ");
    nest(out, n);
    push_str(out, what);
    push_bytes(out, arg.as_slice());
    push_str(out, ";\n");
    proof {
        assert(out@ =~= old(out)@ + move_line(op, operand@, n as int, what, arg@));
    }
}

fn emit_move_instr(out: &mut Vec<u8>, off: isize, size: i128, n: usize)
    requires
        1 <= size <= 8,
    ensures
        final(out)@ == old(out)@ + move_instr_text(off as int, size as int, n as int),
{
    proof {
        reveal(move_instr_text);
    }
    let off = off as i128;
    let empty: Vec<u8> = Vec::new();
    if size == 1 && off == 1 {
        emit_move_line(out, "        inc  qword  r12           ", &empty, n, "ptr ++", &empty);
    } else if size == 1 && off == -1 {
        emit_move_line(out, "        dec  qword  r12           ", &empty, n, "ptr --", &empty);
    } else if off != 0 {
        let a = if off > 0 {
            off
        } else {
            -off
        };
        let mut operand: Vec<u8> = Vec::new();
        push_right_decimal(&mut operand, scale(a, size), 8);
        let mut arg: Vec<u8> = Vec::new();
        push_decimal(&mut arg, a);
        proof {
            assert(operand@ =~= right(a * size, 8));
            assert(arg@ =~= decimal(a as int));
        }
        if off > 0 {
            emit_move_line(out, "        add  qword  r12 , ", &operand, n, "ptr  += ", &arg);
        } else {
            emit_move_line(out, "        sub  qword  r12 , ", &operand, n, "ptr  -= ", &arg);
        }
    } else {
        proof {
            assert(out@ =~= old(out)@ + Seq::<u8>::empty());
        }
    }
}

fn emit_add(out: &mut Vec<u8>, v: i128, prefix: &str, n: usize)
    requires
        i64::MIN <= v <= i64::MAX,
    ensures
        final(out)@ == old(out)@ + add_text(v as int, prefix, n as int),
{
    proof {
        reveal(add_text);
    }
    let empty: Vec<u8> = Vec::new();
    if v == 1 || v == -1 {
        let mut operand: Vec<u8> = Vec::new();
        push_str(&mut operand, prefix);
        push_str(&mut operand, " [r12]          ");
        if v == 1 {
            emit_move_line(out, "        inc  ", &operand, n, "*ptr += 1", &empty);
        } else {
            emit_move_line(out, "        dec  ", &operand, n, "*ptr -= 1", &empty);
        }
    } else if v != 0 {
        let a = if v > 0 {
            v
        } else {
            -v
        };
        let mut operand: Vec<u8> = Vec::new();
        push_str(&mut operand, prefix);
        push_str(&mut operand, " [r12], ");
        push_right_decimal(&mut operand, a, 8);
        let mut arg: Vec<u8> = Vec::new();
        push_decimal(&mut arg, a);
        proof {
            assert(operand@ =~= text(prefix) + text(" [r12], ") + right(a as int, 8));
        }
        if v > 0 {
            emit_move_line(out, "        add  ", &operand, n, "*ptr += ", &arg);
        } else {
            emit_move_line(out, "        sub  ", &operand, n, "*ptr -= ", &arg);
        }
    } else {
        proof {
            assert(out@ =~= old(out)@ + Seq::<u8>::empty());
        }
    }
}

fn emit_set(out: &mut Vec<u8>, v: i128, prefix: &str, n: usize)
    requires
        i64::MIN <= v <= i64::MAX,
    ensures
        final(out)@ == old(out)@ + set_text(v as int, prefix, n as int),
{
    proof {
        reveal(set_text);
    }
    push_str(out, "        mov  ");
    push_str(out, prefix);
    push_str(out, " [r12], ");
    push_right_decimal(out, v, 8);
    push_str(out, " ; ");
    nest(out, n);
    push_str(out, "*ptr  = ");
    push_decimal(out, v);
    push_str(out, ";\n");
    proof {
        assert(out@ =~= old(out)@ + set_text(v as int, prefix, n as int));
    }
}

fn emit_read(out: &mut Vec<u8>, prefix: &str, reg: &str, n: usize)
    ensures
        final(out)@ == old(out)@ + read_text(prefix, reg, n as int),
{
    proof {
        reveal(read_text);
    }
    push_str(out, "        mov  rdi, [rel stdout]\n        call fflush                ; ");
    nest(out, n);
    push_str(out, "fflush(stdout);\n        call getchar\n        mov  ");
    push_str(out, prefix);
    push_str(out, " [r12], ");
    push_left(out, reg.as_bytes(), 7);
    push_str(out, "      ; ");
    nest(out, n);
    push_str(out, "*ptr = getchar();\n");
    proof {
        assert(out@ =~= old(out)@ + read_text(prefix, reg, n as int));
    }
}

fn emit_write(out: &mut Vec<u8>, n: usize)
    ensures
        final(out)@ == old(out)@ + write_text(n as int),
{
    proof {
        reveal(write_text);
    }
    push_str(out, "        mov  edi,  [r12]\n        call putchar               ; ");
    nest(out, n);
    push_str(out, "putchar(*ptr)\n");
    proof {
        assert(out@ =~= old(out)@ + write_text(n as int));
    }
}

fn emit_do(out: &mut Vec<u8>, c: usize, n: usize)
    ensures
        final(out)@ == old(out)@ + do_text(c as int, n as int),
{
    proof {
        reveal(do_text);
    }
    push_label(out, "start", c);
    push_str(out, ":                           ; ");
    nest(out, n);
    push_str(out, "do {\n");
    proof {
        assert(out@ =~= old(out)@ + do_text(c as int, n as int));
    }
}

fn emit_while(out: &mut Vec<u8>, prefix: &str, c: usize, n: usize, is_if: bool)
    ensures
        final(out)@ == old(out)@ + while_text(prefix, c as int, n as int, is_if),
{
    proof {
        reveal(while_text);
    }
    push_str(out, "        cmp  ");
    push_str(out, prefix);
    push_str(out, " [r12],        0 ; ");
    nest(out, n);
    push_str(out, if is_if {
        "if (*ptr) {\n"
    } else {
        "while (*ptr) {\n"
    });
    push_label(out, "        je   end", c);
    push_label(out, "\nstart", c);
    push_str(out, ":\n");
    proof {
        assert(out@ =~= old(out)@ + while_text(prefix, c as int, n as int, is_if));
    }
}

fn emit_end_zero(out: &mut Vec<u8>, prefix: &str, id: usize, n: usize, stmt: &str)
    ensures
        final(out)@ == old(out)@ + end_jump(Some(0), prefix, id as int, n as int, stmt),
{
    proof {
        reveal(end_jump);
    }
    push_str(out, "                                   ; ");
    nest(out, n);
    push_str(out, stmt);
    push_str(out, "\n");
    proof {
        assert(out@ =~= old(out)@ + end_jump(Some(0), prefix, id as int, n as int, stmt));
    }
}

fn emit_end_jmp(out: &mut Vec<u8>, v: i128, prefix: &str, id: usize, n: usize, stmt: &str)
    requires
        v != 0,
    ensures
        final(out)@ == old(out)@ + end_jump(Some(v as int), prefix, id as int, n as int, stmt),
{
    proof {
        reveal(end_jump);
    }
    let mut label: Vec<u8> = Vec::new();
    push_label(&mut label, "start", id);
    push_str(out, "        jmp  ");
    push_left(out, label.as_slice(), 7);
    push_str(out, " ; ");
    nest(out, n);
    push_str(out, stmt);
    push_str(out, "\n");
    proof {
        assert(out@ =~= old(out)@ + end_jump(Some(v as int), prefix, id as int, n as int, stmt));
    }
}

fn emit_end_test(out: &mut Vec<u8>, prefix: &str, id: usize, n: usize, stmt: &str)
    ensures
        final(out)@ == old(out)@ + end_jump(None, prefix, id as int, n as int, stmt),
{
    proof {
        reveal(end_jump);
    }
    push_str(out, "        cmp  ");
    push_str(out, prefix);
    push_str(out, " [r12],        0 ; ");
    nest(out, n);
    push_str(out, stmt);
    push_label(out, "\n        jne  start", id);
    push_str(out, "\n");
    proof {
        assert(out@ =~= old(out)@ + end_jump(None, prefix, id as int, n as int, stmt));
    }
}

fn emit_end(out: &mut Vec<u8>, known: Option<i128>, prefix: &str, id: usize, n: usize, do_while: bool)
    ensures
        final(out)@ == old(out)@ + end_text(
            match known {
                Some(v) => Some(v as int),
                None => None,
            },
            prefix,
            id as int,
            n as int,
            close_stmt(do_while),
        ),
{
    let stmt = if do_while {
        "} while (*ptr);"
    } else {
        "}"
    };
    match known {
        Some(v) => {
            if v == 0 {
                emit_end_zero(out, prefix, id, n, stmt);
            } else {
                emit_end_jmp(out, v, prefix, id, n, stmt);
            }
        },
        None => emit_end_test(out, prefix, id, n, stmt),
    }
    let ghost mid = out@;
    push_label(out, "end", id);
    push_str(out, ":\n");
    proof {
        assert(out@ =~= mid + text("end") + decimal(id as int) + text(":\n"));
    }
}

/// The executable state of the generation of the body.
struct BodyGen {
    pc: usize,
    count: usize,
    stack: Vec<usize>,
    nest: usize,
    body: Vec<u8>,
}

impl BodyGen {
    spec fn view(&self) -> AsmGen {
        AsmGen {
            pc: self.pc as int,
            count: self.count as int,
            ids: self.stack@.map_values(|x: usize| x as int),
            nest: self.nest as int,
            text: self.body@,
        }
    }

    /// The state before instruction `pc` of `s`, which is to be run.
    spec fn ready(&self, s: Seq<Op>) -> bool {
        &&& wf(s)
        &&& self.pc < s.len()
        &&& s.len() + 3 < usize::MAX
        &&& self.count <= self.pc
        &&& self.stack@.len() == depth(s, self.pc as int)
    }

    /// Runs the instruction at `pc`.
    #[verifier::rlimit(100)]
    fn step<Int: BrainfuckInteger>(&mut self, code: &Brainfuck<Int>, table: &Vec<Vec<u8>>)
        requires
            old(self).ready(code@),
            code.complete(),
        ensures
            final(self).view() == asm_step(code@, Int::modulus(), table_view(table@), old(self).view()),
            old(self).pc < final(self).pc <= code@.len(),
            final(self).count <= final(self).pc,
            final(self).stack@.len() == depth(code@, final(self).pc as int),
    {
        let ghost g = self.view();
        let (size, prefix, reg) = cell_info::<Int>();
        let pc = self.pc;
        let n = self.nest;
        proof {
            lemma_wf_facts(code@);
            lemma_depth_step(code@, pc as int);
        }
        match code.get(pc) {
            Some(Instruct::Move(off)) => {
                emit_move_instr(&mut self.body, *off, size, n);
                self.pc = pc + 1;
            },
            Some(Instruct::Add(val)) => {
                emit_add(&mut self.body, val.i64() as i128, prefix, n);
                self.pc = pc + 1;
            },
            Some(Instruct::SetValue(val)) => {
                emit_set(&mut self.body, val.i64() as i128, prefix, n);
                self.pc = pc + 1;
            },
            Some(Instruct::AddTo(_)) | Some(Instruct::SubFrom(_)) => {
                self.count = self.count + 1;
                self.pc = generate_add_to_group(&mut self.body, code, pc, self.count, n);
            },
            Some(Instruct::Read) => {
                emit_read(&mut self.body, prefix, reg, n);
                self.pc = pc + 1;
            },
            Some(Instruct::Write) => {
                emit_write(&mut self.body, n);
                self.pc = pc + 1;
            },
            Some(Instruct::LoopStart(e)) => {
                self.loop_start(code, *e);
            },
            Some(Instruct::LoopEnd(st)) => {
                self.loop_end(code, *st);
            },
            Some(Instruct::WriteStr(data)) => {
                let id = match find_str(table, data) {
                    Some(k) => k,
                    None => 0,
                };
                generate_write_str(&mut self.body, data, id, n);
                self.pc = pc + 1;
            },
            None => {},
        }
        proof {
            assert(self.view().ids =~= g.ids || code@[pc as int] is LoopStart || code@[pc as int] is LoopEnd);
        }
    }

    fn loop_start<Int: BrainfuckInteger>(&mut self, code: &Brainfuck<Int>, e: usize)
        requires
            old(self).ready(code@),
            code.complete(),
            code@[old(self).pc as int] == Op::LoopStart(e as int),
        ensures
            final(self).view() == asm_step(code@, Int::modulus(), Seq::empty(), old(self).view()),
            old(self).pc < final(self).pc <= code@.len(),
            final(self).count <= final(self).pc,
            final(self).stack@.len() == depth(code@, final(self).pc as int),
    {
        let ghost g = self.view();
        let (_size, prefix, _reg) = cell_info::<Int>();
        let pc = self.pc;
        let n = self.nest;
        proof {
            lemma_wf_facts(code@);
            lemma_depth_step(code@, pc as int);
            assert(loop_closed(code@, pc as int));
        }
        self.count = self.count + 1;
        let c = self.count;
        match code.find_set_before(pc) {
            Some(val) => {
                if val.is_zero() {
                    self.pc = e;
                    return;
                }
                emit_do(&mut self.body, c, n);
            },
            None => {
                let is_if = match code.get(e - 2) {
                    Some(Instruct::SetValue(v2)) => v2.is_zero(),
                    _ => false,
                };
                emit_while(&mut self.body, prefix, c, n, is_if);
            },
        }
        self.stack.push(c);
        if self.nest < usize::MAX - 4 {
            self.nest = self.nest + 4;
        }
        self.pc = pc + 1;
        proof {
            assert(self.view().ids =~= g.ids.push(c as int));
        }
    }

    fn loop_end<Int: BrainfuckInteger>(&mut self, code: &Brainfuck<Int>, st: usize)
        requires
            old(self).ready(code@),
            code.complete(),
            code@[old(self).pc as int] == Op::LoopEnd(st as int),
        ensures
            final(self).view() == asm_step(code@, Int::modulus(), Seq::empty(), old(self).view()),
            old(self).pc < final(self).pc <= code@.len(),
            final(self).count <= final(self).pc,
            final(self).stack@.len() == depth(code@, final(self).pc as int),
    {
        let ghost g = self.view();
        let (_size, prefix, _reg) = cell_info::<Int>();
        let pc = self.pc;
        proof {
            lemma_wf_facts(code@);
            lemma_depth_step(code@, pc as int);
        }
        if self.nest >= 4 {
            self.nest = self.nest - 4;
        }
        let id = self.stack.pop().unwrap();
        let do_while = code.find_set_before(st).is_some();
        let known = match code.find_set_before(pc) {
            Some(v) => Some(v.i64() as i128),
            None => None,
        };
        emit_end(&mut self.body, known, prefix, id, self.nest, do_while);
        self.pc = pc + 1;
        proof {
            assert(self.view().ids =~= g.ids.drop_last());
            assert(g.ids.last() == id as int);
        }
    }
}

/// The code of the body of `bfmain` for `code`.
fn generate_body<Int: BrainfuckInteger>(code: &Brainfuck<Int>, table: &Vec<Vec<u8>>) -> (r: Vec<u8>)
    requires
        code.complete(),
        code@.len() + 3 < usize::MAX,
    ensures
        r@ == asm_run(
            code@,
            Int::modulus(),
            table_view(table@),
            AsmGen { pc: 0, count: 0, ids: Seq::empty(), nest: 0, text: Seq::empty() },
        ).text,
{
    let n = code.len();
    let mut g = BodyGen { pc: 0, count: 0, stack: Vec::new(), nest: 0, body: Vec::new() };
    let ghost start = AsmGen { pc: 0, count: 0, ids: Seq::empty(), nest: 0, text: Seq::empty() };
    let ghost tv = table_view(table@);
    proof {
        code.lemma_complete();
        lemma_depth_zero(code@);
        assert(g.view().ids =~= Seq::<int>::empty());
        assert(g.view().text =~= Seq::<u8>::empty());
        assert(g.view() == start);
    }
    while g.pc < n
        invariant
            code.complete(),
            wf(code@),
            n == code@.len(),
            n + 3 < usize::MAX,
            g.pc <= n,
            g.count <= g.pc,
            g.stack@.len() == depth(code@, g.pc as int),
            tv == table_view(table@),
            asm_run(code@, Int::modulus(), tv, g.view()) == asm_run(code@, Int::modulus(), tv, start),
        decreases n - g.pc,
    {
        g.step(code, table);
    }
    g.body
}

/// The NASM source for `code`, for a runtime with pages of `page` bytes
/// (see `asm_program`).
pub(crate) fn generate_asm<Int: BrainfuckInteger>(code: &Brainfuck<Int>, page: u128) -> (r: Vec<u8>)
    requires
        code.complete(),
        page < 0x4000_0000_0000_0000_0000_0000_0000_2000,
        code@.len() + 3 < usize::MAX,
    ensures
        r@ == asm_program(code@, Int::modulus(), page as int),
{
    let table = build_table(code);
    let mut out: Vec<u8> = Vec::new();
    push_str(&mut out, ASM_DATA);
    emit_data(&mut out, &table);
    push_str(&mut out, TEXT_HEAD);
    push_right_decimal(&mut out, page as i128, 8);
    push_str(&mut out, " ; ");
    push_str(&mut out, Int::c_type());
    push_str(&mut out, "* ptr = (void*)mem + PAGESIZE;\n");
    let body = generate_body(code, &table);
    push_bytes(&mut out, body.as_slice());
    push_str(&mut out, EPILOGUE);
    proof {
        assert(out@ =~= asm_program(code@, Int::modulus(), page as int));
    }
    out
}

} // verus!
