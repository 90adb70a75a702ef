//! The code of a run of `AddTo`/`SubFrom` instructions in the assembly back-end.
use vstd::prelude::*;
use crate::codegen::linux_x86_64::{cell_info, generate_move, move_text, nest, operand_of, push_label, register_of, scale, spaces};
use crate::instruct::{Instruct, Op, depth, lemma_depth_step};
use crate::integer::{BrainfuckInteger, bytes_of};
use crate::program::{Brainfuck, set_before};
use crate::text::{decimal, push_bytes, push_decimal, push_left, push_right_decimal, push_str, text};

verus! {

/// `b` padded with spaces to `w` columns.
pub open spec fn left(b: Seq<u8>, w: int) -> Seq<u8> {
    b + (if b.len() < w {
        spaces(w - b.len())
    } else {
        Seq::empty()
    })
}

/// Is `o` an `AddTo` or a `SubFrom`?
pub open spec fn is_copy_op(o: Op) -> bool {
    o is AddTo || o is SubFrom
}

/// The offset of an `AddTo` or `SubFrom`.
pub open spec fn copy_off(o: Op) -> int {
    match o {
        Op::AddTo(x) => x,
        Op::SubFrom(x) => x,
        _ => 0,
    }
}

/// The operand that addresses cell `off` (of `size` bytes) from `r12`.
#[verifier::opaque]
pub open spec fn dest_text(off: int, size: int) -> Seq<u8> {
    (if off > 0 {
        text("[r12+") + decimal(off * size)
    } else {
        text("[r12-") + decimal(-off * size)
    }) + text("]")
}

/// The end of a copy line: the operation in the comment.
pub open spec fn copy_comment(add: bool) -> Seq<u8> {
    if add {
        text("] += *ptr;\n")
    } else {
        text("] -= *ptr;\n")
    }
}

/// The mnemonic of a copy line.
pub open spec fn copy_mnemonic(add: bool) -> Seq<u8> {
    if add {
        text("        add  ")
    } else {
        text("        sub  ")
    }
}

/// The start of a copy line with a known value: mnemonic, operand size and
/// destination.
#[verifier::opaque]
pub open spec fn line_head(add: bool, prefix: &str, d: Seq<u8>) -> Seq<u8> {
    copy_mnemonic(add) + text(prefix) + text(" ") + d + text(", ")
}

/// The rest of a copy line with a known value: the value and the comment.
#[verifier::opaque]
pub open spec fn line_tail(v: int, pad: int, nesting: int, off: int, add: bool) -> Seq<u8> {
    right(v, pad) + text("; ") + spaces(nesting) + text("ptr[") + decimal(off) + copy_comment(add)
}

/// One copy line that adds (or subtracts) the known value `v` into cell `off`.
#[verifier::opaque]
pub open spec fn static_line_text(off: int, add: bool, v: int, size: int, prefix: &str, nesting: int) -> Seq<u8> {
    let d = dest_text(off, size);
    line_head(add, prefix, d) + line_tail(
        v,
        if d.len() >= 14 {
            0
        } else {
            14 - d.len()
        },
        nesting,
        off,
        add,
    )
}

/// The copies of the run from index `i`, when the current cell is known to
/// hold `v`: each adds or subtracts `v` directly (nothing when `v` is zero).
/// Gives the index after the run.
#[verifier::opaque]
pub open spec fn static_run(s: Seq<Op>, i: int, v: int, size: int, prefix: &str, nesting: int) -> (
    Seq<u8>,
    int,
)
    decreases s.len() - i,
{
    if 0 <= i < s.len() && is_copy_op(s[i]) {
        let off = copy_off(s[i]);
        let add = s[i] is AddTo;
        let line = if v != 0 {
            static_line_text(off, add, v, size, prefix, nesting)
        } else {
            Seq::empty()
        };
        let (rest, end) = static_run(s, i + 1, v, size, prefix, nesting);
        (line + rest, end)
    } else {
        (Seq::empty(), i)
    }
}

/// The copies of the run from index `i` through the register, with `r12`
/// at offset `cur`. Gives the index after the run and where `r12` ends.
#[verifier::opaque]
pub open spec fn reg_run(
    s: Seq<Op>,
    i: int,
    cur: int,
    size: int,
    prefix: &str,
    reg: &str,
    nesting: int,
) -> (Seq<u8>, int, int)
    decreases s.len() - i,
{
    if 0 <= i < s.len() && is_copy_op(s[i]) {
        let off = copy_off(s[i]);
        let add = s[i] is AddTo;
        let (rest, end, c) = reg_run(s, i + 1, off, size, prefix, reg, nesting);
        (reg_line_text(off, cur, add, size, prefix, reg, nesting) + rest, end, c)
    } else {
        (Seq::empty(), i, cur)
    }
}

/// One copy line through the register, with `r12` moved from `cur` to `off` first.
#[verifier::opaque]
pub open spec fn reg_line_text(off: int, cur: int, add: bool, size: int, prefix: &str, reg: &str, nesting: int) -> Seq<u8> {
    (if cur != off {
        move_text((off - cur) * size)
    } else {
        Seq::empty()
    }) + copy_mnemonic(add) + text(prefix) + text(" [r12], ") + left(text(reg), 9) + text("; ")
        + spaces(nesting) + text("ptr[") + decimal(off) + copy_comment(add)
}

/// Does the run of copies from index `i` have a negative offset?
#[verifier::opaque]
pub open spec fn neg_in_run(s: Seq<Op>, i: int) -> bool
    decreases s.len() - i,
{
    if 0 <= i < s.len() && is_copy_op(s[i]) {
        copy_off(s[i]) < 0 || neg_in_run(s, i + 1)
    } else {
        false
    }
}

/// The code of the run of copies at `pc`, numbered `id`, for cells of `m`
/// values; and the index after what it covers. Where the current cell is
/// known, the copies add it directly; else it is loaded into the register,
/// and a run with a negative offset is skipped when the cell is zero. A
/// following move is folded into the pointer restoration where no guard is
/// needed.
#[verifier::opaque]
pub open spec fn group_text(s: Seq<Op>, m: int, pc: int, id: int, nesting: int) -> (Seq<u8>, int) {
    let size = bytes_of(m);
    match set_before(s, pc, 0) {
        Some(v) => static_run(s, pc, v, size, operand_of(size), nesting),
        None => reg_group_text(s, m, pc, id, nesting),
    }
}

/// The code of the run of copies at `pc` when the current cell is not known.
#[verifier::opaque]
pub open spec fn reg_group_text(s: Seq<Op>, m: int, pc: int, id: int, nesting: int) -> (Seq<u8>, int) {
    let size = bytes_of(m);
    let prefix = operand_of(size);
    let reg = register_of(size);
    {
            let g = neg_in_run(s, pc);
            let head = (if g {
                text("        cmp  ") + text(prefix) + text(" [r12],        0\n") + text("        je   end")
                    + decimal(id) + text("\n")
            } else {
                Seq::empty()
            }) + text("        mov         ") + left(text(reg), 3) + text(" , [r12]\n");
            let (body, end, c) = reg_run(s, pc, 0, size, prefix, reg, nesting);
            let folds = !g && 0 <= end < s.len() && s[end] is Move;
            let target = -c + (if folds {
                s[end]->Move_0
            } else {
                0
            });
            (head + body + move_text(target * size) + (if g {
                text("end") + decimal(id) + text(":\n")
            } else {
                Seq::empty()
            }), if folds {
                end + 1
            } else {
                end
            })
    }
}

/// The copy at index `pc`, if there is one: its offset and whether it adds.
fn copy_at<Int: BrainfuckInteger>(code: &Brainfuck<Int>, pc: usize) -> (r: Option<(isize, bool)>)
    ensures
        r is Some <==> pc < code@.len() && is_copy_op(code@[pc as int]),
        r is Some ==> r->Some_0.0 as int == copy_off(code@[pc as int]) && r->Some_0.1 == (code@[
            pc as int] is AddTo),
{
    match code.get(pc) {
        Some(Instruct::AddTo(off)) => Some((*off, true)),
        Some(Instruct::SubFrom(off)) => Some((*off, false)),
        _ => None,
    }
}

/// Appends one copy line that adds or subtracts the known value `v`.
#[verifier::rlimit(100)]
fn static_line(
    text_out: &mut Vec<u8>,
    off: i128,
    add: bool,
    v: i128,
    size: i128,
    prefix: &str,
    nesting: usize,
)
    requires
        isize::MIN <= off <= isize::MAX,
        i64::MIN <= v <= i64::MAX,
        1 <= size <= 8,
    ensures
        final(text_out)@ == old(text_out)@ + static_line_text(
            off as int,
            add,
            v as int,
            size as int,
            prefix,
            nesting as int,
        ),
{
    proof {
        reveal(dest_text);
    }
    let mut dest: Vec<u8> = Vec::new();
    if off > 0 {
        push_str(&mut dest, "[r12+");
        push_decimal(&mut dest, scale(off, size));
    } else {
        push_str(&mut dest, "[r12-");
        push_decimal(&mut dest, scale(-off, size));
    }
    push_str(&mut dest, "]");
    proof {
        assert(dest@ =~= dest_text(off as int, size as int));
    }
    let ghost o = old(text_out)@;
    let ghost d = dest_text(off as int, size as int);
    let ghost pad = if d.len() >= 14 {
        0
    } else {
        14 - d.len()
    };
    push_str(text_out, mnemonic(add));
    push_str(text_out, prefix);
    push_str(text_out, " ");
    push_bytes(text_out, dest.as_slice());
    push_str(text_out, ", ");
    let ghost h1 = text_out@;
    proof {
        reveal(line_head);
        assert(h1 =~= o + line_head(add, prefix, d));
    }
    let padding = if dest.len() >= 14 {
        0
    } else {
        14 - dest.len()
    };
    push_right_decimal(text_out, v, padding);
    push_str(text_out, "; ");
    nest(text_out, nesting);
    push_str(text_out, "ptr[");
    push_decimal(text_out, off);
    push_str(text_out, comment(add));
    proof {
        reveal(line_tail);
        assert(text_out@ =~= h1 + line_tail(v as int, pad, nesting as int, off as int, add));
    }
    proof {
        reveal(static_line_text);
        assert(text_out@ =~= o + static_line_text(off as int, add, v as int, size as int, prefix, nesting as int));
    }
}

/// The mnemonic of a copy line.
fn mnemonic(add: bool) -> (r: &'static str)
    ensures
        text(r) == copy_mnemonic(add),
{
    if add {
        "        add  "
    } else {
        "        sub  "
    }
}

/// The end of a copy line.
fn comment(add: bool) -> (r: &'static str)
    ensures
        text(r) == copy_comment(add),
{
    if add {
        "] += *ptr;\n"
    } else {
        "] -= *ptr;\n"
    }
}

/// Appends one copy line through the register, moving `r12` from `cur` to `off` first.
#[verifier::rlimit(100)]
fn reg_line(
    text_out: &mut Vec<u8>,
    off: i128,
    cur: i128,
    add: bool,
    size: i128,
    prefix: &str,
    reg: &str,
    nesting: usize,
)
    requires
        isize::MIN <= off <= isize::MAX,
        isize::MIN <= cur <= isize::MAX,
        1 <= size <= 8,
    ensures
        final(text_out)@ == old(text_out)@ + reg_line_text(
            off as int,
            cur as int,
            add,
            size as int,
            prefix,
            reg,
            nesting as int,
        ),
{
    let ghost o = old(text_out)@;
    if cur != off {
        generate_move(text_out, scale(off - cur, size));
    }
    push_str(text_out, if add {
        "        add  "
    } else {
        "        sub  "
    });
    push_str(text_out, prefix);
    push_str(text_out, " [r12], ");
    push_left(text_out, reg.as_bytes(), 9);
    push_str(text_out, "; ");
    nest(text_out, nesting);
    push_str(text_out, "ptr[");
    push_decimal(text_out, off);
    push_str(text_out, if add {
        "] += *ptr;\n"
    } else {
        "] -= *ptr;\n"
    });
    proof {
        reveal(reg_line_text);
        assert(text_out@ =~= o + (if cur != off {
            move_text((off - cur) * size)
        } else {
            Seq::empty()
        }) + copy_mnemonic(add) + text(prefix) + text(" [r12], ") + left(text(reg), 9) + text("; ")
            + spaces(nesting as int) + text("ptr[") + decimal(off as int) + copy_comment(add));
    }
}

/// Appends the copies of the run at `pc` with the current cell known to hold `v`.
#[verifier::rlimit(100)]
fn static_group<Int: BrainfuckInteger>(
    text_out: &mut Vec<u8>,
    code: &Brainfuck<Int>,
    pc: usize,
    v: i128,
    nesting: usize,
) -> (r: usize)
    requires
        i64::MIN <= v <= i64::MAX,
        pc < code@.len(),
        is_copy_op(code@[pc as int]),
    ensures
        ({
            let (t, end) = static_run(
                code@,
                pc as int,
                v as int,
                bytes_of(Int::modulus()),
                operand_of(bytes_of(Int::modulus())),
                nesting as int,
            );
            &&& final(text_out)@ == old(text_out)@ + t
            &&& r == end
            &&& pc < r <= code@.len()
            &&& forall|k: int| pc <= k < r ==> is_copy_op(#[trigger] code@[k])
        }),
{
    proof {
        reveal(static_run);
    }
    let n = code.len();
    let (size, prefix, _reg) = cell_info::<Int>();
    let ghost o = old(text_out)@;
    let ghost start = pc as int;
    let mut i = pc;
    loop
        invariant_except_break
            i == start ==> is_copy_op(code@[i as int]),
        invariant
            n == code@.len(),
            start <= i <= n,
            start < n,
            1 <= size <= 8,
            i64::MIN <= v <= i64::MAX,
            size == bytes_of(Int::modulus()),
            prefix == operand_of(size as int),
            o + static_run(code@, start, v as int, size as int, prefix, nesting as int).0 == text_out@
                + static_run(code@, i as int, v as int, size as int, prefix, nesting as int).0,
            static_run(code@, start, v as int, size as int, prefix, nesting as int).1 == static_run(
                code@,
                i as int,
                v as int,
                size as int,
                prefix,
                nesting as int,
            ).1,
            forall|k: int| start <= k < i ==> is_copy_op(#[trigger] code@[k]),
        ensures
            start < i <= n,
            text_out@ == o + static_run(code@, start, v as int, size as int, prefix, nesting as int).0,
            i == static_run(code@, start, v as int, size as int, prefix, nesting as int).1,
            forall|k: int| start <= k < i ==> is_copy_op(#[trigger] code@[k]),
        decreases n - i,
    {
        proof {
            reveal(static_run);
        }
        let (off, add) = match copy_at(code, i) {
            Some(x) => x,
            None => {
                proof {
                    assert(text_out@ =~= text_out@ + static_run(
                        code@,
                        i as int,
                        v as int,
                        size as int,
                        prefix,
                        nesting as int,
                    ).0);
                }
                break;
            },
        };
        let ghost before = text_out@;
        if v != 0 {
            static_line(text_out, off as i128, add, v, size, prefix, nesting);
        }
        i += 1;
        proof {
            assert(before + static_run(code@, i - 1, v as int, size as int, prefix, nesting as int).0
                =~= text_out@ + static_run(code@, i as int, v as int, size as int, prefix, nesting as int).0);
        }
    }
    i
}

/// Appends the copies of the run at `pc` through the register; returns the
/// index after the run and where `r12` ends.
#[verifier::rlimit(100)]
fn reg_group<Int: BrainfuckInteger>(
    text_out: &mut Vec<u8>,
    code: &Brainfuck<Int>,
    pc: usize,
    nesting: usize,
) -> (r: (usize, i128))
    requires
        pc < code@.len(),
        is_copy_op(code@[pc as int]),
    ensures
        ({
            let size = bytes_of(Int::modulus());
            let (t, end, c) = reg_run(
                code@,
                pc as int,
                0,
                size,
                operand_of(size),
                register_of(size),
                nesting as int,
            );
            &&& final(text_out)@ == old(text_out)@ + t
            &&& r.0 == end
            &&& r.1 == c
            &&& isize::MIN <= r.1 <= isize::MAX
            &&& pc < r.0 <= code@.len()
            &&& forall|k: int| pc <= k < r.0 ==> is_copy_op(#[trigger] code@[k])
        }),
{
    proof {
        reveal(reg_run);
    }
    let n = code.len();
    let (size, prefix, reg) = cell_info::<Int>();
    let ghost o = old(text_out)@;
    let ghost start = pc as int;
    let mut i = pc;
    let mut cur: i128 = 0;
    loop
        invariant_except_break
            i == start ==> is_copy_op(code@[i as int]),
        invariant
            n == code@.len(),
            start <= i <= n,
            start < n,
            1 <= size <= 8,
            isize::MIN <= cur <= isize::MAX,
            size == bytes_of(Int::modulus()),
            prefix == operand_of(size as int),
            reg == register_of(size as int),
            o + reg_run(code@, start, 0, size as int, prefix, reg, nesting as int).0 == text_out@
                + reg_run(code@, i as int, cur as int, size as int, prefix, reg, nesting as int).0,
            reg_run(code@, start, 0, size as int, prefix, reg, nesting as int).1 == reg_run(
                code@,
                i as int,
                cur as int,
                size as int,
                prefix,
                reg,
                nesting as int,
            ).1,
            reg_run(code@, start, 0, size as int, prefix, reg, nesting as int).2 == reg_run(
                code@,
                i as int,
                cur as int,
                size as int,
                prefix,
                reg,
                nesting as int,
            ).2,
            forall|k: int| start <= k < i ==> is_copy_op(#[trigger] code@[k]),
        ensures
            start < i <= n,
            isize::MIN <= cur <= isize::MAX,
            text_out@ == o + reg_run(code@, start, 0, size as int, prefix, reg, nesting as int).0,
            i == reg_run(code@, start, 0, size as int, prefix, reg, nesting as int).1,
            cur == reg_run(code@, start, 0, size as int, prefix, reg, nesting as int).2,
            forall|k: int| start <= k < i ==> is_copy_op(#[trigger] code@[k]),
        decreases n - i,
    {
        proof {
            reveal(reg_run);
        }
        let (off, add) = match copy_at(code, i) {
            Some(x) => x,
            None => {
                proof {
                    assert(text_out@ =~= text_out@ + reg_run(
                        code@,
                        i as int,
                        cur as int,
                        size as int,
                        prefix,
                        reg,
                        nesting as int,
                    ).0);
                }
                break;
            },
        };
        let ghost before = text_out@;
        let ghost c0 = cur as int;
        reg_line(text_out, off as i128, cur, add, size, prefix, reg, nesting);
        cur = off as i128;
        i += 1;
        proof {
            assert(before + reg_run(code@, i - 1, c0, size as int, prefix, reg, nesting as int).0
                =~= text_out@ + reg_run(code@, i as int, cur as int, size as int, prefix, reg, nesting as int).0);
        }
    }
    (i, cur)
}

/// Whether the run of copies from `pc` has a negative offset.
fn has_negative<Int: BrainfuckInteger>(code: &Brainfuck<Int>, pc: usize) -> (r: bool)
    requires
        pc <= code@.len(),
    ensures
        r == neg_in_run(code@, pc as int),
{
    proof {
        reveal(neg_in_run);
    }
    let n = code.len();
    let mut k = pc;
    let mut guarded = false;
    while k < n
        invariant_except_break
            neg_in_run(code@, pc as int) == (guarded || neg_in_run(code@, k as int)),
        invariant
            n == code@.len(),
            pc <= k <= n,
            !neg_in_run(code@, n as int),
        ensures
            guarded == neg_in_run(code@, pc as int),
        decreases n - k,
    {
        proof {
            reveal(neg_in_run);
        }
        match copy_at(code, k) {
            Some((off, _)) => {
                if off < 0 {
                    guarded = true;
                }
                k += 1;
            },
            None => {
                break;
            },
        }
    }
    guarded
}

/// Appends the code of the run of copies at `pc` through the register.
#[verifier::rlimit(100)]
fn reg_group_branch<Int: BrainfuckInteger>(
    text_out: &mut Vec<u8>,
    code: &Brainfuck<Int>,
    pc: usize,
    id: usize,
    nesting: usize,
) -> (r: usize)
    requires
        pc < code@.len(),
        code@[pc as int] is AddTo || code@[pc as int] is SubFrom,
    ensures
        pc < r <= code@.len(),
        forall|k: int| pc <= k < r ==> !(#[trigger] code@[k] is LoopStart) && !(code@[k] is LoopEnd),
        final(text_out)@ == old(text_out)@ + reg_group_text(code@, Int::modulus(), pc as int, id as int, nesting as int).0,
        r == reg_group_text(code@, Int::modulus(), pc as int, id as int, nesting as int).1,
{
    proof {
        reveal(reg_group_text);
    }
    let n = code.len();
    let (size, prefix, reg) = cell_info::<Int>();
    let ghost o = old(text_out)@;
            let guarded = has_negative(code, pc);
            if guarded {
                push_str(text_out, "        cmp  ");
                push_str(text_out, prefix);
                push_str(text_out, " [r12],        0\n");
                push_label(text_out, "        je   end", id);
                push_str(text_out, "\n");
            }
            push_str(text_out, "        mov         ");
            push_left(text_out, reg.as_bytes(), 3);
            push_str(text_out, " , [r12]\n");
            let ghost head = text_out@;
            let (run_end, current_off) = reg_group(text_out, code, pc, nesting);
            let ghost body = text_out@;
            let mut target_off = -current_off;
            let mut end = run_end;
            if !guarded && run_end < n {
                match code.get(run_end) {
                    Some(Instruct::Move(off)) => {
                        target_off = target_off + *off as i128;
                        end = run_end + 1;
                    },
                    _ => {},
                }
            }
            generate_move(text_out, scale(target_off, size));
            if guarded {
                push_label(text_out, "end", id);
                push_str(text_out, ":\n");
            }
            proof {
                assert(text_out@ =~= o + reg_group_text(code@, Int::modulus(), pc as int, id as int, nesting as int).0);
            }
    end
}

/// Appends the code of a group of `AddTo`/`SubFrom` instructions that starts
/// at `pc`, numbered `id`; returns the index after what it consumed.
#[verifier::rlimit(100)]
pub(crate) fn generate_add_to_group<Int: BrainfuckInteger>(
    text_out: &mut Vec<u8>,
    code: &Brainfuck<Int>,
    pc: usize,
    id: usize,
    nesting: usize,
) -> (r: usize)
    requires
        code.complete(),
        pc < code@.len(),
        code@[pc as int] is AddTo || code@[pc as int] is SubFrom,
    ensures
        pc < r <= code@.len(),
        depth(code@, r as int) == depth(code@, pc as int),
        final(text_out)@ == old(text_out)@ + group_text(code@, Int::modulus(), pc as int, id as int, nesting as int).0,
        r == group_text(code@, Int::modulus(), pc as int, id as int, nesting as int).1,
{
    proof {
        reveal(group_text);
    }
    let n = code.len();
    let (size, prefix, reg) = cell_info::<Int>();
    let ghost o = old(text_out)@;
    let end = match code.find_set_before(pc) {
        Some(val) => {
            let v = val.i64() as i128;
            static_group(text_out, code, pc, v, nesting)
        },
        None => reg_group_branch(text_out, code, pc, id, nesting),
    };
    proof {
        lemma_depth_flat(code@, pc as int, end as int);
    }
    end
}

proof fn lemma_depth_flat(s: Seq<Op>, i: int, j: int)
    requires
        0 <= i <= j <= s.len(),
        forall|k: int| i <= k < j ==> !(#[trigger] s[k] is LoopStart) && !(s[k] is LoopEnd),
    ensures
        depth(s, j) == depth(s, i),
    decreases j - i,
{
    if j > i {
        lemma_depth_flat(s, i, j - 1);
        lemma_depth_step(s, j - 1);
    }
}

/// `x` in decimal, right-aligned to `w` columns.
pub open spec fn right(x: int, w: int) -> Seq<u8> {
    (if decimal(x).len() < w {
        spaces(w - decimal(x).len())
    } else {
        Seq::empty()
    }) + decimal(x)
}


} // verus!
