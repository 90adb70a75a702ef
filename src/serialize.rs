//! Writing a program back out: as Brainfuck source, and as a readable listing.
use vstd::prelude::*;
use crate::error::Error;
use crate::instruct::{Instruct, Op, depth, lemma_depth_bound, lemma_depth_step, lemma_depth_zero, lemma_wf_facts};
use crate::integer::BrainfuckInteger;
use crate::program::{Brainfuck, bf_of, c_at, is_command, simple};
use crate::text::{decimal, indent, push_decimal, push_repeat_byte, push_str, repeat, text};

verus! {

/// The byte values of `d`, separated by `, `.
pub open spec fn list_body(d: Seq<u8>) -> Seq<u8>
    decreases d.len(),
{
    if d.len() == 0 {
        Seq::empty()
    } else if d.len() == 1 {
        decimal(d[0] as int)
    } else {
        list_body(d.drop_last()) + text(", ") + decimal(d.last() as int)
    }
}

/// The listing line of instruction `o` at nesting level `k`.
pub open spec fn debug_line(o: Op, k: int) -> Seq<u8> {
    let ind = repeat(text("    "), k as nat);
    match o {
        Op::Move(v) => ind + text("move ") + decimal(v) + text("\n"),
        Op::Add(v) => ind + text("add ") + decimal(v) + text("\n"),
        Op::SetValue(v) => ind + text("set ") + decimal(v) + text("\n"),
        Op::AddTo(off) => ind + text("add_to ") + decimal(off) + text("\n"),
        Op::SubFrom(off) => ind + text("sub_from ") + decimal(off) + text("\n"),
        Op::Read => ind + text("read\n"),
        Op::Write => ind + text("write\n"),
        Op::LoopStart(_) => ind + text("loop {\n"),
        Op::LoopEnd(_) => repeat(text("    "), (k - 1) as nat) + text("}\n"),
        Op::WriteStr(d) => ind + text("write [") + list_body(d) + text("]\n"),
    }
}

/// The listing of the first `n` instructions, each at its loop depth.
pub open spec fn debug_listing(s: Seq<Op>, n: int) -> Seq<u8>
    decreases n,
{
    if n <= 0 {
        Seq::empty()
    } else {
        debug_listing(s, n - 1) + debug_line(s[n - 1], depth(s, n - 1))
    }
}

fn push_list(out: &mut Vec<u8>, d: &Vec<u8>)
    ensures
        final(out)@ == old(out)@ + list_body(d@),
{
    let mut i: usize = 0;
    while i < d.len()
        invariant
            i <= d@.len(),
            out@ == old(out)@ + list_body(d@.take(i as int)),
        decreases d@.len() - i,
    {
        if i > 0 {
            push_str(out, ", ");
        }
        push_decimal(out, d[i] as i128);
        i += 1;
        proof {
            assert(d@.take(i as int).drop_last() =~= d@.take(i - 1));
            assert(out@ =~= old(out)@ + list_body(d@.take(i as int)));
        }
    }
    proof {
        assert(d@.take(i as int) =~= d@);
    }
}

fn debug_instr<Int: BrainfuckInteger>(out: &mut Vec<u8>, instr: &Instruct<Int>, nesting: usize)
    requires
        instr@ is LoopEnd ==> nesting >= 1,
    ensures
        final(out)@ == old(out)@ + debug_line(instr@, nesting as int),
{
    match instr {
        Instruct::LoopEnd(_) => {
            indent(out, nesting - 1);
            push_str(out, "}\n");
        },
        _ => {
            indent(out, nesting);
            match instr {
                Instruct::Move(v) => {
                    push_str(out, "move ");
                    push_decimal(out, *v as i128);
                    push_str(out, "\n");
                },
                Instruct::Add(v) => {
                    push_str(out, "add ");
                    push_decimal(out, v.i64() as i128);
                    push_str(out, "\n");
                },
                Instruct::SetValue(v) => {
                    push_str(out, "set ");
                    push_decimal(out, v.i64() as i128);
                    push_str(out, "\n");
                },
                Instruct::AddTo(off) => {
                    push_str(out, "add_to ");
                    push_decimal(out, *off as i128);
                    push_str(out, "\n");
                },
                Instruct::SubFrom(off) => {
                    push_str(out, "sub_from ");
                    push_decimal(out, *off as i128);
                    push_str(out, "\n");
                },
                Instruct::Read => push_str(out, "read\n"),
                Instruct::Write => push_str(out, "write\n"),
                Instruct::WriteStr(d) => {
                    push_str(out, "write [");
                    push_list(out, d);
                    push_str(out, "]\n");
                },
                _ => push_str(out, "loop {\n"),
            }
        },
    }
    proof {
        assert(out@ =~= old(out)@ + debug_line(instr@, nesting as int));
    }
}

/// Is `o` an `AddTo` or a `SubFrom`?
pub open spec fn is_copy(o: Op) -> bool {
    o is AddTo || o is SubFrom
}

/// The index just past the run of `AddTo`/`SubFrom` that starts at `i`.
pub open spec fn copy_run_end(s: Seq<Op>, i: int) -> int
    decreases s.len() - i,
{
    if 0 <= i < s.len() && is_copy(s[i]) {
        copy_run_end(s, i + 1)
    } else {
        i
    }
}

/// Every run of `AddTo`/`SubFrom` in `s` is followed by `SetValue(0)`, so
/// that it can be written as a copy loop.
pub open spec fn copies_closed(s: Seq<Op>) -> bool {
    forall|i: int|
        0 <= i < s.len() && is_copy(#[trigger] s[i]) && (i == 0 || !is_copy(s[i - 1])) ==> {
            let j = copy_run_end(s, i);
            j < s.len() && s[j] == Op::SetValue(0)
        }
}

/// The magnitude of a cell value, as a count of `+` or `-`.
fn magnitude(v: i64) -> (r: u64)
    ensures
        r as int == (if v < 0 {
            -(v as int)
        } else {
            v as int
        }),
{
    if v < 0 {
        ((-(v as i128)) as u64)
    } else {
        v as u64
    }
}

/// `n` copies of the byte `b`.
pub open spec fn rep(b: u8, n: int) -> Seq<u8> {
    repeat(seq![b], n as nat)
}

proof fn lemma_rep_one(b: u8)
    ensures
        rep(b, 1) == seq![b],
{
    reveal_with_fuel(repeat, 2);
    assert(rep(b, 1) =~= seq![b]);
}

proof fn lemma_run_end(s: Seq<Op>, k: int)
    requires
        0 <= k <= s.len(),
    ensures
        k <= copy_run_end(s, k) <= s.len(),
        k < s.len() && is_copy(s[k]) ==> copy_run_end(s, k) == copy_run_end(s, k + 1),
    decreases s.len() - k,
{
    if k < s.len() && is_copy(s[k]) {
        lemma_run_end(s, k + 1);
    }
}

/// `v` `+` signs, or `-v` `-` signs.
pub open spec fn plus_minus(v: int) -> Seq<u8> {
    if v > 0 {
        rep('+' as u8, v)
    } else {
        rep('-' as u8, -v)
    }
}

/// Each byte of `d` as `[-]`, that many `+`, and `.`.
pub open spec fn bytes_bf(d: Seq<u8>) -> Seq<u8>
    decreases d.len(),
{
    if d.len() == 0 {
        Seq::empty()
    } else {
        bytes_bf(d.drop_last()) + seq!['[' as u8, '-' as u8, ']' as u8] + rep('+' as u8, d.last() as int)
            + seq!['.' as u8]
    }
}

/// The Brainfuck text of an instruction other than a copy.
pub open spec fn bf_piece(o: Op) -> Seq<u8> {
    match o {
        Op::Move(off) => if off > 0 {
            rep('>' as u8, off)
        } else {
            rep('<' as u8, -off)
        },
        Op::Add(v) => plus_minus(v),
        Op::SetValue(v) => seq!['[' as u8, '-' as u8, ']' as u8] + plus_minus(v),
        Op::Read => seq![',' as u8],
        Op::Write => seq!['.' as u8],
        Op::LoopStart(_) => seq!['[' as u8],
        Op::LoopEnd(_) => seq![']' as u8],
        Op::WriteStr(d) => bytes_bf(d),
        _ => Seq::empty(),
    }
}

/// The offset of a copy.
pub open spec fn copy_offset(o: Op) -> int {
    match o {
        Op::AddTo(x) => x,
        Op::SubFrom(x) => x,
        _ => 0,
    }
}

/// Inside a copy loop, one copy: go to its cell, add or subtract one, come back.
pub open spec fn copy_piece(o: Op) -> Seq<u8> {
    let off = copy_offset(o);
    let op = if o is AddTo {
        '+' as u8
    } else {
        '-' as u8
    };
    if off > 0 {
        rep('>' as u8, off) + seq![op] + rep('<' as u8, off)
    } else {
        rep('<' as u8, -off) + seq![op] + rep('>' as u8, -off)
    }
}

/// The copies from index `k` up to `j`, inside their loop.
pub open spec fn copies_text(s: Seq<Op>, k: int, j: int) -> Seq<u8>
    decreases j - k,
{
    if k < 0 || k >= j || k >= s.len() {
        Seq::empty()
    } else {
        copy_piece(s[k]) + copies_text(s, k + 1, j)
    }
}

/// The Brainfuck text of `s` from index `i` on: a run of copies and the
/// `SetValue(0)` after it become one copy loop `[-...]`.
pub open spec fn bf_from(s: Seq<Op>, i: int) -> Seq<u8>
    decreases s.len() - i,
{
    if i < 0 || i >= s.len() {
        Seq::empty()
    } else if is_copy(s[i]) {
        let j = copy_run_end(s, i);
        if i < j < s.len() {
            seq!['[' as u8, '-' as u8] + copies_text(s, i, j) + seq![']' as u8] + bf_from(s, j + 1)
        } else {
            Seq::empty()
        }
    } else {
        bf_piece(s[i]) + bf_from(s, i + 1)
    }
}

proof fn lemma_bf_simple(s: Seq<Op>, i: int)
    requires
        0 <= i <= s.len(),
        forall|k: int| 0 <= k < s.len() ==> simple(#[trigger] s[k]),
    ensures
        bf_from(s, i) == bf_of(s.subrange(i, s.len() as int)),
    decreases s.len() - i,
{
    if i < s.len() {
        lemma_bf_simple(s, i + 1);
        assert(simple(s[i]));
        let o = s[i];
        assert(bf_piece(o) == seq![c_at(o)]) by {
            lemma_rep_one('>' as u8);
            lemma_rep_one('<' as u8);
            lemma_rep_one('+' as u8);
            lemma_rep_one('-' as u8);
        }
        assert(bf_of(s.subrange(i, s.len() as int)) =~= seq![c_at(o)] + bf_of(s.subrange(i + 1, s.len() as int)));
    } else {
        assert(bf_of(s.subrange(i, s.len() as int)) =~= Seq::<u8>::empty());
    }
}

/// Whether the instruction at `i` is `SetValue(0)`.
fn is_zero_set<Int: BrainfuckInteger>(code: &Brainfuck<Int>, i: usize) -> (r: bool)
    requires
        i < code@.len(),
    ensures
        r == (code@[i as int] == Op::SetValue(0)),
{
    match code.get(i) {
        Some(Instruct::SetValue(v)) => v.is_zero(),
        _ => false,
    }
}

/// Appends `count` copies of `b`, a command byte.
fn push_command(out: &mut Vec<u8>, b: u8, count: u64)
    requires
        is_command(b),
        forall|k: int| 0 <= k < old(out)@.len() ==> is_command(#[trigger] old(out)@[k]),
    ensures
        final(out)@ == old(out)@ + rep(b, count as int),
        count == 1 ==> final(out)@ == old(out)@.push(b),
        forall|k: int| 0 <= k < final(out)@.len() ==> is_command(#[trigger] final(out)@[k]),
{
    push_repeat_byte(out, b, count);
    proof {
        lemma_rep_one(b);
        if count == 1 {
            assert(out@ =~= old(out)@.push(b));
        }
    }
}

/// Appends the text of an instruction other than a copy.
fn write_instr<Int: BrainfuckInteger>(out: &mut Vec<u8>, instr: &Instruct<Int>)
    requires
        !is_copy(instr@),
        forall|k: int| 0 <= k < old(out)@.len() ==> is_command(#[trigger] old(out)@[k]),
    ensures
        final(out)@ == old(out)@ + bf_piece(instr@),
        forall|k: int| 0 <= k < final(out)@.len() ==> is_command(#[trigger] final(out)@[k]),
{
    let ghost o = old(out)@;
    match instr {
        Instruct::Move(off) => {
            let off = *off as i64;
            push_command(out, if off > 0 {
                '>' as u8
            } else {
                '<' as u8
            }, magnitude(off));
        },
        Instruct::Add(val) => {
            let v = val.i64();
            push_command(out, if v > 0 {
                '+' as u8
            } else {
                '-' as u8
            }, magnitude(v));
        },
        Instruct::SetValue(val) => {
            let v = val.i64();
            push_command(out, '[' as u8, 1);
            push_command(out, '-' as u8, 1);
            push_command(out, ']' as u8, 1);
            let ghost mid = out@;
            push_command(out, if v > 0 {
                '+' as u8
            } else {
                '-' as u8
            }, magnitude(v));
            proof {
                assert(mid =~= o + seq!['[' as u8, '-' as u8, ']' as u8]);
                assert(out@ =~= o + bf_piece(instr@));
            }
        },
        Instruct::Read => push_command(out, ',' as u8, 1),
        Instruct::Write => push_command(out, '.' as u8, 1),
        Instruct::LoopStart(_) => push_command(out, '[' as u8, 1),
        Instruct::LoopEnd(_) => push_command(out, ']' as u8, 1),
        Instruct::WriteStr(data) => {
            let mut k: usize = 0;
            while k < data.len()
                invariant
                    k <= data@.len(),
                    forall|j: int| 0 <= j < out@.len() ==> is_command(#[trigger] out@[j]),
                    out@ == o + bytes_bf(data@.take(k as int)),
                decreases data@.len() - k,
            {
                let ghost prev = out@;
                push_command(out, '[' as u8, 1);
                push_command(out, '-' as u8, 1);
                push_command(out, ']' as u8, 1);
                push_command(out, '+' as u8, data[k] as u64);
                push_command(out, '.' as u8, 1);
                k += 1;
                proof {
                    assert(data@.take(k as int).drop_last() =~= data@.take(k - 1));
                    assert(out@ =~= o + bytes_bf(data@.take(k as int)));
                }
            }
            proof {
                assert(data@.take(k as int) =~= data@);
            }
        },
        _ => {},
    }
    proof {
        assert(out@ =~= o + bf_piece(instr@));
    }
}

/// Appends `[-` and the copies of the run at `start`; returns the index
/// after the run.
fn write_group<Int: BrainfuckInteger>(out: &mut Vec<u8>, code: &Brainfuck<Int>, start: usize) -> (r: usize)
    requires
        start < code@.len(),
        is_copy(code@[start as int]),
        forall|k: int| 0 <= k < old(out)@.len() ==> is_command(#[trigger] old(out)@[k]),
    ensures
        start < r <= code@.len(),
        r == copy_run_end(code@, start as int),
        final(out)@ == old(out)@ + seq!['[' as u8, '-' as u8] + copies_text(code@, start as int, r as int),
        forall|k: int| 0 <= k < final(out)@.len() ==> is_command(#[trigger] final(out)@[k]),
        forall|k: int| start <= k < r ==> is_copy(#[trigger] code@[k]),
{
    let n = code.len();
    push_command(out, '[' as u8, 1);
    push_command(out, '-' as u8, 1);
    let ghost head = out@;
    proof {
        assert(head =~= old(out)@ + seq!['[' as u8, '-' as u8]);
    }
    let mut index = start;
    loop
        invariant_except_break
            index == start ==> is_copy(code@[index as int]),
        invariant
            n == code@.len(),
            start < n,
            start <= index <= n,
            forall|k: int| 0 <= k < out@.len() ==> is_command(#[trigger] out@[k]),
            copy_run_end(code@, index as int) == copy_run_end(code@, start as int),
            forall|k: int| start <= k < index ==> is_copy(#[trigger] code@[k]),
            out@ + copies_text(code@, index as int, copy_run_end(code@, start as int)) == head
                + copies_text(code@, start as int, copy_run_end(code@, start as int)),
        ensures
            start < index <= n,
            forall|k: int| 0 <= k < out@.len() ==> is_command(#[trigger] out@[k]),
            copy_run_end(code@, start as int) == index,
            forall|k: int| start <= k < index ==> is_copy(#[trigger] code@[k]),
            out@ == head + copies_text(code@, start as int, index as int),
        decreases n - index,
    {
        let ghost e = copy_run_end(code@, start as int);
        let (off, op) = match code.get(index) {
            Some(Instruct::AddTo(off)) => (*off as i64, '+' as u8),
            Some(Instruct::SubFrom(off)) => (*off as i64, '-' as u8),
            _ => {
                proof {
                    assert(copies_text(code@, index as int, e) =~= Seq::<u8>::empty());
                    assert(out@ =~= out@ + copies_text(code@, index as int, e));
                }
                break;
            },
        };
        let ghost before = out@;
        let dist = magnitude(off);
        push_command(out, if off > 0 {
            '>' as u8
        } else {
            '<' as u8
        }, dist);
        push_command(out, op, 1);
        push_command(out, if off > 0 {
            '<' as u8
        } else {
            '>' as u8
        }, dist);
        proof {
            assert(out@ =~= before + copy_piece(code@[index as int]));
            lemma_run_end(code@, index as int);
        }
        index += 1;
        proof {
            lemma_run_end(code@, index as int);
            assert(before + copies_text(code@, index - 1, e) =~= out@ + copies_text(code@, index as int, e));
        }
    }
    index
}

impl<Int: BrainfuckInteger> Brainfuck<Int> {
    /// A readable listing: one line per instruction, indented by loop depth.
    pub fn write_debug(&self) -> (r: Vec<u8>)
        requires
            self.complete(),
        ensures
            r@ == debug_listing(self@, self@.len() as int),
    {
        let n = self.len();
        let mut out: Vec<u8> = Vec::new();
        let mut nesting: usize = 0;
        let mut i: usize = 0;
        proof {
            self.lemma_complete();
            lemma_wf_facts(self@);
            lemma_depth_zero(self@);
        }
        while i < n
            invariant
                self.complete(),
                n == self@.len(),
                i <= n,
                nesting == depth(self@, i as int),
                forall|k: int| 0 <= k <= n ==> depth(self@, k) >= 0,
                forall|j: int| 0 <= j < n && (#[trigger] self@[j]) is LoopEnd ==> depth(self@, j) >= 1,
                out@ == debug_listing(self@, i as int),
            decreases n - i,
        {
            proof {
                lemma_depth_step(self@, i as int);
                lemma_depth_bound(self@, i as int);
            }
            let instr = self.get(i).unwrap();
            debug_instr(&mut out, instr, nesting);
            match instr {
                Instruct::LoopStart(_) => {
                    nesting += 1;
                },
                Instruct::LoopEnd(_) => {
                    nesting -= 1;
                },
                _ => {},
            }
            i += 1;
        }
        out
    }

    /// The program as Brainfuck source (see `bf_text`). An assignment becomes
    /// `[-]` and additions, a `WriteStr` becomes assignments and writes, and a
    /// group of `AddTo`/`SubFrom` becomes a copy loop; such a group must be
    /// followed by `SetValue(0)`, which the loop stands for, else the program
    /// cannot be written back.
    #[verifier::rlimit(100)]
    pub fn write_bf(&self) -> (r: Result<Vec<u8>, Error>)
        ensures
            r is Ok ==> forall|k: int| 0 <= k < r->Ok_0@.len() ==> is_command(#[trigger] r->Ok_0@[k]),
            r is Ok <==> copies_closed(self@),
            r is Ok ==> r->Ok_0@ == bf_from(self@, 0),
            r is Err ==> r->Err_0 is IO,
            (forall|i: int| 0 <= i < self@.len() ==> simple(#[trigger] self@[i])) ==> r is Ok
                && r->Ok_0@ == bf_of(self@),
    {
        let n = self.len();
        let mut out: Vec<u8> = Vec::new();
        let mut index: usize = 0;
        proof {
            assert(out@ + bf_from(self@, 0) =~= bf_from(self@, 0));
        }
        while index < n
            invariant
                n == self@.len(),
                index <= n,
                forall|k: int| 0 <= k < out@.len() ==> is_command(#[trigger] out@[k]),
                index == 0 || !is_copy(self@[index - 1]),
                forall|g: int|
                    0 <= g < index && is_copy(#[trigger] self@[g]) && (g == 0 || !is_copy(self@[g - 1]))
                        ==> {
                        let j = copy_run_end(self@, g);
                        j < self@.len() && self@[j] == Op::SetValue(0)
                    },
                copies_closed(self@) ==> out@ + bf_from(self@, index as int) == bf_from(self@, 0),
            decreases n - index,
        {
            let ghost before = out@;
            let ghost at = index as int;
            let copy = match self.get(index) {
                Some(Instruct::AddTo(_)) | Some(Instruct::SubFrom(_)) => true,
                _ => false,
            };
            if copy {
                let end = write_group(&mut out, self, index);
                proof {
                    assert forall|g: int|
                        0 <= g < end && is_copy(#[trigger] self@[g]) && (g == 0 || !is_copy(
                            self@[g - 1],
                        )) implies g < at || g == at by {
                        if at < g < end {
                            assert(is_copy(self@[g - 1]));
                        }
                    }
                }
                if end < n && is_zero_set(self, end) {
                    push_repeat_byte(&mut out, ']' as u8, 1);
                    index = end + 1;
                    proof {
                        assert(out@ =~= before + (seq!['[' as u8, '-' as u8] + copies_text(self@, at, end as int)
                            + seq![']' as u8]));
                        if copies_closed(self@) {
                            assert(out@ + bf_from(self@, index as int) =~= before + bf_from(self@, at));
                        }
                    }
                } else {
                    proof {
                        assert(is_copy(self@[at]) && (at == 0 || !is_copy(self@[at - 1])));
                        assert(!copies_closed(self@));
                    }
                    let msg =
                        "this optimized brainfuck program cannot (easily) be converted back to brainfuck anymore";
                    return Err(Error::IO(msg.to_owned()));
                }
            } else {
                write_instr(&mut out, self.get(index).unwrap());
                index += 1;
                proof {
                    if copies_closed(self@) {
                        assert(out@ + bf_from(self@, index as int) =~= before + bf_from(self@, at));
                    }
                }
            }
        }
        proof {
            assert forall|i: int|
                0 <= i < self@.len() && is_copy(#[trigger] self@[i]) && (i == 0 || !is_copy(self@[i - 1]))
                    implies ({
                    let j = copy_run_end(self@, i);
                    j < self@.len() && self@[j] == Op::SetValue(0)
                }) by {}
            assert(out@ =~= out@ + bf_from(self@, n as int));
            if forall|i: int| 0 <= i < self@.len() ==> simple(#[trigger] self@[i]) {
                lemma_bf_simple(self@, 0);
                assert(self@.subrange(0, self@.len() as int) =~= self@);
            }
        }
        Ok(out)
    }
}

} // verus!
