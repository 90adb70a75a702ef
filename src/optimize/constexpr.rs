//! Partial evaluation of the part of a program that does not depend on input.
use vstd::prelude::*;
use crate::instruct::{Instruct, Op, delta, depth, loop_closed, lemma_depth_step, lemma_depth_zero, lemma_shapes_push, lemma_wf_facts, shape, shapes};
use crate::integer::{BrainfuckInteger, low_byte, wrap};
use crate::program::Brainfuck;

verus! {

/// The number of instructions that the evaluator runs before it stops; the
/// rest of the program is then kept as it is.
pub const STEP_LIMIT: u64 = 100_000_000;

/// The state of the evaluation: the tape, which cells hold a value read
/// from input (`dirty`) and which were ever read into, the pointer, the
/// program counter, where the pointer of the emitted code stands (`cur`),
/// the instructions emitted, the bytes written, and whether it stopped.
pub struct Eval {
    pub mem: Seq<int>,
    pub dirty: Seq<bool>,
    pub read: Seq<bool>,
    pub ptr: int,
    pub pc: int,
    pub cur: int,
    pub out: Seq<Op>,
    pub echo: Seq<u8>,
    pub stop: bool,
}

/// `v` extended with `fill` to at least `n` entries.
pub open spec fn grow_to<T>(v: Seq<T>, n: int, fill: T) -> Seq<T> {
    if v.len() >= n {
        v
    } else {
        v + Seq::new((n - v.len()) as nat, |i: int| fill)
    }
}

/// `e` with its tape holding cell `i`.
pub open spec fn grown(e: Eval, i: int) -> Eval {
    Eval {
        mem: grow_to(e.mem, i + 1, 0),
        dirty: grow_to(e.dirty, i + 1, false),
        read: grow_to(e.read, i + 1, false),
        ..e
    }
}

/// `e` with `d` clean zero cells put in front of its tape; the emitted
/// pointer keeps pointing at the same cell.
pub open spec fn shifted(e: Eval, d: int) -> Eval {
    Eval {
        mem: Seq::new(d as nat, |i: int| 0int) + e.mem,
        dirty: Seq::new(d as nat, |i: int| false) + e.dirty,
        read: Seq::new(d as nat, |i: int| false) + e.read,
        cur: e.cur + d,
        ..e
    }
}

/// `e` stopped.
pub open spec fn stopped(e: Eval) -> Eval {
    Eval { stop: true, ..e }
}

/// One step of the evaluation of `s`, with cells of `m` values.
pub open spec fn eval_step(s: Seq<Op>, m: int, e: Eval) -> Eval {
    let g = grown(e, e.ptr);
    let p = e.ptr;
    let d = g.dirty[p];
    match s[e.pc] {
        Op::Move(off) => {
            let t = p + off;
            if d || t >= isize::MAX {
                stopped(g)
            } else if t >= 0 {
                Eval { ptr: t, pc: e.pc + 1, ..g }
            } else if g.mem.len() - t >= isize::MAX || g.cur - t >= isize::MAX {
                stopped(g)
            } else {
                Eval { ptr: 0, pc: e.pc + 1, ..shifted(g, -t) }
            }
        },
        Op::Add(v) => if d {
            stopped(g)
        } else {
            Eval { mem: g.mem.update(p, wrap(m, g.mem[p] + v)), pc: e.pc + 1, ..g }
        },
        Op::SetValue(v) => Eval {
            mem: g.mem.update(p, v),
            dirty: g.dirty.update(p, false),
            pc: e.pc + 1,
            ..g
        },
        Op::AddTo(off) => copy_step(m, g, off, g.mem[p]),
        Op::SubFrom(off) => copy_step(m, g, off, wrap(m, -g.mem[p])),
        Op::Read => {
            let out = if p != e.cur {
                e.out.push(Op::Move(p - e.cur))
            } else {
                e.out
            };
            Eval {
                dirty: g.dirty.update(p, true),
                read: g.read.update(p, true),
                cur: p,
                out: out.push(Op::Read),
                pc: e.pc + 1,
                ..g
            }
        },
        Op::Write => if d {
            stopped(g)
        } else {
            let b = low_byte(g.mem[p]);
            Eval { echo: e.echo.push(b), out: e.out.push(Op::WriteStr(seq![b])), pc: e.pc + 1, ..g }
        },
        Op::WriteStr(data) => Eval {
            echo: e.echo + data,
            out: e.out.push(Op::WriteStr(data)),
            pc: e.pc + 1,
            ..g
        },
        Op::LoopStart(t) => if d {
            stopped(g)
        } else {
            Eval {
                pc: if g.mem[p] == 0 {
                    t
                } else {
                    e.pc + 1
                },
                ..g
            }
        },
        Op::LoopEnd(st) => Eval { pc: st, ..g },
    }
}

/// `AddTo` and `SubFrom` in the evaluation: add `val` into the cell at
/// offset `off`, unless the current cell or the target is unknown.
pub open spec fn copy_step(m: int, g: Eval, off: int, val: int) -> Eval {
    let p = g.ptr;
    let t = p + off;
    if g.dirty[p] || t < 0 || t >= isize::MAX {
        stopped(g)
    } else {
        let g2 = grown(g, t);
        if g2.dirty[t] {
            stopped(g2)
        } else {
            Eval { mem: g2.mem.update(t, wrap(m, g2.mem[t] + val)), pc: g.pc + 1, ..g2 }
        }
    }
}

/// The evaluation after at most `fuel` more steps.
pub open spec fn eval_run(s: Seq<Op>, m: int, e: Eval, fuel: nat) -> Eval
    decreases fuel,
{
    if fuel == 0 || e.stop || e.pc < 0 || e.pc >= s.len() {
        e
    } else {
        eval_run(s, m, eval_step(s, m, e), (fuel - 1) as nat)
    }
}

/// The evaluation at the start: a clean tape, nothing emitted.
pub open spec fn eval_start() -> Eval {
    Eval {
        mem: Seq::empty(),
        dirty: Seq::empty(),
        read: Seq::empty(),
        ptr: 0,
        pc: 0,
        cur: 0,
        out: Seq::empty(),
        echo: Seq::empty(),
        stop: false,
    }
}

/// The assignments that rebuild the known cells from index `t` on, with
/// the emitted pointer at `cur`; and where that pointer ends. A cell is
/// rebuilt when it is known and non-zero, or known after a read.
pub open spec fn rebuild(mem: Seq<int>, dirty: Seq<bool>, read: Seq<bool>, t: int, cur: int) -> (
    Seq<Op>,
    int,
)
    decreases mem.len() - t,
{
    if t < 0 || t >= mem.len() {
        (Seq::empty(), cur)
    } else if !dirty[t] && (mem[t] != 0 || read[t]) {
        let step = if cur != t {
            seq![Op::Move(t - cur), Op::SetValue(mem[t])]
        } else {
            seq![Op::SetValue(mem[t])]
        };
        let (rest, c) = rebuild(mem, dirty, read, t + 1, t);
        (step + rest, c)
    } else {
        rebuild(mem, dirty, read, t + 1, cur)
    }
}

/// The rest of `s` from index `pc` on, as shapes, with `open` loops of it
/// reopened and `base` enclosing loops that were entered during evaluation:
/// reaching the end of one of those goes back to its start, so that its
/// test is made again.
pub open spec fn tail_from(s: Seq<Op>, pc: int, open: int, base: nat) -> Seq<Op>
    decreases base, s.len() - pc,
{
    if pc < 0 || pc >= s.len() {
        Seq::empty()
    } else if s[pc] is LoopEnd && open == 0 {
        let st = s[pc]->LoopEnd_0;
        if base > 0 && 0 <= st < s.len() {
            tail_from(s, st, 0, (base - 1) as nat)
        } else {
            Seq::empty()
        }
    } else {
        seq![shape(s[pc])] + tail_from(s, pc + 1, open + delta(s[pc]), base)
    }
}

/// What the pass makes of `s` with cells of `m` values, as shapes, and the
/// bytes written by the evaluated part.
pub open spec fn constexpr_result(s: Seq<Op>, m: int) -> (Seq<Op>, Seq<u8>) {
    let f = eval_run(s, m, eval_start(), STEP_LIMIT as nat);
    if 0 <= f.pc < s.len() {
        let (ops, c) = rebuild(f.mem, f.dirty, f.read, 0, f.cur);
        let back = if c != f.ptr {
            seq![Op::Move(f.ptr - c)]
        } else {
            Seq::empty()
        };
        (f.out + ops + back + tail_from(s, f.pc, 0, depth(s, f.pc) as nat), f.echo)
    } else {
        (f.out, f.echo)
    }
}

/// The executable state of the evaluation.
struct Evaluator<Int> {
    mem: Vec<Int>,
    dirty: Vec<bool>,
    was_read: Vec<bool>,
    ptr: usize,
    pc: usize,
    current_ptr: usize,
    opt: Brainfuck<Int>,
    echo: Vec<u8>,
}

impl<Int: BrainfuckInteger> Evaluator<Int> {
    spec fn view(&self, stop: bool) -> Eval {
        Eval {
            mem: self.mem@.map_values(|v: Int| v.value()),
            dirty: self.dirty@,
            read: self.was_read@,
            ptr: self.ptr as int,
            pc: self.pc as int,
            cur: self.current_ptr as int,
            out: self.opt@,
            echo: self.echo@,
            stop,
        }
    }

    spec fn inv(&self) -> bool {
        &&& self.mem@.len() == self.dirty@.len() == self.was_read@.len()
        &&& self.mem@.len() <= isize::MAX
        &&& self.ptr < isize::MAX
        &&& self.current_ptr < isize::MAX
        &&& self.opt.well_formed()
        &&& self.opt.open_loops().len() == 0
        &&& shapes(self.opt@) == self.opt@
    }

    /// Makes the tape hold cell `i`.
    fn grow(&mut self, i: usize)
        requires
            old(self).inv(),
            i < isize::MAX,
        ensures
            final(self).inv(),
            final(self).mem@.len() > i,
            final(self).view(false) == grown(old(self).view(false), i as int),
    {
        let ghost start = self.view(false);
        while self.mem.len() <= i
            invariant
                self.inv(),
                i < isize::MAX,
                self.ptr == old(self).ptr,
                self.pc == old(self).pc,
                self.current_ptr == old(self).current_ptr,
                self.opt@ == old(self).opt@,
                self.echo@ == old(self).echo@,
                old(self).mem@.len() <= i ==> self.mem@.len() <= i + 1,
                old(self).mem@.len() > i ==> self.mem@.len() == old(self).mem@.len(),
                self.mem@.len() >= old(self).mem@.len(),
                self.view(false).mem == grow_to(start.mem, self.mem@.len() as int, 0),
                self.dirty@ == grow_to(start.dirty, self.mem@.len() as int, false),
                self.was_read@ == grow_to(start.read, self.mem@.len() as int, false),
            decreases i + 1 - self.mem@.len(),
        {
            let ghost before = self.view(false);
            let z = Int::zero();
            self.mem.push(z);
            self.dirty.push(false);
            self.was_read.push(false);
            proof {
                assert(self.view(false).mem =~= before.mem.push(0));
                assert(grow_to(start.mem, self.mem@.len() as int, 0) =~= grow_to(
                    start.mem,
                    self.mem@.len() - 1,
                    0,
                ).push(0));
                assert(grow_to(start.dirty, self.mem@.len() as int, false) =~= grow_to(
                    start.dirty,
                    self.mem@.len() - 1,
                    false,
                ).push(false));
                assert(grow_to(start.read, self.mem@.len() as int, false) =~= grow_to(
                    start.read,
                    self.mem@.len() - 1,
                    false,
                ).push(false));
            }
        }
        proof {
            assert(self.view(false).mem =~= grow_to(start.mem, i + 1, 0));
            assert(self.dirty@ =~= grow_to(start.dirty, i + 1, false));
            assert(self.was_read@ =~= grow_to(start.read, i + 1, false));
        }
    }

    /// Stores `v` in cell `i`, which the tape holds.
    fn store(&mut self, i: usize, v: Int)
        requires
            old(self).inv(),
            i < old(self).mem@.len(),
        ensures
            final(self).inv(),
            final(self).view(false) == (Eval {
                mem: old(self).view(false).mem.update(i as int, v.value()),
                ..old(self).view(false)
            }),
    {
        self.mem.set(i, v);
        proof {
            assert(self.view(false).mem =~= old(self).view(false).mem.update(i as int, v.value()));
        }
    }

    /// Appends an instruction that is no loop instruction to the output.
    fn emit(&mut self, x: Instruct<Int>)
        requires
            old(self).inv(),
            crate::instruct::plain(x@),
        ensures
            final(self).inv(),
            final(self).view(false) == (Eval { out: old(self).opt@.push(x@), ..old(self).view(false) }),
    {
        let ghost prev = self.opt@;
        match x {
            Instruct::Move(off) => self.opt.push_move(off),
            Instruct::SetValue(v) => self.opt.push_set(v),
            Instruct::Read => self.opt.push_read(),
            Instruct::WriteStr(d) => self.opt.push_write_str(d),
            Instruct::Add(v) => self.opt.push_add(v),
            Instruct::AddTo(off) => self.opt.push_add_to(off),
            Instruct::SubFrom(off) => self.opt.push_sub_from(off),
            _ => self.opt.push_write(),
        }
        proof {
            lemma_shapes_push(prev, x@);
        }
    }

    /// The state is `e` with cell `e.ptr` on the tape; the instruction at
    /// `e.pc` of `code` is the one to run.
    spec fn at_step(&self, code: Seq<Op>, e: Eval) -> bool {
        &&& self.inv()
        &&& self.view(false) == grown(e, e.ptr)
        &&& 0 <= e.pc < code.len()
        &&& e.pc + 1 <= usize::MAX
        &&& 0 <= e.ptr < self.mem@.len()
        &&& !e.stop
    }

    fn step_move(&mut self, code: &Brainfuck<Int>, off: isize, Ghost(e): Ghost<Eval>) -> (stop: bool)
        requires
            old(self).at_step(code@, e),
            code@[e.pc] == Op::Move(off as int),
        ensures
            final(self).inv(),
            final(self).view(stop) == eval_step(code@, Int::modulus(), e),
    {
        let ptr = self.ptr;
        let t = ptr as i128 + off as i128;
        if self.dirty[ptr] || t >= isize::MAX as i128 {
            return true;
        }
        if t >= 0 {
            self.ptr = t as usize;
        } else {
            if self.mem.len() as i128 - t >= isize::MAX as i128 || self.current_ptr as i128 - t
                >= isize::MAX as i128 {
                return true;
            }
            self.shift((-t) as usize);
            self.ptr = 0;
        }
        self.pc = self.pc + 1;
        false
    }

    /// Puts `d` clean zero cells in front of the tape.
    fn shift(&mut self, d: usize)
        requires
            old(self).inv(),
            old(self).mem@.len() + d < isize::MAX,
            old(self).current_ptr + d < isize::MAX,
        ensures
            final(self).inv(),
            final(self).ptr == old(self).ptr,
            final(self).view(false) == shifted(old(self).view(false), d as int),
    {
        let ghost e = self.view(false);
        let mut mem: Vec<Int> = Vec::new();
        let mut dirty: Vec<bool> = Vec::new();
        let mut was_read: Vec<bool> = Vec::new();
        let mut k: usize = 0;
        while k < d
            invariant
                k <= d,
                mem@.len() == k,
                dirty@.len() == k,
                was_read@.len() == k,
                forall|i: int| 0 <= i < k ==> (#[trigger] mem@[i]).value() == 0,
                forall|i: int| 0 <= i < k ==> !(#[trigger] dirty@[i]),
                forall|i: int| 0 <= i < k ==> !(#[trigger] was_read@[i]),
            decreases d - k,
        {
            mem.push(Int::zero());
            dirty.push(false);
            was_read.push(false);
            k += 1;
        }
        let mut j: usize = 0;
        while j < self.mem.len()
            invariant
                self.inv(),
                self.view(false) == e,
                j <= self.mem@.len(),
                mem@.len() == d + j,
                dirty@.len() == d + j,
                was_read@.len() == d + j,
                forall|i: int| 0 <= i < d ==> (#[trigger] mem@[i]).value() == 0,
                forall|i: int| 0 <= i < d ==> !(#[trigger] dirty@[i]),
                forall|i: int| 0 <= i < d ==> !(#[trigger] was_read@[i]),
                forall|i: int| d <= i < d + j ==> (#[trigger] mem@[i]) == self.mem@[i - d],
                forall|i: int| d <= i < d + j ==> (#[trigger] dirty@[i]) == self.dirty@[i - d],
                forall|i: int| d <= i < d + j ==> (#[trigger] was_read@[i]) == self.was_read@[i - d],
            decreases self.mem@.len() - j,
        {
            mem.push(self.mem[j]);
            dirty.push(self.dirty[j]);
            was_read.push(self.was_read[j]);
            j += 1;
        }
        self.mem = mem;
        self.dirty = dirty;
        self.was_read = was_read;
        self.current_ptr = self.current_ptr + d;
        proof {
            let f = shifted(e, d as int);
            assert(self.view(false).mem =~= f.mem);
            assert(self.view(false).dirty =~= f.dirty);
            assert(self.view(false).read =~= f.read);
        }
    }

    fn step_add(&mut self, code: &Brainfuck<Int>, val: Int, Ghost(e): Ghost<Eval>) -> (stop: bool)
        requires
            old(self).at_step(code@, e),
            code@[e.pc] == Op::Add(val.value()),
        ensures
            final(self).inv(),
            final(self).view(stop) == eval_step(code@, Int::modulus(), e),
    {
        let ptr = self.ptr;
        if self.dirty[ptr] {
            return true;
        }
        let v = self.mem[ptr].wrapping_add(val);
        self.store(ptr, v);
        self.pc = self.pc + 1;
        false
    }

    fn step_set(&mut self, code: &Brainfuck<Int>, val: Int, Ghost(e): Ghost<Eval>) -> (stop: bool)
        requires
            old(self).at_step(code@, e),
            code@[e.pc] == Op::SetValue(val.value()),
        ensures
            final(self).inv(),
            final(self).view(stop) == eval_step(code@, Int::modulus(), e),
    {
        let ptr = self.ptr;
        self.store(ptr, val);
        let ghost g = self.view(false);
        self.dirty.set(ptr, false);
        self.pc = self.pc + 1;
        proof {
            assert(self.view(false).dirty =~= g.dirty.update(ptr as int, false));
        }
        false
    }

    fn step_copy(&mut self, code: &Brainfuck<Int>, off: isize, sub: bool, Ghost(e): Ghost<Eval>) -> (stop: bool)
        requires
            old(self).at_step(code@, e),
            sub ==> code@[e.pc] == Op::SubFrom(off as int),
            !sub ==> code@[e.pc] == Op::AddTo(off as int),
        ensures
            final(self).inv(),
            final(self).view(stop) == eval_step(code@, Int::modulus(), e),
    {
        let ptr = self.ptr;
        let cur = self.mem[ptr];
        let delta = if sub {
            cur.wrapping_neg()
        } else {
            cur
        };
        let t = ptr as i128 + off as i128;
        if self.dirty[ptr] || t < 0 || t >= isize::MAX as i128 {
            return true;
        }
        let target = t as usize;
        self.grow(target);
        if self.dirty[target] {
            return true;
        }
        let v = self.mem[target].wrapping_add(delta);
        self.store(target, v);
        self.pc = self.pc + 1;
        false
    }

    fn step_read(&mut self, code: &Brainfuck<Int>, Ghost(e): Ghost<Eval>) -> (stop: bool)
        requires
            old(self).at_step(code@, e),
            code@[e.pc] == Op::Read,
        ensures
            final(self).inv(),
            final(self).view(stop) == eval_step(code@, Int::modulus(), e),
    {
        let ptr = self.ptr;
        let ghost g = self.view(false);
        if ptr != self.current_ptr {
            self.emit(Instruct::Move(ptr as isize - self.current_ptr as isize));
            self.current_ptr = ptr;
        }
        self.emit(Instruct::Read);
        self.dirty.set(ptr, true);
        self.was_read.set(ptr, true);
        self.pc = self.pc + 1;
        proof {
            assert(self.view(false).dirty =~= g.dirty.update(ptr as int, true));
            assert(self.view(false).read =~= g.read.update(ptr as int, true));
        }
        false
    }

    fn step_write(&mut self, code: &Brainfuck<Int>, Ghost(e): Ghost<Eval>) -> (stop: bool)
        requires
            old(self).at_step(code@, e),
            code@[e.pc] == Op::Write,
        ensures
            final(self).inv(),
            final(self).view(stop) == eval_step(code@, Int::modulus(), e),
    {
        let ptr = self.ptr;
        if self.dirty[ptr] {
            return true;
        }
        let byte = self.mem[ptr].get_least_byte();
        self.echo.push(byte);
        let data = vec![byte];
        proof {
            assert(data@ =~= seq![byte]);
        }
        self.emit(Instruct::WriteStr(data));
        self.pc = self.pc + 1;
        false
    }

    fn step_write_str(&mut self, code: &Brainfuck<Int>, data: &Vec<u8>, Ghost(e): Ghost<Eval>) -> (stop: bool)
        requires
            old(self).at_step(code@, e),
            code@[e.pc] == Op::WriteStr(data@),
            data@.len() > 0,
        ensures
            final(self).inv(),
            final(self).view(stop) == eval_step(code@, Int::modulus(), e),
    {
        let ghost g = self.view(false);
        let ghost echo0 = self.echo@;
        let mut k: usize = 0;
        while k < data.len()
            invariant
                k <= data@.len(),
                self.echo@ == echo0 + data@.take(k as int),
                self.inv(),
                self.view(false) == (Eval { echo: self.echo@, ..g }),
            decreases data@.len() - k,
        {
            self.echo.push(data[k]);
            k += 1;
            proof {
                assert(self.echo@ =~= echo0 + data@.take(k as int));
            }
        }
        proof {
            assert(data@.take(k as int) =~= data@);
        }
        self.emit(Instruct::WriteStr(data.clone()));
        self.pc = self.pc + 1;
        false
    }

    fn step_loop(&mut self, code: &Brainfuck<Int>, target: usize, start: bool, Ghost(e): Ghost<Eval>) -> (stop: bool)
        requires
            old(self).at_step(code@, e),
            start ==> code@[e.pc] == Op::LoopStart(target as int),
            !start ==> code@[e.pc] == Op::LoopEnd(target as int),
        ensures
            final(self).inv(),
            final(self).view(stop) == eval_step(code@, Int::modulus(), e),
    {
        let ptr = self.ptr;
        if start {
            if self.dirty[ptr] {
                return true;
            }
            if self.mem[ptr].is_zero() {
                self.pc = target;
            } else {
                self.pc = self.pc + 1;
            }
        } else {
            self.pc = target;
        }
        false
    }

    /// Takes one step of the evaluation; returns whether it stopped.
    fn step(&mut self, code: &Brainfuck<Int>) -> (stop: bool)
        requires
            old(self).inv(),
            code.complete(),
            old(self).pc < code@.len(),
        ensures
            final(self).inv(),
            final(self).view(stop) == eval_step(code@, Int::modulus(), old(self).view(false)),
    {
        let ghost e = self.view(false);
        let n = code.len();
        proof {
            code.lemma_complete();
            lemma_wf_facts(code@);
        }
        let ptr = self.ptr;
        self.grow(ptr);
        match code.get(self.pc) {
            Some(Instruct::Move(off)) => self.step_move(code, *off, Ghost(e)),
            Some(Instruct::Add(val)) => self.step_add(code, *val, Ghost(e)),
            Some(Instruct::SetValue(val)) => self.step_set(code, *val, Ghost(e)),
            Some(Instruct::AddTo(off)) => self.step_copy(code, *off, false, Ghost(e)),
            Some(Instruct::SubFrom(off)) => self.step_copy(code, *off, true, Ghost(e)),
            Some(Instruct::Read) => self.step_read(code, Ghost(e)),
            Some(Instruct::Write) => self.step_write(code, Ghost(e)),
            Some(Instruct::WriteStr(data)) => {
                proof {
                    assert(crate::instruct::nontrivial(code@[self.pc as int]));
                }
                self.step_write_str(code, data, Ghost(e))
            },
            Some(Instruct::LoopStart(t)) => self.step_loop(code, *t, true, Ghost(e)),
            Some(Instruct::LoopEnd(t)) => self.step_loop(code, *t, false, Ghost(e)),
            None => true,
        }
    }
}

/// Runs the program from a clean tape at compile time, as far as no input
/// decides anything (and at most `STEP_LIMIT` instructions); see
/// `constexpr_result`. The result is the reads and output met on the way,
/// then assignments that rebuild the tape, then the rest of the program;
/// with it come the bytes that the evaluated part writes. A cell that was
/// read is unknown until it is assigned; evaluation stops at a move,
/// addition, loop test or write on such a cell, and at a copy from or into
/// an unknown cell or left of the start of the tape. A move left of the start
/// puts clean zero cells in front of the tape, as the interpreter does. The
/// step bound is there because every loop here must be shown to end: a
/// program that runs longer without input is simply left to run at run time.
pub fn optimize<Int: BrainfuckInteger>(code: &Brainfuck<Int>) -> (r: (Brainfuck<Int>, Vec<u8>))
    requires
        code.complete(),
    ensures
        r.0.complete(),
        shapes(r.0@) == constexpr_result(code@, Int::modulus()).0,
        r.1@ == constexpr_result(code@, Int::modulus()).1,
{
    let mut ev = Evaluator {
        mem: Vec::new(),
        dirty: Vec::new(),
        was_read: Vec::new(),
        ptr: 0,
        pc: 0,
        current_ptr: 0,
        opt: Brainfuck::new(),
        echo: Vec::new(),
    };
    let mut steps: u64 = 0;
    let mut stop = false;
    let n = code.len();
    proof {
        assert(ev.view(false).mem =~= Seq::<int>::empty());
        assert(ev.view(false).out =~= Seq::<Op>::empty());
        assert(ev.view(false) == eval_start());
        assert(shapes(ev.opt@) =~= ev.opt@);
        code.lemma_complete();
        lemma_wf_facts(code@);
    }
    while ev.pc < n && steps < STEP_LIMIT && !stop
        invariant
            code.complete(),
            n == code@.len(),
            ev.inv(),
            steps <= STEP_LIMIT,
            eval_run(code@, Int::modulus(), ev.view(stop), (STEP_LIMIT - steps) as nat) == eval_run(
                code@,
                Int::modulus(),
                eval_start(),
                STEP_LIMIT as nat,
            ),
        decreases STEP_LIMIT - steps,
    {
        stop = ev.step(code);
        steps += 1;
    }
    let ghost f = ev.view(stop);
    proof {
        assert(eval_run(code@, Int::modulus(), f, (STEP_LIMIT - steps) as nat) == f);
    }
    let mut opt = ev.opt;
    if ev.pc < n {
        let ghost out0 = opt@;
        let ghost full = rebuild(f.mem, f.dirty, f.read, 0, f.cur);
        let mut t: usize = 0;
        let mut current_ptr = ev.current_ptr;
        while t < ev.mem.len()
            invariant
                opt.well_formed(),
                opt.open_loops().len() == 0,
                shapes(opt@) == opt@,
                current_ptr < isize::MAX,
                ev.mem@.len() == ev.dirty@.len() == ev.was_read@.len(),
                ev.mem@.len() <= isize::MAX,
                t <= ev.mem@.len(),
                opt@ + rebuild(f.mem, f.dirty, f.read, t as int, current_ptr as int).0 == out0 + full.0,
                rebuild(f.mem, f.dirty, f.read, t as int, current_ptr as int).1 == full.1,
                f.mem == ev.mem@.map_values(|v: Int| v.value()),
                f.dirty == ev.dirty@,
                f.read == ev.was_read@,
            decreases ev.mem@.len() - t,
        {
            let ghost prev = opt@;
            let ghost c0 = current_ptr as int;
            if !ev.dirty[t] && (!ev.mem[t].is_zero() || ev.was_read[t]) {
                if current_ptr != t {
                    opt.push_move(t as isize - current_ptr as isize);
                    proof {
                        lemma_shapes_push(prev, Op::Move(t - c0));
                    }
                    current_ptr = t;
                }
                let ghost mid = opt@;
                opt.push_set(ev.mem[t]);
                proof {
                    lemma_shapes_push(mid, opt@.last());
                    let step = if c0 != t {
                        seq![Op::Move(t - c0), Op::SetValue(f.mem[t as int])]
                    } else {
                        seq![Op::SetValue(f.mem[t as int])]
                    };
                    assert(opt@ =~= prev + step);
                    assert(opt@ + rebuild(f.mem, f.dirty, f.read, t + 1, current_ptr as int).0 =~= prev
                        + rebuild(f.mem, f.dirty, f.read, t as int, c0).0);
                }
            }
            t += 1;
        }
        let ghost mid = opt@;
        if current_ptr != ev.ptr {
            opt.push_move(ev.ptr as isize - current_ptr as isize);
            proof {
                lemma_shapes_push(mid, opt@.last());
            }
        }
        let mut pc = ev.pc;
        let ghost prefix = opt@;
        proof {
            assert(rebuild(f.mem, f.dirty, f.read, t as int, current_ptr as int).0 =~= Seq::<Op>::empty());
            lemma_depth_zero(code@);
        }
        let ghost mut base: nat = depth(code@, pc as int) as nat;
        while pc < n
            invariant
                code.complete(),
                n == code@.len(),
                pc <= n,
                opt.well_formed(),
                opt.open_loops().len() <= depth(code@, pc as int),
                base == depth(code@, pc as int) - opt.open_loops().len(),
                depth(code@, n as int) == 0,
                forall|k: int| 0 <= k <= n ==> depth(code@, k) >= 0,
                forall|i: int| 0 <= i < n && (#[trigger] code@[i]) is LoopStart ==> loop_closed(
                    code@,
                    i,
                ),
                forall|j: int|
                    0 <= j < n && (#[trigger] code@[j]) is LoopEnd ==> depth(code@, j) >= 1 && {
                        let st = code@[j]->LoopEnd_0;
                        &&& 0 <= st < j
                        &&& code@[st] == Op::LoopStart(j + 1)
                    },
                shapes(opt@) + tail_from(code@, pc as int, opt.open_loops().len() as int, base)
                    == shapes(prefix) + tail_from(code@, f.pc, 0, depth(code@, f.pc) as nat),
            decreases depth(code@, pc as int) - opt.open_loops().len(), n - pc,
        {
            let ghost before = opt@;
            let ghost open0 = opt.open_loops().len() as int;
            proof {
                lemma_depth_step(code@, pc as int);
            }
            let jump = match code.get(pc) {
                Some(Instruct::LoopEnd(pc_loop_start)) => if opt.open_loop_count() == 0 {
                    Some(*pc_loop_start)
                } else {
                    None
                },
                _ => None,
            };
            match jump {
                Some(start) => {
                    proof {
                        assert(loop_closed(code@, start as int));
                        base = (base - 1) as nat;
                    }
                    pc = start;
                },
                None => {
                    opt.copy_from(code, pc);
                    pc += 1;
                    proof {
                        assert(shapes(opt@) + tail_from(code@, pc as int, opt.open_loops().len() as int, base)
                            =~= shapes(before) + tail_from(code@, pc - 1, open0, base));
                    }
                },
            }
        }
        proof {
            assert(shapes(opt@) =~= shapes(prefix) + tail_from(code@, f.pc, 0, depth(code@, f.pc) as nat));
        }
    }
    (opt, ev.echo)
}

} // verus!
