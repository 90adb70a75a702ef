//! The reference interpreter, one instruction at a time. The caller performs
//! the input and output that each step asks for.
use vstd::prelude::*;
use crate::instruct::{Instruct, Op};
use crate::integer::{BrainfuckInteger, wrap};
use crate::program::Brainfuck;

verus! {

/// What the caller has to do after a step.
#[derive(Debug, PartialEq, Eq)]
pub enum Action {
    /// Nothing; take the next step.
    Continue,
    /// Write these bytes to the output.
    Output(Vec<u8>),
    /// Read one byte (flushing the output first where `flush` says so) and
    /// hand it to `feed`.
    Input { flush: bool },
    /// The program has ended; flush the output where `flush` says so.
    Halt { flush: bool },
    /// The pointer left the range that a tape can be indexed by.
    OutOfRange,
}

/// The state of a running program: the tape, the pointer into it, the
/// index of the next instruction, and whether output awaits a flush.
pub struct Machine<Int> {
    mem: Vec<Int>,
    ptr: usize,
    pc: usize,
    need_flush: bool,
}

/// The value of cell `i` of `mem`; cells past the end hold zero.
pub open spec fn cell(mem: Seq<int>, i: int) -> int {
    if 0 <= i < mem.len() {
        mem[i]
    } else {
        0
    }
}

/// `new` holds the cells of `old` moved `shift` places to the right, zeros
/// before them, except that cell `target` holds `val`.
pub open spec fn tape_after(old: Seq<int>, new: Seq<int>, shift: int, target: int, val: int) -> bool {
    &&& forall|i: int|
        0 <= i && i != target ==> #[trigger] cell(new, i) == (if i < shift {
            0
        } else {
            cell(old, i - shift)
        })
    &&& cell(new, target) == val
}

/// The pointer offset that an instruction uses, zero for the others.
pub open spec fn offset_of(o: Op) -> int {
    match o {
        Op::Move(off) => off,
        Op::AddTo(off) => off,
        Op::SubFrom(off) => off,
        _ => 0,
    }
}

/// The effect of executing instruction `o` in state (`mem`, `ptr`, `pc`,
/// `flush`) with cells of `m` distinct values, for the instructions that
/// need no input.
pub open spec fn step_spec(
    o: Op,
    m: int,
    mem: Seq<int>,
    ptr: int,
    pc: int,
    flush: bool,
    mem2: Seq<int>,
    ptr2: int,
    pc2: int,
    flush2: bool,
    out: Option<Seq<u8>>,
) -> bool {
    match o {
        Op::Move(off) => {
            &&& pc2 == pc + 1
            &&& flush2 == flush
            &&& out is None
            &&& if ptr + off >= 0 {
                ptr2 == ptr + off && tape_after(mem, mem2, 0, ptr, cell(mem, ptr))
            } else {
                ptr2 == 0 && tape_after(mem, mem2, -(ptr + off), 0, 0)
            }
        },
        Op::Add(v) => {
            &&& pc2 == pc + 1
            &&& flush2 == flush
            &&& out is None
            &&& ptr2 == ptr
            &&& tape_after(mem, mem2, 0, ptr, wrap(m, cell(mem, ptr) + v))
        },
        Op::SetValue(v) => {
            &&& pc2 == pc + 1
            &&& flush2 == flush
            &&& out is None
            &&& ptr2 == ptr
            &&& tape_after(mem, mem2, 0, ptr, v)
        },
        Op::AddTo(off) => add_to_spec(m, mem, ptr, off, cell(mem, ptr), pc, flush, mem2, ptr2, pc2, flush2, out),
        Op::SubFrom(off) => add_to_spec(m, mem, ptr, off, wrap(m, -cell(mem, ptr)), pc, flush, mem2, ptr2, pc2, flush2, out),
        Op::Write => {
            let b = crate::integer::low_byte(cell(mem, ptr));
            &&& pc2 == pc + 1
            &&& ptr2 == ptr
            &&& tape_after(mem, mem2, 0, ptr, cell(mem, ptr))
            &&& out == Some(seq![b])
            &&& flush2 == (b != '\n' as u8)
        },
        Op::WriteStr(data) => {
            &&& pc2 == pc + 1
            &&& ptr2 == ptr
            &&& tape_after(mem, mem2, 0, ptr, cell(mem, ptr))
            &&& out == Some(data)
            &&& flush2 == (data.last() != '\n' as u8)
        },
        Op::LoopStart(e) => {
            &&& pc2 == (if cell(mem, ptr) == 0 {
                e
            } else {
                pc + 1
            })
            &&& ptr2 == ptr
            &&& tape_after(mem, mem2, 0, ptr, cell(mem, ptr))
            &&& out is None
            &&& flush2 == flush
        },
        Op::LoopEnd(s) => {
            &&& pc2 == s
            &&& ptr2 == ptr
            &&& tape_after(mem, mem2, 0, ptr, cell(mem, ptr))
            &&& out is None
            &&& flush2 == flush
        },
        Op::Read => false,
    }
}

/// `AddTo` and `SubFrom`: add `val` into the cell at offset `off`, unless
/// the current cell is zero; a target left of the tape extends it.
pub open spec fn add_to_spec(
    m: int,
    mem: Seq<int>,
    ptr: int,
    off: int,
    val: int,
    pc: int,
    flush: bool,
    mem2: Seq<int>,
    ptr2: int,
    pc2: int,
    flush2: bool,
    out: Option<Seq<u8>>,
) -> bool {
    &&& pc2 == pc + 1
    &&& flush2 == flush
    &&& out is None
    &&& if cell(mem, ptr) == 0 {
        ptr2 == ptr && tape_after(mem, mem2, 0, ptr, cell(mem, ptr))
    } else if ptr + off < 0 {
        let shift = -(ptr + off);
        ptr2 == ptr + shift && tape_after(mem, mem2, shift, 0, val)
    } else {
        ptr2 == ptr && tape_after(mem, mem2, 0, ptr + off, wrap(m, cell(mem, ptr + off) + val))
    }
}

/// The cell value that a read stores: the byte, or `-1` at the end of the input.
pub open spec fn read_value<Int: BrainfuckInteger>(byte: Option<u8>) -> int {
    match byte {
        Some(b) => wrap(Int::modulus(), b as int),
        None => -1,
    }
}

/// The bytes that an action writes, if any.
pub open spec fn output_of(r: Action) -> Option<Seq<u8>> {
    match r {
        Action::Output(bytes) => Some(bytes@),
        _ => None,
    }
}

/// One step of `code` from machine `m` to machine `m2` with action `r`:
/// past the end it halts; at a read it asks for input; it fails only where
/// the pointer would leave the indexable range; otherwise it does what
/// `step_spec` says.
pub open spec fn stepped<Int: BrainfuckInteger>(m: Machine<Int>, m2: Machine<Int>, code: Seq<Op>, r: Action) -> bool {
    let pc = m.counter();
    if pc < 0 || pc >= code.len() {
        r == (Action::Halt { flush: m.pending_flush() }) && m2 == m
    } else if code[pc] is Read {
        r == (Action::Input { flush: m.pending_flush() }) && m2 == m
    } else if r is OutOfRange {
        let t = m.pointer() + offset_of(code[pc]);
        t >= isize::MAX || m.tape().len() - t > isize::MAX
    } else {
        &&& (r is Continue || r is Output)
        &&& step_spec(
            code[pc],
            Int::modulus(),
            m.tape(),
            m.pointer(),
            pc,
            m.pending_flush(),
            m2.tape(),
            m2.pointer(),
            m2.counter(),
            m2.pending_flush(),
            output_of(r),
        )
    }
}

/// A move left of the start of the tape puts zero cells in front of it and
/// keeps every cell that was there, shifted by the number of cells added, so
/// that their positions relative to each other stay the same.
pub proof fn lemma_underflow_keeps_cells<Int: BrainfuckInteger>(
    m: Machine<Int>,
    m2: Machine<Int>,
    code: Seq<Op>,
    r: Action,
)
    requires
        stepped(m, m2, code, r),
        0 <= m.counter() < code.len(),
        code[m.counter()] is Move,
        m.pointer() + code[m.counter()]->Move_0 < 0,
        !(r is OutOfRange),
    ensures
        ({
            let shift = -(m.pointer() + code[m.counter()]->Move_0);
            &&& m2.pointer() == 0
            &&& forall|i: int| 0 <= i ==> #[trigger] cell(m2.tape(), i + shift) == cell(m.tape(), i)
            &&& forall|i: int| 0 <= i < shift ==> #[trigger] cell(m2.tape(), i) == 0
        }),
{
    let shift = -(m.pointer() + code[m.counter()]->Move_0);
    assert forall|i: int| 0 <= i implies #[trigger] cell(m2.tape(), i + shift) == cell(m.tape(), i) by {
        assert(cell(m2.tape(), i + shift) == (if i + shift < shift {
            0
        } else {
            cell(m.tape(), i + shift - shift)
        }));
    }
}

impl<Int: BrainfuckInteger> Machine<Int> {
    /// The values of the cells of the tape.
    pub closed spec fn tape(&self) -> Seq<int> {
        self.mem@.map_values(|v: Int| v.value())
    }

    pub closed spec fn pointer(&self) -> int {
        self.ptr as int
    }

    pub closed spec fn counter(&self) -> int {
        self.pc as int
    }

    pub closed spec fn pending_flush(&self) -> bool {
        self.need_flush
    }

    /// The pointer lies within the tape, whose length is bounded.
    pub open spec fn inv(&self) -> bool {
        &&& 0 <= self.pointer() < self.tape().len()
        &&& self.tape().len() <= isize::MAX
    }

    /// A machine at the first instruction, on a tape of one zero cell.
    pub fn new() -> (r: Self)
        ensures
            r.inv(),
            r.tape().len() == 1,
            r.counter() == 0,
            r.pointer() == 0,
            !r.pending_flush(),
            forall|i: int| #[trigger] cell(r.tape(), i) == 0,
    {
        let r = Machine { mem: vec![Int::zero()], ptr: 0, pc: 0, need_flush: false };
        proof {
            assert(r.tape()[0] == 0);
        }
        r
    }

    /// The value of cell `index` of the tape, zero past its end.
    pub fn cell_value(&self, index: usize) -> (r: Int)
        ensures
            r.value() == cell(self.tape(), index as int),
    {
        if index < self.mem.len() {
            self.mem[index]
        } else {
            Int::zero()
        }
    }

    /// The index of the current cell.
    pub fn pointer_index(&self) -> (r: usize)
        ensures
            r == self.pointer(),
    {
        self.ptr
    }

    /// The number of cells the tape holds.
    pub fn tape_len(&self) -> (r: usize)
        ensures
            r == self.tape().len(),
    {
        self.mem.len()
    }

    /// Grows the tape with zeros so that it holds cell `index`.
    fn ensure_cell(&mut self, index: usize)
        requires
            old(self).inv(),
            index < isize::MAX,
        ensures
            final(self).inv(),
            final(self).mem@.len() > index,
            final(self).ptr == old(self).ptr,
            final(self).pc == old(self).pc,
            final(self).need_flush == old(self).need_flush,
            forall|i: int| #[trigger] cell(final(self).tape(), i) == cell(old(self).tape(), i),
    {
        while self.mem.len() <= index
            invariant
                self.inv(),
                index < isize::MAX,
                self.ptr == old(self).ptr,
                self.pc == old(self).pc,
                self.need_flush == old(self).need_flush,
                forall|i: int| #[trigger] cell(self.tape(), i) == cell(old(self).tape(), i),
            decreases index + 1 - self.mem@.len(),
        {
            let ghost before = self.tape();
            self.mem.push(Int::zero());
            proof {
                assert(self.tape() =~= before.push(0));
                assert forall|i: int| #[trigger] cell(self.tape(), i) == cell(before, i) by {}
            }
        }
    }

    /// Puts `shift` zero cells in front of the tape.
    fn shift_right(&mut self, shift: usize)
        requires
            old(self).inv(),
            old(self).mem@.len() + shift <= isize::MAX,
        ensures
            final(self).mem@.len() == old(self).mem@.len() + shift,
            final(self).ptr == old(self).ptr,
            final(self).pc == old(self).pc,
            final(self).need_flush == old(self).need_flush,
            forall|i: int|
                0 <= i ==> #[trigger] cell(final(self).tape(), i) == (if i < shift {
                    0
                } else {
                    cell(old(self).tape(), i - shift)
                }),
    {
        let mut mem: Vec<Int> = Vec::new();
        let mut k: usize = 0;
        while k < shift
            invariant
                k <= shift,
                mem@.len() == k,
                forall|i: int| 0 <= i < k ==> (#[trigger] mem@[i]).value() == 0,
            decreases shift - k,
        {
            mem.push(Int::zero());
            k += 1;
        }
        let mut j: usize = 0;
        while j < self.mem.len()
            invariant
                j <= self.mem@.len(),
                mem@.len() == shift + j,
                forall|i: int| 0 <= i < shift ==> (#[trigger] mem@[i]).value() == 0,
                forall|i: int| shift <= i < shift + j ==> (#[trigger] mem@[i]) == self.mem@[i - shift],
            decreases self.mem@.len() - j,
        {
            mem.push(self.mem[j]);
            j += 1;
        }
        self.mem = mem;
    }

    /// Stores `val` in cell `index`, which the tape holds.
    fn store(&mut self, index: usize, val: Int)
        requires
            old(self).inv(),
            index < old(self).mem@.len(),
        ensures
            final(self).inv(),
            final(self).mem@.len() == old(self).mem@.len(),
            final(self).ptr == old(self).ptr,
            final(self).pc == old(self).pc,
            final(self).need_flush == old(self).need_flush,
            tape_after(old(self).tape(), final(self).tape(), 0, index as int, val.value()),
    {
        self.mem.set(index, val);
    }

    /// Executes the instruction at the program counter, except a read,
    /// which it leaves for `feed`.
    pub fn step(&mut self, code: &Brainfuck<Int>) -> (r: Action)
        requires
            old(self).inv(),
            code.complete(),
        ensures
            final(self).inv(),
            stepped(*old(self), *final(self), code@, r),
    {
        let n = code.len();
        if self.pc >= n {
            return Action::Halt { flush: self.need_flush };
        }
        proof {
            code.lemma_complete();
            crate::instruct::lemma_wf_facts(code@);
        }
        let ptr = self.ptr;
        let cur = self.mem[ptr];
        match code.get(self.pc) {
            Some(Instruct::Move(off)) => {
                let t: i128 = ptr as i128 + *off as i128;
                if t >= 0 {
                    if t >= isize::MAX as i128 {
                        return Action::OutOfRange;
                    }
                    self.ensure_cell(t as usize);
                    let ghost mid = self.tape();
                    self.ptr = t as usize;
                    proof {
                        assert(self.tape() == mid);
                        assert(cell(mid, ptr as int) == cell(old(self).tape(), ptr as int));
                    }
                } else {
                    if self.mem.len() as i128 - t > isize::MAX as i128 {
                        return Action::OutOfRange;
                    }
                    self.shift_right((-t) as usize);
                    let ghost mid = self.tape();
                    self.ptr = 0;
                    proof {
                        assert(self.tape() == mid);
                        assert(cell(mid, 0) == 0);
                    }
                }
                self.pc = self.pc + 1;
                Action::Continue
            },
            Some(Instruct::Add(val)) => {
                self.store(ptr, cur.wrapping_add(*val));
                self.pc = self.pc + 1;
                Action::Continue
            },
            Some(Instruct::SetValue(val)) => {
                self.store(ptr, *val);
                self.pc = self.pc + 1;
                Action::Continue
            },
            Some(Instruct::AddTo(off)) | Some(Instruct::SubFrom(off)) => {
                let val = match code.get(self.pc) {
                    Some(Instruct::SubFrom(_)) => cur.wrapping_neg(),
                    _ => cur,
                };
                if !cur.is_zero() {
                    let t: i128 = ptr as i128 + *off as i128;
                    if t >= 0 {
                        if t >= isize::MAX as i128 {
                            return Action::OutOfRange;
                        }
                        self.ensure_cell(t as usize);
                        let ghost mid = self.tape();
                        let old_val = self.mem[t as usize];
                        proof {
                            assert(old_val.value() == cell(mid, t as int));
                            assert(cell(mid, t as int) == cell(old(self).tape(), t as int));
                        }
                        self.store(t as usize, old_val.wrapping_add(val));
                        proof {
                            assert forall|i: int| 0 <= i && i != t implies #[trigger] cell(self.tape(), i)
                                == cell(old(self).tape(), i) by {
                                assert(cell(self.tape(), i) == cell(mid, i));
                            }
                        }
                    } else {
                        if self.mem.len() as i128 - t > isize::MAX as i128 {
                            return Action::OutOfRange;
                        }
                        self.shift_right((-t) as usize);
                        let ghost mid = self.tape();
                        self.ptr = ptr + (-t) as usize;
                        proof {
                            assert(self.tape() == mid);
                        }
                        self.store(0, val);
                        proof {
                            assert forall|i: int| 0 <= i && i != 0 implies #[trigger] cell(self.tape(), i)
                                == (if i < -t {
                                0
                            } else {
                                cell(old(self).tape(), i - (-t))
                            }) by {
                                assert(cell(self.tape(), i) == cell(mid, i));
                            }
                        }
                    }
                }
                self.pc = self.pc + 1;
                Action::Continue
            },
            Some(Instruct::Read) => Action::Input { flush: self.need_flush },
            Some(Instruct::Write) => {
                let byte = cur.get_least_byte();
                self.need_flush = byte != 10u8;
                self.pc = self.pc + 1;
                let out = vec![byte];
                proof {
                    assert(out@ =~= seq![byte]);
                }
                Action::Output(out)
            },
            Some(Instruct::WriteStr(data)) => {
                proof {
                    assert(crate::instruct::nontrivial(code@[self.pc as int]));
                }
                self.need_flush = data[data.len() - 1] != 10u8;
                self.pc = self.pc + 1;
                Action::Output(data.clone())
            },
            Some(Instruct::LoopStart(pc_false)) => {
                if cur.is_zero() {
                    self.pc = *pc_false;
                } else {
                    self.pc = self.pc + 1;
                }
                Action::Continue
            },
            Some(Instruct::LoopEnd(pc_loop_start)) => {
                self.pc = *pc_loop_start;
                Action::Continue
            },
            None => Action::Halt { flush: self.need_flush },
        }
    }

    /// Completes a read: stores the byte read, or `-1` at the end of the input.
    pub fn feed(&mut self, code: &Brainfuck<Int>, byte: Option<u8>)
        requires
            old(self).inv(),
            old(self).counter() < code@.len(),
            code@[old(self).counter()] is Read,
        ensures
            final(self).inv(),
            final(self).counter() == old(self).counter() + 1,
            final(self).pointer() == old(self).pointer(),
            !final(self).pending_flush(),
            tape_after(old(self).tape(), final(self).tape(), 0, old(self).pointer(), read_value::<Int>(byte)),
    {
        let val = match byte {
            Some(b) => Int::from_byte(b),
            None => {
                let one = Int::one();
                proof {
                    one.lemma_value();
                    crate::integer::lemma_wrap_in_range(Int::modulus(), -1);
                }
                one.wrapping_neg()
            },
        };
        let _n = code.len();
        self.store(self.ptr, val);
        self.need_flush = false;
        self.pc = self.pc + 1;
    }
}

} // verus!
