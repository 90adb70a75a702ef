//! The program: a sequence of instructions with its loop structure, built by
//! the parser and by the optimization passes.
use vstd::prelude::*;
use vstd::string::StringSliceAdditionalSpecFns;
use crate::error::Error;
use crate::instruct::{Instruct, Op, ops, shape, shapes, wf, wf_open, plain, nontrivial, closed_last, starts_ok, ends_ok, stack_ok, depth_ok, no_trivial, depth, lemma_push_plain, lemma_push_start, lemma_push_end, lemma_pop_plain, lemma_wf_facts, lemma_depth_step};
use crate::integer::BrainfuckInteger;

verus! {

/// A Brainfuck program in the intermediate representation.
pub struct Brainfuck<Int> {
    code: Vec<Instruct<Int>>,
    loop_stack: Vec<usize>,
}

impl<Int: BrainfuckInteger> View for Brainfuck<Int> {
    type V = Seq<Op>;

    closed spec fn view(&self) -> Seq<Op> {
        ops(self.code@)
    }
}

/// `i` clamped to at most `n`.
pub open spec fn clamp(i: int, n: int) -> int {
    if i > n {
        n
    } else {
        i
    }
}

/// Walking backward from index `i - 1`, with `d` the offset of the cell of
/// interest from the pointer at that point: the value the cell statically
/// holds, if an instruction fixes it.
pub open spec fn set_before(s: Seq<Op>, i: int, d: int) -> Option<int>
    decreases i,
{
    if i <= 0 || i > s.len() {
        None
    } else {
        match s[i - 1] {
            Op::SetValue(v) => if d == 0 {
                Some(v)
            } else {
                set_before(s, i - 1, d)
            },
            Op::Move(off) => set_before(s, i - 1, d + off),
            Op::Add(_) => if d == 0 {
                None
            } else {
                set_before(s, i - 1, d)
            },
            Op::Read => if d == 0 {
                None
            } else {
                set_before(s, i - 1, d)
            },
            Op::AddTo(_) => None,
            Op::SubFrom(_) => None,
            Op::LoopStart(_) => None,
            Op::LoopEnd(_) => if d == 0 {
                Some(0)
            } else {
                None
            },
            Op::Write => set_before(s, i - 1, d),
            Op::WriteStr(_) => set_before(s, i - 1, d),
        }
    }
}

/// Is `c` one of the eight command bytes?
pub open spec fn is_command(c: u8) -> bool {
    c == '<' as u8 || c == '>' as u8 || c == '+' as u8 || c == '-' as u8 || c == '['
        as u8 || c == ']' as u8 || c == '.' as u8 || c == ',' as u8
}

/// The command bytes of `b`, in order.
pub open spec fn commands(b: Seq<u8>) -> Seq<u8>
    decreases b.len(),
{
    if b.len() == 0 {
        Seq::empty()
    } else if is_command(b.last()) {
        commands(b.drop_last()).push(b.last())
    } else {
        commands(b.drop_last())
    }
}

/// The instruction that the parser makes of the command byte `c`; for a
/// bracket only its kind is given, its target follows from the pairing.
pub open spec fn parsed_as(o: Op, c: u8) -> bool {
    if c == '<' as u8 {
        o == Op::Move(-1)
    } else if c == '>' as u8 {
        o == Op::Move(1)
    } else if c == '+' as u8 {
        o == Op::Add(1)
    } else if c == '-' as u8 {
        o == Op::Add(-1)
    } else if c == '.' as u8 {
        o == Op::Write
    } else if c == ',' as u8 {
        o == Op::Read
    } else if c == '[' as u8 {
        o is LoopStart
    } else {
        o is LoopEnd
    }
}

/// The command byte that an instruction made by the parser comes from.
pub open spec fn c_at(o: Op) -> u8 {
    match o {
        Op::Move(off) => if off == -1 {
            '<' as u8
        } else {
            '>' as u8
        },
        Op::Add(v) => if v == 1 {
            '+' as u8
        } else {
            '-' as u8
        },
        Op::Write => '.' as u8,
        Op::Read => ',' as u8,
        Op::LoopStart(_) => '[' as u8,
        _ => ']' as u8,
    }
}

/// An instruction that the parser makes: a move or addition by one, a
/// read, a write, or a loop bracket.
pub open spec fn simple(o: Op) -> bool {
    o == Op::Move(1) || o == Op::Move(-1) || o == Op::Add(1) || o == Op::Add(-1) || o is Read
        || o is Write || o is LoopStart || o is LoopEnd
}

/// The Brainfuck text of a program made of simple instructions.
pub open spec fn bf_of(s: Seq<Op>) -> Seq<u8> {
    s.map_values(|o: Op| c_at(o))
}

proof fn lemma_commands(b: Seq<u8>)
    ensures
        forall|i: int| 0 <= i < commands(b).len() ==> is_command(#[trigger] commands(b)[i]),
    decreases b.len(),
{
    if b.len() > 0 {
        let c = commands(b.drop_last());
        lemma_commands(b.drop_last());
        assert forall|i: int| 0 <= i < commands(b).len() implies is_command(#[trigger] commands(b)[i]) by {
            if i < c.len() {
                assert(commands(b)[i] == c[i]);
            }
        }
    }
}

/// Writing a parsed program back out gives its command bytes: every
/// instruction of `p`, made from the bytes `b` by the parser, is simple, and
/// `bf_of(p)` is `commands(b)`.
pub proof fn lemma_round_trip(p: Seq<Op>, b: Seq<u8>)
    requires
        p.len() == commands(b).len(),
        forall|i: int| 0 <= i < commands(b).len() ==> parsed_as(p[i], commands(b)[i]),
    ensures
        forall|i: int| 0 <= i < p.len() ==> simple(#[trigger] p[i]),
        bf_of(p) == commands(b),
{
    lemma_commands(b);
    assert forall|i: int| 0 <= i < p.len() implies simple(#[trigger] p[i]) && c_at(p[i]) == commands(
        b,
    )[i] by {
        assert(parsed_as(p[i], commands(b)[i]));
        lemma_c_at(p[i], commands(b)[i]);
    }
    assert(bf_of(p) =~= commands(b));
}

proof fn lemma_c_at(o: Op, c: u8)
    requires
        parsed_as(o, c),
        is_command(c),
    ensures
        c_at(o) == c,
        parsed_as(o, c_at(o)),
{
}

/// The number of `[` less the number of `]` in the first `n` bytes.
pub open spec fn balance(b: Seq<u8>, n: int) -> int
    decreases n,
{
    if n <= 0 {
        0
    } else {
        balance(b, n - 1) + (if b[n - 1] == '[' as u8 {
            1int
        } else if b[n - 1] == ']' as u8 {
            -1int
        } else {
            0
        })
    }
}

/// The line number (from 1) of byte `n`.
pub open spec fn line_of(b: Seq<u8>, n: int) -> int
    decreases n,
{
    if n <= 0 {
        1
    } else {
        line_of(b, n - 1) + (if b[n - 1] == '\n' as u8 {
            1int
        } else {
            0
        })
    }
}

/// The column (from 1, counted in characters) of byte `n`: a UTF-8
/// continuation byte does not advance it.
pub open spec fn column_of(b: Seq<u8>, n: int) -> int
    decreases n,
{
    if n <= 0 {
        1
    } else if b[n - 1] == '\n' as u8 {
        1
    } else if 0x80 <= b[n - 1] < 0xc0 {
        column_of(b, n - 1)
    } else {
        column_of(b, n - 1) + 1
    }
}

/// Byte `j` is a `]` without a matching `[` before it.
pub open spec fn unmatched_end_at(b: Seq<u8>, j: int) -> bool {
    0 <= j < b.len() && b[j] == ']' as u8 && balance(b, j) == 0
}

/// Byte `j` is the first `]` without a matching `[`.
pub open spec fn first_unmatched_end(b: Seq<u8>, j: int) -> bool {
    &&& unmatched_end_at(b, j)
    &&& forall|k: int| 0 <= k < j ==> !unmatched_end_at(b, k)
}

/// Byte `i` is the outermost `[` that is never closed.
pub open spec fn unmatched_start_at(b: Seq<u8>, i: int) -> bool {
    &&& 0 <= i < b.len()
    &&& b[i] == '[' as u8
    &&& balance(b, i) == 0
    &&& forall|j: int| i < j <= b.len() ==> balance(b, j) >= 1
}

/// What parsing the bytes `b` gives: the error of the first unmatched `]`,
/// else the error of the outermost unclosed `[`, else success.
pub open spec fn parse_result(b: Seq<u8>, r: Result<(), Error>) -> bool {
    if exists|j: int| unmatched_end_at(b, j) {
        exists|j: int|
            #![trigger first_unmatched_end(b, j)]
            first_unmatched_end(b, j) && r == Err::<(), Error>(
                Error::UnmatchedLoopEnd {
                    lineno: line_of(b, j) as usize,
                    column: column_of(b, j) as usize,
                },
            )
    } else if balance(b, b.len() as int) != 0 {
        exists|i: int|
            #![trigger unmatched_start_at(b, i)]
            unmatched_start_at(b, i) && r == Err::<(), Error>(
                Error::UnmatchedLoopStart {
                    lineno: line_of(b, i) as usize,
                    column: column_of(b, i) as usize,
                },
            )
    } else {
        r is Ok
    }
}

impl<Int: BrainfuckInteger> Brainfuck<Int> {
    /// The indices of the loops that are still open.
    pub closed spec fn open_loops(&self) -> Seq<int> {
        self.loop_stack@.map_values(|x: usize| x as int)
    }

    /// The loop structure is consistent, with the open loops on the stack.
    pub open spec fn well_formed(&self) -> bool {
        wf_open(self@, self.open_loops())
    }

    /// A finished program: consistent, with no loop open.
    pub open spec fn complete(&self) -> bool {
        &&& self.well_formed()
        &&& self.open_loops().len() == 0
    }

    /// A complete program has a well-formed loop structure.
    pub proof fn lemma_complete(&self)
        requires
            self.complete(),
        ensures
            wf(self@),
    {
        assert(self.open_loops() =~= Seq::<int>::empty());
    }

    pub fn new() -> (r: Self)
        ensures
            r@ == Seq::<Op>::empty(),
            r.complete(),
    {
        let r = Brainfuck { code: Vec::new(), loop_stack: Vec::new() };
        proof {
            assert(r@ =~= Seq::<Op>::empty());
            assert(r.open_loops() =~= Seq::<int>::empty());
            reveal(starts_ok);
            reveal(ends_ok);
            reveal(stack_ok);
            reveal(depth_ok);
            reveal(no_trivial);
            reveal(depth);
        }
        r
    }

    #[inline]
    pub fn len(&self) -> (r: usize)
        ensures
            r == self@.len(),
    {
        self.code.len()
    }

    #[inline]
    pub fn get(&self, index: usize) -> (r: Option<&Instruct<Int>>)
        ensures
            index < self@.len() ==> r is Some && r->Some_0@ == self@[index as int],
            index >= self@.len() ==> r is None,
    {
        if index < self.code.len() {
            Some(&self.code[index])
        } else {
            None
        }
    }

    /// Appends an instruction that leaves the loop structure alone.
    fn push_plain(&mut self, instr: Instruct<Int>)
        requires
            old(self).well_formed(),
            plain(instr@),
        ensures
            final(self)@ == old(self)@.push(instr@),
            final(self).open_loops() == old(self).open_loops(),
            final(self).well_formed(),
    {
        proof {
            lemma_push_plain(self@, self.open_loops(), instr@);
        }
        self.code.push(instr);
        proof {
            assert(self@ =~= old(self)@.push(instr@));
        }
    }

    pub fn push_move(&mut self, val: isize)
        requires
            old(self).well_formed(),
        ensures
            final(self)@ == old(self)@.push(Op::Move(val as int)),
            final(self).open_loops() == old(self).open_loops(),
            final(self).well_formed(),
    {
        self.push_plain(Instruct::Move(val));
    }

    pub fn push_add(&mut self, val: Int)
        requires
            old(self).well_formed(),
        ensures
            final(self)@ == old(self)@.push(Op::Add(val.value())),
            final(self).open_loops() == old(self).open_loops(),
            final(self).well_formed(),
    {
        self.push_plain(Instruct::Add(val));
    }

    pub fn push_set(&mut self, val: Int)
        requires
            old(self).well_formed(),
        ensures
            final(self)@ == old(self)@.push(Op::SetValue(val.value())),
            final(self).open_loops() == old(self).open_loops(),
            final(self).well_formed(),
    {
        self.push_plain(Instruct::SetValue(val));
    }

    pub fn push_add_to(&mut self, val: isize)
        requires
            old(self).well_formed(),
            val != 0,
        ensures
            final(self)@ == old(self)@.push(Op::AddTo(val as int)),
            final(self).open_loops() == old(self).open_loops(),
            final(self).well_formed(),
    {
        self.push_plain(Instruct::AddTo(val));
    }

    pub fn push_sub_from(&mut self, val: isize)
        requires
            old(self).well_formed(),
            val != 0,
        ensures
            final(self)@ == old(self)@.push(Op::SubFrom(val as int)),
            final(self).open_loops() == old(self).open_loops(),
            final(self).well_formed(),
    {
        self.push_plain(Instruct::SubFrom(val));
    }

    pub fn push_read(&mut self)
        requires
            old(self).well_formed(),
        ensures
            final(self)@ == old(self)@.push(Op::Read),
            final(self).open_loops() == old(self).open_loops(),
            final(self).well_formed(),
    {
        self.push_plain(Instruct::Read);
    }

    pub fn push_write(&mut self)
        requires
            old(self).well_formed(),
        ensures
            final(self)@ == old(self)@.push(Op::Write),
            final(self).open_loops() == old(self).open_loops(),
            final(self).well_formed(),
    {
        self.push_plain(Instruct::Write);
    }

    pub fn push_write_str(&mut self, val: Vec<u8>)
        requires
            old(self).well_formed(),
            val@.len() > 0,
        ensures
            final(self)@ == old(self)@.push(Op::WriteStr(val@)),
            final(self).open_loops() == old(self).open_loops(),
            final(self).well_formed(),
    {
        self.push_plain(Instruct::WriteStr(val));
    }

    /// Opens a loop; its target is filled in when it is closed.
    pub fn push_loop_start(&mut self)
        requires
            old(self).well_formed(),
        ensures
            final(self)@ == old(self)@.push(Op::LoopStart(usize::MAX as int)),
            final(self).open_loops() == old(self).open_loops().push(old(self)@.len() as int),
            final(self).well_formed(),
    {
        proof {
            lemma_push_start(self@, self.open_loops(), usize::MAX as int);
        }
        let n = self.code.len();
        self.loop_stack.push(n);
        self.code.push(Instruct::LoopStart(usize::MAX));
        proof {
            assert(self@ =~= old(self)@.push(Op::LoopStart(usize::MAX as int)));
            assert(self.open_loops() =~= old(self).open_loops().push(n as int));
        }
    }

    /// Closes the innermost open loop.
    pub fn push_loop_end(&mut self)
        requires
            old(self).well_formed(),
            old(self).open_loops().len() > 0,
        ensures
            final(self)@ == closed_last(old(self)@, old(self).open_loops()),
            final(self).open_loops() == old(self).open_loops().drop_last(),
            final(self).well_formed(),
    {
        proof {
            lemma_push_end(self@, self.open_loops());
            reveal(stack_ok);
            assert(self.open_loops()[self.open_loops().len() - 1] < self@.len());
        }
        let ptr = self.loop_stack.pop().unwrap();
        self.code.push(Instruct::LoopEnd(ptr));
        let end_ptr = self.code.len();
        self.code.set(ptr, Instruct::LoopStart(end_ptr));
        proof {
            assert(self@ =~= closed_last(old(self)@, old(self).open_loops()));
            assert(self.open_loops() =~= old(self).open_loops().drop_last());
        }
    }

    /// Appends a copy of `instr`; a loop start opens a new loop and a loop
    /// end closes the innermost one, whatever their targets say.
    pub fn push(&mut self, instr: &Instruct<Int>)
        requires
            old(self).well_formed(),
            nontrivial(instr@),
            instr@ is LoopEnd ==> old(self).open_loops().len() > 0,
        ensures
            final(self).well_formed(),
            !(instr@ is LoopStart) && !(instr@ is LoopEnd) ==> final(self)@ == old(self)@.push(instr@)
                && final(self).open_loops() == old(self).open_loops(),
            instr@ is LoopStart ==> final(self)@ == old(self)@.push(Op::LoopStart(usize::MAX as int))
                && final(self).open_loops() == old(self).open_loops().push(old(self)@.len() as int),
            instr@ is LoopEnd ==> final(self)@ == closed_last(old(self)@, old(self).open_loops())
                && final(self).open_loops() == old(self).open_loops().drop_last(),
    {
        match instr {
            Instruct::LoopStart(_) => self.push_loop_start(),
            Instruct::LoopEnd(_) => self.push_loop_end(),
            _ => self.push_plain(instr.clone()),
        }
    }

    /// Appends the instruction of one source byte; a comment byte appends nothing.
    fn push_command(&mut self, c: u8)
        requires
            old(self).well_formed(),
            c == ']' as u8 ==> old(self).open_loops().len() > 0,
            forall|k: int| 0 <= k < old(self)@.len() ==> #[trigger] parsed_as(old(self)@[k], c_at(old(self)@[k])),
        ensures
            final(self).well_formed(),
            is_command(c) ==> final(self)@.len() == old(self)@.len() + 1 && parsed_as(final(self)@.last(), c),
            !is_command(c) ==> final(self)@ == old(self)@,
            forall|k: int|
                0 <= k < old(self)@.len() ==> #[trigger] parsed_as(final(self)@[k], c_at(old(self)@[k])),
            c == '[' as u8 ==> final(self).open_loops().len() == old(self).open_loops().len() + 1,
            c == ']' as u8 ==> final(self).open_loops().len() == old(self).open_loops().len() - 1,
            c != '[' as u8 && c != ']' as u8 ==> final(self).open_loops().len() == old(self).open_loops().len(),
    {
        if c == '<' as u8 {
            self.push_move(-1);
        } else if c == '>' as u8 {
            self.push_move(1);
        } else if c == '-' as u8 {
            let one = Int::one();
            let minus_one = one.wrapping_neg();
            proof {
                one.lemma_value();
                crate::integer::lemma_wrap_in_range(Int::modulus(), -1);
            }
            self.push_add(minus_one);
            proof {
                assert(self@.last() == Op::Add(-1));
            }
        } else if c == '+' as u8 {
            self.push_add(Int::one());
        } else if c == '[' as u8 {
            self.push_loop_start();
            proof {
                assert(self@.last() == Op::LoopStart(usize::MAX as int));
            }
        } else if c == ']' as u8 {
            self.push_loop_end();
            proof {
                let st = old(self).open_loops().last();
                reveal(stack_ok);
                assert(old(self).open_loops()[old(self).open_loops().len() - 1] == st);
                assert(0 <= st < old(self)@.len());
                assert(self@.last() == Op::LoopEnd(st));
                assert forall|k: int| 0 <= k < old(self)@.len() && k != st implies self@[k] == old(
                    self,
                )@[k] by {
                    assert(old(self)@.update(st, Op::LoopStart(old(self)@.len() + 1int))[k] == old(
                        self,
                    )@[k]);
                }
                reveal(stack_ok);
                assert(old(self).open_loops()[old(self).open_loops().len() - 1] == st);
                assert(old(self)@[st] is LoopStart);
                assert(self@[st] is LoopStart);
            }
        } else if c == '.' as u8 {
            self.push_write();
        } else if c == ',' as u8 {
            self.push_read();
        }
        proof {
            assert forall|k: int| 0 <= k < old(self)@.len() implies #[trigger] parsed_as(
                self@[k],
                c_at(old(self)@[k]),
            ) by {
                assert(parsed_as(old(self)@[k], c_at(old(self)@[k])));
            }
        }
    }

    /// Parses Brainfuck source text into this empty program. Every byte
    /// other than the eight commands is a comment. Stops at the first error.
    pub fn parse(&mut self, input: &str) -> (r: Result<(), Error>)
        requires
            old(self).complete(),
            old(self)@.len() == 0,
            input.spec_bytes().len() + 2 < usize::MAX,
        ensures
            parse_result(input.spec_bytes(), r),
            r is Ok ==> {
                let b = input.spec_bytes();
                &&& final(self).complete()
                &&& final(self)@.len() == commands(b).len()
                &&& forall|i: int|
                    0 <= i < commands(b).len() ==> parsed_as(final(self)@[i], commands(b)[i])
            },
    {
        let bytes = input.as_bytes();
        let ghost b = input.spec_bytes();
        let mut lineno: usize = 1;
        let mut column: usize = 1;
        let mut begins: Vec<(usize, usize)> = Vec::new();
        let ghost mut opens: Seq<int> = Seq::empty();
        let mut i: usize = 0;
        proof {
            assert(b.take(0) =~= Seq::<u8>::empty());
        }
        while i < bytes.len()
            invariant
                bytes@ == b,
                b == input.spec_bytes(),
                b.len() + 2 < usize::MAX,
                0 <= i <= b.len(),
                self.well_formed(),
                self@.len() == commands(b.take(i as int)).len(),
                commands(b.take(i as int)).len() <= i,
                forall|k: int|
                    0 <= k < self@.len() ==> #[trigger] parsed_as(self@[k], c_at(self@[k])),
                forall|k: int|
                    0 <= k < self@.len() ==> c_at(#[trigger] self@[k]) == commands(b.take(i as int))[k],
                self.open_loops().len() == balance(b, i as int),
                lineno == line_of(b, i as int),
                column == column_of(b, i as int),
                1 <= lineno <= i + 1,
                1 <= column <= i + 1,
                forall|k: int| 0 <= k < i ==> !unmatched_end_at(b, k),
                opens.len() == balance(b, i as int),
                begins@.len() == opens.len(),
                forall|k: int|
                    #![trigger opens[k]]
                    0 <= k < opens.len() ==> {
                        &&& 0 <= opens[k] < i
                        &&& b[opens[k]] == '[' as u8
                        &&& balance(b, opens[k]) == k
                        &&& forall|j: int| opens[k] < j <= i ==> balance(b, j) > k
                        &&& begins@[k] == (
                            line_of(b, opens[k]) as usize,
                            column_of(b, opens[k]) as usize,
                        )
                    },
            decreases b.len() - i,
        {
            let c = bytes[i];
            let ghost before = self@;
            proof {
                assert(b.take(i + 1).drop_last() =~= b.take(i as int));
                assert(b.take(i + 1).last() == c);
            }
            if c == ']' as u8 && self.loop_stack.len() == 0 {
                let r = Err(Error::UnmatchedLoopEnd { lineno, column });
                proof {
                    assert(unmatched_end_at(b, i as int));
                    assert(r == Err::<(), Error>(
                        Error::UnmatchedLoopEnd {
                            lineno: line_of(b, i as int) as usize,
                            column: column_of(b, i as int) as usize,
                        },
                    ));
                    assert(first_unmatched_end(b, i as int));
                }
                return r;
            }
            self.push_command(c);
            if c == '[' as u8 {
                begins.push((lineno, column));
                proof {
                    opens = opens.push(i as int);
                }
            } else if c == ']' as u8 {
                begins.pop();
                proof {
                    opens = opens.drop_last();
                }
            }
            proof {
                let cm = commands(b.take(i + 1));
                let cm0 = commands(b.take(i as int));
                assert forall|k: int| 0 <= k < self@.len() implies c_at(#[trigger] self@[k]) == cm[k]
                    && parsed_as(self@[k], c_at(self@[k])) by {
                    if k < before.len() {
                        assert(parsed_as(self@[k], c_at(before[k])));
                        assert(parsed_as(before[k], c_at(before[k])));
                        lemma_c_at(self@[k], c_at(before[k]));
                    } else {
                        lemma_c_at(self@[k], c);
                    }
                }
            }
            if c == '\n' as u8 {
                column = 1;
                lineno = lineno + 1;
            } else if c < 0x80 || c >= 0xc0 {
                column = column + 1;
            }
            i = i + 1;
        }
        if self.loop_stack.len() > 0 {
            proof {
                assert(b.take(i as int) =~= b);
                assert(unmatched_start_at(b, opens[0]));
            }
            return Err(Error::UnmatchedLoopStart { lineno: begins[0].0, column: begins[0].1 });
        }
        proof {
            assert(b.take(i as int) =~= b);
            assert forall|k: int| 0 <= k < commands(b).len() implies parsed_as(self@[k], commands(b)[k]) by {
                assert(parsed_as(self@[k], c_at(self@[k])));
            }
        }
        Ok(())
    }

    /// Parses Brainfuck source text into a new program.
    pub fn from_str(input: &str) -> (r: Result<Self, Error>)
        requires
            input.spec_bytes().len() + 2 < usize::MAX,
        ensures
            parse_result(
                input.spec_bytes(),
                match r {
                    Ok(_) => Ok(()),
                    Err(e) => Err(e),
                },
            ),
            r is Ok ==> {
                let p = r->Ok_0;
                let b = input.spec_bytes();
                &&& p.complete()
                &&& p@.len() == commands(b).len()
                &&& forall|i: int| 0 <= i < commands(b).len() ==> parsed_as(p@[i], commands(b)[i])
            },
    {
        let mut code = Self::new();
        match code.parse(input) {
            Ok(()) => {
                Ok(code)
            },
            Err(e) => Err(e),
        }
    }

    /// The value that the current cell statically holds just before index
    /// `index` (clamped to the length), found by walking backward; `None`
    /// where it cannot be known.
    pub fn find_set_before(&self, index: usize) -> (r: Option<Int>)
        ensures
            r is Some <==> set_before(self@, clamp(index as int, self@.len() as int), 0) is Some,
            r is Some ==> r->Some_0.value() == set_before(
                self@,
                clamp(index as int, self@.len() as int),
                0,
            )->Some_0,
    {
        let mut i = if index > self.code.len() {
            self.code.len()
        } else {
            index
        };
        let ghost start = i as int;
        let mut ptr: i128 = 0;
        while i > 0
            invariant
                0 <= i <= start <= self@.len(),
                start == clamp(index as int, self@.len() as int),
                -(start - i) * 0x8000_0000_0000_0000 <= ptr <= (start - i) * 0x8000_0000_0000_0000,
                set_before(self@, i as int, ptr as int) == set_before(self@, start, 0),
            decreases i,
        {
            i -= 1;
            proof {
                assert(self@[i as int] == self.code@[i as int]@);
            }
            match &self.code[i] {
                Instruct::SetValue(val) => {
                    if ptr == 0 {
                        return Some(*val);
                    }
                },
                Instruct::Move(off) => {
                    ptr = ptr + *off as i128;
                },
                Instruct::Add(_) | Instruct::Read => {
                    if ptr == 0 {
                        return None;
                    }
                },
                Instruct::AddTo(_) | Instruct::SubFrom(_) => {
                    return None;
                },
                Instruct::LoopStart(_) => {
                    return None;
                },
                Instruct::LoopEnd(_) => {
                    if ptr == 0 {
                        return Some(Int::zero());
                    }
                    return None;
                },
                Instruct::Write | Instruct::WriteStr(_) => {},
            }
        }
        None
    }

    /// The last instruction, if any.
    pub fn last(&self) -> (r: Option<&Instruct<Int>>)
        ensures
            self@.len() > 0 ==> r is Some && r->Some_0@ == self@.last(),
            self@.len() == 0 ==> r is None,
    {
        if self.code.len() > 0 {
            Some(&self.code[self.code.len() - 1])
        } else {
            None
        }
    }

    /// Removes the last instruction, which must not be a loop instruction.
    pub fn pop_plain(&mut self) -> (r: Instruct<Int>)
        requires
            old(self).well_formed(),
            old(self)@.len() > 0,
            plain(old(self)@.last()),
        ensures
            final(self)@ == old(self)@.drop_last(),
            final(self).open_loops() == old(self).open_loops(),
            final(self).well_formed(),
            r@ == old(self)@.last(),
    {
        proof {
            lemma_pop_plain(self@, self.open_loops());
        }
        let r = self.code.pop().unwrap();
        proof {
            assert(self@ =~= old(self)@.drop_last());
        }
        r
    }

    /// Appends a copy of the instruction at `index` of `code`, keeping the
    /// loops of the copy open exactly where they are open in `code`.
    pub fn copy_from(&mut self, code: &Brainfuck<Int>, index: usize)
        requires
            code.complete(),
            index < code@.len(),
            old(self).well_formed(),
            old(self).open_loops().len() <= depth(code@, index as int),
            code@[index as int] is LoopEnd ==> old(self).open_loops().len() > 0,
        ensures
            final(self).well_formed(),
            final(self).open_loops().len() - old(self).open_loops().len() == depth(code@, index + 1)
                - depth(code@, index as int),
            !(code@[index as int] is LoopStart) && !(code@[index as int] is LoopEnd) ==> final(self)@
                == old(self)@.push(code@[index as int]),
            code@[index as int] is LoopStart ==> final(self)@ == old(self)@.push(
                Op::LoopStart(usize::MAX as int),
            ),
            code@[index as int] is LoopEnd ==> final(self)@ == closed_last(
                old(self)@,
                old(self).open_loops(),
            ),
            final(self)@.len() == old(self)@.len() + 1,
            forall|i: int|
                0 <= i < old(self)@.len() ==> #[trigger] final(self)@[i] == old(self)@[i] || (old(
                    self,
                )@[i] is LoopStart && final(self)@[i] is LoopStart),
            code@[index as int] is LoopEnd ==> final(self)@.last() is LoopEnd,
            code@[index as int] is LoopStart ==> final(self)@.last() is LoopStart,
            shapes(final(self)@) == shapes(old(self)@).push(shape(code@[index as int])),
    {
        proof {
            code.lemma_complete();
            lemma_wf_facts(code@);
            lemma_depth_step(code@, index as int);
            assert(code@[index as int] == code.code@[index as int]@);
        }
        proof {
            reveal(stack_ok);
            if old(self).open_loops().len() > 0 {
                assert(old(self).open_loops()[old(self).open_loops().len() - 1] == old(
                    self,
                ).open_loops().last());
            }
        }
        self.push(&code.code[index]);
        proof {
            let x = code@[index as int];
            if x is LoopEnd {
                crate::instruct::lemma_shapes_closed_last(old(self)@, old(self).open_loops());
            } else {
                crate::instruct::lemma_shapes_push(old(self)@, self@.last());
                assert(self@ == old(self)@.push(self@.last()));
            }
        }
    }

    /// The number of loops that are still open.
    pub fn open_loop_count(&self) -> (r: usize)
        ensures
            r == self.open_loops().len(),
    {
        self.loop_stack.len()
    }

    /// A copy of the program.
    pub fn clone(&self) -> (r: Self)
        ensures
            r@ == self@,
            r.open_loops() == self.open_loops(),
    {
        let mut code: Vec<Instruct<Int>> = Vec::new();
        let mut i: usize = 0;
        while i < self.code.len()
            invariant
                i <= self.code@.len(),
                code@.len() == i,
                forall|k: int| 0 <= k < i ==> #[trigger] code@[k]@ == self.code@[k]@,
            decreases self.code@.len() - i,
        {
            code.push(self.code[i].clone());
            i += 1;
        }
        let r = Brainfuck { code, loop_stack: self.loop_stack.clone() };
        proof {
            assert(r@ =~= self@);
            assert(r.open_loops() =~= self.open_loops());
        }
        r
    }

    /// The instructions, in order.
    pub fn iter(&self) -> std::slice::Iter<'_, Instruct<Int>> {
        self.code.iter()
    }

    /// In a complete program every `LoopStart(e)` at index `i` has
    /// `LoopEnd(i)` at index `e - 1`, every `LoopEnd(s)` at index `j` has
    /// `LoopStart(j + 1)` at index `s`, and the nesting is balanced.
    pub proof fn lemma_loops_paired(&self)
        requires
            self.complete(),
        ensures
            forall|i: int|
                0 <= i < self@.len() && (#[trigger] self@[i]) is LoopStart ==> {
                    let e = self@[i]->LoopStart_0;
                    &&& i < e <= self@.len()
                    &&& self@[e - 1] == Op::LoopEnd(i)
                },
            forall|j: int|
                0 <= j < self@.len() && (#[trigger] self@[j]) is LoopEnd ==> {
                    let st = self@[j]->LoopEnd_0;
                    &&& 0 <= st < j
                    &&& self@[st] == Op::LoopStart(j + 1)
                },
            depth(self@, self@.len() as int) == 0,
            forall|n: int| 0 <= n <= self@.len() ==> depth(self@, n) >= 0,
    {
        self.lemma_complete();
        lemma_wf_facts(self@);
    }

    /// A complete program holds no `AddTo(0)`, no `SubFrom(0)` and no empty
    /// `WriteStr`.
    pub proof fn lemma_no_trivial(&self)
        requires
            self.complete(),
        ensures
            forall|i: int|
                0 <= i < self@.len() ==> #[trigger] self@[i] != Op::AddTo(0) && self@[i] != Op::SubFrom(
                    0,
                ) && self@[i] != Op::WriteStr(Seq::empty()),
    {
        self.lemma_complete();
        lemma_wf_facts(self@);
    }
}

} // verus!
