//! The optimization passes and the options that select them.
pub mod add_to;
pub mod constexpr;
pub mod deadcode;
pub mod fold;
pub mod set;
pub mod skip;
pub mod write;

use vstd::prelude::*;
use crate::integer::BrainfuckInteger;
use crate::program::Brainfuck;
use crate::instruct::{Op, shapes, wf};

verus! {

/// Which optimization passes to run.
#[derive(Debug, Clone, Copy, PartialEq, Eq)]
pub struct Options {
    pub fold: bool,
    pub set: bool,
    pub add_to: bool,
    pub write: bool,
    pub deadcode: bool,
    pub skip: bool,
    pub constexpr: bool,
    /// Print the output of the evaluated part while compiling.
    pub constexpr_echo: bool,
}

impl Options {
    /// Every pass, with echo.
    pub fn all() -> (r: Self)
        ensures
            r.fold && r.set && r.add_to && r.write && r.deadcode && r.skip && r.constexpr
                && r.constexpr_echo,
    {
        Options {
            fold: true,
            set: true,
            add_to: true,
            write: true,
            deadcode: true,
            skip: true,
            constexpr: true,
            constexpr_echo: true,
        }
    }

    /// No pass.
    pub fn none() -> (r: Self)
        ensures
            !r.fold && !r.set && !r.add_to && !r.write && !r.deadcode && !r.skip && !r.constexpr
                && !r.constexpr_echo,
    {
        Options {
            fold: false,
            set: false,
            add_to: false,
            write: false,
            deadcode: false,
            skip: false,
            constexpr: false,
            constexpr_echo: false,
        }
    }
}

impl Default for Options {
    fn default() -> (r: Self)
        ensures
            !r.fold && !r.set && !r.add_to && !r.write && !r.deadcode && !r.skip && !r.constexpr
                && !r.constexpr_echo,
    {
        Options::none()
    }
}

/// The fold pass, as an entry of a schedule.
pub const FOLD: u8 = 0;
/// The zero-loop pass.
pub const ZERO_LOOP: u8 = 1;
/// The copy-loop pass.
pub const ADD_TO: u8 = 2;
/// The write-coalescing pass.
pub const WRITE: u8 = 3;
/// The dead-loop pass.
pub const DEADCODE: u8 = 4;
/// The dead-store pass.
pub const SKIP: u8 = 5;
/// Constant evaluation.
pub const CONSTEXPR: u8 = 6;

/// `seq![x]` where `b` holds, else nothing.
pub open spec fn opt_seq(b: bool, x: u8) -> Seq<u8> {
    if b {
        seq![x]
    } else {
        Seq::empty()
    }
}

/// One round of the passes that `o` selects: fold, set, add_to, write,
/// deadcode, fold, skip.
pub open spec fn round(o: Options) -> Seq<u8> {
    opt_seq(o.fold, FOLD) + opt_seq(o.set, ZERO_LOOP) + opt_seq(o.add_to, ADD_TO) + opt_seq(
        o.write,
        WRITE,
    ) + opt_seq(o.deadcode, DEADCODE) + opt_seq(o.fold, FOLD) + opt_seq(o.skip, SKIP)
}

proof fn lemma_small_concat(a: Seq<u8>, b: Seq<u8>)
    requires
        forall|k: int| 0 <= k < a.len() ==> a[k] < CONSTEXPR,
        forall|k: int| 0 <= k < b.len() ==> b[k] < CONSTEXPR,
    ensures
        forall|k: int| 0 <= k < (a + b).len() ==> #[trigger] (a + b)[k] < CONSTEXPR,
{
    assert forall|k: int| 0 <= k < (a + b).len() implies #[trigger] (a + b)[k] < CONSTEXPR by {
        if k < a.len() {
            assert((a + b)[k] == a[k]);
        } else {
            assert((a + b)[k] == b[k - a.len()]);
        }
    }
}

/// The facts about a schedule that the driver needs: constant evaluation
/// comes at most once, right after the first round, and a schedule with
/// fold and without skip ends with fold.
/// The passes that `o` selects, in order: a round, then, with constant
/// evaluation, the evaluation and a second round.
pub open spec fn schedule(o: Options) -> Seq<u8> {
    if o.constexpr {
        round(o) + seq![CONSTEXPR] + round(o)
    } else {
        round(o)
    }
}

proof fn lemma_round_small(o: Options)
    ensures
        forall|k: int| 0 <= k < round(o).len() ==> #[trigger] round(o)[k] < CONSTEXPR,
{
    lemma_small_concat(opt_seq(o.fold, FOLD), opt_seq(o.set, ZERO_LOOP));
    let r2 = opt_seq(o.fold, FOLD) + opt_seq(o.set, ZERO_LOOP);
    lemma_small_concat(r2, opt_seq(o.add_to, ADD_TO));
    let r3 = r2 + opt_seq(o.add_to, ADD_TO);
    lemma_small_concat(r3, opt_seq(o.write, WRITE));
    let r4 = r3 + opt_seq(o.write, WRITE);
    lemma_small_concat(r4, opt_seq(o.deadcode, DEADCODE));
    let r5 = r4 + opt_seq(o.deadcode, DEADCODE);
    lemma_small_concat(r5, opt_seq(o.fold, FOLD));
    let r6 = r5 + opt_seq(o.fold, FOLD);
    lemma_small_concat(r6, opt_seq(o.skip, SKIP));
}

proof fn lemma_round_last(o: Options)
    requires
        o.fold,
        !o.skip,
    ensures
        round(o).len() > 0,
        round(o).last() == FOLD,
{
    let r5 = opt_seq(o.fold, FOLD) + opt_seq(o.set, ZERO_LOOP) + opt_seq(o.add_to, ADD_TO) + opt_seq(
        o.write,
        WRITE,
    ) + opt_seq(o.deadcode, DEADCODE);
    assert(round(o) =~= r5 + seq![FOLD]);
}

/// The facts about a schedule that the driver needs: constant evaluation
/// comes at most once, right after the first round, and a schedule with
/// fold and without skip ends with fold.
proof fn lemma_schedule(o: Options)
    ensures
        forall|k: int|
            0 <= k < schedule(o).len() ==> #[trigger] schedule(o)[k] <= CONSTEXPR && (schedule(o)[k]
                == CONSTEXPR ==> k == round(o).len()),
        o.fold && !o.skip ==> schedule(o).len() > 0 && schedule(o).last() == FOLD,
{
    let r = round(o);
    lemma_round_small(o);
    if o.constexpr {
        let sc = r + seq![CONSTEXPR] + r;
        assert(schedule(o) == sc);
        assert forall|k: int| 0 <= k < sc.len() implies #[trigger] sc[k] <= CONSTEXPR && (sc[k]
            == CONSTEXPR ==> k == r.len()) by {
            if k < r.len() {
                assert(sc[k] == r[k]);
            } else if k > r.len() {
                assert(sc[k] == r[k - r.len() - 1]);
            }
        }
    }
    if o.fold && !o.skip {
        lemma_round_last(o);
    }
}

/// What pass `p` makes of `s` with cells of `m` values, as shapes.
#[verifier::opaque]
pub open spec fn pass_result(p: u8, s: Seq<Op>, m: int) -> Seq<Op> {
    if p == FOLD {
        fold::fold_from(s, 0, Seq::empty(), m)
    } else if p == ZERO_LOOP {
        set::set_from(s, 0)
    } else if p == ADD_TO {
        add_to::add_to_from(s, 0)
    } else if p == WRITE {
        write::write_from(s, 0)
    } else if p == DEADCODE {
        deadcode::deadcode_from(s, 0)
    } else if p == SKIP {
        skip::skip_from(s, 0)
    } else {
        constexpr::constexpr_result(s, m).0
    }
}

/// `out` and `echo` come from `s` through the passes of `sched`: there are
/// complete programs `cs`, from `s` to `out`, each the result of the next
/// pass on the one before, and `echo` is what constant evaluation wrote
/// (nothing without it).
pub open spec fn scheduled(s: Seq<Op>, sched: Seq<u8>, m: int, out: Seq<Op>, echo: Seq<u8>) -> bool {
    exists|cs: Seq<Seq<Op>>|
        #![trigger cs.len()]
        {
            &&& cs.len() == sched.len() + 1
            &&& cs[0] == s
            &&& cs.last() == out
            &&& forall|i: int| 0 <= i < cs.len() ==> #[trigger] wf(cs[i])
            &&& forall|i: int|
                0 <= i < sched.len() ==> shapes(cs[i + 1]) == pass_result(#[trigger] sched[i], cs[i], m)
            &&& forall|i: int|
                0 <= i < sched.len() && sched[i] == CONSTEXPR ==> echo == constexpr::constexpr_result(
                    #[trigger] cs[i],
                    m,
                ).1
            &&& (forall|i: int| 0 <= i < sched.len() ==> sched[i] != CONSTEXPR) ==> echo.len() == 0
        }
}

/// Runs pass `p` on `code`.
fn apply_pass<Int: BrainfuckInteger>(p: u8, code: &Brainfuck<Int>) -> (r: (Brainfuck<Int>, Vec<u8>))
    requires
        code.complete(),
    ensures
        r.0.complete(),
        shapes(r.0@) == pass_result(p, code@, Int::modulus()),
        p == CONSTEXPR ==> r.1@ == constexpr::constexpr_result(code@, Int::modulus()).1,
        p == FOLD ==> fold::folded(r.0@),
{
    proof {
        reveal(pass_result);
    }
    if p == FOLD {
        (fold::optimize(code), Vec::new())
    } else if p == ZERO_LOOP {
        (set::optimize(code), Vec::new())
    } else if p == ADD_TO {
        (add_to::optimize(code), Vec::new())
    } else if p == WRITE {
        (write::optimize(code), Vec::new())
    } else if p == DEADCODE {
        (deadcode::optimize(code), Vec::new())
    } else if p == SKIP {
        (skip::optimize(code), Vec::new())
    } else {
        constexpr::optimize(code)
    }
}

/// Appends `x` where `b` holds.
fn push_if(v: &mut Vec<u8>, b: bool, x: u8)
    ensures
        final(v)@ == old(v)@ + opt_seq(b, x),
{
    if b {
        v.push(x);
    }
    proof {
        assert(v@ =~= old(v)@ + opt_seq(b, x));
    }
}

/// One round of the passes that `o` selects.
fn round_vec(o: &Options) -> (r: Vec<u8>)
    ensures
        r@ == round(*o),
{
    let mut v: Vec<u8> = Vec::new();
    push_if(&mut v, o.fold, FOLD);
    proof {
        assert(v@ =~= opt_seq(o.fold, FOLD));
    }
    push_if(&mut v, o.set, ZERO_LOOP);
    push_if(&mut v, o.add_to, ADD_TO);
    push_if(&mut v, o.write, WRITE);
    push_if(&mut v, o.deadcode, DEADCODE);
    push_if(&mut v, o.fold, FOLD);
    push_if(&mut v, o.skip, SKIP);
    v
}

impl<Int: BrainfuckInteger> Brainfuck<Int> {
    /// The program after the passes that `options` selects, in the fixed
    /// schedule: fold, set, add_to, write, deadcode, fold, skip; then, with
    /// constant evaluation, that evaluation followed by the same schedule
    /// again. With it come the bytes that constant evaluation wrote.
    pub fn optimize(&self, options: &Options) -> (r: (Brainfuck<Int>, Vec<u8>))
        requires
            self.complete(),
        ensures
            r.0.complete(),
            scheduled(self@, schedule(*options), Int::modulus(), r.0@, r.1@),
            options.fold && !options.skip ==> fold::folded(r.0@),
            !options.constexpr ==> r.1@.len() == 0,
    {
        let mut sched = round_vec(options);
        if options.constexpr {
            sched.push(CONSTEXPR);
            let mut second = round_vec(options);
            sched.append(&mut second);
        }
        proof {
            assert(sched@ =~= schedule(*options));
            self.lemma_complete();
            lemma_schedule(*options);
        }
        let mut code = self.clone();
        let mut echo: Vec<u8> = Vec::new();
        let ghost mut cs: Seq<Seq<Op>> = seq![self@];
        let mut i: usize = 0;
        let mut last_fold = false;
        while i < sched.len()
            invariant
                i <= sched@.len(),
                sched@ == schedule(*options),
                code.complete(),
                cs.len() == i + 1,
                cs[0] == self@,
                cs.last() == code@,
                forall|k: int| 0 <= k < cs.len() ==> #[trigger] wf(cs[k]),
                forall|k: int|
                    0 <= k < i ==> shapes(cs[k + 1]) == pass_result(#[trigger] sched@[k], cs[k], Int::modulus()),
                forall|k: int|
                    0 <= k < i && sched@[k] == CONSTEXPR ==> echo@ == constexpr::constexpr_result(
                        #[trigger] cs[k],
                        Int::modulus(),
                    ).1,
                (forall|k: int| 0 <= k < i ==> sched@[k] != CONSTEXPR) ==> echo@.len() == 0,
                forall|k: int|
                    0 <= k < sched@.len() ==> #[trigger] sched@[k] <= CONSTEXPR && (sched@[k]
                        == CONSTEXPR ==> k == round(*options).len()),
                last_fold ==> fold::folded(code@),
                i > 0 ==> (last_fold <==> sched@[i - 1] == FOLD),
            decreases sched@.len() - i,
        {
            let p = sched[i];
            let (next, e) = apply_pass(p, &code);
            proof {
                next.lemma_complete();
                cs = cs.push(next@);
            }
            if p == CONSTEXPR {
                echo = e;
            }
            last_fold = p == FOLD;
            code = next;
            i += 1;
        }
        proof {
            lemma_schedule(*options);
            assert(cs.len() == sched@.len() + 1);
            assert(scheduled(self@, schedule(*options), Int::modulus(), code@, echo@));
        }
        (code, echo)
    }
}

} // verus!
