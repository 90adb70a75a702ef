//! Instructions of the intermediate representation and their mathematical view.
use vstd::prelude::*;
use crate::integer::BrainfuckInteger;

verus! {

/// One instruction of the intermediate representation.
#[derive(Debug, PartialEq, Eq)]
pub enum Instruct<Int> {
    /// `ptr += off`
    Move(isize),
    /// `*ptr += val`, wrapping
    Add(Int),
    /// `*ptr = val`
    SetValue(Int),
    /// `ptr[off] += *ptr`, wrapping
    AddTo(isize),
    /// `ptr[off] -= *ptr`, wrapping
    SubFrom(isize),
    /// read one byte into `*ptr`; `-1` at the end of the input
    Read,
    /// write the low byte of `*ptr`
    Write,
    /// jump to the index held when `*ptr == 0`
    LoopStart(usize),
    /// jump back to the index held
    LoopEnd(usize),
    /// write all these bytes
    WriteStr(Vec<u8>),
}

/// The mathematical value of an instruction: cell values as integers.
pub enum Op {
    Move(int),
    Add(int),
    SetValue(int),
    AddTo(int),
    SubFrom(int),
    Read,
    Write,
    LoopStart(int),
    LoopEnd(int),
    WriteStr(Seq<u8>),
}

impl<Int: BrainfuckInteger> View for Instruct<Int> {
    type V = Op;

    open spec fn view(&self) -> Op {
        match self {
            Instruct::Move(off) => Op::Move(*off as int),
            Instruct::Add(val) => Op::Add(val.value()),
            Instruct::SetValue(val) => Op::SetValue(val.value()),
            Instruct::AddTo(off) => Op::AddTo(*off as int),
            Instruct::SubFrom(off) => Op::SubFrom(*off as int),
            Instruct::Read => Op::Read,
            Instruct::Write => Op::Write,
            Instruct::LoopStart(e) => Op::LoopStart(*e as int),
            Instruct::LoopEnd(s) => Op::LoopEnd(*s as int),
            Instruct::WriteStr(data) => Op::WriteStr(data@),
        }
    }
}

impl<Int: BrainfuckInteger> Instruct<Int> {
    /// A copy of the instruction.
    pub fn clone(&self) -> (r: Self)
        ensures
            r@ == self@,
    {
        match self {
            Instruct::Move(off) => Instruct::Move(*off),
            Instruct::Add(val) => Instruct::Add(*val),
            Instruct::SetValue(val) => Instruct::SetValue(*val),
            Instruct::AddTo(off) => Instruct::AddTo(*off),
            Instruct::SubFrom(off) => Instruct::SubFrom(*off),
            Instruct::Read => Instruct::Read,
            Instruct::Write => Instruct::Write,
            Instruct::LoopStart(e) => Instruct::LoopStart(*e),
            Instruct::LoopEnd(s) => Instruct::LoopEnd(*s),
            Instruct::WriteStr(data) => Instruct::WriteStr(data.clone()),
        }
    }
}

/// The views of a sequence of instructions.
pub open spec fn ops<Int: BrainfuckInteger>(s: Seq<Instruct<Int>>) -> Seq<Op> {
    s.map_values(|x: Instruct<Int>| x@)
}

/// How an instruction changes the loop nesting depth.
pub open spec fn delta(o: Op) -> int {
    match o {
        Op::LoopStart(_) => 1,
        Op::LoopEnd(_) => -1,
        _ => 0,
    }
}

/// The loop nesting depth before index `n`.
#[verifier::opaque]
pub open spec fn depth(s: Seq<Op>, n: int) -> int
    decreases n,
{
    if n <= 0 {
        0
    } else {
        depth(s, n - 1) + delta(s[n - 1])
    }
}

/// The loop starting at index `i` is closed properly: its end index `e`
/// holds the matching `LoopEnd` at `e - 1`, and the loop body is nested
/// strictly deeper.
pub open spec fn loop_closed(s: Seq<Op>, i: int) -> bool {
    let e = s[i]->LoopStart_0;
    &&& i < e <= s.len()
    &&& s[e - 1] == Op::LoopEnd(i)
    &&& depth(s, e) == depth(s, i)
    &&& forall|k: int| i < k < e ==> depth(s, k) > depth(s, i)
}

/// Every `LoopStart` that is not open is closed properly.
#[verifier::opaque]
pub open spec fn starts_ok(s: Seq<Op>, stack: Seq<int>) -> bool {
    forall|i: int|
        #![trigger s[i]]
        0 <= i < s.len() && s[i] is LoopStart && !stack.contains(i) ==> loop_closed(s, i)
}

/// Every `LoopEnd` points back to a closed `LoopStart` that points just past it.
#[verifier::opaque]
pub open spec fn ends_ok(s: Seq<Op>, stack: Seq<int>) -> bool {
    forall|j: int|
        #![trigger s[j]]
        0 <= j < s.len() && s[j] is LoopEnd ==> {
            let st = s[j]->LoopEnd_0;
            &&& 0 <= st < j
            &&& s[st] == Op::LoopStart(j + 1)
            &&& !stack.contains(st)
        }
}

/// The open loops, outermost first, each at its own nesting depth.
#[verifier::opaque]
pub open spec fn stack_ok(s: Seq<Op>, stack: Seq<int>) -> bool {
    forall|k: int|
        #![trigger stack[k]]
        0 <= k < stack.len() ==> {
            &&& 0 <= stack[k] < s.len()
            &&& s[stack[k]] is LoopStart
            &&& depth(s, stack[k]) == k
            &&& forall|m: int| stack[k] < m <= s.len() ==> depth(s, m) > k
        }
}

/// The nesting depth never drops below zero and ends at the number of open loops.
#[verifier::opaque]
pub open spec fn depth_ok(s: Seq<Op>, stack: Seq<int>) -> bool {
    &&& depth(s, s.len() as int) == stack.len()
    &&& forall|n: int| 0 <= n <= s.len() ==> depth(s, n) >= 0
}

/// No `AddTo(0)`, `SubFrom(0)` or empty `WriteStr`.
#[verifier::opaque]
pub open spec fn no_trivial(s: Seq<Op>) -> bool {
    forall|i: int| #![trigger s[i]] 0 <= i < s.len() ==> nontrivial(s[i])
}

pub open spec fn nontrivial(x: Op) -> bool {
    match x {
        Op::AddTo(off) => off != 0,
        Op::SubFrom(off) => off != 0,
        Op::WriteStr(data) => data.len() > 0,
        _ => true,
    }
}

/// `s` is a program under construction whose still open loops start at the
/// indices in `stack`, outermost first.
pub open spec fn wf_open(s: Seq<Op>, stack: Seq<int>) -> bool {
    &&& starts_ok(s, stack)
    &&& ends_ok(s, stack)
    &&& stack_ok(s, stack)
    &&& depth_ok(s, stack)
    &&& no_trivial(s)
}

/// `s` is a complete program: every loop is paired, nesting is balanced,
/// no `AddTo(0)`, `SubFrom(0)` or empty `WriteStr`.
pub open spec fn wf(s: Seq<Op>) -> bool {
    wf_open(s, Seq::empty())
}

pub proof fn lemma_depth_same(s: Seq<Op>, t: Seq<Op>, n: int)
    requires
        0 <= n <= s.len(),
        n <= t.len(),
        forall|i: int| 0 <= i < n ==> delta(s[i]) == delta(t[i]),
    ensures
        depth(s, n) == depth(t, n),
    decreases n,
{
    reveal(depth);
    if n > 0 {
        lemma_depth_same(s, t, n - 1);
    }
}

pub proof fn lemma_depth_step(s: Seq<Op>, n: int)
    requires
        0 <= n < s.len(),
    ensures
        depth(s, n + 1) == depth(s, n) + delta(s[n]),
        depth(s, 0) == 0,
{
    reveal(depth);
}

pub proof fn lemma_depth_zero(s: Seq<Op>)
    ensures
        depth(s, 0) == 0,
{
    reveal(depth);
}

pub proof fn lemma_depth_bound(s: Seq<Op>, n: int)
    requires
        0 <= n <= s.len(),
    ensures
        depth(s, n) <= n,
    decreases n,
{
    reveal(depth);
    if n > 0 {
        lemma_depth_bound(s, n - 1);
    }
}

/// The kinds of instruction that never change the loop structure.
pub open spec fn plain(x: Op) -> bool {
    &&& !(x is LoopStart)
    &&& !(x is LoopEnd)
    &&& nontrivial(x)
}

/// Appending `x` leaves the depth of every earlier index as it was.
proof fn lemma_depth_extend(s: Seq<Op>, s2: Seq<Op>)
    requires
        s2.len() == s.len() + 1,
        forall|i: int| 0 <= i < s.len() ==> delta(s2[i]) == delta(s[i]),
    ensures
        forall|n: int| 0 <= n <= s.len() ==> depth(s2, n) == depth(s, n),
        depth(s2, s.len() + 1int) == depth(s, s.len() as int) + delta(s2[s.len() as int]),
{
    assert forall|n: int| 0 <= n <= s.len() implies depth(s2, n) == depth(s, n) by {
        lemma_depth_same(s2, s, n);
    }
    lemma_depth_step(s2, s.len() as int);
}

pub proof fn lemma_push_plain(s: Seq<Op>, stack: Seq<int>, x: Op)
    requires
        wf_open(s, stack),
        plain(x),
    ensures
        wf_open(s.push(x), stack),
{
    let s2 = s.push(x);
    assert forall|i: int| 0 <= i < s.len() implies s2[i] == s[i] by {}
    lemma_depth_extend(s, s2);
    assert(starts_ok(s2, stack)) by {
        reveal(starts_ok);
        assert forall|i: int|
            #![trigger s2[i]]
            0 <= i < s2.len() && s2[i] is LoopStart && !stack.contains(i) implies loop_closed(
            s2,
            i,
        ) by {
            assert(s[i] == s2[i]);
            assert(loop_closed(s, i));
        }
    }
    assert(ends_ok(s2, stack)) by {
        reveal(ends_ok);
        assert forall|j: int| #![trigger s2[j]] 0 <= j < s2.len() && s2[j] is LoopEnd implies {
            let st = s2[j]->LoopEnd_0;
            &&& 0 <= st < j
            &&& s2[st] == Op::LoopStart(j + 1)
            &&& !stack.contains(st)
        } by {
            assert(s[j] == s2[j]);
        }
    }
    assert(stack_ok(s2, stack)) by {
        reveal(stack_ok);
        reveal(depth_ok);
        assert forall|k: int| #![trigger stack[k]] 0 <= k < stack.len() implies {
            &&& 0 <= stack[k] < s2.len()
            &&& s2[stack[k]] is LoopStart
            &&& depth(s2, stack[k]) == k
            &&& forall|m: int| stack[k] < m <= s2.len() ==> depth(s2, m) > k
        } by {
            assert(s[stack[k]] == s2[stack[k]]);
        }
    }
    assert(depth_ok(s2, stack)) by {
        reveal(depth_ok);
    }
    assert(no_trivial(s2)) by {
        reveal(no_trivial);
        assert forall|i: int| #![trigger s2[i]] 0 <= i < s2.len() implies nontrivial(s2[i]) by {
            if i < s.len() {
                assert(s[i] == s2[i]);
            }
        }
    }
}

pub proof fn lemma_push_start(s: Seq<Op>, stack: Seq<int>, e: int)
    requires
        wf_open(s, stack),
    ensures
        wf_open(s.push(Op::LoopStart(e)), stack.push(s.len() as int)),
{
    let s2 = s.push(Op::LoopStart(e));
    let st2 = stack.push(s.len() as int);
    let n = s.len() as int;
    assert forall|i: int| 0 <= i < s.len() implies s2[i] == s[i] by {}
    assert forall|k: int| 0 <= k < stack.len() implies st2[k] == stack[k] by {}
    assert(st2[stack.len() as int] == n);
    lemma_depth_extend(s, s2);
    assert forall|i: int| !st2.contains(i) implies !stack.contains(i) by {
        if stack.contains(i) {
            let k = choose|k: int| 0 <= k < stack.len() && stack[k] == i;
            assert(st2[k] == i);
        }
    }
    assert forall|i: int| st2.contains(i) && i != n implies stack.contains(i) by {
        let k = choose|k: int| 0 <= k < st2.len() && st2[k] == i;
        assert(stack[k] == i);
    }
    assert(starts_ok(s2, st2)) by {
        reveal(starts_ok);
        assert forall|i: int|
            #![trigger s2[i]]
            0 <= i < s2.len() && s2[i] is LoopStart && !st2.contains(i) implies loop_closed(
            s2,
            i,
        ) by {
            if i == n {
                assert(st2.contains(n));
            }
            assert(s[i] == s2[i]);
            assert(loop_closed(s, i));
        }
    }
    assert(ends_ok(s2, st2)) by {
        reveal(ends_ok);
        assert forall|j: int| #![trigger s2[j]] 0 <= j < s2.len() && s2[j] is LoopEnd implies {
            let st = s2[j]->LoopEnd_0;
            &&& 0 <= st < j
            &&& s2[st] == Op::LoopStart(j + 1)
            &&& !st2.contains(st)
        } by {
            assert(s[j] == s2[j]);
        }
    }
    assert(stack_ok(s2, st2)) by {
        reveal(stack_ok);
        reveal(depth_ok);
        assert forall|k: int| #![trigger st2[k]] 0 <= k < st2.len() implies {
            &&& 0 <= st2[k] < s2.len()
            &&& s2[st2[k]] is LoopStart
            &&& depth(s2, st2[k]) == k
            &&& forall|m: int| st2[k] < m <= s2.len() ==> depth(s2, m) > k
        } by {
            if k < stack.len() {
                assert(stack[k] == st2[k]);
                assert(s[stack[k]] == s2[stack[k]]);
            }
        }
    }
    assert(depth_ok(s2, st2)) by {
        reveal(depth_ok);
    }
    assert(no_trivial(s2)) by {
        reveal(no_trivial);
        assert forall|i: int| #![trigger s2[i]] 0 <= i < s2.len() implies nontrivial(s2[i]) by {
            if i < s.len() {
                assert(s[i] == s2[i]);
            }
        }
    }
}

/// The program after closing the innermost open loop.
pub open spec fn closed_last(s: Seq<Op>, stack: Seq<int>) -> Seq<Op> {
    let st = stack.last();
    s.update(st, Op::LoopStart(s.len() + 1int)).push(Op::LoopEnd(st))
}

pub proof fn lemma_push_end(s: Seq<Op>, stack: Seq<int>)
    requires
        wf_open(s, stack),
        stack.len() > 0,
    ensures
        wf_open(closed_last(s, stack), stack.drop_last()),
{
    let st = stack.last();
    let top = stack.len() - 1;
    let n = s.len() as int;
    let s2 = closed_last(s, stack);
    let st2 = stack.drop_last();
    assert(stack[top] == st);
    assert(0 <= st < n && s[st] is LoopStart && depth(s, st) == top
        && forall|m: int| st < m <= n ==> depth(s, m) > top) by {
        reveal(stack_ok);
    }
    assert forall|i: int| 0 <= i < s.len() && i != st implies s2[i] == s[i] by {}
    assert(s2[st] == Op::LoopStart(n + 1));
    assert(s2[n] == Op::LoopEnd(st));
    assert forall|k: int| 0 <= k < st2.len() implies st2[k] == stack[k] by {}
    lemma_depth_extend(s, s2);
    assert(depth(s, n) == stack.len()) by {
        reveal(depth_ok);
    }
    assert forall|a: int| 0 <= a < top implies stack[a] != st by {
        reveal(stack_ok);
        assert(depth(s, stack[a]) == a);
    }
    assert forall|i: int| !stack.contains(i) implies !st2.contains(i) by {
        if st2.contains(i) {
            let k = choose|k: int| 0 <= k < st2.len() && st2[k] == i;
            assert(stack[k] == i);
        }
    }
    assert forall|i: int| !st2.contains(i) && i != st implies !stack.contains(i) by {
        if stack.contains(i) {
            let k = choose|k: int| 0 <= k < stack.len() && stack[k] == i;
            if k < top {
                assert(st2[k] == i);
            }
        }
    }
    assert(!st2.contains(st)) by {
        if st2.contains(st) {
            let k = choose|k: int| 0 <= k < st2.len() && st2[k] == st;
            assert(stack[k] == st);
        }
    }
    assert(stack.contains(st));
    assert(starts_ok(s2, st2)) by {
        reveal(starts_ok);
        reveal(ends_ok);
        assert forall|i: int|
            #![trigger s2[i]]
            0 <= i < s2.len() && s2[i] is LoopStart && !st2.contains(i) implies loop_closed(
            s2,
            i,
        ) by {
            if i != st {
                assert(s[i] == s2[i]);
                assert(loop_closed(s, i));
                let e = s[i]->LoopStart_0;
                assert(s[e - 1] is LoopEnd);
                assert(s2[e - 1] == s[e - 1]);
            }
        }
    }
    assert(ends_ok(s2, st2)) by {
        reveal(ends_ok);
        assert forall|j: int| #![trigger s2[j]] 0 <= j < s2.len() && s2[j] is LoopEnd implies {
            let st3 = s2[j]->LoopEnd_0;
            &&& 0 <= st3 < j
            &&& s2[st3] == Op::LoopStart(j + 1)
            &&& !st2.contains(st3)
        } by {
            if j < n {
                assert(s2[j] == s[j]);
                let st3 = s[j]->LoopEnd_0;
                assert(!stack.contains(st3));
                assert(s2[st3] == s[st3]);
            }
        }
    }
    assert(stack_ok(s2, st2)) by {
        reveal(stack_ok);
        assert forall|k: int| #![trigger st2[k]] 0 <= k < st2.len() implies {
            &&& 0 <= st2[k] < s2.len()
            &&& s2[st2[k]] is LoopStart
            &&& depth(s2, st2[k]) == k
            &&& forall|m: int| st2[k] < m <= s2.len() ==> depth(s2, m) > k
        } by {
            assert(stack[k] == st2[k]);
            assert(stack[k] != st);
            assert(s2[stack[k]] == s[stack[k]]);
        }
    }
    assert(depth_ok(s2, st2)) by {
        reveal(depth_ok);
    }
    assert(no_trivial(s2)) by {
        reveal(no_trivial);
        assert forall|i: int| #![trigger s2[i]] 0 <= i < s2.len() implies nontrivial(s2[i]) by {
            if i < n && i != st {
                assert(s[i] == s2[i]);
            }
        }
    }
}

pub proof fn lemma_pop_plain(s: Seq<Op>, stack: Seq<int>)
    requires
        wf_open(s, stack),
        s.len() > 0,
        plain(s.last()),
    ensures
        wf_open(s.drop_last(), stack),
{
    let s2 = s.drop_last();
    let n = s2.len() as int;
    assert forall|i: int| 0 <= i < n implies s2[i] == s[i] by {}
    assert forall|i: int| 0 <= i <= n implies depth(s2, i) == depth(s, i) by {
        lemma_depth_same(s2, s, i);
    }
    lemma_depth_step(s, n);
    assert(starts_ok(s2, stack)) by {
        reveal(starts_ok);
        assert forall|i: int|
            #![trigger s2[i]]
            0 <= i < s2.len() && s2[i] is LoopStart && !stack.contains(i) implies loop_closed(
            s2,
            i,
        ) by {
            assert(s[i] == s2[i]);
            assert(loop_closed(s, i));
            let e = s[i]->LoopStart_0;
            assert(s[e - 1] is LoopEnd);
        }
    }
    assert(ends_ok(s2, stack)) by {
        reveal(ends_ok);
        assert forall|j: int| #![trigger s2[j]] 0 <= j < s2.len() && s2[j] is LoopEnd implies {
            let st = s2[j]->LoopEnd_0;
            &&& 0 <= st < j
            &&& s2[st] == Op::LoopStart(j + 1)
            &&& !stack.contains(st)
        } by {
            assert(s[j] == s2[j]);
        }
    }
    assert(stack_ok(s2, stack)) by {
        reveal(stack_ok);
        reveal(depth_ok);
        assert forall|k: int| #![trigger stack[k]] 0 <= k < stack.len() implies {
            &&& 0 <= stack[k] < s2.len()
            &&& s2[stack[k]] is LoopStart
            &&& depth(s2, stack[k]) == k
            &&& forall|m: int| stack[k] < m <= s2.len() ==> depth(s2, m) > k
        } by {
            assert(s[stack[k]] is LoopStart);
            assert(stack[k] != n);
            assert(s[stack[k]] == s2[stack[k]]);
        }
    }
    assert(depth_ok(s2, stack)) by {
        reveal(depth_ok);
    }
    assert(no_trivial(s2)) by {
        reveal(no_trivial);
        assert forall|i: int| #![trigger s2[i]] 0 <= i < s2.len() implies nontrivial(s2[i]) by {
            assert(s[i] == s2[i]);
        }
    }
}

/// Facts that every complete program has.
pub proof fn lemma_wf_facts(s: Seq<Op>)
    requires
        wf(s),
    ensures
        depth(s, s.len() as int) == 0,
        forall|n: int| 0 <= n <= s.len() ==> depth(s, n) >= 0,
        forall|i: int| 0 <= i < s.len() ==> nontrivial(#[trigger] s[i]),
        forall|i: int| 0 <= i < s.len() && (#[trigger] s[i]) is LoopStart ==> loop_closed(s, i),
        forall|j: int|
            0 <= j < s.len() && (#[trigger] s[j]) is LoopEnd ==> depth(s, j) >= 1 && {
                let st = s[j]->LoopEnd_0;
                &&& 0 <= st < j
                &&& s[st] == Op::LoopStart(j + 1)
            },
{
    reveal(starts_ok);
    reveal(ends_ok);
    reveal(depth_ok);
    reveal(no_trivial);
    assert forall|j: int| 0 <= j < s.len() && (#[trigger] s[j]) is LoopEnd implies depth(s, j) >= 1 by {
        let st = s[j]->LoopEnd_0;
        assert(!Seq::<int>::empty().contains(st));
        assert(loop_closed(s, st));
        assert(depth(s, st) >= 0);
    }
    assert forall|i: int| 0 <= i < s.len() && (#[trigger] s[i]) is LoopStart implies loop_closed(s, i) by {
        assert(!Seq::<int>::empty().contains(i));
    }
}

/// An instruction with its loop target erased: what is left once the
/// loop structure is known.
pub open spec fn shape(o: Op) -> Op {
    match o {
        Op::LoopStart(_) => Op::LoopStart(0),
        Op::LoopEnd(_) => Op::LoopEnd(0),
        _ => o,
    }
}

/// The shapes of the instructions of `s`. In a complete program the loop
/// targets follow from the shapes.
pub open spec fn shapes(s: Seq<Op>) -> Seq<Op> {
    s.map_values(|o: Op| shape(o))
}

pub proof fn lemma_shapes_push(s: Seq<Op>, x: Op)
    ensures
        shapes(s.push(x)) == shapes(s).push(shape(x)),
{
    assert(shapes(s.push(x)) =~= shapes(s).push(shape(x)));
}

pub proof fn lemma_shapes_closed_last(s: Seq<Op>, stack: Seq<int>)
    requires
        stack.len() > 0,
        0 <= stack.last() < s.len(),
        s[stack.last()] is LoopStart,
    ensures
        shapes(closed_last(s, stack)) == shapes(s).push(Op::LoopEnd(0)),
{
    assert(shapes(closed_last(s, stack)) =~= shapes(s).push(Op::LoopEnd(0)));
}

} // verus!
