//! Folding runs of moves, additions and assignments.
use vstd::prelude::*;
use crate::instruct::{Instruct, Op, depth, lemma_depth_step, lemma_depth_zero, lemma_shapes_push, lemma_wf_facts, shape, shapes};
use crate::program::set_before;
use crate::integer::{BrainfuckInteger, wrap};
use crate::program::Brainfuck;

verus! {

/// No `Move(0)` or `Add(0)`, no two adjacent additions or assignments, and
/// no two adjacent moves whose sum would fit in an `isize`.
pub open spec fn folded(s: Seq<Op>) -> bool {
    &&& forall|i: int| 0 <= i < s.len() ==> #[trigger] s[i] != Op::Move(0) && s[i] != Op::Add(0)
    &&& forall|i: int|
        0 <= i && i + 1 < s.len() ==> !(#[trigger] s[i] is Add && s[i + 1] is Add) && !(s[i] is SetValue
            && s[i + 1] is SetValue) && !(s[i] is Move && s[i + 1] is Move && isize::MIN <= s[i]->Move_0
            + s[i + 1]->Move_0 <= isize::MAX)
}

/// `acc` with a move by `sum` appended, merged with the moves at its end
/// while their sum fits in an `isize`; nothing where the sum is zero.
pub open spec fn emit_move_spec(acc: Seq<Op>, sum: int) -> Seq<Op>
    decreases acc.len(),
{
    if sum == 0 {
        acc
    } else if acc.len() > 0 && acc.last() is Move && isize::MIN <= acc.last()->Move_0 + sum
        <= isize::MAX {
        emit_move_spec(acc.drop_last(), acc.last()->Move_0 + sum)
    } else {
        acc.push(Op::Move(sum))
    }
}

/// `acc` with an addition of `v` appended, merged with an addition at its
/// end (wrapping, for cells of `m` values); nothing where it comes to zero.
pub open spec fn emit_add_spec(acc: Seq<Op>, v: int, m: int) -> Seq<Op> {
    if acc.len() > 0 && acc.last() is Add {
        let sum = wrap(m, acc.last()->Add_0 + v);
        if sum == 0 {
            acc.drop_last()
        } else {
            acc.drop_last().push(Op::Add(sum))
        }
    } else if v == 0 {
        acc
    } else {
        acc.push(Op::Add(v))
    }
}

/// `acc` with an assignment of `v` appended: it replaces an assignment at
/// the end, and is left out where `before` says the cell already holds `v`.
pub open spec fn emit_set_spec(acc: Seq<Op>, v: int, before: Option<int>) -> Seq<Op> {
    if acc.len() > 0 && acc.last() is SetValue {
        acc.drop_last().push(Op::SetValue(v))
    } else if before == Some(v) {
        acc
    } else {
        acc.push(Op::SetValue(v))
    }
}

/// The index just past the run of assignments that holds index `i`.
pub open spec fn set_run_end(s: Seq<Op>, i: int) -> int
    decreases s.len() - i,
{
    if 0 <= i && i + 1 < s.len() && s[i + 1] is SetValue {
        set_run_end(s, i + 1)
    } else {
        i + 1
    }
}

/// The folded shapes of `s` from index `i` on, after `acc`, for cells of `m` values.
pub open spec fn fold_from(s: Seq<Op>, i: int, acc: Seq<Op>, m: int) -> Seq<Op>
    decreases s.len() - i,
{
    if i < 0 || i >= s.len() {
        acc
    } else {
        match s[i] {
            Op::Move(off) => fold_from(s, i + 1, emit_move_spec(acc, off), m),
            Op::Add(v) => fold_from(s, i + 1, emit_add_spec(acc, v, m), m),
            Op::SetValue(_) => {
                let j = set_run_end(s, i);
                if i < j <= s.len() {
                    fold_from(s, j, emit_set_spec(acc, s[j - 1]->SetValue_0, set_before(s, i, 0)), m)
                } else {
                    acc
                }
            },
            _ => fold_from(s, i + 1, acc.push(shape(s[i])), m),
        }
    }
}

/// Appends `Move(off)`, merged with the moves at the end of `opt`.
#[verifier::rlimit(40)]
fn emit_move<Int: BrainfuckInteger>(opt: &mut Brainfuck<Int>, off: isize)
    requires
        old(opt).well_formed(),
        folded(old(opt)@),
    ensures
        final(opt).well_formed(),
        folded(final(opt)@),
        final(opt).open_loops() == old(opt).open_loops(),
        shapes(final(opt)@) == emit_move_spec(shapes(old(opt)@), off as int),
{
    if off == 0 {
        return;
    }
    let mut sum = off;
    loop
        invariant
            opt.well_formed(),
            folded(opt@),
            opt.open_loops() == old(opt).open_loops(),
            sum != 0,
            emit_move_spec(shapes(opt@), sum as int) == emit_move_spec(shapes(old(opt)@), off as int),
        decreases opt@.len(),
    {
        let merge = match opt.last() {
            Some(Instruct::Move(b)) => {
                let b = *b;
                let s = b as i128 + sum as i128;
                if isize::MIN as i128 <= s && s <= isize::MAX as i128 {
                    Some(s as isize)
                } else {
                    None
                }
            },
            _ => None,
        };
        match merge {
            Some(s) => {
                let ghost prev = opt@;
                opt.pop_plain();
                proof {
                    assert(shapes(opt@) =~= shapes(prev).drop_last());
                    assert(shapes(prev).last() == prev.last());
                    assert(emit_move_spec(shapes(prev), sum as int) == emit_move_spec(
                        shapes(opt@),
                        s as int,
                    ));
                }
                if s == 0 {
                    return;
                }
                sum = s;
            },
            None => {
                let ghost prev = opt@;
                if sum != 0 {
                    opt.push_move(sum);
                    proof {
                        lemma_shapes_push(prev, Op::Move(sum as int));
                    }
                }
                proof {
                    if prev.len() > 0 {
                        assert(shapes(prev).last() == shape(prev.last()));
                    }
                }
                return;
            },
        }
    }
}

/// Appends `Add(val)`, merged with an addition at the end of `opt`.
fn emit_add<Int: BrainfuckInteger>(opt: &mut Brainfuck<Int>, val: Int)
    requires
        old(opt).well_formed(),
        folded(old(opt)@),
    ensures
        final(opt).well_formed(),
        folded(final(opt)@),
        final(opt).open_loops() == old(opt).open_loops(),
        shapes(final(opt)@) == emit_add_spec(shapes(old(opt)@), val.value(), Int::modulus()),
{
    let ghost start = opt@;
    proof {
        if start.len() > 0 {
            assert(shapes(start).last() == shape(start.last()));
        }
    }
    let prev = match opt.last() {
        Some(Instruct::Add(w)) => Some(*w),
        _ => None,
    };
    match prev {
        Some(w) => {
            proof {
                let n = opt@.len() as int;
                if n >= 2 {
                    assert(!(opt@[n - 2] is Add && opt@[n - 1] is Add));
                }
            }
            opt.pop_plain();
            proof {
                assert(shapes(opt@) =~= shapes(start).drop_last());
            }
            let sum = w.wrapping_add(val);
            if !sum.is_zero() {
                let ghost prev = opt@;
                opt.push_add(sum);
                proof {
                    lemma_shapes_push(prev, Op::Add(sum.value()));
                }
            }
        },
        None => {
            if !val.is_zero() {
                opt.push_add(val);
                proof {
                    lemma_shapes_push(start, Op::Add(val.value()));
                }
            }
        },
    }
}

/// Appends `SetValue(val)`: it replaces an assignment at the end of `opt`,
/// and is left out where `before` shows the cell already holds `val`.
fn emit_set<Int: BrainfuckInteger>(opt: &mut Brainfuck<Int>, val: Int, before: Option<Int>)
    requires
        old(opt).well_formed(),
        folded(old(opt)@),
    ensures
        final(opt).well_formed(),
        folded(final(opt)@),
        final(opt).open_loops() == old(opt).open_loops(),
        shapes(final(opt)@) == emit_set_spec(
            shapes(old(opt)@),
            val.value(),
            match before {
                Some(b) => Some(b.value()),
                None => None,
            },
        ),
{
    let ghost start = opt@;
    proof {
        if start.len() > 0 {
            assert(shapes(start).last() == shape(start.last()));
        }
    }
    let last_is_set = match opt.last() {
        Some(Instruct::SetValue(_)) => true,
        _ => false,
    };
    if last_is_set {
        proof {
            let n = opt@.len() as int;
            if n >= 2 {
                assert(!(opt@[n - 2] is SetValue && opt@[n - 1] is SetValue));
            }
        }
        opt.pop_plain();
        let ghost prev = opt@;
        opt.push_set(val);
        proof {
            assert(shapes(prev) =~= shapes(start).drop_last());
            lemma_shapes_push(prev, Op::SetValue(val.value()));
        }
    } else {
        match before {
            Some(b) => {
                if !b.same(val) {
                    opt.push_set(val);
                    proof {
                        lemma_shapes_push(start, Op::SetValue(val.value()));
                    }
                }
            },
            None => {
                opt.push_set(val);
                proof {
                    lemma_shapes_push(start, Op::SetValue(val.value()));
                }
            },
        }
    }
}

/// The assignment at `index`, if there is one.
fn set_value_at<Int: BrainfuckInteger>(code: &Brainfuck<Int>, index: usize) -> (r: Option<Int>)
    ensures
        r is Some <==> index < code@.len() && code@[index as int] is SetValue,
        r is Some ==> code@[index as int] == Op::SetValue(r->Some_0.value()),
{
    match code.get(index) {
        Some(Instruct::SetValue(v)) => Some(*v),
        _ => None,
    }
}

/// Merges runs of moves and of additions into one instruction each (dropped
/// where it comes to zero), keeps only the last of a run of assignments, and
/// drops an assignment of the value the cell is already known to hold.
pub fn optimize<Int: BrainfuckInteger>(code: &Brainfuck<Int>) -> (r: Brainfuck<Int>)
    requires
        code.complete(),
    ensures
        r.complete(),
        folded(r@),
        shapes(r@) == fold_from(code@, 0, Seq::empty(), Int::modulus()),
{
    let mut opt = Brainfuck::new();
    let mut index: usize = 0;
    let n = code.len();
    proof {
        assert(shapes(opt@) =~= Seq::<Op>::empty());
        lemma_depth_zero(code@);
        code.lemma_complete();
        lemma_wf_facts(code@);
    }
    while index < n
        invariant
            code.complete(),
            n == code@.len(),
            index <= code@.len(),
            opt.well_formed(),
            folded(opt@),
            opt.open_loops().len() == depth(code@, index as int),
            depth(code@, n as int) == 0,
            forall|k: int| 0 <= k <= n ==> depth(code@, k) >= 0,
            forall|j: int| 0 <= j < n && (#[trigger] code@[j]) is LoopEnd ==> depth(code@, j) >= 1,
            fold_from(code@, index as int, shapes(opt@), Int::modulus()) == fold_from(
                code@,
                0,
                Seq::empty(),
                Int::modulus(),
            ),
        decreases code@.len() - index,
    {
        proof {
            lemma_depth_step(code@, index as int);
        }
        match code.get(index) {
            Some(Instruct::Move(off)) => {
                emit_move(&mut opt, *off);
                index += 1;
            },
            Some(Instruct::Add(v)) => {
                emit_add(&mut opt, *v);
                index += 1;
            },
            Some(Instruct::SetValue(v)) => {
                index = fold_set_run(code, index, *v, &mut opt);
            },
            _ => {
                opt.copy_from(code, index);
                index += 1;
            },
        }
    }
    proof {
        code.lemma_complete();
        lemma_wf_facts(code@);
    }
    opt
}

/// Folds the run of assignments that starts at `index` and returns the
/// index just past it.
fn fold_set_run<Int: BrainfuckInteger>(
    code: &Brainfuck<Int>,
    index: usize,
    first: Int,
    opt: &mut Brainfuck<Int>,
) -> (r: usize)
    requires
        code.complete(),
        index < code@.len(),
        code@[index as int] == Op::SetValue(first.value()),
        old(opt).well_formed(),
        folded(old(opt)@),
        old(opt).open_loops().len() == depth(code@, index as int),
    ensures
        index < r <= code@.len(),
        final(opt).well_formed(),
        folded(final(opt)@),
        final(opt).open_loops().len() == depth(code@, r as int),
        r == set_run_end(code@, index as int),
        shapes(final(opt)@) == emit_set_spec(
            shapes(old(opt)@),
            code@[r - 1]->SetValue_0,
            set_before(code@, index as int, 0),
        ),
{
    let n = code.len();
    let before = code.find_set_before(index);
    let mut val = first;
    let mut i = index + 1;
    proof {
        lemma_depth_step(code@, index as int);
    }
    loop
        invariant
            n == code@.len(),
            index < i <= n,
            depth(code@, i as int) == depth(code@, index as int),
            set_run_end(code@, i - 1) == set_run_end(code@, index as int),
            code@[i - 1] == Op::SetValue(val.value()),
        ensures
            index < i <= n,
            depth(code@, i as int) == depth(code@, index as int),
            set_run_end(code@, index as int) == i,
            code@[i - 1] == Op::SetValue(val.value()),
        decreases n - i,
    {
        match set_value_at(code, i) {
            Some(v2) => {
                proof {
                    lemma_depth_step(code@, i as int);
                }
                val = v2;
                i += 1;
            },
            None => break,
        }
    }
    proof {
        assert(before is Some <==> set_before(code@, index as int, 0) is Some);
        assert(match before {
            Some(b) => Some(b.value()),
            None => None,
        } == set_before(code@, index as int, 0));
    }
    emit_set(opt, val, before);
    i
}

} // verus!
