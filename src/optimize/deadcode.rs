//! Removal of loops that are entered with a cell known to be zero.
use vstd::prelude::*;
use crate::instruct::{Instruct, Op, depth, loop_closed, lemma_depth_step, lemma_depth_zero, lemma_wf_facts, shape, shapes};
use crate::integer::BrainfuckInteger;
use crate::program::Brainfuck;

verus! {

/// What the pass makes of the instructions of `s` from index `i` on, as shapes.
pub open spec fn deadcode_from(s: Seq<Op>, i: int) -> Seq<Op>
    decreases s.len() - i,
{
    if i < 0 || i >= s.len() {
        Seq::empty()
    } else if i + 1 < s.len() && s[i] == Op::SetValue(0) && s[i + 1] is LoopStart && i + 1
        < s[i + 1]->LoopStart_0 <= s.len() {
        seq![Op::SetValue(0)] + deadcode_from(s, s[i + 1]->LoopStart_0)
    } else {
        seq![shape(s[i])] + deadcode_from(s, i + 1)
    }
}

/// Drops each loop that directly follows `SetValue(0)`, which can never
/// run; keeps the assignment and every other instruction.
pub fn optimize<Int: BrainfuckInteger>(code: &Brainfuck<Int>) -> (r: Brainfuck<Int>)
    requires
        code.complete(),
    ensures
        r.complete(),
        shapes(r@) == deadcode_from(code@, 0),
{
    let mut opt = Brainfuck::new();
    let mut index: usize = 0;
    let n = code.len();
    proof {
        assert(shapes(opt@) + deadcode_from(code@, 0) =~= deadcode_from(code@, 0));
        lemma_depth_zero(code@);
        code.lemma_complete();
        lemma_wf_facts(code@);
    }
    while index < n
        invariant
            code.complete(),
            n == code@.len(),
            index <= n,
            opt.well_formed(),
            opt.open_loops().len() == depth(code@, index as int),
            depth(code@, n as int) == 0,
            forall|k: int| 0 <= k <= n ==> depth(code@, k) >= 0,
            forall|j: int| 0 <= j < n && (#[trigger] code@[j]) is LoopEnd ==> depth(code@, j) >= 1,
            forall|i: int| 0 <= i < n && (#[trigger] code@[i]) is LoopStart ==> loop_closed(code@, i),
            shapes(opt@) + deadcode_from(code@, index as int) == deadcode_from(code@, 0),
        decreases n - index,
    {
        let ghost before = opt@;
        let ghost at = index as int;
        let dead = match (code.get(index), code.get(index + 1)) {
            (Some(Instruct::SetValue(val)), Some(Instruct::LoopStart(end_index))) => if val.is_zero() {
                Some(*end_index)
            } else {
                None
            },
            _ => None,
        };
        match dead {
            Some(end_index) => {
                proof {
                    lemma_depth_step(code@, index as int);
                    assert(loop_closed(code@, index + 1));
                }
                opt.copy_from(code, index);
                index = end_index;
                proof {
                    assert(shapes(opt@) + deadcode_from(code@, index as int) =~= shapes(before)
                        + deadcode_from(code@, at));
                }
            },
            None => {
                opt.copy_from(code, index);
                index += 1;
                proof {
                    assert(shapes(opt@) + deadcode_from(code@, index as int) =~= shapes(before)
                        + deadcode_from(code@, at));
                }
            },
        }
    }
    proof {
        assert(shapes(opt@) =~= shapes(opt@) + deadcode_from(code@, n as int));
    }
    opt
}

} // verus!
