//! Recognition of zero loops: `[-]` and `[+]` become an assignment.
use vstd::prelude::*;
use crate::instruct::{Instruct, Op, depth, lemma_depth_step, lemma_depth_zero, lemma_shapes_push, lemma_wf_facts, shape, shapes};
use crate::integer::BrainfuckInteger;
use crate::program::Brainfuck;

verus! {

/// What the pass makes of the instructions of `s` from index `i` on, as shapes.
pub open spec fn set_from(s: Seq<Op>, i: int) -> Seq<Op>
    decreases s.len() - i,
{
    if i < 0 || i >= s.len() {
        Seq::empty()
    } else if i + 2 < s.len() && s[i] is LoopStart && s[i + 1] is Add && s[i + 2] is LoopEnd {
        if i + 3 < s.len() && s[i + 3] is Add {
            seq![Op::SetValue(s[i + 3]->Add_0)] + set_from(s, i + 4)
        } else {
            seq![Op::SetValue(0)] + set_from(s, i + 3)
        }
    } else {
        seq![shape(s[i])] + set_from(s, i + 1)
    }
}

/// Replaces `LoopStart, Add(_), LoopEnd, Add(v)` by `SetValue(v)` and
/// `LoopStart, Add(_), LoopEnd` by `SetValue(0)`.
pub fn optimize<Int: BrainfuckInteger>(code: &Brainfuck<Int>) -> (r: Brainfuck<Int>)
    requires
        code.complete(),
    ensures
        r.complete(),
        shapes(r@) == set_from(code@, 0),
{
    let mut opt = Brainfuck::new();
    let mut index: usize = 0;
    let n = code.len();
    proof {
        assert(shapes(opt@) + set_from(code@, 0) =~= set_from(code@, 0));
        lemma_depth_zero(code@);
        code.lemma_complete();
        lemma_wf_facts(code@);
    }
    while index < n
        invariant
            code.complete(),
            n == code@.len(),
            index <= n,
            opt.well_formed(),
            opt.open_loops().len() == depth(code@, index as int),
            depth(code@, n as int) == 0,
            forall|k: int| 0 <= k <= n ==> depth(code@, k) >= 0,
            forall|j: int| 0 <= j < n && (#[trigger] code@[j]) is LoopEnd ==> depth(code@, j) >= 1,
            shapes(opt@) + set_from(code@, index as int) == set_from(code@, 0),
        decreases n - index,
    {
        let ghost before = opt@;
        let zero_loop = n - index > 2 && match (
            code.get(index),
            code.get(index + 1),
            code.get(index + 2),
        ) {
            (Some(Instruct::LoopStart(_)), Some(Instruct::Add(_)), Some(Instruct::LoopEnd(_))) => true,
            _ => false,
        };
        if zero_loop {
            proof {
                lemma_depth_step(code@, index as int);
                lemma_depth_step(code@, index + 1);
                lemma_depth_step(code@, index + 2);
            }
            let next = if n - index > 3 {
                code.get(index + 3)
            } else {
                None
            };
            match next {
                Some(Instruct::Add(val)) => {
                    proof {
                        lemma_depth_step(code@, index + 3);
                    }
                    opt.push_set(*val);
                    index += 4;
                    proof {
                        lemma_shapes_push(before, opt@.last());
                        assert(shapes(opt@) + set_from(code@, index as int) =~= shapes(before)
                            + set_from(code@, index - 4));
                    }
                },
                _ => {
                    opt.push_set(Int::zero());
                    index += 3;
                    proof {
                        lemma_shapes_push(before, opt@.last());
                        assert(shapes(opt@) + set_from(code@, index as int) =~= shapes(before)
                            + set_from(code@, index - 3));
                    }
                },
            }
        } else {
            opt.copy_from(code, index);
            index += 1;
            proof {
                assert(shapes(opt@) + set_from(code@, index as int) =~= shapes(before)
                    + set_from(code@, index - 1));
            }
        }
    }
    proof {
        assert(shapes(opt@) =~= shapes(opt@) + set_from(code@, n as int));
    }
    opt
}

} // verus!
