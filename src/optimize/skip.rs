//! Removal of stores that are overwritten before anything reads them.
use vstd::prelude::*;
use crate::instruct::{Instruct, Op, depth, lemma_depth_step, lemma_depth_zero, lemma_wf_facts, shape, shapes};
use crate::integer::BrainfuckInteger;
use crate::program::Brainfuck;

verus! {

/// Offsets are tracked while their magnitude stays below this bound; past
/// it the analysis gives up.
pub const OFFSET_LIMIT: i128 = 0x1_0000_0000_0000_0000_0000_0000;

/// Does `o` read the cell under the pointer (a write, a copy, or a loop test)?
pub open spec fn reads_current(o: Op) -> bool {
    o is Write || o is AddTo || o is SubFrom || o is LoopStart
}

/// The scan of a loop body from index `i` with the pointer at `cur`: the
/// index after the loop's end when the body reads no cell at `target` and
/// comes back to `entry`.
pub open spec fn loop_scan(s: Seq<Op>, entry: int, target: int, i: int, cur: int) -> Option<int>
    decreases s.len() - i,
{
    if i < 0 || i >= s.len() {
        None
    } else {
        match s[i] {
            Op::Move(off) => {
                let next = cur + off;
                if next < -OFFSET_LIMIT || next > OFFSET_LIMIT {
                    None
                } else {
                    loop_scan(s, entry, target, i + 1, next)
                }
            },
            Op::LoopStart(_) => {
                if cur == target {
                    None
                } else {
                    match loop_scan(s, cur, target, i + 1, cur) {
                        Some(e) => if i < e <= s.len() {
                            loop_scan(s, entry, target, e, cur)
                        } else {
                            None
                        },
                        None => None,
                    }
                }
            },
            Op::LoopEnd(_) => if cur == entry {
                Some(i + 1)
            } else {
                None
            },
            _ => if reads_current(s[i]) && cur == target {
                None
            } else {
                loop_scan(s, entry, target, i + 1, cur)
            },
        }
    }
}

/// Is the cell at `target` (an offset from the pointer before index `i`,
/// which is now at `cur`) surely overwritten before anything reads it?
pub open spec fn overwritten(s: Seq<Op>, target: int, i: int, cur: int) -> bool
    decreases s.len() - i,
{
    if i < 0 || i >= s.len() {
        false
    } else {
        match s[i] {
            Op::SetValue(_) => cur == target || overwritten(s, target, i + 1, cur),
            Op::Read => cur == target || overwritten(s, target, i + 1, cur),
            Op::Move(off) => {
                let next = cur + off;
                if next < -OFFSET_LIMIT || next > OFFSET_LIMIT {
                    false
                } else {
                    overwritten(s, target, i + 1, next)
                }
            },
            Op::LoopStart(_) => {
                if cur == target {
                    false
                } else {
                    match loop_scan(s, cur, target, i + 1, cur) {
                        Some(e) => if i < e <= s.len() {
                            overwritten(s, target, e, cur)
                        } else {
                            false
                        },
                        None => false,
                    }
                }
            },
            Op::LoopEnd(_) => false,
            _ => if reads_current(s[i]) && cur == target {
                false
            } else {
                overwritten(s, target, i + 1, cur)
            },
        }
    }
}

/// The offset of the cell that a store at `o` writes, if `o` is a store.
pub open spec fn store_target(o: Op) -> Option<int> {
    match o {
        Op::SetValue(_) => Some(0),
        Op::Add(_) => Some(0),
        Op::AddTo(off) => Some(off),
        Op::SubFrom(off) => Some(off),
        _ => None,
    }
}

/// What the pass makes of the instructions of `s` from index `i` on, as shapes.
pub open spec fn skip_from(s: Seq<Op>, i: int) -> Seq<Op>
    decreases s.len() - i,
{
    if i < 0 || i >= s.len() {
        Seq::empty()
    } else if store_target(s[i]) is Some && overwritten(s, store_target(s[i])->Some_0, i + 1, 0) {
        skip_from(s, i + 1)
    } else {
        seq![shape(s[i])] + skip_from(s, i + 1)
    }
}

/// Scans the body of a loop from `index`, the pointer at offset `entry_off`
/// when the loop is entered. Returns the index after the loop's end when
/// the body reads no cell at `target_off` and comes back to `entry_off`.
fn unchanged_ptr_loop_end<Int: BrainfuckInteger>(
    code: &Brainfuck<Int>,
    entry_off: i128,
    target_off: i128,
    index: usize,
) -> (r: Option<usize>)
    requires
        index <= code@.len(),
        -OFFSET_LIMIT <= entry_off <= OFFSET_LIMIT,
    ensures
        r is Some ==> index < r->Some_0 <= code@.len(),
        r is Some <==> loop_scan(code@, entry_off as int, target_off as int, index as int, entry_off as int) is Some,
        r is Some ==> r->Some_0 as int == loop_scan(code@, entry_off as int, target_off as int, index as int, entry_off as int)->Some_0,
    decreases code@.len() - index,
{
    let n = code.len();
    let mut current_off = entry_off;
    let mut i = index;
    while i < n
        invariant
            n == code@.len(),
            index <= i <= n,
            -OFFSET_LIMIT <= current_off <= OFFSET_LIMIT,
            -OFFSET_LIMIT <= entry_off <= OFFSET_LIMIT,
            loop_scan(code@, entry_off as int, target_off as int, i as int, current_off as int)
                == loop_scan(code@, entry_off as int, target_off as int, index as int, entry_off as int),
        decreases n - i,
    {
        match code.get(i) {
            Some(Instruct::Write) | Some(Instruct::AddTo(_)) | Some(Instruct::SubFrom(_)) => {
                if current_off == target_off {
                    return None;
                }
                i += 1;
            },
            Some(Instruct::Move(off)) => {
                let next = current_off + *off as i128;
                if next < -OFFSET_LIMIT || next > OFFSET_LIMIT {
                    return None;
                }
                current_off = next;
                i += 1;
            },
            Some(Instruct::LoopStart(_)) => {
                if current_off == target_off {
                    return None;
                }
                match unchanged_ptr_loop_end(code, current_off, target_off, i + 1) {
                    Some(end_index) => {
                        i = end_index;
                    },
                    None => {
                        return None;
                    },
                }
            },
            Some(Instruct::LoopEnd(_)) => {
                if current_off == entry_off {
                    return Some(i + 1);
                }
                return None;
            },
            _ => {
                i += 1;
            },
        }
    }
    None
}

/// Whether the cell at offset `target_off` from the pointer before `index`
/// is surely overwritten, by a `SetValue` or a `Read`, before anything reads it.
fn has_set_after<Int: BrainfuckInteger>(code: &Brainfuck<Int>, target_off: i128, index: usize) -> (r:
    bool)
    requires
        index <= code@.len(),
    ensures
        r == overwritten(code@, target_off as int, index as int, 0),
{
    let n = code.len();
    let mut current_off: i128 = 0;
    let mut i = index;
    while i < n
        invariant
            n == code@.len(),
            index <= i <= n,
            -OFFSET_LIMIT <= current_off <= OFFSET_LIMIT,
            overwritten(code@, target_off as int, i as int, current_off as int) == overwritten(
                code@,
                target_off as int,
                index as int,
                0,
            ),
        decreases n - i,
    {
        match code.get(i) {
            Some(Instruct::SetValue(_)) | Some(Instruct::Read) => {
                if current_off == target_off {
                    return true;
                }
                i += 1;
            },
            Some(Instruct::Write) | Some(Instruct::AddTo(_)) | Some(Instruct::SubFrom(_)) => {
                if current_off == target_off {
                    return false;
                }
                i += 1;
            },
            Some(Instruct::Move(off)) => {
                let next = current_off + *off as i128;
                if next < -OFFSET_LIMIT || next > OFFSET_LIMIT {
                    return false;
                }
                current_off = next;
                i += 1;
            },
            Some(Instruct::LoopStart(_)) => {
                if current_off == target_off {
                    return false;
                }
                match unchanged_ptr_loop_end(code, current_off, target_off, i + 1) {
                    Some(end_index) => {
                        i = end_index;
                    },
                    None => {
                        return false;
                    },
                }
            },
            Some(Instruct::LoopEnd(_)) => {
                return false;
            },
            _ => {
                i += 1;
            },
        }
    }
    false
}

/// Drops each store (`SetValue` or `Add` at the pointer, `AddTo`/`SubFrom`
/// at their target) whose cell is surely overwritten before it is read.
pub fn optimize<Int: BrainfuckInteger>(code: &Brainfuck<Int>) -> (r: Brainfuck<Int>)
    requires
        code.complete(),
    ensures
        r.complete(),
        shapes(r@) == skip_from(code@, 0),
{
    let mut opt = Brainfuck::new();
    let mut index: usize = 0;
    let n = code.len();
    proof {
        assert(shapes(opt@) + skip_from(code@, 0) =~= skip_from(code@, 0));
        lemma_depth_zero(code@);
        code.lemma_complete();
        lemma_wf_facts(code@);
    }
    while index < n
        invariant
            code.complete(),
            n == code@.len(),
            index <= n,
            opt.well_formed(),
            opt.open_loops().len() == depth(code@, index as int),
            depth(code@, n as int) == 0,
            forall|k: int| 0 <= k <= n ==> depth(code@, k) >= 0,
            forall|j: int| 0 <= j < n && (#[trigger] code@[j]) is LoopEnd ==> depth(code@, j) >= 1,
            shapes(opt@) + skip_from(code@, index as int) == skip_from(code@, 0),
        decreases n - index,
    {
        let ghost before = opt@;
        let ghost at = index as int;
        let target: Option<i128> = match code.get(index) {
            Some(Instruct::SetValue(_)) | Some(Instruct::Add(_)) => Some(0),
            Some(Instruct::AddTo(off)) | Some(Instruct::SubFrom(off)) => Some(*off as i128),
            _ => None,
        };
        let dead = match target {
            Some(t) => has_set_after(code, t, index + 1),
            None => false,
        };
        if dead {
            proof {
                lemma_depth_step(code@, index as int);
            }
        } else {
            opt.copy_from(code, index);
        }
        index += 1;
        proof {
            assert(shapes(opt@) + skip_from(code@, index as int) =~= shapes(before) + skip_from(
                code@,
                at,
            ));
        }
    }
    proof {
        assert(shapes(opt@) =~= shapes(opt@) + skip_from(code@, n as int));
    }
    opt
}

} // verus!
