//! Recognition of copy loops such as `[->+<<->]`.
use vstd::prelude::*;
use crate::instruct::{Instruct, Op, depth, lemma_depth_step, lemma_depth_zero, lemma_shapes_push, lemma_wf_facts, shape, shapes};
use crate::integer::BrainfuckInteger;
use crate::program::Brainfuck;

verus! {

/// The offsets in `offsets` are distinct, non-zero and ascending.
pub open spec fn sorted_offsets(offsets: Seq<(isize, bool)>) -> bool {
    &&& forall|i: int, j: int| 0 <= i < j < offsets.len() ==> offsets[i].0 < offsets[j].0
    &&& forall|i: int| 0 <= i < offsets.len() ==> offsets[i].0 != 0
}

/// The number of leading entries of `offs` below `off`.
pub open spec fn insert_pos(offs: Seq<(isize, bool)>, off: isize) -> int
    decreases offs.len(),
{
    if offs.len() == 0 || offs[0].0 >= off {
        0
    } else {
        1 + insert_pos(offs.drop_first(), off)
    }
}

/// `offs` with `(off, add)` inserted in ascending place; `None` where `off`
/// is there already.
pub open spec fn sorted_insert(offs: Seq<(isize, bool)>, off: isize, add: bool) -> Option<Seq<(isize, bool)>> {
    let p = insert_pos(offs, off);
    if p < offs.len() && offs[p].0 == off {
        None
    } else {
        Some(offs.insert(p, (off, add)))
    }
}

proof fn lemma_insert_pos(offs: Seq<(isize, bool)>, off: isize, pos: int)
    requires
        0 <= pos <= offs.len(),
        forall|i: int| 0 <= i < pos ==> offs[i].0 < off,
        pos == offs.len() || offs[pos].0 >= off,
    ensures
        insert_pos(offs, off) == pos,
    decreases pos,
{
    if pos > 0 {
        let t = offs.drop_first();
        assert forall|i: int| 0 <= i < pos - 1 implies t[i].0 < off by {
            assert(t[i] == offs[i + 1]);
        }
        if pos - 1 < t.len() {
            assert(t[pos - 1] == offs[pos]);
        }
        lemma_insert_pos(t, off, pos - 1);
    }
}

/// What a copy loop scan finds from index `j` on, with the pointer at
/// `offset`, `decreased` telling whether the current cell was decremented,
/// and the targets `offs` so far: the targets and the index after the loop,
/// or `None` where the loop is no copy loop.
pub open spec fn copy_scan(
    s: Seq<Op>,
    j: int,
    offset: int,
    decreased: bool,
    offs: Seq<(isize, bool)>,
) -> Option<(Seq<(isize, bool)>, int)>
    decreases s.len() - j,
{
    if j < 0 || j >= s.len() {
        None
    } else {
        match s[j] {
            Op::Move(off) => {
                let next = offset + off;
                if next < isize::MIN || next > isize::MAX {
                    None
                } else {
                    copy_scan(s, j + 1, next, decreased, offs)
                }
            },
            Op::Add(v) => {
                if v == -1 && offset == 0 && !decreased {
                    copy_scan(s, j + 1, offset, true, offs)
                } else if (v == 1 || v == -1) && offset != 0 {
                    match sorted_insert(offs, offset as isize, v == 1) {
                        Some(o2) => copy_scan(s, j + 1, offset, decreased, o2),
                        None => None,
                    }
                } else {
                    None
                }
            },
            Op::LoopEnd(_) => if offset == 0 && decreased {
                Some((offs, j + 1))
            } else {
                None
            },
            _ => None,
        }
    }
}

/// The instructions for the targets of a copy loop.
pub open spec fn target_ops(offs: Seq<(isize, bool)>) -> Seq<Op>
    decreases offs.len(),
{
    if offs.len() == 0 {
        Seq::empty()
    } else {
        target_ops(offs.drop_last()) + seq![
            if offs.last().1 {
                Op::AddTo(offs.last().0 as int)
            } else {
                Op::SubFrom(offs.last().0 as int)
            },
        ]
    }
}

/// What the pass makes of the instructions of `s` from index `i` on, as shapes.
pub open spec fn add_to_from(s: Seq<Op>, i: int) -> Seq<Op>
    decreases s.len() - i,
{
    if i < 0 || i >= s.len() {
        Seq::empty()
    } else if s[i] is LoopStart && copy_scan(s, i + 1, 0, false, Seq::empty()) is Some {
        let (offs, end) = copy_scan(s, i + 1, 0, false, Seq::empty())->Some_0;
        if i < end <= s.len() {
            target_ops(offs) + seq![Op::SetValue(0)] + add_to_from(s, end)
        } else {
            Seq::empty()
        }
    } else {
        seq![shape(s[i])] + add_to_from(s, i + 1)
    }
}

/// Inserts `(off, add)` into its place, or fails where `off` is already there.
fn insert_offset(offsets: &mut Vec<(isize, bool)>, off: isize, add: bool) -> (r: bool)
    requires
        sorted_offsets(old(offsets)@),
        off != 0,
    ensures
        sorted_offsets(final(offsets)@),
        r <==> (forall|i: int| 0 <= i < old(offsets)@.len() ==> old(offsets)@[i].0 != off),
        r ==> final(offsets)@.len() == old(offsets)@.len() + 1,
        !r ==> final(offsets)@ == old(offsets)@,
        r ==> sorted_insert(old(offsets)@, off, add) == Some(final(offsets)@),
        !r ==> sorted_insert(old(offsets)@, off, add) is None,
{
    let mut pos: usize = 0;
    while pos < offsets.len() && offsets[pos].0 < off
        invariant
            pos <= offsets@.len(),
            offsets@ == old(offsets)@,
            forall|i: int| 0 <= i < pos ==> offsets@[i].0 < off,
        decreases offsets@.len() - pos,
    {
        pos += 1;
    }
    proof {
        lemma_insert_pos(offsets@, off, pos as int);
    }
    if pos < offsets.len() && offsets[pos].0 == off {
        return false;
    }
    offsets.insert(pos, (off, add));
    proof {
        let o = old(offsets)@;
        let f = offsets@;
        assert(f == o.insert(pos as int, (off, add)));
        assert forall|i: int| 0 <= i < o.len() implies o[i].0 != off by {
            if i >= pos {
                assert(o[pos as int].0 > off);
                assert(i == pos || o[pos as int].0 < o[i].0);
            }
        }
    }
    true
}

/// The copy loop that starts at `index`, if it is one: the offsets that it
/// adds to (`true`) or subtracts from (`false`), ascending, and the index
/// just past its end.
fn match_copy_loop<Int: BrainfuckInteger>(code: &Brainfuck<Int>, index: usize) -> (r: Option<
    (Vec<(isize, bool)>, usize),
>)
    requires
        code.complete(),
        index < code@.len(),
        code@[index as int] is LoopStart,
    ensures
        r is Some ==> {
            let (offsets, end) = r->Some_0;
            &&& index < end <= code@.len()
            &&& depth(code@, end as int) == depth(code@, index as int)
            &&& sorted_offsets(offsets@)
        },
        r is Some <==> copy_scan(code@, index + 1, 0, false, Seq::empty()) is Some,
        r is Some ==> copy_scan(code@, index + 1, 0, false, Seq::empty()) == Some(
            (r->Some_0.0@, r->Some_0.1 as int),
        ),
{
    let n = code.len();
    let mut offsets: Vec<(isize, bool)> = Vec::new();
    let mut offset: i128 = 0;
    let mut end_index = index + 1;
    let mut decreased = false;
    proof {
        assert(offsets@ =~= Seq::<(isize, bool)>::empty());
        lemma_depth_step(code@, index as int);
    }
    loop
        invariant
            n == code@.len(),
            index < end_index <= n,
            depth(code@, end_index as int) == depth(code@, index as int) + 1,
            sorted_offsets(offsets@),
            isize::MIN <= offset <= isize::MAX,
            copy_scan(code@, end_index as int, offset as int, decreased, offsets@) == copy_scan(
                code@,
                index + 1,
                0,
                false,
                Seq::empty(),
            ),
        decreases n - end_index,
    {
        if end_index >= n {
            return None;
        }
        proof {
            lemma_depth_step(code@, end_index as int);
        }
        match code.get(end_index) {
            Some(Instruct::Move(off)) => {
                let next = offset + *off as i128;
                if next < isize::MIN as i128 || next > isize::MAX as i128 {
                    return None;
                }
                offset = next;
                end_index += 1;
            },
            Some(Instruct::Add(val)) => {
                let v = val.i64();
                if v == -1 && offset == 0 && !decreased {
                    decreased = true;
                } else if (v == 1 || v == -1) && offset != 0 {
                    if !insert_offset(&mut offsets, offset as isize, v == 1) {
                        return None;
                    }
                } else {
                    return None;
                }
                end_index += 1;
            },
            Some(Instruct::LoopEnd(_)) => {
                if offset == 0 && decreased {
                    return Some((offsets, end_index + 1));
                }
                return None;
            },
            _ => {
                return None;
            },
        }
    }
}

/// Replaces each copy loop by one `AddTo(off)` or `SubFrom(off)` per
/// target offset, ascending, followed by `SetValue(0)`. A copy loop has no
/// nested loop and no I/O, only moves and additions of `1` or `-1`; it
/// returns to its start, decrements the current cell exactly once, and
/// touches every other cell at most once.
pub fn optimize<Int: BrainfuckInteger>(code: &Brainfuck<Int>) -> (r: Brainfuck<Int>)
    requires
        code.complete(),
    ensures
        r.complete(),
        shapes(r@) == add_to_from(code@, 0),
{
    let mut opt = Brainfuck::new();
    let mut index: usize = 0;
    let n = code.len();
    proof {
        assert(shapes(opt@) + add_to_from(code@, 0) =~= add_to_from(code@, 0));
        lemma_depth_zero(code@);
        code.lemma_complete();
        lemma_wf_facts(code@);
    }
    while index < n
        invariant
            code.complete(),
            n == code@.len(),
            index <= n,
            opt.well_formed(),
            opt.open_loops().len() == depth(code@, index as int),
            depth(code@, n as int) == 0,
            forall|k: int| 0 <= k <= n ==> depth(code@, k) >= 0,
            forall|j: int| 0 <= j < n && (#[trigger] code@[j]) is LoopEnd ==> depth(code@, j) >= 1,
            shapes(opt@) + add_to_from(code@, index as int) == add_to_from(code@, 0),
        decreases n - index,
    {
        let ghost before = opt@;
        let ghost at = index as int;
        let matched = match code.get(index) {
            Some(Instruct::LoopStart(_)) => match_copy_loop(code, index),
            _ => None,
        };
        match matched {
            Some((offsets, end_index)) => {
                let mut k: usize = 0;
                while k < offsets.len()
                    invariant
                        opt.well_formed(),
                        opt.open_loops().len() == depth(code@, index as int),
                        sorted_offsets(offsets@),
                        k <= offsets@.len(),
                        shapes(opt@) == shapes(before) + target_ops(offsets@.take(k as int)),
                    decreases offsets@.len() - k,
                {
                    let ghost mid = opt@;
                    let (off, add) = offsets[k];
                    if add {
                        opt.push_add_to(off);
                    } else {
                        opt.push_sub_from(off);
                    }
                    k += 1;
                    proof {
                        lemma_shapes_push(mid, opt@.last());
                        assert(offsets@.take(k as int).drop_last() =~= offsets@.take(k - 1));
                        assert(shapes(opt@) =~= shapes(before) + target_ops(offsets@.take(k as int)));
                    }
                }
                let ghost mid = opt@;
                opt.push_set(Int::zero());
                index = end_index;
                proof {
                    assert(offsets@.take(k as int) =~= offsets@);
                    lemma_shapes_push(mid, opt@.last());
                    assert(shapes(opt@) + add_to_from(code@, index as int) =~= shapes(before)
                        + add_to_from(code@, at));
                }
            },
            None => {
                opt.copy_from(code, index);
                index += 1;
                proof {
                    assert(shapes(opt@) + add_to_from(code@, index as int) =~= shapes(before)
                        + add_to_from(code@, at));
                }
            },
        }
    }
    proof {
        assert(shapes(opt@) =~= shapes(opt@) + add_to_from(code@, n as int));
    }
    opt
}

} // verus!
