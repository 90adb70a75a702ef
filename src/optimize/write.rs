//! Write coalescing: writes of statically known bytes become one `WriteStr`.
use vstd::prelude::*;
use crate::instruct::{Instruct, Op, depth, lemma_depth_step, lemma_depth_zero, lemma_shapes_push, lemma_wf_facts, shape, shapes};
use crate::integer::low_byte;
use crate::integer::BrainfuckInteger;
use crate::program::Brainfuck;

verus! {

/// The value of an optional cell.
pub open spec fn value_of<Int: BrainfuckInteger>(v: Option<Int>) -> Option<int> {
    match v {
        Some(x) => Some(x.value()),
        None => None,
    }
}

/// Absorbs the writes with known bytes from index `i` on into `data`, where
/// `last` is the cell value if known: `SetValue(v), Write`, `Write` with a
/// known value, and `WriteStr`. Gives the index after them, the bytes, and
/// the cell value last assigned.
pub open spec fn absorb(s: Seq<Op>, i: int, last: Option<int>, data: Seq<u8>) -> (int, Seq<u8>, Option<int>)
    decreases s.len() - i,
{
    if i < 0 || i >= s.len() {
        (i, data, last)
    } else if i + 1 < s.len() && s[i] is SetValue && s[i + 1] is Write {
        absorb(s, i + 2, Some(s[i]->SetValue_0), data.push(low_byte(s[i]->SetValue_0)))
    } else if s[i] is Write && last is Some {
        absorb(s, i + 1, last, data.push(low_byte(last->Some_0)))
    } else if s[i] is WriteStr {
        absorb(s, i + 1, last, data + s[i]->WriteStr_0)
    } else {
        (i, data, last)
    }
}

/// The assignment that a coalesced run keeps, if its value is known.
pub open spec fn kept_set(last: Option<int>) -> Seq<Op> {
    match last {
        Some(v) => seq![Op::SetValue(v)],
        None => Seq::empty(),
    }
}

/// What the pass makes of the instructions of `s` from index `i` on, as shapes.
pub open spec fn write_from(s: Seq<Op>, i: int) -> Seq<Op>
    decreases s.len() - i,
{
    if i < 0 || i >= s.len() {
        Seq::empty()
    } else if i + 1 < s.len() && s[i] is SetValue && s[i + 1] is Write {
        let v = s[i]->SetValue_0;
        let (j, data, last) = absorb(s, i + 2, Some(v), seq![low_byte(v)]);
        if i < j <= s.len() {
            kept_set(last) + seq![Op::WriteStr(data)] + write_from(s, j)
        } else {
            Seq::empty()
        }
    } else if s[i] is WriteStr && s[i]->WriteStr_0.len() > 0 {
        let (j, data, last) = absorb(s, i + 1, None, s[i]->WriteStr_0);
        if i < j <= s.len() {
            kept_set(last) + seq![Op::WriteStr(data)] + write_from(s, j)
        } else {
            Seq::empty()
        }
    } else {
        seq![shape(s[i])] + write_from(s, i + 1)
    }
}

/// Extends `data` with the writes whose bytes are known, starting at
/// `index`: `Write` while the cell value `last_val` is known, `SetValue(v), Write`,
/// and `WriteStr`. Returns the index after them and the cell value last assigned.
fn optimize_write_str<Int: BrainfuckInteger>(
    code: &Brainfuck<Int>,
    index: usize,
    last_val: Option<Int>,
    data: &mut Vec<u8>,
) -> (r: (usize, Option<Int>))
    requires
        code.complete(),
        index <= code@.len(),
        old(data)@.len() > 0,
    ensures
        index <= r.0 <= code@.len(),
        depth(code@, r.0 as int) == depth(code@, index as int),
        final(data)@.len() > 0,
        last_val is Some ==> r.1 is Some,
        absorb(code@, index as int, value_of(last_val), old(data)@) == (
            r.0 as int,
            final(data)@,
            value_of(r.1),
        ),
{
    let n = code.len();
    let mut i = index;
    let mut last = last_val;
    loop
        invariant
            n == code@.len(),
            index <= i <= n,
            depth(code@, i as int) == depth(code@, index as int),
            data@.len() > 0,
            last_val is Some ==> last is Some,
            absorb(code@, i as int, value_of(last), data@) == absorb(
                code@,
                index as int,
                value_of(last_val),
                old(data)@,
            ),
        decreases n - i,
    {
        let pair = if n - i < 2 {
            None
        } else {
            match (code.get(i), code.get(i + 1)) {
                (Some(Instruct::SetValue(val)), Some(Instruct::Write)) => Some(*val),
                _ => None,
            }
        };
        match pair {
            Some(val) => {
                proof {
                    lemma_depth_step(code@, i as int);
                    lemma_depth_step(code@, i + 1);
                }
                i += 2;
                last = Some(val);
                data.push(val.get_least_byte());
            },
            None => {
                let known = match (code.get(i), last) {
                    (Some(Instruct::Write), Some(v)) => Some(v),
                    _ => None,
                };
                match known {
                    Some(v) => {
                        proof {
                            lemma_depth_step(code@, i as int);
                        }
                        i += 1;
                        data.push(v.get_least_byte());
                    },
                    None => {
                        match code.get(i) {
                            Some(Instruct::WriteStr(data2)) => {
                                proof {
                                    lemma_depth_step(code@, i as int);
                                }
                                i += 1;
                                let ghost start = data@;
                                let mut k: usize = 0;
                                while k < data2.len()
                                    invariant
                                        data@.len() > 0,
                                        k <= data2@.len(),
                                        data@ == start + data2@.take(k as int),
                                    decreases data2@.len() - k,
                                {
                                    data.push(data2[k]);
                                    k += 1;
                                    proof {
                                        assert(data@ =~= start + data2@.take(k as int));
                                    }
                                }
                                proof {
                                    assert(data2@.take(k as int) =~= data2@);
                                }
                            },
                            _ => {
                                return (i, last);
                            },
                        }
                    },
                }
            },
        }
    }
}

/// Fuses each run of writes whose bytes are statically known into one
/// `WriteStr`, keeping the last assignment of the run before it.
pub fn optimize<Int: BrainfuckInteger>(code: &Brainfuck<Int>) -> (r: Brainfuck<Int>)
    requires
        code.complete(),
    ensures
        r.complete(),
        shapes(r@) == write_from(code@, 0),
{
    let mut opt = Brainfuck::new();
    let mut index: usize = 0;
    let n = code.len();
    proof {
        assert(shapes(opt@) + write_from(code@, 0) =~= write_from(code@, 0));
        lemma_depth_zero(code@);
        code.lemma_complete();
        lemma_wf_facts(code@);
    }
    while index < n
        invariant
            code.complete(),
            n == code@.len(),
            index <= n,
            opt.well_formed(),
            opt.open_loops().len() == depth(code@, index as int),
            depth(code@, n as int) == 0,
            forall|k: int| 0 <= k <= n ==> depth(code@, k) >= 0,
            forall|j: int| 0 <= j < n && (#[trigger] code@[j]) is LoopEnd ==> depth(code@, j) >= 1,
            forall|i: int| 0 <= i < n ==> crate::instruct::nontrivial(#[trigger] code@[i]),
            shapes(opt@) + write_from(code@, index as int) == write_from(code@, 0),
        decreases n - index,
    {
        let ghost before = opt@;
        let ghost at = index as int;
        let start = if n - index < 2 {
            None
        } else {
            match (code.get(index), code.get(index + 1)) {
                (Some(Instruct::SetValue(val)), Some(Instruct::Write)) => Some(*val),
                _ => None,
            }
        };
        match start {
            Some(val) => {
                proof {
                    lemma_depth_step(code@, index as int);
                    lemma_depth_step(code@, index + 1);
                }
                let mut data = vec![val.get_least_byte()];
                proof {
                    assert(data@ =~= seq![low_byte(val.value())]);
                }
                let (new_index, last_val) = optimize_write_str(code, index + 2, Some(val), &mut data);
                index = new_index;
                match last_val {
                    Some(v) => opt.push_set(v),
                    None => {},
                }
                let ghost mid = opt@;
                let ghost d = data@;
                opt.push_write_str(data);
                proof {
                    lemma_shapes_push(mid, Op::WriteStr(d));
                    if last_val is Some {
                        lemma_shapes_push(before, mid.last());
                    }
                    assert(shapes(opt@) + write_from(code@, index as int) =~= shapes(before)
                        + write_from(code@, at));
                }
            },
            None => {
                let first = match code.get(index) {
                    Some(Instruct::WriteStr(data)) => Some(data.clone()),
                    _ => None,
                };
                match first {
                    Some(mut data) => {
                        proof {
                            lemma_depth_step(code@, index as int);
                            assert(crate::instruct::nontrivial(code@[index as int]));
                        }
                        let (new_index, last_val) = optimize_write_str(code, index + 1, None, &mut data);
                        index = new_index;
                        match last_val {
                            Some(v) => opt.push_set(v),
                            None => {},
                        }
                        let ghost mid = opt@;
                        let ghost d = data@;
                        opt.push_write_str(data);
                        proof {
                            lemma_shapes_push(mid, Op::WriteStr(d));
                            if last_val is Some {
                                lemma_shapes_push(before, mid.last());
                            }
                            assert(shapes(opt@) + write_from(code@, index as int) =~= shapes(before)
                                + write_from(code@, at));
                        }
                    },
                    None => {
                        opt.copy_from(code, index);
                        index += 1;
                        proof {
                            assert(shapes(opt@) + write_from(code@, index as int) =~= shapes(before)
                                + write_from(code@, at));
                        }
                    },
                }
            },
        }
    }
    proof {
        assert(shapes(opt@) =~= shapes(opt@) + write_from(code@, n as int));
    }
    opt
}

} // verus!
