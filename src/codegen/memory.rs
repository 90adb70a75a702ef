//! The scan shared by the back-ends: how far the pointer reaches between
//! I/O, and whether the program uses the tape at all.
use vstd::prelude::*;
use crate::instruct::{Instruct, Op};
use crate::integer::{BrainfuckInteger, bytes_of};
use crate::program::Brainfuck;

verus! {

/// The state of the scan after the first `n` instructions: the offset of
/// the current run of moves, the lowest and highest offsets reached, whether
/// the last instruction was a move, and whether the tape is used.
pub open spec fn scan(s: Seq<Op>, n: int) -> (int, int, int, bool, bool)
    decreases n,
{
    if n <= 0 {
        (0, 0, 0, false, false)
    } else {
        let (cur, lo, hi, last_move, uses) = scan(s, n - 1);
        match s[n - 1] {
            Op::Move(off) => {
                let c = if last_move {
                    cur + off
                } else {
                    off
                };
                (c, if c < lo {
                    c
                } else {
                    lo
                }, if c > hi {
                    c
                } else {
                    hi
                }, true, uses)
            },
            Op::AddTo(off) => {
                let a = cur + off;
                (cur, if a < lo {
                    a
                } else {
                    lo
                }, if a > hi {
                    a
                } else {
                    hi
                }, false, true)
            },
            Op::SubFrom(off) => {
                let a = cur + off;
                (cur, if a < lo {
                    a
                } else {
                    lo
                }, if a > hi {
                    a
                } else {
                    hi
                }, false, true)
            },
            Op::WriteStr(_) => (cur, lo, hi, last_move, uses),
            _ => (cur, lo, hi, false, true),
        }
    }
}

/// Does the program use the tape (anything but constant output)?
pub open spec fn uses_mem(s: Seq<Op>) -> bool {
    scan(s, s.len() as int).4
}

/// The page size for a program whose pointer reaches `m` cells of `w`
/// bytes from where it stood: `m * w` rounded up to whole pages of 4096
/// bytes, at least one page.
pub open spec fn pagesize_of(m: int, w: int) -> int {
    let b = m * w;
    if b <= 4096 {
        4096
    } else {
        (b + 4095) / 4096 * 4096
    }
}

/// The page size of the runtime for the program `s` with cells of `w` bytes.
pub open spec fn pagesize(s: Seq<Op>, w: int) -> int {
    let (_c, lo, hi, _l, _u) = scan(s, s.len() as int);
    pagesize_of(if hi > -lo {
        hi
    } else {
        -lo
    }, w)
}

/// Scans `code`: whether it uses the tape, and the page size of its runtime.
pub fn scan_memory<Int: BrainfuckInteger>(code: &Brainfuck<Int>) -> (r: (bool, u128))
    requires
        code@.len() < 0x0800_0000_0000_0000,
    ensures
        r.0 == uses_mem(code@),
        r.1 == pagesize(code@, bytes_of(Int::modulus())),
        r.1 < 0x4000_0000_0000_0000_0000_0000_0000_2000,
{
    let n = code.len();
    let mut cur: i128 = 0;
    let mut lo: i128 = 0;
    let mut hi: i128 = 0;
    let mut last_move = false;
    let mut uses = false;
    let mut i: usize = 0;
    let bound: i128 = 0x1_0000_0000_0000_0000;
    while i < n
        invariant
            n == code@.len(),
            n < 0x0800_0000_0000_0000,
            i <= n,
            bound == 0x1_0000_0000_0000_0000,
            scan(code@, i as int) == (cur as int, lo as int, hi as int, last_move, uses),
            -(i as int) * bound <= cur <= (i as int) * bound,
            -(i as int + 1) * bound <= lo <= 0 <= hi <= (i as int + 1) * bound,
        decreases n - i,
    {
        match code.get(i) {
            Some(Instruct::Move(off)) => {
                let c = if last_move {
                    cur + *off as i128
                } else {
                    *off as i128
                };
                if c < lo {
                    lo = c;
                }
                if c > hi {
                    hi = c;
                }
                cur = c;
                last_move = true;
            },
            Some(Instruct::AddTo(off)) | Some(Instruct::SubFrom(off)) => {
                let a = cur + *off as i128;
                if a < lo {
                    lo = a;
                }
                if a > hi {
                    hi = a;
                }
                last_move = false;
                uses = true;
            },
            Some(Instruct::WriteStr(_)) => {},
            _ => {
                last_move = false;
                uses = true;
            },
        }
        i += 1;
    }
    let m: i128 = if hi > -lo {
        hi
    } else {
        -lo
    };
    let z = Int::zero();
    let w = Int::size() as i128;
    proof {
        z.lemma_value();
        assert(0 <= m <= (n as int + 1) * bound);
        assert(m * w <= (n as int + 1) * bound * 8) by (nonlinear_arith)
            requires
                0 <= m <= (n as int + 1) * bound,
                1 <= w <= 8,
        ;
        assert((n as int + 1) * bound * 8 <= 0x4000_0000_0000_0000_0000_0000_0000_0000) by (nonlinear_arith)
            requires
                n < 0x0800_0000_0000_0000,
                bound == 0x1_0000_0000_0000_0000,
        ;
    }
    let b = m * w;
    let p: i128 = if b <= 4096 {
        4096
    } else {
        (b + 4095) / 4096 * 4096
    };
    proof {
        assert(p >= 0);
    }
    (uses, p as u128)
}

} // verus!
