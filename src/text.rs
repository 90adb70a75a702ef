//! Building generated text as bytes.
use vstd::prelude::*;
use vstd::string::StringSliceAdditionalSpecFns;

verus! {

/// `s` repeated `n` times.
pub open spec fn repeat(s: Seq<u8>, n: nat) -> Seq<u8>
    decreases n,
{
    if n == 0 {
        Seq::empty()
    } else {
        repeat(s, (n - 1) as nat) + s
    }
}

/// The decimal digits of `n`.
pub open spec fn digits(n: nat) -> Seq<u8>
    decreases n,
{
    if n < 10 {
        seq![(n + 48) as u8]
    } else {
        digits(n / 10).push((n % 10 + 48) as u8)
    }
}

/// `x` written in decimal, with a leading `-` when negative.
pub open spec fn decimal(x: int) -> Seq<u8> {
    if x < 0 {
        seq!['-' as u8] + digits((-x) as nat)
    } else {
        digits(x as nat)
    }
}

/// The bytes of the text `s`.
pub open spec fn text(s: &str) -> Seq<u8> {
    s.spec_bytes()
}

/// Appends the bytes of `s`.
pub fn push_str(out: &mut Vec<u8>, s: &str)
    ensures
        final(out)@ == old(out)@ + text(s),
{
    let b = s.as_bytes();
    let mut i: usize = 0;
    while i < b.len()
        invariant
            i <= b@.len(),
            b@ == text(s),
            out@ == old(out)@ + b@.take(i as int),
        decreases b@.len() - i,
    {
        out.push(b[i]);
        i += 1;
        proof {
            assert(b@.take(i as int) =~= b@.take(i - 1).push(b@[i - 1]));
        }
    }
    proof {
        assert(b@.take(i as int) =~= b@);
    }
}

/// Appends the bytes of `bytes`.
pub fn push_bytes(out: &mut Vec<u8>, bytes: &[u8])
    ensures
        final(out)@ == old(out)@ + bytes@,
{
    let mut i: usize = 0;
    while i < bytes.len()
        invariant
            i <= bytes@.len(),
            out@ == old(out)@ + bytes@.take(i as int),
        decreases bytes@.len() - i,
    {
        out.push(bytes[i]);
        i += 1;
        proof {
            assert(bytes@.take(i as int) =~= bytes@.take(i - 1).push(bytes@[i - 1]));
        }
    }
    proof {
        assert(bytes@.take(i as int) =~= bytes@);
    }
}

/// Appends `n` spaces.
pub fn push_spaces(out: &mut Vec<u8>, n: usize)
    ensures
        final(out)@ == old(out)@ + repeat(seq![' ' as u8], n as nat),
{
    let mut k: usize = 0;
    while k < n
        invariant
            k <= n,
            out@ == old(out)@ + repeat(seq![' ' as u8], k as nat),
        decreases n - k,
    {
        out.push(' ' as u8);
        k += 1;
        proof {
            assert(out@ =~= old(out)@ + repeat(seq![' ' as u8], k as nat));
        }
    }
}

/// Appends four spaces for each level of `nesting`.
pub fn indent(out: &mut Vec<u8>, nesting: usize)
    ensures
        final(out)@ == old(out)@ + repeat(text("    "), nesting as nat),
{
    let mut k: usize = 0;
    while k < nesting
        invariant
            k <= nesting,
            out@ == old(out)@ + repeat(text("    "), k as nat),
        decreases nesting - k,
    {
        push_str(out, "    ");
        k += 1;
        proof {
            assert(out@ =~= old(out)@ + repeat(text("    "), k as nat));
        }
    }
}

/// Appends the decimal digits of `n`.
pub fn push_digits(out: &mut Vec<u8>, n: u128)
    ensures
        final(out)@ == old(out)@ + digits(n as nat),
    decreases n,
{
    if n >= 10 {
        push_digits(out, n / 10);
    }
    out.push((n % 10) as u8 + 48);
    proof {
        assert(out@ =~= old(out)@ + digits(n as nat));
    }
}

/// Appends `x` in decimal.
pub fn push_decimal(out: &mut Vec<u8>, x: i128)
    requires
        x > i128::MIN,
    ensures
        final(out)@ == old(out)@ + decimal(x as int),
{
    if x < 0 {
        out.push('-' as u8);
        push_digits(out, (-x) as u128);
        proof {
            assert(out@ =~= old(out)@ + decimal(x as int));
        }
    } else {
        push_digits(out, x as u128);
    }
}

/// Appends `s` padded with spaces on the right to `width` bytes.
pub fn push_left(out: &mut Vec<u8>, s: &[u8], width: usize)
    ensures
        final(out)@ == old(out)@ + s@ + (if s@.len() < width {
            repeat(seq![' ' as u8], (width - s@.len()) as nat)
        } else {
            Seq::empty()
        }),
{
    push_bytes(out, s);
    if s.len() < width {
        push_spaces(out, width - s.len());
    }
    proof {
        assert(out@ =~= old(out)@ + s@ + (if s@.len() < width {
            repeat(seq![' ' as u8], (width - s@.len()) as nat)
        } else {
            Seq::empty()
        }));
    }
}

/// Appends `x` in decimal, padded with spaces on the left to `width` bytes.
pub fn push_right_decimal(out: &mut Vec<u8>, x: i128, width: usize)
    requires
        x > i128::MIN,
    ensures
        final(out)@ == old(out)@ + (if decimal(x as int).len() < width {
            repeat(seq![' ' as u8], (width - decimal(x as int).len()) as nat)
        } else {
            Seq::empty()
        }) + decimal(x as int),
{
    let mut digits: Vec<u8> = Vec::new();
    push_decimal(&mut digits, x);
    proof {
        assert(digits@ =~= decimal(x as int));
    }
    if digits.len() < width {
        push_spaces(out, width - digits.len());
    }
    push_bytes(out, digits.as_slice());
    proof {
        assert(out@ =~= old(out)@ + (if decimal(x as int).len() < width {
            repeat(seq![' ' as u8], (width - decimal(x as int).len()) as nat)
        } else {
            Seq::empty()
        }) + decimal(x as int));
    }
}

/// Appends the byte `b` `count` times.
pub fn push_repeat_byte(out: &mut Vec<u8>, b: u8, count: u64)
    ensures
        final(out)@ == old(out)@ + repeat(seq![b], count as nat),
        final(out)@.len() == old(out)@.len() + count,
        forall|k: int| 0 <= k < old(out)@.len() ==> #[trigger] final(out)@[k] == old(out)@[k],
        forall|k: int| old(out)@.len() <= k < final(out)@.len() ==> #[trigger] final(out)@[k] == b,
{
    let mut c: u64 = 0;
    while c < count
        invariant
            c <= count,
            out@.len() == old(out)@.len() + c,
            forall|k: int| 0 <= k < old(out)@.len() ==> #[trigger] out@[k] == old(out)@[k],
            forall|k: int| old(out)@.len() <= k < out@.len() ==> #[trigger] out@[k] == b,
            out@ == old(out)@ + repeat(seq![b], c as nat),
        decreases count - c,
    {
        out.push(b);
        c += 1;
        proof {
            assert(out@ =~= old(out)@ + repeat(seq![b], c as nat));
        }
    }
}

} // verus!
