//! Cell integers: signed two's-complement types of 8, 16, 32 or 64 bits with
//! wrapping arithmetic.
use vstd::prelude::*;
use vstd::arithmetic::div_mod::{lemma_small_mod, lemma_mod_add_multiples_vanish, lemma_mod_sub_multiples_vanish};

verus! {

/// The value `x` reduced into the signed range of a cell whose number of
/// distinct values is `m`, that is `[-m/2, m/2)`.
pub open spec fn wrap(m: int, x: int) -> int {
    (x + m / 2) % m - m / 2
}

/// The byte that holds the low eight bits of `x`.
pub open spec fn low_byte(x: int) -> u8 {
    (x % 256) as u8
}

/// The name of the C type of a cell with `m` distinct values.
pub open spec fn c_type_of(m: int) -> &'static str {
    if m == 0x100 {
        "int8_t"
    } else if m == 0x10000 {
        "int16_t"
    } else if m == 0x1_0000_0000 {
        "int32_t"
    } else {
        "int64_t"
    }
}

/// The width in bytes of a cell with `m` distinct values.
pub open spec fn bytes_of(m: int) -> int {
    if m == 0x100 {
        1
    } else if m == 0x10000 {
        2
    } else if m == 0x1_0000_0000 {
        4
    } else {
        8
    }
}

/// The NASM operand size keyword of a cell with `m` distinct values.
pub open spec fn nasm_prefix_of(m: int) -> &'static str {
    if m == 0x100 {
        "byte"
    } else if m == 0x10000 {
        "word"
    } else if m == 0x1_0000_0000 {
        "dword"
    } else {
        "qword"
    }
}

pub proof fn lemma_wrap_in_range(m: int, x: int)
    requires
        m >= 2,
        m % 2 == 0,
        -(m / 2) <= x < m / 2,
    ensures
        wrap(m, x) == x,
{
    lemma_small_mod((x + m / 2) as nat, m as nat);
}

pub proof fn lemma_wrap_above(m: int, x: int)
    requires
        m >= 2,
        m % 2 == 0,
        m / 2 <= x < m + m / 2,
    ensures
        wrap(m, x) == x - m,
{
    lemma_small_mod((x - m + m / 2) as nat, m as nat);
    lemma_mod_add_multiples_vanish(x - m + m / 2, m);
}

pub proof fn lemma_wrap_below(m: int, x: int)
    requires
        m >= 2,
        m % 2 == 0,
        -(m / 2) - m <= x < -(m / 2),
    ensures
        wrap(m, x) == x + m,
{
    lemma_small_mod((x + m + m / 2) as nat, m as nat);
    lemma_mod_sub_multiples_vanish(x + m + m / 2, m);
}

/// The low byte of an `i64`.
fn least_byte_i64(x: i64) -> (r: u8)
    ensures
        r == low_byte(x as int),
{
    if x >= 0 {
        let r = x % 256;
        (r as u8)
    } else {
        let y: i64 = -(x + 1);
        let k = y % 256;
        proof {
            vstd::arithmetic::div_mod::lemma_fundamental_div_mod(y as int, 256);
            let q = y as int / 256;
            assert(x as int == -256 * (q + 1) + (255 - k));
            vstd::arithmetic::div_mod::lemma_mod_multiples_vanish(-(q + 1), 255 - k, 256);
            lemma_small_mod((255 - k) as nat, 256);
        }
        ((255 - k) as u8)
    }
}

/// The capabilities that the compiler and the interpreter need of a cell type.
pub trait BrainfuckInteger: Sized + Copy {
    /// The mathematical value of the cell.
    spec fn value(self) -> int;

    /// The number of distinct values of the type (2 to the power of its width).
    spec fn modulus() -> int;

    proof fn lemma_value(self)
        ensures
            Self::modulus() == 0x100 || Self::modulus() == 0x10000 || Self::modulus()
                == 0x1_0000_0000 || Self::modulus() == 0x1_0000_0000_0000_0000,
            -(Self::modulus() / 2) <= self.value() < Self::modulus() / 2,
    ;

    proof fn lemma_injective(self, other: Self)
        ensures
            self.value() == other.value() ==> self == other,
    ;

    fn c_type() -> (r: &'static str)
        ensures
            r == c_type_of(Self::modulus()),
    ;

    fn nasm_prefix() -> (r: &'static str)
        ensures
            r == nasm_prefix_of(Self::modulus()),
    ;

    /// The width of a cell in bytes.
    fn size() -> (r: usize)
        ensures
            r as int == bytes_of(Self::modulus()),
    ;

    fn zero() -> (r: Self)
        ensures
            r.value() == 0,
    ;

    fn one() -> (r: Self)
        ensures
            r.value() == 1,
    ;

    fn is_zero(self) -> (r: bool)
        ensures
            r == (self.value() == 0),
    ;

    fn same(self, other: Self) -> (r: bool)
        ensures
            r == (self.value() == other.value()),
    ;

    fn is_positive(self) -> (r: bool)
        ensures
            r == (self.value() > 0),
    ;

    fn wrapping_add(self, other: Self) -> (r: Self)
        ensures
            r.value() == wrap(Self::modulus(), self.value() + other.value()),
    ;

    fn wrapping_neg(self) -> (r: Self)
        ensures
            r.value() == wrap(Self::modulus(), -self.value()),
    ;

    fn get_least_byte(self) -> (r: u8)
        ensures
            r == low_byte(self.value()),
    ;

    fn from_byte(value: u8) -> (r: Self)
        ensures
            r.value() == wrap(Self::modulus(), value as int),
    ;

    fn i64(self) -> (r: i64)
        ensures
            r as int == self.value(),
    ;
}

impl BrainfuckInteger for i8 {
    open spec fn value(self) -> int {
        self as int
    }

    open spec fn modulus() -> int {
        0x100
    }

    proof fn lemma_value(self) {
    }

    proof fn lemma_injective(self, other: Self) {
    }

    fn c_type() -> (r: &'static str) {
        "int8_t"
    }

    fn nasm_prefix() -> (r: &'static str) {
        "byte"
    }

    fn size() -> (r: usize) {
        1
    }

    fn zero() -> (r: Self) {
        0
    }

    fn one() -> (r: Self) {
        1
    }

    fn is_zero(self) -> (r: bool) {
        self == 0
    }

    fn same(self, other: Self) -> (r: bool) {
        self == other
    }

    fn is_positive(self) -> (r: bool) {
        self > 0
    }

    fn wrapping_add(self, other: Self) -> (r: Self) {
        let s = self as i64 + other as i64;
        proof {
            if s < -0x80 {
                lemma_wrap_below(0x100, s as int);
            } else if s >= 0x80 {
                lemma_wrap_above(0x100, s as int);
            } else {
                lemma_wrap_in_range(0x100, s as int);
            }
        }
        if s < -0x80 {
            (s + 0x100) as i8
        } else if s >= 0x80 {
            (s - 0x100) as i8
        } else {
            s as i8
        }
    }

    fn wrapping_neg(self) -> (r: Self) {
        let s = -(self as i64);
        proof {
            if s >= 0x80 {
                lemma_wrap_above(0x100, s as int);
            } else {
                lemma_wrap_in_range(0x100, s as int);
            }
        }
        if s >= 0x80 {
            (s - 0x100) as i8
        } else {
            s as i8
        }
    }

    fn get_least_byte(self) -> (r: u8) {
        least_byte_i64(self as i64)
    }

    fn from_byte(value: u8) -> (r: Self) {
        let s = value as i64;
        proof {
            if s >= 0x80 {
                lemma_wrap_above(0x100, s as int);
            } else {
                lemma_wrap_in_range(0x100, s as int);
            }
        }
        if s >= 0x80 {
            (s - 0x100) as i8
        } else {
            s as i8
        }
    }

    fn i64(self) -> (r: i64) {
        self as i64
    }
}

impl BrainfuckInteger for i16 {
    open spec fn value(self) -> int {
        self as int
    }

    open spec fn modulus() -> int {
        0x10000
    }

    proof fn lemma_value(self) {
    }

    proof fn lemma_injective(self, other: Self) {
    }

    fn c_type() -> (r: &'static str) {
        "int16_t"
    }

    fn nasm_prefix() -> (r: &'static str) {
        "word"
    }

    fn size() -> (r: usize) {
        2
    }

    fn zero() -> (r: Self) {
        0
    }

    fn one() -> (r: Self) {
        1
    }

    fn is_zero(self) -> (r: bool) {
        self == 0
    }

    fn same(self, other: Self) -> (r: bool) {
        self == other
    }

    fn is_positive(self) -> (r: bool) {
        self > 0
    }

    fn wrapping_add(self, other: Self) -> (r: Self) {
        let s = self as i64 + other as i64;
        proof {
            if s < -0x8000 {
                lemma_wrap_below(0x10000, s as int);
            } else if s >= 0x8000 {
                lemma_wrap_above(0x10000, s as int);
            } else {
                lemma_wrap_in_range(0x10000, s as int);
            }
        }
        if s < -0x8000 {
            (s + 0x10000) as i16
        } else if s >= 0x8000 {
            (s - 0x10000) as i16
        } else {
            s as i16
        }
    }

    fn wrapping_neg(self) -> (r: Self) {
        let s = -(self as i64);
        proof {
            if s >= 0x8000 {
                lemma_wrap_above(0x10000, s as int);
            } else {
                lemma_wrap_in_range(0x10000, s as int);
            }
        }
        if s >= 0x8000 {
            (s - 0x10000) as i16
        } else {
            s as i16
        }
    }

    fn get_least_byte(self) -> (r: u8) {
        least_byte_i64(self as i64)
    }

    fn from_byte(value: u8) -> (r: Self) {
        let s = value as i64;
        proof {
            if s >= 0x8000 {
                lemma_wrap_above(0x10000, s as int);
            } else {
                lemma_wrap_in_range(0x10000, s as int);
            }
        }
        if s >= 0x8000 {
            (s - 0x10000) as i16
        } else {
            s as i16
        }
    }

    fn i64(self) -> (r: i64) {
        self as i64
    }
}

impl BrainfuckInteger for i32 {
    open spec fn value(self) -> int {
        self as int
    }

    open spec fn modulus() -> int {
        0x1_0000_0000
    }

    proof fn lemma_value(self) {
    }

    proof fn lemma_injective(self, other: Self) {
    }

    fn c_type() -> (r: &'static str) {
        "int32_t"
    }

    fn nasm_prefix() -> (r: &'static str) {
        "dword"
    }

    fn size() -> (r: usize) {
        4
    }

    fn zero() -> (r: Self) {
        0
    }

    fn one() -> (r: Self) {
        1
    }

    fn is_zero(self) -> (r: bool) {
        self == 0
    }

    fn same(self, other: Self) -> (r: bool) {
        self == other
    }

    fn is_positive(self) -> (r: bool) {
        self > 0
    }

    fn wrapping_add(self, other: Self) -> (r: Self) {
        let s = self as i64 + other as i64;
        proof {
            if s < -0x8000_0000 {
                lemma_wrap_below(0x1_0000_0000, s as int);
            } else if s >= 0x8000_0000 {
                lemma_wrap_above(0x1_0000_0000, s as int);
            } else {
                lemma_wrap_in_range(0x1_0000_0000, s as int);
            }
        }
        if s < -0x8000_0000 {
            (s + 0x1_0000_0000) as i32
        } else if s >= 0x8000_0000 {
            (s - 0x1_0000_0000) as i32
        } else {
            s as i32
        }
    }

    fn wrapping_neg(self) -> (r: Self) {
        let s = -(self as i64);
        proof {
            if s >= 0x8000_0000 {
                lemma_wrap_above(0x1_0000_0000, s as int);
            } else {
                lemma_wrap_in_range(0x1_0000_0000, s as int);
            }
        }
        if s >= 0x8000_0000 {
            (s - 0x1_0000_0000) as i32
        } else {
            s as i32
        }
    }

    fn get_least_byte(self) -> (r: u8) {
        least_byte_i64(self as i64)
    }

    fn from_byte(value: u8) -> (r: Self) {
        let s = value as i64;
        proof {
            if s >= 0x8000_0000 {
                lemma_wrap_above(0x1_0000_0000, s as int);
            } else {
                lemma_wrap_in_range(0x1_0000_0000, s as int);
            }
        }
        if s >= 0x8000_0000 {
            (s - 0x1_0000_0000) as i32
        } else {
            s as i32
        }
    }

    fn i64(self) -> (r: i64) {
        self as i64
    }
}

impl BrainfuckInteger for i64 {
    open spec fn value(self) -> int {
        self as int
    }

    open spec fn modulus() -> int {
        0x1_0000_0000_0000_0000
    }

    proof fn lemma_value(self) {
    }

    proof fn lemma_injective(self, other: Self) {
    }

    fn c_type() -> (r: &'static str) {
        "int64_t"
    }

    fn nasm_prefix() -> (r: &'static str) {
        "qword"
    }

    fn size() -> (r: usize) {
        8
    }

    fn zero() -> (r: Self) {
        0
    }

    fn one() -> (r: Self) {
        1
    }

    fn is_zero(self) -> (r: bool) {
        self == 0
    }

    fn same(self, other: Self) -> (r: bool) {
        self == other
    }

    fn is_positive(self) -> (r: bool) {
        self > 0
    }

    fn wrapping_add(self, other: Self) -> (r: Self) {
        let s = self as i128 + other as i128;
        proof {
            if s < -0x8000_0000_0000_0000 {
                lemma_wrap_below(0x1_0000_0000_0000_0000, s as int);
            } else if s >= 0x8000_0000_0000_0000 {
                lemma_wrap_above(0x1_0000_0000_0000_0000, s as int);
            } else {
                lemma_wrap_in_range(0x1_0000_0000_0000_0000, s as int);
            }
        }
        if s < -0x8000_0000_0000_0000 {
            (s + 0x1_0000_0000_0000_0000) as i64
        } else if s >= 0x8000_0000_0000_0000 {
            (s - 0x1_0000_0000_0000_0000) as i64
        } else {
            s as i64
        }
    }

    fn wrapping_neg(self) -> (r: Self) {
        let s = -(self as i128);
        proof {
            if s >= 0x8000_0000_0000_0000 {
                lemma_wrap_above(0x1_0000_0000_0000_0000, s as int);
            } else {
                lemma_wrap_in_range(0x1_0000_0000_0000_0000, s as int);
            }
        }
        if s >= 0x8000_0000_0000_0000 {
            (s - 0x1_0000_0000_0000_0000) as i64
        } else {
            s as i64
        }
    }

    fn get_least_byte(self) -> (r: u8) {
        least_byte_i64(self)
    }

    fn from_byte(value: u8) -> (r: Self) {
        let s = value as i128;
        proof {
            if s >= 0x8000_0000_0000_0000 {
                lemma_wrap_above(0x1_0000_0000_0000_0000, s as int);
            } else {
                lemma_wrap_in_range(0x1_0000_0000_0000_0000, s as int);
            }
        }
        if s >= 0x8000_0000_0000_0000 {
            (s - 0x1_0000_0000_0000_0000) as i64
        } else {
            s as i64
        }
    }

    fn i64(self) -> (r: i64) {
        self
    }
}

} // verus!
