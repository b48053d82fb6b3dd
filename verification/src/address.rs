//! Arithmetic on cell values: integers modulo the size of the arena.
//!
//! Every address computation of the simulator goes through `Address`, so
//! that a position never leaves `[0, M)` and a subtraction never goes below
//! zero.

use vstd::prelude::*;

verus! {

/// `(base + disp) mod m`.
pub open spec fn wrap_add(base: int, disp: int, m: int) -> int {
    (base + disp) % m
}

/// `(base + m - (disp mod m)) mod m`: subtraction by adding the complement.
pub open spec fn wrap_sub(base: int, disp: int, m: int) -> int {
    (base + m - (disp % m)) % m
}

/// `(base * factor) mod m`.
pub open spec fn wrap_mul(base: int, factor: int, m: int) -> int {
    (base * factor) % m
}

/// A modular sum or difference of values in `[0, m)` is the plain sum or
/// difference, brought back into `[0, m)` by one `m` where it left it. So a
/// subtraction that would go below zero wraps around: `0 - 1` is `m - 1`.
pub proof fn lemma_wrap_in_range(a: int, b: int, m: int)
    requires
        0 < m,
        0 <= a < m,
        0 <= b < m,
    ensures
        wrap_add(a, b, m) == if a + b < m { a + b } else { a + b - m },
        wrap_sub(a, b, m) == if a >= b { a - b } else { a + m - b },
        0 <= wrap_add(a, b, m) < m,
        0 <= wrap_sub(a, b, m) < m,
        m > 1 ==> wrap_sub(0, 1, m) == m - 1,
{
    vstd::arithmetic::div_mod::lemma_small_mod(b as nat, m as nat);
    if a + b < m {
        vstd::arithmetic::div_mod::lemma_small_mod((a + b) as nat, m as nat);
    } else {
        vstd::arithmetic::div_mod::lemma_mod_sub_multiples_vanish(a + b, m);
        vstd::arithmetic::div_mod::lemma_small_mod((a + b - m) as nat, m as nat);
    }
    if a >= b {
        vstd::arithmetic::div_mod::lemma_mod_sub_multiples_vanish(a + m - b, m);
        vstd::arithmetic::div_mod::lemma_small_mod((a - b) as nat, m as nat);
    } else {
        vstd::arithmetic::div_mod::lemma_small_mod((a + m - b) as nat, m as nat);
    }
    if m > 1 {
        vstd::arithmetic::div_mod::lemma_small_mod(1, m as nat);
        vstd::arithmetic::div_mod::lemma_small_mod((m - 1) as nat, m as nat);
    }
}

/// Whatever the operands, a modular result lies in `[0, m)`.
pub proof fn lemma_wrap_bounds(a: int, b: int, m: int)
    requires
        0 < m,
    ensures
        0 <= wrap_add(a, b, m) < m,
        0 <= wrap_sub(a, b, m) < m,
        0 <= wrap_mul(a, b, m) < m,
{
    vstd::arithmetic::div_mod::lemma_mod_bound(a + b, m);
    vstd::arithmetic::div_mod::lemma_mod_bound(a + m - (b % m), m);
    vstd::arithmetic::div_mod::lemma_mod_bound(a * b, m);
}

/// Adding to a value that was reduced before gives what adding to the value
/// itself gives.
pub proof fn lemma_add_after_wrap(x: int, y: int, m: int)
    requires
        0 < m,
    ensures
        wrap_add(x % m, y, m) == wrap_add(x, y, m),
{
    vstd::arithmetic::div_mod::lemma_add_mod_noop(x, y, m);
    vstd::arithmetic::div_mod::lemma_add_mod_noop_right(x % m, y, m);
}

/// A value in `[0, max)`, with the modulus `max` it lives under.
#[derive(Clone, Copy, Debug)]
pub struct Address {
    value: u32,
    max: u32,
}

impl Address {
    #[verifier::type_invariant]
    spec fn in_range(self) -> bool {
        self.value < self.max
    }

    /// The value, in `[0, max)`.
    pub closed spec fn spec_value(&self) -> u32 {
        self.value
    }

    /// The modulus.
    pub closed spec fn spec_max(&self) -> u32 {
        self.max
    }

    /// `value mod max`, as an address under the modulus `max`.
    pub fn new(value: u32, max: u32) -> (r: Self)
        requires
            max > 0,
        ensures
            r.spec_value() == value % max,
            r.spec_max() == max,
    {
        Address { value: value % max, max }
    }

    /// The value, in `[0, max)`.
    #[verifier::when_used_as_spec(spec_value)]
    pub fn value(&self) -> (r: u32)
        ensures
            r == self.spec_value(),
            r < self.spec_max(),
    {
        proof {
            use_type_invariant(self);
        }
        self.value
    }

    /// The modulus: never zero.
    #[verifier::when_used_as_spec(spec_max)]
    pub fn max(&self) -> (r: u32)
        ensures
            r == self.spec_max(),
            r > 0,
    {
        proof {
            use_type_invariant(self);
        }
        self.max
    }

    /// The address `disp` cells further on, around the arena.
    pub fn add(self, disp: u32) -> (r: Self)
        ensures
            r.spec_value() == wrap_add(self.spec_value() as int, disp as int, self.spec_max() as int),
            r.spec_max() == self.spec_max(),
    {
        proof {
            use_type_invariant(self);
        }
        let m: u64 = self.max as u64;
        let sum: u64 = (self.value as u64 + disp as u64) % m;
        Address { value: sum as u32, max: self.max }
    }

    /// The address `disp` cells back, around the arena.
    pub fn sub(self, disp: u32) -> (r: Self)
        ensures
            r.spec_value() == wrap_sub(self.spec_value() as int, disp as int, self.spec_max() as int),
            r.spec_max() == self.spec_max(),
    {
        proof {
            use_type_invariant(self);
        }
        let m: u64 = self.max as u64;
        let back: u64 = disp as u64 % m;
        let diff: u64 = (self.value as u64 + m - back) % m;
        Address { value: diff as u32, max: self.max }
    }

    /// The value times `factor`, modulo `max`.
    pub fn mul(self, factor: u32) -> (r: Self)
        ensures
            r.spec_value() == wrap_mul(
                self.spec_value() as int,
                factor as int,
                self.spec_max() as int,
            ),
            r.spec_max() == self.spec_max(),
    {
        proof {
            use_type_invariant(self);
        }
        let v: u64 = self.value as u64;
        let f: u64 = factor as u64;
        assert(v * f <= 0xffff_ffff * 0xffff_ffff) by (nonlinear_arith)
            requires
                v <= 0xffff_ffff,
                f <= 0xffff_ffff,
        ;
        let product: u64 = (v * f) % (self.max as u64);
        Address { value: product as u32, max: self.max }
    }

    /// The value divided by `divisor`, or `None` where `divisor` is zero.
    pub fn div(self, divisor: u32) -> (r: Option<Self>)
        ensures
            divisor == 0 <==> r is None,
            r matches Some(q) ==> q.spec_value() == self.spec_value() / divisor && q.spec_max()
                == self.spec_max(),
    {
        proof {
            use_type_invariant(self);
        }
        if divisor == 0 {
            None
        } else {
            Some(Address { value: self.value / divisor, max: self.max })
        }
    }

    /// The remainder of the value by `divisor`, or `None` where `divisor` is
    /// zero.
    pub fn rem(self, divisor: u32) -> (r: Option<Self>)
        ensures
            divisor == 0 <==> r is None,
            r matches Some(q) ==> q.spec_value() == self.spec_value() % divisor && q.spec_max()
                == self.spec_max(),
    {
        proof {
            use_type_invariant(self);
        }
        if divisor == 0 {
            None
        } else {
            proof {
                vstd::arithmetic::div_mod::lemma_mod_decreases(self.value as nat, divisor as nat);
            }
            Some(Address { value: self.value % divisor, max: self.max })
        }
    }
}

} // verus!
