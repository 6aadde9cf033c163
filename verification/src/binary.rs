//! Binary numbers of 24 significant bits, and their arithmetic: every result is
//! the exact one rounded to the nearest such number, and to the even one of two
//! that are equally near. Exponents have no limits in the model.
use vstd::prelude::*;

verus! {

/// The number `m * 2^e`.
#[verifier::ext_equal]
pub struct Num {
    pub m: int,
    pub e: int,
}

/// The power `2^n`.
pub open spec fn two_to(n: nat) -> nat
    decreases n,
{
    if n == 0 {
        1
    } else {
        2 * two_to((n - 1) as nat)
    }
}

/// The size of a number.
pub open spec fn size_of(m: int) -> int {
    if m < 0 {
        -m
    } else {
        m
    }
}

impl Num {
    /// The number zero.
    pub open spec fn zero() -> Num {
        Num { m: 0, e: 0 }
    }

    /// Zero, or 24 significant bits.
    pub open spec fn normal(self) -> bool {
        if self.m == 0 {
            self.e == 0
        } else {
            0x80_0000 <= size_of(self.m) < 0x100_0000
        }
    }

    /// How often the number holds `2^e`, for an `e` that is not above its own.
    pub open spec fn in_units(self, e: int) -> int {
        self.m * two_to((self.e - e) as nat)
    }

    /// The number with the other sign.
    pub open spec fn neg(self) -> Num {
        Num { m: -self.m, e: self.e }
    }

    /// The sum.
    #[verifier::opaque]
    pub open spec fn plus(self, y: Num) -> Num {
        if self.m == 0 {
            y
        } else if y.m == 0 {
            self
        } else {
            let e = if self.e < y.e {
                self.e
            } else {
                y.e
            };
            nearest(self.in_units(e) + y.in_units(e), 1, e)
        }
    }

    /// The difference.
    pub open spec fn minus(self, y: Num) -> Num {
        self.plus(y.neg())
    }

    /// The product.
    #[verifier::opaque]
    pub open spec fn times(self, y: Num) -> Num {
        nearest(self.m * y.m, 1, self.e + y.e)
    }

    /// The quotient.
    #[verifier::opaque]
    pub open spec fn over(self, y: Num) -> Num {
        nearest(
            if y.m < 0 {
                -self.m
            } else {
                self.m
            },
            size_of(y.m) as nat,
            self.e - y.e,
        )
    }

    /// The square root, of a number that is not negative.
    #[verifier::opaque]
    pub open spec fn root(self) -> Num {
        if self.m <= 0 {
            Num::zero()
        } else if (self.e - 23) % 2 == 0 {
            carried(nearest_root((self.m * 0x80_0000) as nat), (self.e - 23) / 2)
        } else {
            carried(nearest_root((self.m * 0x100_0000) as nat), (self.e - 24) / 2)
        }
    }

    /// Whether the number is below another.
    #[verifier::opaque]
    pub open spec fn less(self, y: Num) -> bool {
        let e = if self.e < y.e {
            self.e
        } else {
            y.e
        };
        self.in_units(e) < y.in_units(e)
    }

    /// The number, or the bound that it passes.
    pub open spec fn clamp(self, low: Num, high: Num) -> Num {
        if self.less(low) {
            low
        } else if high.less(self) {
            high
        } else {
            self
        }
    }

    /// The greater of two numbers.
    pub open spec fn max(self, y: Num) -> Num {
        if self.less(y) {
            y
        } else {
            self
        }
    }

    /// The nearest byte; of two that are equally near, the greater.
    #[verifier::opaque]
    pub open spec fn to_byte(self) -> u8 {
        if self.m <= 0 {
            0
        } else if self.e >= 0 {
            255
        } else {
            let d = two_to((-self.e) as nat);
            let q = (2 * self.m + d) / (2 * d as int);
            if q > 255 {
                255
            } else {
                q as u8
            }
        }
    }
}

/// `a / d` as an integer; the nearest one, and the even one of two that are
/// equally near.
pub open spec fn half_even(a: nat, d: nat) -> nat {
    let q = a / d;
    let r = a % d;
    if 2 * r > d || (2 * r == d && q % 2 == 1) {
        q + 1
    } else {
        q
    }
}

/// `q * 2^k`, for a `q` of at most 24 bits or the one above them.
pub open spec fn carried(q: nat, k: int) -> Num {
    if q == 0x100_0000 {
        Num { m: 0x80_0000, e: k + 1 }
    } else {
        Num { m: q as int, e: k }
    }
}

/// How far `a / d` is from having 24 bits in front of its point.
pub open spec fn off_by(a: nat, d: nat) -> nat {
    if a < 0x80_0000 * d {
        (0x80_0000 * d - a) as nat
    } else if a >= 0x100_0000 * d {
        a / d
    } else {
        0
    }
}

/// `(a / d) * 2^k` for positive `a` and `d`: the point is moved until 24 bits
/// stand in front of it, and the rest is rounded away.
pub open spec fn rounded(a: nat, d: nat, k: int) -> Num
    decreases off_by(a, d),
    when a > 0 && d > 0
{
    if a < 0x80_0000 * d {
        rounded(2 * a, d, k - 1)
    } else if a >= 0x100_0000 * d {
        proof {
            lemma_half_quotient(a, d);
        }
        rounded(a, 2 * d, k + 1)
    } else {
        carried(half_even(a, d), k)
    }
}

/// `(n / d) * 2^k`, rounded.
#[verifier::opaque]
pub open spec fn nearest(n: int, d: nat, k: int) -> Num {
    if n == 0 {
        Num::zero()
    } else if n > 0 {
        rounded(n as nat, d, k)
    } else {
        rounded((-n) as nat, d, k).neg()
    }
}

/// Whether `g` is the integer nearest to the square root of `n`.
pub open spec fn is_nearest_root(g: nat, n: nat) -> bool {
    (2 * g - 1) * (2 * g - 1) <= 4 * n < (2 * g + 1) * (2 * g + 1)
}

/// The integer nearest to the square root of `n`.
pub open spec fn nearest_root(n: nat) -> nat {
    choose|g: nat| g > 0 && #[trigger] is_nearest_root(g, n)
}

/// Half of a quotient that is too large is not yet too small.
pub proof fn lemma_half_quotient(a: nat, d: nat)
    requires
        d > 0,
        a >= 0x100_0000 * d,
    ensures
        a / (2 * d) < a / d,
        a >= 0x80_0000 * (2 * d),
{
    assert(a / (2 * d) == (a / d) / 2) by (nonlinear_arith)
        requires
            d > 0,
    ;
    assert(a / d >= 0x100_0000) by (nonlinear_arith)
        requires
            d > 0,
            a >= 0x100_0000 * d,
    ;
}

proof fn lemma_two_to_pos(n: nat)
    ensures
        two_to(n) > 0,
    decreases n,
{
    if n > 0 {
        lemma_two_to_pos((n - 1) as nat);
    }
}

proof fn lemma_two_to_adds(a: nat, b: nat)
    ensures
        two_to(a + b) == two_to(a) * two_to(b),
    decreases b,
{
    if b > 0 {
        lemma_two_to_adds(a, (b - 1) as nat);
        assert(two_to(a) * (2 * two_to((b - 1) as nat)) == 2 * (two_to(a) * two_to(
            (b - 1) as nat,
        ))) by (nonlinear_arith);
    } else {
        assert(two_to(a) * 1 == two_to(a));
    }
}

proof fn lemma_two_to_mono(a: nat, b: nat)
    requires
        a <= b,
    ensures
        two_to(a) <= two_to(b),
    decreases b,
{
    if a < b {
        lemma_two_to_mono(a, (b - 1) as nat);
    }
}

/// Some powers of two.
proof fn lemma_two_to_values()
    ensures
        two_to(8) == 0x100,
        two_to(16) == 0x1_0000,
        two_to(32) == 0x1_0000_0000,
        two_to(64) == 0x1_0000_0000_0000_0000,
        two_to(100) == 0x10_0000_0000_0000_0000_0000_0000,
{
    reveal_with_fuel(two_to, 9);
    lemma_two_to_product(8, 8, 0x100, 0x100);
    lemma_two_to_product(16, 16, 0x1_0000, 0x1_0000);
    lemma_two_to_product(32, 32, 0x1_0000_0000, 0x1_0000_0000);
    lemma_two_to_product(32, 4, 0x1_0000_0000, 0x10);
    lemma_two_to_product(64, 36, 0x1_0000_0000_0000_0000, 0x10_0000_0000);
}

proof fn lemma_two_to_product(a: nat, b: nat, x: nat, y: nat)
    requires
        two_to(a) == x,
        two_to(b) == y,
    ensures
        two_to(a + b) == x * y,
{
    lemma_two_to_adds(a, b);
}

/// A number holds the power of its own exponent as often as its digits say.
proof fn lemma_own_units(x: Num)
    ensures
        x.in_units(x.e) == x.m,
{
    assert(two_to(0) == 1);
    assert(x.m * 1 == x.m);
}

/// A number of 24 significant bits.
#[derive(Debug, Clone, Copy, PartialEq, Eq, Structural)]
pub struct Binary {
    m: i32,
    e: i32,
}

impl View for Binary {
    type V = Num;

    closed spec fn view(&self) -> Num {
        Num { m: self.m as int, e: self.e as int }
    }
}

impl Binary {
    /// Zero or 24 significant bits, with an exponent of at most `b` either way.
    pub open spec fn within(self, b: int) -> bool {
        self@.normal() && -b <= self@.e <= b
    }
}

/// The rounding of `(n / d) * 2^k`, negative on demand.
fn round_ratio(negative: bool, n: u128, d: u128, k: i32) -> (r: Binary)
    requires
        0 < n < 0x10_0000_0000_0000_0000_0000_0000,
        0 < d < 0x1_0000_0000_0000_0000,
        -1_000_000 <= k <= 1_000_000,
    ensures
        r@ == if negative {
            rounded(n as nat, d as nat, k as int).neg()
        } else {
            rounded(n as nat, d as nat, k as int)
        },
        r@.normal(),
        r@.m != 0,
        k - 120 <= r@.e <= k + 120,
{
    let mut a: u128 = n;
    let mut c: u128 = d;
    let mut j: i32 = k;
    proof {
        lemma_two_to_values();
    }
    while a < 0x80_0000 * c
        invariant
            a > 0,
            0 < c < 0x1_0000_0000_0000_0000,
            -1_000_000 <= k <= 1_000_000,
            k - 116 <= j <= k,
            a >= two_to((k - j) as nat),
            a < 0x10_0000_0000_0000_0000_0000_0000,
            j < k ==> a < 0x100_0000 * c,
            two_to(100) == 0x10_0000_0000_0000_0000_0000_0000,
            rounded(a as nat, c as nat, j as int) == rounded(n as nat, d as nat, k as int),
        decreases
                if a < 0x80_0000 * c {
                    0x80_0000 * c - a
                } else {
                    0
                },
    {
        proof {
            if k - j >= 100 {
                lemma_two_to_mono(100, (k - j) as nat);
            }
        }
        a = 2 * a;
        j = j - 1;
    }
    while a >= 0x100_0000 * c
        invariant
            0 < a < 0x10_0000_0000_0000_0000_0000_0000,
            0 < c,
            a >= 0x80_0000 * c,
            -1_000_000 <= k <= 1_000_000,
            k - 116 <= j <= k + 116,
            j >= k ==> c >= two_to((j - k) as nat),
            j < k ==> a < 0x100_0000 * c,
            two_to(100) == 0x10_0000_0000_0000_0000_0000_0000,
            rounded(a as nat, c as nat, j as int) == rounded(n as nat, d as nat, k as int),
        decreases a - 0x80_0000 * c,
    {
        proof {
            if j - k >= 100 {
                lemma_two_to_mono(100, (j - k) as nat);
            }
        }
        c = 2 * c;
        j = j + 1;
    }
    let q: u128 = a / c;
    let r: u128 = a % c;
    assert(0x80_0000 <= q < 0x100_0000) by (nonlinear_arith)
        requires
            0x80_0000 * c <= a < 0x100_0000 * c,
            c > 0,
            q == a / c,
    ;
    let up = 2 * r > c || (2 * r == c && q % 2 == 1);
    let g: u128 = if up {
        q + 1
    } else {
        q
    };
    let (m, e): (i32, i32) = if g == 0x100_0000 {
        (0x80_0000, j + 1)
    } else {
        (g as i32, j)
    };
    if negative {
        Binary { m: -m, e }
    } else {
        Binary { m, e }
    }
}

/// The power `2^n`.
fn power(n: u32) -> (r: i128)
    requires
        n <= 64,
    ensures
        r == two_to(n as nat),
        1 <= r <= 0x1_0000_0000_0000_0000,
{
    let mut r: i128 = 1;
    let mut i: u32 = 0;
    proof {
        lemma_two_to_values();
    }
    while i < n
        invariant
            i <= n <= 64,
            r == two_to(i as nat),
            1 <= r,
            two_to(64) == 0x1_0000_0000_0000_0000,
        decreases n - i,
    {
        proof {
            lemma_two_to_mono((i + 1) as nat, 64);
        }
        r = 2 * r;
        i += 1;
    }
    proof {
        lemma_two_to_mono(n as nat, 64);
    }
    r
}

/// The rounding of `(n / d) * 2^k`.
fn nearest_binary(n: i128, d: u128, k: i32) -> (r: Binary)
    requires
        -0x10_0000_0000_0000_0000_0000_0000 < n < 0x10_0000_0000_0000_0000_0000_0000,
        0 < d < 0x1_0000_0000_0000_0000,
        -1_000_000 <= k <= 1_000_000,
    ensures
        r@ == nearest(n as int, d as nat, k as int),
        r@.normal(),
        r@.m == 0 || k - 120 <= r@.e <= k + 120,
        (r@.m == 0) == (n == 0),
{
    proof {
        reveal(nearest);
    }
    if n == 0 {
        Binary { m: 0, e: 0 }
    } else if n > 0 {
        round_ratio(false, n as u128, d, k)
    } else {
        round_ratio(true, (-n) as u128, d, k)
    }
}

proof fn lemma_rounded_shift(a: nat, i: nat, k: int)
    requires
        a >= 0x80_0000 * two_to(i),
    ensures
        rounded(a, 1, k) == rounded(a, two_to(i), k + i),
    decreases i,
{
    lemma_two_to_pos(i);
    if i > 0 {
        let t = (i - 1) as nat;
        lemma_two_to_pos(t);
        assert(two_to(i) == 2 * two_to(t));
        assert(a >= 0x100_0000 * two_to(t));
        lemma_rounded_shift(a, t, k);
    }
}

/// A number that is far smaller than another is lost when it is added to it.
proof fn lemma_far_sum(big: nat, small: int, shift: nat, k: int)
    requires
        0x80_0000 <= big < 0x100_0000,
        size_of(small) < 0x100_0000,
        shift >= 26,
    ensures
        big * two_to(shift) + small > 0,
        rounded((big * two_to(shift) + small) as nat, 1, k) == (Num {
            m: big as int,
            e: k + shift,
        }),
{
    let p = two_to(shift);
    let h = two_to((shift - 1) as nat);
    assert(two_to(26) == 0x400_0000) by {
        lemma_two_to_values();
        reveal_with_fuel(two_to, 3);
        lemma_two_to_product(16, 8, 0x1_0000, 0x100);
        lemma_two_to_product(24, 2, 0x100_0000, 4);
    }
    lemma_two_to_mono(26, shift);
    assert(p == 2 * h);
    let a = (big * p + small) as nat;
    assert(big * p >= 0x80_0000 * p) by (nonlinear_arith)
        requires
            big >= 0x80_0000,
    ;
    assert(big * p <= 0xFF_FFFF * p) by (nonlinear_arith)
        requires
            big <= 0xFF_FFFF,
    ;
    if small >= 0 {
        lemma_rounded_shift(a, shift, k);
        vstd::arithmetic::div_mod::lemma_fundamental_div_mod_converse(
            a as int,
            p as int,
            big as int,
            small,
        );
    } else if big > 0x80_0000 {
        assert((big - 1) * p >= 0x80_0000 * p) by (nonlinear_arith)
            requires
                big - 1 >= 0x80_0000,
        ;
        assert(big * p == (big - 1) * p + p) by (nonlinear_arith);
        lemma_rounded_shift(a, shift, k);
        vstd::arithmetic::div_mod::lemma_fundamental_div_mod_converse(
            a as int,
            p as int,
            big - 1,
            p + small,
        );
    } else {
        lemma_rounded_shift(a, (shift - 1) as nat, k);
        vstd::arithmetic::div_mod::lemma_fundamental_div_mod_converse(
            a as int,
            h as int,
            0xFF_FFFF,
            h + small,
        );
    }
}

impl Binary {
    /// The number zero.
    pub fn zero() -> (r: Binary)
        ensures
            r@ == Num::zero(),
            r.within(0),
    {
        Binary { m: 0, e: 0 }
    }

    /// The number nearest to a fraction.
    pub fn ratio(n: u32, d: u32) -> (r: Binary)
        requires
            d > 0,
        ensures
            r@ == nearest(n as int, d as nat, 0),
            r.within(120),
            (r@.m == 0) == (n == 0),
    {
        nearest_binary(n as i128, d as u128, 0)
    }

    /// The number nearest to an integer.
    pub fn integer(n: i32) -> (r: Binary)
        ensures
            r@ == nearest(n as int, 1, 0),
            r.within(120),
            (r@.m == 0) == (n == 0),
    {
        nearest_binary(n as i128, 1, 0)
    }

    fn neg(self) -> (r: Binary)
        requires
            self@.normal(),
        ensures
            r@ == self@.neg(),
            r@.normal(),
    {
        Binary { m: -self.m, e: self.e }
    }

    /// The sum.
    pub fn plus(self, y: Binary) -> (r: Binary)
        requires
            self.within(100_000),
            y.within(100_000),
        ensures
            r@ == self@.plus(y@),
            r.within(farther(self@, y@) + 120),
    {
        proof {
            reveal(Num::plus);
        }
        if self.m == 0 {
            return y;
        }
        if y.m == 0 {
            return self;
        }
        proof {
            lemma_own_units(self@);
            lemma_own_units(y@);
        }
        if self.e >= y.e {
            let d: i32 = self.e - y.e;
            if d > 64 {
                proof {
                    lemma_far_plus(self@, y@);
                }
                self
            } else {
                let p = power(d as u32);
                assert(-0x100_0000 * p < self.m * p < 0x100_0000 * p) by (nonlinear_arith)
                    requires
                        -0x100_0000 < self.m < 0x100_0000,
                        p >= 1,
                ;
                nearest_binary(self.m as i128 * p + y.m as i128, 1, y.e)
            }
        } else {
            let d: i32 = y.e - self.e;
            if d > 64 {
                proof {
                    lemma_far_plus(y@, self@);
                }
                y
            } else {
                let p = power(d as u32);
                assert(-0x100_0000 * p < y.m * p < 0x100_0000 * p) by (nonlinear_arith)
                    requires
                        -0x100_0000 < y.m < 0x100_0000,
                        p >= 1,
                ;
                nearest_binary(self.m as i128 + y.m as i128 * p, 1, self.e)
            }
        }
    }

    /// The difference.
    pub fn minus(self, y: Binary) -> (r: Binary)
        requires
            self.within(100_000),
            y.within(100_000),
        ensures
            r@ == self@.minus(y@),
            r.within(farther(self@, y@) + 120),
    {
        self.plus(y.neg())
    }

    /// The product.
    pub fn times(self, y: Binary) -> (r: Binary)
        requires
            self.within(100_000),
            y.within(100_000),
        ensures
            r@ == self@.times(y@),
            r.within(size_of(self@.e) + size_of(y@.e) + 120),
    {
        proof {
            reveal(Num::times);
        }
        assert(-0x100_0000 * 0x100_0000 < self.m * y.m < 0x100_0000 * 0x100_0000)
            by (nonlinear_arith)
            requires
                -0x100_0000 < self.m < 0x100_0000,
                -0x100_0000 < y.m < 0x100_0000,
        ;
        nearest_binary(self.m as i128 * y.m as i128, 1, self.e + y.e)
    }

    /// The quotient.
    pub fn over(self, y: Binary) -> (r: Binary)
        requires
            self.within(100_000),
            y.within(100_000),
            y@.m != 0,
        ensures
            r@ == self@.over(y@),
            r.within(size_of(self@.e) + size_of(y@.e) + 120),
            (r@.m == 0) == (self@.m == 0),
    {
        proof {
            reveal(Num::over);
        }
        if y.m < 0 {
            nearest_binary(-(self.m as i128), (-(y.m as i128)) as u128, self.e - y.e)
        } else {
            nearest_binary(self.m as i128, y.m as u128, self.e - y.e)
        }
    }

    /// The square root, of a number that is not negative.
    pub fn root(self) -> (r: Binary)
        requires
            self.within(100_000),
            self@.m >= 0,
        ensures
            r@ == self@.root(),
            r.within(size_of(self@.e) + 120),
    {
        proof {
            reveal(Num::root);
        }
        if self.m == 0 {
            return Binary { m: 0, e: 0 };
        }
        let t: u32 = (self.e + 399_977) as u32;
        let (n, h): (u64, i32) = if t % 2 == 0 {
            (self.m as u64 * 0x80_0000, (t / 2) as i32 - 200_000)
        } else {
            (self.m as u64 * 0x100_0000, ((t - 1) / 2) as i32 - 200_000)
        };
        let g = root_of(n);
        if g == 0x100_0000 {
            Binary { m: 0x80_0000, e: h + 1 }
        } else {
            Binary { m: g as i32, e: h }
        }
    }

    /// Whether the number is below another.
    pub fn less(self, y: Binary) -> (r: bool)
        requires
            self@.normal(),
            y@.normal(),
        ensures
            r == self@.less(y@),
    {
        proof {
            lemma_less(self@, y@);
        }
        if self.m <= 0 || y.m <= 0 {
            if self.m < 0 && y.m < 0 {
                self.e > y.e || (self.e == y.e && self.m < y.m)
            } else {
                self.m < y.m
            }
        } else {
            self.e < y.e || (self.e == y.e && self.m < y.m)
        }
    }

    /// The number, or the bound that it passes.
    pub fn clamp(self, low: Binary, high: Binary) -> (r: Binary)
        requires
            self@.normal(),
            low@.normal(),
            high@.normal(),
        ensures
            r@ == self@.clamp(low@, high@),
            r == self || r == low || r == high,
    {
        if self.less(low) {
            low
        } else if high.less(self) {
            high
        } else {
            self
        }
    }

    /// The greater of two numbers.
    pub fn max(self, y: Binary) -> (r: Binary)
        requires
            self@.normal(),
            y@.normal(),
        ensures
            r@ == self@.max(y@),
            r == self || r == y,
    {
        if self.less(y) {
            y
        } else {
            self
        }
    }

    /// The nearest byte; of two that are equally near, the greater.
    pub fn to_byte(self) -> (r: u8)
        requires
            self@.normal(),
        ensures
            r == self@.to_byte(),
    {
        proof {
            reveal(Num::to_byte);
        }
        if self.m <= 0 {
            return 0;
        }
        if self.e >= 0 {
            return 255;
        }
        if self.e < -60 {
            proof {
                let n = (-self.e) as nat;
                lemma_two_to_values();
                lemma_two_to_mono(32, n);
                let d = two_to(n) as int;
                assert((2 * self.m + d) / (2 * d) == 0) by (nonlinear_arith)
                    requires
                        0 < self.m < 0x100_0000,
                        d >= 0x1_0000_0000,
                ;
            }
            return 0;
        }
        let d = power((-self.e) as u32);
        let q: i128 = (2 * self.m as i128 + d) / (2 * d);
        if q > 255 {
            255
        } else {
            assert(q >= 0) by (nonlinear_arith)
                requires
                    self.m > 0,
                    d > 0,
                    q == (2 * self.m + d) / (2 * d),
            ;
            q as u8
        }
    }
}

/// The integer nearest to the square root of a number of 47 or 48 bits.
fn root_of(n: u64) -> (g: u64)
    requires
        0x4000_0000_0000 <= n < 0x1_0000_0000_0000,
    ensures
        g == nearest_root(n as nat),
        0x80_0000 <= g <= 0x100_0000,
{
    let mut low: u64 = 0x80_0000;
    let mut high: u64 = 0x100_0000;
    while high - low > 1
        invariant
            0x80_0000 <= low < high <= 0x100_0000,
            low * low <= n < high * high,
        decreases high - low,
    {
        let mid: u64 = low + (high - low) / 2;
        assert(mid * mid <= 0x100_0000 * 0x100_0000) by (nonlinear_arith)
            requires
                mid <= 0x100_0000,
        ;
        if mid * mid <= n {
            low = mid;
        } else {
            high = mid;
        }
    }
    let g: u64 = if n - low * low > low {
        low + 1
    } else {
        low
    };
    proof {
        let q = low as int;
        assert(high == low + 1);
        assert((2 * q - 1) * (2 * q - 1) == 4 * (q * q) - 4 * q + 1) by (nonlinear_arith);
        assert((2 * q + 1) * (2 * q + 1) == 4 * (q * q) + 4 * q + 1) by (nonlinear_arith);
        assert((2 * q + 3) * (2 * q + 3) == 4 * (q * q) + 12 * q + 9) by (nonlinear_arith);
        assert((q + 1) * (q + 1) == q * q + 2 * q + 1) by (nonlinear_arith);
        assert(2 * (q + 1) - 1 == 2 * q + 1 && 2 * (q + 1) + 1 == 2 * q + 3);
        assert(is_nearest_root(g as nat, n as nat));
        let c = nearest_root(n as nat);
        lemma_nearest_root_unique(g as nat, c, n as nat);
        lemma_nearest_root_unique(c, g as nat, n as nat);
    }
    g
}

proof fn lemma_nearest_root_unique(a: nat, b: nat, n: nat)
    requires
        a > 0,
        b > 0,
        is_nearest_root(a, n),
        is_nearest_root(b, n),
    ensures
        a <= b,
{
    if a > b {
        assert((2 * a - 1) * (2 * a - 1) >= (2 * b + 1) * (2 * b + 1)) by (nonlinear_arith)
            requires
                2 * a - 1 >= 2 * b + 1,
                b > 0,
        ;
    }
}

/// The larger size of the exponents of two numbers.
pub open spec fn farther(x: Num, y: Num) -> int {
    if size_of(x.e) < size_of(y.e) {
        size_of(y.e)
    } else {
        size_of(x.e)
    }
}

proof fn lemma_far_plus(x: Num, y: Num)
    requires
        x.normal(),
        y.normal(),
        x.m != 0,
        y.m != 0,
        x.e - y.e > 64,
    ensures
        x.plus(y) == x,
        y.plus(x) == x,
{
    reveal(Num::plus);
    reveal(nearest);
    let d = (x.e - y.e) as nat;
    let big = size_of(x.m) as nat;
    let small = if x.m < 0 {
        -y.m
    } else {
        y.m
    };
    lemma_far_sum(big, small, d, y.e);
    lemma_own_units(y);
    if x.m < 0 {
        assert(x.m * two_to(d) == -(big * two_to(d))) by (nonlinear_arith)
            requires
                x.m == -big,
        ;
    }
    let n = x.in_units(y.e) + y.in_units(y.e);
    assert(n == if x.m < 0 {
        -(big * two_to(d) + small)
    } else {
        big * two_to(d) + small
    });
    assert(nearest(n, 1, y.e) == x);
}

/// Numbers of 24 bits with the same sign are ordered by their exponents first.
pub proof fn lemma_less(x: Num, y: Num)
    requires
        x.normal(),
        y.normal(),
    ensures
        x.m <= 0 < y.m || x.m < 0 <= y.m ==> x.less(y),
        y.m <= 0 <= x.m ==> !x.less(y),
        0 < x.m && 0 < y.m ==> x.less(y) == (x.e < y.e || (x.e == y.e && x.m < y.m)),
        x.m < 0 && y.m < 0 ==> x.less(y) == (x.e > y.e || (x.e == y.e && x.m < y.m)),
{
    reveal(Num::less);
    let e = if x.e < y.e {
        x.e
    } else {
        y.e
    };
    let a = (x.e - e) as nat;
    let b = (y.e - e) as nat;
    lemma_two_to_pos(a);
    lemma_two_to_pos(b);
    lemma_own_units(x);
    lemma_own_units(y);
    lemma_sign(x.m, two_to(a) as int);
    lemma_sign(y.m, two_to(b) as int);
    if x.e > y.e {
        lemma_two_to_mono(1, a);
        assert(two_to(1) == 2 * two_to(0));
        lemma_bulk(x.m, two_to(a) as int);
    } else if y.e > x.e {
        lemma_two_to_mono(1, b);
        assert(two_to(1) == 2 * two_to(0));
        lemma_bulk(y.m, two_to(b) as int);
    }
}

proof fn lemma_sign(m: int, p: int)
    requires
        p > 0,
    ensures
        m > 0 ==> m * p > 0,
        m < 0 ==> m * p < 0,
        m == 0 ==> m * p == 0,
{
    assert(m > 0 ==> m * p > 0) by (nonlinear_arith)
        requires
            p > 0,
    ;
    assert(m < 0 ==> m * p < 0) by (nonlinear_arith)
        requires
            p > 0,
    ;
}

proof fn lemma_bulk(m: int, p: int)
    requires
        p >= 2,
    ensures
        m >= 0x80_0000 ==> m * p >= 0x100_0000,
        m <= -0x80_0000 ==> m * p <= -0x100_0000,
{
    assert(m >= 0x80_0000 ==> m * p >= 0x100_0000) by (nonlinear_arith)
        requires
            p >= 2,
    ;
    assert(m <= -0x80_0000 ==> m * p <= -0x100_0000) by (nonlinear_arith)
        requires
            p >= 2,
    ;
}

proof fn lemma_rounded_positive(a: nat, d: nat, k: int)
    requires
        a > 0,
        d > 0,
    ensures
        rounded(a, d, k).m > 0,
        rounded(a, d, k).normal(),
    decreases off_by(a, d),
{
    if a < 0x80_0000 * d {
        lemma_rounded_positive(2 * a, d, k - 1);
    } else if a >= 0x100_0000 * d {
        lemma_half_quotient(a, d);
        lemma_rounded_positive(a, 2 * d, k + 1);
    } else {
        assert(0x80_0000 <= a / d < 0x100_0000) by (nonlinear_arith)
            requires
                0x80_0000 * d <= a < 0x100_0000 * d,
                d > 0,
        ;
    }
}

/// Rounding keeps the sign, and gives a number of 24 bits.
pub proof fn law_rounding_keeps_sign(n: int, d: nat, k: int)
    requires
        d > 0,
    ensures
        nearest(n, d, k).normal(),
        n > 0 <==> nearest(n, d, k).m > 0,
        n < 0 <==> nearest(n, d, k).m < 0,
{
    reveal(nearest);
    if n > 0 {
        lemma_rounded_positive(n as nat, d, k);
    } else if n < 0 {
        lemma_rounded_positive((-n) as nat, d, k);
    }
}

/// A square is not negative.
pub proof fn lemma_square_sign(x: Num)
    ensures
        x.times(x).m >= 0,
        x.times(x).normal(),
{
    reveal(Num::times);
    assert(x.m * x.m >= 0) by (nonlinear_arith);
    law_rounding_keeps_sign(x.m * x.m, 1, x.e + x.e);
}

/// The sum of numbers that are not negative is not negative.
pub proof fn lemma_plus_sign(x: Num, y: Num)
    requires
        x.m >= 0,
        y.m >= 0,
    ensures
        x.plus(y).m >= 0,
{
    reveal(Num::plus);
    let e = if x.e < y.e {
        x.e
    } else {
        y.e
    };
    lemma_two_to_pos((x.e - e) as nat);
    lemma_two_to_pos((y.e - e) as nat);
    lemma_sign(x.m, two_to((x.e - e) as nat) as int);
    lemma_sign(y.m, two_to((y.e - e) as nat) as int);
    law_rounding_keeps_sign(x.in_units(e) + y.in_units(e), 1, e);
}

/// Numbers can be added in either order.
pub proof fn law_plus_commutes(x: Num, y: Num)
    requires
        x.normal(),
        y.normal(),
    ensures
        x.plus(y) == y.plus(x),
{
    reveal(Num::plus);
}

/// A number is its own rounding.
pub proof fn law_rounding_is_idempotent(x: Num)
    requires
        x.normal(),
    ensures
        nearest(x.m, 1, x.e) == x,
{
    reveal(nearest);
}

proof fn lemma_half_even_error(a: nat, d: nat)
    requires
        d > 0,
    ensures
        2 * size_of(half_even(a, d) * d - a) <= d,
{
    let q = a / d;
    let r = a % d;
    vstd::arithmetic::div_mod::lemma_fundamental_div_mod(a as int, d as int);
    assert(d * q == q * d) by (nonlinear_arith);
    assert((q + 1) * d == q * d + d) by (nonlinear_arith);
}

proof fn lemma_scaled_error(x: int, y: int, d: int, s: int)
    requires
        2 * size_of(x - y) <= d,
        s >= 0,
    ensures
        2 * size_of(x * s - y * s) <= d * s,
{
    assert(x * s - y * s == (x - y) * s) by (nonlinear_arith);
    let z = x - y;
    assert(2 * (z * s) <= d * s && -(2 * (z * s)) <= d * s) by (nonlinear_arith)
        requires
            2 * z <= d,
            -(2 * z) <= d,
            s >= 0,
    ;
}

proof fn lemma_rounded_error(a: nat, d: nat, k: int, e: int)
    requires
        a > 0,
        d > 0,
        e <= k,
        e <= rounded(a, d, k).e,
    ensures
        ({
            let r = rounded(a, d, k);
            2 * size_of(r.in_units(e) * d - a * two_to((k - e) as nat)) <= d * two_to(
                (r.e - e) as nat,
            )
        }),
    decreases off_by(a, d),
{
    let r = rounded(a, d, k);
    let s = two_to((k - e) as nat) as int;
    let u = two_to((r.e - e) as nat) as int;
    lemma_two_to_pos((k - e) as nat);
    lemma_two_to_pos((r.e - e) as nat);
    if a < 0x80_0000 * d {
        if e < k {
            lemma_rounded_error(2 * a, d, k - 1, e);
            let t = two_to((k - 1 - e) as nat) as int;
            assert(s == 2 * t);
            assert((2 * a) * t == a * (2 * t)) by (nonlinear_arith);
        } else {
            lemma_rounded_error(2 * a, d, k - 1, e - 1);
            let w = two_to((r.e - (e - 1)) as nat) as int;
            assert(w == 2 * u);
            assert(s == 1);
            assert(a * s == a && (2 * a) * s == 2 * a) by (nonlinear_arith)
                requires
                    s == 1,
            ;
            assert(r.m * w * d == 2 * (r.m * u * d)) by (nonlinear_arith)
                requires
                    w == 2 * u,
            ;
            assert(d * w == 2 * (d * u)) by (nonlinear_arith)
                requires
                    w == 2 * u,
            ;
        }
    } else if a >= 0x100_0000 * d {
        lemma_half_quotient(a, d);
        lemma_rounded_error(a, 2 * d, k + 1, e);
        let t = two_to((k + 1 - e) as nat) as int;
        assert(t == 2 * s);
        assert(a * t == 2 * (a * s)) by (nonlinear_arith)
            requires
                t == 2 * s,
        ;
        assert(r.m * u * (2 * d) == 2 * (r.m * u * d)) by (nonlinear_arith);
        assert((2 * d) * u == 2 * (d * u)) by (nonlinear_arith);
    } else {
        let h = half_even(a, d) as int;
        lemma_half_even_error(a, d);
        lemma_scaled_error(h * d, a as int, d as int, s);
        if h == 0x100_0000 {
            assert(u == 2 * s);
            assert(r.m * u == h * s) by (nonlinear_arith)
                requires
                    u == 2 * s,
                    r.m == 0x80_0000,
                    h == 0x100_0000,
            ;
            assert(d * s <= d * u) by (nonlinear_arith)
                requires
                    u == 2 * s,
                    s > 0,
                    d > 0,
            ;
        }
        assert(h * s * d == h * d * s) by (nonlinear_arith);
    }
}

/// Rounding changes a number by at most half of the last bit that it keeps. The
/// statement counts in units of `2^e`, for any `e` that is low enough.
pub proof fn law_rounding_error(n: int, d: nat, k: int, e: int)
    requires
        d > 0,
        e <= k,
        e <= nearest(n, d, k).e,
    ensures
        ({
            let r = nearest(n, d, k);
            2 * size_of(r.in_units(e) * d - n * two_to((k - e) as nat)) <= d * two_to(
                (r.e - e) as nat,
            )
        }),
{
    reveal(nearest);
    let r = nearest(n, d, k);
    let s = two_to((k - e) as nat) as int;
    let u = two_to((r.e - e) as nat) as int;
    lemma_two_to_pos((r.e - e) as nat);
    if n > 0 {
        lemma_rounded_error(n as nat, d, k, e);
    } else if n < 0 {
        lemma_rounded_error((-n) as nat, d, k, e);
        assert((-r.m) * u * d == -(r.m * u * d)) by (nonlinear_arith);
        assert((-n) * s == -(n * s)) by (nonlinear_arith);
    } else {
        assert(0 * u * d == 0) by (nonlinear_arith);
        assert(0 * s == 0) by (nonlinear_arith);
        assert(d * u >= 0) by (nonlinear_arith)
            requires
                d > 0,
                u > 0,
        ;
    }
}

proof fn lemma_rounded_doubles(a: nat, d: nat, k: int)
    requires
        a > 0,
        d > 0,
    ensures
        rounded(2 * a, d, k - 1) == rounded(a, d, k),
    decreases off_by(a, d),
{
    if a < 0x80_0000 * d {
    } else if a >= 0x100_0000 * d {
        lemma_half_quotient(a, d);
        lemma_rounded_doubles(a, 2 * d, k + 1);
    } else {
        assert((2 * a) / (2 * d) == a / d && (2 * a) % (2 * d) == 2 * (a % d)) by {
            vstd::arithmetic::div_mod::lemma_fundamental_div_mod(a as int, d as int);
            let q = a / d;
            let r = a % d;
            assert(2 * a == q * (2 * d) + 2 * r) by (nonlinear_arith)
                requires
                    a == d * q + r,
            ;
            vstd::arithmetic::div_mod::lemma_fundamental_div_mod_converse(
                2 * a as int,
                2 * d as int,
                q as int,
                2 * r as int,
            );
        }
        assert(half_even(2 * a, 2 * d) == half_even(a, d));
        assert(rounded(2 * a, d, k - 1) == rounded(2 * a, 2 * d, k));
    }
}

/// The scale in which a number is written does not matter to its rounding.
pub proof fn law_rounding_ignores_scale(n: int, k: int, s: nat)
    ensures
        nearest(n * two_to(s), 1, k - s) == nearest(n, 1, k),
    decreases s,
{
    reveal(nearest);
    if s == 0 {
        assert(n * 1 == n);
    } else {
        let t = (s - 1) as nat;
        law_rounding_ignores_scale(n, k, t);
        let p = two_to(t) as int;
        lemma_two_to_pos(t);
        assert(n * (2 * p) == 2 * (n * p)) by (nonlinear_arith);
        lemma_sign(n, p);
        if n > 0 {
            lemma_rounded_doubles((n * p) as nat, 1, k - t);
        } else if n < 0 {
            lemma_rounded_doubles((-(n * p)) as nat, 1, k - t);
        } else {
            assert(0 * p == 0) by (nonlinear_arith);
        }
    }
}

proof fn lemma_small_exponent(a: nat, k: int)
    requires
        0 < a < 0x100_0000,
    ensures
        rounded(a, 1, k).e <= k,
        rounded(a, 1, k).m == a * two_to((k - rounded(a, 1, k).e) as nat),
    decreases off_by(a, 1),
{
    if a < 0x80_0000 {
        lemma_small_exponent(2 * a, k - 1);
        let r = rounded(a, 1, k);
        let t = (k - 1 - r.e) as nat;
        assert(two_to((k - r.e) as nat) == 2 * two_to(t));
        assert((2 * a) * two_to(t) == a * (2 * two_to(t))) by (nonlinear_arith);
    } else {
        assert(two_to(0) == 1);
        assert(a * 1 == a);
    }
}

/// Integers below `2^24` are kept as they are.
pub proof fn law_integers_are_exact(n: int)
    requires
        size_of(n) < 0x100_0000,
    ensures
        nearest(n, 1, 0).e <= 0,
        nearest(n, 1, 0).in_units(nearest(n, 1, 0).e) == n * two_to(
            (-nearest(n, 1, 0).e) as nat,
        ),
{
    reveal(nearest);
    let r = nearest(n, 1, 0);
    lemma_own_units(r);
    if n > 0 {
        lemma_small_exponent(n as nat, 0);
    } else if n < 0 {
        lemma_small_exponent((-n) as nat, 0);
        let p = two_to((-r.e) as nat) as int;
        assert((-n) * p == -(n * p)) by (nonlinear_arith);
    } else {
        assert(0 * two_to(0) == 0) by (nonlinear_arith);
    }
}

/// The sum of integers is exact, as long as it is below `2^24`.
pub proof fn law_integer_sums_are_exact(a: int, b: int)
    requires
        size_of(a) < 0x100_0000,
        size_of(b) < 0x100_0000,
    ensures
        nearest(a, 1, 0).plus(nearest(b, 1, 0)) == nearest(a + b, 1, 0),
{
    reveal(Num::plus);
    let x = nearest(a, 1, 0);
    let y = nearest(b, 1, 0);
    law_rounding_keeps_sign(a, 1, 0);
    law_rounding_keeps_sign(b, 1, 0);
    law_integers_are_exact(a);
    law_integers_are_exact(b);
    lemma_own_units(x);
    lemma_own_units(y);
    if a != 0 && b != 0 {
        let e = if x.e < y.e {
            x.e
        } else {
            y.e
        };
        lemma_units_of(a, x, e);
        lemma_units_of(b, y, e);
        let p = two_to((-e) as nat) as int;
        assert(a * p + b * p == (a + b) * p) by (nonlinear_arith);
        law_rounding_ignores_scale(a + b, 0, (-e) as nat);
    }
}

proof fn lemma_units_of(n: int, x: Num, e: int)
    requires
        e <= x.e <= 0,
        x.m == n * two_to((-x.e) as nat),
    ensures
        x.in_units(e) == n * two_to((-e) as nat),
{
    let s = (-x.e) as nat;
    let t = (x.e - e) as nat;
    lemma_two_to_adds(s, t);
    assert((n * two_to(s)) * two_to(t) == n * (two_to(s) * two_to(t))) by (nonlinear_arith);
}

/// A byte is read back from its number.
pub proof fn law_bytes_are_read_back(n: u8)
    ensures
        nearest(n as int, 1, 0).to_byte() == n,
{
    reveal(Num::to_byte);
    let x = nearest(n as int, 1, 0);
    law_rounding_keeps_sign(n as int, 1, 0);
    law_integers_are_exact(n as int);
    lemma_own_units(x);
    if n > 0 {
        let d = two_to((-x.e) as nat) as int;
        lemma_two_to_pos((-x.e) as nat);
        if x.e == 0 {
            assert(d == 1);
            assert(n * d == n) by (nonlinear_arith)
                requires
                    d == 1,
            ;
        }
        assert(2 * (n * d) + d == n * (2 * d) + d) by (nonlinear_arith);
        vstd::arithmetic::div_mod::lemma_fundamental_div_mod_converse(
            2 * (n * d) + d,
            2 * d,
            n as int,
            d,
        );
    }
}

/// A number times one is itself.
pub proof fn law_times_one(x: Num)
    requires
        x.normal(),
    ensures
        x.times(nearest(1, 1, 0)) == x,
{
    reveal(Num::times);
    let one = nearest(1, 1, 0);
    law_rounding_keeps_sign(1, 1, 0);
    law_integers_are_exact(1);
    lemma_own_units(one);
    let s = (-one.e) as nat;
    assert(1 * two_to(s) == two_to(s)) by (nonlinear_arith);
    law_rounding_ignores_scale(x.m, x.e, s);
    law_rounding_is_idempotent(x);
}

/// The number of a negated integer is the negated number.
pub proof fn law_negation_is_exact(n: int, d: nat, k: int)
    ensures
        nearest(-n, d, k) == nearest(n, d, k).neg(),
{
    reveal(nearest);
}

/// Zero, added to a number or multiplied by it.
pub proof fn law_zero(x: Num)
    requires
        x.normal(),
    ensures
        nearest(0, 1, 0) == Num::zero(),
        x.plus(Num::zero()) == x,
        x.times(Num::zero()) == Num::zero(),
{
    reveal(nearest);
    reveal(Num::plus);
    reveal(Num::times);
    assert(x.m * 0 == 0) by (nonlinear_arith);
}

/// Numbers are added exactly and the sum is rounded once, in whatever unit it is
/// counted.
pub proof fn law_sum_is_rounded_once(x: Num, y: Num, e: int)
    requires
        x.normal(),
        y.normal(),
        e <= x.e,
        e <= y.e,
    ensures
        x.plus(y) == nearest(x.in_units(e) + y.in_units(e), 1, e),
{
    reveal(Num::plus);
    let f = if x.e < y.e {
        x.e
    } else {
        y.e
    };
    let s = (f - e) as nat;
    lemma_rescaled(x, f, s);
    lemma_rescaled(y, f, s);
    let (a, b) = (x.in_units(f), y.in_units(f));
    let p = two_to(s) as int;
    assert(a * p + b * p == (a + b) * p) by (nonlinear_arith);
    law_rounding_ignores_scale(a + b, f, s);
    if x.m == 0 {
        assert(0 * two_to((x.e - f) as nat) == 0) by (nonlinear_arith);
        let t = (y.e - f) as nat;
        law_rounding_ignores_scale(y.m, y.e, t);
        law_rounding_is_idempotent(y);
    } else if y.m == 0 {
        assert(0 * two_to((y.e - f) as nat) == 0) by (nonlinear_arith);
        let t = (x.e - f) as nat;
        law_rounding_ignores_scale(x.m, x.e, t);
        law_rounding_is_idempotent(x);
    }
}

proof fn lemma_rescaled(x: Num, f: int, s: nat)
    requires
        f <= x.e,
    ensures
        x.in_units(f - s) == x.in_units(f) * two_to(s),
{
    let t = (x.e - f) as nat;
    lemma_two_to_adds(t, s);
    assert((x.m * two_to(t)) * two_to(s) == x.m * (two_to(t) * two_to(s))) by (nonlinear_arith);
}

/// The product of integers below `2^24` is the integer's own rounding.
pub proof fn law_integer_products(a: int, b: int)
    requires
        size_of(a) < 0x100_0000,
        size_of(b) < 0x100_0000,
    ensures
        nearest(a, 1, 0).times(nearest(b, 1, 0)) == nearest(a * b, 1, 0),
{
    reveal(Num::times);
    let x = nearest(a, 1, 0);
    let y = nearest(b, 1, 0);
    law_integers_are_exact(a);
    law_integers_are_exact(b);
    lemma_own_units(x);
    lemma_own_units(y);
    let s = (-x.e) as nat;
    let t = (-y.e) as nat;
    lemma_two_to_adds(s, t);
    assert((a * two_to(s)) * (b * two_to(t)) == (a * b) * (two_to(s) * two_to(t)))
        by (nonlinear_arith);
    law_rounding_ignores_scale(a * b, 0, s + t);
}

/// Integers below `2^24` are ordered as they are.
pub proof fn law_integers_are_ordered(a: int, b: int)
    requires
        size_of(a) < 0x100_0000,
        size_of(b) < 0x100_0000,
    ensures
        nearest(a, 1, 0).less(nearest(b, 1, 0)) <==> a < b,
{
    reveal(Num::less);
    let x = nearest(a, 1, 0);
    let y = nearest(b, 1, 0);
    law_integers_are_exact(a);
    law_integers_are_exact(b);
    lemma_own_units(x);
    lemma_own_units(y);
    let e = if x.e < y.e {
        x.e
    } else {
        y.e
    };
    lemma_units_of(a, x, e);
    lemma_units_of(b, y, e);
    let p = two_to((-e) as nat) as int;
    lemma_two_to_pos((-e) as nat);
    assert(a < b ==> a * p < b * p) by (nonlinear_arith)
        requires
            p > 0,
    ;
    assert(a >= b ==> a * p >= b * p) by (nonlinear_arith)
        requires
            p > 0,
    ;
}

/// The lesser of two numbers is below the greater only, and a limited number is
/// within its limits or equal to one.
pub proof fn law_order(x: Num, y: Num, low: Num, high: Num)
    requires
        x.normal(),
        y.normal(),
        low.normal(),
        high.normal(),
        !high.less(low),
    ensures
        !(x.less(y) && y.less(x)),
        !x.less(x),
        x.less(y) || y.less(x) || x == y,
        !x.clamp(low, high).less(low),
        !high.less(x.clamp(low, high)),
        !x.less(low) && !high.less(x) ==> x.clamp(low, high) == x,
        !x.max(y).less(x) && !x.max(y).less(y),
        x.max(y) == x || x.max(y) == y,
{
    lemma_less(x, y);
    lemma_less(y, x);
    lemma_less(x, x);
    lemma_less(y, y);
    lemma_less(x, low);
    lemma_less(high, x);
    lemma_less(low, low);
    lemma_less(high, high);
    lemma_less(high, low);
}

proof fn lemma_common_factor(a: nat, d: nat, c: nat, k: int)
    requires
        a > 0,
        d > 0,
        c > 0,
    ensures
        rounded(c * a, c * d, k) == rounded(a, d, k),
    decreases off_by(a, d),
{
    let (x, y) = (c * a, c * d);
    assert(x > 0 && y > 0) by (nonlinear_arith)
        requires
            a > 0,
            d > 0,
            c > 0,
            x == c * a,
            y == c * d,
    ;
    assert(x < 0x80_0000 * y <==> a < 0x80_0000 * d) by (nonlinear_arith)
        requires
            c > 0,
            x == c * a,
            y == c * d,
    ;
    assert(x >= 0x100_0000 * y <==> a >= 0x100_0000 * d) by (nonlinear_arith)
        requires
            c > 0,
            x == c * a,
            y == c * d,
    ;
    if a < 0x80_0000 * d {
        lemma_common_factor(2 * a, d, c, k - 1);
        assert(c * (2 * a) == 2 * x) by (nonlinear_arith)
            requires
                x == c * a,
        ;
    } else if a >= 0x100_0000 * d {
        lemma_half_quotient(a, d);
        lemma_common_factor(a, 2 * d, c, k + 1);
        assert(c * (2 * d) == 2 * y) by (nonlinear_arith)
            requires
                y == c * d,
        ;
    } else {
        let q = a / d;
        let r = a % d;
        vstd::arithmetic::div_mod::lemma_fundamental_div_mod(a as int, d as int);
        assert(x == q * y + c * r && 0 <= c * r < y) by (nonlinear_arith)
            requires
                a == d * q + r,
                0 <= r < d,
                c > 0,
                x == c * a,
                y == c * d,
        ;
        vstd::arithmetic::div_mod::lemma_fundamental_div_mod_converse(
            x as int,
            y as int,
            q as int,
            (c * r) as int,
        );
        assert(2 * (c * r) > c * d <==> 2 * r > d) by (nonlinear_arith)
            requires
                c > 0,
        ;
        assert(2 * (c * r) == c * d <==> 2 * r == d) by (nonlinear_arith)
            requires
                c > 0,
        ;
        assert(half_even(x, y) == half_even(a, d));
    }
}

/// A fraction may be written with any common factor.
pub proof fn law_common_factors_cancel(n: int, d: nat, c: nat, k: int)
    requires
        d > 0,
        c > 0,
    ensures
        nearest(c * n, c * d, k) == nearest(n, d, k),
{
    reveal(nearest);
    lemma_sign(n, c as int);
    assert(c * n == n * c) by (nonlinear_arith);
    if n > 0 {
        lemma_common_factor(n as nat, d, c, k);
    } else if n < 0 {
        lemma_common_factor((-n) as nat, d, c, k);
        assert(c * (-n) == -(c * n)) by (nonlinear_arith);
    }
}

proof fn lemma_doubled(a: nat, d: nat, k: int, s: nat)
    requires
        a > 0,
        d > 0,
    ensures
        rounded(a * two_to(s), d, k - s) == rounded(a, d, k),
    decreases s,
{
    if s > 0 {
        let t = (s - 1) as nat;
        lemma_doubled(a, d, k, t);
        lemma_two_to_pos(t);
        let x = a * two_to(t);
        assert(x > 0) by (nonlinear_arith)
            requires
                a > 0,
                two_to(t) > 0,
                x == a * two_to(t),
        ;
        lemma_rounded_doubles(x, d, k - t);
        assert(a * (2 * two_to(t)) == 2 * x) by (nonlinear_arith)
            requires
                x == a * two_to(t),
        ;
    } else {
        assert(a * 1 == a);
    }
}

/// The number one.
proof fn lemma_one()
    ensures
        nearest(1, 1, 0) == (Num { m: 0x80_0000, e: -23 }),
{
    reveal(nearest);
    reveal_with_fuel(rounded, 25);
}

/// A number divided by one is itself, and divided by itself is one.
pub proof fn law_quotients(x: Num)
    requires
        x.normal(),
    ensures
        x.over(nearest(1, 1, 0)) == x,
        x.m != 0 ==> x.over(x) == nearest(1, 1, 0),
{
    reveal(Num::over);
    lemma_one();
    assert(two_to(23) == 0x80_0000) by {
        lemma_two_to_values();
        reveal_with_fuel(two_to, 8);
        lemma_two_to_product(16, 7, 0x1_0000, 0x80);
    }
    law_rounding_is_idempotent(x);
    reveal(nearest);
    if x.m != 0 {
        let a = size_of(x.m) as nat;
        lemma_common_factor(a, 1, 0x80_0000, x.e);
        lemma_doubled(a, 0x80_0000, x.e + 23, 23);
        assert(a * 0x80_0000 == 0x80_0000 * a);
        assert(rounded(a * 0x80_0000, 0x80_0000, x.e) == rounded(a, 1, x.e));
        lemma_common_factor(1, 1, a, 0);
        assert(a * 1 == a);
    }
}

/// The root of a square integer below `2^24` is exact.
pub proof fn law_roots_of_squares(n: int)
    requires
        0 <= n,
        n * n < 0x100_0000,
    ensures
        nearest(n * n, 1, 0).root() == nearest(n, 1, 0),
{
    reveal(Num::root);
    let x = nearest(n * n, 1, 0);
    law_rounding_keeps_sign(n * n, 1, 0);
    law_integers_are_exact(n * n);
    lemma_own_units(x);
    if n == 0 {
        law_zero(x);
    } else {
        assert(n * n > 0 && n < 0x100_0000) by (nonlinear_arith)
            requires
                n > 0,
                n * n < 0x100_0000,
        ;
        let s = (-x.e) as nat;
        let t: nat = if (x.e - 23) % 2 == 0 {
            23
        } else {
            24
        };
        let h = ((s + t) / 2) as nat;
        assert(s + t == h + h);
        assert(two_to(23) == 0x80_0000 && two_to(24) == 0x100_0000) by {
            lemma_two_to_values();
            reveal_with_fuel(two_to, 8);
            lemma_two_to_product(16, 7, 0x1_0000, 0x80);
        }
        lemma_two_to_adds(s, t);
        lemma_two_to_adds(h, h);
        let p = two_to(h) as int;
        lemma_two_to_pos(h);
        let g = n * p;
        let w = two_to(t) as int;
        let v = (x.m * w) as nat;
        assert(x.m * w >= 0x80_0000 * 0x80_0000 && x.m * w < 0x100_0000 * 0x100_0000)
            by (nonlinear_arith)
            requires
                0x80_0000 <= x.m < 0x100_0000,
                0x80_0000 <= w <= 0x100_0000,
        ;
        assert(v == g * g) by (nonlinear_arith)
            requires
                v == (n * n * two_to(s)) * two_to(t),
                two_to(s) * two_to(t) == p * p,
                g == n * p,
        ;
        assert(g > 0) by (nonlinear_arith)
            requires
                g == n * p,
                n > 0,
                p > 0,
        ;
        assert(is_nearest_root(g as nat, v)) by {
            assert((2 * g - 1) * (2 * g - 1) <= 4 * (g * g) < (2 * g + 1) * (2 * g + 1))
                by (nonlinear_arith)
                requires
                    g > 0,
            ;
        }
        let c = nearest_root(v);
        lemma_nearest_root_unique(g as nat, c, v);
        lemma_nearest_root_unique(c, g as nat, v);
        assert(g < 0x100_0000) by (nonlinear_arith)
            requires
                g * g == v,
                v < 0x100_0000 * 0x100_0000,
                g > 0,
        ;
        assert(g >= 0x80_0000) by (nonlinear_arith)
            requires
                g * g == v,
                v >= 0x80_0000 * 0x80_0000,
                g > 0,
        ;
        let r = Num { m: g, e: -h };
        law_rounding_is_idempotent(r);
        law_rounding_ignores_scale(n, 0, h);
    }
}

/// An integer is limited to the range of a byte, and is else read as it is.
pub proof fn law_bytes_are_limited(n: int)
    requires
        size_of(n) < 0x100_0000,
    ensures
        nearest(n, 1, 0).to_byte() == if n < 0 {
            0
        } else if n > 255 {
            255
        } else {
            n
        },
{
    if 0 <= n <= 255 {
        law_bytes_are_read_back(n as u8);
    } else {
        reveal(Num::to_byte);
        let x = nearest(n, 1, 0);
        law_rounding_keeps_sign(n, 1, 0);
        law_integers_are_exact(n);
        lemma_own_units(x);
        if n > 0 && x.e < 0 {
            let d = two_to((-x.e) as nat) as int;
            lemma_two_to_pos((-x.e) as nat);
            assert(2 * (n * d) + d == n * (2 * d) + d) by (nonlinear_arith);
            vstd::arithmetic::div_mod::lemma_fundamental_div_mod_converse(
                2 * (n * d) + d,
                2 * d,
                n,
                d,
            );
        }
    }
}

proof fn lemma_rounded_moves(a: nat, d: nat, k: int, j: int)
    requires
        a > 0,
        d > 0,
    ensures
        rounded(a, d, k + j).m == rounded(a, d, k).m,
        rounded(a, d, k + j).e == rounded(a, d, k).e + j,
    decreases off_by(a, d),
{
    if a < 0x80_0000 * d {
        lemma_rounded_moves(2 * a, d, k - 1, j);
    } else if a >= 0x100_0000 * d {
        lemma_half_quotient(a, d);
        lemma_rounded_moves(a, 2 * d, k + 1, j);
    }
}

/// Doubling a number moves its point and changes no digit of it.
pub proof fn law_doubling_moves_the_point(n: int, d: nat, k: int)
    requires
        n != 0,
        d > 0,
    ensures
        nearest(n, d, k + 1) == (Num { m: nearest(n, d, k).m, e: nearest(n, d, k).e + 1 }),
{
    reveal(nearest);
    if n > 0 {
        lemma_rounded_moves(n as nat, d, k, 1);
    } else {
        lemma_rounded_moves((-n) as nat, d, k, 1);
    }
}

} // verus!
