use vstd::prelude::*;
use crate::money::round_half_even;

verus! {

/// 10000 to the power `n`: the weight of digit `n`.
pub open spec fn pow_base(n: nat) -> int
    decreases n,
{
    if n == 0 {
        1
    } else {
        10000 * pow_base((n - 1) as nat)
    }
}

/// Digit `i` of `s`, 0 past the end.
pub open spec fn digit(s: Seq<u64>, i: int) -> int {
    if 0 <= i < s.len() {
        s[i] as int
    } else {
        0
    }
}

/// The value of the lowest `i` base-10000 digits of `s`, least significant first.
pub open spec fn low_value(s: Seq<u64>, i: nat) -> int
    decreases i,
{
    if i == 0 {
        0
    } else {
        low_value(s, (i - 1) as nat) + digit(s, i - 1) * pow_base((i - 1) as nat)
    }
}

pub open spec fn mag_value(s: Seq<u64>) -> int {
    low_value(s, s.len())
}

pub open spec fn digits_ok(s: Seq<u64>) -> bool {
    forall|i: int| 0 <= i < s.len() ==> (#[trigger] s[i]) < 10000
}

/// An integer of any size: a sign and base-10000 digits.
#[derive(Debug)]
pub struct Exact {
    pub negative: bool,
    pub digits: Vec<u64>,
}

impl Exact {
    pub open spec fn value(&self) -> int {
        if self.negative {
            -mag_value(self.digits@)
        } else {
            mag_value(self.digits@)
        }
    }

    pub open spec fn wf(&self) -> bool {
        digits_ok(self.digits@)
    }
}

pub proof fn lemma_pow_base_pos(n: nat)
    ensures
        pow_base(n) >= 1,
    decreases n,
{
    if n > 0 {
        lemma_pow_base_pos((n - 1) as nat);
    }
}

proof fn lemma_low_nonneg(s: Seq<u64>, i: nat)
    ensures
        low_value(s, i) >= 0,
    decreases i,
{
    if i > 0 {
        lemma_low_nonneg(s, (i - 1) as nat);
        lemma_pow_base_pos((i - 1) as nat);
        assert(digit(s, i - 1) * pow_base((i - 1) as nat) >= 0) by (nonlinear_arith)
            requires
                digit(s, i - 1) >= 0,
                pow_base((i - 1) as nat) >= 1,
        ;
    }
}

proof fn lemma_low_bound(s: Seq<u64>, i: nat)
    requires
        digits_ok(s),
    ensures
        low_value(s, i) < pow_base(i),
    decreases i,
{
    if i > 0 {
        lemma_low_bound(s, (i - 1) as nat);
        let p = pow_base((i - 1) as nat);
        let j: int = i - 1;
        let d = digit(s, j);
        if j < s.len() {
            assert(s[j] < 10000);
            assert(d == s[j] as int);
        } else {
            assert(d == 0);
        }
        assert(d <= 9999);
        lemma_pow_base_pos((i - 1) as nat);
        assert(low_value(s, (i - 1) as nat) + d * p < 10000 * p) by (nonlinear_arith)
            requires
                low_value(s, (i - 1) as nat) < p,
                0 <= d <= 9999,
                p >= 1,
        ;
    }
}

proof fn lemma_low_beyond(s: Seq<u64>, i: nat)
    requires
        i >= s.len(),
    ensures
        low_value(s, i) == mag_value(s),
    decreases i,
{
    if i > s.len() {
        lemma_low_beyond(s, (i - 1) as nat);
    }
}

proof fn lemma_low_same(s: Seq<u64>, t: Seq<u64>, i: nat)
    requires
        forall|j: int| 0 <= j < i ==> digit(s, j) == digit(t, j),
    ensures
        low_value(s, i) == low_value(t, i),
    decreases i,
{
    if i > 0 {
        lemma_low_same(s, t, (i - 1) as nat);
    }
}

proof fn lemma_push_low(s: Seq<u64>, x: u64)
    ensures
        low_value(s.push(x), s.len()) == low_value(s, s.len()),
{
    lemma_low_same(s.push(x), s, s.len());
}

fn max_len(a: &Vec<u64>, b: &Vec<u64>) -> (r: usize)
    ensures
        r >= a@.len(),
        r >= b@.len(),
        r == a@.len() || r == b@.len(),
{
    if a.len() >= b.len() {
        a.len()
    } else {
        b.len()
    }
}

fn digit_exec(a: &Vec<u64>, i: usize) -> (r: u64)
    ensures
        r == digit(a@, i as int),
{
    if i < a.len() {
        a[i]
    } else {
        0
    }
}

fn mag_add(a: &Vec<u64>, b: &Vec<u64>) -> (r: Vec<u64>)
    requires
        digits_ok(a@),
        digits_ok(b@),
    ensures
        digits_ok(r@),
        mag_value(r@) == mag_value(a@) + mag_value(b@),
{
    let n = max_len(a, b);
    let mut r: Vec<u64> = Vec::new();
    let mut carry: u64 = 0;
    let mut i: usize = 0;
    while i < n
        invariant
            digits_ok(a@),
            digits_ok(b@),
            i <= n,
            r@.len() == i,
            digits_ok(r@),
            carry <= 1,
            low_value(r@, i as nat) + carry * pow_base(i as nat) == low_value(a@, i as nat)
                + low_value(b@, i as nat),
        decreases n - i,
    {
        let da = digit_exec(a, i);
        let db = digit_exec(b, i);
        proof {
            if (i as int) < a@.len() {
                assert(a@[i as int] < 10000);
            }
            if (i as int) < b@.len() {
                assert(b@[i as int] < 10000);
            }
        }
        let t = da + db + carry;
        let ghost old_r = r@;
        let ghost old_carry = carry;
        r.push(t % 10000);
        carry = t / 10000;
        proof {
            lemma_push_low(old_r, t % 10000);
            let p = pow_base(i as nat);
            assert(pow_base((i + 1) as nat) == 10000 * p);
            assert((t % 10000) * p + (t / 10000) * (10000 * p) == t * p) by (nonlinear_arith)
                requires
                    t == 10000 * (t / 10000) + t % 10000,
            ;
            assert(t * p == (da + db + old_carry) * p);
            assert((da + db + old_carry) * p == da * p + db * p + old_carry * p) by (nonlinear_arith);
        }
        i = i + 1;
    }
    if carry > 0 {
        let ghost old_r = r@;
        r.push(carry);
        proof {
            lemma_push_low(old_r, carry);
        }
    }
    proof {
        lemma_low_beyond(a@, n as nat);
        lemma_low_beyond(b@, n as nat);
    }
    r
}

/// `a - b`, with a borrow when `b` is the larger.
fn mag_sub(a: &Vec<u64>, b: &Vec<u64>) -> (r: (Vec<u64>, bool))
    requires
        digits_ok(a@),
        digits_ok(b@),
    ensures
        digits_ok(r.0@),
        r.1 == (mag_value(a@) < mag_value(b@)),
        !r.1 ==> mag_value(r.0@) == mag_value(a@) - mag_value(b@),
{
    let n = max_len(a, b);
    let mut r: Vec<u64> = Vec::new();
    let mut borrow: u64 = 0;
    let mut i: usize = 0;
    while i < n
        invariant
            digits_ok(a@),
            digits_ok(b@),
            i <= n,
            r@.len() == i,
            digits_ok(r@),
            borrow <= 1,
            low_value(r@, i as nat) - borrow * pow_base(i as nat) == low_value(a@, i as nat)
                - low_value(b@, i as nat),
        decreases n - i,
    {
        let da = digit_exec(a, i);
        let db = digit_exec(b, i);
        proof {
            if (i as int) < a@.len() {
                assert(a@[i as int] < 10000);
            }
            if (i as int) < b@.len() {
                assert(b@[i as int] < 10000);
            }
        }
        let ghost old_r = r@;
        let ghost old_borrow = borrow;
        let d: u64;
        if da >= db + borrow {
            d = da - db - borrow;
            borrow = 0;
        } else {
            d = da + 10000 - db - borrow;
            borrow = 1;
        }
        r.push(d);
        proof {
            lemma_push_low(old_r, d);
            let p = pow_base(i as nat);
            assert(pow_base((i + 1) as nat) == 10000 * p);
            assert(d * p - borrow * (10000 * p) == (da - db - old_borrow) * p) by (nonlinear_arith)
                requires
                    d - 10000 * borrow == da - db - old_borrow,
            ;
            assert((da - db - old_borrow) * p == da * p - db * p - old_borrow * p) by (
            nonlinear_arith);
        }
        i = i + 1;
    }
    proof {
        lemma_low_beyond(a@, n as nat);
        lemma_low_beyond(b@, n as nat);
        lemma_low_bound(r@, n as nat);
        lemma_low_nonneg(r@, n as nat);
    }
    (r, borrow == 1)
}

/// `a` times `m`, for `m` at most 10000.
fn mag_mul_small(a: &Vec<u64>, m: u64) -> (r: Vec<u64>)
    requires
        digits_ok(a@),
        m <= 10000,
    ensures
        digits_ok(r@),
        mag_value(r@) == mag_value(a@) * m,
{
    let n = a.len();
    let mut r: Vec<u64> = Vec::new();
    let mut carry: u64 = 0;
    let mut i: usize = 0;
    while i < n
        invariant
            digits_ok(a@),
            n == a@.len(),
            m <= 10000,
            i <= n,
            r@.len() == i,
            digits_ok(r@),
            carry <= 10000,
            low_value(r@, i as nat) + carry * pow_base(i as nat) == low_value(a@, i as nat) * m,
        decreases n - i,
    {
        let da = a[i];
        assert(da < 10000);
        assert(da * m <= 9999 * 10000) by (nonlinear_arith)
            requires
                da < 10000,
                m <= 10000,
        ;
        let t = da * m + carry;
        let ghost old_r = r@;
        let ghost old_carry = carry;
        r.push(t % 10000);
        carry = t / 10000;
        proof {
            lemma_push_low(old_r, t % 10000);
            let p = pow_base(i as nat);
            assert(pow_base((i + 1) as nat) == 10000 * p);
            assert(digit(a@, i as int) == da);
            assert((t % 10000) * p + (t / 10000) * (10000 * p) == t * p) by (nonlinear_arith)
                requires
                    t == 10000 * (t / 10000) + t % 10000,
            ;
            assert(t * p == (da * m + old_carry) * p);
            assert((da * m + old_carry) * p == da * p * m + old_carry * p) by (nonlinear_arith);
            assert((low_value(a@, i as nat) + da * p) * m == low_value(a@, i as nat) * m + da * p
                * m) by (nonlinear_arith);
        }
        i = i + 1;
    }
    while carry > 0
        invariant
            digits_ok(r@),
            r@.len() >= n,
            low_value(r@, r@.len()) + carry * pow_base(r@.len()) == low_value(a@, n as nat) * m,
        decreases carry,
    {
        let ghost old_r = r@;
        let ghost old_carry = carry;
        r.push(carry % 10000);
        carry = carry / 10000;
        proof {
            lemma_push_low(old_r, old_carry % 10000);
            let p = pow_base(old_r.len());
            assert(pow_base(r@.len()) == 10000 * p);
            assert((old_carry % 10000) * p + (old_carry / 10000) * (10000 * p) == old_carry * p)
                by (nonlinear_arith)
                requires
                    old_carry == 10000 * (old_carry / 10000) + old_carry % 10000,
            ;
        }
    }
    r
}

fn mag_from_u64(x: u64) -> (r: Vec<u64>)
    ensures
        digits_ok(r@),
        mag_value(r@) == x,
{
    let mut r: Vec<u64> = Vec::new();
    let mut rest: u64 = x;
    while rest > 0
        invariant
            digits_ok(r@),
            low_value(r@, r@.len()) + rest * pow_base(r@.len()) == x,
        decreases rest,
    {
        let ghost old_r = r@;
        let ghost old_rest = rest;
        r.push(rest % 10000);
        rest = rest / 10000;
        proof {
            lemma_push_low(old_r, old_rest % 10000);
            let p = pow_base(old_r.len());
            assert(pow_base(r@.len()) == 10000 * p);
            assert((old_rest % 10000) * p + (old_rest / 10000) * (10000 * p) == old_rest * p) by (
            nonlinear_arith)
                requires
                    old_rest == 10000 * (old_rest / 10000) + old_rest % 10000,
            ;
        }
    }
    r
}

fn copy_digits(a: &Vec<u64>) -> (r: Vec<u64>)
    ensures
        r@ == a@,
{
    let mut r: Vec<u64> = Vec::new();
    let mut i: usize = 0;
    while i < a.len()
        invariant
            i <= a@.len(),
            r@ == a@.take(i as int),
        decreases a@.len() - i,
    {
        r.push(a[i]);
        i = i + 1;
        assert(r@ =~= a@.take(i as int));
    }
    assert(r@ =~= a@);
    r
}

impl Exact {
    pub fn zero() -> (r: Exact)
        ensures
            r.wf(),
            r.value() == 0,
    {
        Exact { negative: false, digits: Vec::new() }
    }

    pub fn from_u64(x: u64) -> (r: Exact)
        ensures
            r.wf(),
            r.value() == x,
    {
        Exact { negative: false, digits: mag_from_u64(x) }
    }

    pub fn negated(&self) -> (r: Exact)
        ensures
            r.wf() == self.wf(),
            r.value() == -self.value(),
    {
        Exact { negative: !self.negative, digits: copy_digits(&self.digits) }
    }

    /// `self` times `m`, for `m` at most 10000.
    pub fn times(&self, m: u64) -> (r: Exact)
        requires
            self.wf(),
            m <= 10000,
        ensures
            r.wf(),
            r.value() == self.value() * m,
    {
        let digits = mag_mul_small(&self.digits, m);
        proof {
            if self.negative {
                assert(-(mag_value(self.digits@) * m) == (-mag_value(self.digits@)) * m) by (
                nonlinear_arith);
            }
        }
        Exact { negative: self.negative, digits }
    }

    /// `self` times 10000 to the power `k`.
    pub fn scaled(&self, k: usize) -> (r: Exact)
        requires
            self.wf(),
        ensures
            r.wf(),
            r.value() == self.value() * pow_base(k as nat),
    {
        let mut r = Exact { negative: self.negative, digits: copy_digits(&self.digits) };
        let mut i: usize = 0;
        while i < k
            invariant
                i <= k,
                r.wf(),
                r.value() == self.value() * pow_base(i as nat),
            decreases k - i,
        {
            let ghost old_v = r.value();
            r = r.times(10000);
            proof {
                assert(pow_base((i + 1) as nat) == 10000 * pow_base(i as nat));
                assert(old_v * 10000 == self.value() * (10000 * pow_base(i as nat))) by (
                nonlinear_arith)
                    requires
                        old_v == self.value() * pow_base(i as nat),
                ;
            }
            i = i + 1;
        }
        r
    }

    pub fn plus(&self, other: &Exact) -> (r: Exact)
        requires
            self.wf(),
            other.wf(),
        ensures
            r.wf(),
            r.value() == self.value() + other.value(),
    {
        if self.negative == other.negative {
            return Exact { negative: self.negative, digits: mag_add(&self.digits, &other.digits) };
        }
        let (d, borrow) = mag_sub(&self.digits, &other.digits);
        if !borrow {
            Exact { negative: self.negative, digits: d }
        } else {
            let (d2, _) = mag_sub(&other.digits, &self.digits);
            Exact { negative: other.negative, digits: d2 }
        }
    }

    pub fn minus(&self, other: &Exact) -> (r: Exact)
        requires
            self.wf(),
            other.wf(),
        ensures
            r.wf(),
            r.value() == self.value() - other.value(),
    {
        self.plus(&other.negated())
    }

    pub fn less_than(&self, other: &Exact) -> (r: bool)
        requires
            self.wf(),
            other.wf(),
        ensures
            r == (self.value() < other.value()),
    {
        proof {
            lemma_low_nonneg(self.digits@, self.digits@.len());
            lemma_low_nonneg(other.digits@, other.digits@.len());
        }
        if !self.negative && !other.negative {
            mag_sub(&self.digits, &other.digits).1
        } else if self.negative && other.negative {
            mag_sub(&other.digits, &self.digits).1
        } else if self.negative {
            let sum = mag_add(&self.digits, &other.digits);
            let zero: Vec<u64> = Vec::new();
            mag_sub(&zero, &sum).1
        } else {
            false
        }
    }

    pub fn is_negative(&self) -> (r: bool)
        requires
            self.wf(),
        ensures
            r == (self.value() < 0),
    {
        self.less_than(&Exact::zero())
    }
}

/// `n / 10000^k` rounded half to even, for `0 <= n <= bound * 10000^k`.
pub fn round_exact(n: &Exact, k: usize, bound: u64) -> (r: u64)
    requires
        n.wf(),
        0 <= n.value() <= bound * pow_base(k as nat),
    ensures
        r == round_half_even(n.value(), pow_base(k as nat)),
        r <= bound,
{
    let ghost p = pow_base(k as nat);
    proof {
        lemma_pow_base_pos(k as nat);
    }
    let mut lo: u64 = 0;
    let mut hi: u128 = bound as u128 + 1;
    assert(n.value() < hi * p) by (nonlinear_arith)
        requires
            n.value() <= bound * p,
            hi == bound + 1,
            p >= 1,
    ;
    assert(lo * p == 0);
    while (lo as u128) + 1 < hi
        invariant
            p == pow_base(k as nat),
            p >= 1,
            n.wf(),
            lo < hi <= bound + 1,
            lo * p <= n.value(),
            n.value() < hi * p,
        decreases hi - lo,
    {
        let mid = lo + ((hi - lo as u128) / 2) as u64;
        let m = Exact::from_u64(mid).scaled(k);
        if n.less_than(&m) {
            hi = mid as u128;
        } else {
            lo = mid;
        }
    }
    let q = lo;
    let qp = Exact::from_u64(q).scaled(k);
    let rem = n.minus(&qp);
    let twice = rem.times(2);
    let unit = Exact::from_u64(1).scaled(k);
    proof {
        assert(hi == lo + 1);
        assert(n.value() - q * p < p) by (nonlinear_arith)
            requires
                n.value() < hi * p,
                hi == q + 1,
        ;
        vstd::arithmetic::div_mod::lemma_fundamental_div_mod_converse(n.value(), p, q as int, n.value() - q * p);
        assert(q + 1 <= bound + 1);
    }
    if twice.less_than(&unit) {
        q
    } else if unit.less_than(&twice) {
        assert(q < bound) by (nonlinear_arith)
            requires
                n.value() <= bound * p,
                n.value() > q * p,
                p >= 1,
        ;
        q + 1
    } else if q % 2 == 0 {
        q
    } else {
        proof {
            assert(2 * (n.value() - q * p) == p);
            assert(q < bound) by (nonlinear_arith)
                requires
                    n.value() <= bound * p,
                    2 * (n.value() - q * p) == p,
                    p >= 1,
            ;
        }
        q + 1
    }
}

} // verus!
