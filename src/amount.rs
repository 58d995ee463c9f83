use vstd::arithmetic::div_mod::lemma_fundamental_div_mod_converse;
use vstd::prelude::*;

verus! {

/// The largest scale an amount may carry: digits after the decimal point.
pub const MAX_SCALE: u32 = 28;

/// The largest magnitude of a mantissa: 2^96 - 1.
pub const MAX_MANTISSA: i128 = 79228162514264337593543950335;

/// `10^n`.
pub open spec fn pow10(n: nat) -> int
    decreases n,
{
    if n == 0 {
        1
    } else {
        10 * pow10((n - 1) as nat)
    }
}

pub proof fn lemma_pow10_positive(n: nat)
    ensures
        pow10(n) >= 1,
    decreases n,
{
    if n > 0 {
        lemma_pow10_positive((n - 1) as nat);
    }
}

pub proof fn lemma_pow10_add(a: nat, b: nat)
    ensures
        pow10(a + b) == pow10(a) * pow10(b),
    decreases a,
{
    if a > 0 {
        lemma_pow10_add((a - 1) as nat, b);
        assert(pow10(a + b) == 10 * pow10((a - 1 + b) as nat));
        assert(10 * (pow10((a - 1) as nat) * pow10(b)) == (10 * pow10((a - 1) as nat)) * pow10(b))
            by (nonlinear_arith);
    }
}

pub open spec fn abs(x: int) -> int {
    if x < 0 {
        -x
    } else {
        x
    }
}

/// An exact decimal number `mantissa / 10^scale`.
#[derive(Clone, Copy, Debug, PartialEq, Eq, Structural)]
pub struct Amount {
    pub mantissa: i128,
    pub scale: u32,
}

/// Two amounts that stand for the same number, whatever their scales.
pub open spec fn same_value(a: Amount, b: Amount) -> bool {
    a.mantissa * pow10(b.scale as nat) == b.mantissa * pow10(a.scale as nat)
}

/// `v` with the sign of `m`.
pub open spec fn with_sign_of(m: int, v: int) -> int {
    if m < 0 {
        -v
    } else {
        v
    }
}

/// What `a * 10^k` is, exactly: the scale shrinks first, then the mantissa
/// grows; a negative `k` adds to the scale, and where that passes
/// `MAX_SCALE` the trailing zeros of the mantissa are dropped to bring it
/// back. `None` where the number has no form within the bounds.
pub open spec fn shift_spec(a: Amount, k: int) -> Option<Amount> {
    if k >= 0 {
        if a.scale >= k {
            Some(Amount { mantissa: a.mantissa, scale: (a.scale - k) as u32 })
        } else if abs(a.mantissa * pow10((k - a.scale) as nat)) <= MAX_MANTISSA {
            Some(Amount { mantissa: (a.mantissa * pow10((k - a.scale) as nat)) as i128, scale: 0 })
        } else {
            None
        }
    } else if a.scale - k <= MAX_SCALE {
        Some(Amount { mantissa: a.mantissa, scale: (a.scale - k) as u32 })
    } else if abs(a.mantissa as int) % pow10((a.scale - k - MAX_SCALE) as nat) == 0 {
        Some(
            Amount {
                mantissa: with_sign_of(
                    a.mantissa as int,
                    abs(a.mantissa as int) / pow10((a.scale - k - MAX_SCALE) as nat),
                ) as i128,
                scale: MAX_SCALE,
            },
        )
    } else {
        None
    }
}

impl Amount {
    pub open spec fn wf(self) -> bool {
        self.scale <= MAX_SCALE && abs(self.mantissa as int) <= MAX_MANTISSA
    }

    /// The amount `mantissa / 10^scale`, where both lie within the bounds.
    pub fn new(mantissa: i128, scale: u32) -> (r: Option<Amount>)
        ensures
            r is Some <==> scale <= MAX_SCALE && abs(mantissa as int) <= MAX_MANTISSA,
            r matches Some(a) ==> a.mantissa == mantissa && a.scale == scale,
    {
        if scale <= MAX_SCALE && -MAX_MANTISSA <= mantissa && mantissa <= MAX_MANTISSA {
            Some(Amount { mantissa, scale })
        } else {
            None
        }
    }

    /// The whole number `n`.
    pub fn from_integer(n: i64) -> (r: Amount)
        ensures
            r.wf(),
            r.mantissa == n,
            r.scale == 0,
    {
        Amount { mantissa: n as i128, scale: 0 }
    }

    /// Whether `self` and `other` stand for the same number.
    pub fn same_value_as(&self, other: &Amount) -> (r: bool)
        ensures
            r == same_value(*self, *other),
    {
        if self.scale >= other.scale {
            same_value_ordered(*self, *other)
        } else {
            same_value_ordered(*other, *self)
        }
    }

    /// `self * 10^k`, exactly, as `shift_spec` writes it.
    pub fn shift(&self, k: i64) -> (r: Option<Amount>)
        requires
            self.wf(),
        ensures
            r == shift_spec(*self, k as int),
            r matches Some(b) ==> b.wf(),
    {
        if k >= 0 {
            if self.scale as i64 >= k {
                Some(Amount { mantissa: self.mantissa, scale: (self.scale as i64 - k) as u32 })
            } else {
                let d: i64 = k - self.scale as i64;
                match scale_up(self.mantissa, d as u64) {
                    Some(m) => Some(Amount { mantissa: m, scale: 0 }),
                    None => None,
                }
            }
        } else {
            let s: i128 = self.scale as i128 - k as i128;
            if s <= MAX_SCALE as i128 {
                Some(Amount { mantissa: self.mantissa, scale: s as u32 })
            } else {
                let e: u64 = (s - MAX_SCALE as i128) as u64;
                let mag: u128 = if self.mantissa < 0 {
                    (-self.mantissa) as u128
                } else {
                    self.mantissa as u128
                };
                match strip_zeros(mag, e) {
                    Some(v) => {
                        proof {
                            lemma_pow10_positive(e as nat);
                            assert(v <= mag) by (nonlinear_arith)
                                requires v * pow10(e as nat) == mag, pow10(e as nat) >= 1, v >= 0;
                        }
                        let m: i128 = if self.mantissa < 0 {
                            -(v as i128)
                        } else {
                            v as i128
                        };
                        Some(Amount { mantissa: m, scale: MAX_SCALE })
                    },
                    None => None,
                }
            }
        }
    }
}

/// The magnitude of `m`.
fn magnitude(m: i128) -> (r: u128)
    ensures
        r == abs(m as int),
{
    if m == i128::MIN {
        (i128::MAX as u128) + 1
    } else if m < 0 {
        (-m) as u128
    } else {
        m as u128
    }
}

/// Whether `a` and `b` stand for the same number, with `a` at the larger
/// scale: `a.mantissa == b.mantissa * 10^(a.scale - b.scale)`.
fn same_value_ordered(a: Amount, b: Amount) -> (r: bool)
    requires
        a.scale >= b.scale,
    ensures
        r == same_value(a, b),
{
    let d: u32 = a.scale - b.scale;
    let ghost m = a.mantissa as int;
    let ghost pb = pow10(b.scale as nat);
    let ghost pd = pow10(d as nat);
    proof {
        lemma_pow10_add(d as nat, b.scale as nat);
        assert((d + b.scale) as nat == a.scale as nat);
        lemma_pow10_positive(b.scale as nat);
        lemma_pow10_positive(d as nat);
        assert(same_value(a, b) <==> m == b.mantissa * pd) by {
            assert(m * pb == b.mantissa * pd * pb ==> m == b.mantissa * pd) by (nonlinear_arith)
                requires pb > 0;
            assert(b.mantissa * pow10(a.scale as nat) == b.mantissa * pd * pb)
                by (nonlinear_arith)
                requires pow10(a.scale as nat) == pd * pb;
        }
    }
    match strip_zeros(magnitude(a.mantissa), d as u64) {
        Some(q) => {
            let ghost sq = with_sign_of(m, q as int);
            proof {
                assert(m == sq * pd) by (nonlinear_arith)
                    requires q * pd == abs(m), abs(m) == (if m < 0 { -m } else { m }),
                        sq == (if m < 0 { -q } else { q as int });
                assert(m == b.mantissa * pd <==> sq == b.mantissa) by (nonlinear_arith)
                    requires m == sq * pd, pd > 0;
                assert(q <= abs(m)) by (nonlinear_arith)
                    requires q * pd == abs(m), pd >= 1, q >= 0;
            }
            if a.mantissa < 0 {
                if q > (i128::MAX as u128) + 1 {
                    false
                } else if q == (i128::MAX as u128) + 1 {
                    b.mantissa == i128::MIN
                } else {
                    -(q as i128) == b.mantissa
                }
            } else if q > i128::MAX as u128 {
                false
            } else {
                q as i128 == b.mantissa
            }
        },
        None => {
            proof {
                if m == b.mantissa * pd {
                    let w = abs(b.mantissa as int);
                    assert(abs(m) == w * pd) by (nonlinear_arith)
                        requires m == b.mantissa * pd, pd > 0,
                            w == abs(b.mantissa as int), abs(m) == (if m < 0 { -m } else { m }),
                            w == (if b.mantissa < 0 { -b.mantissa } else { b.mantissa as int });
                    lemma_fundamental_div_mod_converse(abs(m), pd, w, 0);
                }
            }
            false
        },
    }
}

/// `m * 10^d` where its magnitude is at most `MAX_MANTISSA`.
fn scale_up(m: i128, d: u64) -> (r: Option<i128>)
    requires
        abs(m as int) <= MAX_MANTISSA,
    ensures
        r is Some <==> abs(m * pow10(d as nat)) <= MAX_MANTISSA,
        r matches Some(v) ==> v == m * pow10(d as nat),
{
    if m == 0 {
        assert(m * pow10(d as nat) == 0);
        return Some(0);
    }
    let mut acc: i128 = m;
    let mut i: u64 = 0;
    while i < d
        invariant
            i <= d,
            m != 0,
            acc == m * pow10(i as nat),
            abs(acc as int) <= MAX_MANTISSA,
        decreases d - i,
    {
        if acc > MAX_MANTISSA / 10 || acc < -(MAX_MANTISSA / 10) {
            proof {
                let rest = (d - i - 1) as nat;
                lemma_pow10_add((i + 1) as nat, rest);
                lemma_pow10_positive(rest);
                assert(((i + 1) as nat + rest) as nat == d as nat);
                assert(pow10((i + 1) as nat) == 10 * pow10(i as nat));
                let big = m * pow10((i + 1) as nat);
                assert(big == 10 * acc) by (nonlinear_arith)
                    requires acc == m * pow10(i as nat), big == m * pow10((i + 1) as nat),
                        pow10((i + 1) as nat) == 10 * pow10(i as nat);
                assert(abs(big) > MAX_MANTISSA);
                assert(m * pow10(d as nat) == big * pow10(rest)) by (nonlinear_arith)
                    requires pow10(d as nat) == pow10((i + 1) as nat) * pow10(rest),
                        big == m * pow10((i + 1) as nat);
                assert(abs(big * pow10(rest)) >= abs(big)) by (nonlinear_arith)
                    requires pow10(rest) >= 1;
            }
            return None;
        }
        proof {
            assert(pow10((i + 1) as nat) == 10 * pow10(i as nat));
            assert(acc * 10 == m * pow10((i + 1) as nat)) by (nonlinear_arith)
                requires acc == m * pow10(i as nat), pow10((i + 1) as nat) == 10 * pow10(i as nat);
        }
        acc = acc * 10;
        i = i + 1;
    }
    Some(acc)
}

/// `mag / 10^e`, where `10^e` divides `mag`.
fn strip_zeros(mag: u128, e: u64) -> (r: Option<u128>)
    ensures
        r is Some <==> (mag as int) % pow10(e as nat) == 0,
        r matches Some(v) ==> v == (mag as int) / pow10(e as nat) && v * pow10(e as nat) == mag,
{
    if mag == 0 {
        proof {
            lemma_pow10_positive(e as nat);
            lemma_fundamental_div_mod_converse(0, pow10(e as nat), 0, 0);
        }
        return Some(0);
    }
    let mut v: u128 = mag;
    let mut j: u64 = 0;
    while j < e
        invariant
            j <= e,
            mag > 0,
            v * pow10(j as nat) == mag,
        decreases e - j,
    {
        if v % 10 != 0 {
            proof {
                lemma_pow10_positive(j as nat);
                let rest = (e - j - 1) as nat;
                lemma_pow10_add(rest, 1);
                lemma_pow10_add((rest + 1) as nat, j as nat);
                assert((rest + 1 + j) as nat == e as nat);
                if (mag as int) % pow10(e as nat) == 0 {
                    lemma_pow10_positive(e as nat);
                    let q = (mag as int) / pow10(e as nat);
                    assert(mag == q * pow10(e as nat)) by (nonlinear_arith)
                        requires (mag as int) % pow10(e as nat) == 0, pow10(e as nat) > 0,
                            q == (mag as int) / pow10(e as nat);
                    assert(pow10(1) == 10) by {
                        reveal_with_fuel(pow10, 2);
                    }
                    let w = q * pow10(rest);
                    assert(w * 10 * pow10(j as nat) == v * pow10(j as nat)) by (nonlinear_arith)
                        requires mag == q * pow10(e as nat), v * pow10(j as nat) == mag,
                            pow10(e as nat) == pow10((rest + 1) as nat) * pow10(j as nat),
                            pow10((rest + 1) as nat) == pow10(rest) * pow10(1), pow10(1) == 10,
                            w == q * pow10(rest);
                    assert(w * 10 == v) by (nonlinear_arith)
                        requires w * 10 * pow10(j as nat) == v * pow10(j as nat),
                            pow10(j as nat) > 0;
                    lemma_fundamental_div_mod_converse(v as int, 10, w, 0);
                }
            }
            return None;
        }
        proof {
            assert(pow10((j + 1) as nat) == 10 * pow10(j as nat));
            assert((v / 10) * pow10((j + 1) as nat) == mag) by (nonlinear_arith)
                requires v % 10 == 0, v * pow10(j as nat) == mag,
                    pow10((j + 1) as nat) == 10 * pow10(j as nat), v >= 0;
        }
        v = v / 10;
        j = j + 1;
    }
    proof {
        lemma_pow10_positive(e as nat);
        lemma_fundamental_div_mod_converse(mag as int, pow10(e as nat), v as int, 0);
    }
    Some(v)
}

/// True where `r` stands for the number `a * 10^k`.
pub open spec fn represents(r: Amount, a: Amount, k: int) -> bool {
    if k >= 0 {
        r.mantissa * pow10(a.scale as nat) == a.mantissa * pow10(k as nat) * pow10(r.scale as nat)
    } else {
        r.mantissa * pow10(a.scale as nat) * pow10((-k) as nat) == a.mantissa * pow10(
            r.scale as nat,
        )
    }
}

/// `shift_spec` is exact: where it gives an amount, that amount is within
/// the bounds and stands for `a * 10^k`; where it gives none, no amount
/// within the bounds stands for that number.
pub proof fn lemma_shift_exact(a: Amount, k: int)
    requires
        a.wf(),
    ensures
        shift_spec(a, k) matches Some(r) ==> r.wf() && represents(r, a, k),
        shift_spec(a, k) is None ==> forall|r: Amount| r.wf() ==> !represents(r, a, k),
{
    let ghost m = a.mantissa as int;
    let s = a.scale as int;
    if k >= 0 {
        if s >= k {
            lemma_pow10_add(k as nat, (s - k) as nat);
            assert(((k as nat) + ((s - k) as nat)) as nat == s as nat);
            assert(m * pow10(s as nat) == m * pow10(k as nat) * pow10((s - k) as nat))
                by (nonlinear_arith)
                requires pow10(s as nat) == pow10(k as nat) * pow10((s - k) as nat);
        } else {
            let d = (k - s) as nat;
            lemma_pow10_add(d, s as nat);
            assert((d + s) as nat == k as nat);
            assert(pow10(0) == 1);
            assert(m * pow10(d) * pow10(s as nat) == m * pow10(k as nat) * pow10(0))
                by (nonlinear_arith)
                requires pow10(k as nat) == pow10(d) * pow10(s as nat), pow10(0) == 1;
            if shift_spec(a, k) is Some {
                assert(shift_spec(a, k)->Some_0.mantissa == m * pow10(d));
            } else {
                assert forall|r: Amount| r.wf() implies !represents(r, a, k) by {
                    if represents(r, a, k) {
                        let rm = r.mantissa as int;
                        let rs = pow10(r.scale as nat);
                        lemma_pow10_positive(s as nat);
                        lemma_pow10_positive(r.scale as nat);
                        assert(rm * pow10(s as nat) == (m * pow10(d) * rs) * pow10(s as nat))
                            by (nonlinear_arith)
                            requires rm * pow10(s as nat) == m * pow10(k as nat) * rs,
                                pow10(k as nat) == pow10(d) * pow10(s as nat);
                        assert(rm == m * pow10(d) * rs) by (nonlinear_arith)
                            requires rm * pow10(s as nat) == (m * pow10(d) * rs) * pow10(
                                s as nat,
                            ), pow10(s as nat) > 0;
                        assert(abs(rm) >= abs(m * pow10(d))) by (nonlinear_arith)
                            requires rm == m * pow10(d) * rs, rs >= 1;
                    }
                }
            }
        }
    } else {
        let t = s - k;
        lemma_pow10_add(s as nat, (-k) as nat);
        assert(((s as nat) + ((-k) as nat)) as nat == t as nat);
        if t <= MAX_SCALE {
            assert(m * pow10(s as nat) * pow10((-k) as nat) == m * pow10(t as nat))
                by (nonlinear_arith)
                requires pow10(t as nat) == pow10(s as nat) * pow10((-k) as nat);
        } else {
            let e = (t - MAX_SCALE) as nat;
            let p = pow10(e);
            lemma_pow10_positive(e);
            lemma_pow10_add(e, MAX_SCALE as nat);
            assert((e + MAX_SCALE) as nat == t as nat);
            if abs(m) % p == 0 {
                let q = abs(m) / p;
                assert(abs(m) == q * p) by (nonlinear_arith)
                    requires abs(m) % p == 0, p > 0, q == abs(m) / p;
                assert(m == with_sign_of(m, q) * p) by (nonlinear_arith)
                    requires abs(m) == q * p, abs(m) == (if m < 0 { -m } else { m }),
                        with_sign_of(m, q) == (if m < 0 { -q } else { q });
                assert(0 <= q <= abs(m)) by (nonlinear_arith)
                    requires abs(m) == q * p, p >= 1, abs(m) >= 0;
                let sq = with_sign_of(m, q);
                assert(abs(sq) <= MAX_MANTISSA);
                assert(shift_spec(a, k)->Some_0.mantissa == sq);
                assert(sq * pow10(s as nat) * pow10((-k) as nat) == m * pow10(MAX_SCALE as nat))
                    by (nonlinear_arith)
                    requires m == sq * p, pow10(t as nat) == pow10(s as nat) * pow10(
                        (-k) as nat,
                    ), pow10(t as nat) == p * pow10(MAX_SCALE as nat);
            } else {
                assert forall|r: Amount| r.wf() implies !represents(r, a, k) by {
                    if represents(r, a, k) {
                        let rm = r.mantissa as int;
                        let g = (MAX_SCALE - r.scale) as nat;
                        lemma_pow10_positive(r.scale as nat);
                        lemma_pow10_positive(g);
                        lemma_pow10_add(g, r.scale as nat);
                        assert((g + r.scale) as nat == MAX_SCALE as nat);
                        let w = rm * pow10(g);
                        let sa = pow10(s as nat);
                        let sb = pow10((-k) as nat);
                        let tt = pow10(t as nat);
                        let rr = pow10(r.scale as nat);
                        let gg = pow10(g);
                        let mm = pow10(MAX_SCALE as nat);
                        assert(rm * sa * sb == rm * tt) by (nonlinear_arith)
                            requires tt == sa * sb;
                        assert(tt == p * gg * rr) by (nonlinear_arith)
                            requires tt == p * mm, mm == gg * rr;
                        assert(rm * tt == w * p * rr) by (nonlinear_arith)
                            requires tt == p * gg * rr, w == rm * gg;
                        assert(w * p * rr == m * rr);
                        assert(w * p == m) by (nonlinear_arith)
                            requires w * p * pow10(r.scale as nat) == m * pow10(r.scale as nat),
                                pow10(r.scale as nat) > 0;
                        assert(abs(m) == abs(w) * p) by (nonlinear_arith)
                            requires w * p == m, p > 0;
                        lemma_fundamental_div_mod_converse(abs(m), p, abs(w), 0);
                    }
                }
            }
        }
    }
}

/// Shifting by `k` and back by `-k` gives back the same number, wherever
/// `k` is within the scale bound and `x * 10^k` has a form within the
/// bounds, which is where the first shift succeeds (`lemma_shift_exact`).
pub proof fn lemma_shift_round_trip(x: Amount, k: int)
    requires
        x.wf(),
        -(MAX_SCALE as int) <= k <= MAX_SCALE,
        shift_spec(x, k) is Some,
    ensures
        shift_spec(shift_spec(x, k)->Some_0, -k) matches Some(z) && same_value(z, x),
{
    let y = shift_spec(x, k)->Some_0;
    if k > 0 && x.scale < k {
        let d = (k - x.scale) as nat;
        lemma_pow10_add(d, x.scale as nat);
        assert((d + x.scale) as nat == k as nat);
        let z = shift_spec(y, -k)->Some_0;
        assert(z.mantissa == x.mantissa * pow10(d));
        assert(z.scale == k);
        assert(x.mantissa * pow10(d) * pow10(x.scale as nat) == x.mantissa * pow10(k as nat))
            by (nonlinear_arith)
            requires pow10(k as nat) == pow10(d) * pow10(x.scale as nat);
    } else if k < 0 && x.scale - k > MAX_SCALE {
        let e = (x.scale - k - MAX_SCALE) as nat;
        let p = pow10(e);
        let m = x.mantissa as int;
        lemma_pow10_positive(e);
        let q = abs(m) / p;
        assert(abs(m) == q * p) by (nonlinear_arith)
            requires abs(m) % p == 0, p > 0, q == abs(m) / p;
        assert(m == with_sign_of(m, q) * p) by (nonlinear_arith)
            requires abs(m) == q * p, abs(m) == (if m < 0 { -m } else { m }),
                with_sign_of(m, q) == (if m < 0 { -q } else { q });
        let z = shift_spec(y, -k)->Some_0;
        assert(z.mantissa == with_sign_of(m, q));
        assert(z.scale == MAX_SCALE + k);
        lemma_pow10_add(e, z.scale as nat);
        assert((e + z.scale) as nat == x.scale as nat);
        assert(with_sign_of(m, q) * pow10(x.scale as nat) == m * pow10(z.scale as nat))
            by (nonlinear_arith)
            requires m == with_sign_of(m, q) * p,
                pow10(x.scale as nat) == p * pow10(z.scale as nat);
    }
}

} // verus!
