use vstd::prelude::*;

verus! {

/// An exact rational measurement value `num / den`, with `den > 0`.
///
/// Measurements and everything derived from them (percent changes,
/// normalized ratios, averages) are exact rationals.  An operation
/// whose exact result needs a numerator or denominator outside `i64`,
/// or whose divisor is zero, reports `None` instead of rounding or
/// inventing a number: division by a zero baseline is an explicit
/// failure, never a silent non-finite value.
#[derive(Clone, Copy, Debug)]
pub struct Value {
    pub num: i64,
    pub den: i64,
}

/// `v` equals the fraction `n / d`, by cross multiplication.
pub open spec fn frac_eq(v: Value, n: int, d: int) -> bool {
    v.num * d == n * v.den
}

pub open spec fn fits_i64(x: int) -> bool {
    i64::MIN <= x <= i64::MAX
}

impl Value {
    /// Well-formed: strictly positive denominator.
    pub open spec fn wf(self) -> bool {
        self.den > 0
    }

    /// Build a value from an integer measurement.
    pub fn from_int(n: i64) -> (r: Value)
        ensures
            r.wf(),
            r.num == n,
            r.den == 1,
    {
        Value { num: n, den: 1 }
    }

    /// Whether this value equals the integer `n`.
    pub fn equals_int(self, n: i64) -> (r: bool)
        ensures
            r == (self.num == n * self.den),
    {
        proof {
            lemma_abs_mul(n as int, self.den as int, 0x8000_0000_0000_0000, 0x8000_0000_0000_0000);
        }
        (self.num as i128) == (n as i128) * (self.den as i128)
    }
}

/// Whether two values denote the same rational number.
pub fn value_eq(a: Value, b: Value) -> (r: bool)
    ensures
        r == (a.num * b.den == b.num * a.den),
{
    proof {
        lemma_abs_mul(a.num as int, b.den as int, 0x8000_0000_0000_0000, 0x8000_0000_0000_0000);
        lemma_abs_mul(b.num as int, a.den as int, 0x8000_0000_0000_0000, 0x8000_0000_0000_0000);
    }
    (a.num as i128) * (b.den as i128) == (b.num as i128) * (a.den as i128)
}

/// Sign-normalize the fraction `n / d` and narrow it to a `Value`;
/// `None` when `d == 0` or a component does not fit in `i64`.
pub open spec fn spec_make(n: int, d: int) -> Option<Value> {
    let n2: int = if d < 0 { -n } else { n };
    let d2: int = if d < 0 { -d } else { d };
    if d2 > 0 && fits_i64(n2) && fits_i64(d2) {
        Some(Value { num: n2 as i64, den: d2 as i64 })
    } else {
        None
    }
}

/// A made value is well formed and equal to the fraction it was made from.
pub proof fn lemma_make_frac(n: int, d: int)
    ensures
        spec_make(n, d) matches Some(p) ==> p.wf() && frac_eq(p, n, d),
{
    if spec_make(n, d) is Some {
        let p = spec_make(n, d).unwrap();
        if d < 0 {
            assert(p.num == -n && p.den == -d);
            assert((-n) * d == n * (-d)) by (nonlinear_arith);
        }
    }
}

/// `-am <= a <= am` and `-bm <= b <= bm` bound the product `a * b` by `am * bm`.
proof fn lemma_abs_mul(a: int, b: int, am: int, bm: int)
    by (nonlinear_arith)
    requires
        -am <= a <= am,
        -bm <= b <= bm,
        0 <= am,
        0 <= bm,
    ensures
        -(am * bm) <= a * b <= am * bm,
{
}

fn make_value(n: i128, d: i128) -> (r: Option<Value>)
    requires
        n > i128::MIN,
        d > i128::MIN,
    ensures
        r == spec_make(n as int, d as int),
{
    let n2: i128 = if d < 0 { -n } else { n };
    let d2: i128 = if d < 0 { -d } else { d };
    if d2 > 0 && n2 >= -0x8000_0000_0000_0000i128 && n2 <= 0x7fff_ffff_ffff_ffffi128
        && d2 <= 0x7fff_ffff_ffff_ffffi128 {
        Some(Value { num: n2 as i64, den: d2 as i64 })
    } else {
        None
    }
}

/// Exact percent change of `v` against the baseline `b`:
/// the rational `100 * (v - b) / b`, or `None` when `b` is zero or a
/// component of the exact result does not fit.
pub open spec fn spec_percent(v: Value, b: Value) -> Option<Value> {
    let diff: int = v.num * b.den - b.num * v.den;
    if -92233720368547758 <= diff <= 92233720368547758 {
        spec_make(100 * diff, v.den * b.num)
    } else {
        None
    }
}

pub fn percent_change(v: Value, b: Value) -> (r: Option<Value>)
    requires
        v.wf(),
        b.wf(),
    ensures
        r == spec_percent(v, b),
        r matches Some(p) ==> p.wf() && frac_eq(p, 100 * (v.num * b.den - b.num * v.den), v.den * b.num),
{
    proof {
        lemma_abs_mul(v.num as int, b.den as int, 0x8000_0000_0000_0000, 0x7fff_ffff_ffff_ffff);
        lemma_abs_mul(b.num as int, v.den as int, 0x8000_0000_0000_0000, 0x7fff_ffff_ffff_ffff);
        lemma_abs_mul(v.den as int, b.num as int, 0x7fff_ffff_ffff_ffff, 0x8000_0000_0000_0000);
    }
    let diff: i128 = (v.num as i128) * (b.den as i128) - (b.num as i128) * (v.den as i128);
    if diff < -92233720368547758i128 || diff > 92233720368547758i128 {
        return None;
    }
    let r = make_value(100 * diff, (v.den as i128) * (b.num as i128));
    proof {
        lemma_make_frac(100 * (v.num * b.den - b.num * v.den), v.den * b.num);
    }
    r
}

/// Exact quotient `v / b`, or `None` when `b` is zero or the exact
/// result does not fit.
pub open spec fn spec_ratio(v: Value, b: Value) -> Option<Value> {
    spec_make(v.num * b.den, v.den * b.num)
}

pub fn ratio(v: Value, b: Value) -> (r: Option<Value>)
    requires
        v.wf(),
        b.wf(),
    ensures
        r == spec_ratio(v, b),
        r matches Some(p) ==> p.wf() && frac_eq(p, v.num * b.den, v.den * b.num),
{
    proof {
        lemma_abs_mul(v.num as int, b.den as int, 0x8000_0000_0000_0000, 0x7fff_ffff_ffff_ffff);
        lemma_abs_mul(v.den as int, b.num as int, 0x7fff_ffff_ffff_ffff, 0x8000_0000_0000_0000);
        lemma_make_frac(v.num * b.den, v.den * b.num);
    }
    make_value((v.num as i128) * (b.den as i128), (v.den as i128) * (b.num as i128))
}

/// Exact sum `a + b`, or `None` when the exact result does not fit.
pub open spec fn spec_add(a: Value, b: Value) -> Option<Value> {
    spec_make(a.num * b.den + b.num * a.den, a.den * b.den)
}

pub fn add_values(a: Value, b: Value) -> (r: Option<Value>)
    requires
        a.wf(),
        b.wf(),
    ensures
        r == spec_add(a, b),
        r matches Some(p) ==> p.wf() && frac_eq(p, a.num * b.den + b.num * a.den, a.den * b.den),
{
    proof {
        lemma_abs_mul(a.num as int, b.den as int, 0x8000_0000_0000_0000, 0x7fff_ffff_ffff_ffff);
        lemma_abs_mul(b.num as int, a.den as int, 0x8000_0000_0000_0000, 0x7fff_ffff_ffff_ffff);
        lemma_abs_mul(a.den as int, b.den as int, 0x7fff_ffff_ffff_ffff, 0x7fff_ffff_ffff_ffff);
        lemma_make_frac(a.num * b.den + b.num * a.den, a.den * b.den);
    }
    make_value(
        (a.num as i128) * (b.den as i128) + (b.num as i128) * (a.den as i128),
        (a.den as i128) * (b.den as i128),
    )
}

/// Exact sum of a sequence of values, `None` as soon as a partial sum
/// does not fit.
pub open spec fn spec_sum(s: Seq<Value>) -> Option<Value>
    decreases s.len(),
{
    if s.len() == 0 {
        Some(Value { num: 0, den: 1 })
    } else {
        match spec_sum(s.drop_last()) {
            Some(acc) => spec_add(acc, s.last()),
            None => None,
        }
    }
}

/// Arithmetic mean of a sequence of values.
pub open spec fn spec_mean(s: Seq<Value>) -> Option<Value> {
    match spec_sum(s) {
        Some(t) => spec_make(t.num as int, t.den * s.len()),
        None => None,
    }
}

/// Once a prefix sum is undefined, the whole sum is.
proof fn lemma_sum_none_after(s: Seq<Value>, i: int)
    requires
        0 <= i <= s.len(),
        spec_sum(s.subrange(0, i)) is None,
    ensures
        spec_sum(s) is None,
    decreases s.len() - i,
{
    if i == s.len() {
        assert(s.subrange(0, i) =~= s);
    } else {
        assert(s.subrange(0, i + 1).drop_last() =~= s.subrange(0, i));
        lemma_sum_none_after(s, i + 1);
    }
}

/// Arithmetic mean of the values in `vals`.
pub fn mean(vals: &Vec<Value>) -> (r: Option<Value>)
    requires
        forall|i: int| 0 <= i < vals@.len() ==> (#[trigger] vals@[i]).wf(),
    ensures
        r == spec_mean(vals@),
        r matches Some(p) ==> p.wf(),
{
    let mut acc = Value { num: 0, den: 1 };
    let mut i: usize = 0;
    while i < vals.len()
        invariant
            0 <= i <= vals@.len(),
            forall|j: int| 0 <= j < vals@.len() ==> (#[trigger] vals@[j]).wf(),
            spec_sum(vals@.subrange(0, i as int)) == Some(acc),
            acc.wf(),
        decreases vals@.len() - i,
    {
        let next = add_values(acc, vals[i]);
        proof {
            assert(vals@.subrange(0, i + 1).drop_last() =~= vals@.subrange(0, i as int));
            assert(vals@.subrange(0, i + 1).last() == vals@[i as int]);
        }
        match next {
            Some(a2) => {
                acc = a2;
            }
            None => {
                proof {
                    lemma_sum_none_after(vals@, i + 1);
                }
                return None;
            }
        }
        i += 1;
    }
    proof {
        assert(vals@.subrange(0, vals@.len() as int) =~= vals@);
        lemma_abs_mul(acc.den as int, vals@.len() as int, 0x7fff_ffff_ffff_ffff,
            0xffff_ffff_ffff_ffff);
        lemma_make_frac(acc.num as int, acc.den * vals@.len());
    }
    make_value(acc.num as i128, (acc.den as i128) * (vals.len() as i128))
}

} // verus!
