//! The two-tier integer backing: an inline machine-width integer (`Small`)
//! or a boxed arbitrary-precision integer (`Big`).
//!
//! The variant is a storage optimization, never an observable distinction:
//! every operation is specified against the mathematical value `ival()`.
//! The invariant is that a value representable as `i32` is always stored
//! `Small`, so the `Big` backing only ever holds out-of-range magnitudes.

use vstd::prelude::*;
use vstd::arithmetic::power2::pow2;
use vstd::arithmetic::power2::lemma_pow2_adds;
use vstd::arithmetic::power2::lemma2_to64;
use vstd::arithmetic::div_mod::lemma_fundamental_div_mod;

verus! {

/// Mathematical value of a little-endian sequence of base-2^32 digits.
pub open spec fn limbs_val(s: Seq<u32>) -> int
    decreases s.len(),
{
    if s.len() == 0 {
        0
    } else {
        s[0] + 0x1_0000_0000 * limbs_val(s.subrange(1, s.len() as int))
    }
}

/// Does a mathematical integer fit the inline (`i32`) representation?
pub open spec fn fits_small(i: int) -> bool {
    i32::MIN <= i <= i32::MAX
}

/// Arbitrary-precision magnitude-and-sign integer, stored as little-endian
/// base-2^32 digits with no leading zero digit.
pub struct BigNum {
    /// True when the represented value is negative.
    pub negative: bool,
    /// Little-endian base-2^32 digits of the magnitude.
    pub limbs: Vec<u32>,
}

impl BigNum {
    /// Magnitude of the represented value.
    pub open spec fn mag(self) -> int {
        limbs_val(self.limbs@)
    }

    /// The represented mathematical value.
    pub open spec fn ival(self) -> int {
        if self.negative {
            -self.mag()
        } else {
            self.mag()
        }
    }

    /// Normalized, and too large for the inline representation.
    pub open spec fn wf(self) -> bool {
        &&& self.limbs@.len() >= 1
        &&& self.limbs@.last() != 0
        &&& !fits_small(self.ival())
    }
}

/// The two-variant integer backing.
pub enum StarlarkInt {
    /// Inline machine-width integer; no allocation.
    Small(i32),
    /// Boxed arbitrary-precision integer.
    Big(BigNum),
}

impl StarlarkInt {
    /// The represented mathematical value.
    pub open spec fn ival(self) -> int {
        match self {
            StarlarkInt::Small(x) => x as int,
            StarlarkInt::Big(b) => b.ival(),
        }
    }

    /// Well-formed: the `Big` backing is normalized and holds only values
    /// that the inline representation cannot.
    pub open spec fn wf(self) -> bool {
        match self {
            StarlarkInt::Small(_) => true,
            StarlarkInt::Big(b) => b.wf(),
        }
    }
}

pub proof fn lemma_limbs_val_nonneg(s: Seq<u32>)
    ensures
        limbs_val(s) >= 0,
    decreases s.len(),
{
    if s.len() > 0 {
        lemma_limbs_val_nonneg(s.subrange(1, s.len() as int));
    }
}

/// The value of `s` is below 2^(32 * len).
pub proof fn lemma_limbs_val_upper(s: Seq<u32>)
    ensures
        limbs_val(s) < pow2((32 * s.len()) as nat),
    decreases s.len(),
{
    lemma2_to64();
    if s.len() == 0 {
    } else {
        let t = s.subrange(1, s.len() as int);
        lemma_limbs_val_upper(t);
        lemma_pow2_adds(32, (32 * t.len()) as nat);
        assert(limbs_val(s) == s[0] + 0x1_0000_0000 * limbs_val(t));
        assert(limbs_val(t) <= pow2((32 * t.len()) as nat) - 1);
        assert(0x1_0000_0000 * limbs_val(t) <= 0x1_0000_0000 * (pow2((32 * t.len()) as nat) - 1))
            by (nonlinear_arith)
            requires limbs_val(t) <= pow2((32 * t.len()) as nat) - 1,
        ;
    }
}

/// With a nonzero leading digit, the value of `s` is at least 2^(32 * (len - 1)).
pub proof fn lemma_limbs_val_lower(s: Seq<u32>)
    requires
        s.len() >= 1,
        s.last() != 0,
    ensures
        limbs_val(s) >= pow2((32 * (s.len() - 1)) as nat),
    decreases s.len(),
{
    lemma2_to64();
    let t = s.subrange(1, s.len() as int);
    if s.len() == 1 {
        assert(limbs_val(t) == 0);
        assert(limbs_val(s) == s[0]);
    } else {
        assert(t.last() == s.last());
        lemma_limbs_val_lower(t);
        lemma_pow2_adds(32, (32 * (t.len() - 1)) as nat);
        assert(0x1_0000_0000 * limbs_val(t) >= 0x1_0000_0000 * pow2((32 * (t.len() - 1)) as nat))
            by (nonlinear_arith)
            requires limbs_val(t) >= pow2((32 * (t.len() - 1)) as nat),
        ;
        lemma_limbs_val_nonneg(s);
    }
}

/// Dropping a zero leading digit does not change the value.
pub proof fn lemma_limbs_val_drop_zero(s: Seq<u32>)
    requires
        s.len() >= 1,
        s.last() == 0,
    ensures
        limbs_val(s) == limbs_val(s.drop_last()),
    decreases s.len(),
{
    if s.len() == 1 {
        assert(s.drop_last() =~= Seq::<u32>::empty());
        assert(limbs_val(s.subrange(1, 1)) == 0);
    } else {
        let t = s.subrange(1, s.len() as int);
        lemma_limbs_val_drop_zero(t);
        assert(s.drop_last().subrange(1, s.len() - 1) =~= t.drop_last());
        assert(limbs_val(s.drop_last()) == s[0] + 0x1_0000_0000 * limbs_val(t.drop_last()));
    }
}

/// The value of a one- or two-digit sequence, written out.
pub proof fn lemma_limbs_val_two(s: Seq<u32>)
    requires
        1 <= s.len() <= 2,
    ensures
        s.len() == 1 ==> limbs_val(s) == s[0],
        s.len() == 2 ==> limbs_val(s) == s[0] + 0x1_0000_0000 * s[1],
{
    let t = s.subrange(1, s.len() as int);
    assert(limbs_val(Seq::<u32>::empty()) == 0);
    if s.len() == 2 {
        assert(t.subrange(1, 1) =~= Seq::<u32>::empty());
        assert(limbs_val(t) == t[0] + 0x1_0000_0000 * limbs_val(t.subrange(1, 1)));
        assert(limbs_val(t) == t[0]);
    } else {
        assert(t =~= Seq::<u32>::empty());
        assert(limbs_val(t) == 0);
    }
}

/// Normalized digit sequences are unique: equal values mean equal digits.
pub proof fn lemma_limbs_val_injective(a: Seq<u32>, b: Seq<u32>)
    requires
        a.len() >= 1,
        a.last() != 0,
        b.len() >= 1,
        b.last() != 0,
        limbs_val(a) == limbs_val(b),
    ensures
        a == b,
    decreases a.len(),
{
    let ta = a.subrange(1, a.len() as int);
    let tb = b.subrange(1, b.len() as int);
    lemma_limbs_val_nonneg(ta);
    lemma_limbs_val_nonneg(tb);
    let v = limbs_val(a);
    assert(v == a[0] + 0x1_0000_0000 * limbs_val(ta));
    assert(v == b[0] + 0x1_0000_0000 * limbs_val(tb));
    vstd::arithmetic::div_mod::lemma_fundamental_div_mod_converse(
        v,
        0x1_0000_0000,
        limbs_val(ta),
        a[0] as int,
    );
    vstd::arithmetic::div_mod::lemma_fundamental_div_mod_converse(
        v,
        0x1_0000_0000,
        limbs_val(tb),
        b[0] as int,
    );
    assert(a[0] == b[0]);
    assert(limbs_val(ta) == limbs_val(tb));
    if a.len() == 1 && b.len() == 1 {
        assert(a =~= b);
    } else if a.len() == 1 {
        assert(tb.len() >= 1 && tb.last() == b.last());
        lemma_limbs_val_lower(tb);
        vstd::arithmetic::power2::lemma_pow2_pos((32 * (tb.len() - 1)) as nat);
        assert(limbs_val(ta) == 0);
        assert(false);
    } else if b.len() == 1 {
        assert(ta.len() >= 1 && ta.last() == a.last());
        lemma_limbs_val_lower(ta);
        vstd::arithmetic::power2::lemma_pow2_pos((32 * (ta.len() - 1)) as nat);
        assert(false);
    } else {
        assert(ta.last() == a.last());
        assert(tb.last() == b.last());
        lemma_limbs_val_injective(ta, tb);
        assert(a.len() == b.len());
        assert forall|i: int| 0 <= i < a.len() implies a[i] == b[i] by {
            if i >= 1 {
                assert(ta[i - 1] == a[i]);
                assert(tb[i - 1] == b[i]);
                assert(ta[i - 1] == tb[i - 1]);
            }
        }
        assert(a =~= b);
    }
}

impl StarlarkInt {
    /// Numeric equality of two backings; by normalization this is exactly
    /// equality of the mathematical values.
    pub fn eq_int(&self, other: &StarlarkInt) -> (r: bool)
        requires
            self.wf(),
            other.wf(),
        ensures
            r == (self.ival() == other.ival()),
    {
        match (self, other) {
            (StarlarkInt::Small(x), StarlarkInt::Small(y)) => x == y,
            (StarlarkInt::Big(a), StarlarkInt::Big(b)) => {
                if a.negative != b.negative {
                    proof {
                        lemma_limbs_val_lower(a.limbs@);
                        lemma_limbs_val_lower(b.limbs@);
                        vstd::arithmetic::power2::lemma_pow2_pos((32 * (a.limbs@.len() - 1)) as nat);
                        vstd::arithmetic::power2::lemma_pow2_pos((32 * (b.limbs@.len() - 1)) as nat);
                    }
                    false
                } else {
                    let same = limbs_eq(&a.limbs, &b.limbs);
                    proof {
                        if !same && limbs_val(a.limbs@) == limbs_val(b.limbs@) {
                            lemma_limbs_val_injective(a.limbs@, b.limbs@);
                        }
                    }
                    same
                }
            },
            _ => false,
        }
    }
}

/// Element-wise comparison of digit vectors.
fn limbs_eq(a: &Vec<u32>, b: &Vec<u32>) -> (r: bool)
    ensures
        r == (a@ == b@),
{
    if a.len() != b.len() {
        return false;
    }
    let n = a.len();
    let mut i: usize = 0;
    while i < n
        invariant
            n == a@.len(),
            n == b@.len(),
            i <= n,
            forall|j: int| 0 <= j < i ==> a@[j] == b@[j],
        decreases n - i,
    {
        if a[i] != b[i] {
            return false;
        }
        i = i + 1;
    }
    proof {
        assert(a@ =~= b@);
    }
    true
}


/// Splitting a digit sequence splits its value.
pub proof fn lemma_limbs_val_split(s: Seq<u32>, m: int)
    requires
        0 <= m <= s.len(),
    ensures
        limbs_val(s) == limbs_val(s.subrange(0, m)) + pow2((32 * m) as nat) * limbs_val(
            s.subrange(m, s.len() as int),
        ),
    decreases m,
{
    lemma2_to64();
    if m == 0 {
        assert(s.subrange(0, 0) =~= Seq::<u32>::empty());
        assert(s.subrange(0, s.len() as int) =~= s);
        assert(limbs_val(Seq::<u32>::empty()) == 0);
        assert(pow2(0) == 1);
        assert(1 * limbs_val(s) == limbs_val(s)) by (nonlinear_arith);
        lemma_limbs_val_nonneg(s);
    } else {
        let t = s.subrange(1, s.len() as int);
        lemma_limbs_val_split(t, m - 1);
        let hd = s.subrange(0, m);
        assert(hd.subrange(1, m) =~= t.subrange(0, m - 1));
        assert(limbs_val(hd) == s[0] + 0x1_0000_0000 * limbs_val(t.subrange(0, m - 1)));
        assert(t.subrange(m - 1, t.len() as int) =~= s.subrange(m, s.len() as int));
        lemma_pow2_adds(32, (32 * (m - 1)) as nat);
        let p1 = pow2((32 * (m - 1)) as nat);
        let tl = limbs_val(t.subrange(0, m - 1));
        let sk = limbs_val(s.subrange(m, s.len() as int));
        assert(limbs_val(s) == s[0] + 0x1_0000_0000 * (tl + p1 * sk));
        assert(s[0] + 0x1_0000_0000 * (tl + p1 * sk) == (s[0] + 0x1_0000_0000 * tl) + (
        0x1_0000_0000 * p1) * sk) by (nonlinear_arith);
    }
}

/// With equal digits above position `d` and a smaller digit at `d`, the
/// value is smaller.
pub proof fn lemma_limbs_cmp_at(a: Seq<u32>, b: Seq<u32>, d: int)
    requires
        a.len() == b.len(),
        0 <= d < a.len(),
        forall|k: int| d < k < a.len() ==> a[k] == b[k],
        a[d] < b[d],
    ensures
        limbs_val(a) < limbs_val(b),
{
    let n = a.len() as int;
    lemma_limbs_val_split(a, d);
    lemma_limbs_val_split(b, d);
    let pa = limbs_val(a.subrange(0, d));
    let pb = limbs_val(b.subrange(0, d));
    let sa = a.subrange(d, n);
    let sb = b.subrange(d, n);
    assert(sa.subrange(1, sa.len() as int) =~= sb.subrange(1, sb.len() as int));
    assert(limbs_val(sa) == sa[0] + 0x1_0000_0000 * limbs_val(sa.subrange(1, sa.len() as int)));
    assert(limbs_val(sb) == sb[0] + 0x1_0000_0000 * limbs_val(sb.subrange(1, sb.len() as int)));
    assert(limbs_val(sb) - limbs_val(sa) == b[d] - a[d]);
    lemma_limbs_val_upper(a.subrange(0, d));
    lemma_limbs_val_nonneg(b.subrange(0, d));
    let p = pow2((32 * d) as nat);
    vstd::arithmetic::power2::lemma_pow2_pos((32 * d) as nat);
    assert(pa < p);
    assert(p * limbs_val(sb) - p * limbs_val(sa) == p * (limbs_val(sb) - limbs_val(sa)))
        by (nonlinear_arith);
    assert(limbs_val(b) - limbs_val(a) == (pb - pa) + p * (limbs_val(sb) - limbs_val(sa)));
    assert(p * (limbs_val(sb) - limbs_val(sa)) >= p * 1) by (nonlinear_arith)
        requires limbs_val(sb) - limbs_val(sa) >= 1, p > 0,
    ;
}

/// Three-way comparison of two normalized magnitudes.
pub fn cmp_mag(a: &Vec<u32>, b: &Vec<u32>) -> (r: core::cmp::Ordering)
    requires
        a@.len() >= 1,
        a@.last() != 0,
        b@.len() >= 1,
        b@.last() != 0,
    ensures
        limbs_val(a@) < limbs_val(b@) ==> r == core::cmp::Ordering::Less,
        limbs_val(a@) > limbs_val(b@) ==> r == core::cmp::Ordering::Greater,
        limbs_val(a@) == limbs_val(b@) ==> r == core::cmp::Ordering::Equal,
{
    proof {
        lemma2_to64();
    }
    if a.len() < b.len() {
        proof {
            lemma_limbs_val_upper(a@);
            lemma_limbs_val_lower(b@);
            if (32 * a@.len()) < (32 * (b@.len() - 1)) {
                vstd::arithmetic::power2::lemma_pow2_strictly_increases(
                    (32 * a@.len()) as nat,
                    (32 * (b@.len() - 1)) as nat,
                );
            }
        }
        core::cmp::Ordering::Less
    } else if a.len() > b.len() {
        proof {
            lemma_limbs_val_upper(b@);
            lemma_limbs_val_lower(a@);
            if (32 * b@.len()) < (32 * (a@.len() - 1)) {
                vstd::arithmetic::power2::lemma_pow2_strictly_increases(
                    (32 * b@.len()) as nat,
                    (32 * (a@.len() - 1)) as nat,
                );
            }
        }
        core::cmp::Ordering::Greater
    } else {
        let n = a.len();
        let mut k: usize = n;
        while k > 0
            invariant
                n == a@.len(),
                n == b@.len(),
                k <= n,
                forall|p: int| k <= p < n ==> a@[p] == b@[p],
            decreases k,
        {
            let d = k - 1;
            if a[d] < b[d] {
                proof {
                    lemma_limbs_cmp_at(a@, b@, d as int);
                }
                return core::cmp::Ordering::Less;
            }
            if a[d] > b[d] {
                proof {
                    lemma_limbs_cmp_at(b@, a@, d as int);
                }
                return core::cmp::Ordering::Greater;
            }
            k = d;
        }
        proof {
            assert(a@ =~= b@);
        }
        core::cmp::Ordering::Equal
    }
}

/// Digits of a nonzero `u64` magnitude.
fn mk_limbs(m: u64) -> (r: Vec<u32>)
    requires
        m > 0,
    ensures
        r@.len() >= 1,
        r@.last() != 0,
        limbs_val(r@) == m,
{
    let lo: u32 = (m % 0x1_0000_0000) as u32;
    let hi: u32 = (m / 0x1_0000_0000) as u32;
    proof {
        lemma_fundamental_div_mod(m as int, 0x1_0000_0000);
    }
    let mut r: Vec<u32> = Vec::new();
    r.push(lo);
    if hi != 0 {
        r.push(hi);
    }
    proof {
        lemma_limbs_val_two(r@);
    }
    r
}

impl StarlarkInt {
    /// Construct from an inline integer.
    pub fn from_i32(x: i32) -> (r: StarlarkInt)
        ensures
            r.wf(),
            r.ival() == x as int,
    {
        StarlarkInt::Small(x)
    }

    /// Construct from a signed 64-bit integer, choosing `Small` exactly when
    /// the value fits the inline range.
    pub fn from_i64(x: i64) -> (r: StarlarkInt)
        ensures
            r.wf(),
            r.ival() == x as int,
    {
        if x >= i32::MIN as i64 && x <= i32::MAX as i64 {
            StarlarkInt::Small(x as i32)
        } else {
            let m: u64 = if x >= 0 {
                x as u64
            } else {
                (-(x as i128)) as u64
            };
            StarlarkInt::Big(BigNum { negative: x < 0, limbs: mk_limbs(m) })
        }
    }

    /// Construct from an unsigned 64-bit integer.
    pub fn from_u64(x: u64) -> (r: StarlarkInt)
        ensures
            r.wf(),
            r.ival() == x as int,
    {
        if x <= i32::MAX as u64 {
            StarlarkInt::Small(x as i32)
        } else {
            StarlarkInt::Big(BigNum { negative: false, limbs: mk_limbs(x) })
        }
    }

    /// Construct from an unsigned 32-bit integer.
    pub fn from_u32(x: u32) -> (r: StarlarkInt)
        ensures
            r.wf(),
            r.ival() == x as int,
    {
        StarlarkInt::from_u64(x as u64)
    }

    /// Construct from `usize`.
    pub fn from_usize(x: usize) -> (r: StarlarkInt)
        ensures
            r.wf(),
            r.ival() == x as int,
    {
        StarlarkInt::from_u64(x as u64)
    }

    /// Construct from `isize`.
    pub fn from_isize(x: isize) -> (r: StarlarkInt)
        ensures
            r.wf(),
            r.ival() == x as int,
    {
        StarlarkInt::from_i64(x as i64)
    }

    /// Construct from a sign and little-endian base-2^32 digits, normalizing:
    /// leading zero digits are dropped, and a value in the inline range comes
    /// back `Small`. This is the sole decision point between the two variants.
    pub fn from_digits(negative: bool, digits: Vec<u32>) -> (r: StarlarkInt)
        ensures
            r.wf(),
            r.ival() == (if negative { -limbs_val(digits@) } else { limbs_val(digits@) }),
    {
        let mut d = digits;
        let ghost orig = d@;
        while d.len() > 0 && d[d.len() - 1] == 0
            invariant
                limbs_val(d@) == limbs_val(orig),
            decreases d.len(),
        {
            proof {
                lemma_limbs_val_drop_zero(d@);
            }
            d.pop();
        }
        proof {
            lemma_limbs_val_nonneg(d@);
        }
        if d.len() == 0 {
            StarlarkInt::Small(0)
        } else if d.len() == 1 {
            let w = d[0];
            proof {
                lemma_limbs_val_two(d@);
            }
            if !negative && w <= i32::MAX as u32 {
                StarlarkInt::Small(w as i32)
            } else if negative && w <= 0x8000_0000 {
                if w == 0x8000_0000 {
                    StarlarkInt::Small(i32::MIN)
                } else {
                    StarlarkInt::Small(-(w as i32))
                }
            } else {
                StarlarkInt::Big(BigNum { negative, limbs: d })
            }
        } else {
            proof {
                lemma_limbs_val_lower(d@);
                lemma2_to64();
                if d@.len() > 2 {
                    vstd::arithmetic::power2::lemma_pow2_strictly_increases(
                        32,
                        (32 * (d@.len() - 1)) as nat,
                    );
                }
            }
            StarlarkInt::Big(BigNum { negative, limbs: d })
        }
    }

    /// Attempt to narrow to `i32`: the inline variant always succeeds, and by
    /// the normalization invariant the boxed variant never does.
    pub fn to_i32(&self) -> (r: Option<i32>)
        requires
            self.wf(),
        ensures
            r.is_some() <==> fits_small(self.ival()),
            r.is_some() ==> r.unwrap() as int == self.ival(),
    {
        match self {
            StarlarkInt::Small(x) => Some(*x),
            StarlarkInt::Big(_) => None,
        }
    }

    /// Magnitude as `u64`, when the digits allow it.
    fn mag_u64(b: &BigNum) -> (r: Option<u64>)
        requires
            b.wf(),
        ensures
            r.is_some() <==> b.mag() <= u64::MAX,
            r.is_some() ==> r.unwrap() as int == b.mag(),
    {
        proof {
            lemma_limbs_val_lower(b.limbs@);
            lemma_limbs_val_nonneg(b.limbs@);
            lemma2_to64();
        }
        if b.limbs.len() == 1 {
            proof {
                lemma_limbs_val_two(b.limbs@);
            }
            Some(b.limbs[0] as u64)
        } else if b.limbs.len() == 2 {
            proof {
                lemma_limbs_val_two(b.limbs@);
            }
            Some(b.limbs[0] as u64 + (b.limbs[1] as u64) * 0x1_0000_0000)
        } else {
            proof {
                lemma_pow2_adds(64, (32 * (b.limbs@.len() - 3)) as nat);
                vstd::arithmetic::power::lemma_pow_positive(2, (32 * (b.limbs@.len() - 3)) as nat);
            }
            None
        }
    }

    /// Attempt to narrow to `u64`.
    pub fn to_u64(&self) -> (r: Option<u64>)
        requires
            self.wf(),
        ensures
            r.is_some() <==> 0 <= self.ival() <= u64::MAX,
            r.is_some() ==> r.unwrap() as int == self.ival(),
    {
        match self {
            StarlarkInt::Small(x) => {
                if *x >= 0 {
                    Some(*x as u64)
                } else {
                    None
                }
            },
            StarlarkInt::Big(b) => {
                proof {
                    lemma_limbs_val_lower(b.limbs@);
                    vstd::arithmetic::power::lemma_pow_positive(2, (32 * (b.limbs@.len() - 1)) as nat);
                }
                if b.negative {
                    None
                } else {
                    Self::mag_u64(b)
                }
            },
        }
    }

    /// Attempt to narrow to `u32`.
    pub fn to_u32(&self) -> (r: Option<u32>)
        requires
            self.wf(),
        ensures
            r.is_some() <==> 0 <= self.ival() <= u32::MAX,
            r.is_some() ==> r.unwrap() as int == self.ival(),
    {
        match self.to_u64() {
            Some(x) => {
                if x <= u32::MAX as u64 {
                    Some(x as u32)
                } else {
                    None
                }
            },
            None => None,
        }
    }

    /// Attempt to narrow to `i64`.
    pub fn to_i64(&self) -> (r: Option<i64>)
        requires
            self.wf(),
        ensures
            r.is_some() <==> i64::MIN <= self.ival() <= i64::MAX,
            r.is_some() ==> r.unwrap() as int == self.ival(),
    {
        match self {
            StarlarkInt::Small(x) => Some(*x as i64),
            StarlarkInt::Big(b) => {
                proof {
                    lemma_limbs_val_lower(b.limbs@);
                    vstd::arithmetic::power::lemma_pow_positive(2, (32 * (b.limbs@.len() - 1)) as nat);
                }
                match Self::mag_u64(b) {
                    None => None,
                    Some(m) => {
                        if !b.negative {
                            if m <= i64::MAX as u64 {
                                Some(m as i64)
                            } else {
                                None
                            }
                        } else {
                            if m <= 0x8000_0000_0000_0000 {
                                if m == 0x8000_0000_0000_0000 {
                                    Some(i64::MIN)
                                } else {
                                    Some(-(m as i64))
                                }
                            } else {
                                None
                            }
                        }
                    },
                }
            },
        }
    }

    /// Attempt to narrow to `usize`.
    pub fn to_usize(&self) -> (r: Option<usize>)
        requires
            self.wf(),
        ensures
            r.is_some() <==> 0 <= self.ival() <= usize::MAX,
            r.is_some() ==> r.unwrap() as int == self.ival(),
    {
        match self.to_u64() {
            Some(x) => {
                if x <= usize::MAX as u64 {
                    Some(x as usize)
                } else {
                    None
                }
            },
            None => None,
        }
    }

    /// Attempt to narrow to `isize`.
    pub fn to_isize(&self) -> (r: Option<isize>)
        requires
            self.wf(),
        ensures
            r.is_some() <==> isize::MIN <= self.ival() <= isize::MAX,
            r.is_some() ==> r.unwrap() as int == self.ival(),
    {
        match self.to_i64() {
            Some(x) => {
                if x >= isize::MIN as i64 && x <= isize::MAX as i64 {
                    Some(x as isize)
                } else {
                    None
                }
            },
            None => None,
        }
    }

    /// An independent copy of the same mathematical value. Promotion to the
    /// arbitrary-precision native type never fails on range.
    pub fn dup(&self) -> (r: StarlarkInt)
        ensures
            r.ival() == self.ival(),
            r.wf() <==> self.wf(),
    {
        match self {
            StarlarkInt::Small(x) => StarlarkInt::Small(*x),
            StarlarkInt::Big(b) => {
                let mut limbs: Vec<u32> = Vec::with_capacity(b.limbs.len());
                let mut i: usize = 0;
                while i < b.limbs.len()
                    invariant
                        i <= b.limbs@.len(),
                        limbs@ =~= b.limbs@.subrange(0, i as int),
                    decreases b.limbs@.len() - i,
                {
                    limbs.push(b.limbs[i]);
                    i = i + 1;
                }
                proof {
                    assert(limbs@ =~= b.limbs@);
                }
                StarlarkInt::Big(BigNum { negative: b.negative, limbs })
            },
        }
    }
}

} // verus!
