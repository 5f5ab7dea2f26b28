//! Hashing of dynamic values.
//!
//! Equality of records is order-independent, so hashing must be too: a
//! record's hash combines one contribution per field — mixing the key's
//! hash with the value's recursive hash — with an order-insensitive
//! combiner (a modular sum). The law that equal values hash equally is
//! proved below; without the insensitive combiner, two records built with
//! the same fields in different orders could be equal yet hash apart.

use vstd::prelude::*;
use vstd::arithmetic::div_mod::lemma_add_mod_noop;
use vstd::arithmetic::div_mod::lemma_mod_twice;
use crate::value::Value;
use crate::value::ValueView;
use crate::value::FieldsView;
use crate::value::StructGen;
use crate::value::field_keys;
use crate::value::fields_view_of;
use crate::value::views_of;
use crate::int_or_big::limbs_val;
use crate::value::view_wf;
use crate::value::views_wf;
use crate::value::fields_vwf;
use crate::value::lemma_views_index;
use crate::value::lemma_fields_view_index;
use crate::value::lemma_wfs_index;
use crate::value::lemma_wf_fields_index;
use crate::value::lemma_fields_vwf_index;
use crate::cmp::eq_view;
use crate::cmp::eq_views;
use crate::cmp::sub_match;
use crate::cmp::key_found_eq;
use crate::cmp::lemma_key_found_eq_iff;
use crate::cmp::lemma_sub_match_iff;
use vstd::string::StrSliceExecFns;

verus! {

/// One mixing step of the hash state.
pub open spec fn mix(h: u64, x: u64) -> u64 {
    (((h as int) * 31 + x) % 0x1_0000_0000_0000_0000) as u64
}

/// Hash of a field name.
pub open spec fn str_hash(s: Seq<char>) -> u64
    decreases s.len(),
{
    if s.len() == 0 {
        7
    } else {
        mix(str_hash(s.drop_last()), s.last() as u64)
    }
}

/// Recursive hash of a value model.
pub open spec fn hash_of(v: ValueView) -> u64
    decreases v, 1int,
{
    match v {
        ValueView::NoneType => 11,
        ValueView::Bool(b) => if b {
            13
        } else {
            12
        },
        ValueView::Int(i) => (i % 0x1_0000_0000_0000_0000) as u64,
        ValueView::Str(s) => mix(17, str_hash(s)),
        ValueView::List(xs) => mix(19, list_hash(xs)),
        ValueView::Struct(fs) => mix(23, (fields_hash_sum(fs) % 0x1_0000_0000_0000_0000) as u64),
    }
}

/// Order-sensitive hash of list items.
pub open spec fn list_hash(xs: Seq<ValueView>) -> u64
    decreases xs, 0int,
{
    if xs.len() == 0 {
        29
    } else {
        mix(list_hash(xs.drop_last()), hash_of(xs.last()))
    }
}

/// One field's contribution: the key's hash mixed with the value's hash.
pub open spec fn field_hash(kv: (Seq<char>, ValueView)) -> u64
    decreases kv, 0int,
{
    mix(str_hash(kv.0), hash_of(kv.1))
}

/// Order-insensitive combination of the fields' contributions.
pub open spec fn fields_hash_sum(fs: FieldsView) -> int
    decreases fs, 0int,
{
    if fs.len() == 0 {
        0
    } else {
        fields_hash_sum(fs.drop_last()) + field_hash(fs.last())
    }
}

/// Removing one field splits the sum.
pub proof fn lemma_sum_remove(fs: FieldsView, j: int)
    requires
        0 <= j < fs.len(),
    ensures
        fields_hash_sum(fs) == fields_hash_sum(fs.remove(j)) + field_hash(fs[j]),
    decreases fs.len(),
{
    if j == fs.len() - 1 {
        assert(fs.remove(j) =~= fs.drop_last());
    } else {
        let t = fs.drop_last();
        lemma_sum_remove(t, j);
        assert(fs.remove(j).drop_last() =~= t.remove(j));
        assert(fs.remove(j).last() == fs.last());
        assert(fields_hash_sum(fs.remove(j)) == fields_hash_sum(t.remove(j)) + field_hash(
            fs.last(),
        ));
    }
}

/// Equal values hash equally.
pub proof fn lemma_hash_consistent(a: ValueView, b: ValueView)
    requires
        view_wf(a),
        view_wf(b),
        eq_view(a, b),
    ensures
        hash_of(a) == hash_of(b),
    decreases a, 2int,
{
    match (a, b) {
        (ValueView::List(xs), ValueView::List(ys)) => {
            lemma_list_hash_consistent(xs, ys);
        },
        (ValueView::Struct(x), ValueView::Struct(y)) => {
            lemma_sum_consistent(x, y);
        },
        _ => {},
    }
}

/// Pointwise-equal lists hash equally.
pub proof fn lemma_list_hash_consistent(xs: Seq<ValueView>, ys: Seq<ValueView>)
    requires
        xs.len() == ys.len(),
        views_wf(xs),
        views_wf(ys),
        eq_views(xs, ys),
    ensures
        list_hash(xs) == list_hash(ys),
    decreases xs, 1int,
{
    if xs.len() > 0 {
        lemma_list_hash_consistent(xs.drop_last(), ys.drop_last());
        lemma_hash_consistent(xs.last(), ys.last());
    }
}

/// Equal records have equal contribution sums, whatever their field order.
pub proof fn lemma_sum_consistent(x: FieldsView, y: FieldsView)
    requires
        x.len() == y.len(),
        field_keys(x).no_duplicates(),
        field_keys(y).no_duplicates(),
        fields_vwf(x),
        fields_vwf(y),
        sub_match(x, y),
    ensures
        fields_hash_sum(x) == fields_hash_sum(y),
    decreases x, 1int,
{
    lemma_fields_vwf_index(x);
    lemma_fields_vwf_index(y);
    lemma_sub_match_iff(x, y);
    if x.len() > 0 {
        let kv = x.last();
        let xi = x.len() - 1;
        assert(key_found_eq(x[xi], y));
        lemma_key_found_eq_iff(kv, y);
        let j = choose|j: int|
            0 <= j < y.len() && kv.0 == (#[trigger] y[j]).0 && eq_view(kv.1, y[j].1);
        let t = x.drop_last();
        let u = y.remove(j);
        assert(forall|p: int| 0 <= p < t.len() ==> #[trigger] t[p] == x[p]);
        assert(forall|p: int| 0 <= p < j ==> #[trigger] u[p] == y[p]);
        assert(forall|p: int| j <= p < u.len() ==> #[trigger] u[p] == y[p + 1]);
        // keys of the remainders stay unique
        assert(field_keys(t) =~= field_keys(x).drop_last());
        assert(field_keys(u) =~= field_keys(y).remove(j));
        assert(field_keys(y).remove(j).no_duplicates()) by {
            let ks = field_keys(y);
            let kr = ks.remove(j);
            assert forall|p: int, q: int|
                0 <= p < kr.len() && 0 <= q < kr.len() && p != q implies kr[p] != kr[q] by {
                let p0 = if p < j { p } else { p + 1 };
                let q0 = if q < j { q } else { q + 1 };
                assert(kr[p] == ks[p0]);
                assert(kr[q] == ks[q0]);
            }
        }
        assert(fields_vwf(t)) by {
            lemma_fields_vwf_index(t);
        }
        assert(fields_vwf(u)) by {
            lemma_fields_vwf_index(u);
        }
        // every remaining field of x still matches within the remainder of y
        lemma_sub_match_iff(t, u);
        assert forall|p: int| 0 <= p < t.len() implies key_found_eq(#[trigger] t[p], u) by {
            assert(key_found_eq(x[p], y));
            lemma_key_found_eq_iff(x[p], y);
            let jp = choose|q: int|
                0 <= q < y.len() && x[p].0 == (#[trigger] y[q]).0 && eq_view(x[p].1, y[q].1);
            assert(field_keys(x)[p] == x[p].0);
            assert(field_keys(x)[xi] == x[xi].0);
            assert(x[p].0 != kv.0);
            assert(jp != j) by {
                if jp == j {
                    assert(x[p].0 == y[j].0);
                }
            }
            let jq = if jp < j {
                jp
            } else {
                jp - 1
            };
            assert(u[jq] == y[jp]);
            lemma_key_found_eq_iff(t[p], u);
            assert(0 <= jq < u.len() && t[p].0 == (u[jq]).0 && eq_view(t[p].1, u[jq].1));
        }
        lemma_sum_consistent(t, u);
        lemma_sum_remove(y, j);
        lemma_hash_consistent(kv.1, y[j].1);
        assert(field_hash(kv) == field_hash(y[j]));
    } else {
        assert(y.len() == 0);
    }
}

/// Accumulates the hash of an object graph.
pub struct StarlarkHasher {
    state: u64,
}

impl View for StarlarkHasher {
    type V = u64;

    closed spec fn view(&self) -> u64 {
        self.state
    }
}

impl StarlarkHasher {
    /// A fresh hasher.
    pub fn new() -> (r: StarlarkHasher)
        ensures
            r@ == 0,
    {
        StarlarkHasher { state: 0 }
    }

    /// Mix one word into the state.
    pub fn update(&mut self, x: u64)
        ensures
            final(self)@ == mix(old(self)@, x),
    {
        let t: u128 = (self.state as u128) * 31 + (x as u128);
        self.state = (t % 0x1_0000_0000_0000_0000u128) as u64;
    }

    /// The accumulated state.
    pub fn finish(&self) -> (r: u64)
        ensures
            r == self@,
    {
        self.state
    }
}

/// Hash of a string's characters.
#[verifier::loop_isolation(false)]
fn str_hash_exec(s: &str) -> (r: u64)
    ensures
        r == str_hash(s@),
{
    let n = s.unicode_len();
    let mut h: u64 = 7;
    let mut i: usize = 0;
    while i < n
        invariant
            n == s@.len(),
            i <= n,
            h == str_hash(s@.subrange(0, i as int)),
        decreases n - i,
    {
        let c = s.get_char(i);
        let t: u128 = (h as u128) * 31 + ((c as u32) as u128);
        h = (t % 0x1_0000_0000_0000_0000u128) as u64;
        proof {
            let pre = s@.subrange(0, i as int);
            let nxt = s@.subrange(0, i + 1);
            assert(nxt.drop_last() =~= pre);
            assert(nxt.last() == s@[i as int]);
            assert(h == mix(str_hash(pre), s@[i as int] as u64));
        }
        i = i + 1;
    }
    proof {
        assert(s@.subrange(0, n as int) =~= s@);
    }
    h
}

impl Value {
    /// The hash of this value.
    #[verifier::loop_isolation(false)]
    pub fn hash_value(&self) -> (r: u64)
        requires
            self.wf(),
        ensures
            r == hash_of(self@),
        decreases *self,
    {
        match self {
            Value::NoneType => 11,
            Value::Bool(b) => if *b {
                13
            } else {
                12
            },
            Value::Int(si) => {
                proof {
                    vstd::arithmetic::div_mod::lemma_mod_bound(
                        si.ival(),
                        0x1_0000_0000_0000_0000,
                    );
                }
                Self::int_hash(si)
            },
            Value::Str(s) => {
                let h = str_hash_exec(s.as_str());
                let t: u128 = (17 as u128) * 31 + (h as u128);
                (t % 0x1_0000_0000_0000_0000u128) as u64
            },
            Value::List(xs) => {
                proof {
                    assert(decreases_to!(*self => (*self)->List_0));
                    assert((*self)->List_0 == *xs);
                    assert(decreases_to!(*xs => xs@));
                    lemma_views_index(xs@);
                    lemma_wfs_index(xs@);
                }
                let ghost vs = views_of(xs@);
                let n = xs.len();
                let mut h: u64 = 29;
                let mut i: usize = 0;
                while i < n
                    invariant
                        i <= n,
                        h == list_hash(vs.subrange(0, i as int)),
                    decreases n - i,
                {
                    proof {
                        assert(decreases_to!(xs@ => xs@[i as int]));
                    }
                    let vh = xs[i].hash_value();
                    let t: u128 = (h as u128) * 31 + (vh as u128);
                    h = (t % 0x1_0000_0000_0000_0000u128) as u64;
                    proof {
                        let pre = vs.subrange(0, i as int);
                        let nxt = vs.subrange(0, i + 1);
                        assert(nxt.drop_last() =~= pre);
                        assert(nxt.last() == vs[i as int]);
                        assert(h == mix(list_hash(pre), hash_of(vs[i as int])));
                    }
                    i = i + 1;
                }
                proof {
                    assert(vs.subrange(0, n as int) =~= vs);
                }
                let t: u128 = (19 as u128) * 31 + (h as u128);
                (t % 0x1_0000_0000_0000_0000u128) as u64
            },
            Value::Struct(st) => {
                proof {
                    assert(decreases_to!(*self => (*self)->Struct_0));
                    assert((*self)->Struct_0 == *st);
                    assert(decreases_to!(*st => st.fields));
                    assert(decreases_to!(st.fields => st.fields@));
                }
                let acc = fields_sum_exec(&st.fields);
                let t: u128 = (23 as u128) * 31 + (acc as u128);
                (t % 0x1_0000_0000_0000_0000u128) as u64
            },
        }
    }

    /// Hash of an integer backing: the mathematical value reduced modulo
    /// the word size, so both variants of an equal value agree.
    fn int_hash(si: &crate::int_or_big::StarlarkInt) -> (r: u64)
        requires
            si.wf(),
        ensures
            r as int == si.ival() % 0x1_0000_0000_0000_0000,
    {
        match si {
            crate::int_or_big::StarlarkInt::Small(x) => {
                if *x >= 0 {
                    proof {
                        vstd::arithmetic::div_mod::lemma_small_mod(
                            *x as nat,
                            0x1_0000_0000_0000_0000,
                        );
                    }
                    *x as u64
                } else {
                    let mag: u64 = (-(*x as i64)) as u64;
                    proof {
                        vstd::arithmetic::div_mod::lemma_small_mod(
                            mag as nat,
                            0x1_0000_0000_0000_0000,
                        );
                        lemma_neg_mod(mag as int, mag as int);
                    }
                    (u64::MAX - mag) + 1
                }
            },
            crate::int_or_big::StarlarkInt::Big(_) => Self::int_hash_wide(si),
        }
    }

    /// Reduce a wide or negative backing modulo 2^64. Only the two low
    /// digits of the magnitude matter, since every higher digit carries a
    /// multiple of 2^64.
    fn int_hash_wide(si: &crate::int_or_big::StarlarkInt) -> (r: u64)
        requires
            si.wf(),
            si matches crate::int_or_big::StarlarkInt::Big(_),
        ensures
            r as int == si.ival() % 0x1_0000_0000_0000_0000,
    {
        match si {
            crate::int_or_big::StarlarkInt::Small(_) => vstd::pervasive::unreached(),
            crate::int_or_big::StarlarkInt::Big(b) => {
                let lo: u64 = b.limbs[0] as u64;
                let hi: u64 = if b.limbs.len() >= 2 {
                    b.limbs[1] as u64
                } else {
                    0
                };
                let mm: u64 = lo + hi * 0x1_0000_0000;
                proof {
                    lemma_limbs_low_mod(b.limbs@);
                    assert(mm as int == limbs_val(b.limbs@) % 0x1_0000_0000_0000_0000);
                }
                if !b.negative {
                    mm
                } else {
                    let r: u64 = if mm == 0 {
                        0
                    } else {
                        (u64::MAX - mm) + 1
                    };
                    proof {
                        crate::int_or_big::lemma_limbs_val_nonneg(b.limbs@);
                        lemma_neg_mod(limbs_val(b.limbs@), mm as int);
                    }
                    r
                }
            },
        }
    }

    /// Mix this value's hash into the hasher    /// Mix this value's hash into the hasher, as the capability surface
    /// offers it.
    pub fn write_hash(&self, hasher: &mut StarlarkHasher)
        requires
            self.wf(),
        ensures
            final(hasher)@ == mix(old(hasher)@, hash_of(self@)),
    {
        let h = self.hash_value();
        hasher.update(h);
    }
}

impl StructGen<Value> {
    /// Mix this record's hash into the hasher.
    pub fn write_hash(&self, hasher: &mut StarlarkHasher)
        requires
            self.wf(),
        ensures
            final(hasher)@ == mix(old(hasher)@, hash_of(ValueView::Struct(self@))),
    {
        let acc = fields_sum_exec(&self.fields);
        let t: u128 = (23 as u128) * 31 + (acc as u128);
        let h: u64 = (t % 0x1_0000_0000_0000_0000u128) as u64;
        hasher.update(h);
    }
}

/// The fields' summed contributions, reduced modulo the word size.
#[verifier::loop_isolation(false)]
fn fields_sum_exec(fields: &Vec<(String, Value)>) -> (r: u64)
    requires
        crate::value::wf_fields_of(fields@),
    ensures
        r as int == fields_hash_sum(fields_view_of(fields@)) % 0x1_0000_0000_0000_0000,
    decreases fields@,
{
    let ghost fs = fields_view_of(fields@);
    proof {
        lemma_fields_view_index(fields@);
        lemma_wf_fields_index(fields@);
    }
    let n = fields.len();
    let mut acc: u64 = 0;
    let mut i: usize = 0;
    while i < n
        invariant
            i <= n,
            acc as int == fields_hash_sum(fs.subrange(0, i as int)) % 0x1_0000_0000_0000_0000,
        decreases n - i,
    {
        let kh = str_hash_exec(fields[i].0.as_str());
        proof {
            assert(decreases_to!(fields@ => fields@[i as int]));
            assert(decreases_to!(fields@[i as int] => fields@[i as int].1));
        }
        let vh = fields[i].1.hash_value();
        let tm: u128 = (kh as u128) * 31 + (vh as u128);
        let fh: u64 = (tm % 0x1_0000_0000_0000_0000u128) as u64;
        proof {
            assert(fh == field_hash(fs[i as int]));
        }
        let ts: u128 = (acc as u128) + (fh as u128);
        let newacc: u64 = (ts % 0x1_0000_0000_0000_0000u128) as u64;
        proof {
            let pre = fs.subrange(0, i as int);
            let nxt = fs.subrange(0, i + 1);
            assert(nxt.drop_last() =~= pre);
            assert(nxt.last() == fs[i as int]);
            assert(fields_hash_sum(nxt) == fields_hash_sum(pre) + field_hash(fs[i as int]));
            lemma_add_mod_noop(
                fields_hash_sum(pre),
                field_hash(fs[i as int]) as int,
                0x1_0000_0000_0000_0000,
            );
            lemma_mod_twice(field_hash(fs[i as int]) as int, 0x1_0000_0000_0000_0000);
            assert(newacc as int == fields_hash_sum(nxt) % 0x1_0000_0000_0000_0000);
        }
        acc = newacc;
        i = i + 1;
    }
    proof {
        assert(fs.subrange(0, n as int) =~= fs);
    }
    acc
}

/// The two low digits carry a value's residue modulo 2^64.
proof fn lemma_limbs_low_mod(s: Seq<u32>)
    requires
        s.len() >= 1,
    ensures
        limbs_val(s) % 0x1_0000_0000_0000_0000 == s[0] + 0x1_0000_0000 * (
        if s.len() >= 2 {
            s[1] as int
        } else {
            0
        }),
{
    let m: int = 0x1_0000_0000_0000_0000;
    let low: int = s[0] + 0x1_0000_0000 * (
    if s.len() >= 2 {
        s[1] as int
    } else {
        0
    });
    if s.len() == 1 {
        crate::int_or_big::lemma_limbs_val_two(s);
        vstd::arithmetic::div_mod::lemma_small_mod(limbs_val(s) as nat, m as nat);
    } else {
        let t = s.subrange(1, s.len() as int);
        let t2 = s.subrange(2, s.len() as int);
        assert(t.subrange(1, t.len() as int) =~= t2);
        assert(limbs_val(s) == s[0] + 0x1_0000_0000 * limbs_val(t));
        assert(limbs_val(t) == t[0] + 0x1_0000_0000 * limbs_val(t2));
        assert(t[0] == s[1]);
        assert(limbs_val(s) == low + m * limbs_val(t2)) by (nonlinear_arith)
            requires
                limbs_val(s) == s[0] + 0x1_0000_0000 * limbs_val(t),
                limbs_val(t) == s[1] + 0x1_0000_0000 * limbs_val(t2),
                low == s[0] + 0x1_0000_0000 * (s[1] as int),
                m == 0x1_0000_0000_0000_0000,
        ;
        crate::int_or_big::lemma_limbs_val_nonneg(t2);
        vstd::arithmetic::div_mod::lemma_mod_multiples_vanish(limbs_val(t2), low, m);
        vstd::arithmetic::div_mod::lemma_small_mod(low as nat, m as nat);
    }
}

/// Euclidean residue of a negated magnitude.
proof fn lemma_neg_mod(mag: int, mm: int)
    requires
        mag >= 0,
        mm == mag % 0x1_0000_0000_0000_0000,
    ensures
        (-mag) % 0x1_0000_0000_0000_0000 == (
        if mm == 0 {
            0int
        } else {
            0x1_0000_0000_0000_0000 - mm
        }),
{
    let m: int = 0x1_0000_0000_0000_0000;
    let k = mag / m;
    vstd::arithmetic::div_mod::lemma_fundamental_div_mod(mag, m);
    if mm == 0 {
        assert(-mag == m * (-k) + 0) by (nonlinear_arith)
            requires mag == m * k + mm, mm == 0,
        ;
        vstd::arithmetic::div_mod::lemma_fundamental_div_mod_converse(-mag, m, -k, 0);
    } else {
        assert(-mag == m * (-k - 1) + (m - mm)) by (nonlinear_arith)
            requires mag == m * k + mm,
        ;
        vstd::arithmetic::div_mod::lemma_fundamental_div_mod_converse(-mag, m, -k - 1, m - mm);
    }
}

} // verus!
