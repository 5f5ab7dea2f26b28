//! Ordering of dynamic values.
//!
//! Records order by their sorted-by-key field lists, compared
//! lexicographically: repeatedly extract the least remaining key on each
//! side, compare the two keys, then the two values, and go on with the
//! rest. Values of different dynamic types do not order: that is the
//! absence case, which the record method surfaces as an error, as
//! relational operators on such pairs are unsupported.

use vstd::prelude::*;
use core::cmp::Ordering;
use crate::value::Value;
use crate::value::ValueView;
use crate::value::FieldsView;
use crate::value::StructGen;
use crate::value::fields_view_of;
use crate::value::views_of;
use crate::value::lemma_views_index;
use crate::value::lemma_fields_view_index;
use crate::value::lemma_wfs_index;
use crate::value::lemma_wf_fields_index;
use vstd::string::StrSliceExecFns;

verus! {

/// Lexicographic three-way comparison of character sequences.
pub open spec fn cmp_chars(a: Seq<char>, b: Seq<char>) -> Ordering
    decreases a.len(),
{
    if a.len() == 0 && b.len() == 0 {
        Ordering::Equal
    } else if a.len() == 0 {
        Ordering::Less
    } else if b.len() == 0 {
        Ordering::Greater
    } else if (a[0] as u32) < (b[0] as u32) {
        Ordering::Less
    } else if (a[0] as u32) > (b[0] as u32) {
        Ordering::Greater
    } else {
        cmp_chars(a.drop_first(), b.drop_first())
    }
}

/// The key stored at a field index, when in range.
pub open spec fn key_at(x: FieldsView, i: usize) -> Seq<char> {
    if i < x.len() {
        x[i as int].0
    } else {
        Seq::empty()
    }
}

/// Position, at or after `k`, of the first least key among the remaining
/// indices `rem` into the fields `x`.
pub open spec fn min_from(x: FieldsView, rem: Seq<usize>, k: int) -> int
    decreases rem.len() - k,
{
    if k >= rem.len() - 1 {
        k
    } else {
        let m = min_from(x, rem, k + 1);
        if cmp_chars(key_at(x, rem[k]), key_at(x, rem[m])) != Ordering::Greater {
            k
        } else {
            m
        }
    }
}

/// Three-way comparison of value models; `None` where the two dynamic
/// types do not order against each other.
pub open spec fn cmp_value(a: ValueView, b: ValueView) -> Option<Ordering>
    decreases a, 1int,
{
    match (a, b) {
        (ValueView::NoneType, ValueView::NoneType) => Some(Ordering::Equal),
        (ValueView::Bool(x), ValueView::Bool(y)) => Some(
            if x == y {
                Ordering::Equal
            } else if !x {
                Ordering::Less
            } else {
                Ordering::Greater
            },
        ),
        (ValueView::Int(x), ValueView::Int(y)) => Some(
            if x < y {
                Ordering::Less
            } else if x > y {
                Ordering::Greater
            } else {
                Ordering::Equal
            },
        ),
        (ValueView::Str(x), ValueView::Str(y)) => Some(cmp_chars(x, y)),
        (ValueView::List(x), ValueView::List(y)) => cmp_items(x, y),
        (ValueView::Struct(x), ValueView::Struct(y)) => cmp_struct_rem(
            x,
            y,
            Seq::new(x.len(), |i: int| i as usize),
            Seq::new(y.len(), |i: int| i as usize),
        ),
        _ => None,
    }
}

/// Lexicographic comparison of list items.
pub open spec fn cmp_items(x: Seq<ValueView>, y: Seq<ValueView>) -> Option<Ordering>
    decreases x, 0int,
{
    if x.len() == 0 && y.len() == 0 {
        Some(Ordering::Equal)
    } else if x.len() == 0 {
        Some(Ordering::Less)
    } else if y.len() == 0 {
        Some(Ordering::Greater)
    } else {
        match cmp_value(x[0], y[0]) {
            Option::None => None,
            Option::Some(o) => if o == Ordering::Equal {
                cmp_items(x.drop_first(), y.drop_first())
            } else {
                Some(o)
            },
        }
    }
}

/// Compare two records through their remaining field indices, least key
/// first on each side.
pub open spec fn cmp_struct_rem(
    x: FieldsView,
    y: FieldsView,
    rx: Seq<usize>,
    ry: Seq<usize>,
) -> Option<Ordering>
    decreases x, rx.len() via cmp_struct_rem_dec
{
    if rx.len() == 0 && ry.len() == 0 {
        Some(Ordering::Equal)
    } else if rx.len() == 0 {
        Some(Ordering::Less)
    } else if ry.len() == 0 {
        Some(Ordering::Greater)
    } else {
        let p = min_from(x, rx, 0);
        let q = min_from(y, ry, 0);
        if 0 <= p < rx.len() && 0 <= q < ry.len() && (rx[p] as int) < x.len() && (ry[q] as int)
            < y.len() {
            let i = rx[p] as int;
            let j = ry[q] as int;
            let kc = cmp_chars(x[i].0, y[j].0);
            if kc != Ordering::Equal {
                Some(kc)
            } else {
                match cmp_value(x[i].1, y[j].1) {
                    Option::None => None,
                    Option::Some(o) => if o == Ordering::Equal {
                        cmp_struct_rem(x, y, rx.remove(p), ry.remove(q))
                    } else {
                        Some(o)
                    },
                }
            }
        } else {
            None
        }
    }
}

#[via_fn]
proof fn cmp_struct_rem_dec(x: FieldsView, y: FieldsView, rx: Seq<usize>, ry: Seq<usize>) {
    if rx.len() > 0 && ry.len() > 0 {
        let p = min_from(x, rx, 0);
        if 0 <= p < rx.len() && (rx[p] as int) < x.len() {
            let i = rx[p] as int;
            assert(decreases_to!(x => x[i]));
            assert(decreases_to!(x[i] => x[i].1));
            assert(decreases_to!(x => x[i].1));
            assert(rx.remove(p).len() < rx.len());
        }
    }
}

/// Lexicographic three-way comparison of two strings.
#[verifier::loop_isolation(false)]
pub fn str_cmp(a: &str, b: &str) -> (r: Ordering)
    ensures
        r == cmp_chars(a@, b@),
{
    let na = a.unicode_len();
    let nb = b.unicode_len();
    let n = if na < nb {
        na
    } else {
        nb
    };
    let mut i: usize = 0;
    proof {
        assert(a@.subrange(0, na as int) =~= a@);
        assert(b@.subrange(0, nb as int) =~= b@);
    }
    while i < n
        invariant
            na == a@.len(),
            nb == b@.len(),
            i <= n,
            cmp_chars(a@, b@) == cmp_chars(a@.subrange(i as int, na as int), b@.subrange(i as int, nb as int)),
        decreases n - i,
    {
        let ca = a.get_char(i);
        let cb = b.get_char(i);
        let ghost sa = a@.subrange(i as int, na as int);
        let ghost sb = b@.subrange(i as int, nb as int);
        proof {
            assert(sa[0] == a@[i as int]);
            assert(sb[0] == b@[i as int]);
            assert(sa.drop_first() =~= a@.subrange(i + 1, na as int));
            assert(sb.drop_first() =~= b@.subrange(i + 1, nb as int));
        }
        if (ca as u32) < (cb as u32) {
            return Ordering::Less;
        }
        if (ca as u32) > (cb as u32) {
            return Ordering::Greater;
        }
        i = i + 1;
    }
    proof {
        let sa = a@.subrange(n as int, na as int);
        let sb = b@.subrange(n as int, nb as int);
        assert(sa.len() == 0 || sb.len() == 0);
    }
    if na == nb {
        Ordering::Equal
    } else if na < nb {
        Ordering::Less
    } else {
        Ordering::Greater
    }
}

/// Position of the first least remaining key, mirroring `min_from`.
fn min_from_exec(x: &Vec<(String, Value)>, rem: &Vec<usize>, k: usize) -> (r: usize)
    requires
        k < rem@.len(),
        forall|p: int| 0 <= p < rem@.len() ==> (#[trigger] rem@[p]) < x@.len(),
    ensures
        r as int == min_from(fields_view_of(x@), rem@, k as int),
        k <= r < rem@.len(),
    decreases rem@.len() - k,
{
    proof {
        lemma_fields_view_index(x@);
    }
    if k >= rem.len() - 1 {
        k
    } else {
        let m = min_from_exec(x, rem, k + 1);
        let c = str_cmp(x[rem[k]].0.as_str(), x[rem[m]].0.as_str());
        proof {
            let fx = fields_view_of(x@);
            assert(key_at(fx, rem@[k as int]) == x@[rem@[k as int] as int].0@);
            assert(key_at(fx, rem@[m as int]) == x@[rem@[m as int] as int].0@);
        }
        match c {
            Ordering::Greater => m,
            _ => k,
        }
    }
}

/// Compare two field lists through their remaining indices.
fn cmp_struct_exec(
    x: &Vec<(String, Value)>,
    y: &Vec<(String, Value)>,
    rx: Vec<usize>,
    ry: Vec<usize>,
) -> (r: Option<Ordering>)
    requires
        crate::value::wf_fields_of(x@),
        crate::value::wf_fields_of(y@),
        forall|p: int| 0 <= p < rx@.len() ==> (#[trigger] rx@[p]) < x@.len(),
        forall|p: int| 0 <= p < ry@.len() ==> (#[trigger] ry@[p]) < y@.len(),
    ensures
        r == cmp_struct_rem(fields_view_of(x@), fields_view_of(y@), rx@, ry@),
    decreases x@, rx@.len(),
{
    let ghost fx = fields_view_of(x@);
    let ghost fy = fields_view_of(y@);
    proof {
        lemma_fields_view_index(x@);
        lemma_fields_view_index(y@);
        lemma_wf_fields_index(x@);
        lemma_wf_fields_index(y@);
    }
    if rx.len() == 0 && ry.len() == 0 {
        Some(Ordering::Equal)
    } else if rx.len() == 0 {
        Some(Ordering::Less)
    } else if ry.len() == 0 {
        Some(Ordering::Greater)
    } else {
        let p = min_from_exec(x, &rx, 0);
        let q = min_from_exec(y, &ry, 0);
        let i = rx[p];
        let j = ry[q];
        let kc = str_cmp(x[i].0.as_str(), y[j].0.as_str());
        match kc {
            Ordering::Equal => {
                proof {
                    assert(decreases_to!(x@ => x@[i as int]));
                    assert(decreases_to!(x@[i as int] => x@[i as int].1));
                    assert(decreases_to!(x@ => x@[i as int].1));
                }
                match x[i].1.compare(&y[j].1) {
                    Option::None => None,
                    Option::Some(o) => {
                        match o {
                            Ordering::Equal => {
                                let mut rx2 = rx;
                                let mut ry2 = ry;
                                rx2.remove(p);
                                ry2.remove(q);
                                proof {
                                    assert(rx2@ =~= rx@.remove(p as int));
                                    assert(ry2@ =~= ry@.remove(q as int));
                                }
                                cmp_struct_exec(x, y, rx2, ry2)
                            },
                            _ => Some(o),
                        }
                    },
                }
            },
            _ => Some(kc),
        }
    }
}

impl Value {
    /// Three-way comparison with another value; absent where the dynamic
    /// types do not order against each other.
    #[verifier::loop_isolation(false)]
    pub fn compare(&self, other: &Value) -> (r: Option<Ordering>)
        requires
            self.wf(),
            other.wf(),
        ensures
            r == cmp_value(self@, other@),
        decreases *self, 0int,
    {
        match (self, other) {
            (Value::NoneType, Value::NoneType) => Some(Ordering::Equal),
            (Value::Bool(x), Value::Bool(y)) => Some(
                if *x == *y {
                    Ordering::Equal
                } else if !*x {
                    Ordering::Less
                } else {
                    Ordering::Greater
                },
            ),
            (Value::Int(x), Value::Int(y)) => Some(Self::int_cmp(x, y)),
            (Value::Str(x), Value::Str(y)) => Some(str_cmp(x.as_str(), y.as_str())),
            (Value::List(xs), Value::List(ys)) => {
                proof {
                    assert(decreases_to!(*self => (*self)->List_0));
                    assert((*self)->List_0 == *xs);
                    assert(decreases_to!(*xs => xs@));
                    lemma_views_index(xs@);
                    lemma_views_index(ys@);
                    lemma_wfs_index(xs@);
                    lemma_wfs_index(ys@);
                }
                let r = Self::cmp_items_exec(xs, ys, 0);
                proof {
                    assert(views_of(xs@).subrange(0, xs@.len() as int) =~= views_of(xs@));
                    assert(views_of(ys@).subrange(0, ys@.len() as int) =~= views_of(ys@));
                }
                r
            },
            (Value::Struct(sa), Value::Struct(sb)) => {
                proof {
                    assert(decreases_to!(*self => (*self)->Struct_0));
                    assert((*self)->Struct_0 == *sa);
                    assert(decreases_to!(*sa => sa.fields));
                    assert(decreases_to!(sa.fields => sa.fields@));
                }
                let rx = index_vec(sa.fields.len());
                let ry = index_vec(sb.fields.len());
                proof {
                    lemma_fields_view_index(sa.fields@);
                    lemma_fields_view_index(sb.fields@);
                    assert(rx@ == Seq::new(fields_view_of(sa.fields@).len(), |i: int| i as usize));
                    assert(ry@ == Seq::new(fields_view_of(sb.fields@).len(), |i: int| i as usize));
                }
                cmp_struct_exec(&sa.fields, &sb.fields, rx, ry)
            },
            _ => None,
        }
    }

    /// Three-way comparison of integer backings by mathematical value.
    fn int_cmp(a: &crate::int_or_big::StarlarkInt, b: &crate::int_or_big::StarlarkInt) -> (r:
        Ordering)
        requires
            a.wf(),
            b.wf(),
        ensures
            a.ival() < b.ival() ==> r == Ordering::Less,
            a.ival() > b.ival() ==> r == Ordering::Greater,
            a.ival() == b.ival() ==> r == Ordering::Equal,
    {
        proof {
            match a {
                crate::int_or_big::StarlarkInt::Big(ba) => {
                    crate::int_or_big::lemma_limbs_val_lower(ba.limbs@);
                    vstd::arithmetic::power2::lemma_pow2_pos((32 * (ba.limbs@.len() - 1)) as nat);
                },
                _ => {},
            }
            match b {
                crate::int_or_big::StarlarkInt::Big(bb) => {
                    crate::int_or_big::lemma_limbs_val_lower(bb.limbs@);
                    vstd::arithmetic::power2::lemma_pow2_pos((32 * (bb.limbs@.len() - 1)) as nat);
                },
                _ => {},
            }
        }
        match (a, b) {
            (crate::int_or_big::StarlarkInt::Small(x), crate::int_or_big::StarlarkInt::Small(y)) => {
                if *x < *y {
                    Ordering::Less
                } else if *x > *y {
                    Ordering::Greater
                } else {
                    Ordering::Equal
                }
            },
            (crate::int_or_big::StarlarkInt::Small(_), crate::int_or_big::StarlarkInt::Big(bb)) => {
                if bb.negative {
                    Ordering::Greater
                } else {
                    Ordering::Less
                }
            },
            (crate::int_or_big::StarlarkInt::Big(ba), crate::int_or_big::StarlarkInt::Small(_)) => {
                if ba.negative {
                    Ordering::Less
                } else {
                    Ordering::Greater
                }
            },
            (crate::int_or_big::StarlarkInt::Big(ba), crate::int_or_big::StarlarkInt::Big(bb)) => {
                if ba.negative && !bb.negative {
                    Ordering::Less
                } else if !ba.negative && bb.negative {
                    Ordering::Greater
                } else if !ba.negative {
                    crate::int_or_big::cmp_mag(&ba.limbs, &bb.limbs)
                } else {
                    match crate::int_or_big::cmp_mag(&ba.limbs, &bb.limbs) {
                        Ordering::Less => Ordering::Greater,
                        Ordering::Greater => Ordering::Less,
                        Ordering::Equal => Ordering::Equal,
                    }
                }
            },
        }
    }

    /// Lexicographic comparison of list tails from one position on.
    fn cmp_items_exec(xs: &Vec<Value>, ys: &Vec<Value>, k: usize) -> (r: Option<Ordering>)
        requires
            crate::value::wfs_of(xs@),
            crate::value::wfs_of(ys@),
            k <= xs@.len(),
            k <= ys@.len(),
        ensures
            r == cmp_items(
                views_of(xs@).subrange(k as int, xs@.len() as int),
                views_of(ys@).subrange(k as int, ys@.len() as int),
            ),
        decreases xs@, xs@.len() - k,
    {
        proof {
            lemma_views_index(xs@);
            lemma_views_index(ys@);
            lemma_wfs_index(xs@);
            lemma_wfs_index(ys@);
        }
        let ghost sx = views_of(xs@).subrange(k as int, xs@.len() as int);
        let ghost sy = views_of(ys@).subrange(k as int, ys@.len() as int);
        if k == xs.len() && k == ys.len() {
            Some(Ordering::Equal)
        } else if k == xs.len() {
            Some(Ordering::Less)
        } else if k == ys.len() {
            Some(Ordering::Greater)
        } else {
            proof {
                assert(sx[0] == views_of(xs@)[k as int]);
                assert(sy[0] == views_of(ys@)[k as int]);
            }
            proof {
                assert(decreases_to!(xs@ => xs@[k as int]));
            }
            match xs[k].compare(&ys[k]) {
                Option::None => None,
                Option::Some(o) => {
                    match o {
                        Ordering::Equal => {
                            let rest = Self::cmp_items_exec(xs, ys, k + 1);
                            proof {
                                assert(sx.drop_first() =~= views_of(xs@).subrange(
                                    k + 1,
                                    xs@.len() as int,
                                ));
                                assert(sy.drop_first() =~= views_of(ys@).subrange(
                                    k + 1,
                                    ys@.len() as int,
                                ));
                            }
                            rest
                        },
                        _ => Some(o),
                    }
                },
            }
        }
    }
}

/// The indices `0 .. n`.
fn index_vec(n: usize) -> (r: Vec<usize>)
    ensures
        r@ =~= Seq::new(n as nat, |i: int| i as usize),
{
    let mut r: Vec<usize> = Vec::with_capacity(n);
    let mut i: usize = 0;
    while i < n
        invariant
            i <= n,
            r@ =~= Seq::new(i as nat, |p: int| p as usize),
        decreases n - i,
    {
        r.push(i);
        i = i + 1;
    }
    r
}

/// An error from an unsupported operation on a value.
#[derive(Clone, Copy, Debug, PartialEq, Eq, Structural)]
pub enum ValueError {
    /// Relational comparison is not supported between these values.
    Unsupported,
}

impl StructGen<Value> {
    /// Compare this record with another value: records order by their
    /// sorted-by-key field lists; anything else is unsupported.
    pub fn compare(&self, other: &Value) -> (r: Result<Ordering, ValueError>)
        requires
            self.wf(),
            other.wf(),
        ensures
            match r {
                Ok(o) => cmp_value(ValueView::Struct(self@), other@) == Some(o),
                Err(_) => cmp_value(ValueView::Struct(self@), other@) is None,
            },
    {
        match other {
            Value::Struct(sb) => {
                let rx = index_vec(self.fields.len());
                let ry = index_vec(sb.fields.len());
                proof {
                    lemma_fields_view_index(self.fields@);
                    lemma_fields_view_index(sb.fields@);
                    assert(rx@ == Seq::new(fields_view_of(self.fields@).len(), |i: int| i as usize));
                    assert(ry@ == Seq::new(fields_view_of(sb.fields@).len(), |i: int| i as usize));
                }
                match cmp_struct_exec(&self.fields, &sb.fields, rx, ry) {
                    Option::Some(o) => Ok(o),
                    Option::None => Err(ValueError::Unsupported),
                }
            },
            _ => Err(ValueError::Unsupported),
        }
    }
}

} // verus!
