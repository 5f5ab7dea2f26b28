//! Equality of dynamic values.
//!
//! Two records are equal exactly when they have the same set of keys and,
//! for every key, pairwise-equal values: the order of storage is irrelevant
//! to equality. Numerically equal integers compare equal whichever backing
//! variant holds them, since the model collapses both to the mathematical
//! value.

use vstd::prelude::*;
use crate::value::Value;
use crate::value::ValueView;
use crate::value::FieldsView;
use crate::value::StructGen;
use crate::value::field_keys;
use crate::value::fields_view_of;
use crate::value::views_of;
use crate::value::view_wf;
use crate::value::lemma_views_index;
use crate::value::lemma_fields_view_index;
use crate::value::lemma_wfs_index;
use crate::value::lemma_wf_fields_index;
use crate::value::lemma_views_wf_index;
use crate::value::lemma_fields_vwf_index;
use crate::structs::find_key;
use crate::structs::str_eq;

verus! {

/// Equality of value models: records by key set and per-key values, lists
/// pointwise, integers by mathematical value.
pub open spec fn eq_view(a: ValueView, b: ValueView) -> bool
    decreases a, 2int,
{
    match (a, b) {
        (ValueView::NoneType, ValueView::NoneType) => true,
        (ValueView::Bool(x), ValueView::Bool(y)) => x == y,
        (ValueView::Int(x), ValueView::Int(y)) => x == y,
        (ValueView::Str(x), ValueView::Str(y)) => x == y,
        (ValueView::List(x), ValueView::List(y)) => x.len() == y.len() && eq_views(x, y),
        (ValueView::Struct(x), ValueView::Struct(y)) => x.len() == y.len() && sub_match(x, y),
        _ => false,
    }
}

/// Pointwise equality of two equally long item sequences.
pub open spec fn eq_views(x: Seq<ValueView>, y: Seq<ValueView>) -> bool
    decreases x, 1int,
{
    if x.len() == 0 || y.len() == 0 {
        true
    } else {
        eq_view(x.last(), y.last()) && eq_views(x.drop_last(), y.drop_last())
    }
}

/// Every field of `x` finds an equal value under its name in `y`.
pub open spec fn sub_match(x: FieldsView, y: FieldsView) -> bool
    decreases x, 1int,
{
    if x.len() == 0 {
        true
    } else {
        key_found_eq(x.last(), y) && sub_match(x.drop_last(), y)
    }
}

/// The first field of `y` named like `kv` holds an equal value.
pub open spec fn key_found_eq(kv: (Seq<char>, ValueView), y: FieldsView) -> bool
    decreases kv, y.len(),
{
    if y.len() == 0 {
        false
    } else if y[0].0 == kv.0 {
        eq_view(kv.1, y[0].1)
    } else {
        key_found_eq(kv, y.drop_first())
    }
}

/// `key_found_eq` restated with a witness, under unique keys in `y`.
pub proof fn lemma_key_found_eq_iff(kv: (Seq<char>, ValueView), y: FieldsView)
    requires
        field_keys(y).no_duplicates(),
    ensures
        key_found_eq(kv, y) <==> exists|j: int|
            0 <= j < y.len() && kv.0 == (#[trigger] y[j]).0 && eq_view(kv.1, y[j].1),
    decreases y.len(),
{
    if y.len() > 0 {
        let t = y.drop_first();
        assert(forall|j: int| 0 <= j < t.len() ==> #[trigger] t[j] == y[j + 1]);
        assert(field_keys(t) =~= field_keys(y).drop_first());
        if y[0].0 == kv.0 {
            if key_found_eq(kv, y) {
                assert(0 <= 0 < y.len() && kv.0 == (y[0]).0 && eq_view(kv.1, y[0].1));
            } else {
                assert forall|j: int|
                    0 <= j < y.len() && kv.0 == (#[trigger] y[j]).0 implies !eq_view(
                    kv.1,
                    y[j].1,
                ) by {
                    if j != 0 {
                        assert(field_keys(y)[0] == y[0].0);
                        assert(field_keys(y)[j] == y[j].0);
                    }
                }
            }
        } else {
            lemma_key_found_eq_iff(kv, t);
            if key_found_eq(kv, y) {
                let j = choose|j: int|
                    0 <= j < t.len() && kv.0 == (#[trigger] t[j]).0 && eq_view(kv.1, t[j].1);
                assert(0 <= j + 1 < y.len() && kv.0 == (y[j + 1]).0 && eq_view(kv.1, y[j + 1].1));
            } else {
                if exists|j: int|
                    0 <= j < y.len() && kv.0 == (#[trigger] y[j]).0 && eq_view(kv.1, y[j].1) {
                    let j = choose|j: int|
                        0 <= j < y.len() && kv.0 == (#[trigger] y[j]).0 && eq_view(kv.1, y[j].1);
                    assert(j != 0);
                    assert(0 <= j - 1 < t.len() && kv.0 == (t[j - 1]).0 && eq_view(
                        kv.1,
                        t[j - 1].1,
                    ));
                }
            }
        }
    }
}

/// `sub_match` restated pointwise.
pub proof fn lemma_sub_match_iff(x: FieldsView, y: FieldsView)
    ensures
        sub_match(x, y) <==> forall|i: int|
            0 <= i < x.len() ==> key_found_eq(#[trigger] x[i], y),
    decreases x.len(),
{
    if x.len() > 0 {
        let t = x.drop_last();
        lemma_sub_match_iff(t, y);
        assert(forall|i: int| 0 <= i < t.len() ==> #[trigger] t[i] == x[i]);
        if sub_match(x, y) {
            assert forall|i: int| 0 <= i < x.len() implies key_found_eq(#[trigger] x[i], y) by {
                if i < x.len() - 1 {
                    assert(key_found_eq(t[i], y));
                } else {
                    assert(key_found_eq(x.last(), y));
                }
            }
        } else {
            if sub_match(t, y) {
                assert(!key_found_eq(x[x.len() - 1], y));
            } else {
                assert(exists|i: int| 0 <= i < t.len() && !key_found_eq(#[trigger] t[i], y));
                let i = choose|i: int| 0 <= i < t.len() && !key_found_eq(#[trigger] t[i], y);
                assert(!key_found_eq(x[i], y));
            }
        }
    }
}

/// `eq_views` restated pointwise.
pub proof fn lemma_eq_views_iff(x: Seq<ValueView>, y: Seq<ValueView>)
    requires
        x.len() == y.len(),
    ensures
        eq_views(x, y) <==> forall|i: int| 0 <= i < x.len() ==> eq_view(#[trigger] x[i], y[i]),
    decreases x.len(),
{
    if x.len() > 0 {
        let tx = x.drop_last();
        let ty = y.drop_last();
        lemma_eq_views_iff(tx, ty);
        assert(forall|i: int| 0 <= i < tx.len() ==> #[trigger] tx[i] == x[i]);
        assert(forall|i: int| 0 <= i < ty.len() ==> #[trigger] ty[i] == y[i]);
        if eq_views(x, y) {
            assert forall|i: int| 0 <= i < x.len() implies eq_view(#[trigger] x[i], y[i]) by {
                if i < x.len() - 1 {
                    assert(eq_view(tx[i], ty[i]));
                } else {
                    assert(eq_view(x.last(), y.last()));
                }
            }
        } else {
            if eq_views(tx, ty) {
                assert(!eq_view(x[x.len() - 1], y[y.len() - 1]));
            } else {
                assert(exists|i: int|
                    0 <= i < tx.len() && !eq_view(#[trigger] tx[i], ty[i]));
                let i = choose|i: int| 0 <= i < tx.len() && !eq_view(#[trigger] tx[i], ty[i]);
                assert(!eq_view(x[i], y[i]));
            }
        }
    }
}

/// Equality is reflexive on models with unique record keys.
pub proof fn lemma_eq_view_refl(v: ValueView)
    requires
        view_wf(v),
    ensures
        eq_view(v, v),
    decreases v,
{
    match v {
        ValueView::List(xs) => {
            lemma_views_wf_index(xs);
            lemma_eq_views_iff(xs, xs);
            assert forall|i: int| 0 <= i < xs.len() implies eq_view(#[trigger] xs[i], xs[i]) by {
                lemma_eq_view_refl(xs[i]);
            }
        },
        ValueView::Struct(fs) => {
            lemma_fields_vwf_index(fs);
            lemma_sub_match_iff(fs, fs);
            assert forall|i: int| 0 <= i < fs.len() implies key_found_eq(#[trigger] fs[i], fs) by {
                lemma_eq_view_refl(fs[i].1);
                lemma_key_found_eq_iff(fs[i], fs);
                assert(0 <= i < fs.len() && fs[i].0 == (fs[i]).0 && eq_view(fs[i].1, fs[i].1));
            }
        },
        _ => {},
    }
}

/// Record equality is order-independent: a record holding the same fields
/// in any other order is equal to it.
pub proof fn lemma_equality_order_independent(x: FieldsView, y: FieldsView)
    requires
        x.len() == y.len(),
        field_keys(y).no_duplicates(),
        forall|i: int| 0 <= i < x.len() ==> y.contains(#[trigger] x[i]),
        forall|i: int| 0 <= i < x.len() ==> view_wf((#[trigger] x[i]).1),
    ensures
        eq_view(ValueView::Struct(x), ValueView::Struct(y)),
{
    lemma_sub_match_iff(x, y);
    assert forall|i: int| 0 <= i < x.len() implies key_found_eq(#[trigger] x[i], y) by {
        let j = choose|j: int| 0 <= j < y.len() && #[trigger] y[j] == x[i];
        lemma_eq_view_refl(x[i].1);
        lemma_key_found_eq_iff(x[i], y);
        assert(0 <= j < y.len() && x[i].0 == (y[j]).0 && eq_view(x[i].1, y[j].1));
    }
}

impl Value {
    /// Are the two values equal? Absence of a capability is never an error
    /// here: values of different dynamic types are simply unequal.
    #[verifier::loop_isolation(false)]
    pub fn equals(&self, other: &Value) -> (r: bool)
        requires
            self.wf(),
            other.wf(),
        ensures
            r == eq_view(self@, other@),
        decreases *self,
    {
        match (self, other) {
            (Value::NoneType, Value::NoneType) => true,
            (Value::Bool(x), Value::Bool(y)) => x == y,
            (Value::Int(x), Value::Int(y)) => x.eq_int(y),
            (Value::Str(x), Value::Str(y)) => str_eq(x.as_str(), y.as_str()),
            (Value::List(xs), Value::List(ys)) => {
                proof {
                    lemma_views_index(xs@);
                    lemma_views_index(ys@);
                    lemma_wfs_index(xs@);
                    lemma_wfs_index(ys@);
                }
                if xs.len() != ys.len() {
                    return false;
                }
                proof {
                    lemma_eq_views_iff(views_of(xs@), views_of(ys@));
                }
                let n = xs.len();
                let mut i: usize = 0;
                while i < n
                    invariant
                        i <= n,
                        forall|j: int|
                            0 <= j < i ==> eq_view(#[trigger] views_of(xs@)[j], views_of(ys@)[j]),
                    decreases n - i,
                {
                    proof {
                        assert(decreases_to!(*self => (*self)->List_0));
                        assert((*self)->List_0 == *xs);
                        assert(decreases_to!(*xs => xs@));
                        assert(decreases_to!(xs@ => xs@[i as int]));
                    }
                    if !xs[i].equals(&ys[i]) {
                        proof {
                            assert(!eq_view(views_of(xs@)[i as int], views_of(ys@)[i as int]));
                            assert(!eq_views(views_of(xs@), views_of(ys@)));
                            assert(!eq_view(self@, other@));
                        }
                        return false;
                    }
                    i = i + 1;
                }
                true
            },
            (Value::Struct(sa), Value::Struct(sb)) => {
                proof {
                    assert(decreases_to!(*self => (*self)->Struct_0));
                    assert((*self)->Struct_0 == *sa);
                    assert(decreases_to!(*sa => sa.fields));
                    assert(decreases_to!(sa.fields => sa.fields@));
                }
                fields_equal(&sa.fields, &sb.fields)
            },
            _ => false,
        }
    }
}

/// Order-independent equality of two field lists with unique keys.
#[verifier::loop_isolation(false)]
fn fields_equal(a: &Vec<(String, Value)>, b: &Vec<(String, Value)>) -> (r: bool)
    requires
        crate::value::wf_fields_of(a@),
        crate::value::wf_fields_of(b@),
        field_keys(fields_view_of(b@)).no_duplicates(),
    ensures
        r == eq_view(
            ValueView::Struct(fields_view_of(a@)),
            ValueView::Struct(fields_view_of(b@)),
        ),
    decreases a@,
{
    let ghost fa = fields_view_of(a@);
    let ghost fb = fields_view_of(b@);
    proof {
        lemma_fields_view_index(a@);
        lemma_fields_view_index(b@);
        lemma_wf_fields_index(a@);
        lemma_wf_fields_index(b@);
        lemma_sub_match_iff(fa, fb);
    }
    if a.len() != b.len() {
        return false;
    }
    let n = a.len();
    let mut i: usize = 0;
    while i < n
        invariant
            i <= n,
            forall|p: int| 0 <= p < i ==> key_found_eq(#[trigger] fa[p], fb),
        decreases n - i,
    {
        match find_key(b, a[i].0.as_str()) {
            None => {
                proof {
                    lemma_key_found_eq_iff(fa[i as int], fb);
                    assert forall|j: int| 0 <= j < fb.len() implies (#[trigger] fb[j]).0
                        != fa[i as int].0 by {
                        assert(b@[j].0@ != a@[i as int].0@);
                    }
                    assert(!key_found_eq(fa[i as int], fb));
                }
                return false;
            },
            Some(j) => {
                proof {
                    assert(fb[j as int].0 == fa[i as int].0);
                    assert(decreases_to!(a@ => a@[i as int]));
                    assert(decreases_to!(a@[i as int] => a@[i as int].1));
                }
                let eqv = a[i].1.equals(&b[j].1);
                proof {
                    lemma_key_found_eq_iff(fa[i as int], fb);
                    assert forall|j2: int|
                        0 <= j2 < fb.len() && (#[trigger] fb[j2]).0 == fa[i as int].0 implies j2
                        == j as int by {
                        if j2 != j as int {
                            assert(field_keys(fb)[j2] == fb[j2].0);
                            assert(field_keys(fb)[j as int] == fb[j as int].0);
                        }
                    }
                }
                if !eqv {
                    proof {
                        assert(!key_found_eq(fa[i as int], fb));
                    }
                    return false;
                }
                proof {
                    assert(0 <= (j as int) < fb.len() && fa[i as int].0 == (fb[j as int]).0
                        && eq_view(fa[i as int].1, fb[j as int].1));
                    assert(key_found_eq(fa[i as int], fb));
                }
            },
        }
        i = i + 1;
    }
    true
}

impl StructGen<Value> {
    /// Is this record equal to the given value? A non-record is unequal.
    pub fn equals(&self, other: &Value) -> (r: bool)
        requires
            self.wf(),
            other.wf(),
        ensures
            r == eq_view(ValueView::Struct(self@), other@),
    {
        match other {
            Value::Struct(sb) => fields_equal(&self.fields, &sb.fields),
            _ => false,
        }
    }
}

} // verus!
