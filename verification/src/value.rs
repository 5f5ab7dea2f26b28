//! Value handles and their mathematical model.
//!
//! `Value` is a handle rooted in the mutable arena; `FrozenValue` is the
//! structurally identical handle rooted in the frozen arena. A frozen graph
//! is closed: by construction its variants hold only frozen handles, so no
//! reachable field can point back into a mutable arena.
//!
//! Both are modelled by the same abstract `ValueView`, in which the two-tier
//! integer backing collapses to a mathematical integer: the backing variant
//! is a storage choice, never an observable distinction.

use vstd::prelude::*;
use crate::int_or_big::StarlarkInt;

verus! {

/// The abstract model of a dynamic value.
pub enum ValueView {
    NoneType,
    Bool(bool),
    Int(int),
    Str(Seq<char>),
    List(Seq<ValueView>),
    Struct(Seq<(Seq<char>, ValueView)>),
}

/// Model of a record: field name/value pairs in storage order.
pub type FieldsView = Seq<(Seq<char>, ValueView)>;

/// The result of calling `struct()`: an immutable, order-preserving record
/// of string-keyed fields, generic over the handle type of its arena.
pub struct StructGen<V> {
    /// The fields in a struct, in storage order. Keys are unique.
    pub fields: Vec<(String, V)>,
}

/// A handle to a value in the mutable arena. An inline small integer needs
/// no allocation at all.
pub enum Value {
    NoneType,
    Bool(bool),
    Int(StarlarkInt),
    Str(String),
    List(Vec<Value>),
    Struct(StructGen<Value>),
}

/// A handle to a value in the frozen arena: structurally identical to
/// `Value`, but every reachable child is itself frozen.
pub enum FrozenValue {
    NoneType,
    Bool(bool),
    Int(StarlarkInt),
    Str(String),
    List(Vec<FrozenValue>),
    Struct(StructGen<FrozenValue>),
}

/// A record in the mutable arena.
pub type Struct = StructGen<Value>;

/// A record in the frozen arena.
pub type FrozenStruct = StructGen<FrozenValue>;

impl<V> StructGen<V> {
    /// Create a new record directly from its fields. The caller is expected
    /// to hand over unique keys; records built by `StructBuilder` always do.
    pub fn new(fields: Vec<(String, V)>) -> (r: StructGen<V>)
        ensures
            r.fields == fields,
    {
        StructGen { fields }
    }
}

/// Field names of a record model, in storage order.
pub open spec fn field_keys(fs: FieldsView) -> Seq<Seq<char>> {
    fs.map_values(|kv: (Seq<char>, ValueView)| kv.0)
}

/// Does the record model have a field of the given name?
pub open spec fn has_field(fs: FieldsView, k: Seq<char>) -> bool {
    exists|i: int| 0 <= i < fs.len() && fs[i].0 == k
}

/// The value stored under a name (first occurrence; keys are unique).
pub open spec fn lookup_field(fs: FieldsView, k: Seq<char>) -> ValueView
    decreases fs.len(),
{
    if fs.len() == 0 {
        ValueView::NoneType
    } else if fs[0].0 == k {
        fs[0].1
    } else {
        lookup_field(fs.drop_first(), k)
    }
}

/// Model of a mutable-arena value.
pub open spec fn view_of(v: Value) -> ValueView
    decreases v,
{
    match v {
        Value::NoneType => ValueView::NoneType,
        Value::Bool(b) => ValueView::Bool(b),
        Value::Int(i) => ValueView::Int(i.ival()),
        Value::Str(s) => ValueView::Str(s@),
        Value::List(xs) => ValueView::List(views_of(xs@)),
        Value::Struct(st) => ValueView::Struct(fields_view_of(st.fields@)),
    }
}

/// Models of a sequence of values.
pub open spec fn views_of(s: Seq<Value>) -> Seq<ValueView>
    decreases s,
{
    if s.len() == 0 {
        Seq::empty()
    } else {
        views_of(s.drop_last()).push(view_of(s.last()))
    }
}

/// Models of a sequence of fields.
pub open spec fn fields_view_of(s: Seq<(String, Value)>) -> FieldsView
    decreases s,
{
    if s.len() == 0 {
        Seq::empty()
    } else {
        fields_view_of(s.drop_last()).push((s.last().0@, view_of(s.last().1)))
    }
}

/// Well-formed: integer backings are normalized, and record keys are unique.
pub open spec fn wf_of(v: Value) -> bool
    decreases v,
{
    match v {
        Value::NoneType => true,
        Value::Bool(_) => true,
        Value::Int(i) => i.wf(),
        Value::Str(_) => true,
        Value::List(xs) => wfs_of(xs@),
        Value::Struct(st) => wf_fields_of(st.fields@) && field_keys(
            fields_view_of(st.fields@),
        ).no_duplicates(),
    }
}

pub open spec fn wfs_of(s: Seq<Value>) -> bool
    decreases s,
{
    if s.len() == 0 {
        true
    } else {
        wfs_of(s.drop_last()) && wf_of(s.last())
    }
}

pub open spec fn wf_fields_of(s: Seq<(String, Value)>) -> bool
    decreases s,
{
    if s.len() == 0 {
        true
    } else {
        wf_fields_of(s.drop_last()) && wf_of(s.last().1)
    }
}

impl View for Value {
    type V = ValueView;

    open spec fn view(&self) -> ValueView {
        view_of(*self)
    }
}

impl Value {
    /// Well-formedness of the handle's object graph.
    pub open spec fn wf(self) -> bool {
        wf_of(self)
    }
}

/// Model of a frozen value: the same model type as for mutable handles,
/// since freezing preserves structure exactly.
pub open spec fn fro_view_of(v: FrozenValue) -> ValueView
    decreases v,
{
    match v {
        FrozenValue::NoneType => ValueView::NoneType,
        FrozenValue::Bool(b) => ValueView::Bool(b),
        FrozenValue::Int(i) => ValueView::Int(i.ival()),
        FrozenValue::Str(s) => ValueView::Str(s@),
        FrozenValue::List(xs) => ValueView::List(fro_views_of(xs@)),
        FrozenValue::Struct(st) => ValueView::Struct(fro_fields_view_of(st.fields@)),
    }
}

pub open spec fn fro_views_of(s: Seq<FrozenValue>) -> Seq<ValueView>
    decreases s,
{
    if s.len() == 0 {
        Seq::empty()
    } else {
        fro_views_of(s.drop_last()).push(fro_view_of(s.last()))
    }
}

pub open spec fn fro_fields_view_of(s: Seq<(String, FrozenValue)>) -> FieldsView
    decreases s,
{
    if s.len() == 0 {
        Seq::empty()
    } else {
        fro_fields_view_of(s.drop_last()).push((s.last().0@, fro_view_of(s.last().1)))
    }
}

pub open spec fn fro_wf_of(v: FrozenValue) -> bool
    decreases v,
{
    match v {
        FrozenValue::NoneType => true,
        FrozenValue::Bool(_) => true,
        FrozenValue::Int(i) => i.wf(),
        FrozenValue::Str(_) => true,
        FrozenValue::List(xs) => fro_wfs_of(xs@),
        FrozenValue::Struct(st) => fro_wf_fields_of(st.fields@) && field_keys(
            fro_fields_view_of(st.fields@),
        ).no_duplicates(),
    }
}

pub open spec fn fro_wfs_of(s: Seq<FrozenValue>) -> bool
    decreases s,
{
    if s.len() == 0 {
        true
    } else {
        fro_wfs_of(s.drop_last()) && fro_wf_of(s.last())
    }
}

pub open spec fn fro_wf_fields_of(s: Seq<(String, FrozenValue)>) -> bool
    decreases s,
{
    if s.len() == 0 {
        true
    } else {
        fro_wf_fields_of(s.drop_last()) && fro_wf_of(s.last().1)
    }
}

impl View for FrozenValue {
    type V = ValueView;

    open spec fn view(&self) -> ValueView {
        fro_view_of(*self)
    }
}

impl FrozenValue {
    /// Well-formedness of the frozen object graph.
    pub open spec fn wf(self) -> bool {
        fro_wf_of(self)
    }
}

impl View for StructGen<Value> {
    type V = FieldsView;

    open spec fn view(&self) -> FieldsView {
        fields_view_of(self.fields@)
    }
}

impl View for StructGen<FrozenValue> {
    type V = FieldsView;

    open spec fn view(&self) -> FieldsView {
        fro_fields_view_of(self.fields@)
    }
}

impl StructGen<Value> {
    /// Well-formedness: unique keys and well-formed field values.
    pub open spec fn wf(self) -> bool {
        wf_fields_of(self.fields@) && field_keys(fields_view_of(self.fields@)).no_duplicates()
    }
}

impl StructGen<FrozenValue> {
    /// Well-formedness: unique keys and well-formed field values.
    pub open spec fn wf(self) -> bool {
        fro_wf_fields_of(self.fields@) && field_keys(
            fro_fields_view_of(self.fields@),
        ).no_duplicates()
    }
}

/// The view of a field sequence has one entry per field, in order.
pub proof fn lemma_fields_view_index(s: Seq<(String, Value)>)
    ensures
        fields_view_of(s).len() == s.len(),
        forall|i: int|
            0 <= i < s.len() ==> #[trigger] fields_view_of(s)[i] == (s[i].0@, view_of(s[i].1)),
    decreases s.len(),
{
    if s.len() > 0 {
        lemma_fields_view_index(s.drop_last());
    }
}

/// The view of a value sequence has one entry per value, in order.
pub proof fn lemma_views_index(s: Seq<Value>)
    ensures
        views_of(s).len() == s.len(),
        forall|i: int| 0 <= i < s.len() ==> #[trigger] views_of(s)[i] == view_of(s[i]),
    decreases s.len(),
{
    if s.len() > 0 {
        lemma_views_index(s.drop_last());
    }
}

/// Element-wise well-formedness of a value sequence.
pub proof fn lemma_wfs_index(s: Seq<Value>)
    ensures
        wfs_of(s) <==> forall|i: int| 0 <= i < s.len() ==> #[trigger] wf_of(s[i]),
    decreases s.len(),
{
    if s.len() > 0 {
        let t = s.drop_last();
        lemma_wfs_index(t);
        assert(forall|i: int| 0 <= i < t.len() ==> #[trigger] t[i] == s[i]);
        if wfs_of(s) {
            assert forall|i: int| 0 <= i < s.len() implies #[trigger] wf_of(s[i]) by {
                if i < s.len() - 1 {
                    assert(wf_of(t[i]));
                } else {
                    assert(wf_of(s.last()));
                }
            }
        } else {
            if !wfs_of(t) {
                assert(exists|i: int| 0 <= i < t.len() && !#[trigger] wf_of(t[i]));
                let i = choose|i: int| 0 <= i < t.len() && !#[trigger] wf_of(t[i]);
                assert(!wf_of(s[i]));
            } else {
                assert(!wf_of(s[s.len() - 1]));
            }
        }
    }
}

/// Element-wise well-formedness of a field sequence.
pub proof fn lemma_wf_fields_index(s: Seq<(String, Value)>)
    ensures
        wf_fields_of(s) <==> forall|i: int| 0 <= i < s.len() ==> #[trigger] wf_of(s[i].1),
    decreases s.len(),
{
    if s.len() > 0 {
        let t = s.drop_last();
        lemma_wf_fields_index(t);
        assert(forall|i: int| 0 <= i < t.len() ==> #[trigger] t[i] == s[i]);
        if wf_fields_of(s) {
            assert forall|i: int| 0 <= i < s.len() implies #[trigger] wf_of(s[i].1) by {
                if i < s.len() - 1 {
                    assert(wf_of(t[i].1));
                } else {
                    assert(wf_of(s.last().1));
                }
            }
        } else {
            if !wf_fields_of(t) {
                assert(exists|i: int| 0 <= i < t.len() && !#[trigger] wf_of(t[i].1));
                let i = choose|i: int| 0 <= i < t.len() && !#[trigger] wf_of(t[i].1);
                assert(!wf_of(s[i].1));
            } else {
                assert(!wf_of(s[s.len() - 1].1));
            }
        }
    }
}

/// Frozen counterparts of the indexing lemmas.
pub proof fn lemma_fro_fields_view_index(s: Seq<(String, FrozenValue)>)
    ensures
        fro_fields_view_of(s).len() == s.len(),
        forall|i: int|
            0 <= i < s.len() ==> #[trigger] fro_fields_view_of(s)[i] == (
                s[i].0@,
                fro_view_of(s[i].1),
            ),
    decreases s.len(),
{
    if s.len() > 0 {
        lemma_fro_fields_view_index(s.drop_last());
    }
}

pub proof fn lemma_fro_views_index(s: Seq<FrozenValue>)
    ensures
        fro_views_of(s).len() == s.len(),
        forall|i: int| 0 <= i < s.len() ==> #[trigger] fro_views_of(s)[i] == fro_view_of(s[i]),
    decreases s.len(),
{
    if s.len() > 0 {
        lemma_fro_views_index(s.drop_last());
    }
}

/// The fields of a record model; the empty record for any other value.
pub open spec fn struct_fields(v: ValueView) -> FieldsView {
    match v {
        ValueView::Struct(fs) => fs,
        _ => Seq::empty(),
    }
}

impl Value {
    /// An independent handle to an equal object graph.
    #[verifier::loop_isolation(false)]
    pub fn deep_clone(&self) -> (r: Value)
        ensures
            r@ == self@,
            r.wf() <==> self.wf(),
        decreases *self,
    {
        match self {
            Value::NoneType => Value::NoneType,
            Value::Bool(b) => Value::Bool(*b),
            Value::Int(i) => {
                let d = i.dup();
                proof {
                    assert(d.wf() <==> i.wf());
                    assert(wf_of(Value::Int(d)) <==> wf_of(*self));
                }
                Value::Int(d)
            },
            Value::Str(s) => Value::Str(s.clone()),
            Value::List(xs) => {
                let mut out: Vec<Value> = Vec::new();
                let n = xs.len();
                let mut i: usize = 0;
                while i < n
                    invariant
                        n == xs@.len(),
                        i <= n,
                        out@.len() == i,
                        forall|j: int|
                            0 <= j < i ==> (#[trigger] out@[j])@ == xs@[j]@ && (out@[j].wf()
                                <==> xs@[j].wf()),
                    decreases n - i,
                {
                    proof {
                        assert(decreases_to!(*self => (*self)->List_0));
                        assert((*self)->List_0 == *xs);
                        assert(decreases_to!(*xs => xs@));
                        assert(decreases_to!(xs@ => xs@[i as int]));
                        assert(decreases_to!(*self => xs@[i as int]));
                    }
                    let c = xs[i].deep_clone();
                    out.push(c);
                    i = i + 1;
                }
                proof {
                    lemma_views_index(xs@);
                    lemma_views_index(out@);
                    assert(views_of(out@) =~= views_of(xs@));
                    lemma_wfs_index(xs@);
                    lemma_wfs_index(out@);
                    if wfs_of(xs@) {
                        assert forall|j: int| 0 <= j < out@.len() implies #[trigger] wf_of(
                            out@[j],
                        ) by {
                            assert(wf_of(xs@[j]));
                            assert((out@[j])@ == xs@[j]@ && (out@[j].wf() <==> xs@[j].wf()));
                        }
                        assert(wfs_of(out@));
                    } else {
                        assert(exists|j: int| 0 <= j < xs@.len() && !#[trigger] wf_of(xs@[j]));
                        let j = choose|j: int| 0 <= j < xs@.len() && !#[trigger] wf_of(xs@[j]);
                        assert((out@[j])@ == xs@[j]@ && (out@[j].wf() <==> xs@[j].wf()));
                        assert(!wf_of(out@[j]));
                        assert(!wfs_of(out@));
                    }
                    assert(wf_of(Value::List(out)) <==> wf_of(*self));
                }
                Value::List(out)
            },
            Value::Struct(st) => {
                let mut out: Vec<(String, Value)> = Vec::new();
                let n = st.fields.len();
                let mut i: usize = 0;
                while i < n
                    invariant
                        n == st.fields@.len(),
                        i <= n,
                        out@.len() == i,
                        forall|j: int|
                            0 <= j < i ==> (#[trigger] out@[j]).0@ == st.fields@[j].0@
                                && out@[j].1@ == st.fields@[j].1@ && (out@[j].1.wf()
                                <==> st.fields@[j].1.wf()),
                    decreases n - i,
                {
                    let k = st.fields[i].0.clone();
                    proof {
                        assert(decreases_to!(*self => (*self)->Struct_0));
                        assert((*self)->Struct_0 == *st);
                        assert(decreases_to!(*st => st.fields));
                        assert(decreases_to!(st.fields => st.fields@));
                        assert(decreases_to!(st.fields@ => st.fields@[i as int]));
                        assert(decreases_to!(st.fields@[i as int] => st.fields@[i as int].1));
                        assert(decreases_to!(*self => st.fields@[i as int].1));
                    }
                    let c = st.fields[i].1.deep_clone();
                    out.push((k, c));
                    i = i + 1;
                }
                proof {
                    lemma_fields_view_index(st.fields@);
                    lemma_fields_view_index(out@);
                    assert(fields_view_of(out@) =~= fields_view_of(st.fields@));
                    lemma_wf_fields_index(st.fields@);
                    lemma_wf_fields_index(out@);
                    if wf_fields_of(st.fields@) {
                        assert forall|j: int| 0 <= j < out@.len() implies #[trigger] wf_of(
                            out@[j].1,
                        ) by {
                            assert(wf_of(st.fields@[j].1));
                            assert((out@[j]).0@ == st.fields@[j].0@ && (out@[j].1.wf()
                                <==> st.fields@[j].1.wf()));
                        }
                        assert(wf_fields_of(out@));
                    } else {
                        assert(exists|j: int|
                            0 <= j < st.fields@.len() && !#[trigger] wf_of(st.fields@[j].1));
                        let j = choose|j: int|
                            0 <= j < st.fields@.len() && !#[trigger] wf_of(st.fields@[j].1);
                        assert((out@[j]).0@ == st.fields@[j].0@ && (out@[j].1.wf()
                            <==> st.fields@[j].1.wf()));
                        assert(!wf_of(out@[j].1));
                        assert(!wf_fields_of(out@));
                    }
                    assert(wf_fields_of(out@) <==> wf_fields_of(st.fields@));
                    assert(wf_of(Value::Struct(StructGen { fields: out }))
                        <==> wf_of(*self));
                }
                Value::Struct(StructGen { fields: out })
            },
        }
    }
}

/// A field present at some index is found by `lookup_field`, under unique keys.
pub proof fn lemma_lookup_at(fs: FieldsView, i: int)
    requires
        field_keys(fs).no_duplicates(),
        0 <= i < fs.len(),
    ensures
        has_field(fs, fs[i].0),
        lookup_field(fs, fs[i].0) == fs[i].1,
    decreases fs.len(),
{
    if i == 0 {
    } else {
        assert(field_keys(fs)[0] == fs[0].0);
        assert(field_keys(fs)[i] == fs[i].0);
        assert(fs[0].0 != fs[i].0);
        assert(field_keys(fs.drop_first()) =~= field_keys(fs).drop_first());
        lemma_lookup_at(fs.drop_first(), i - 1);
        assert(fs.drop_first()[i - 1] == fs[i]);
    }
}

/// Well-formedness at the model level: record keys unique, recursively.
pub open spec fn view_wf(v: ValueView) -> bool
    decreases v,
{
    match v {
        ValueView::NoneType => true,
        ValueView::Bool(_) => true,
        ValueView::Int(_) => true,
        ValueView::Str(_) => true,
        ValueView::List(xs) => views_wf(xs),
        ValueView::Struct(fs) => field_keys(fs).no_duplicates() && fields_vwf(fs),
    }
}

pub open spec fn views_wf(xs: Seq<ValueView>) -> bool
    decreases xs,
{
    if xs.len() == 0 {
        true
    } else {
        views_wf(xs.drop_last()) && view_wf(xs.last())
    }
}

pub open spec fn fields_vwf(fs: FieldsView) -> bool
    decreases fs,
{
    if fs.len() == 0 {
        true
    } else {
        fields_vwf(fs.drop_last()) && view_wf(fs.last().1)
    }
}

/// Element-wise reading of `views_wf`.
pub proof fn lemma_views_wf_index(xs: Seq<ValueView>)
    ensures
        views_wf(xs) <==> forall|i: int| 0 <= i < xs.len() ==> #[trigger] view_wf(xs[i]),
    decreases xs.len(),
{
    if xs.len() > 0 {
        let t = xs.drop_last();
        lemma_views_wf_index(t);
        assert(forall|i: int| 0 <= i < t.len() ==> #[trigger] t[i] == xs[i]);
        if views_wf(xs) {
            assert forall|i: int| 0 <= i < xs.len() implies #[trigger] view_wf(xs[i]) by {
                if i < xs.len() - 1 {
                    assert(view_wf(t[i]));
                } else {
                    assert(view_wf(xs.last()));
                }
            }
        } else {
            if !views_wf(t) {
                assert(exists|i: int| 0 <= i < t.len() && !#[trigger] view_wf(t[i]));
                let i = choose|i: int| 0 <= i < t.len() && !#[trigger] view_wf(t[i]);
                assert(!view_wf(xs[i]));
            } else {
                assert(!view_wf(xs[xs.len() - 1]));
            }
        }
    }
}

/// Element-wise reading of `fields_vwf`.
pub proof fn lemma_fields_vwf_index(fs: FieldsView)
    ensures
        fields_vwf(fs) <==> forall|i: int| 0 <= i < fs.len() ==> #[trigger] view_wf(fs[i].1),
    decreases fs.len(),
{
    if fs.len() > 0 {
        let t = fs.drop_last();
        lemma_fields_vwf_index(t);
        assert(forall|i: int| 0 <= i < t.len() ==> #[trigger] t[i] == fs[i]);
        if fields_vwf(fs) {
            assert forall|i: int| 0 <= i < fs.len() implies #[trigger] view_wf(fs[i].1) by {
                if i < fs.len() - 1 {
                    assert(view_wf(t[i].1));
                } else {
                    assert(view_wf(fs.last().1));
                }
            }
        } else {
            if !fields_vwf(t) {
                assert(exists|i: int| 0 <= i < t.len() && !#[trigger] view_wf(t[i].1));
                let i = choose|i: int| 0 <= i < t.len() && !#[trigger] view_wf(t[i].1);
                assert(!view_wf(fs[i].1));
            } else {
                assert(!view_wf(fs[fs.len() - 1].1));
            }
        }
    }
}

/// A well-formed handle models a well-formed value.
pub proof fn lemma_wf_view_wf(v: Value)
    requires
        wf_of(v),
    ensures
        view_wf(view_of(v)),
    decreases v,
{
    match v {
        Value::List(xs) => {
            lemma_views_index(xs@);
            lemma_wfs_index(xs@);
            lemma_views_wf_index(views_of(xs@));
            assert forall|i: int| 0 <= i < views_of(xs@).len() implies #[trigger] view_wf(
                views_of(xs@)[i],
            ) by {
                lemma_wf_view_wf(xs@[i]);
            }
        },
        Value::Struct(st) => {
            lemma_fields_view_index(st.fields@);
            lemma_wf_fields_index(st.fields@);
            lemma_fields_vwf_index(fields_view_of(st.fields@));
            assert forall|i: int|
                0 <= i < fields_view_of(st.fields@).len() implies #[trigger] view_wf(
                fields_view_of(st.fields@)[i].1,
            ) by {
                lemma_wf_view_wf(st.fields@[i].1);
            }
        },
        _ => {},
    }
}

} // verus!
