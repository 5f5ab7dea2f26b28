//! Building records, attribute access, and the validating typed view.
//!
//! A `StructBuilder` bound to one mutable arena accumulates key/value pairs
//! and seals them into an immutable `Struct`. Duplicate keys follow one
//! documented rule, verified below: last write wins on the value, first
//! write wins on the position.
//!
//! `StructOf<V>` validates, without storing conversions, that every field of
//! a record extracts as native type `V`; the deferred extraction `to_map`
//! is then total, because validation already proved it.

use vstd::prelude::*;
use core::marker::PhantomData;
use crate::value::Value;
use crate::value::ValueView;
use crate::value::FieldsView;
use crate::value::Struct;
use crate::value::StructGen;
use crate::value::fields_view_of;
use crate::value::field_keys;
use crate::value::has_field;
use crate::value::lookup_field;
use crate::value::struct_fields;
use crate::value::wf_fields_of;
use crate::value::lemma_fields_view_index;
use crate::value::lemma_wf_fields_index;
use crate::value::lemma_lookup_at;
use crate::convert::AllocValue;
use crate::convert::UnpackValue;
use crate::convert::StarlarkTypeRepr;
use crate::ty::Ty;
use crate::heap::Heap;
use vstd::string::StringExecFns;
use vstd::string::StrSliceExecFns;

verus! {

/// Index of the first field bearing a name (meaningful when present).
pub open spec fn key_index(fs: FieldsView, k: Seq<char>) -> int
    decreases fs.len(),
{
    if fs.len() == 0 {
        0
    } else if fs[0].0 == k {
        0
    } else {
        1 + key_index(fs.drop_first(), k)
    }
}

/// One builder step: overwrite the value in place when the key is present,
/// append a fresh field otherwise.
pub open spec fn upsert(fs: FieldsView, k: Seq<char>, v: ValueView) -> FieldsView {
    if has_field(fs, k) {
        fs.update(key_index(fs, k), (k, v))
    } else {
        fs.push((k, v))
    }
}

/// `key_index` finds exactly the first occurrence.
pub proof fn lemma_key_index_first(fs: FieldsView, k: Seq<char>, i: int)
    requires
        0 <= i < fs.len(),
        fs[i].0 == k,
        forall|j: int| 0 <= j < i ==> fs[j].0 != k,
    ensures
        key_index(fs, k) == i,
    decreases i,
{
    if i > 0 {
        let t = fs.drop_first();
        assert(forall|j: int| 0 <= j < t.len() ==> #[trigger] t[j] == fs[j + 1]);
        lemma_key_index_first(t, k, i - 1);
    }
}

/// A name occurs among the fields exactly when it occurs among the keys.
pub proof fn lemma_has_field_keys(fs: FieldsView, k: Seq<char>)
    ensures
        has_field(fs, k) <==> field_keys(fs).contains(k),
{
    if has_field(fs, k) {
        let i = choose|i: int| 0 <= i < fs.len() && fs[i].0 == k;
        assert(field_keys(fs)[i] == k);
    }
    if field_keys(fs).contains(k) {
        let i = choose|i: int| 0 <= i < field_keys(fs).len() && field_keys(fs)[i] == k;
        assert(fs[i].0 == k);
    }
}

/// First index in the representation whose key reads as `key`.
pub(crate) fn find_key<V>(fields: &Vec<(String, V)>, key: &str) -> (r: Option<usize>)
    ensures
        match r {
            Some(i) => i < fields@.len() && fields@[i as int].0@ == key@ && forall|j: int|
                0 <= j < i ==> fields@[j].0@ != key@,
            None => forall|j: int| 0 <= j < fields@.len() ==> fields@[j].0@ != key@,
        },
{
    let n = fields.len();
    let mut i: usize = 0;
    while i < n
        invariant
            n == fields@.len(),
            i <= n,
            forall|j: int| 0 <= j < i ==> fields@[j].0@ != key@,
        decreases n - i,
    {
        if str_eq(fields[i].0.as_str(), key) {
            return Some(i);
        }
        i = i + 1;
    }
    None
}

/// Character-for-character string equality.
pub fn str_eq(a: &str, b: &str) -> (r: bool)
    ensures
        r <==> a@ == b@,
{
    let na = a.unicode_len();
    let nb = b.unicode_len();
    if na != nb {
        return false;
    }
    let mut i: usize = 0;
    while i < na
        invariant
            na == a@.len(),
            na == b@.len(),
            i <= na,
            forall|j: int| 0 <= j < i ==> a@[j] == b@[j],
        decreases na - i,
    {
        if a.get_char(i) != b.get_char(i) {
            return false;
        }
        i = i + 1;
    }
    proof {
        assert(a@ =~= b@);
    }
    true
}

/// A builder to create a `Struct` easily, bound to one mutable arena.
pub struct StructBuilder {
    heap: Heap,
    fields: Vec<(String, Value)>,
}

impl StructBuilder {
    /// The record model accumulated so far.
    pub closed spec fn fields_view(self) -> FieldsView {
        fields_view_of(self.fields@)
    }

    /// Keys unique, values well-formed.
    pub closed spec fn wf(self) -> bool {
        wf_fields_of(self.fields@) && field_keys(fields_view_of(self.fields@)).no_duplicates()
    }

    /// Create a builder with a given capacity.
    pub fn with_capacity(heap: &Heap, capacity: usize) -> (r: StructBuilder)
        ensures
            r.wf(),
            r.fields_view() == Seq::<(Seq<char>, ValueView)>::empty(),
    {
        StructBuilder { heap: *heap, fields: Vec::with_capacity(capacity) }
    }

    /// Create an empty builder.
    pub fn new(heap: &Heap) -> (r: StructBuilder)
        ensures
            r.wf(),
            r.fields_view() == Seq::<(Seq<char>, ValueView)>::empty(),
    {
        StructBuilder { heap: *heap, fields: Vec::new() }
    }

    /// Add an element to the record being built. A duplicate key overwrites
    /// the previous value but keeps its original position.
    pub fn add<T: AllocValue>(&mut self, key: &str, val: T)
        requires
            old(self).wf(),
            val.alloc_req(),
        ensures
            final(self).wf(),
            final(self).fields_view() == upsert(old(self).fields_view(), key@, val.alloc_spec()),
    {
        let h = self.heap;
        let v = val.alloc_value(&h);
        let ghost oldfields = self.fields@;
        let ghost fs = fields_view_of(oldfields);
        proof {
            lemma_fields_view_index(oldfields);
        }
        match find_key(&self.fields, key) {
            Some(i) => {
                proof {
                    assert(fs[i as int].0 == key@);
                    assert(forall|j: int| 0 <= j < i ==> fs[j].0 != key@);
                    lemma_key_index_first(fs, key@, i as int);
                    assert(has_field(fs, key@));
                }
                let pair = self.fields.remove(i);
                self.fields.insert(i, (pair.0, v));
                proof {
                    assert(self.fields@ =~= oldfields.update(i as int, (oldfields[i as int].0, v)));
                    lemma_fields_view_index(self.fields@);
                    assert(fields_view_of(self.fields@) =~= fs.update(
                        i as int,
                        (key@, val.alloc_spec()),
                    ));
                    assert(field_keys(fields_view_of(self.fields@)) =~= field_keys(fs));
                    lemma_wf_fields_index(oldfields);
                    lemma_wf_fields_index(self.fields@);
                }
            },
            None => {
                proof {
                    assert(forall|j: int| 0 <= j < fs.len() ==> #[trigger] fs[j].0 != key@);
                    assert(!has_field(fs, key@));
                }
                self.fields.push((String::from_str(key), v));
                proof {
                    assert(self.fields@ =~= oldfields.push((self.fields@.last().0, v)));
                    lemma_fields_view_index(self.fields@);
                    assert(fields_view_of(self.fields@) =~= fs.push((key@, val.alloc_spec())));
                    lemma_wf_fields_index(oldfields);
                    lemma_wf_fields_index(self.fields@);
                    let ks = field_keys(fields_view_of(self.fields@));
                    assert(ks =~= field_keys(fs).push(key@));
                    lemma_has_field_keys(fs, key@);
                    assert(!field_keys(fs).contains(key@));
                    assert forall|p: int, q: int|
                        0 <= p < ks.len() && 0 <= q < ks.len() && p != q implies ks[p] != ks[q] by {
                        if p < ks.len() - 1 && q < ks.len() - 1 {
                            assert(field_keys(fs)[p] != field_keys(fs)[q]);
                        } else if p == ks.len() - 1 && q < ks.len() - 1 {
                            assert(field_keys(fs).contains(field_keys(fs)[q]));
                        } else if q == ks.len() - 1 && p < ks.len() - 1 {
                            assert(field_keys(fs).contains(field_keys(fs)[p]));
                        }
                    }
                    assert(ks.no_duplicates());
                }
            },
        }
    }

    /// Finish building and seal the record.
    pub fn build(self) -> (r: Struct)
        requires
            self.wf(),
        ensures
            r.wf(),
            r@ == self.fields_view(),
    {
        StructGen { fields: self.fields }
    }
}

impl StructGen<Value> {
    /// View a dynamic value as a record, if it is one.
    pub fn from_value(value: &Value) -> (r: Option<&Struct>)
        ensures
            r.is_some() <==> value@ is Struct,
            r.is_some() ==> fields_view_of(r.unwrap().fields@) == struct_fields(value@) && (
            value.wf() ==> r.unwrap().wf()),
    {
        match value {
            Value::Struct(st) => Some(st),
            _ => None,
        }
    }

    /// The field stored under a name, if any.
    pub fn get_attr(&self, attribute: &str) -> (r: Option<&Value>)
        requires
            self.wf(),
        ensures
            r.is_some() <==> has_field(self@, attribute@),
            r.is_some() ==> r.unwrap()@ == lookup_field(self@, attribute@) && r.unwrap().wf(),
    {
        proof {
            lemma_fields_view_index(self.fields@);
            lemma_wf_fields_index(self.fields@);
        }
        match find_key(&self.fields, attribute) {
            Some(i) => {
                proof {
                    assert(self@[i as int].0 == attribute@);
                    lemma_lookup_at(self@, i as int);
                }
                Some(&self.fields[i].1)
            },
            None => {
                proof {
                    assert(forall|j: int|
                        0 <= j < self@.len() ==> #[trigger] self@[j].0 != attribute@);
                }
                None
            },
        }
    }

    /// Does the record have a field of this name?
    pub fn has_attr(&self, attribute: &str) -> (r: bool)
        requires
            self.wf(),
        ensures
            r <==> has_field(self@, attribute@),
    {
        self.get_attr(attribute).is_some()
    }

    /// The field names, in storage order.
    pub fn dir_attr(&self) -> (r: Vec<String>)
        ensures
            r@.len() == self@.len(),
            forall|i: int| 0 <= i < r@.len() ==> (#[trigger] r@[i])@ == self@[i].0,
    {
        proof {
            lemma_fields_view_index(self.fields@);
        }
        let mut out: Vec<String> = Vec::new();
        let n = self.fields.len();
        let mut i: usize = 0;
        while i < n
            invariant
                n == self.fields@.len(),
                self@.len() == n,
                i <= n,
                out@.len() == i,
                forall|j: int| 0 <= j < i ==> (#[trigger] out@[j])@ == self@[j].0,
                forall|j: int|
                    0 <= j < n ==> (#[trigger] self@[j]).0 == self.fields@[j].0@,
            decreases n - i,
        {
            out.push(self.fields[i].0.clone());
            i = i + 1;
        }
        out
    }
}

/// Extraction of every field of a validated record, at the model level.
pub open spec fn unpacked_entries<V: UnpackValue>(fs: FieldsView) -> Seq<(Seq<char>, V::M)> {
    fs.map_values(|kv: (Seq<char>, ValueView)| (kv.0, V::unpack_spec(kv.1).unwrap()))
}

/// Do all fields of the record model extract as `V`?
pub open spec fn all_fields_unpack<V: UnpackValue>(fs: FieldsView) -> bool {
    forall|i: int| 0 <= i < fs.len() ==> (#[trigger] V::unpack_spec(fs[i].1)).is_some()
}

/// A validating typed view of a record: construction checks that every
/// field value extracts as native type `V`, without storing conversions.
pub struct StructOf<V: UnpackValue> {
    value: Value,
    _marker: PhantomData<V>,
}

impl<V: UnpackValue> StructOf<V> {
    /// Validated: the held value is a well-formed record whose every field
    /// extracts as `V`. Established at construction and never lost.
    #[verifier::type_invariant]
    pub closed spec fn wf(self) -> bool {
        &&& self.value.wf()
        &&& self.value@ is Struct
        &&& all_fields_unpack::<V>(struct_fields(self.value@))
    }

    /// The record model held.
    pub closed spec fn fields(self) -> FieldsView {
        struct_fields(self.value@)
    }

    /// The validated value itself.
    pub fn to_value(&self) -> (r: &Value)
        ensures
            r@ is Struct,
            struct_fields(r@) == self.fields(),
            r.wf(),
    {
        proof {
            use_type_invariant(self);
        }
        &self.value
    }

    /// The validated value as a record.
    pub fn as_struct(&self) -> (r: &Struct)
        ensures
            fields_view_of(r.fields@) == self.fields(),
            r.wf(),
            all_fields_unpack::<V>(self.fields()),
    {
        proof {
            use_type_invariant(self);
        }
        match &self.value {
            Value::Struct(st) => st,
            _ => vstd::pervasive::unreached(),
        }
    }

    /// Collect the fields, extracting each value as `V`. By the validation
    /// invariant this never fails: an extraction failure here would be an
    /// internal consistency violation, not a user-facing error.
    pub fn to_map(&self) -> (r: Vec<(String, V)>)
        ensures
            r@.len() == self.fields().len(),
            forall|i: int|
                0 <= i < r@.len() ==> (#[trigger] r@[i]).0@ == self.fields()[i].0
                    && V::unpack_spec(self.fields()[i].1) == Some(r@[i].1.m()),
    {
        proof {
            use_type_invariant(self);
        }
        let st = self.as_struct();
        let ghost fs = self.fields();
        proof {
            lemma_fields_view_index(st.fields@);
            lemma_wf_fields_index(st.fields@);
        }
        let n = st.fields.len();
        let mut out: Vec<(String, V)> = Vec::new();
        let mut i: usize = 0;
        while i < n
            invariant
                n == st.fields@.len(),
                fs.len() == n,
                i <= n,
                out@.len() == i,
                all_fields_unpack::<V>(fs),
                forall|j: int|
                    0 <= j < n ==> (#[trigger] fs[j]) == (st.fields@[j].0@, st.fields@[j].1@),
                forall|j: int| 0 <= j < n ==> #[trigger] st.fields@[j].1.wf(),
                forall|j: int|
                    0 <= j < i ==> (#[trigger] out@[j]).0@ == fs[j].0 && V::unpack_spec(fs[j].1)
                        == Some(out@[j].1.m()),
            decreases n - i,
        {
            let k = st.fields[i].0.clone();
            match V::unpack_value(&st.fields[i].1) {
                Some(v) => {
                    out.push((k, v));
                },
                None => {
                    proof {
                        assert(V::unpack_spec(fs[i as int].1).is_some());
                        assert(false);
                    }
                    vstd::pervasive::unreached::<()>();
                },
            }
            i = i + 1;
        }
        out
    }
}

impl<V: UnpackValue> StarlarkTypeRepr for StructOf<V> {
    open spec fn canonical_ty() -> Ty {
        Ty::Struct
    }

    fn starlark_type_repr() -> (r: Ty) {
        Ty::Struct
    }
}

impl<V: UnpackValue> UnpackValue for StructOf<V> {
    type M = Seq<(Seq<char>, V::M)>;

    closed spec fn m(self) -> Seq<(Seq<char>, V::M)> {
        unpacked_entries::<V>(struct_fields(self.value@))
    }

    open spec fn unpack_spec(v: ValueView) -> Option<Seq<(Seq<char>, V::M)>> {
        match v {
            ValueView::Struct(fs) => if all_fields_unpack::<V>(fs) {
                Some(unpacked_entries::<V>(fs))
            } else {
                None
            },
            _ => None,
        }
    }

    #[verifier::loop_isolation(false)]
    fn unpack_value(value: &Value) -> (r: Option<StructOf<V>>) {
        match value {
            Value::Struct(st) => {
                proof {
                    lemma_fields_view_index(st.fields@);
                    lemma_wf_fields_index(st.fields@);
                }
                let ghost fs = fields_view_of(st.fields@);
                let n = st.fields.len();
                let mut i: usize = 0;
                while i < n
                    invariant
                        n == st.fields@.len(),
                        fs.len() == n,
                        i <= n,
                        forall|j: int|
                            0 <= j < n ==> (#[trigger] fs[j]) == (
                                st.fields@[j].0@,
                                st.fields@[j].1@,
                            ),
                        forall|j: int| 0 <= j < n ==> #[trigger] st.fields@[j].1.wf(),
                        forall|j: int|
                            0 <= j < i ==> (#[trigger] V::unpack_spec(fs[j].1)).is_some(),
                    decreases n - i,
                {
                    match V::unpack_value(&st.fields[i].1) {
                        Some(_) => {},
                        None => {
                            proof {
                                assert(!(V::unpack_spec(fs[i as int].1)).is_some());
                            }
                            return None;
                        },
                    }
                    i = i + 1;
                }
                let c = value.deep_clone();
                Some(StructOf { value: c, _marker: PhantomData })
            },
            _ => None,
        }
    }
}

} // verus!
