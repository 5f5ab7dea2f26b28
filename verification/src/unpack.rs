//! Bulk unpacking of associative containers.
//!
//! Extracts an ordered sequence of native `(K, V)` pairs from a dynamic
//! value that behaves as an associative container — in this core, the
//! record type, whose keys become dynamic strings. The helper fails as a
//! whole if the value is not associative or any single entry fails to
//! extract: no partial sequence is ever produced. Iteration order is the
//! source container's storage order, and keys are already unique.

use vstd::prelude::*;
use crate::value::Value;
use crate::value::ValueView;
use crate::value::FieldsView;
use crate::value::fields_view_of;
use crate::value::lemma_fields_view_index;
use crate::value::lemma_wf_fields_index;
use crate::convert::UnpackValue;
use crate::convert::StarlarkTypeRepr;
use crate::ty::Ty;

verus! {

/// Do all entries of the record model extract as a `(K, V)` pair, the key
/// read as a dynamic string?
pub open spec fn all_entries_unpack<K: UnpackValue, V: UnpackValue>(fs: FieldsView) -> bool {
    forall|i: int|
        0 <= i < fs.len() ==> (#[trigger] K::unpack_spec(ValueView::Str(fs[i].0))).is_some()
            && V::unpack_spec(fs[i].1).is_some()
}

/// The extracted entries, at the model level.
pub open spec fn unpacked_pairs<K: UnpackValue, V: UnpackValue>(fs: FieldsView) -> Seq<
    (K::M, V::M),
> {
    fs.map_values(
        |kv: (Seq<char>, ValueView)|
            (K::unpack_spec(ValueView::Str(kv.0)).unwrap(), V::unpack_spec(kv.1).unwrap()),
    )
}

/// The ordered entries of an associative dynamic value, extracted natively.
pub struct UnpackDictEntries<K, V> {
    /// Entries of the container, in its storage order.
    pub entries: Vec<(K, V)>,
}

impl<K: StarlarkTypeRepr, V: StarlarkTypeRepr> StarlarkTypeRepr for UnpackDictEntries<K, V> {
    open spec fn canonical_ty() -> Ty {
        Ty::Dict
    }

    fn starlark_type_repr() -> (r: Ty) {
        Ty::Dict
    }
}

impl<K: UnpackValue, V: UnpackValue> UnpackValue for UnpackDictEntries<K, V> {
    type M = Seq<(K::M, V::M)>;

    open spec fn m(self) -> Seq<(K::M, V::M)> {
        self.entries@.map_values(|kv: (K, V)| (kv.0.m(), kv.1.m()))
    }

    open spec fn unpack_spec(v: ValueView) -> Option<Seq<(K::M, V::M)>> {
        match v {
            ValueView::Struct(fs) => if all_entries_unpack::<K, V>(fs) {
                Some(unpacked_pairs::<K, V>(fs))
            } else {
                None
            },
            _ => None,
        }
    }

    #[verifier::loop_isolation(false)]
    fn unpack_value(value: &Value) -> (r: Option<UnpackDictEntries<K, V>>) {
        match value {
            Value::Struct(st) => {
                proof {
                    lemma_fields_view_index(st.fields@);
                    lemma_wf_fields_index(st.fields@);
                }
                let ghost fs = fields_view_of(st.fields@);
                let n = st.fields.len();
                let mut entries: Vec<(K, V)> = Vec::with_capacity(n);
                let mut i: usize = 0;
                while i < n
                    invariant
                        i <= n,
                        entries@.len() == i,
                        forall|j: int|
                            0 <= j < i ==> (#[trigger] K::unpack_spec(
                                ValueView::Str(fs[j].0),
                            )).is_some() && V::unpack_spec(fs[j].1).is_some(),
                        forall|j: int|
                            0 <= j < i ==> K::unpack_spec(ValueView::Str(fs[j].0)) == Some(
                                (#[trigger] entries@[j]).0.m(),
                            ) && V::unpack_spec(fs[j].1) == Some(entries@[j].1.m()),
                    decreases n - i,
                {
                    let keyval = Value::Str(st.fields[i].0.clone());
                    let k = match K::unpack_value(&keyval) {
                        Some(k) => k,
                        None => {
                            proof {
                                assert(!(K::unpack_spec(ValueView::Str(fs[i as int].0))).is_some());
                                assert(!all_entries_unpack::<K, V>(fs));
                            }
                            return None;
                        },
                    };
                    let v = match V::unpack_value(&st.fields[i].1) {
                        Some(v) => v,
                        None => {
                            proof {
                                assert(!(V::unpack_spec(fs[i as int].1)).is_some());
                                assert(!all_entries_unpack::<K, V>(fs));
                            }
                            return None;
                        },
                    };
                    entries.push((k, v));
                    i = i + 1;
                }
                proof {
                    let ghost result = UnpackDictEntries { entries };
                    assert(result.m() =~= unpacked_pairs::<K, V>(fs));
                }
                Some(UnpackDictEntries { entries })
            },
            _ => None,
        }
    }
}

} // verus!
