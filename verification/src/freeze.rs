//! The freeze operation.
//!
//! A depth-first transformation moving a live object graph from the mutable
//! arena into the frozen arena. Traversal order and structure are preserved
//! exactly: the frozen record has the same fields in the same order, each
//! value frozen recursively. Records form a directed acyclic ownership
//! graph by construction (fields point only to further values, never back
//! to their owner), so no cycle detection is needed; for this core's closed
//! value set, construction in the frozen arena cannot fail, so the
//! traversal is total and no partial-freeze state can be observed. The
//! resulting graph is closed: a `FrozenValue` holds only frozen children,
//! so nothing reachable from it refers to the originating mutable arena.

use vstd::prelude::*;
use crate::value::Value;
use crate::value::FrozenValue;
use crate::value::Struct;
use crate::value::FrozenStruct;
use crate::value::StructGen;
use crate::value::fields_view_of;
use crate::value::fro_fields_view_of;
use crate::value::views_of;
use crate::value::fro_views_of;
use crate::value::wfs_of;
use crate::value::fro_wfs_of;
use crate::value::wf_fields_of;
use crate::value::fro_wf_fields_of;
use crate::value::wf_of;
use crate::value::fro_wf_of;
use crate::value::field_keys;
use crate::value::lemma_views_index;
use crate::value::lemma_fro_views_index;
use crate::value::lemma_fields_view_index;
use crate::value::lemma_fro_fields_view_index;
use crate::value::lemma_wfs_index;
use crate::value::lemma_wf_fields_index;
use crate::heap::Freezer;

verus! {

impl Value {
    /// Re-materialize this object graph in the frozen arena. The frozen
    /// handle models the very same value.
    #[verifier::loop_isolation(false)]
    pub fn freeze(&self, freezer: &Freezer) -> (r: FrozenValue)
        requires
            self.wf(),
        ensures
            r@ == self@,
            r.wf(),
        decreases *self,
    {
        match self {
            Value::NoneType => FrozenValue::NoneType,
            Value::Bool(b) => FrozenValue::Bool(*b),
            Value::Int(i) => FrozenValue::Int(i.dup()),
            Value::Str(s) => FrozenValue::Str(s.clone()),
            Value::List(xs) => {
                proof {
                    lemma_wfs_index(xs@);
                }
                let mut out: Vec<FrozenValue> = Vec::new();
                let n = xs.len();
                let mut i: usize = 0;
                while i < n
                    invariant
                        n == xs@.len(),
                        i <= n,
                        out@.len() == i,
                        forall|j: int|
                            0 <= j < i ==> (#[trigger] out@[j])@ == xs@[j]@ && out@[j].wf(),
                    decreases n - i,
                {
                    proof {
                        assert(decreases_to!(*self => (*self)->List_0));
                        assert((*self)->List_0 == *xs);
                        assert(decreases_to!(*xs => xs@));
                        assert(decreases_to!(xs@ => xs@[i as int]));
                        assert(decreases_to!(*self => xs@[i as int]));
                        assert(wf_of(xs@[i as int]));
                    }
                    let c = xs[i].freeze(freezer);
                    out.push(c);
                    i = i + 1;
                }
                proof {
                    lemma_views_index(xs@);
                    lemma_fro_views_index(out@);
                    assert(fro_views_of(out@) =~= views_of(xs@));
                    assert forall|j: int| 0 <= j < out@.len() implies #[trigger] fro_wf_of(
                        out@[j],
                    ) by {
                        assert((out@[j])@ == xs@[j]@ && out@[j].wf());
                    }
                    lemma_fro_wfs_index(out@);
                }
                FrozenValue::List(out)
            },
            Value::Struct(st) => {
                proof {
                    lemma_wf_fields_index(st.fields@);
                }
                let mut out: Vec<(String, FrozenValue)> = Vec::new();
                let n = st.fields.len();
                let mut i: usize = 0;
                while i < n
                    invariant
                        n == st.fields@.len(),
                        i <= n,
                        out@.len() == i,
                        forall|j: int|
                            0 <= j < i ==> (#[trigger] out@[j]).0@ == st.fields@[j].0@
                                && out@[j].1@ == st.fields@[j].1@ && out@[j].1.wf(),
                    decreases n - i,
                {
                    let k = st.fields[i].0.clone();
                    proof {
                        assert(decreases_to!(*self => (*self)->Struct_0));
                        assert((*self)->Struct_0 == *st);
                        assert(decreases_to!(*st => st.fields));
                        assert(decreases_to!(st.fields => st.fields@));
                        assert(decreases_to!(st.fields@ => st.fields@[i as int]));
                        assert(decreases_to!(st.fields@[i as int] => st.fields@[i as int].1));
                        assert(decreases_to!(*self => st.fields@[i as int].1));
                        assert(wf_of(st.fields@[i as int].1));
                    }
                    let c = st.fields[i].1.freeze(freezer);
                    out.push((k, c));
                    i = i + 1;
                }
                proof {
                    lemma_fields_view_index(st.fields@);
                    lemma_fro_fields_view_index(out@);
                    assert(fro_fields_view_of(out@) =~= fields_view_of(st.fields@));
                    assert forall|j: int| 0 <= j < out@.len() implies #[trigger] fro_wf_of(
                        out@[j].1,
                    ) by {
                        assert((out@[j]).0@ == st.fields@[j].0@ && out@[j].1.wf());
                    }
                    lemma_fro_wf_fields_index(out@);
                }
                FrozenValue::Struct(StructGen { fields: out })
            },
        }
    }
}

impl Struct {
    /// Freeze a record: an isomorphic frozen record, field order preserved,
    /// each field value frozen depth-first.
    pub fn freeze(self, freezer: &Freezer) -> (r: FrozenStruct)
        requires
            self.wf(),
        ensures
            r@ == self@,
            r.wf(),
    {
        let v = Value::Struct(self);
        let f = v.freeze(freezer);
        match f {
            FrozenValue::Struct(st) => st,
            _ => vstd::pervasive::unreached(),
        }
    }
}

/// Element-wise well-formedness of a frozen value sequence.
pub proof fn lemma_fro_wfs_index(s: Seq<FrozenValue>)
    ensures
        fro_wfs_of(s) <==> forall|i: int| 0 <= i < s.len() ==> #[trigger] fro_wf_of(s[i]),
    decreases s.len(),
{
    if s.len() > 0 {
        let t = s.drop_last();
        lemma_fro_wfs_index(t);
        assert(forall|i: int| 0 <= i < t.len() ==> #[trigger] t[i] == s[i]);
        if fro_wfs_of(s) {
            assert forall|i: int| 0 <= i < s.len() implies #[trigger] fro_wf_of(s[i]) by {
                if i < s.len() - 1 {
                    assert(fro_wf_of(t[i]));
                } else {
                    assert(fro_wf_of(s.last()));
                }
            }
        } else {
            if !fro_wfs_of(t) {
                assert(exists|i: int| 0 <= i < t.len() && !#[trigger] fro_wf_of(t[i]));
                let i = choose|i: int| 0 <= i < t.len() && !#[trigger] fro_wf_of(t[i]);
                assert(!fro_wf_of(s[i]));
            } else {
                assert(!fro_wf_of(s[s.len() - 1]));
            }
        }
    }
}

/// Element-wise well-formedness of a frozen field sequence.
pub proof fn lemma_fro_wf_fields_index(s: Seq<(String, FrozenValue)>)
    ensures
        fro_wf_fields_of(s) <==> forall|i: int| 0 <= i < s.len() ==> #[trigger] fro_wf_of(s[i].1),
    decreases s.len(),
{
    if s.len() > 0 {
        let t = s.drop_last();
        lemma_fro_wf_fields_index(t);
        assert(forall|i: int| 0 <= i < t.len() ==> #[trigger] t[i] == s[i]);
        if fro_wf_fields_of(s) {
            assert forall|i: int| 0 <= i < s.len() implies #[trigger] fro_wf_of(s[i].1) by {
                if i < s.len() - 1 {
                    assert(fro_wf_of(t[i].1));
                } else {
                    assert(fro_wf_of(s.last().1));
                }
            }
        } else {
            if !fro_wf_fields_of(t) {
                assert(exists|i: int| 0 <= i < t.len() && !#[trigger] fro_wf_of(t[i].1));
                let i = choose|i: int| 0 <= i < t.len() && !#[trigger] fro_wf_of(t[i].1);
                assert(!fro_wf_of(s[i].1));
            } else {
                assert(!fro_wf_of(s[s.len() - 1].1));
            }
        }
    }
}

} // verus!
