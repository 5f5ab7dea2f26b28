//! Display of dynamic values.
//!
//! A record renders as `struct(k1=v1, k2=v2, ...)` in field-storage order,
//! recursively displaying each value: `None`, `True` and `False` for the
//! scalars, decimal for integers, quoted-and-escaped text for strings and
//! `[a, b]` for lists.

use vstd::prelude::*;
use crate::value::Value;
use crate::value::ValueView;
use crate::value::FieldsView;
use crate::value::StructGen;
use crate::value::fields_view_of;
use crate::value::views_of;
use crate::value::wfs_of;
use crate::value::wf_fields_of;
use crate::value::lemma_views_index;
use crate::value::lemma_fields_view_index;
use crate::value::lemma_wfs_index;
use crate::value::lemma_wf_fields_index;
use crate::json::dec_int;
use crate::json::escape_str;
use crate::json::int_push;
use crate::json::escape_push;
use crate::json::chars_to_string;

verus! {

/// The display form of a value model.
pub open spec fn display_of(v: ValueView) -> Seq<char>
    decreases v,
{
    match v {
        ValueView::NoneType => "None"@,
        ValueView::Bool(b) => if b {
            "True"@
        } else {
            "False"@
        },
        ValueView::Int(i) => dec_int(i),
        ValueView::Str(s) => seq!['"'] + escape_str(s) + seq!['"'],
        ValueView::List(xs) => seq!['['] + display_items(xs) + seq![']'],
        ValueView::Struct(fs) => "struct("@ + display_members(fs) + seq![')'],
    }
}

/// Comma-joined display of list items.
pub open spec fn display_items(xs: Seq<ValueView>) -> Seq<char>
    decreases xs,
{
    if xs.len() == 0 {
        Seq::empty()
    } else if xs.len() == 1 {
        display_of(xs[0])
    } else {
        display_items(xs.drop_last()) + seq![',', ' '] + display_of(xs.last())
    }
}

/// One displayed member: name, equals sign, displayed value.
pub open spec fn display_member(kv: (Seq<char>, ValueView)) -> Seq<char>
    decreases kv,
{
    kv.0 + seq!['='] + display_of(kv.1)
}

/// Comma-joined members of a record.
pub open spec fn display_members(fs: FieldsView) -> Seq<char>
    decreases fs,
{
    if fs.len() == 0 {
        Seq::empty()
    } else if fs.len() == 1 {
        display_member(fs[0])
    } else {
        display_members(fs.drop_last()) + seq![',', ' '] + display_member(fs.last())
    }
}

/// Append a string's characters unescaped.
#[verifier::loop_isolation(false)]
fn raw_push(s: &str, out: &mut Vec<char>)
    ensures
        final(out)@ == old(out)@ + s@,
{
    let n = s.unicode_len();
    let mut i: usize = 0;
    while i < n
        invariant
            n == s@.len(),
            i <= n,
            out@ == old(out)@ + s@.subrange(0, i as int),
        decreases n - i,
    {
        out.push(s.get_char(i));
        proof {
            assert(s@.subrange(0, i + 1) =~= s@.subrange(0, i as int).push(s@[i as int]));
            assert(out@ =~= old(out)@ + s@.subrange(0, i + 1));
        }
        i = i + 1;
    }
    proof {
        assert(s@.subrange(0, n as int) =~= s@);
    }
}

/// Append the display form of a value.
#[verifier::loop_isolation(false)]
fn display_push(v: &Value, out: &mut Vec<char>)
    requires
        v.wf(),
    ensures
        final(out)@ == old(out)@ + display_of(v@),
    decreases *v,
{
    match v {
        Value::NoneType => {
            out.push('N');
            out.push('o');
            out.push('n');
            out.push('e');
            proof {
                reveal_strlit("None");
                assert(out@ =~= old(out)@ + "None"@);
            }
        },
        Value::Bool(b) => {
            if *b {
                out.push('T');
                out.push('r');
                out.push('u');
                out.push('e');
                proof {
                    reveal_strlit("True");
                    assert(out@ =~= old(out)@ + "True"@);
                }
            } else {
                out.push('F');
                out.push('a');
                out.push('l');
                out.push('s');
                out.push('e');
                proof {
                    reveal_strlit("False");
                    assert(out@ =~= old(out)@ + "False"@);
                }
            }
        },
        Value::Int(si) => {
            int_push(si, out);
        },
        Value::Str(s) => {
            out.push('"');
            escape_push(s.as_str(), out);
            out.push('"');
            proof {
                assert(out@ =~= old(out)@ + display_of(v@));
            }
        },
        Value::List(xs) => {
            proof {
                assert(decreases_to!(*v => (*v)->List_0));
                assert((*v)->List_0 == *xs);
                assert(decreases_to!(*xs => xs@));
            }
            out.push('[');
            display_items_push(xs, out);
            out.push(']');
            proof {
                assert(out@ =~= old(out)@ + display_of(v@));
            }
        },
        Value::Struct(st) => {
            proof {
                assert(decreases_to!(*v => (*v)->Struct_0));
                assert((*v)->Struct_0 == *st);
                assert(decreases_to!(*st => st.fields));
                assert(decreases_to!(st.fields => st.fields@));
            }
            out.push('s');
            out.push('t');
            out.push('r');
            out.push('u');
            out.push('c');
            out.push('t');
            out.push('(');
            proof {
                reveal_strlit("struct(");
                assert(out@ =~= old(out)@ + "struct("@);
            }
            display_members_push(&st.fields, out);
            out.push(')');
            proof {
                assert(out@ =~= old(out)@ + display_of(v@));
            }
        },
    }
}

/// Append the comma-joined display of list items.
#[verifier::loop_isolation(false)]
fn display_items_push(xs: &Vec<Value>, out: &mut Vec<char>)
    requires
        wfs_of(xs@),
    ensures
        final(out)@ == old(out)@ + display_items(views_of(xs@)),
    decreases xs@,
{
    let ghost vs = views_of(xs@);
    proof {
        lemma_views_index(xs@);
        lemma_wfs_index(xs@);
    }
    let n = xs.len();
    let mut i: usize = 0;
    while i < n
        invariant
            i <= n,
            out@ == old(out)@ + display_items(vs.subrange(0, i as int)),
        decreases n - i,
    {
        if i > 0 {
            out.push(',');
            out.push(' ');
        }
        proof {
            assert(decreases_to!(xs@ => xs@[i as int]));
        }
        display_push(&xs[i], out);
        proof {
            let pre = vs.subrange(0, i as int);
            let nxt = vs.subrange(0, i + 1);
            assert(nxt.drop_last() =~= pre);
            assert(nxt.last() == vs[i as int]);
            if i == 0 {
                assert(display_items(nxt) == display_of(vs[0]));
            } else {
                assert(display_items(nxt) == display_items(pre) + seq![',', ' '] + display_of(
                    vs[i as int],
                ));
            }
            assert(out@ =~= old(out)@ + display_items(nxt));
        }
        i = i + 1;
    }
    proof {
        assert(vs.subrange(0, n as int) =~= vs);
    }
}

/// Append the comma-joined display of a record's members.
#[verifier::loop_isolation(false)]
fn display_members_push(fields: &Vec<(String, Value)>, out: &mut Vec<char>)
    requires
        wf_fields_of(fields@),
    ensures
        final(out)@ == old(out)@ + display_members(fields_view_of(fields@)),
    decreases fields@,
{
    let ghost fs = fields_view_of(fields@);
    proof {
        lemma_fields_view_index(fields@);
        lemma_wf_fields_index(fields@);
    }
    let n = fields.len();
    let mut i: usize = 0;
    while i < n
        invariant
            i <= n,
            out@ == old(out)@ + display_members(fs.subrange(0, i as int)),
        decreases n - i,
    {
        if i > 0 {
            out.push(',');
            out.push(' ');
        }
        let ghost mid = out@;
        raw_push(fields[i].0.as_str(), out);
        out.push('=');
        proof {
            assert(decreases_to!(fields@ => fields@[i as int]));
            assert(decreases_to!(fields@[i as int] => fields@[i as int].1));
        }
        display_push(&fields[i].1, out);
        proof {
            let pre = fs.subrange(0, i as int);
            let nxt = fs.subrange(0, i + 1);
            assert(nxt.drop_last() =~= pre);
            assert(nxt.last() == fs[i as int]);
            assert(out@ =~= mid + display_member(fs[i as int]));
            if i == 0 {
                assert(display_members(nxt) == display_member(fs[0]));
            } else {
                assert(display_members(nxt) == display_members(pre) + seq![',', ' ']
                    + display_member(fs[i as int]));
            }
            assert(out@ =~= old(out)@ + display_members(nxt));
        }
        i = i + 1;
    }
    proof {
        assert(fs.subrange(0, n as int) =~= fs);
    }
}

impl Value {
    /// The display form of this value.
    pub fn to_display(&self) -> (r: String)
        requires
            self.wf(),
        ensures
            r@ == display_of(self@),
    {
        let mut out: Vec<char> = Vec::new();
        display_push(self, &mut out);
        chars_to_string(&out)
    }
}

impl StructGen<Value> {
    /// Render the record: `struct(k1=v1, k2=v2, ...)`, in storage order.
    pub fn fmt(&self) -> (r: String)
        requires
            self.wf(),
        ensures
            r@ == display_of(ValueView::Struct(self@)),
    {
        let mut out: Vec<char> = Vec::new();
        out.push('s');
        out.push('t');
        out.push('r');
        out.push('u');
        out.push('c');
        out.push('t');
        out.push('(');
        proof {
            reveal_strlit("struct(");
            assert(out@ =~= "struct("@);
        }
        display_members_push(&self.fields, &mut out);
        out.push(')');
        proof {
            assert(out@ =~= display_of(ValueView::Struct(fields_view_of(self.fields@))));
        }
        chars_to_string(&out)
    }
}

} // verus!
