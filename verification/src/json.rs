//! JSON projection.
//!
//! A record serializes to a JSON object whose member names are the field
//! names verbatim and whose member values are each field's own projection:
//! `None` to `null`, booleans to `true`/`false`, integers to decimal,
//! strings JSON-escaped (quote, backslash and the control characters
//! `\b \f \n \r \t`; the forward slash stays unescaped), lists and nested
//! records recursively.

use vstd::prelude::*;
use crate::value::Value;
use crate::value::ValueView;
use crate::value::FieldsView;
use crate::value::StructGen;
use crate::value::fields_view_of;
use crate::value::views_of;
use crate::value::wfs_of;
use crate::value::wf_fields_of;
use crate::value::lemma_views_index;
use crate::value::lemma_fields_view_index;
use crate::value::lemma_wfs_index;
use crate::value::lemma_wf_fields_index;
use crate::int_or_big::StarlarkInt;
use crate::int_or_big::limbs_val;
use vstd::string::StrSliceExecFns;

verus! {

/// The character for one decimal digit.
pub open spec fn digit_char(d: int) -> char {
    if d == 0 {
        '0'
    } else if d == 1 {
        '1'
    } else if d == 2 {
        '2'
    } else if d == 3 {
        '3'
    } else if d == 4 {
        '4'
    } else if d == 5 {
        '5'
    } else if d == 6 {
        '6'
    } else if d == 7 {
        '7'
    } else if d == 8 {
        '8'
    } else {
        '9'
    }
}

/// Decimal digits of a natural number, most significant first, no leading
/// zeros (a lone zero for 0).
pub open spec fn dec_digits(n: nat) -> Seq<char>
    decreases n,
{
    if n < 10 {
        seq![digit_char(n as int)]
    } else {
        dec_digits(n / 10).push(digit_char((n % 10) as int))
    }
}

/// Decimal notation of an integer: a minus sign and then the magnitude.
pub open spec fn dec_int(i: int) -> Seq<char> {
    if i < 0 {
        seq!['-'] + dec_digits((-i) as nat)
    } else {
        dec_digits(i as nat)
    }
}

/// JSON escape of one character.
pub open spec fn escape_char(c: char) -> Seq<char> {
    if c == '"' {
        seq!['\\', '"']
    } else if c == '\\' {
        seq!['\\', '\\']
    } else if c == '\u{8}' {
        seq!['\\', 'b']
    } else if c == '\u{c}' {
        seq!['\\', 'f']
    } else if c == '\n' {
        seq!['\\', 'n']
    } else if c == '\r' {
        seq!['\\', 'r']
    } else if c == '\t' {
        seq!['\\', 't']
    } else {
        seq![c]
    }
}

/// JSON escape of a whole string.
pub open spec fn escape_str(s: Seq<char>) -> Seq<char>
    decreases s.len(),
{
    if s.len() == 0 {
        Seq::empty()
    } else {
        escape_str(s.drop_last()) + escape_char(s.last())
    }
}

/// The JSON projection of a value model.
pub open spec fn json_of(v: ValueView) -> Seq<char>
    decreases v,
{
    match v {
        ValueView::NoneType => "null"@,
        ValueView::Bool(b) => if b {
            "true"@
        } else {
            "false"@
        },
        ValueView::Int(i) => dec_int(i),
        ValueView::Str(s) => seq!['"'] + escape_str(s) + seq!['"'],
        ValueView::List(xs) => seq!['['] + json_items(xs) + seq![']'],
        ValueView::Struct(fs) => seq!['{'] + json_members(fs) + seq!['}'],
    }
}

/// Comma-joined projections of list items.
pub open spec fn json_items(xs: Seq<ValueView>) -> Seq<char>
    decreases xs,
{
    if xs.len() == 0 {
        Seq::empty()
    } else if xs.len() == 1 {
        json_of(xs[0])
    } else {
        json_items(xs.drop_last()) + seq![','] + json_of(xs.last())
    }
}

/// One record member: quoted name, colon, projected value.
pub open spec fn json_member(kv: (Seq<char>, ValueView)) -> Seq<char>
    decreases kv,
{
    seq!['"'] + escape_str(kv.0) + seq!['"', ':'] + json_of(kv.1)
}

/// Comma-joined members of a record.
pub open spec fn json_members(fs: FieldsView) -> Seq<char>
    decreases fs,
{
    if fs.len() == 0 {
        Seq::empty()
    } else if fs.len() == 1 {
        json_member(fs[0])
    } else {
        json_members(fs.drop_last()) + seq![','] + json_member(fs.last())
    }
}

/// One decimal digit as a character.
fn digit_char_exec(d: u64) -> (c: char)
    requires
        d < 10,
    ensures
        c == digit_char(d as int),
{
    if d == 0 {
        '0'
    } else if d == 1 {
        '1'
    } else if d == 2 {
        '2'
    } else if d == 3 {
        '3'
    } else if d == 4 {
        '4'
    } else if d == 5 {
        '5'
    } else if d == 6 {
        '6'
    } else if d == 7 {
        '7'
    } else if d == 8 {
        '8'
    } else {
        '9'
    }
}

/// Append the decimal digits of a magnitude.
fn push_dec_u64(m: u64, out: &mut Vec<char>)
    ensures
        final(out)@ == old(out)@ + dec_digits(m as nat),
    decreases m,
{
    if m < 10 {
        out.push(digit_char_exec(m));
        proof {
            assert(out@ =~= old(out)@ + dec_digits(m as nat));
        }
    } else {
        proof {
            assert(m / 10 < m) by (nonlinear_arith)
                requires m >= 10,
            ;
        }
        push_dec_u64(m / 10, out);
        out.push(digit_char_exec(m % 10));
        proof {
            assert(out@ =~= old(out)@ + dec_digits(m as nat));
        }
    }
}

/// Relies on `num_bigint::BigInt::new` (little-endian base-2^32 digits) and
/// its `Display` impl: base-10 notation of the value, a `-` prefix for a
/// negative value, no leading zeros. The digits handed over are normalized
/// and nonzero, so the sign is never the empty case.
#[verifier::external_body]
fn big_dec_chars(negative: bool, limbs: &Vec<u32>) -> (r: Vec<char>)
    requires
        limbs@.len() >= 1,
        limbs@.last() != 0,
    ensures
        r@ == dec_int(
            if negative {
                -limbs_val(limbs@)
            } else {
                limbs_val(limbs@)
            },
        ),
{
    let sign = if negative {
        num_bigint::Sign::Minus
    } else {
        num_bigint::Sign::Plus
    };
    let b = num_bigint::BigInt::new(sign, limbs.clone());
    b.to_string().chars().collect()
}

/// Append the decimal notation of an integer backing.
pub(crate) fn int_push(si: &StarlarkInt, out: &mut Vec<char>)
    requires
        si.wf(),
    ensures
        final(out)@ == old(out)@ + dec_int(si.ival()),
{
    match si {
        StarlarkInt::Small(x) => {
            let v = *x as i64;
            if v < 0 {
                out.push('-');
                push_dec_u64((-v) as u64, out);
                proof {
                    assert(out@ =~= old(out)@ + dec_int(si.ival()));
                }
            } else {
                push_dec_u64(v as u64, out);
            }
        },
        StarlarkInt::Big(b) => {
            let mut chars = big_dec_chars(b.negative, &b.limbs);
            out.append(&mut chars);
        },
    }
}

/// Append the JSON escape of a string.
#[verifier::loop_isolation(false)]
pub(crate) fn escape_push(s: &str, out: &mut Vec<char>)
    ensures
        final(out)@ == old(out)@ + escape_str(s@),
{
    let n = s.unicode_len();
    let mut i: usize = 0;
    while i < n
        invariant
            n == s@.len(),
            i <= n,
            out@ == old(out)@ + escape_str(s@.subrange(0, i as int)),
        decreases n - i,
    {
        let c = s.get_char(i);
        if c == '"' {
            out.push('\\');
            out.push('"');
        } else if c == '\\' {
            out.push('\\');
            out.push('\\');
        } else if c == '\u{8}' {
            out.push('\\');
            out.push('b');
        } else if c == '\u{c}' {
            out.push('\\');
            out.push('f');
        } else if c == '\n' {
            out.push('\\');
            out.push('n');
        } else if c == '\r' {
            out.push('\\');
            out.push('r');
        } else if c == '\t' {
            out.push('\\');
            out.push('t');
        } else {
            out.push(c);
        }
        proof {
            let pre = s@.subrange(0, i as int);
            let nxt = s@.subrange(0, i + 1);
            assert(nxt.drop_last() =~= pre);
            assert(nxt.last() == s@[i as int]);
            assert(escape_str(nxt) == escape_str(pre) + escape_char(s@[i as int]));
            assert(out@ =~= old(out)@ + escape_str(nxt));
        }
        i = i + 1;
    }
    proof {
        assert(s@.subrange(0, n as int) =~= s@);
    }
}

/// Append the JSON projection of a value.
#[verifier::loop_isolation(false)]
fn json_push(v: &Value, out: &mut Vec<char>)
    requires
        v.wf(),
    ensures
        final(out)@ == old(out)@ + json_of(v@),
    decreases *v,
{
    match v {
        Value::NoneType => {
            out.push('n');
            out.push('u');
            out.push('l');
            out.push('l');
            proof {
                reveal_strlit("null");
                assert(out@ =~= old(out)@ + "null"@);
            }
        },
        Value::Bool(b) => {
            if *b {
                out.push('t');
                out.push('r');
                out.push('u');
                out.push('e');
                proof {
                    reveal_strlit("true");
                    assert(out@ =~= old(out)@ + "true"@);
                }
            } else {
                out.push('f');
                out.push('a');
                out.push('l');
                out.push('s');
                out.push('e');
                proof {
                    reveal_strlit("false");
                    assert(out@ =~= old(out)@ + "false"@);
                }
            }
        },
        Value::Int(si) => {
            int_push(si, out);
        },
        Value::Str(s) => {
            out.push('"');
            escape_push(s.as_str(), out);
            out.push('"');
            proof {
                assert(out@ =~= old(out)@ + json_of(v@));
            }
        },
        Value::List(xs) => {
            proof {
                assert(decreases_to!(*v => (*v)->List_0));
                assert((*v)->List_0 == *xs);
                assert(decreases_to!(*xs => xs@));
            }
            out.push('[');
            json_items_push(xs, out);
            out.push(']');
            proof {
                assert(out@ =~= old(out)@ + json_of(v@));
            }
        },
        Value::Struct(st) => {
            proof {
                assert(decreases_to!(*v => (*v)->Struct_0));
                assert((*v)->Struct_0 == *st);
                assert(decreases_to!(*st => st.fields));
                assert(decreases_to!(st.fields => st.fields@));
            }
            out.push('{');
            json_members_push(&st.fields, out);
            out.push('}');
            proof {
                assert(out@ =~= old(out)@ + json_of(v@));
            }
        },
    }
}

/// Append the comma-joined projections of list items.
#[verifier::loop_isolation(false)]
fn json_items_push(xs: &Vec<Value>, out: &mut Vec<char>)
    requires
        wfs_of(xs@),
    ensures
        final(out)@ == old(out)@ + json_items(views_of(xs@)),
    decreases xs@,
{
    let ghost vs = views_of(xs@);
    proof {
        lemma_views_index(xs@);
        lemma_wfs_index(xs@);
    }
    let n = xs.len();
    let mut i: usize = 0;
    while i < n
        invariant
            i <= n,
            out@ == old(out)@ + json_items(vs.subrange(0, i as int)),
        decreases n - i,
    {
        if i > 0 {
            out.push(',');
        }
        proof {
            assert(decreases_to!(xs@ => xs@[i as int]));
        }
        json_push(&xs[i], out);
        proof {
            let pre = vs.subrange(0, i as int);
            let nxt = vs.subrange(0, i + 1);
            assert(nxt.drop_last() =~= pre);
            assert(nxt.last() == vs[i as int]);
            if i == 0 {
                assert(json_items(nxt) == json_of(vs[0]));
            } else {
                assert(json_items(nxt) == json_items(pre) + seq![','] + json_of(vs[i as int]));
            }
            assert(out@ =~= old(out)@ + json_items(nxt));
        }
        i = i + 1;
    }
    proof {
        assert(vs.subrange(0, n as int) =~= vs);
    }
}

/// Append the comma-joined members of a record.
#[verifier::loop_isolation(false)]
fn json_members_push(fields: &Vec<(String, Value)>, out: &mut Vec<char>)
    requires
        wf_fields_of(fields@),
    ensures
        final(out)@ == old(out)@ + json_members(fields_view_of(fields@)),
    decreases fields@,
{
    let ghost fs = fields_view_of(fields@);
    proof {
        lemma_fields_view_index(fields@);
        lemma_wf_fields_index(fields@);
    }
    let n = fields.len();
    let mut i: usize = 0;
    while i < n
        invariant
            i <= n,
            out@ == old(out)@ + json_members(fs.subrange(0, i as int)),
        decreases n - i,
    {
        if i > 0 {
            out.push(',');
        }
        let ghost mid = out@;
        out.push('"');
        escape_push(fields[i].0.as_str(), out);
        out.push('"');
        out.push(':');
        proof {
            assert(decreases_to!(fields@ => fields@[i as int]));
            assert(decreases_to!(fields@[i as int] => fields@[i as int].1));
        }
        json_push(&fields[i].1, out);
        proof {
            let pre = fs.subrange(0, i as int);
            let nxt = fs.subrange(0, i + 1);
            assert(nxt.drop_last() =~= pre);
            assert(nxt.last() == fs[i as int]);
            assert(out@ =~= mid + json_member(fs[i as int]));
            if i == 0 {
                assert(json_members(nxt) == json_member(fs[0]));
            } else {
                assert(json_members(nxt) == json_members(pre) + seq![','] + json_member(
                    fs[i as int],
                ));
            }
            assert(out@ =~= old(out)@ + json_members(nxt));
        }
        i = i + 1;
    }
    proof {
        assert(fs.subrange(0, n as int) =~= fs);
    }
}

/// Relies on `String: FromIterator<char>`: collecting characters yields
/// exactly those characters, in order.
#[verifier::external_body]
pub(crate) fn chars_to_string(v: &Vec<char>) -> (r: String)
    ensures
        r@ == v@,
{
    v.iter().collect()
}

impl Value {
    /// The JSON projection of this value.
    pub fn to_json(&self) -> (r: String)
        requires
            self.wf(),
        ensures
            r@ == json_of(self@),
    {
        let mut out: Vec<char> = Vec::new();
        json_push(self, &mut out);
        chars_to_string(&out)
    }
}

impl StructGen<Value> {
    /// The JSON projection of this record: a JSON object with the field
    /// names verbatim, members in storage order.
    pub fn to_json(&self) -> (r: String)
        requires
            self.wf(),
        ensures
            r@ == json_of(ValueView::Struct(self@)),
    {
        let mut out: Vec<char> = Vec::new();
        out.push('{');
        json_members_push(&self.fields, &mut out);
        out.push('}');
        proof {
            assert(out@ =~= json_of(ValueView::Struct(fields_view_of(self.fields@))));
        }
        chars_to_string(&out)
    }
}

} // verus!
