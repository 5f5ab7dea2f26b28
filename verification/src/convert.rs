//! The native/dynamic conversion protocol.
//!
//! Three independent capabilities a native type may implement: declare a
//! canonical type descriptor, construct a dynamic value from a native one
//! (always succeeds), and attempt to extract a native value back out of a
//! dynamic one (absence is the uniform failure channel: a wrong dynamic
//! type and an out-of-range number are reported identically).

use vstd::prelude::*;
use vstd::arithmetic::power2::pow2;
use vstd::arithmetic::power2::lemma_pow2_adds;
use vstd::arithmetic::power2::lemma2_to64;
use vstd::arithmetic::power2::lemma_pow2_pos;
use crate::ty::Ty;
use crate::value::Value;
use crate::value::ValueView;
use crate::value::FrozenValue;
use crate::value::StructGen;
use crate::value::fields_view_of;
use crate::value::views_of;
use crate::value::wfs_of;
use crate::value::lemma_views_index;
use crate::value::lemma_wfs_index;
use crate::int_or_big::StarlarkInt;
use crate::heap::Heap;
use crate::heap::FrozenHeap;
use vstd::string::StringExecFns;

verus! {

/// Declare the canonical type descriptor a native type presents as. The
/// descriptor is stable: it depends on the type alone, never on a value.
pub trait StarlarkTypeRepr {
    /// The descriptor itself, at the specification level.
    spec fn canonical_ty() -> Ty;

    /// The descriptor this native type presents as.
    fn starlark_type_repr() -> (r: Ty)
        ensures
            r == Self::canonical_ty(),
    ;
}

/// Construct a dynamic value in the mutable arena from a native value.
pub trait AllocValue: StarlarkTypeRepr + Sized {
    /// The model of the dynamic value this native value becomes.
    spec fn alloc_spec(self) -> ValueView;

    /// Validity of the native value itself (true for plain natives).
    spec fn alloc_req(self) -> bool;

    /// Wrap the native value into a handle tied to the given arena.
    fn alloc_value(self, heap: &Heap) -> (r: Value)
        requires
            self.alloc_req(),
        ensures
            r.wf(),
            r@ == self.alloc_spec(),
    ;
}

/// Construct a dynamic value in the frozen arena from a native value.
pub trait AllocFrozenValue: StarlarkTypeRepr + Sized {
    /// The model of the dynamic value this native value becomes.
    spec fn alloc_frozen_spec(self) -> ValueView;

    /// Validity of the native value itself (true for plain natives).
    spec fn alloc_frozen_req(self) -> bool;

    /// Wrap the native value into a handle tied to the frozen arena.
    fn alloc_frozen_value(self, heap: &FrozenHeap) -> (r: FrozenValue)
        requires
            self.alloc_frozen_req(),
        ensures
            r.wf(),
            r@ == self.alloc_frozen_spec(),
    ;
}

/// Attempt to extract a native value from a dynamic one. `None` is the
/// uniform absence signal; extraction never raises a hard error.
pub trait UnpackValue: StarlarkTypeRepr + Sized {
    /// Model of the native value (e.g. a string's character sequence).
    type M;

    /// The model of this native value.
    spec fn m(self) -> Self::M;

    /// What extraction yields on each dynamic value, if anything.
    spec fn unpack_spec(v: ValueView) -> Option<Self::M>;

    /// Attempt the extraction.
    fn unpack_value(value: &Value) -> (r: Option<Self>)
        requires
            value.wf(),
        ensures
            r.is_some() == Self::unpack_spec(value@).is_some(),
            r.is_some() ==> Self::unpack_spec(value@) == Some(r.unwrap().m()),
    ;
}

/// The dynamic `None` value's native counterpart.
#[derive(Clone, Copy, Debug, PartialEq, Eq, Structural)]
pub struct NoneType;

impl StarlarkTypeRepr for u32 {
    open spec fn canonical_ty() -> Ty {
        Ty::Int
    }

    fn starlark_type_repr() -> (r: Ty) {
        Ty::Int
    }
}

impl AllocValue for u32 {
    open spec fn alloc_spec(self) -> ValueView {
        ValueView::Int(self as int)
    }

    open spec fn alloc_req(self) -> bool {
        true
    }

    fn alloc_value(self, heap: &Heap) -> (r: Value) {
        Value::Int(StarlarkInt::from_u32(self))
    }
}

impl AllocFrozenValue for u32 {
    open spec fn alloc_frozen_spec(self) -> ValueView {
        ValueView::Int(self as int)
    }

    open spec fn alloc_frozen_req(self) -> bool {
        true
    }

    fn alloc_frozen_value(self, heap: &FrozenHeap) -> (r: FrozenValue) {
        FrozenValue::Int(StarlarkInt::from_u32(self))
    }
}

impl UnpackValue for u32 {
    type M = u32;

    open spec fn m(self) -> u32 {
        self
    }

    open spec fn unpack_spec(v: ValueView) -> Option<u32> {
        match v {
            ValueView::Int(i) => if 0 <= i <= u32::MAX as int {
                Some(i as u32)
            } else {
                None
            },
            _ => None,
        }
    }

    fn unpack_value(value: &Value) -> (r: Option<u32>) {
        match value {
            Value::Int(si) => si.to_u32(),
            _ => None,
        }
    }
}

impl StarlarkTypeRepr for u64 {
    open spec fn canonical_ty() -> Ty {
        Ty::Int
    }

    fn starlark_type_repr() -> (r: Ty) {
        Ty::Int
    }
}

impl AllocValue for u64 {
    open spec fn alloc_spec(self) -> ValueView {
        ValueView::Int(self as int)
    }

    open spec fn alloc_req(self) -> bool {
        true
    }

    fn alloc_value(self, heap: &Heap) -> (r: Value) {
        Value::Int(StarlarkInt::from_u64(self))
    }
}

impl AllocFrozenValue for u64 {
    open spec fn alloc_frozen_spec(self) -> ValueView {
        ValueView::Int(self as int)
    }

    open spec fn alloc_frozen_req(self) -> bool {
        true
    }

    fn alloc_frozen_value(self, heap: &FrozenHeap) -> (r: FrozenValue) {
        FrozenValue::Int(StarlarkInt::from_u64(self))
    }
}

impl UnpackValue for u64 {
    type M = u64;

    open spec fn m(self) -> u64 {
        self
    }

    open spec fn unpack_spec(v: ValueView) -> Option<u64> {
        match v {
            ValueView::Int(i) => if 0 <= i <= u64::MAX as int {
                Some(i as u64)
            } else {
                None
            },
            _ => None,
        }
    }

    fn unpack_value(value: &Value) -> (r: Option<u64>) {
        match value {
            Value::Int(si) => si.to_u64(),
            _ => None,
        }
    }
}

impl StarlarkTypeRepr for i64 {
    open spec fn canonical_ty() -> Ty {
        Ty::Int
    }

    fn starlark_type_repr() -> (r: Ty) {
        Ty::Int
    }
}

impl AllocValue for i64 {
    open spec fn alloc_spec(self) -> ValueView {
        ValueView::Int(self as int)
    }

    open spec fn alloc_req(self) -> bool {
        true
    }

    fn alloc_value(self, heap: &Heap) -> (r: Value) {
        Value::Int(StarlarkInt::from_i64(self))
    }
}

impl AllocFrozenValue for i64 {
    open spec fn alloc_frozen_spec(self) -> ValueView {
        ValueView::Int(self as int)
    }

    open spec fn alloc_frozen_req(self) -> bool {
        true
    }

    fn alloc_frozen_value(self, heap: &FrozenHeap) -> (r: FrozenValue) {
        FrozenValue::Int(StarlarkInt::from_i64(self))
    }
}

impl UnpackValue for i64 {
    type M = i64;

    open spec fn m(self) -> i64 {
        self
    }

    open spec fn unpack_spec(v: ValueView) -> Option<i64> {
        match v {
            ValueView::Int(i) => if i64::MIN as int <= i <= i64::MAX as int {
                Some(i as i64)
            } else {
                None
            },
            _ => None,
        }
    }

    fn unpack_value(value: &Value) -> (r: Option<i64>) {
        match value {
            Value::Int(si) => si.to_i64(),
            _ => None,
        }
    }
}

impl StarlarkTypeRepr for usize {
    open spec fn canonical_ty() -> Ty {
        Ty::Int
    }

    fn starlark_type_repr() -> (r: Ty) {
        Ty::Int
    }
}

impl AllocValue for usize {
    open spec fn alloc_spec(self) -> ValueView {
        ValueView::Int(self as int)
    }

    open spec fn alloc_req(self) -> bool {
        true
    }

    fn alloc_value(self, heap: &Heap) -> (r: Value) {
        Value::Int(StarlarkInt::from_usize(self))
    }
}

impl AllocFrozenValue for usize {
    open spec fn alloc_frozen_spec(self) -> ValueView {
        ValueView::Int(self as int)
    }

    open spec fn alloc_frozen_req(self) -> bool {
        true
    }

    fn alloc_frozen_value(self, heap: &FrozenHeap) -> (r: FrozenValue) {
        FrozenValue::Int(StarlarkInt::from_usize(self))
    }
}

impl UnpackValue for usize {
    type M = usize;

    open spec fn m(self) -> usize {
        self
    }

    open spec fn unpack_spec(v: ValueView) -> Option<usize> {
        match v {
            ValueView::Int(i) => if 0 <= i <= usize::MAX as int {
                Some(i as usize)
            } else {
                None
            },
            _ => None,
        }
    }

    fn unpack_value(value: &Value) -> (r: Option<usize>) {
        match value {
            Value::Int(si) => si.to_usize(),
            _ => None,
        }
    }
}

impl StarlarkTypeRepr for isize {
    open spec fn canonical_ty() -> Ty {
        Ty::Int
    }

    fn starlark_type_repr() -> (r: Ty) {
        Ty::Int
    }
}

impl AllocValue for isize {
    open spec fn alloc_spec(self) -> ValueView {
        ValueView::Int(self as int)
    }

    open spec fn alloc_req(self) -> bool {
        true
    }

    fn alloc_value(self, heap: &Heap) -> (r: Value) {
        Value::Int(StarlarkInt::from_isize(self))
    }
}

impl AllocFrozenValue for isize {
    open spec fn alloc_frozen_spec(self) -> ValueView {
        ValueView::Int(self as int)
    }

    open spec fn alloc_frozen_req(self) -> bool {
        true
    }

    fn alloc_frozen_value(self, heap: &FrozenHeap) -> (r: FrozenValue) {
        FrozenValue::Int(StarlarkInt::from_isize(self))
    }
}

impl UnpackValue for isize {
    type M = isize;

    open spec fn m(self) -> isize {
        self
    }

    open spec fn unpack_spec(v: ValueView) -> Option<isize> {
        match v {
            ValueView::Int(i) => if isize::MIN as int <= i <= isize::MAX as int {
                Some(i as isize)
            } else {
                None
            },
            _ => None,
        }
    }

    fn unpack_value(value: &Value) -> (r: Option<isize>) {
        match value {
            Value::Int(si) => si.to_isize(),
            _ => None,
        }
    }
}

impl StarlarkTypeRepr for StarlarkInt {
    open spec fn canonical_ty() -> Ty {
        Ty::Int
    }

    fn starlark_type_repr() -> (r: Ty) {
        Ty::Int
    }
}

impl AllocValue for StarlarkInt {
    open spec fn alloc_spec(self) -> ValueView {
        ValueView::Int(self.ival())
    }

    open spec fn alloc_req(self) -> bool {
        self.wf()
    }

    fn alloc_value(self, heap: &Heap) -> (r: Value) {
        Value::Int(self)
    }
}

impl AllocFrozenValue for StarlarkInt {
    open spec fn alloc_frozen_spec(self) -> ValueView {
        ValueView::Int(self.ival())
    }

    open spec fn alloc_frozen_req(self) -> bool {
        self.wf()
    }

    fn alloc_frozen_value(self, heap: &FrozenHeap) -> (r: FrozenValue) {
        FrozenValue::Int(self)
    }
}

impl UnpackValue for StarlarkInt {
    type M = int;

    open spec fn m(self) -> int {
        self.ival()
    }

    open spec fn unpack_spec(v: ValueView) -> Option<int> {
        match v {
            ValueView::Int(i) => Some(i),
            _ => None,
        }
    }

    fn unpack_value(value: &Value) -> (r: Option<StarlarkInt>) {
        match value {
            Value::Int(si) => Some(si.dup()),
            _ => None,
        }
    }
}

impl StarlarkTypeRepr for bool {
    open spec fn canonical_ty() -> Ty {
        Ty::Bool
    }

    fn starlark_type_repr() -> (r: Ty) {
        Ty::Bool
    }
}

impl AllocValue for bool {
    open spec fn alloc_spec(self) -> ValueView {
        ValueView::Bool(self)
    }

    open spec fn alloc_req(self) -> bool {
        true
    }

    fn alloc_value(self, heap: &Heap) -> (r: Value) {
        Value::Bool(self)
    }
}

impl AllocFrozenValue for bool {
    open spec fn alloc_frozen_spec(self) -> ValueView {
        ValueView::Bool(self)
    }

    open spec fn alloc_frozen_req(self) -> bool {
        true
    }

    fn alloc_frozen_value(self, heap: &FrozenHeap) -> (r: FrozenValue) {
        FrozenValue::Bool(self)
    }
}

impl UnpackValue for bool {
    type M = bool;

    open spec fn m(self) -> bool {
        self
    }

    open spec fn unpack_spec(v: ValueView) -> Option<bool> {
        match v {
            ValueView::Bool(b) => Some(b),
            _ => None,
        }
    }

    fn unpack_value(value: &Value) -> (r: Option<bool>) {
        match value {
            Value::Bool(b) => Some(*b),
            _ => None,
        }
    }
}

impl StarlarkTypeRepr for NoneType {
    open spec fn canonical_ty() -> Ty {
        Ty::NoneType
    }

    fn starlark_type_repr() -> (r: Ty) {
        Ty::NoneType
    }
}

impl AllocValue for NoneType {
    open spec fn alloc_spec(self) -> ValueView {
        ValueView::NoneType
    }

    open spec fn alloc_req(self) -> bool {
        true
    }

    fn alloc_value(self, heap: &Heap) -> (r: Value) {
        Value::NoneType
    }
}

impl AllocFrozenValue for NoneType {
    open spec fn alloc_frozen_spec(self) -> ValueView {
        ValueView::NoneType
    }

    open spec fn alloc_frozen_req(self) -> bool {
        true
    }

    fn alloc_frozen_value(self, heap: &FrozenHeap) -> (r: FrozenValue) {
        FrozenValue::NoneType
    }
}

impl UnpackValue for NoneType {
    type M = ();

    open spec fn m(self) -> () {
        ()
    }

    open spec fn unpack_spec(v: ValueView) -> Option<()> {
        match v {
            ValueView::NoneType => Some(()),
            _ => None,
        }
    }

    fn unpack_value(value: &Value) -> (r: Option<NoneType>) {
        match value {
            Value::NoneType => Some(NoneType),
            _ => None,
        }
    }
}

impl StarlarkTypeRepr for String {
    open spec fn canonical_ty() -> Ty {
        Ty::Str
    }

    fn starlark_type_repr() -> (r: Ty) {
        Ty::Str
    }
}

impl AllocValue for String {
    open spec fn alloc_spec(self) -> ValueView {
        ValueView::Str(self@)
    }

    open spec fn alloc_req(self) -> bool {
        true
    }

    fn alloc_value(self, heap: &Heap) -> (r: Value) {
        Value::Str(self)
    }
}

impl AllocFrozenValue for String {
    open spec fn alloc_frozen_spec(self) -> ValueView {
        ValueView::Str(self@)
    }

    open spec fn alloc_frozen_req(self) -> bool {
        true
    }

    fn alloc_frozen_value(self, heap: &FrozenHeap) -> (r: FrozenValue) {
        FrozenValue::Str(self)
    }
}

impl UnpackValue for String {
    type M = Seq<char>;

    open spec fn m(self) -> Seq<char> {
        self@
    }

    open spec fn unpack_spec(v: ValueView) -> Option<Seq<char>> {
        match v {
            ValueView::Str(s) => Some(s),
            _ => None,
        }
    }

    fn unpack_value(value: &Value) -> (r: Option<String>) {
        match value {
            Value::Str(s) => Some(s.clone()),
            _ => None,
        }
    }
}

impl StarlarkTypeRepr for StructGen<Value> {
    open spec fn canonical_ty() -> Ty {
        Ty::Struct
    }

    fn starlark_type_repr() -> (r: Ty) {
        Ty::Struct
    }
}

impl AllocValue for StructGen<Value> {
    open spec fn alloc_spec(self) -> ValueView {
        ValueView::Struct(fields_view_of(self.fields@))
    }

    open spec fn alloc_req(self) -> bool {
        self.wf()
    }

    fn alloc_value(self, heap: &Heap) -> (r: Value) {
        Value::Struct(self)
    }
}

impl<T: StarlarkTypeRepr> StarlarkTypeRepr for Vec<T> {
    open spec fn canonical_ty() -> Ty {
        Ty::List
    }

    fn starlark_type_repr() -> (r: Ty) {
        Ty::List
    }
}

impl<T: AllocValue> AllocValue for Vec<T> {
    open spec fn alloc_spec(self) -> ValueView {
        ValueView::List(self@.map_values(|t: T| t.alloc_spec()))
    }

    open spec fn alloc_req(self) -> bool {
        forall|i: int| 0 <= i < self@.len() ==> #[trigger] self@[i].alloc_req()
    }

    fn alloc_value(self, heap: &Heap) -> (r: Value) {
        let ghost orig = self@;
        let n = self.len();
        let mut rest = self;
        let mut rev: Vec<Value> = Vec::new();
        while rest.len() > 0
            invariant
                orig.len() == n,
                rest@ =~= orig.subrange(0, rest@.len() as int),
                rest@.len() + rev@.len() == n,
                forall|i: int|
                    0 <= i < rev@.len() ==> (#[trigger] rev@[i])@ == orig[n - 1 - i].alloc_spec()
                        && rev@[i].wf(),
                forall|i: int| 0 <= i < orig.len() ==> #[trigger] orig[i].alloc_req(),
            decreases rest@.len(),
        {
            let x = rest.pop().unwrap();
            proof {
                assert(x == orig[rest@.len() as int]);
            }
            let v = x.alloc_value(heap);
            rev.push(v);
        }
        let mut vals: Vec<Value> = Vec::new();
        while rev.len() > 0
            invariant
                vals@.len() + rev@.len() == n,
                forall|i: int|
                    0 <= i < rev@.len() ==> (#[trigger] rev@[i])@ == orig[n - 1 - i].alloc_spec()
                        && rev@[i].wf(),
                forall|i: int|
                    0 <= i < vals@.len() ==> (#[trigger] vals@[i])@ == orig[i].alloc_spec()
                        && vals@[i].wf(),
            decreases rev@.len(),
        {
            let x = rev.pop().unwrap();
            vals.push(x);
        }
        proof {
            lemma_views_index(vals@);
            lemma_wfs_index(vals@);
            assert(views_of(vals@) =~= orig.map_values(|t: T| t.alloc_spec()));
        }
        Value::List(vals)
    }
}

/// Round-trip law for `u32`: extracting what construction produced yields
/// the original value, for every in-range native value.
pub proof fn lemma_roundtrip_u32(x: u32)
    ensures
        <u32 as UnpackValue>::unpack_spec(x.alloc_spec()) == Some(x),
{
}

/// Round-trip law for `u64`.
pub proof fn lemma_roundtrip_u64(x: u64)
    ensures
        <u64 as UnpackValue>::unpack_spec(x.alloc_spec()) == Some(x),
{
}

/// Round-trip law for `i64`.
pub proof fn lemma_roundtrip_i64(x: i64)
    ensures
        <i64 as UnpackValue>::unpack_spec(x.alloc_spec()) == Some(x),
{
}

/// Round-trip law for `usize`.
pub proof fn lemma_roundtrip_usize(x: usize)
    ensures
        <usize as UnpackValue>::unpack_spec(x.alloc_spec()) == Some(x),
{
}

/// Round-trip law for `isize`.
pub proof fn lemma_roundtrip_isize(x: isize)
    ensures
        <isize as UnpackValue>::unpack_spec(x.alloc_spec()) == Some(x),
{
}

/// Arbitrary-precision totality: extracting any dynamic integer into the
/// arbitrary-precision native type always succeeds, with the exact
/// mathematical value.
pub proof fn lemma_arbitrary_precision_total(i: int)
    ensures
        <StarlarkInt as UnpackValue>::unpack_spec(ValueView::Int(i)) == Some(i),
{
}

/// Canonical collapse: every supported integer width presents as the one
/// canonical `int` descriptor.
pub proof fn lemma_canonical_collapse()
    ensures
        <u32 as StarlarkTypeRepr>::canonical_ty() == Ty::Int,
        <u64 as StarlarkTypeRepr>::canonical_ty() == <u32 as StarlarkTypeRepr>::canonical_ty(),
        <i64 as StarlarkTypeRepr>::canonical_ty() == <u32 as StarlarkTypeRepr>::canonical_ty(),
        <usize as StarlarkTypeRepr>::canonical_ty() == <u32 as StarlarkTypeRepr>::canonical_ty(),
        <isize as StarlarkTypeRepr>::canonical_ty() == <u32 as StarlarkTypeRepr>::canonical_ty(),
        <StarlarkInt as StarlarkTypeRepr>::canonical_ty() == <u32 as StarlarkTypeRepr>::canonical_ty(),
{
}

/// Range failure: a dynamic integer equal to 2^100 extracts as neither a
/// 32-bit nor a 64-bit native integer, while arbitrary-precision extraction
/// still succeeds exactly.
pub proof fn lemma_range_failure(i: int)
    requires
        i == pow2(100),
    ensures
        <u32 as UnpackValue>::unpack_spec(ValueView::Int(i)).is_none(),
        <u64 as UnpackValue>::unpack_spec(ValueView::Int(i)).is_none(),
        <i64 as UnpackValue>::unpack_spec(ValueView::Int(i)).is_none(),
        <StarlarkInt as UnpackValue>::unpack_spec(ValueView::Int(i)) == Some(i),
{
    lemma2_to64();
    lemma_pow2_adds(64, 36);
    lemma_pow2_pos(36);
    assert(pow2(100) == pow2(64) * pow2(36));
    assert(pow2(64) * pow2(36) >= pow2(64) * 1) by (nonlinear_arith)
        requires pow2(36) >= 1,
    ;
}

} // verus!
