use starlark_values::convert::NoneType;
use starlark_values::convert::StarlarkTypeRepr;
use starlark_values::convert::UnpackValue;
use starlark_values::heap::Freezer;
use starlark_values::heap::FrozenHeap;
use starlark_values::heap::Heap;
use starlark_values::int_or_big::StarlarkInt;
use starlark_values::structs::StructBuilder;
use starlark_values::structs::StructOf;
use starlark_values::ty::Ty;
use starlark_values::unpack::UnpackDictEntries;
use starlark_values::value::FrozenValue;
use starlark_values::value::Value;
use starlark_values::hash::StarlarkHasher;
use std::cmp::Ordering;

fn build1<T: starlark_values::convert::AllocValue>(key: &str, val: T) -> starlark_values::value::Struct {
    let heap = Heap::new();
    let mut b = StructBuilder::new(&heap);
    b.add(key, val);
    b.build()
}

#[test]
fn test_to_json() {
    let heap = Heap::new();
    assert_eq!(build1("key", NoneType).to_json(), "{\"key\":null}");
    assert_eq!(build1("key", true).to_json(), "{\"key\":true}");
    assert_eq!(build1("key", false).to_json(), "{\"key\":false}");
    assert_eq!(build1("key", 42u64).to_json(), "{\"key\":42}");
    assert_eq!(build1("key", String::from("value")).to_json(), "{\"key\":\"value\"}");
    assert_eq!(build1("key", String::from("value\"")).to_json(), "{\"key\":\"value\\\"\"}");
    assert_eq!(build1("key", String::from("value\\")).to_json(), "{\"key\":\"value\\\\\"}");
    assert_eq!(build1("key", String::from("value/")).to_json(), "{\"key\":\"value/\"}");
    assert_eq!(build1("key", String::from("value\u{0008}")).to_json(), "{\"key\":\"value\\b\"}");
    assert_eq!(build1("key", String::from("value\u{000C}")).to_json(), "{\"key\":\"value\\f\"}");
    assert_eq!(build1("key", String::from("value\n")).to_json(), "{\"key\":\"value\\n\"}");
    assert_eq!(build1("key", String::from("value\r")).to_json(), "{\"key\":\"value\\r\"}");
    assert_eq!(build1("key", String::from("value\t")).to_json(), "{\"key\":\"value\\t\"}");
    let mut b = StructBuilder::new(&heap);
    b.add("foo", 42u64);
    b.add("bar", String::from("some"));
    assert_eq!(b.build().to_json(), "{\"foo\":42,\"bar\":\"some\"}");
    let inner = build1("bar", String::from("some"));
    assert_eq!(build1("foo", inner).to_json(), "{\"foo\":{\"bar\":\"some\"}}");
    let strings = vec![String::from("bar/"), String::from("some")];
    assert_eq!(build1("foo", strings).to_json(), "{\"foo\":[\"bar/\",\"some\"]}");
    let inner = build1("bar", String::from("some"));
    assert_eq!(build1("foo", vec![inner]).to_json(), "{\"foo\":[{\"bar\":\"some\"}]}");
}

#[test]
fn test_to_json_negative_and_big() {
    assert_eq!(build1("k", StarlarkInt::from_i64(-7)).to_json(), "{\"k\":-7}");
    // 2^100, as four base-2^32 digits
    let big = StarlarkInt::from_digits(false, vec![0, 0, 0, 16]);
    assert_eq!(build1("k", big).to_json(), "{\"k\":1267650600228229401496703205376}");
    let bigneg = StarlarkInt::from_digits(true, vec![0, 0, 0, 16]);
    assert_eq!(build1("k", bigneg).to_json(), "{\"k\":-1267650600228229401496703205376}");
}

#[test]
fn test_round_trip_widths() {
    let heap = Heap::new();
    for x in [0u32, 1, 17, u32::MAX] {
        let v = heap.alloc_val(x);
        assert_eq!(<u32 as UnpackValue>::unpack_value(&v), Some(x));
    }
    for x in [0u64, 42, u64::MAX] {
        let v = heap.alloc_val(x);
        assert_eq!(<u64 as UnpackValue>::unpack_value(&v), Some(x));
    }
    for x in [0i64, -1, i64::MIN, i64::MAX] {
        let v = heap.alloc_val(x);
        assert_eq!(<i64 as UnpackValue>::unpack_value(&v), Some(x));
    }
    for x in [0usize, usize::MAX] {
        let v = heap.alloc_val(x);
        assert_eq!(<usize as UnpackValue>::unpack_value(&v), Some(x));
    }
    for x in [isize::MIN, -3isize, 0, isize::MAX] {
        let v = heap.alloc_val(x);
        assert_eq!(<isize as UnpackValue>::unpack_value(&v), Some(x));
    }
}

#[test]
fn test_cross_width_extraction() {
    let heap = Heap::new();
    let v = heap.alloc_val(u64::MAX);
    assert_eq!(<u32 as UnpackValue>::unpack_value(&v), None);
    assert_eq!(<i64 as UnpackValue>::unpack_value(&v), None);
    assert_eq!(<u64 as UnpackValue>::unpack_value(&v), Some(u64::MAX));
    let v = heap.alloc_val(-1i64);
    assert_eq!(<u32 as UnpackValue>::unpack_value(&v), None);
    assert_eq!(<u64 as UnpackValue>::unpack_value(&v), None);
    assert_eq!(<i64 as UnpackValue>::unpack_value(&v), Some(-1));
}

#[test]
fn test_arbitrary_precision_totality() {
    let heap = Heap::new();
    // small backed
    let v = heap.alloc_val(5u32);
    let i = <StarlarkInt as UnpackValue>::unpack_value(&v).unwrap();
    assert_eq!(i.to_u64(), Some(5));
    // big backed
    let v = heap.alloc_val(StarlarkInt::from_digits(false, vec![0, 0, 0, 16]));
    let i = <StarlarkInt as UnpackValue>::unpack_value(&v).unwrap();
    assert_eq!(i.to_u64(), None);
    assert_eq!(build1("k", i).to_json(), "{\"k\":1267650600228229401496703205376}");
}

#[test]
fn test_canonical_collapse() {
    assert_eq!(u32::starlark_type_repr(), Ty::Int);
    assert_eq!(u64::starlark_type_repr(), Ty::Int);
    assert_eq!(i64::starlark_type_repr(), Ty::Int);
    assert_eq!(usize::starlark_type_repr(), Ty::Int);
    assert_eq!(isize::starlark_type_repr(), Ty::Int);
    assert_eq!(StarlarkInt::starlark_type_repr(), Ty::Int);
    assert_eq!(Ty::Int.name(), "int");
    assert_eq!(Ty::NoneType.name(), "NoneType");
}

#[test]
fn test_range_failure_two_to_hundred() {
    let heap = Heap::new();
    let v = heap.alloc_val(StarlarkInt::from_digits(false, vec![0, 0, 0, 16]));
    assert!(<u32 as UnpackValue>::unpack_value(&v).is_none());
    assert!(<u64 as UnpackValue>::unpack_value(&v).is_none());
    assert!(<i64 as UnpackValue>::unpack_value(&v).is_none());
    assert!(<isize as UnpackValue>::unpack_value(&v).is_none());
    assert!(<StarlarkInt as UnpackValue>::unpack_value(&v).is_some());
}

#[test]
fn test_equality_order_independent() {
    let heap = Heap::new();
    let mut b = StructBuilder::new(&heap);
    b.add("a", 1u64);
    b.add("b", 2u64);
    let s1 = b.build();
    let mut b = StructBuilder::new(&heap);
    b.add("b", 2u64);
    b.add("a", 1u64);
    let s2 = b.build();
    assert!(s1.equals(&Value::Struct(s2)));
    let mut b = StructBuilder::new(&heap);
    b.add("a", 1u64);
    b.add("b", 3u64);
    let s3 = b.build();
    assert!(!s1.equals(&Value::Struct(s3)));
    let mut b = StructBuilder::new(&heap);
    b.add("a", 1u64);
    let s4 = b.build();
    assert!(!s1.equals(&Value::Struct(s4)));
}

#[test]
fn test_int_equality_across_backings() {
    let heap = Heap::new();
    let a = heap.alloc_val(7u32);
    let b = heap.alloc_val(StarlarkInt::from_i64(7));
    assert!(a.equals(&b));
    let c = heap.alloc_val(StarlarkInt::from_digits(false, vec![7]));
    assert!(a.equals(&c));
    let d = heap.alloc_val(StarlarkInt::from_digits(false, vec![0, 1]));
    assert!(!a.equals(&d));
}

#[test]
fn test_hash_consistency() {
    let heap = Heap::new();
    let mut b = StructBuilder::new(&heap);
    b.add("a", 1u64);
    b.add("b", 2u64);
    b.add("c", String::from("x"));
    let s1 = b.build();
    let mut b = StructBuilder::new(&heap);
    b.add("c", String::from("x"));
    b.add("b", 2u64);
    b.add("a", 1u64);
    let s2 = b.build();
    let mut h1 = StarlarkHasher::new();
    s1.write_hash(&mut h1);
    let mut h2 = StarlarkHasher::new();
    s2.write_hash(&mut h2);
    assert_eq!(h1.finish(), h2.finish());
    assert!(s1.equals(&Value::Struct(s2)));
}

#[test]
fn test_unpack_dict_entries_order_and_atomicity() {
    let heap = Heap::new();
    let mut b = StructBuilder::new(&heap);
    b.add("z", 1u64);
    b.add("a", 2u64);
    let v = Value::Struct(b.build());
    let entries = <UnpackDictEntries<String, u64> as UnpackValue>::unpack_value(&v).unwrap();
    assert_eq!(entries.entries.len(), 2);
    assert_eq!(entries.entries[0], (String::from("z"), 1));
    assert_eq!(entries.entries[1], (String::from("a"), 2));
    // one bad entry poisons the whole unpack: no partial sequence
    let mut b = StructBuilder::new(&heap);
    b.add("z", 1u64);
    b.add("a", String::from("not an int"));
    b.add("q", 3u64);
    let v = Value::Struct(b.build());
    assert!(<UnpackDictEntries<String, u64> as UnpackValue>::unpack_value(&v).is_none());
    // not an associative container at all
    let v = heap.alloc_val(1u64);
    assert!(<UnpackDictEntries<String, u64> as UnpackValue>::unpack_value(&v).is_none());
}

#[test]
fn test_struct_of_validates_then_extracts() {
    let heap = Heap::new();
    let mut b = StructBuilder::new(&heap);
    b.add("a", 1u64);
    b.add("b", 2u64);
    let v = Value::Struct(b.build());
    let so = <StructOf<u64> as UnpackValue>::unpack_value(&v).unwrap();
    let m = so.to_map();
    assert_eq!(m.len(), 2);
    assert_eq!(m[0], (String::from("a"), 1));
    assert_eq!(m[1], (String::from("b"), 2));
    assert_eq!(so.as_struct().fields.len(), 2);
    // a single non-conforming field fails validation as a whole
    let mut b = StructBuilder::new(&heap);
    b.add("a", 1u64);
    b.add("b", String::from("x"));
    let v = Value::Struct(b.build());
    assert!(<StructOf<u64> as UnpackValue>::unpack_value(&v).is_none());
}

#[test]
fn test_builder_duplicate_keys() {
    let heap = Heap::new();
    let mut b = StructBuilder::with_capacity(&heap, 4);
    b.add("a", 1u64);
    b.add("b", 2u64);
    b.add("a", 3u64);
    let s = b.build();
    // last write wins on the value, first write wins on the position
    let names = s.dir_attr();
    assert_eq!(names, vec![String::from("a"), String::from("b")]);
    let a = s.get_attr("a").unwrap();
    assert_eq!(<u64 as UnpackValue>::unpack_value(a), Some(3));
    assert!(s.has_attr("b"));
    assert!(!s.has_attr("c"));
    assert!(s.get_attr("c").is_none());
}

#[test]
fn test_freeze_preserves_structure() {
    let heap = Heap::new();
    let mut b = StructBuilder::new(&heap);
    b.add("bar", String::from("some"));
    let inner = b.build();
    let mut b = StructBuilder::new(&heap);
    b.add("num", 42u64);
    b.add("nested", inner);
    let outer = b.build();
    let freezer = Freezer::new(FrozenHeap::new());
    let frozen = outer.freeze(&freezer);
    // field order preserved, every reachable handle frozen
    assert_eq!(frozen.fields.len(), 2);
    assert_eq!(frozen.fields[0].0, "num");
    assert_eq!(frozen.fields[1].0, "nested");
    match &frozen.fields[1].1 {
        FrozenValue::Struct(st) => {
            assert_eq!(st.fields.len(), 1);
            assert_eq!(st.fields[0].0, "bar");
            match &st.fields[0].1 {
                FrozenValue::Str(s) => assert_eq!(s, "some"),
                _ => panic!("expected a frozen string field"),
            }
        },
        _ => panic!("expected a frozen nested record"),
    }
}

#[test]
fn test_from_digits_normalizes() {
    // leading zero digits are dropped; small values come back inline
    let i = StarlarkInt::from_digits(false, vec![5, 0, 0]);
    assert_eq!(i.to_i32(), Some(5));
    let i = StarlarkInt::from_digits(true, vec![0x8000_0000]);
    assert_eq!(i.to_i32(), Some(i32::MIN));
    let i = StarlarkInt::from_digits(false, vec![0, 0]);
    assert_eq!(i.to_i32(), Some(0));
    let i = StarlarkInt::from_digits(false, vec![0, 1]);
    assert_eq!(i.to_i32(), None);
    assert_eq!(i.to_u64(), Some(1u64 << 32));
    assert_eq!(i.to_usize(), Some(1usize << 32));
}

#[test]
fn test_alloc_str_and_value_json() {
    let heap = Heap::new();
    let v = heap.alloc_str("hi/\"there\"");
    assert_eq!(v.to_json(), "\"hi/\\\"there\\\"\"");
    let v = heap.alloc_val(NoneType);
    assert_eq!(v.to_json(), "null");
}

#[test]
fn test_display() {
    let heap = Heap::new();
    let mut b = StructBuilder::new(&heap);
    b.add("a", 1u64);
    b.add("b", String::from("x"));
    b.add("c", vec![true, false]);
    b.add("d", NoneType);
    let s = b.build();
    assert_eq!(s.fmt(), "struct(a=1, b=\"x\", c=[True, False], d=None)");
    let v = heap.alloc_val(StarlarkInt::from_i64(-5));
    assert_eq!(v.to_display(), "-5");
}

#[test]
fn test_compare_records() {
    let heap = Heap::new();
    let mk = |pairs: &[(&str, u64)]| {
        let mut b = StructBuilder::new(&heap);
        for (k, v) in pairs {
            b.add(k, *v);
        }
        b.build()
    };
    let a1 = mk(&[("a", 1)]);
    let a2 = mk(&[("a", 2)]);
    assert_eq!(a1.compare(&Value::Struct(a2)), Ok(Ordering::Less));
    let ab = mk(&[("a", 1), ("b", 1)]);
    let a = mk(&[("a", 1)]);
    assert_eq!(ab.compare(&Value::Struct(a)), Ok(Ordering::Greater));
    // ordering goes by sorted keys, not by storage order
    let ba = mk(&[("b", 2), ("a", 1)]);
    let ab3 = mk(&[("a", 1), ("b", 3)]);
    assert_eq!(ba.compare(&Value::Struct(ab3)), Ok(Ordering::Less));
    let eq1 = mk(&[("b", 2), ("a", 1)]);
    let eq2 = mk(&[("a", 1), ("b", 2)]);
    assert_eq!(eq1.compare(&Value::Struct(eq2)), Ok(Ordering::Equal));
    // values of different dynamic types do not order
    let x = mk(&[("a", 1)]);
    let mut b = StructBuilder::new(&heap);
    b.add("a", String::from("s"));
    let y = b.build();
    assert!(x.compare(&Value::Struct(y)).is_err());
    assert!(x.compare(&Value::Bool(true)).is_err());
}

#[test]
fn test_from_value() {
    let heap = Heap::new();
    let mut b = StructBuilder::new(&heap);
    b.add("a", 1u64);
    let v = Value::Struct(b.build());
    let st = starlark_values::value::Struct::from_value(&v).unwrap();
    assert_eq!(st.fields.len(), 1);
    let n = heap.alloc_val(3u64);
    assert!(starlark_values::value::Struct::from_value(&n).is_none());
}

#[test]
fn test_value_compare_scalars_and_lists() {
    let heap = Heap::new();
    let a = heap.alloc_str("ab");
    let b = heap.alloc_str("b");
    assert_eq!(a.compare(&b), Some(Ordering::Less));
    let c = heap.alloc_str("a");
    assert_eq!(a.compare(&c), Some(Ordering::Greater));
    assert_eq!(c.compare(&c), Some(Ordering::Equal));
    let l1 = heap.alloc_val(vec![1u64, 2]);
    let l2 = heap.alloc_val(vec![1u64, 3]);
    let l3 = heap.alloc_val(vec![1u64]);
    assert_eq!(l1.compare(&l2), Some(Ordering::Less));
    assert_eq!(l1.compare(&l3), Some(Ordering::Greater));
    let big = heap.alloc_val(StarlarkInt::from_digits(true, vec![0, 0, 0, 16]));
    let small = heap.alloc_val(-3i64);
    assert_eq!(big.compare(&small), Some(Ordering::Less));
    assert_eq!(small.compare(&big), Some(Ordering::Greater));
    // values of different dynamic types do not order
    assert_eq!(a.compare(&l1), None);
}

#[test]
fn test_deep_clone_and_equals() {
    let heap = Heap::new();
    let mut b = StructBuilder::new(&heap);
    b.add("a", 1u64);
    b.add("s", String::from("x"));
    let v = Value::Struct(b.build());
    let c = v.deep_clone();
    assert!(v.equals(&c));
    assert_eq!(v.to_json(), c.to_json());
}
