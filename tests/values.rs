use std::cmp::Ordering;

use starlark::equality::equals;
use starlark::handle::AValueDyn;
use starlark::header::HEADER_SIZE;
use starlark::heap::{contains, value_dyn, FrozenHeap, Heap};
use starlark::migrate::{Freezer, Tracer};
use starlark::profile::{ProfileData, ProfileMode};
use starlark::repr::collect_repr;
use starlark::value::{Field, Payload, Value, ValueError};
use starlark::vtable::{AValueVTable, TypeKind, VTables, INT_TYPE_ID, LIST_TYPE_ID, STR_TYPE_ID, TOMBSTONE_TYPE_ID};

fn field(name: &str, value: Value) -> Field {
    Field { name: name.to_string(), value }
}

fn record_field(p: &Payload, k: usize) -> Value {
    match p {
        Payload::Record(fs) => fs[k].value,
        _ => panic!("not a record"),
    }
}

#[test]
fn vtable_type_ids_match_kinds() {
    assert_eq!(AValueVTable::new(TypeKind::Int).static_type_of_value, INT_TYPE_ID);
    assert_eq!(AValueVTable::new(TypeKind::Str).static_type_of_value, STR_TYPE_ID);
    assert_eq!(AValueVTable::new(TypeKind::Str).name, "string");
    assert!(AValueVTable::new(TypeKind::Str).is_str);
    assert!(!AValueVTable::new(TypeKind::List).is_str);
    assert_eq!(AValueVTable::new_tombstone().static_type_of_value, TOMBSTONE_TYPE_ID);
}

#[test]
fn downcast_succeeds_only_for_own_type() {
    let vt = VTables::new();
    let p = Payload::Int(5);
    let h = AValueDyn::new(&p, &vt);
    assert!(h.downcast_ref(INT_TYPE_ID).is_some());
    assert!(h.downcast_ref(STR_TYPE_ID).is_none());
    assert!(h.downcast_ref(LIST_TYPE_ID).is_none());
    assert_eq!(h.get_type(), "int");
    assert!(!h.is_str());
}

#[test]
fn equal_values_have_equal_hashes() {
    let vt = VTables::new();
    let a = Payload::Str("ab".to_string());
    let b = Payload::Str("ab".to_string());
    let ha = AValueDyn::new(&a, &vt);
    let hb = AValueDyn::new(&b, &vt);
    assert_eq!(ha.equals(hb), Ok(true));
    assert_eq!(ha.get_hash(), Ok(3105));
    assert_eq!(ha.get_hash(), hb.get_hash());
    let x = Payload::Int(-3);
    let y = Payload::Int(-3);
    assert_eq!(AValueDyn::new(&x, &vt).equals(AValueDyn::new(&y, &vt)), Ok(true));
    assert_eq!(AValueDyn::new(&x, &vt).get_hash(), AValueDyn::new(&y, &vt).get_hash());
    let l = Payload::List(vec![Value::Mutable(0)]);
    assert_eq!(AValueDyn::new(&l, &vt).get_hash(), Err(ValueError::NotHashable));
    assert_eq!(AValueDyn::new(&x, &vt).equals(AValueDyn::new(&a, &vt)), Ok(false));
}

#[test]
fn arithmetic_on_integers_and_strings() {
    let vt = VTables::new();
    let a = Payload::Int(7);
    let b = Payload::Int(3);
    let ha = AValueDyn::new(&a, &vt);
    let hb = AValueDyn::new(&b, &vt);
    assert!(matches!(ha.add(hb), Ok(Payload::Int(10))));
    assert!(matches!(ha.sub(hb), Ok(Payload::Int(4))));
    assert!(matches!(ha.mul(hb), Ok(Payload::Int(21))));
    assert!(matches!(ha.bit_and(hb), Ok(Payload::Int(3))));
    assert!(matches!(ha.bit_or(hb), Ok(Payload::Int(7))));
    assert!(matches!(ha.bit_xor(hb), Ok(Payload::Int(4))));
    assert!(matches!(ha.minus(), Ok(Payload::Int(-7))));
    assert!(matches!(ha.plus(), Ok(Payload::Int(7))));
    assert_eq!(AValueDyn::new(&text_payload(), &vt).plus().err(), Some(ValueError::Unsupported));
    assert!(matches!(ha.bit_not(), Ok(Payload::Int(-8))));
    let big = Payload::Int(i64::MAX);
    assert_eq!(AValueDyn::new(&big, &vt).add(ha).err(), Some(ValueError::Overflow));
    let s = Payload::Str("foo".to_string());
    let t = Payload::Str("bar".to_string());
    match AValueDyn::new(&s, &vt).add(AValueDyn::new(&t, &vt)) {
        Ok(Payload::Str(r)) => assert_eq!(r, "foobar"),
        other => panic!("unexpected {:?}", other),
    }
    assert_eq!(AValueDyn::new(&s, &vt).sub(AValueDyn::new(&t, &vt)).err(), Some(ValueError::Unsupported));
    assert_eq!(AValueDyn::new(&s, &vt).add(ha).err(), Some(ValueError::Unsupported));
}

#[test]
fn conversions_and_indexing() {
    let vt = VTables::new();
    let l = Payload::List(vec![Value::Mutable(4), Value::Frozen(2)]);
    let h = AValueDyn::new(&l, &vt);
    assert_eq!(h.length(), Ok(2));
    assert_eq!(h.at(0), Ok(Value::Mutable(4)));
    assert_eq!(h.at(-1), Ok(Value::Frozen(2)));
    assert_eq!(h.at(2), Err(ValueError::IndexOutOfRange));
    assert_eq!(h.at(-3), Err(ValueError::IndexOutOfRange));
    assert!(h.to_bool());
    let e = Payload::Str(String::new());
    assert!(!AValueDyn::new(&e, &vt).to_bool());
    assert!(!AValueDyn::new(&Payload::NoneValue, &vt).to_bool());
    assert_eq!(AValueDyn::new(&Payload::Bool(true), &vt).to_int(), Ok(1));
    assert_eq!(AValueDyn::new(&Payload::Int(9), &vt).to_int(), Ok(9));
    assert_eq!(AValueDyn::new(&e, &vt).to_int(), Err(ValueError::Unsupported));
    assert_eq!(AValueDyn::new(&Payload::Int(1), &vt).at(0), Err(ValueError::Unsupported));
    assert!(h.matches_type("list"));
    assert!(!h.matches_type("int"));
}

#[test]
fn attributes_of_records() {
    let vt = VTables::new();
    let r = Payload::Record(vec![field("x", Value::Mutable(1)), field("y", Value::Mutable(2)), field("x", Value::Mutable(3))]);
    let h = AValueDyn::new(&r, &vt);
    assert_eq!(h.get_attr("x"), Some(Value::Mutable(1)));
    assert_eq!(h.get_attr("y"), Some(Value::Mutable(2)));
    assert_eq!(h.get_attr("z"), None);
    assert!(h.has_attr("y"));
    assert!(!h.has_attr("z"));
    assert_eq!(h.dir_attr(), vec!["x".to_string(), "y".to_string(), "x".to_string()]);
    assert_eq!(AValueDyn::new(&Payload::Int(0), &vt).get_attr("x"), None);
}

#[test]
fn memory_sizes() {
    let vt = VTables::new();
    let i = Payload::Int(1);
    assert_eq!(AValueDyn::new(&i, &vt).memory_size(), 8);
    assert_eq!(AValueDyn::new(&i, &vt).total_memory(), 16);
    let s = Payload::Str("abc".to_string());
    assert_eq!(AValueDyn::new(&s, &vt).memory_size(), 16);
    assert_eq!(AValueDyn::new(&s, &vt).total_memory(), 24);
    let l = Payload::List(vec![Value::Mutable(0), Value::Mutable(1)]);
    assert_eq!(AValueDyn::new(&l, &vt).memory_size(), 24);
    assert_eq!(AValueDyn::new(&l, &vt).total_memory(), 64);
    let r = Payload::Record(vec![field("a", Value::Mutable(0))]);
    assert_eq!(AValueDyn::new(&r, &vt).total_memory(), 72);
    let t = Payload::Tombstone(40);
    assert_eq!(AValueDyn::new(&t, &vt).memory_size(), 40);
    assert!(AValueDyn::new(&t, &vt).total_memory() >= HEADER_SIZE);
    assert_eq!(AValueDyn::new(&t, &vt).total_memory(), HEADER_SIZE + 40);
}

#[test]
fn freeze_two_node_cycle() {
    let mut heap = Heap::new();
    let a = heap.allocate(Payload::Record(vec![field("next", Value::Mutable(1))]));
    let b = heap.allocate(Payload::Record(vec![field("next", Value::Mutable(0))]));
    let mut freezer = Freezer::new(FrozenHeap::new());
    let fa = freezer.freeze(&mut heap, a).unwrap();
    let fb = freezer.freeze(&mut heap, b).unwrap();
    assert_ne!(fa, fb);
    let frozen = freezer.into_frozen();
    let (Value::Frozen(ja), Value::Frozen(jb)) = (fa, fb) else { panic!("not frozen") };
    assert_eq!(record_field(&frozen.cells[ja], 0), fb);
    assert_eq!(record_field(&frozen.cells[jb], 0), fa);
    assert_eq!(frozen.len(), 2);
}

#[test]
fn freeze_self_cycle() {
    let mut heap = Heap::new();
    let a = heap.allocate(Payload::List(vec![Value::Mutable(0), Value::Mutable(0)]));
    let mut freezer = Freezer::new(FrozenHeap::new());
    let fa = freezer.freeze(&mut heap, a).unwrap();
    let frozen = freezer.into_frozen();
    let Value::Frozen(j) = fa else { panic!("not frozen") };
    match &frozen.cells[j] {
        Payload::List(xs) => assert_eq!(xs, &vec![fa, fa]),
        other => panic!("unexpected {:?}", other),
    }
}

#[test]
fn freeze_preserves_aliasing() {
    let mut heap = Heap::new();
    let shared = heap.allocate(Payload::Str("s".to_string()));
    let l1 = heap.allocate(Payload::List(vec![shared]));
    let l2 = heap.allocate(Payload::List(vec![shared]));
    let mut freezer = Freezer::new(FrozenHeap::new());
    let f1 = freezer.freeze(&mut heap, l1).unwrap();
    let f2 = freezer.freeze(&mut heap, l2).unwrap();
    let again = freezer.freeze(&mut heap, shared).unwrap();
    let frozen = freezer.into_frozen();
    let (Value::Frozen(j1), Value::Frozen(j2)) = (f1, f2) else { panic!("not frozen") };
    let (Payload::List(x1), Payload::List(x2)) = (&frozen.cells[j1], &frozen.cells[j2]) else { panic!("not lists") };
    assert_eq!(x1[0], x2[0]);
    assert_eq!(x1[0], again);
    assert_eq!(frozen.len(), 3);
}

#[test]
fn freeze_of_frozen_value_is_identity() {
    let mut heap = Heap::new();
    let a = heap.allocate(Payload::Int(3));
    let mut freezer = Freezer::new(FrozenHeap::new());
    let fa = freezer.freeze(&mut heap, a).unwrap();
    assert_eq!(freezer.freeze(&mut heap, fa), Ok(fa));
    assert_eq!(freezer.freeze(&mut heap, a), Ok(fa));
}

#[test]
fn freeze_leaves_tombstones_of_original_size() {
    let vt = VTables::new();
    let mut heap = Heap::new();
    let s = heap.allocate(Payload::Str("hello world".to_string()));
    let l = heap.allocate(Payload::List(vec![s, s, s]));
    let size_s = AValueDyn::new(&heap.cells[0], &vt).memory_size();
    let size_l = AValueDyn::new(&heap.cells[1], &vt).memory_size();
    let mut freezer = Freezer::new(FrozenHeap::new());
    freezer.freeze(&mut heap, l).unwrap();
    assert!(matches!(heap.cells[0], Payload::Tombstone(n) if n == size_s));
    assert!(matches!(heap.cells[1], Payload::Tombstone(n) if n == size_l));
    assert_eq!(AValueDyn::new(&heap.cells[0], &vt).memory_size(), 24);
    assert_eq!(AValueDyn::new(&heap.cells[1], &vt).memory_size(), 24);
}

#[test]
fn set_attr_on_frozen_value_is_immutable() {
    let mut heap = Heap::new();
    let a = heap.allocate(Payload::Record(vec![field("x", Value::Frozen(0))]));
    let mut freezer = Freezer::new(FrozenHeap::new());
    let fa = freezer.freeze(&mut heap, a).unwrap();
    assert_eq!(heap.set_attr(fa, "x", Value::Frozen(0)), Err(ValueError::Immutable));
    let frozen = freezer.into_frozen();
    assert_eq!(record_field(&frozen.cells[0], 0), Value::Frozen(0));
}

#[test]
fn set_attr_on_mutable_record() {
    let mut heap = Heap::new();
    let a = heap.allocate(Payload::Record(vec![field("x", Value::Frozen(0)), field("y", Value::Frozen(1))]));
    assert_eq!(heap.set_attr(a, "y", Value::Mutable(5)), Ok(()));
    assert_eq!(record_field(&heap.cells[0], 1), Value::Mutable(5));
    assert_eq!(record_field(&heap.cells[0], 0), Value::Frozen(0));
    assert_eq!(heap.set_attr(a, "z", Value::Mutable(5)), Err(ValueError::AttributeNotFound));
    let i = heap.allocate(Payload::Int(1));
    assert_eq!(heap.set_attr(i, "x", Value::Mutable(5)), Err(ValueError::Unsupported));
    assert_eq!(heap.set_attr(Value::Mutable(9), "x", Value::Mutable(5)), Err(ValueError::Dangling));
}

#[test]
fn tombstone_answers_size_queries() {
    let vt = VTables::new();
    let mut heap = Heap::new();
    let a = heap.allocate(Payload::Int(3));
    let mut freezer = Freezer::new(FrozenHeap::new());
    freezer.freeze(&mut heap, a).unwrap();
    let frozen = FrozenHeap::new();
    let dead = value_dyn(&heap, &frozen, &vt, a).unwrap();
    assert_eq!(dead.memory_size(), 8);
    assert_eq!(dead.total_memory(), HEADER_SIZE + 8);
    assert!(dead.downcast_ref(TOMBSTONE_TYPE_ID).is_some());
    assert!(dead.downcast_ref(INT_TYPE_ID).is_none());
    assert_eq!(dead.vtable.kind, TypeKind::Tombstone);
    assert!(ValueError::Tombstone.is_fatal());
    assert!(ValueError::Dangling.is_fatal());
    assert!(!ValueError::Immutable.is_fatal());
}

#[test]
fn allocative_keys_name_the_type() {
    let vt = VTables::new();
    let i = Payload::Int(3);
    let s = Payload::Str("x".to_string());
    let ki = AValueDyn::new(&i, &vt).type_as_allocative_key();
    let ks = AValueDyn::new(&s, &vt).type_as_allocative_key();
    assert_eq!(&**ki, "int");
    assert_eq!(&**ks, "string");
    assert_eq!(*ki, allocative::Key::new("int"));
    assert_ne!(*ki, *ks);
    assert_eq!(&*AValueVTable::new_tombstone().type_as_allocative_key, "BlackHole");
    assert_eq!(AValueVTable::new_tombstone().name, "BlackHole");
}

#[test]
fn invocation_and_export_are_unsupported_or_inert() {
    let vt = VTables::new();
    let i = Payload::Int(3);
    let h = AValueDyn::new(&i, &vt);
    assert_eq!(h.invoke(Value::Mutable(0), &vec![Value::Mutable(1)]), Err(ValueError::Unsupported));
    assert_eq!(h.invoke_method(Value::Mutable(0), Value::Mutable(2), &vec![]), Err(ValueError::Unsupported));
    assert_eq!(h.export_as("x"), Ok(()));
}

#[test]
fn trace_copies_into_new_generation() {
    let mut heap = Heap::new();
    let f = Value::Frozen(0);
    let a = heap.allocate(Payload::List(vec![Value::Mutable(1), f]));
    let _b = heap.allocate(Payload::List(vec![Value::Mutable(0)]));
    let mut tracer = Tracer::new(Heap::new());
    let ta = tracer.trace(&mut heap, a);
    assert_eq!(tracer.trace(&mut heap, f), f);
    let gen = tracer.into_heap();
    assert_eq!(ta, Value::Mutable(0));
    match (&gen.cells[0], &gen.cells[1]) {
        (Payload::List(xa), Payload::List(xb)) => {
            assert_eq!(xa, &vec![Value::Mutable(1), f]);
            assert_eq!(xb, &vec![Value::Mutable(0)]);
        }
        other => panic!("unexpected {:?}", other),
    }
    assert!(matches!(heap.cells[0], Payload::Tombstone(24)));
    assert!(matches!(heap.cells[1], Payload::Tombstone(24)));
}

#[test]
fn profile_data_text() {
    let data = ProfileData::new(ProfileMode::Statement, "a,b\n1,2\n".to_string());
    assert_eq!(data.gen(), "a,b\n1,2\n");
    assert_eq!(data.profile_mode.name(), "statement");
    assert_eq!(ProfileMode::BytecodePairs.name(), "bytecode-pairs");
}

#[test]
fn set_at_on_lists() {
    let vt = VTables::new();
    let mut heap = Heap::new();
    let l = heap.allocate(Payload::List(vec![Value::Frozen(0), Value::Frozen(1), Value::Frozen(2)]));
    assert_eq!(heap.set_at(l, -1, Value::Mutable(7)), Ok(()));
    assert_eq!(heap.set_at(l, 0, Value::Mutable(8)), Ok(()));
    assert_eq!(heap.set_at(l, 3, Value::Mutable(9)), Err(ValueError::IndexOutOfRange));
    assert_eq!(heap.set_at(l, -4, Value::Mutable(9)), Err(ValueError::IndexOutOfRange));
    let frozen = FrozenHeap::new();
    let h = value_dyn(&heap, &frozen, &vt, l).unwrap();
    assert_eq!(h.iterate(), Ok(vec![Value::Mutable(8), Value::Frozen(1), Value::Mutable(7)]));
    assert_eq!(heap.set_at(Value::Frozen(0), 0, Value::Mutable(9)), Err(ValueError::Immutable));
    let i = heap.allocate(Payload::Int(1));
    assert_eq!(heap.set_at(i, 0, Value::Mutable(9)), Err(ValueError::Unsupported));
    assert_eq!(value_dyn(&heap, &frozen, &vt, i).unwrap().iterate(), Err(ValueError::Unsupported));
    assert!(value_dyn(&heap, &frozen, &vt, Value::Frozen(0)).is_err());
}

#[test]
fn freezing_a_reference_to_a_frozen_value_keeps_it() {
    let mut frozen = FrozenHeap::new();
    let f = frozen.allocate(Payload::Int(4));
    let mut heap = Heap::new();
    let l = heap.allocate(Payload::List(vec![f, Value::Mutable(1)]));
    let _s = heap.allocate(Payload::Str("x".to_string()));
    let mut freezer = Freezer::new(frozen);
    let fl = freezer.freeze(&mut heap, l).unwrap();
    let frozen = freezer.into_frozen();
    assert_eq!(fl, Value::Frozen(1));
    match &frozen.cells[1] {
        Payload::List(xs) => assert_eq!(xs, &vec![f, Value::Frozen(2)]),
        other => panic!("unexpected {:?}", other),
    }
    match &frozen.cells[2] {
        Payload::Str(s) => assert_eq!(s, "x"),
        other => panic!("unexpected {:?}", other),
    }
}

#[test]
fn ordering_of_values() {
    let vt = VTables::new();
    let one = Payload::Int(1);
    let two = Payload::Int(2);
    assert_eq!(AValueDyn::new(&one, &vt).compare(AValueDyn::new(&two, &vt)), Ok(Ordering::Less));
    assert_eq!(AValueDyn::new(&two, &vt).compare(AValueDyn::new(&one, &vt)), Ok(Ordering::Greater));
    assert_eq!(AValueDyn::new(&two, &vt).compare(AValueDyn::new(&two, &vt)), Ok(Ordering::Equal));
    let ab = Payload::Str("ab".to_string());
    let abc = Payload::Str("abc".to_string());
    let b = Payload::Str("b".to_string());
    assert_eq!(AValueDyn::new(&ab, &vt).compare(AValueDyn::new(&abc, &vt)), Ok(Ordering::Less));
    assert_eq!(AValueDyn::new(&b, &vt).compare(AValueDyn::new(&abc, &vt)), Ok(Ordering::Greater));
    assert_eq!(AValueDyn::new(&ab, &vt).compare(AValueDyn::new(&ab, &vt)), Ok(Ordering::Equal));
    let f = Payload::Bool(false);
    let t = Payload::Bool(true);
    assert_eq!(AValueDyn::new(&f, &vt).compare(AValueDyn::new(&t, &vt)), Ok(Ordering::Less));
    let l = Payload::List(vec![]);
    assert_eq!(AValueDyn::new(&l, &vt).compare(AValueDyn::new(&l, &vt)), Err(ValueError::Unsupported));
    assert_eq!(AValueDyn::new(&one, &vt).compare(AValueDyn::new(&ab, &vt)), Err(ValueError::Unsupported));
}

fn text_payload() -> Payload {
    Payload::Str("x".to_string())
}

#[test]
fn containment_in_strings_and_lists() {
    let vt = VTables::new();
    let mut heap = Heap::new();
    let frozen = FrozenHeap::new();
    let hay = heap.allocate(Payload::Str("hello".to_string()));
    let ell = heap.allocate(Payload::Str("ell".to_string()));
    let accented = heap.allocate(Payload::Str("olé".to_string()));
    let empty = heap.allocate(Payload::Str(String::new()));
    assert_eq!(contains(&heap, &frozen, &vt, hay, ell), Ok(true));
    assert_eq!(contains(&heap, &frozen, &vt, hay, accented), Ok(false));
    assert_eq!(contains(&heap, &frozen, &vt, hay, empty), Ok(true));
    assert_eq!(contains(&heap, &frozen, &vt, ell, hay), Ok(false));
    let three = heap.allocate(Payload::Int(3));
    let other_three = heap.allocate(Payload::Int(3));
    let four = heap.allocate(Payload::Int(4));
    let list = heap.allocate(Payload::List(vec![hay, three]));
    assert_eq!(contains(&heap, &frozen, &vt, list, other_three), Ok(true));
    assert_eq!(contains(&heap, &frozen, &vt, list, four), Ok(false));
    assert_eq!(contains(&heap, &frozen, &vt, three, four), Err(ValueError::Unsupported));
    assert_eq!(contains(&heap, &frozen, &vt, list, Value::Mutable(99)), Err(ValueError::Dangling));
    let broken = heap.allocate(Payload::List(vec![Value::Frozen(5)]));
    assert_eq!(contains(&heap, &frozen, &vt, broken, four), Err(ValueError::Dangling));
}

#[test]
fn slicing_lists() {
    let vt = VTables::new();
    let xs: Vec<Value> = (0..5).map(Value::Mutable).collect();
    let l = Payload::List(xs);
    let h = AValueDyn::new(&l, &vt);
    let refs = |v: &[usize]| v.iter().map(|&i| Value::Mutable(i)).collect::<Vec<_>>();
    let got = |r: Result<Payload, ValueError>| match r {
        Ok(Payload::List(ys)) => ys,
        other => panic!("unexpected {:?}", other),
    };
    assert_eq!(got(h.slice(Some(1), Some(3), None)), refs(&[1, 2]));
    assert_eq!(got(h.slice(None, None, Some(2))), refs(&[0, 2, 4]));
    assert_eq!(got(h.slice(None, None, Some(-1))), refs(&[4, 3, 2, 1, 0]));
    assert_eq!(got(h.slice(Some(-2), None, None)), refs(&[3, 4]));
    assert_eq!(got(h.slice(Some(4), Some(0), Some(-2))), refs(&[4, 2]));
    assert_eq!(got(h.slice(Some(-100), Some(100), None)), refs(&[0, 1, 2, 3, 4]));
    assert_eq!(got(h.slice(Some(3), Some(1), None)), refs(&[]));
    assert_eq!(h.slice(None, None, Some(0)).err(), Some(ValueError::Unsupported));
    let i = Payload::Int(1);
    assert_eq!(AValueDyn::new(&i, &vt).slice(None, None, None).err(), Some(ValueError::Unsupported));
}

#[test]
fn cycle_repr_of_each_kind() {
    let vt = VTables::new();
    let cases = vec![
        (Payload::NoneValue, "None"),
        (Payload::Bool(true), "True"),
        (Payload::Bool(false), "False"),
        (Payload::Int(0), "0"),
        (Payload::Int(-120), "-120"),
        (Payload::Int(i64::MIN), "-9223372036854775808"),
        (Payload::Str("ab".to_string()), "\"ab\""),
        (Payload::List(vec![Value::Mutable(0)]), "[...]"),
        (Payload::Record(vec![]), "record(...)"),
    ];
    for (p, want) in cases {
        let mut out = "x=".to_string();
        AValueDyn::new(&p, &vt).collect_repr_cycle(&mut out);
        assert_eq!(out, format!("x={}", want));
    }
}

#[test]
fn floor_division_and_remainder() {
    let vt = VTables::new();
    let div = |x: i64, y: i64| {
        let (a, b) = (Payload::Int(x), Payload::Int(y));
        match AValueDyn::new(&a, &vt).floor_div(AValueDyn::new(&b, &vt)) {
            Ok(Payload::Int(q)) => Ok(q),
            Err(e) => Err(e),
            other => panic!("unexpected {:?}", other),
        }
    };
    let rem = |x: i64, y: i64| {
        let (a, b) = (Payload::Int(x), Payload::Int(y));
        match AValueDyn::new(&a, &vt).percent(AValueDyn::new(&b, &vt)) {
            Ok(Payload::Int(q)) => Ok(q),
            Err(e) => Err(e),
            other => panic!("unexpected {:?}", other),
        }
    };
    assert_eq!(div(7, 2), Ok(3));
    assert_eq!(div(-7, 2), Ok(-4));
    assert_eq!(div(7, -2), Ok(-4));
    assert_eq!(div(-7, -2), Ok(3));
    assert_eq!(rem(7, 3), Ok(1));
    assert_eq!(rem(-7, 3), Ok(2));
    assert_eq!(rem(7, -3), Ok(-2));
    assert_eq!(rem(-7, -3), Ok(-1));
    assert_eq!(div(1, 0), Err(ValueError::DivisionByZero));
    assert_eq!(rem(1, 0), Err(ValueError::DivisionByZero));
    assert_eq!(div(i64::MIN, -1), Err(ValueError::Overflow));
    assert_eq!(rem(i64::MIN, -1), Ok(0));
}

#[test]
fn shifts_of_integers() {
    let vt = VTables::new();
    let shift = |x: i64, y: i64, left: bool| {
        let (a, b) = (Payload::Int(x), Payload::Int(y));
        let (ha, hb) = (AValueDyn::new(&a, &vt), AValueDyn::new(&b, &vt));
        let r = if left { ha.left_shift(hb) } else { ha.right_shift(hb) };
        match r {
            Ok(Payload::Int(q)) => Ok(q),
            Err(e) => Err(e),
            other => panic!("unexpected {:?}", other),
        }
    };
    assert_eq!(shift(3, 4, true), Ok(48));
    assert_eq!(shift(-3, 2, true), Ok(-12));
    assert_eq!(shift(0, 1000, true), Ok(0));
    assert_eq!(shift(1, 62, true), Ok(1 << 62));
    assert_eq!(shift(1, 63, true), Err(ValueError::Overflow));
    assert_eq!(shift(-1, 63, true), Ok(i64::MIN));
    assert_eq!(shift(-1, 64, true), Err(ValueError::Overflow));
    assert_eq!(shift(1, -1, true), Err(ValueError::Unsupported));
    assert_eq!(shift(48, 4, false), Ok(3));
    assert_eq!(shift(-7, 1, false), Ok(-4));
    assert_eq!(shift(-7, 100, false), Ok(-1));
    assert_eq!(shift(7, 100, false), Ok(0));
    assert_eq!(shift(i64::MAX, 62, false), Ok(1));
    assert_eq!(shift(1, -1, false), Err(ValueError::Unsupported));
}

#[test]
fn freeze_ignores_unreachable_broken_cells() {
    let mut heap = Heap::new();
    let _broken = heap.allocate(Payload::List(vec![Value::Mutable(99)]));
    let a = heap.allocate(Payload::Int(5));
    let mut freezer = Freezer::new(FrozenHeap::new());
    let fa = freezer.freeze(&mut heap, a).unwrap();
    assert_eq!(fa, Value::Frozen(0));
    assert!(matches!(heap.cells[0], Payload::List(_)));
    assert!(matches!(heap.cells[1], Payload::Tombstone(8)));
}

#[test]
fn hashed_lookup_reverse_add_hash_state_and_stack_name() {
    let vt = VTables::new();
    let r = Payload::Record(vec![field("x", Value::Mutable(1))]);
    let h = AValueDyn::new(&r, &vt);
    let name = Payload::Str("x".to_string());
    let hash = AValueDyn::new(&name, &vt).get_hash().unwrap() as u32;
    assert_eq!(h.get_attr_hashed("x", hash), Some(Value::Mutable(1)));
    let a = Payload::Str("a".to_string());
    let b = Payload::Str("b".to_string());
    match AValueDyn::new(&a, &vt).radd(AValueDyn::new(&b, &vt)) {
        Ok(Payload::Str(s)) => assert_eq!(s, "ba"),
        other => panic!("unexpected {:?}", other),
    }
    let two = Payload::Int(2);
    let five = Payload::Int(5);
    assert!(matches!(AValueDyn::new(&two, &vt).radd(AValueDyn::new(&five, &vt)), Ok(Payload::Int(7))));
    let mut state: u64 = 1;
    assert_eq!(AValueDyn::new(&five, &vt).write_hash(&mut state), Ok(()));
    assert_eq!(state, 36);
    let l = Payload::List(vec![]);
    assert_eq!(AValueDyn::new(&l, &vt).write_hash(&mut state), Err(ValueError::NotHashable));
    assert_eq!(state, 36);
    assert_eq!(AValueDyn::new(&five, &vt).name_for_call_stack(), "5");
    assert_eq!(AValueDyn::new(&l, &vt).name_for_call_stack(), "[...]");
}

#[test]
fn equality_through_the_heap() {
    let vt = VTables::new();
    let mut heap = Heap::new();
    let frozen = FrozenHeap::new();
    let one_a = heap.allocate(Payload::Int(1));
    let one_b = heap.allocate(Payload::Int(1));
    let two = heap.allocate(Payload::Int(2));
    let l1 = heap.allocate(Payload::List(vec![one_a]));
    let l2 = heap.allocate(Payload::List(vec![one_b]));
    let l3 = heap.allocate(Payload::List(vec![two]));
    let l4 = heap.allocate(Payload::List(vec![one_a, two]));
    assert_eq!(equals(&heap, &frozen, &vt, l1, l2), Ok(true));
    assert_eq!(equals(&heap, &frozen, &vt, l1, l3), Ok(false));
    assert_eq!(equals(&heap, &frozen, &vt, l1, l4), Ok(false));
    assert_eq!(equals(&heap, &frozen, &vt, one_a, one_b), Ok(true));
    let r1 = heap.allocate(Payload::Record(vec![field("x", l1)]));
    let r2 = heap.allocate(Payload::Record(vec![field("x", l2)]));
    let r3 = heap.allocate(Payload::Record(vec![field("y", l2)]));
    assert_eq!(equals(&heap, &frozen, &vt, r1, r2), Ok(true));
    assert_eq!(equals(&heap, &frozen, &vt, r1, r3), Ok(false));
    let cyc = heap.allocate(Payload::List(vec![Value::Mutable(10)]));
    assert_eq!(cyc, Value::Mutable(10));
    assert_eq!(equals(&heap, &frozen, &vt, cyc, cyc), Err(ValueError::TooDeep));
    let dangling = heap.allocate(Payload::List(vec![Value::Frozen(3)]));
    let other = heap.allocate(Payload::List(vec![one_a]));
    assert_eq!(equals(&heap, &frozen, &vt, dangling, other), Err(ValueError::Dangling));
}

#[test]
fn display_through_the_heap() {
    let vt = VTables::new();
    let mut heap = Heap::new();
    let frozen = FrozenHeap::new();
    let one = heap.allocate(Payload::Int(1));
    let s = heap.allocate(Payload::Str("a".to_string()));
    let empty = heap.allocate(Payload::List(vec![]));
    let l = heap.allocate(Payload::List(vec![one, s, empty]));
    let r = heap.allocate(Payload::Record(vec![field("x", one), field("y", l)]));
    let show = |v: Value| {
        let mut out = String::new();
        collect_repr(&heap, &frozen, &vt, v, &mut out).map(|_| out)
    };
    assert_eq!(show(l), Ok("[1, \"a\", []]".to_string()));
    assert_eq!(show(r), Ok("record(x=1, y=[1, \"a\", []])".to_string()));
    assert_eq!(show(one), Ok("1".to_string()));
    let mut heap2 = Heap::new();
    let cyc = heap2.allocate(Payload::List(vec![Value::Mutable(0)]));
    let mut out = String::new();
    assert_eq!(collect_repr(&heap2, &frozen, &vt, cyc, &mut out), Ok(()));
    assert!(out.starts_with("[[[") && out.ends_with("]]]"));
    assert!(out.contains("[...]"));
    let bad = heap2.allocate(Payload::List(vec![Value::Frozen(4)]));
    assert_eq!(collect_repr(&heap2, &frozen, &vt, bad, &mut String::new()), Err(ValueError::Dangling));
}

#[test]
fn scoped_iteration_over_lists() {
    let vt = VTables::new();
    let l = Payload::List(vec![Value::Mutable(3), Value::Frozen(1)]);
    let h = AValueDyn::new(&l, &vt);
    assert_eq!(h.with_iterator(|xs| xs.iter().count()), Ok(2));
    assert_eq!(h.with_iterator(|xs| xs[1]), Ok(Value::Frozen(1)));
    let i = Payload::Int(1);
    assert_eq!(AValueDyn::new(&i, &vt).with_iterator(|xs| xs.len()), Err(ValueError::Unsupported));
}
