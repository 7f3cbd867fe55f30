use jvmrt::class_file::{ClassFile, ConstantPool, CPInfo, FieldInfo};
use jvmrt::descriptor::{BaseType, FieldType};
use jvmrt::error::VmError;
use jvmrt::heap::Heap;
use jvmrt::method_area::MethodArea;
use jvmrt::value::Value;

fn utf8_entry(s: &str) -> CPInfo {
    CPInfo::Utf8 { length: s.as_bytes().len() as u16, bytes: s.as_bytes().to_vec() }
}

/// A class file for `name` with the given fields, extending the class named
/// by `super_name` (or nothing, for the root class).
fn class_with_fields(name: &str, super_name: Option<&str>, fields: &[(&str, &str, u16)]) -> ClassFile {
    let mut table: Vec<CPInfo> = Vec::new();
    table.push(utf8_entry(name)); // 1
    table.push(CPInfo::Class { name_index: 1 }); // 2
    let super_class = match super_name {
        Some(sn) => {
            table.push(utf8_entry(sn)); // 3
            table.push(CPInfo::Class { name_index: 3 }); // 4
            4
        }
        None => 0,
    };
    let mut field_infos: Vec<FieldInfo> = Vec::new();
    for (fname, fdesc, flags) in fields {
        table.push(utf8_entry(fname));
        let name_index = table.len() as u16;
        table.push(utf8_entry(fdesc));
        let descriptor_index = table.len() as u16;
        field_infos.push(FieldInfo {
            access_flags: *flags,
            name_index,
            descriptor_index,
            attributes: vec![],
        });
    }
    let count = table.len() as u16 + 1;
    ClassFile {
        magic: 0xCAFEBABE,
        minor_version: 0,
        major_version: 52,
        constant_pool: ConstantPool { count, table },
        access_flags: 0x0021,
        this_class: 2,
        super_class,
        interfaces: vec![],
        fields: field_infos,
        methods: vec![],
        attributes: vec![],
    }
}

fn base_area() -> MethodArea {
    let mut ma = MethodArea::new();
    ma.define_class(class_with_fields("java/lang/Object", None, &[])).unwrap();
    ma
}

#[test]
fn new_array_has_length_and_zeroed_elements() {
    let mut ma = base_area();
    let mut heap = Heap::new();
    let arr = heap.new_array(&mut ma, FieldType::BaseType(BaseType::I), 3).unwrap();
    assert_eq!(heap.arr_len(arr).unwrap(), 3);
    for i in 0..3 {
        assert_eq!(heap.load_arr_elem(arr, i).unwrap(), Value::Int(0));
    }
    assert_eq!(
        heap.load_arr_elem(arr, 3),
        Err(VmError::ArrayIndexOutOfBounds)
    );
}

#[test]
fn array_class_interned_by_element_type() {
    let mut ma = base_area();
    let a = ma.resolve_arr_class(&FieldType::BaseType(BaseType::I)).unwrap();
    let b = ma.resolve_arr_class(&FieldType::BaseType(BaseType::I)).unwrap();
    let c = ma.resolve_arr_class(&FieldType::BaseType(BaseType::J)).unwrap();
    assert_eq!(a, b);
    assert_ne!(a, c);
    // The array class is also resolvable under its bracketed name.
    let d = ma.resolve_class("[I").unwrap();
    assert_eq!(a, d);
}

#[test]
fn resolve_class_is_stable() {
    let mut ma = base_area();
    let a = ma.resolve_class("java/lang/Object").unwrap();
    let b = ma.resolve_class("java/lang/Object").unwrap();
    assert_eq!(a, b);
    assert!(matches!(
        ma.resolve_class("missing/Class"),
        Err(VmError::ClassNotFound(_))
    ));
}

#[test]
fn double_definition_is_linkage_error() {
    let mut ma = base_area();
    assert_eq!(
        ma.define_class(class_with_fields("java/lang/Object", None, &[])),
        Err(VmError::LinkageError)
    );
}

#[test]
fn field_store_load_round_trip() {
    let mut ma = base_area();
    let cid = ma
        .define_class(class_with_fields(
            "Box",
            Some("java/lang/Object"),
            &[("b", "B", 0), ("s", "S", 0), ("i", "I", 0), ("j", "J", 0), ("z", "Z", 0), ("c", "C", 0)],
        ))
        .unwrap();
    let mut heap = Heap::new();
    let obj = heap.new_object(&ma, cid);
    let cases = [
        ("b", Value::Int(257), Value::Byte(1)),
        ("s", Value::Int(0x12345), Value::Short(0x2345)),
        ("i", Value::Int(-7), Value::Int(-7)),
        ("j", Value::Long(1 << 40), Value::Long(1 << 40)),
        ("z", Value::Int(3), Value::Boolean(true)),
        ("c", Value::Int(0x10041), Value::Char(0x41)),
    ];
    for (name, stored, loaded) in cases {
        let fid = ma.resolve_field(cid, name).unwrap();
        heap.store_field(&ma, obj, fid, stored).unwrap();
        assert_eq!(heap.load_field(&ma, obj, fid).unwrap(), loaded);
    }
}

#[test]
fn inherited_fields_keep_their_offsets() {
    let mut ma = base_area();
    let sup = ma
        .define_class(class_with_fields("Base", Some("java/lang/Object"), &[("x", "I", 0)]))
        .unwrap();
    let sub = ma
        .define_class(class_with_fields("Derived", Some("Base"), &[("y", "J", 0)]))
        .unwrap();
    // Resolving the inherited field from the subclass finds the same field
    // record, hence the same offset.
    let fx_via_base = ma.resolve_field(sup, "x").unwrap();
    let fx_via_derived = ma.resolve_field(sub, "x").unwrap();
    assert_eq!(fx_via_base, fx_via_derived);
    // Storing through the subclass object works at the inherited offset.
    let mut heap = Heap::new();
    let obj = heap.new_object(&ma, sub);
    heap.store_field(&ma, obj, fx_via_derived, Value::Int(11)).unwrap();
    let fy = ma.resolve_field(sub, "y").unwrap();
    heap.store_field(&ma, obj, fy, Value::Long(-2)).unwrap();
    assert_eq!(heap.load_field(&ma, obj, fx_via_base).unwrap(), Value::Int(11));
    assert_eq!(heap.load_field(&ma, obj, fy).unwrap(), Value::Long(-2));
}

#[test]
fn array_copy_moves_elements() {
    let mut ma = base_area();
    let mut heap = Heap::new();
    let ty = FieldType::BaseType(BaseType::I);
    let a = heap.new_array(&mut ma, ty.clone(), 5).unwrap();
    for i in 0..5 {
        heap.store_arr_elem(a, i, Value::Int(i as i32 + 1)).unwrap();
    }
    let b = heap.new_array(&mut ma, ty.clone(), 5).unwrap();
    heap.array_copy(a, 0, b, 0, 5).unwrap();
    for i in 0..5 {
        assert_eq!(heap.load_arr_elem(b, i).unwrap(), Value::Int(i as i32 + 1));
    }
    // Overlapping copy within one array behaves like a move of the original
    // bytes.
    heap.array_copy(a, 0, a, 1, 4).unwrap();
    assert_eq!(heap.load_arr_elem(a, 0).unwrap(), Value::Int(1));
    for i in 1..5 {
        assert_eq!(heap.load_arr_elem(a, i).unwrap(), Value::Int(i as i32));
    }
    // Mismatched element types are rejected.
    let c = heap.new_array(&mut ma, FieldType::BaseType(BaseType::J), 5).unwrap();
    assert!(heap.array_copy(a, 0, c, 0, 2).is_err());
    // Out-of-range spans are rejected.
    assert_eq!(
        heap.array_copy(a, 3, b, 0, 3),
        Err(VmError::ArrayIndexOutOfBounds)
    );
}

fn string_class(ma: &mut MethodArea) -> jvmrt::method_area::ClassId {
    ma.define_class(class_with_fields(
        "java/lang/String",
        Some("java/lang/Object"),
        &[("value", "[B", 0), ("coder", "B", 0)],
    ))
    .unwrap()
}

#[test]
fn read_string_coder_zero_decodes_utf8_bytes() {
    let mut ma = base_area();
    let cid = string_class(&mut ma);
    let mut heap = Heap::new();
    let obj = heap.new_object(&ma, cid);
    let arr = heap.new_array(&mut ma, FieldType::BaseType(BaseType::B), 2).unwrap();
    heap.store_arr_elem(arr, 0, Value::Byte(72)).unwrap();
    heap.store_arr_elem(arr, 1, Value::Byte(105)).unwrap();
    let f_value = ma.resolve_field(cid, "value").unwrap();
    let f_coder = ma.resolve_field(cid, "coder").unwrap();
    heap.store_field(&ma, obj, f_value, Value::Array(Some(arr))).unwrap();
    heap.store_field(&ma, obj, f_coder, Value::Int(0)).unwrap();
    assert_eq!(heap.read_string(&ma, obj).unwrap(), "Hi");
}

#[test]
fn created_strings_read_back() {
    let mut ma = base_area();
    let _ = string_class(&mut ma);
    let mut heap = Heap::new();
    let obj = heap.create_string(&mut ma, "Hi there").unwrap();
    assert_eq!(heap.read_string(&ma, obj).unwrap(), "Hi there");
}

#[test]
fn clone_object_copies_bytes() {
    let mut ma = base_area();
    let cid = ma
        .define_class(class_with_fields("Pair", Some("java/lang/Object"), &[("a", "I", 0)]))
        .unwrap();
    let mut heap = Heap::new();
    let obj = heap.new_object(&ma, cid);
    let fa = ma.resolve_field(cid, "a").unwrap();
    heap.store_field(&ma, obj, fa, Value::Int(9)).unwrap();
    let copy = heap.clone_object(obj).unwrap();
    assert_eq!(heap.load_field(&ma, copy, fa).unwrap(), Value::Int(9));
    // The copy is a distinct allocation.
    heap.store_field(&ma, copy, fa, Value::Int(1)).unwrap();
    assert_eq!(heap.load_field(&ma, obj, fa).unwrap(), Value::Int(9));
}

#[test]
fn static_fields_have_their_own_slot() {
    let mut ma = base_area();
    let cid = ma
        .define_class(class_with_fields(
            "Holder",
            Some("java/lang/Object"),
            &[("stat", "J", 0x0008), ("inst", "I", 0)],
        ))
        .unwrap();
    let f_stat = ma.resolve_field(cid, "stat").unwrap();
    ma.set_static_field(f_stat, Value::Long(5)).unwrap();
    assert_eq!(ma.fields[f_stat.0].load_static(), Value::Long(5));
    // An instance field has no static slot.
    let f_inst = ma.resolve_field(cid, "inst").unwrap();
    assert_eq!(
        ma.set_static_field(f_inst, Value::Int(1)),
        Err(VmError::InvalidType)
    );
}
