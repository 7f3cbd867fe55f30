use jvmrt::class_file::{parse_class_file, parse_cp_table, AttributeInfo, CPInfo};

#[test]
fn cp_test() {
    let bytes = vec![0x00, 0x03, 0x07, 0x00, 0x00, 0x09, 0x00, 0x01, 0x00, 0x02];
    // The first two bytes are the constant pool count ("constant_pool_count - 1"
    // entries follow, indexed from 1).
    let count = ((bytes[0] as u16) << 8) | bytes[1] as u16;
    assert_eq!(count, 3);
    let (table, _) = parse_cp_table(&bytes, 2, count).unwrap();
    assert_eq!(
        table,
        vec![
            CPInfo::Class { name_index: 0 },
            CPInfo::Fieldref {
                class_index: 1,
                name_and_type_index: 2,
            }
        ]
    );
}

#[test]
fn long_constant_reserves_a_slot() {
    // count = 3: one Long entry occupies both slots ("big" 8-byte constant).
    let mut bytes = vec![0x00, 0x03, 0x05];
    bytes.extend_from_slice(&[0, 0, 0, 0, 0, 0, 0, 42]);
    let (table, _) = parse_cp_table(&bytes, 2, 3).unwrap();
    assert_eq!(table.len(), 2);
    assert_eq!(table[0], CPInfo::Long { val: 42 });
    assert_eq!(table[1], CPInfo::Unusable);
}

/// Assemble a minimal class-file image: magic, versions, a two-entry
/// constant pool naming the class, no members.
fn minimal_class_image() -> Vec<u8> {
    let mut b: Vec<u8> = Vec::new();
    b.extend_from_slice(&0xCAFEBABEu32.to_be_bytes());
    b.extend_from_slice(&0u16.to_be_bytes()); // minor
    b.extend_from_slice(&52u16.to_be_bytes()); // major
    b.extend_from_slice(&3u16.to_be_bytes()); // cp count
    let name = b"Sample";
    b.push(1); // Utf8
    b.extend_from_slice(&(name.len() as u16).to_be_bytes());
    b.extend_from_slice(name);
    b.push(7); // Class
    b.extend_from_slice(&1u16.to_be_bytes());
    b.extend_from_slice(&0x0021u16.to_be_bytes()); // access flags
    b.extend_from_slice(&2u16.to_be_bytes()); // this_class
    b.extend_from_slice(&0u16.to_be_bytes()); // super_class
    b.extend_from_slice(&0u16.to_be_bytes()); // interfaces
    b.extend_from_slice(&0u16.to_be_bytes()); // fields
    b.extend_from_slice(&0u16.to_be_bytes()); // methods
    b.extend_from_slice(&0u16.to_be_bytes()); // attributes
    b
}

#[test]
fn parse_minimal_class_file() {
    let image = minimal_class_image();
    let cf = parse_class_file(&image).unwrap();
    assert_eq!(cf.magic, 0xCAFEBABE);
    assert_eq!(cf.major_version, 52);
    assert_eq!(cf.this_class, 2);
    assert_eq!(cf.super_class, 0);
    assert_eq!(cf.constant_pool.table.len(), 2);
    assert_eq!(cf.constant_pool.utf8(1).unwrap(), "Sample");
    assert_eq!(cf.constant_pool.class_name(2).unwrap(), "Sample");
}

#[test]
fn truncated_class_file_rejected() {
    let mut image = minimal_class_image();
    image.truncate(9);
    assert!(parse_class_file(&image).is_err());
    assert!(parse_class_file(&vec![]).is_err());
}

#[test]
fn code_attribute_decodes() {
    // max_stack 2, max_locals 3, code [iconst_1, ireturn], no tables.
    let mut info: Vec<u8> = Vec::new();
    info.extend_from_slice(&2u16.to_be_bytes());
    info.extend_from_slice(&3u16.to_be_bytes());
    info.extend_from_slice(&2u32.to_be_bytes());
    info.extend_from_slice(&[4, 172]);
    info.extend_from_slice(&0u16.to_be_bytes());
    info.extend_from_slice(&0u16.to_be_bytes());
    let attr = AttributeInfo { attribute_name_index: 9, attribute_length: info.len() as u32, info };
    let code = attr.code().unwrap();
    assert_eq!(code.max_stack, 2);
    assert_eq!(code.max_locals, 3);
    assert_eq!(code.code, vec![4, 172]);
    assert!(code.exception_table.is_empty());
}
