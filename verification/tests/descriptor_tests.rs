use jvmrt::descriptor::{
    ArrayType, BaseType, ComponentType, FieldDescriptor, FieldType, MethodDescriptor, ObjectType,
    ParameterDescriptor, ReturnDescriptor,
};

#[test]
fn method_desc_test() {
    let desc = MethodDescriptor::read("([CII)V").unwrap();
    assert_eq!(
        desc,
        MethodDescriptor(
            vec![
                ParameterDescriptor(FieldType::ArrayType(ArrayType(Box::new(ComponentType(
                    FieldType::BaseType(BaseType::C)
                ))))),
                ParameterDescriptor(FieldType::BaseType(BaseType::I)),
                ParameterDescriptor(FieldType::BaseType(BaseType::I))
            ],
            ReturnDescriptor::Void
        )
    )
}

#[test]
fn field_descriptor_round_trip() {
    for s in [
        "I",
        "J",
        "Z",
        "B",
        "C",
        "S",
        "F",
        "D",
        "Ljava/lang/String;",
        "[I",
        "[[Ljava/lang/Object;",
        "[[[J",
    ] {
        let d = FieldDescriptor::read(s).unwrap();
        assert_eq!(d.descriptor_string(), s);
    }
}

#[test]
fn method_descriptor_round_trip() {
    for s in ["()V", "(I)I", "([CII)V", "(Ljava/lang/String;[J)Ljava/lang/Object;", "(DD)D"] {
        let d = MethodDescriptor::read(s).unwrap();
        assert_eq!(d.descriptor_string(), s);
    }
}

#[test]
fn malformed_descriptors_rejected() {
    assert!(FieldDescriptor::read("").is_err());
    assert!(FieldDescriptor::read("X").is_err());
    assert!(FieldDescriptor::read("Lfoo").is_err());
    assert!(FieldDescriptor::read("II").is_err());
    assert!(FieldDescriptor::read("[").is_err());
    assert!(MethodDescriptor::read("").is_err());
    assert!(MethodDescriptor::read("I)V").is_err());
    assert!(MethodDescriptor::read("(IV").is_err());
    assert!(MethodDescriptor::read("(I)VV").is_err());
    assert!(MethodDescriptor::read("(I)").is_err());
}

#[test]
fn display_names() {
    let d = FieldDescriptor::read("[I").unwrap();
    assert_eq!(d.0.display_name(), "int[]");
    let d = FieldDescriptor::read("[[Z").unwrap();
    assert_eq!(d.0.display_name(), "boolean[][]");
    let d = FieldDescriptor::read("Ljava/lang/String;").unwrap();
    assert_eq!(d.0.display_name(), "java/lang/String");
    assert_eq!(BaseType::J.display_name(), "long");
}
