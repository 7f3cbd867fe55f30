use jvmrt::descriptor::{BaseType, FieldDescriptor, FieldType};
use jvmrt::error::VmError;
use jvmrt::value::Value;

#[test]
fn integer_division_by_zero_is_arithmetic_exception() {
    assert_eq!(
        Value::Long(1).div_val(Value::Long(0)),
        Err(VmError::ArithmeticException)
    );
    assert_eq!(
        Value::Int(7).div_val(Value::Int(0)),
        Err(VmError::ArithmeticException)
    );
    assert_eq!(
        Value::Long(1).rem_val(Value::Long(0)),
        Err(VmError::ArithmeticException)
    );
}

#[test]
fn float_division_by_zero_follows_ieee() {
    let one = Value::Float(1.0f32.to_bits());
    let zero = Value::Float(0.0f32.to_bits());
    assert_eq!(
        one.div_val(zero),
        Ok(Value::Float(f32::INFINITY.to_bits()))
    );
    let minus_one = Value::Float((-1.0f32).to_bits());
    assert_eq!(
        minus_one.div_val(zero),
        Ok(Value::Float(f32::NEG_INFINITY.to_bits()))
    );
    match zero.div_val(zero) {
        Ok(Value::Float(bits)) => assert!(f32::from_bits(bits).is_nan()),
        other => panic!("expected a float, got {:?}", other),
    }
    let done = Value::Double(1.0f64.to_bits());
    let dzero = Value::Double(0.0f64.to_bits());
    assert_eq!(
        done.div_val(dzero),
        Ok(Value::Double(f64::INFINITY.to_bits()))
    );
}

#[test]
fn float_arithmetic_matches_host() {
    let a = Value::Float(1.5f32.to_bits());
    let b = Value::Float(2.25f32.to_bits());
    assert_eq!(a.add_val(b), Ok(Value::Float((1.5f32 + 2.25f32).to_bits())));
    assert_eq!(a.sub_val(b), Ok(Value::Float((1.5f32 - 2.25f32).to_bits())));
    assert_eq!(a.mul_val(b), Ok(Value::Float((1.5f32 * 2.25f32).to_bits())));
    assert_eq!(b.rem_val(a), Ok(Value::Float((2.25f32 % 1.5f32).to_bits())));
    let x = Value::Double(3.5f64.to_bits());
    let y = Value::Double(0.25f64.to_bits());
    assert_eq!(x.add_val(y), Ok(Value::Double((3.5f64 + 0.25f64).to_bits())));
    assert_eq!(x.div_val(y), Ok(Value::Double((3.5f64 / 0.25f64).to_bits())));
    assert_eq!(
        x.neg_val(),
        Ok(Value::Double((-3.5f64).to_bits()))
    );
}

#[test]
fn integer_arithmetic_wraps() {
    assert_eq!(
        Value::Int(i32::MAX).add_val(Value::Int(1)),
        Ok(Value::Int(i32::MIN))
    );
    assert_eq!(
        Value::Int(i32::MIN).div_val(Value::Int(-1)),
        Ok(Value::Int(i32::MIN))
    );
    assert_eq!(
        Value::Int(i32::MIN).rem_val(Value::Int(-1)),
        Ok(Value::Int(0))
    );
    assert_eq!(
        Value::Long(i64::MIN).sub_val(Value::Long(1)),
        Ok(Value::Long(i64::MAX))
    );
    assert_eq!(
        Value::Int(0x4000_0000).mul_val(Value::Int(4)),
        Ok(Value::Int(0))
    );
    assert_eq!(Value::Int(-7).div_val(Value::Int(2)), Ok(Value::Int(-3)));
    assert_eq!(Value::Int(-7).rem_val(Value::Int(2)), Ok(Value::Int(-1)));
}

#[test]
fn shifts_mask_their_count() {
    assert_eq!(
        Value::Int(-1).ushr(Value::Int(28)),
        Ok(Value::Int(15))
    );
    assert_eq!(
        Value::Int(1).shl_val(Value::Int(33)),
        Ok(Value::Int(2))
    );
    assert_eq!(
        Value::Long(1).shl_val(Value::Int(65)),
        Ok(Value::Long(2))
    );
    assert_eq!(
        Value::Int(-8).shr_val(Value::Int(1)),
        Ok(Value::Int(-4))
    );
    assert_eq!(
        Value::Long(-1).ushr(Value::Int(60)),
        Ok(Value::Long(15))
    );
}

#[test]
fn widening_and_narrowing() {
    assert_eq!(Value::Byte(-1).extend_32(), Value::Int(-1));
    assert_eq!(Value::Char(65).extend_32(), Value::Int(65));
    assert_eq!(Value::Boolean(true).extend_32(), Value::Int(1));
    assert_eq!(Value::Short(-2).extend_32(), Value::Int(-2));
    assert_eq!(Value::Long(5).extend_32(), Value::Long(5));

    let byte_ty = FieldType::BaseType(BaseType::B);
    assert_eq!(Value::Int(257).store_ty(&byte_ty), Value::Byte(1));
    let short_ty = FieldType::BaseType(BaseType::S);
    assert_eq!(Value::Int(0x12345).store_ty(&short_ty), Value::Short(0x2345));
    let bool_ty = FieldType::BaseType(BaseType::Z);
    assert_eq!(Value::Int(3).store_ty(&bool_ty), Value::Boolean(true));
    assert_eq!(Value::Int(2).store_ty(&bool_ty), Value::Boolean(false));
    let char_ty = FieldType::BaseType(BaseType::C);
    assert_eq!(Value::Int(0x10041).store_ty(&char_ty), Value::Char(0x41));
}

#[test]
fn defaults_per_type() {
    for (s, v) in [
        ("I", Value::Int(0)),
        ("J", Value::Long(0)),
        ("Z", Value::Boolean(false)),
        ("B", Value::Byte(0)),
        ("C", Value::Char(0)),
        ("S", Value::Short(0)),
        ("F", Value::Float(0)),
        ("D", Value::Double(0)),
        ("Ljava/lang/Object;", Value::Object(None)),
        ("[I", Value::Array(None)),
    ] {
        let d = FieldDescriptor::read(s).unwrap();
        assert_eq!(Value::default_for_ty(&d.0), v);
    }
}

#[test]
fn mixed_operand_tags_are_rejected() {
    assert_eq!(
        Value::Int(1).add_val(Value::Long(2)),
        Err(VmError::InvalidType)
    );
    assert_eq!(
        Value::Float(0).xor_val(Value::Float(0)),
        Err(VmError::InvalidType)
    );
}
