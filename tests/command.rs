use ccsds_tmtc::cmd::{build_schema, write_all, ParamType, ParamValue, SchemaError, WriteError, Writer};
use ccsds_tmtc::field::{
    FieldError, FloatingField, FloatingValue, GenericFloatingField, GenericIntegralField,
    IntegralField, IntegralType, IntegralValue, NumericValue,
};

const DEADBEEF: [u8; 4] = [0xDE, 0xAD, 0xBE, 0xEF];

#[test]
fn field_test() {
    let de_u8 = IntegralField::new(0, 8, 8).unwrap();
    let adbe_u16 = IntegralField::new(8, 24, 16).unwrap();
    assert_eq!(de_u8.read(&DEADBEEF).unwrap(), 0xDE);
    assert_eq!(adbe_u16.read(&DEADBEEF).unwrap(), 0xADBE);
    let n = GenericIntegralField::U8(de_u8);
    let u = n.read(&DEADBEEF).unwrap();
    assert_eq!(u, IntegralValue::U8(0xDE));
    let i = u.convert(IntegralType::I8);
    assert!(i.is_none());
}

#[test]
fn test_f64() {
    let double: [u8; 8] = (789.456f64).to_be_bytes();
    let f64_field = GenericFloatingField::F64(FloatingField::new(0, 64, 64).unwrap());
    match f64_field.read(&double).unwrap() {
        FloatingValue::F64(bits) => assert_eq!(f64::from_bits(bits), 789.456),
        other => panic!("unexpected {:?}", other),
    }
}

#[test]
fn integral_field_rejects_bad_ranges() {
    assert!(IntegralField::new(3, 3, 8).is_none());
    assert!(IntegralField::new(0, 9, 8).is_none());
    assert!(IntegralField::new(0, 64, 64).is_some());
    let f = IntegralField::new(24, 40, 16).unwrap();
    assert_eq!(f.read(&DEADBEEF), Err(FieldError::OutOfRange));
}

#[test]
fn signed_field_round_trip() {
    let field = GenericIntegralField::I16(IntegralField::new(4, 16, 16).unwrap());
    let mut buf = vec![0u8; 2];
    field.write(&mut buf, IntegralValue::I64(-3)).unwrap();
    assert_eq!(buf, vec![0x0F, 0xFD]);
    assert_eq!(field.read(&buf).unwrap(), IntegralValue::I16(-3));
    assert_eq!(field.write(&mut buf, IntegralValue::I64(40000)), Err(FieldError::NotRepresentable));
    let unsigned = GenericIntegralField::U8(IntegralField::new(0, 3, 8).unwrap());
    let mut buf = vec![0xFFu8];
    unsigned.write(&mut buf, IntegralValue::U8(0b101)).unwrap();
    assert_eq!(buf, vec![0b1011_1111]);
    assert_eq!(unsigned.read(&buf).unwrap(), IntegralValue::U8(5));
    assert_eq!(unsigned.write(&mut buf, IntegralValue::I8(-1)), Err(FieldError::NotRepresentable));
}

#[test]
fn command_packing_u8_i16_f32() {
    let schema = build_schema(&vec![ParamType::Uint8, ParamType::Int16, ParamType::Float]).unwrap();
    assert_eq!(schema.static_size, 7);
    assert!(!schema.has_trailer_parameter);
    let params = vec![
        ParamValue::Integer(0x42),
        ParamValue::Integer(-1),
        ParamValue::Floating(FloatingValue::F32(3.5f32.to_bits())),
    ];
    let (bytes, len) = write_all(&schema, vec![0u8; 16], &params).unwrap();
    assert_eq!(len, 7);
    assert_eq!(&bytes[..len], &[0x42, 0xFF, 0xFF, 0x40, 0x60, 0x00, 0x00]);
}

#[test]
fn command_packing_with_trailer() {
    let schema = build_schema(&vec![ParamType::Uint16, ParamType::Raw]).unwrap();
    assert!(schema.has_trailer_parameter);
    assert_eq!(schema.static_size, 2);
    let params = vec![ParamValue::Integer(0x1234), ParamValue::Bytes(vec![9, 8, 7])];
    let (bytes, len) = write_all(&schema, vec![0u8; 8], &params).unwrap();
    assert_eq!(len, 5);
    assert_eq!(&bytes[..len], &[0x12, 0x34, 9, 8, 7]);
    let long = vec![ParamValue::Integer(1), ParamValue::Bytes(vec![0; 7])];
    assert_eq!(write_all(&schema, vec![0u8; 8], &long).err(), Some(WriteError::TrailerTooLong));
}

#[test]
fn command_packing_errors() {
    assert_eq!(
        build_schema(&vec![ParamType::Raw, ParamType::Uint8]).err(),
        Some(SchemaError::TrailerNotLast)
    );
    let schema = build_schema(&vec![ParamType::Uint8, ParamType::Double]).unwrap();
    assert_eq!(schema.static_size, 9);
    let too_few = vec![ParamValue::Integer(1)];
    assert_eq!(write_all(&schema, vec![0u8; 9], &too_few).err(), Some(WriteError::Incomplete));
    let too_many = vec![
        ParamValue::Integer(1),
        ParamValue::Floating(FloatingValue::F64(0)),
        ParamValue::Integer(2),
    ];
    assert_eq!(write_all(&schema, vec![0u8; 9], &too_many).err(), Some(WriteError::AllFieldsWritten));
    let wrong_kind = vec![ParamValue::Integer(1), ParamValue::Integer(2)];
    assert_eq!(
        write_all(&schema, vec![0u8; 9], &wrong_kind).err(),
        Some(WriteError::Field(FieldError::NotRepresentable))
    );
    let overflow = vec![ParamValue::Integer(256), ParamValue::Floating(FloatingValue::F64(0))];
    assert_eq!(
        write_all(&schema, vec![0u8; 9], &overflow).err(),
        Some(WriteError::Field(FieldError::NotRepresentable))
    );
    let ok = vec![ParamValue::Integer(255), ParamValue::Floating(FloatingValue::F64(1.5f64.to_bits()))];
    assert_eq!(
        write_all(&schema, vec![0u8; 4], &ok).err(),
        Some(WriteError::Field(FieldError::OutOfRange))
    );
    let bytes = vec![ParamValue::Integer(255), ParamValue::Bytes(vec![1])];
    assert_eq!(write_all(&schema, vec![0u8; 9], &bytes).err(), Some(WriteError::NoTrailer));
}

#[test]
fn writer_step_by_step() {
    let schema = build_schema(&vec![ParamType::Int8]).unwrap();
    let mut writer = Writer::new(&schema, vec![0u8; 1]);
    writer.write(NumericValue::Integral(IntegralValue::I64(-2))).unwrap();
    assert_eq!(
        writer.write(NumericValue::Integral(IntegralValue::I64(0))),
        Err(WriteError::AllFieldsWritten)
    );
    let (bytes, len) = writer.finish().unwrap();
    assert_eq!((bytes, len), (vec![0xFE], 1));
}
