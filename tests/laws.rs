use ccsds_tmtc::field::{GenericIntegralField, IntegralField, IntegralValue};
use ccsds_tmtc::space_packet::{PacketType, PrimaryHeader, SequenceFlag};

#[test]
fn bit_field_closure_all_widths() {
    for width in 1..=16usize {
        let field = GenericIntegralField::U16(IntegralField::new(3, 3 + width, 16).unwrap());
        for v in [0u64, 1, (1 << width) - 1, (1 << (width - 1))] {
            let mut buf = vec![0xA5u8; 3];
            field.write(&mut buf, IntegralValue::U64(v)).unwrap();
            assert_eq!(field.read(&buf).unwrap().value(), v as i128);
        }
        let signed = GenericIntegralField::I16(IntegralField::new(5, 5 + width, 16).unwrap());
        let lo = -(1i64 << (width - 1));
        let hi = (1i64 << (width - 1)) - 1;
        for v in [lo, hi, 0, -1i64.max(lo)] {
            let mut buf = vec![0x5Au8; 3];
            signed.write(&mut buf, IntegralValue::I64(v)).unwrap();
            assert_eq!(signed.read(&buf).unwrap().value(), v as i128);
        }
    }
    let wide = GenericIntegralField::I64(IntegralField::new(0, 64, 64).unwrap());
    let mut buf = vec![0u8; 8];
    wide.write(&mut buf, IntegralValue::I64(i64::MIN)).unwrap();
    assert_eq!(wide.read(&buf).unwrap(), IntegralValue::I64(i64::MIN));
}

#[test]
fn space_packet_header_round_trip() {
    let h = PrimaryHeader {
        version_number: 5,
        packet_type: PacketType::Telemetry,
        secondary_header_flag: true,
        apid: 0x3FE,
        sequence_flag: SequenceFlag::Last,
        sequence_count: 0x2ABC,
        packet_data_length_raw: 0x1234,
    };
    assert_eq!(PrimaryHeader::parse(&h.to_bytes()), Some(h));
}
