use ccsds_tmtc::aos::AosPrimaryHeader;
use ccsds_tmtc::c2a::{SegmentHeader, SegmentSequenceFlag, TcSecondaryHeader, TmSecondaryHeader};
use ccsds_tmtc::cmd::{build_schema, ParamType, ParamValue};
use ccsds_tmtc::command::SanitizeHook;
use ccsds_tmtc::downlink::{
    DbField, DbTelemetry, Downlink, RegistryBuildError, TelemetryRegistry, TelemetryRegistryError,
    TmivBuildError,
    TmivBuilder,
};
use ccsds_tmtc::field::{GenericIntegralField, IntegralField, IntegralValue, SizedBuilder, NumericField};
use ccsds_tmtc::handler::{BeforeHookLayer, Builder, Either, Handle, HandleChoiceExt, HandleError, Hook};
use ccsds_tmtc::registry::{
    find_channels, DataType, FatTelemetrySchema, FieldMetadata, LastTmivStore, StoreError,
    TelemetrySchema,
};
use ccsds_tmtc::satconfig::{CommandSubsystem, TelemetryChannel};
use ccsds_tmtc::space_packet::{PacketType, PrimaryHeader, SequenceFlag};
use ccsds_tmtc::tco::{self, Tco, TcoParam, TcoValue};
use ccsds_tmtc::fop::{Fop, FopStatusKind, FrameEvent};
use ccsds_tmtc::uplink::{send_ad_command, AdCommandError};
use ccsds_tmtc::tlm::{
    build_bit_range, build_field_schema, FieldExtractionInfo, FieldSchemaError, FieldValue,
    FieldValueSchema, IntegralConversion, IntegralFieldSchema, Status, VariableType,
};
use ccsds_tmtc::tmiv::Tmiv;
use ccsds_tmtc::tc::{build_tf, FrameType};
use ccsds_tmtc::uplink::{
    build_tc_segment, CommandError, CommandRegistry, CommandSchemaWithId, FatCommandSchema, ReadError,
    Reader, RegistryError, TcoName,
};

fn channels() -> Vec<(String, TelemetryChannel)> {
    vec![
        ("RT".to_string(), TelemetryChannel { destination_flag_mask: 0b01 }),
        ("ST".to_string(), TelemetryChannel { destination_flag_mask: 0b10 }),
        ("ALL".to_string(), TelemetryChannel { destination_flag_mask: 0xFF }),
    ]
}

#[test]
fn channel_fan_out() {
    let chs = channels();
    assert_eq!(find_channels(&chs, 0b01), vec!["RT".to_string(), "ALL".to_string()]);
    assert_eq!(find_channels(&chs, 0b10), vec!["ST".to_string(), "ALL".to_string()]);
    assert_eq!(find_channels(&chs, 0b11), vec!["RT".to_string(), "ST".to_string(), "ALL".to_string()]);
    assert!(find_channels(&chs, 0).is_empty());
}

fn metadata(name: &str) -> FieldMetadata {
    FieldMetadata {
        order: 0,
        original_name: name.to_string(),
        converted_name: name.to_string(),
        raw_name: format!("{}@RAW", name),
        description: String::new(),
        data_type: DataType::Integer,
    }
}

fn registry() -> TelemetryRegistry {
    let status = Status::new(vec![(0, "OFF".to_string()), (1, "ON".to_string())], "OTHER".to_string());
    let schema = TelemetrySchema {
        integral_fields: vec![
            (
                metadata("COUNT"),
                IntegralFieldSchema {
                    converter: IntegralConversion::Unconverted,
                    field: GenericIntegralField::U16(IntegralField::new(208, 224, 16).unwrap()),
                },
            ),
            (
                metadata("POWER"),
                IntegralFieldSchema {
                    converter: IntegralConversion::Status(status),
                    field: GenericIntegralField::U8(IntegralField::new(224, 232, 8).unwrap()),
                },
            ),
        ],
        floating_fields: vec![],
    };
    TelemetryRegistry {
        apid_map: vec![(0x010, "OBC".to_string())],
        schemas: vec![(
            ("OBC".to_string(), 0x42),
            FatTelemetrySchema { component: "OBC".to_string(), telemetry: "HK".to_string(), schema },
        )],
        channels: channels(),
    }
}

fn telemetry_packet(apid: u16, tlm_id: u8, flags: u8, count: u16, power: u8) -> Vec<u8> {
    let sh = TmSecondaryHeader {
        version_number: 1,
        board_time: 0,
        telemetry_id: tlm_id,
        global_time_bits: 0,
        on_board_subnetwork_time: 0,
        destination_flags: flags,
        data_recorder_partition: 0,
    };
    let mut data = sh.to_bytes();
    data.extend_from_slice(&count.to_be_bytes());
    data.push(power);
    let mut ph = PrimaryHeader {
        version_number: 0,
        packet_type: PacketType::Telemetry,
        secondary_header_flag: true,
        apid,
        sequence_flag: SequenceFlag::Unsegmented,
        sequence_count: 0,
        packet_data_length_raw: 0,
    };
    ph.set_packet_data_length_in_bytes(data.len());
    let mut bytes = ph.to_bytes();
    bytes.extend_from_slice(&data);
    bytes
}

#[test]
fn tmiv_builder_reads_fields_and_names() {
    let builder = TmivBuilder { tlm_registry: registry() };
    let packet = builder.build(&telemetry_packet(0x010, 0x42, 0b01, 0x1234, 1)).unwrap();
    assert_eq!(packet.tmiv_names, vec!["RT.OBC.HK".to_string(), "ALL.OBC.HK".to_string()]);
    assert_eq!(packet.fields.len(), 2);
    assert_eq!(packet.fields[0].raw_name, "COUNT@RAW");
    assert_eq!(packet.fields[0].raw, vec![0x12, 0x34]);
    assert!(matches!(packet.fields[0].converted, FieldValue::Integer(0x1234)));
    match &packet.fields[1].converted {
        FieldValue::Constant(label) => assert_eq!(label, "ON"),
        other => panic!("unexpected {:?}", other),
    }
    let unknown = builder.build(&telemetry_packet(0x011, 0x42, 0b01, 0, 0));
    assert_eq!(unknown.err(), Some(TmivBuildError::UnknownTelemetry { apid: 0x011, tlm_id: 0x42 }));
    assert_eq!(builder.build(&[0u8; 10]).err(), Some(TmivBuildError::TooShort));
}

fn aos_frame(vcid: u8, count: u32, m_pdu: &[u8]) -> Vec<u8> {
    let ph = AosPrimaryHeader { version_number: 1, scid: 0x42, vcid, frame_count_raw: count, replay_flag: false };
    let mut bytes = ph.to_bytes();
    bytes.extend_from_slice(m_pdu);
    bytes.extend_from_slice(&[0x00, 0x00, 0x00, 0x07]);
    bytes
}

#[test]
fn downlink_decodes_frames() {
    let mut downlink = Downlink::new(0x42, TmivBuilder { tlm_registry: registry() });
    let mut m_pdu = vec![0x00, 0x00];
    m_pdu.extend_from_slice(&telemetry_packet(0x010, 0x42, 0b10, 7, 0));
    let report = downlink.receive(&aos_frame(3, 10, &m_pdu));
    assert_eq!(report.clcw.unwrap().report_value, 7);
    assert!(!report.unknown_scid);
    assert_eq!(report.packets.len(), 1);
    assert_eq!(report.packets[0].tmiv_names, vec!["ST.OBC.HK".to_string(), "ALL.OBC.HK".to_string()]);

    let report = downlink.receive(&aos_frame(3, 12, &m_pdu));
    assert_eq!(report.expected_frame_count.unwrap().raw, 11);
    assert_eq!(report.packets.len(), 1);

    let mut other = aos_frame(3, 13, &m_pdu);
    other[0] = 0b0100_0000;
    let report = downlink.receive(&other);
    assert!(report.unknown_scid);
    assert!(report.packets.is_empty());

    let report = downlink.receive(&[0u8; 5]);
    assert!(report.clcw.is_none());

    let report = downlink.receive(&aos_frame(3, 13, &[0x00]));
    assert!(report.defrag_error.is_some());

    let mut idle = vec![0x00, 0x00, 0x07, 0xFF, 0xC0, 0x00, 0x00, 0x00, 0x00];
    idle.extend_from_slice(&[0; 4]);
    let report = downlink.receive(&aos_frame(4, 0, &idle));
    assert!(report.packets.is_empty());
    assert!(report.build_error.is_none());
}

#[test]
fn command_registry_lookup_and_segment() {
    let schema = build_schema(&vec![ParamType::Uint8, ParamType::Int16]).unwrap();
    let registry = CommandRegistry {
        prefix_map: vec![(
            "RT".to_string(),
            vec![("OBC".to_string(), CommandSubsystem { has_time_indicator: true, destination_type: 1, execution_type: 6 })],
        )],
        schema_map: vec![(
            ("OBC".to_string(), "NOP".to_string()),
            CommandSchemaWithId { apid: 0x210, command_id: 0xDEAD, schema },
        )],
    };
    assert!(registry.lookup("RT.OBC").is_none());
    assert!(registry.lookup("RT.OBC.NOP.X").is_none());
    assert!(registry.lookup("TL.OBC.NOP").is_none());
    assert!(registry.lookup("RT.OBC.XYZ").is_none());
    let fat: FatCommandSchema = registry.lookup("RT.OBC.NOP").unwrap();
    assert_eq!(fat.apid, 0x210);
    assert_eq!(fat.command_id, 0xDEAD);
    assert!(fat.has_time_indicator);

    let tco = Tco {
        name: "RT.OBC.NOP".to_string(),
        params: vec![
            TcoParam { name: "param2".to_string(), value: Some(TcoValue::Integer(-2)) },
            TcoParam { name: "time_indicator".to_string(), value: Some(TcoValue::Integer(0x1_0000_0005)) },
            TcoParam { name: "param1".to_string(), value: Some(TcoValue::Integer(9)) },
        ],
    };
    let reader = Reader::new(&tco);
    assert_eq!(reader.time_indicator(), Ok(5));
    assert_eq!(reader.parameters().len(), 2);
    let params = vec![ParamValue::Integer(9), ParamValue::Integer(-2)];
    let seg = build_tc_segment(&fat, reader.time_indicator().unwrap(), &params).unwrap();
    assert_eq!(seg.len(), 1 + 6 + 9 + 3);
    assert_eq!(SegmentHeader::parse(&seg).unwrap(), SegmentHeader { sequence_flag: SegmentSequenceFlag::NoSegmentation, map_id: 2 });
    let ph = PrimaryHeader::parse(&seg[1..]).unwrap();
    assert_eq!(ph.apid, 0x210);
    assert_eq!(ph.packet_type, PacketType::Telecommand);
    assert_eq!(ph.packet_data_length_in_bytes(), 12);
    let sh = TcSecondaryHeader::parse(&seg[7..]).unwrap();
    assert_eq!(sh.command_id, 0xDEAD);
    assert_eq!(sh.time_indicator, 5);
    assert_eq!((sh.destination_type, sh.execution_type), (1, 6));
    assert_eq!(&seg[16..], &[9, 0xFF, 0xFE]);
}

#[test]
fn tco_name_parsing() {
    let name = TcoName::from_str("RT.OBC.NOP").unwrap();
    assert_eq!((name.prefix.as_str(), name.component.as_str(), name.command.as_str()), ("RT", "OBC", "NOP"));
    assert!(TcoName::from_str("RT.OBC").is_err());
    assert!(TcoName::from_str("A.B.C.D").is_err());
    let empty = TcoName::from_str("..").unwrap();
    assert_eq!(empty.command, "");
}

#[test]
fn last_value_store() {
    let mut store = LastTmivStore::new(vec!["RT.OBC.HK".to_string()]);
    assert_eq!(store.get("RT.OBC.HK").unwrap().map(|t| t.plugin_received_time), None);
    assert_eq!(store.get("RT.OBC.X").err(), Some(StoreError::UnknownName));
    let tmiv = |t| Tmiv { name: "RT.OBC.HK".to_string(), plugin_received_time: t, timestamp: None, fields: vec![] };
    store.set(tmiv(1)).unwrap();
    store.set(tmiv(2)).unwrap();
    assert_eq!(store.get("RT.OBC.HK").unwrap().map(|t| t.plugin_received_time), Some(2));
    let unknown = Tmiv { name: "X".to_string(), plugin_received_time: 0, timestamp: None, fields: vec![] };
    assert_eq!(store.set(unknown), Err(StoreError::UnknownName));
}

struct Recorder {
    seen: Vec<String>,
}

impl Handle<Tco> for Recorder {
    type Response = usize;

    fn handle(&mut self, request: Tco) -> Result<usize, HandleError> {
        self.seen.push(request.params.iter().map(|p| p.name.clone()).collect::<Vec<_>>().join(","));
        Ok(request.params.len())
    }
}

#[test]
fn hooks_run_before_the_handler() {
    let set = tco::SchemaSet::new(vec![tco::Schema {
        name: "RT.OBC.SET".to_string(),
        params: vec![
            tco::ParamSchema { name: "b".to_string(), data_type: tco::DataType::INTEGER },
            tco::ParamSchema { name: "a".to_string(), data_type: tco::DataType::INTEGER },
        ],
    }]);
    let mut hook = SanitizeHook::new(set);
    let bad = Tco { name: "RT.OBC.X".to_string(), params: vec![] };
    assert_eq!(
        hook.hook(bad).err(),
        Some(HandleError::InvalidCommand(tco::SanitizeError::NoMatchedSchema))
    );
    let mut handler = Builder::new().before_hook(hook).build(Recorder { seen: vec![] });
    let tco = Tco {
        name: "RT.OBC.SET".to_string(),
        params: vec![
            TcoParam { name: "b".to_string(), value: Some(TcoValue::Integer(1)) },
            TcoParam { name: "a".to_string(), value: Some(TcoValue::Integer(2)) },
        ],
    };
    assert_eq!(handler.handle(tco).unwrap(), 2);
    assert_eq!(handler.inner.seen, vec!["a,b".to_string()]);
}

#[test]
fn sized_builder_spans() {
    let mut builder = SizedBuilder::new();
    assert_eq!(builder.byte_len(), 0);
    builder.extend(NumericField::Integral(GenericIntegralField::U8(IntegralField::new(0, 8, 8).unwrap())));
    builder.extend(NumericField::Integral(GenericIntegralField::U8(IntegralField::new(8, 11, 8).unwrap())));
    assert_eq!(builder.bit_len(), 11);
    assert_eq!(builder.byte_len(), 2);
    assert_eq!(builder.build().len(), 2);
    let v = IntegralValue::I16(-2);
    assert_eq!(ccsds_tmtc::tlm::integral_to_bytes(v), vec![0xFF, 0xFE]);
}

#[test]
fn field_schema_building() {
    let info = FieldExtractionInfo { octet_position: 26, bit_position: 3, bit_length: 5 };
    assert_eq!(build_bit_range(info), Some((211, 216)));
    let huge = FieldExtractionInfo { octet_position: usize::MAX / 4, bit_position: 0, bit_length: 1 };
    assert_eq!(build_bit_range(huge), None);

    let fs = build_field_schema(VariableType::Uint8, IntegralConversion::Unconverted, "d".to_string(), 211, 216).unwrap();
    assert_eq!(fs.metadata.description, "d");
    assert!(matches!(fs.value, FieldValueSchema::Integral(_)));
    assert_eq!(
        build_field_schema(VariableType::Uint8, IntegralConversion::Unconverted, String::new(), 0, 9).err(),
        Some(FieldSchemaError::InvalidBitRange)
    );
    assert_eq!(
        build_field_schema(VariableType::Int16, IntegralConversion::Unconverted, String::new(), 4, 4).err(),
        Some(FieldSchemaError::InvalidBitRange)
    );
    let status = Status::new(vec![], "OTHER".to_string());
    assert_eq!(
        build_field_schema(VariableType::Float, IntegralConversion::Status(status), String::new(), 0, 32).err(),
        Some(FieldSchemaError::StatusOnFloating)
    );
    match build_field_schema(VariableType::Double, IntegralConversion::Polynomial, String::new(), 0, 64).unwrap().value {
        FieldValueSchema::Floating(f) => assert!(f.has_polynomial),
        _ => panic!("expected a floating field"),
    }
}

#[test]
fn registry_enumerates_tmiv_names() {
    let reg = registry();
    assert_eq!(
        reg.all_tmiv_names(),
        vec!["RT.OBC.HK".to_string(), "ST.OBC.HK".to_string(), "ALL.OBC.HK".to_string()]
    );
    assert!(reg.lookup(0x010, 0x42).is_some());
    assert!(reg.lookup(0x010, 0x43).is_none());
    let store = LastTmivStore::new(reg.all_tmiv_names());
    assert_eq!(store.get("ST.OBC.HK").unwrap().map(|t| t.plugin_received_time), None);
}

#[test]
fn status_conversion_uses_last_entry_and_default() {
    let status = Status::new(
        vec![(1, "A".to_string()), (2, "B".to_string()), (1, "C".to_string())],
        "OTHER".to_string(),
    );
    assert_eq!(status.convert(1), "C");
    assert_eq!(status.convert(2), "B");
    assert_eq!(status.convert(3), "OTHER");
}

#[test]
fn fop_status_report() {
    let mut fop = Fop::new();
    let status = fop.status();
    assert!(!status.received_clcw);
    assert_eq!(status.next_fsn, None);
    assert_eq!(status.state, FopStatusKind::Initial);
    let mut events = vec![];
    fop.set_vr(9, &mut events);
    let clcw = ccsds_tmtc::clcw::Clcw {
        control_word_type: 0,
        clcw_version_number: 0,
        status_field: 0,
        cop_in_effect: 1,
        virtual_channel_identification: 0,
        no_rf_available: false,
        no_bit_lock: false,
        lockout: false,
        wait: true,
        retransmit: false,
        farm_b_counter: 0,
        report_value: 9,
    };
    fop.handle_clcw(&clcw, &mut events);
    let status = fop.status();
    assert!(status.received_clcw && status.wait && !status.lockout);
    assert_eq!(status.next_expected_fsn, 9);
    assert_eq!(status.next_fsn, Some(9));
    assert_eq!(status.state, FopStatusKind::Active);
}

struct Fixed {
    answer: Option<u32>,
    calls: usize,
}

impl Handle<u32> for Fixed {
    type Response = Option<u32>;

    fn handle(&mut self, request: u32) -> Result<Option<u32>, HandleError> {
        self.calls += 1;
        Ok(self.answer.map(|a| a + request))
    }
}

#[test]
fn choice_asks_second_only_on_none() {
    use_choice(Fixed { answer: Some(1), calls: 0 }, Fixed { answer: Some(100), calls: 0 }, Some(11), 0);
    use_choice(Fixed { answer: None, calls: 0 }, Fixed { answer: Some(100), calls: 0 }, Some(110), 1);
    use_choice(Fixed { answer: None, calls: 0 }, Fixed { answer: None, calls: 0 }, None, 1);
}

fn use_choice(first: Fixed, second: Fixed, expected: Option<u32>, second_calls: usize) {
    let mut choice = first.append(second);
    assert_eq!(choice.handle(10).unwrap(), expected);
    assert_eq!(choice.first.calls, 1);
    assert_eq!(choice.second.calls, second_calls);
}

struct Doubler;

impl Hook<u32> for Doubler {
    type Output = u32;

    fn hook(&mut self, input: u32) -> Result<u32, HandleError> {
        Ok(input * 2)
    }
}

#[test]
fn optional_layer_is_identity_when_absent() {
    let builder = Builder::new().option_layer::<BeforeHookLayer<Doubler>>(None);
    let mut handler = builder.build(Fixed { answer: Some(5), calls: 0 });
    assert_eq!(handler.handle(1).unwrap(), Some(6));
    match handler {
        Either::B(inner) => assert_eq!(inner.calls, 1),
        Either::A(_) => panic!("expected the handler itself"),
    }
    let builder = Builder::new().option_layer(Some(BeforeHookLayer::new(Doubler)));
    let mut handler = builder.build(Fixed { answer: Some(5), calls: 0 });
    assert_eq!(handler.handle(1).unwrap(), Some(7));
}

#[test]
fn encode_command_end_to_end() {
    let schema = build_schema(&vec![ParamType::Uint8]).unwrap();
    let registry = CommandRegistry {
        prefix_map: vec![(
            "RT".to_string(),
            vec![("OBC".to_string(), CommandSubsystem { has_time_indicator: true, destination_type: 0, execution_type: 0 })],
        )],
        schema_map: vec![(
            ("OBC".to_string(), "PING".to_string()),
            CommandSchemaWithId { apid: 0x211, command_id: 1, schema },
        )],
    };
    let tco = Tco { name: "RT.OBC.PING".to_string(), params: vec![] };
    assert_eq!(
        registry.encode_command(&tco, &vec![ParamValue::Integer(1)]).err(),
        Some(CommandError::TimeIndicator(ReadError::NoTimeIndicator))
    );
    let unknown = Tco { name: "RT.OBC.PONG".to_string(), params: vec![] };
    assert_eq!(registry.encode_command(&unknown, &vec![]).err(), Some(CommandError::UnknownCommand));
    let tco = Tco {
        name: "RT.OBC.PING".to_string(),
        params: vec![TcoParam { name: "time_indicator".to_string(), value: Some(TcoValue::Integer(3)) }],
    };
    assert_eq!(
        registry.encode_command(&tco, &vec![]).err(),
        Some(CommandError::Write(ccsds_tmtc::cmd::WriteError::Incomplete))
    );
    let segment = registry.encode_command(&tco, &vec![ParamValue::Integer(0xAB)]).unwrap();
    assert_eq!(segment.len(), 17);
    assert_eq!(segment[16], 0xAB);
    let frame = build_tf(0x0DE, 0, FrameType::TypeBD, 0, &segment).unwrap();
    assert_eq!(frame.len(), 5 + 17 + 2);
}

#[test]
fn telemetry_schema_assembly() {
    let fields = vec![
        (
            "MODE".to_string(),
            build_field_schema(
                VariableType::Uint8,
                IntegralConversion::Status(Status::new(vec![(0, "SAFE".to_string())], "OTHER".to_string())),
                "mode".to_string(),
                0,
                8,
            )
            .unwrap(),
        ),
        (
            "TEMP".to_string(),
            build_field_schema(VariableType::Float, IntegralConversion::Unconverted, "t".to_string(), 8, 40).unwrap(),
        ),
        (
            "VOLT".to_string(),
            build_field_schema(VariableType::Int16, IntegralConversion::Polynomial, "v".to_string(), 40, 56).unwrap(),
        ),
    ];
    let schema = ccsds_tmtc::registry::build_telemetry_schema(fields);
    assert_eq!(schema.integral_fields.len(), 2);
    assert_eq!(schema.floating_fields.len(), 1);
    let (m0, _) = &schema.integral_fields[0];
    assert_eq!((m0.order, m0.converted_name.as_str(), m0.raw_name.as_str()), (0, "MODE", "MODE@RAW"));
    assert_eq!(m0.data_type, DataType::Enum);
    let (m1, _) = &schema.integral_fields[1];
    assert_eq!((m1.order, m1.data_type), (2, DataType::Double));
    let (m2, _) = &schema.floating_fields[0];
    assert_eq!((m2.order, m2.raw_name.as_str(), m2.description.as_str()), (1, "TEMP@RAW", "t"));
    let meta = ccsds_tmtc::registry::build_field_metadata(4, "X", "d", DataType::Bytes);
    assert_eq!(meta.raw_name, "X@RAW");
    let v = TcoValue::Double(2.5f64.to_bits());
    let reader = ccsds_tmtc::uplink::ValueReader { value: &v };
    assert_eq!(reader.read_double().map(f64::from_bits), Ok(2.5));
    assert_eq!(reader.read_integer(), Err(ReadError::UnexpectedType));
}

#[test]
fn registries_from_database() {
    let apid_map = || vec![(0x010u16, "OBC".to_string()), (0x020, "AOCS".to_string()), (0x011, "OBC".to_string())];
    let telemetry = || DbTelemetry {
        component: "OBC".to_string(),
        name: "HK".to_string(),
        packet_id: 0x42,
        fields: vec![DbField {
            name: "COUNT".to_string(),
            description: String::new(),
            variable_type: VariableType::Uint16,
            conversion: IntegralConversion::Unconverted,
            extraction: FieldExtractionInfo { octet_position: 26, bit_position: 0, bit_length: 16 },
        }],
    };
    let mut reg = TelemetryRegistry::from_database(vec![telemetry()], apid_map(), channels()).unwrap();
    assert!(reg.lookup(0x010, 0x42).is_some());
    assert!(reg.lookup(0x011, 0x42).is_some());
    assert!(reg.lookup(0x020, 0x42).is_none());
    assert!(reg.lookup(0x012, 0x42).is_none());
    let mut bad = telemetry();
    bad.fields[0].extraction.bit_length = 17;
    assert_eq!(reg.insert(bad), Err(RegistryBuildError::Field(FieldSchemaError::InvalidBitRange)));
    let mut orphan = telemetry();
    orphan.component = "EPS".to_string();
    assert_eq!(
        TelemetryRegistry::from_database(vec![telemetry(), orphan], apid_map(), channels()).err(),
        Some(TelemetryRegistryError::NoApid)
    );
    let mut bad = telemetry();
    bad.fields[0].extraction.bit_length = 0;
    assert_eq!(
        TelemetryRegistry::from_database(vec![bad], apid_map(), channels()).err(),
        Some(TelemetryRegistryError::Build(RegistryBuildError::Field(FieldSchemaError::InvalidBitRange)))
    );
    // a later entry for the same telemetry replaces an earlier one
    let mut wide = telemetry();
    wide.fields.push(DbField {
        name: "MORE".to_string(),
        description: String::new(),
        variable_type: VariableType::Uint8,
        conversion: IntegralConversion::Unconverted,
        extraction: FieldExtractionInfo { octet_position: 28, bit_position: 0, bit_length: 8 },
    });
    reg.insert(wide).unwrap();
    assert_eq!(reg.lookup(0x011, 0x42).unwrap().schema.integral_fields.len(), 2);
    let builder = TmivBuilder { tlm_registry: reg };
    let packet = builder.build(&telemetry_packet(0x011, 0x42, 0b10, 0xBEEF, 0)).unwrap();
    assert_eq!(packet.fields[0].raw, vec![0xBE, 0xEF]);

    let commands = vec![
        ("OBC".to_string(), "NOP".to_string(), 0x0001u16, vec![]),
        ("OBC".to_string(), "SET".to_string(), 0x0002, vec![ParamType::Uint8, ParamType::Raw]),
    ];
    let cmd_apids = vec![("OBC".to_string(), 0x210u16)];
    let reg = CommandRegistry::from_database(commands, &cmd_apids, vec![]).unwrap();
    assert_eq!(reg.schema_map.len(), 2);
    assert_eq!(reg.schema_map[1].1.apid, 0x210);
    assert!(reg.schema_map[1].1.schema.has_trailer_parameter);
    let orphan = vec![("EPS".to_string(), "NOP".to_string(), 1u16, vec![])];
    assert_eq!(CommandRegistry::from_database(orphan, &cmd_apids, vec![]).err(), Some(RegistryError::NoApid));
    let bad = vec![("OBC".to_string(), "X".to_string(), 1u16, vec![ParamType::Raw, ParamType::Uint8])];
    assert_eq!(CommandRegistry::from_database(bad, &cmd_apids, vec![]).err(), Some(RegistryError::TrailerNotLast));
}

#[test]
fn remaining_error_variants() {
    let mut reg = TelemetryRegistry::new(vec![(0x10, "OBC".to_string())], channels());
    let bad = DbTelemetry {
        component: "OBC".to_string(),
        name: "HK".to_string(),
        packet_id: 1,
        fields: vec![DbField {
            name: "X".to_string(),
            description: String::new(),
            variable_type: VariableType::Uint8,
            conversion: IntegralConversion::Unconverted,
            extraction: FieldExtractionInfo { octet_position: usize::MAX, bit_position: 0, bit_length: 8 },
        }],
    };
    assert_eq!(reg.insert(bad), Err(RegistryBuildError::BitRange));

    // a field that lies past the end of the packet
    let far = DbTelemetry {
        component: "OBC".to_string(),
        name: "HK".to_string(),
        packet_id: 0x42,
        fields: vec![DbField {
            name: "FAR".to_string(),
            description: String::new(),
            variable_type: VariableType::Uint8,
            conversion: IntegralConversion::Unconverted,
            extraction: FieldExtractionInfo { octet_position: 100, bit_position: 0, bit_length: 8 },
        }],
    };
    reg.insert(far).unwrap();
    let builder = TmivBuilder { tlm_registry: reg };
    assert_eq!(
        builder.build(&telemetry_packet(0x10, 0x42, 1, 0, 0)).err(),
        Some(TmivBuildError::Field(ccsds_tmtc::field::FieldError::OutOfRange))
    );

    let schema = build_schema(&vec![]).unwrap();
    let registry = CommandRegistry {
        prefix_map: vec![(
            "RT".to_string(),
            vec![("OBC".to_string(), CommandSubsystem { has_time_indicator: false, destination_type: 0, execution_type: 0 })],
        )],
        schema_map: vec![(("OBC".to_string(), "NOP".to_string()), CommandSchemaWithId { apid: 0x800, command_id: 1, schema })],
    };
    let tco = Tco { name: "RT.OBC.NOP".to_string(), params: vec![] };
    assert_eq!(registry.encode_command(&tco, &vec![]).err(), Some(CommandError::InvalidSchema));
}

#[test]
fn ad_command_goes_through_fop() {
    let schema = build_schema(&vec![ParamType::Uint8]).unwrap();
    let registry = CommandRegistry {
        prefix_map: vec![(
            "RT".to_string(),
            vec![("OBC".to_string(), CommandSubsystem { has_time_indicator: false, destination_type: 0, execution_type: 0 })],
        )],
        schema_map: vec![(("OBC".to_string(), "PING".to_string()), CommandSchemaWithId { apid: 0x211, command_id: 1, schema })],
    };
    let tco = Tco { name: "RT.OBC.PING".to_string(), params: vec![] };
    let params = vec![ParamValue::Integer(7)];
    let mut fop = Fop::new();
    let mut events = vec![];
    assert_eq!(send_ad_command(&mut fop, &registry, &tco, &params, 0, &mut events).err(), Some(AdCommandError::FopNotReady));
    let unknown = Tco { name: "RT.OBC.X".to_string(), params: vec![] };
    assert_eq!(
        send_ad_command(&mut fop, &registry, &unknown, &params, 0, &mut events).err(),
        Some(AdCommandError::Command(CommandError::UnknownCommand))
    );
    fop.set_vr(3, &mut events);
    let clcw = ccsds_tmtc::clcw::Clcw {
        control_word_type: 0,
        clcw_version_number: 0,
        status_field: 0,
        cop_in_effect: 1,
        virtual_channel_identification: 0,
        no_rf_available: false,
        no_bit_lock: false,
        lockout: false,
        wait: false,
        retransmit: false,
        farm_b_counter: 0,
        report_value: 3,
    };
    fop.handle_clcw(&clcw, &mut events);
    events.clear();
    let frame = send_ad_command(&mut fop, &registry, &tco, &params, 0, &mut events).unwrap();
    assert_eq!(frame.sequence_number, 3);
    assert_eq!(frame.frame_type, FrameType::TypeAD);
    assert_eq!(frame.data_field.len(), 17);
    assert_eq!(frame.data_field[16], 7);
    assert_eq!(events, vec![FrameEvent::Transmit(frame.id)]);
}

#[test]
fn writer_consumes_slot_on_refused_value() {
    let schema = build_schema(&vec![ParamType::Uint8, ParamType::Uint8]).unwrap();
    let mut writer = ccsds_tmtc::cmd::Writer::new(&schema, vec![0u8; 2]);
    assert!(writer.write(ccsds_tmtc::field::NumericValue::Integral(IntegralValue::I64(300))).is_err());
    writer.write(ccsds_tmtc::field::NumericValue::Integral(IntegralValue::I64(5))).unwrap();
    let (bytes, len) = writer.finish().unwrap();
    assert_eq!((bytes, len), (vec![0, 5], 2));
}

#[test]
fn command_lookup_takes_last_entry() {
    let first = build_schema(&vec![]).unwrap();
    let second = build_schema(&vec![ParamType::Uint8]).unwrap();
    let registry = CommandRegistry {
        prefix_map: vec![(
            "RT".to_string(),
            vec![("OBC".to_string(), CommandSubsystem { has_time_indicator: false, destination_type: 0, execution_type: 0 })],
        )],
        schema_map: vec![
            (("OBC".to_string(), "NOP".to_string()), CommandSchemaWithId { apid: 0x210, command_id: 1, schema: first }),
            (("OBC".to_string(), "NOP".to_string()), CommandSchemaWithId { apid: 0x210, command_id: 2, schema: second }),
        ],
    };
    assert_eq!(registry.lookup("RT.OBC.NOP").unwrap().command_id, 2);
}
