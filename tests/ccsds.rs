use ccsds_tmtc::aos::{AosPrimaryHeader, AosTransferFrame, FrameCount, Synchronizer};
use ccsds_tmtc::c2a::{SegmentHeader, SegmentSequenceFlag, TcSecondaryHeader, TmSecondaryHeader};
use ccsds_tmtc::clcw::Clcw;
use ccsds_tmtc::m_pdu::{Defragmenter, DefragError, FirstHeaderPointer};
use ccsds_tmtc::space_packet::{PacketType, PrimaryHeader, SequenceFlag, SpacePacket};
use ccsds_tmtc::tc::{self, build_tf, FrameType};

fn sample_space_packet_header() -> PrimaryHeader {
    PrimaryHeader {
        version_number: 0,
        packet_type: PacketType::Telemetry,
        secondary_header_flag: false,
        apid: 0,
        sequence_flag: SequenceFlag::Continuation,
        sequence_count: 0,
        packet_data_length_raw: 0,
    }
}

#[test]
fn test_build_primary_header() {
    let mut ph = sample_space_packet_header();
    ph.version_number = 6;
    ph.packet_type = PacketType::Telecommand;
    ph.secondary_header_flag = true;
    ph.apid = 2000;
    ph.sequence_flag = SequenceFlag::First;
    ph.sequence_count = 16000;
    ph.set_packet_data_length_in_bytes(0xABCD);
    let actual = ph.to_bytes();
    let expected = [
        0b1101_1111,
        0b1101_0000,
        0b0111_1110,
        0b1000_0000,
        0xAB,
        0xCC,
    ];
    assert_eq!(actual, expected);
}

#[test]
fn test_parse_primary_header() {
    let bytes = [
        0b1101_1111,
        0b1101_0000,
        0b0111_1110,
        0b1000_0000,
        0xAB,
        0xCC,
    ];
    let ph = PrimaryHeader::parse(bytes.as_slice()).unwrap();
    assert_eq!(ph.version_number, 6);
    assert_eq!(ph.packet_type, PacketType::Telecommand);
    assert!(ph.secondary_header_flag);
    assert_eq!(ph.apid, 2000);
    assert_eq!(ph.sequence_flag, SequenceFlag::First);
    assert_eq!(ph.sequence_count, 16000);
    assert_eq!(ph.packet_data_length_in_bytes(), 0xABCD);
}

const TC_CASE1: [u8; 5] = [0b01110010, 0b00011100, 0b10100110, 0b01100011, 0xDEu8];
const AOS_CASE1: [u8; 6] = [119, 129, 9, 226, 57, 0];

#[test]
fn transfer_frame_test_read() {
    let ph = tc::PrimaryHeader::parse(TC_CASE1.as_slice()).unwrap();
    assert_eq!(1, ph.version_number);
    assert!(ph.bypass_flag);
    assert!(ph.control_command_flag);
    assert_eq!(0b1000011100, ph.scid);
    assert_eq!(0b101001, ph.vcid);
    assert_eq!(0b1001100011, ph.frame_length_raw);
    assert_eq!(0xDE, ph.frame_sequence_number);

    let ph = AosPrimaryHeader::parse(AOS_CASE1.as_slice()).unwrap();
    assert_eq!(1, ph.version_number);
    assert_eq!(0xDE, ph.scid);
    assert_eq!(1, ph.vcid);
    assert_eq!(647737, ph.frame_count_raw);
    assert!(!ph.replay_flag);
}

#[test]
fn transfer_frame_test_write() {
    let ph = tc::PrimaryHeader {
        version_number: 1,
        bypass_flag: true,
        control_command_flag: true,
        scid: 0b1000011100,
        vcid: 0b101001,
        frame_length_raw: 0b1001100011,
        frame_sequence_number: 0xDE,
    };
    assert_eq!(TC_CASE1.to_vec(), ph.to_bytes());

    let ph = AosPrimaryHeader {
        version_number: 1,
        scid: 0xDE,
        vcid: 1,
        frame_count_raw: 647737,
        replay_flag: false,
    };
    assert_eq!(AOS_CASE1.to_vec(), ph.to_bytes());
}

#[test]
fn test_build_secondary_header() {
    let sh = TcSecondaryHeader {
        version_number: 1,
        command_type: 0,
        command_id: 0xDEAD,
        destination_type: 1,
        execution_type: 6,
        time_indicator: 0xC001CAFE,
    };
    let expected = [1u8, 0, 0xDE, 0xAD, 0b0001_0110, 0xC0, 0x01, 0xCA, 0xFE];
    assert_eq!(sh.to_bytes(), expected);
}

#[test]
fn test_parse_secondary_header() {
    let bytes = [1u8, 0, 0xDE, 0xAD, 0b0001_0110, 0xC0, 0x01, 0xCA, 0xFE];
    let sh = TcSecondaryHeader::parse(bytes.as_slice()).unwrap();
    assert_eq!(sh.version_number, 1);
    assert_eq!(sh.command_type, 0);
    assert_eq!(sh.command_id, 0xDEAD);
    assert_eq!(sh.destination_type, 1);
    assert_eq!(sh.execution_type, 6);
    assert_eq!(sh.time_indicator, 0xC001CAFE);
}

#[test]
fn m_pdu_test() {
    let mut defrag = Defragmenter::new();
    let m_pdu1 = {
        // M_PDU header (first header pointer 0), packet header, one data byte
        let mut bytes = vec![0u8; 2];
        let mut ph = sample_space_packet_header();
        ph.set_packet_data_length_in_bytes(1);
        bytes.extend_from_slice(&ph.to_bytes());
        bytes.push(0xde);
        bytes
    };
    defrag.push(&m_pdu1).unwrap();
    let packet = defrag.read_as_bytes_and_packet().unwrap().1;
    assert_eq!(1, packet.packet_data.len());
    assert_eq!(0xDE, packet.packet_data[0]);
    let size = packet.packet_size().unwrap();
    assert_eq!(defrag.advance(), size);
    assert!(defrag.read_as_bytes_and_packet().is_none());
}

#[test]
fn space_packet_idle_detection() {
    let mut bytes = vec![0b0000_0111, 0xFF, 0b1100_0000, 0x00, 0x00, 0x00];
    bytes.push(0x55);
    let (packet, trailer) = SpacePacket::new(&bytes).unwrap();
    assert!(packet.primary_header.is_idle_packet());
    assert_eq!(packet.primary_header.apid, 0x7FF);
    assert_eq!(packet.packet_data, vec![0x55]);
    assert!(trailer.is_empty());
    assert_eq!(packet.packet_size(), Some(7));
}

#[test]
fn space_packet_needs_whole_data() {
    let bytes = vec![0x08, 0x01, 0xC0, 0x00, 0x00, 0x02, 0xAA, 0xBB];
    assert!(SpacePacket::new(&bytes).is_none());
    assert!(SpacePacket::new(&bytes[..4]).is_none());
}

#[test]
fn build_tc_transfer_frame_bd() {
    let frame = build_tf(0x0DE, 0, FrameType::TypeBD, 0, &[0x01, 0x02, 0x03]).unwrap();
    assert_eq!(frame.len(), 10);
    let ph = tc::PrimaryHeader::parse(&frame).unwrap();
    assert_eq!(ph.version_number, 0);
    assert!(ph.bypass_flag);
    assert!(!ph.control_command_flag);
    assert_eq!(ph.scid, 0x0DE);
    assert_eq!(ph.vcid, 0);
    assert_eq!(ph.frame_length_raw, 9);
    assert_eq!(ph.frame_sequence_number, 0);
    assert_eq!(&frame[5..8], &[0x01, 0x02, 0x03]);
    let crc = crc::Crc::<u16>::new(&crc::CRC_16_IBM_3740).checksum(&frame[..8]);
    assert_eq!(&frame[8..], &crc.to_be_bytes());
    assert_eq!(frame[..5], [0x20, 0xDE, 0x00, 0x09, 0x00]);
}

#[test]
fn build_tc_transfer_frame_too_large() {
    let data = vec![0u8; 1018];
    assert_eq!(build_tf(1, 0, FrameType::TypeAD, 0, &data), Err(tc::BuildError::TooLargeData));
    let data = vec![0u8; 1017];
    assert_eq!(build_tf(1, 0, FrameType::TypeAD, 0, &data).unwrap().len(), 1024);
}

#[test]
fn fecf_zero_residual() {
    let frame = build_tf(0x123, 5, FrameType::TypeBC, 7, &[0xAA, 0x55, 0x00, 0xFF]).unwrap();
    let residual = crc::Crc::<u16>::new(&crc::CRC_16_IBM_3740).checksum(&frame);
    assert_eq!(residual, 0);
}

#[test]
fn frame_type_flags() {
    assert!(!FrameType::TypeAD.bypass_flag());
    assert!(FrameType::TypeBD.bypass_flag());
    assert!(FrameType::TypeBC.bypass_flag());
    assert!(!FrameType::TypeAD.control_command_flag());
    assert!(!FrameType::TypeBD.control_command_flag());
    assert!(FrameType::TypeBC.control_command_flag());
}

#[test]
fn clcw_round_trip() {
    let clcw = Clcw {
        control_word_type: 0,
        clcw_version_number: 1,
        status_field: 5,
        cop_in_effect: 1,
        virtual_channel_identification: 0x2A,
        no_rf_available: false,
        no_bit_lock: true,
        lockout: true,
        wait: false,
        retransmit: true,
        farm_b_counter: 2,
        report_value: 0xC3,
    };
    let bytes = clcw.to_bytes();
    assert_eq!(bytes, vec![0b0011_0101, 0b1010_1000, 0b0110_1100, 0xC3]);
    assert_eq!(Clcw::parse(&bytes), Some(clcw));
    assert_eq!(Clcw::parse(&bytes[..3]), None);
}

#[test]
fn segment_header_round_trip() {
    let h = SegmentHeader { sequence_flag: SegmentSequenceFlag::NoSegmentation, map_id: 0b10 };
    assert_eq!(h.to_bytes(), vec![0b1100_0010]);
    assert_eq!(SegmentHeader::parse(&[0b0100_0001]).unwrap(), SegmentHeader {
        sequence_flag: SegmentSequenceFlag::First,
        map_id: 1
    });
}

#[test]
fn tm_secondary_header_round_trip() {
    let h = TmSecondaryHeader {
        version_number: 1,
        board_time: 0x01020304,
        telemetry_id: 0x42,
        global_time_bits: 0x4045_0000_0000_0000,
        on_board_subnetwork_time: 7,
        destination_flags: 0b101,
        data_recorder_partition: 3,
    };
    let bytes = h.to_bytes();
    assert_eq!(bytes.len(), 20);
    assert_eq!(bytes[5], 0x42);
    assert_eq!(TmSecondaryHeader::parse(&bytes), Some(h));
}

#[test]
fn m_pdu_defragmentation_across_two_frames() {
    let payload1 = vec![0x10u8, 0x11, 0x12];
    let payload2 = vec![0x20u8, 0x21];
    let mut ph = sample_space_packet_header();
    ph.apid = 0x123;
    ph.set_packet_data_length_in_bytes(payload1.len() + payload2.len());
    let mut frame1 = vec![0x00, 0x00];
    frame1.extend_from_slice(&ph.to_bytes());
    frame1.extend_from_slice(&payload1);
    // the second frame's packet zone must be longer than a packet header
    let mut frame2 = vec![0x07, 0xFF];
    frame2.extend_from_slice(&payload2);
    frame2.extend_from_slice(&[0x99; 5]);

    let mut defrag = Defragmenter::new();
    assert_eq!(defrag.push(&frame1), Ok(true));
    assert!(defrag.read_as_bytes_and_packet().is_none());
    assert_eq!(defrag.push(&frame2), Ok(true));
    let (bytes, packet) = defrag.read_as_bytes_and_packet().unwrap();
    let mut data = payload1.clone();
    data.extend_from_slice(&payload2);
    assert_eq!(packet.packet_data, data);
    assert_eq!(packet.primary_header.apid, 0x123);
    assert_eq!(bytes.len(), 6 + 5);
    assert_eq!(defrag.advance(), 11);
}

#[test]
fn m_pdu_errors_and_idle() {
    let mut defrag = Defragmenter::new();
    assert_eq!(defrag.push(&[0x00]), Err(DefragError::TooShort));
    assert_eq!(defrag.push(&[0x00, 0x00, 1, 2, 3, 4, 5, 6]), Err(DefragError::TooShort));
    assert_eq!(defrag.push(&[0x00, 0x09, 1, 2, 3, 4, 5, 6, 7]), Err(DefragError::InvalidPointer));
    assert_eq!(defrag.push(&[0x07, 0xFF, 1, 2, 3, 4, 5, 6, 7]), Ok(false));
    assert_eq!(defrag.push(&[0x00, 0x07, 1, 2, 3, 4, 5, 6, 7]), Ok(true));
    assert_eq!(defrag.push(&[0x07, 0xFE, 1, 2, 3, 4, 5, 6, 7]), Ok(false));
    assert_eq!(defrag.advance(), 0);
    defrag.reset();
    assert!(defrag.read_as_bytes_and_packet().is_none());
    assert_eq!(FirstHeaderPointer::try_from_raw(0x7FF), Some(FirstHeaderPointer::NoPacketStarts));
    assert_eq!(FirstHeaderPointer::try_from_raw(0x7FE), Some(FirstHeaderPointer::IdleData));
    assert_eq!(FirstHeaderPointer::try_from_raw(0x800), None);
    assert_eq!(FirstHeaderPointer::Pointer(12).to_raw(), 12);
}

#[test]
fn aos_frame_and_synchronizer() {
    let mut bytes = AOS_CASE1.to_vec();
    bytes.extend_from_slice(&[0xAA, 0xBB]);
    bytes.extend_from_slice(&[0x00, 0x00, 0x20, 0x05]);
    let frame = AosTransferFrame::new(&bytes).unwrap();
    assert_eq!(frame.primary_header.vcid, 1);
    assert_eq!(frame.data_unit_zone, vec![0xAA, 0xBB]);
    assert!(frame.trailer.lockout);
    assert_eq!(frame.trailer.report_value, 5);
    assert!(AosTransferFrame::new(&bytes[..9]).is_none());

    let mut sync = Synchronizer::new();
    assert_eq!(sync.next(FrameCount { raw: 0xFFFFFF }), Ok(()));
    assert_eq!(sync.next(FrameCount { raw: 0 }), Ok(()));
    assert_eq!(sync.next(FrameCount { raw: 5 }), Err(FrameCount { raw: 1 }));
    assert_eq!(sync.next(FrameCount { raw: 6 }), Ok(()));
    sync.reset();
    assert_eq!(sync.next(FrameCount { raw: 100 }), Ok(()));
}

#[test]
fn header_setters() {
    let mut ph = tc::PrimaryHeader {
        version_number: 0,
        bypass_flag: true,
        control_command_flag: false,
        scid: 1,
        vcid: 0,
        frame_length_raw: 0,
        frame_sequence_number: 0,
    };
    ph.set_frame_length_in_bytes(10);
    assert_eq!(ph.frame_length_raw, 9);
    assert_eq!(ph.frame_length_in_bytes(), 10);
    let mut aos = AosPrimaryHeader::parse(AOS_CASE1.as_slice()).unwrap();
    aos.set_frame_count(FrameCount { raw: 0x123456 });
    assert_eq!(AosPrimaryHeader::parse(&aos.to_bytes()).unwrap().frame_count(), FrameCount { raw: 0x123456 });
}
