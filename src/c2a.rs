use vstd::arithmetic::power2::*;
use vstd::prelude::*;

use crate::bits::lemma_bits_val_bound;
use crate::layout::{
    field_at, lemma_fields_read_back, offset, read_fields, values_fit, widths_ok, write_fields,
};

verus! {

pub const SEGMENT_HEADER_SIZE: usize = 1;

pub const TC_SECONDARY_HEADER_SIZE: usize = 9;

pub const TM_SECONDARY_HEADER_SIZE: usize = 20;

#[derive(Debug, Clone, Copy, PartialEq, Eq, Structural)]
pub enum SegmentSequenceFlag {
    Continuing,
    First,
    Last,
    NoSegmentation,
}

/// The TC segment header (1 byte).
#[derive(Debug, Clone, Copy, PartialEq, Eq, Structural)]
pub struct SegmentHeader {
    pub sequence_flag: SegmentSequenceFlag,
    pub map_id: u8,
}

pub open spec fn segment_header_widths() -> Seq<usize> {
    seq![2usize, 6]
}

fn segment_header_widths_exec() -> (r: Vec<usize>)
    ensures
        r@ == segment_header_widths(),
        widths_ok(r@),
        offset(r@, 2) == 8,
{
    let r = vec![2usize, 6];
    assert(r@ =~= segment_header_widths());
    proof {
        reveal_with_fuel(offset, 3);
    }
    r
}

impl SegmentHeader {
    /// Every field fits its width on the wire.
    pub open spec fn wf(self) -> bool {
        &&& self.map_id < 64
    }

    /// The header that the first byte of `b` spells.
    pub open spec fn spec_parse(b: Seq<u8>) -> SegmentHeader {
        let w = segment_header_widths();
        SegmentHeader {
            sequence_flag: if field_at(b, w, 0) == 0 { SegmentSequenceFlag::Continuing } else if field_at(b, w, 0) == 1 { SegmentSequenceFlag::First } else if field_at(b, w, 0) == 2 { SegmentSequenceFlag::Last } else { SegmentSequenceFlag::NoSegmentation },
            map_id: field_at(b, w, 1) as u8,
        }
    }

    /// Parses the header at the front of `bytes`.
    pub fn parse(bytes: &[u8]) -> (r: Option<SegmentHeader>)
        ensures
            r is Some <==> bytes@.len() >= SEGMENT_HEADER_SIZE,
            r matches Some(h) ==> h == SegmentHeader::spec_parse(bytes@) && h.wf(),
    {
        if bytes.len() < SEGMENT_HEADER_SIZE {
            return None;
        }
        let w = segment_header_widths_exec();
        let v = read_fields(bytes, &w);
        proof {
            reveal_with_fuel(offset, 3);
            lemma2_to64();
            lemma2_to64_rest();
            assert(v@[0] as nat == field_at(bytes@, w@, 0));
            assert(v@[1] as nat == field_at(bytes@, w@, 1));
            lemma_bits_val_bound(bytes@, offset(w@, 1), offset(w@, 1) + 6);
        }
        Some(
            SegmentHeader {
                sequence_flag: if v[0] == 0 {
                    SegmentSequenceFlag::Continuing
                } else if v[0] == 1 {
                    SegmentSequenceFlag::First
                } else if v[0] == 2 {
                    SegmentSequenceFlag::Last
                } else {
                    SegmentSequenceFlag::NoSegmentation
                },
                map_id: v[1] as u8,
            },
        )
    }

    /// The bytes of the header; bits outside the named fields are zero.
    pub fn to_bytes(&self) -> (r: Vec<u8>)
        requires
            self.wf(),
        ensures
            r@.len() == SEGMENT_HEADER_SIZE,
            SegmentHeader::spec_parse(r@) == *self,
    {
        let w = segment_header_widths_exec();
        let values = vec![
            match self.sequence_flag {
                SegmentSequenceFlag::Continuing => 0u64,
                SegmentSequenceFlag::First => 1u64,
                SegmentSequenceFlag::Last => 2u64,
                SegmentSequenceFlag::NoSegmentation => 3u64,
            },
            self.map_id as u64,
        ];
        let mut buf = vec![0u8; SEGMENT_HEADER_SIZE];
        write_fields(&mut buf, &w, &values);
        proof {
            lemma2_to64();
            lemma2_to64_rest();
            assert(values_fit(w@, values@));
            lemma_fields_read_back(buf@, w@, values@);
            assert(field_at(buf@, w@, 0) == values@[0]);
            assert(field_at(buf@, w@, 1) == values@[1]);
        }
        buf
    }
}

/// The secondary header of a telecommand packet (9 bytes).
#[derive(Debug, Clone, Copy, PartialEq, Eq, Structural)]
pub struct TcSecondaryHeader {
    pub version_number: u8,
    pub command_type: u8,
    pub command_id: u16,
    pub destination_type: u8,
    pub execution_type: u8,
    pub time_indicator: u32,
}

pub open spec fn tc_secondary_header_widths() -> Seq<usize> {
    seq![8usize, 8, 16, 4, 4, 32]
}

fn tc_secondary_header_widths_exec() -> (r: Vec<usize>)
    ensures
        r@ == tc_secondary_header_widths(),
        widths_ok(r@),
        offset(r@, 6) == 72,
{
    let r = vec![8usize, 8, 16, 4, 4, 32];
    assert(r@ =~= tc_secondary_header_widths());
    proof {
        reveal_with_fuel(offset, 7);
    }
    r
}

impl TcSecondaryHeader {
    /// Every field fits its width on the wire.
    pub open spec fn wf(self) -> bool {
        &&& self.destination_type < 16
        &&& self.execution_type < 16
    }

    /// The header that the first 9 bytes of `b` spell.
    pub open spec fn spec_parse(b: Seq<u8>) -> TcSecondaryHeader {
        let w = tc_secondary_header_widths();
        TcSecondaryHeader {
            version_number: field_at(b, w, 0) as u8,
            command_type: field_at(b, w, 1) as u8,
            command_id: field_at(b, w, 2) as u16,
            destination_type: field_at(b, w, 3) as u8,
            execution_type: field_at(b, w, 4) as u8,
            time_indicator: field_at(b, w, 5) as u32,
        }
    }

    /// Parses the header at the front of `bytes`.
    pub fn parse(bytes: &[u8]) -> (r: Option<TcSecondaryHeader>)
        ensures
            r is Some <==> bytes@.len() >= TC_SECONDARY_HEADER_SIZE,
            r matches Some(h) ==> h == TcSecondaryHeader::spec_parse(bytes@) && h.wf(),
    {
        if bytes.len() < TC_SECONDARY_HEADER_SIZE {
            return None;
        }
        let w = tc_secondary_header_widths_exec();
        let v = read_fields(bytes, &w);
        proof {
            reveal_with_fuel(offset, 7);
            lemma2_to64();
            lemma2_to64_rest();
            assert(v@[0] as nat == field_at(bytes@, w@, 0));
            assert(v@[1] as nat == field_at(bytes@, w@, 1));
            assert(v@[2] as nat == field_at(bytes@, w@, 2));
            assert(v@[3] as nat == field_at(bytes@, w@, 3));
            lemma_bits_val_bound(bytes@, offset(w@, 3), offset(w@, 3) + 4);
            assert(v@[4] as nat == field_at(bytes@, w@, 4));
            lemma_bits_val_bound(bytes@, offset(w@, 4), offset(w@, 4) + 4);
            assert(v@[5] as nat == field_at(bytes@, w@, 5));
        }
        Some(
            TcSecondaryHeader {
                version_number: v[0] as u8,
                command_type: v[1] as u8,
                command_id: v[2] as u16,
                destination_type: v[3] as u8,
                execution_type: v[4] as u8,
                time_indicator: v[5] as u32,
            },
        )
    }

    /// The bytes of the header; bits outside the named fields are zero.
    pub fn to_bytes(&self) -> (r: Vec<u8>)
        requires
            self.wf(),
        ensures
            r@.len() == TC_SECONDARY_HEADER_SIZE,
            TcSecondaryHeader::spec_parse(r@) == *self,
    {
        let w = tc_secondary_header_widths_exec();
        let values = vec![
            self.version_number as u64,
            self.command_type as u64,
            self.command_id as u64,
            self.destination_type as u64,
            self.execution_type as u64,
            self.time_indicator as u64,
        ];
        let mut buf = vec![0u8; TC_SECONDARY_HEADER_SIZE];
        write_fields(&mut buf, &w, &values);
        proof {
            lemma2_to64();
            lemma2_to64_rest();
            assert(values_fit(w@, values@));
            lemma_fields_read_back(buf@, w@, values@);
            assert(field_at(buf@, w@, 0) == values@[0]);
            assert(field_at(buf@, w@, 1) == values@[1]);
            assert(field_at(buf@, w@, 2) == values@[2]);
            assert(field_at(buf@, w@, 3) == values@[3]);
            assert(field_at(buf@, w@, 4) == values@[4]);
            assert(field_at(buf@, w@, 5) == values@[5]);
        }
        buf
    }
}

/// The secondary header of a telemetry packet (20 bytes).
#[derive(Debug, Clone, Copy, PartialEq, Eq, Structural)]
pub struct TmSecondaryHeader {
    pub version_number: u8,
    pub board_time: u32,
    pub telemetry_id: u8,
    pub global_time_bits: u64,
    pub on_board_subnetwork_time: u32,
    pub destination_flags: u8,
    pub data_recorder_partition: u8,
}

pub open spec fn tm_secondary_header_widths() -> Seq<usize> {
    seq![8usize, 32, 8, 64, 32, 8, 8]
}

fn tm_secondary_header_widths_exec() -> (r: Vec<usize>)
    ensures
        r@ == tm_secondary_header_widths(),
        widths_ok(r@),
        offset(r@, 7) == 160,
{
    let r = vec![8usize, 32, 8, 64, 32, 8, 8];
    assert(r@ =~= tm_secondary_header_widths());
    proof {
        reveal_with_fuel(offset, 8);
    }
    r
}

impl TmSecondaryHeader {
    /// Every field fits its width on the wire.
    pub open spec fn wf(self) -> bool {
        true
    }

    /// The header that the first 20 bytes of `b` spell.
    pub open spec fn spec_parse(b: Seq<u8>) -> TmSecondaryHeader {
        let w = tm_secondary_header_widths();
        TmSecondaryHeader {
            version_number: field_at(b, w, 0) as u8,
            board_time: field_at(b, w, 1) as u32,
            telemetry_id: field_at(b, w, 2) as u8,
            global_time_bits: field_at(b, w, 3) as u64,
            on_board_subnetwork_time: field_at(b, w, 4) as u32,
            destination_flags: field_at(b, w, 5) as u8,
            data_recorder_partition: field_at(b, w, 6) as u8,
        }
    }

    /// Parses the header at the front of `bytes`.
    pub fn parse(bytes: &[u8]) -> (r: Option<TmSecondaryHeader>)
        ensures
            r is Some <==> bytes@.len() >= TM_SECONDARY_HEADER_SIZE,
            r matches Some(h) ==> h == TmSecondaryHeader::spec_parse(bytes@) && h.wf(),
    {
        if bytes.len() < TM_SECONDARY_HEADER_SIZE {
            return None;
        }
        let w = tm_secondary_header_widths_exec();
        let v = read_fields(bytes, &w);
        proof {
            reveal_with_fuel(offset, 8);
            lemma2_to64();
            lemma2_to64_rest();
            assert(v@[0] as nat == field_at(bytes@, w@, 0));
            assert(v@[1] as nat == field_at(bytes@, w@, 1));
            assert(v@[2] as nat == field_at(bytes@, w@, 2));
            assert(v@[3] as nat == field_at(bytes@, w@, 3));
            assert(v@[4] as nat == field_at(bytes@, w@, 4));
            assert(v@[5] as nat == field_at(bytes@, w@, 5));
            assert(v@[6] as nat == field_at(bytes@, w@, 6));
        }
        Some(
            TmSecondaryHeader {
                version_number: v[0] as u8,
                board_time: v[1] as u32,
                telemetry_id: v[2] as u8,
                global_time_bits: v[3],
                on_board_subnetwork_time: v[4] as u32,
                destination_flags: v[5] as u8,
                data_recorder_partition: v[6] as u8,
            },
        )
    }

    /// The bytes of the header; bits outside the named fields are zero.
    pub fn to_bytes(&self) -> (r: Vec<u8>)
        requires
            self.wf(),
        ensures
            r@.len() == TM_SECONDARY_HEADER_SIZE,
            TmSecondaryHeader::spec_parse(r@) == *self,
    {
        let w = tm_secondary_header_widths_exec();
        let values = vec![
            self.version_number as u64,
            self.board_time as u64,
            self.telemetry_id as u64,
            self.global_time_bits,
            self.on_board_subnetwork_time as u64,
            self.destination_flags as u64,
            self.data_recorder_partition as u64,
        ];
        let mut buf = vec![0u8; TM_SECONDARY_HEADER_SIZE];
        write_fields(&mut buf, &w, &values);
        proof {
            lemma2_to64();
            lemma2_to64_rest();
            assert(values_fit(w@, values@));
            lemma_fields_read_back(buf@, w@, values@);
            assert(field_at(buf@, w@, 0) == values@[0]);
            assert(field_at(buf@, w@, 1) == values@[1]);
            assert(field_at(buf@, w@, 2) == values@[2]);
            assert(field_at(buf@, w@, 3) == values@[3]);
            assert(field_at(buf@, w@, 4) == values@[4]);
            assert(field_at(buf@, w@, 5) == values@[5]);
            assert(field_at(buf@, w@, 6) == values@[6]);
        }
        buf
    }
}

} // verus!
