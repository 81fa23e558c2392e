use vstd::arithmetic::power2::*;
use vstd::prelude::*;
use vstd::slice::{slice_subrange, slice_to_vec};

use crate::bits::lemma_bits_val_bound;
use crate::layout::{
    field_at, lemma_fields_read_back, offset, read_fields, values_fit, widths_ok, write_fields,
};

verus! {

pub const PRIMARY_HEADER_SIZE: usize = 6;

/// The APID reserved for idle packets (all ones).
pub const IDLE_APID: u16 = 0x7FF;

#[derive(Debug, Clone, Copy, PartialEq, Eq, Structural)]
pub enum PacketType {
    Telemetry,
    Telecommand,
}

#[derive(Debug, Clone, Copy, PartialEq, Eq, Structural)]
pub enum SequenceFlag {
    Continuation,
    First,
    Last,
    Unsegmented,
}

pub open spec fn packet_type_code(t: PacketType) -> u64 {
    match t {
        PacketType::Telemetry => 0,
        PacketType::Telecommand => 1,
    }
}

pub open spec fn packet_type_of(v: nat) -> PacketType {
    if v == 1 {
        PacketType::Telecommand
    } else {
        PacketType::Telemetry
    }
}

pub open spec fn sequence_flag_code(f: SequenceFlag) -> u64 {
    match f {
        SequenceFlag::Continuation => 0,
        SequenceFlag::First => 1,
        SequenceFlag::Last => 2,
        SequenceFlag::Unsegmented => 3,
    }
}

pub open spec fn sequence_flag_of(v: nat) -> SequenceFlag {
    if v == 0 {
        SequenceFlag::Continuation
    } else if v == 1 {
        SequenceFlag::First
    } else if v == 2 {
        SequenceFlag::Last
    } else {
        SequenceFlag::Unsegmented
    }
}

/// The Space Packet primary header (6 bytes).
#[derive(Debug, Clone, Copy, PartialEq, Eq, Structural)]
pub struct PrimaryHeader {
    pub version_number: u8,
    pub packet_type: PacketType,
    pub secondary_header_flag: bool,
    pub apid: u16,
    pub sequence_flag: SequenceFlag,
    pub sequence_count: u16,
    /// The packet data length minus one, as on the wire.
    pub packet_data_length_raw: u16,
}

pub open spec fn primary_header_widths() -> Seq<usize> {
    seq![3usize, 1, 1, 11, 2, 14, 16]
}

fn primary_header_widths_exec() -> (r: Vec<usize>)
    ensures
        r@ == primary_header_widths(),
        widths_ok(r@),
        offset(r@, 7) == 48,
{
    let r = vec![3usize, 1, 1, 11, 2, 14, 16];
    assert(r@ =~= primary_header_widths());
    proof {
        reveal_with_fuel(offset, 8);
    }
    r
}

impl PrimaryHeader {
    /// Every field fits its width on the wire.
    pub open spec fn wf(self) -> bool {
        &&& self.version_number < 8
        &&& self.apid < 2048
        &&& self.sequence_count < 16384
    }

    /// The header that the first six bytes of `b` spell.
    pub open spec fn spec_parse(b: Seq<u8>) -> PrimaryHeader {
        let w = primary_header_widths();
        PrimaryHeader {
            version_number: field_at(b, w, 0) as u8,
            packet_type: packet_type_of(field_at(b, w, 1)),
            secondary_header_flag: field_at(b, w, 2) == 1,
            apid: field_at(b, w, 3) as u16,
            sequence_flag: sequence_flag_of(field_at(b, w, 4)),
            sequence_count: field_at(b, w, 5) as u16,
            packet_data_length_raw: field_at(b, w, 6) as u16,
        }
    }

    pub open spec fn spec_fields(self) -> Seq<u64> {
        seq![
            self.version_number as u64,
            packet_type_code(self.packet_type),
            if self.secondary_header_flag { 1u64 } else { 0u64 },
            self.apid as u64,
            sequence_flag_code(self.sequence_flag),
            self.sequence_count as u64,
            self.packet_data_length_raw as u64,
        ]
    }

    /// Parses the header at the front of `bytes`.
    pub fn parse(bytes: &[u8]) -> (r: Option<PrimaryHeader>)
        ensures
            r is Some <==> bytes@.len() >= PRIMARY_HEADER_SIZE,
            r matches Some(h) ==> h == PrimaryHeader::spec_parse(bytes@) && h.wf(),
    {
        if bytes.len() < PRIMARY_HEADER_SIZE {
            return None;
        }
        let w = primary_header_widths_exec();
        let v = read_fields(bytes, &w);
        proof {
            reveal_with_fuel(offset, 8);
            lemma2_to64();
            lemma_bits_val_bound(bytes@, 0, 3);
            lemma_bits_val_bound(bytes@, 5, 16);
            lemma_bits_val_bound(bytes@, 18, 32);
            assert(v@[0] as nat == field_at(bytes@, w@, 0));
            assert(v@[3] as nat == field_at(bytes@, w@, 3));
            assert(v@[5] as nat == field_at(bytes@, w@, 5));
        }
        let h = PrimaryHeader {
            version_number: v[0] as u8,
            packet_type: if v[1] == 1 {
                PacketType::Telecommand
            } else {
                PacketType::Telemetry
            },
            secondary_header_flag: v[2] == 1,
            apid: v[3] as u16,
            sequence_flag: if v[4] == 0 {
                SequenceFlag::Continuation
            } else if v[4] == 1 {
                SequenceFlag::First
            } else if v[4] == 2 {
                SequenceFlag::Last
            } else {
                SequenceFlag::Unsegmented
            },
            sequence_count: v[5] as u16,
            packet_data_length_raw: v[6] as u16,
        };
        proof {
            assert(v@[1] as nat == field_at(bytes@, w@, 1));
            assert(v@[2] as nat == field_at(bytes@, w@, 2));
            assert(v@[4] as nat == field_at(bytes@, w@, 4));
            assert(v@[6] as nat == field_at(bytes@, w@, 6));
        }
        Some(h)
    }

    /// The six bytes of the header.
    pub fn to_bytes(&self) -> (r: Vec<u8>)
        requires
            self.wf(),
        ensures
            r@.len() == PRIMARY_HEADER_SIZE,
            PrimaryHeader::spec_parse(r@) == *self,
    {
        let w = primary_header_widths_exec();
        let values = vec![
            self.version_number as u64,
            match self.packet_type {
                PacketType::Telemetry => 0u64,
                PacketType::Telecommand => 1u64,
            },
            if self.secondary_header_flag {
                1u64
            } else {
                0u64
            },
            self.apid as u64,
            match self.sequence_flag {
                SequenceFlag::Continuation => 0u64,
                SequenceFlag::First => 1u64,
                SequenceFlag::Last => 2u64,
                SequenceFlag::Unsegmented => 3u64,
            },
            self.sequence_count as u64,
            self.packet_data_length_raw as u64,
        ];
        let mut buf = vec![0u8; PRIMARY_HEADER_SIZE];
        write_fields(&mut buf, &w, &values);
        proof {
            assert(values@ =~= self.spec_fields());
            lemma2_to64();
            assert(values_fit(w@, values@));
            lemma_fields_read_back(buf@, w@, values@);
            assert(field_at(buf@, w@, 0) == values@[0]);
            assert(field_at(buf@, w@, 1) == values@[1]);
            assert(field_at(buf@, w@, 2) == values@[2]);
            assert(field_at(buf@, w@, 3) == values@[3]);
            assert(field_at(buf@, w@, 4) == values@[4]);
            assert(field_at(buf@, w@, 5) == values@[5]);
            assert(field_at(buf@, w@, 6) == values@[6]);
        }
        buf
    }

    /// The length of the packet data field in bytes.
    pub fn packet_data_length_in_bytes(&self) -> (r: usize)
        ensures
            r == self.packet_data_length_raw + 1,
    {
        self.packet_data_length_raw as usize + 1
    }

    pub fn set_packet_data_length_in_bytes(&mut self, packet_data_length_in_bytes: usize)
        requires
            1 <= packet_data_length_in_bytes <= 65536,
        ensures
            final(self).packet_data_length_raw == packet_data_length_in_bytes - 1,
            *final(self) == (PrimaryHeader {
                packet_data_length_raw: final(self).packet_data_length_raw,
                ..*old(self)
            }),
    {
        self.packet_data_length_raw = (packet_data_length_in_bytes - 1) as u16;
    }

    /// An idle packet carries the all-ones APID.
    pub fn is_idle_packet(&self) -> (r: bool)
        ensures
            r == (self.apid == IDLE_APID),
    {
        self.apid == IDLE_APID
    }
}

/// A Space Packet: its primary header and its packet data.
pub struct SpacePacket {
    pub primary_header: PrimaryHeader,
    pub packet_data: Vec<u8>,
}

impl SpacePacket {
    /// Splits a packet off the front of `bytes`; `None` where the header or
    /// the packet data it announces does not fit. Also returns what follows
    /// the packet.
    pub fn new(bytes: &[u8]) -> (r: Option<(SpacePacket, Vec<u8>)>)
        ensures
            r is Some <==> bytes@.len() >= PRIMARY_HEADER_SIZE && bytes@.len() - PRIMARY_HEADER_SIZE
                >= PrimaryHeader::spec_parse(bytes@).packet_data_length_raw + 1,
            r matches Some((p, trailer)) ==> {
                let n = PRIMARY_HEADER_SIZE + p.primary_header.packet_data_length_raw + 1;
                &&& p.primary_header == PrimaryHeader::spec_parse(bytes@)
                &&& p.packet_data@ == bytes@.subrange(PRIMARY_HEADER_SIZE as int, n)
                &&& trailer@ == bytes@.subrange(n, bytes@.len() as int)
            },
    {
        let primary_header = match PrimaryHeader::parse(bytes) {
            Some(h) => h,
            None => return None,
        };
        let pd_size = primary_header.packet_data_length_in_bytes();
        if bytes.len() - PRIMARY_HEADER_SIZE < pd_size {
            return None;
        }
        let end = PRIMARY_HEADER_SIZE + pd_size;
        let packet_data = slice_to_vec(slice_subrange(bytes, PRIMARY_HEADER_SIZE, end));
        let trailer = slice_to_vec(slice_subrange(bytes, end, bytes.len()));
        Some((SpacePacket { primary_header, packet_data }, trailer))
    }

    /// Header plus data length, where the data is as long as the header says.
    pub fn packet_size(&self) -> (r: Option<usize>)
        ensures
            r is Some <==> self.packet_data@.len() == self.primary_header.packet_data_length_raw
                + 1,
            r matches Some(n) ==> n == PRIMARY_HEADER_SIZE + self.packet_data@.len(),
    {
        let len_in_ph = self.primary_header.packet_data_length_in_bytes();
        if self.packet_data.len() == len_in_ph {
            Some(PRIMARY_HEADER_SIZE + len_in_ph)
        } else {
            None
        }
    }
}

} // verus!
