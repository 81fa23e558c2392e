use vstd::prelude::*;
use vstd::slice::{slice_subrange, slice_to_vec};

use crate::aos::{MPduHeader, M_PDU_HEADER_SIZE};
use crate::layout::lemma_field_at_prefix;
use crate::space_packet::{PrimaryHeader, SpacePacket, primary_header_widths, PRIMARY_HEADER_SIZE};

verus! {

/// What the first header pointer of an M_PDU says.
#[derive(Debug, Clone, Copy, PartialEq, Eq, Structural)]
pub enum FirstHeaderPointer {
    /// The first packet starting in this M_PDU starts at this offset of its
    /// packet zone.
    Pointer(u16),
    /// No packet starts in this M_PDU.
    NoPacketStarts,
    /// The M_PDU carries idle data only.
    IdleData,
}

pub const ALL_ONES: u16 = 0x7FF;

pub const ALL_ONES_MINUS_ONE: u16 = 0x7FE;

pub open spec fn spec_first_header_pointer(raw: u16) -> FirstHeaderPointer {
    if raw == ALL_ONES {
        FirstHeaderPointer::NoPacketStarts
    } else if raw == ALL_ONES_MINUS_ONE {
        FirstHeaderPointer::IdleData
    } else {
        FirstHeaderPointer::Pointer(raw)
    }
}

pub open spec fn spec_first_header_pointer_raw(p: FirstHeaderPointer) -> u16 {
    match p {
        FirstHeaderPointer::Pointer(v) => v,
        FirstHeaderPointer::NoPacketStarts => ALL_ONES,
        FirstHeaderPointer::IdleData => ALL_ONES_MINUS_ONE,
    }
}

impl FirstHeaderPointer {
    /// Reads an 11-bit pointer value; larger values are refused.
    pub fn try_from_raw(raw: u16) -> (r: Option<FirstHeaderPointer>)
        ensures
            r is Some <==> raw <= ALL_ONES,
            r matches Some(p) ==> p == spec_first_header_pointer(raw),
    {
        if raw > ALL_ONES {
            None
        } else if raw == ALL_ONES {
            Some(FirstHeaderPointer::NoPacketStarts)
        } else if raw == ALL_ONES_MINUS_ONE {
            Some(FirstHeaderPointer::IdleData)
        } else {
            Some(FirstHeaderPointer::Pointer(raw))
        }
    }

    pub fn to_raw(&self) -> (r: u16)
        ensures
            r == spec_first_header_pointer_raw(*self),
    {
        match *self {
            FirstHeaderPointer::Pointer(v) => v,
            FirstHeaderPointer::NoPacketStarts => ALL_ONES,
            FirstHeaderPointer::IdleData => ALL_ONES_MINUS_ONE,
        }
    }
}

impl MPduHeader {
    pub fn first_header_pointer(&self) -> (r: FirstHeaderPointer)
        requires
            self.wf(),
        ensures
            r == spec_first_header_pointer(self.first_header_pointer_raw),
    {
        FirstHeaderPointer::try_from_raw(self.first_header_pointer_raw).unwrap()
    }
}

/// Why an M_PDU was refused.
#[derive(Debug, Clone, Copy, PartialEq, Eq, Structural)]
pub enum DefragError {
    /// The M_PDU is shorter than its header plus a packet primary header.
    TooShort,
    /// The first header pointer points past the packet zone.
    InvalidPointer,
}

/// The length of the packet at the front of `b`, where all of it is there.
pub open spec fn next_packet_len(b: Seq<u8>) -> Option<nat> {
    if b.len() >= PRIMARY_HEADER_SIZE && b.len() - PRIMARY_HEADER_SIZE
        >= PrimaryHeader::spec_parse(b).packet_data_length_raw + 1 {
        Some((PRIMARY_HEADER_SIZE + PrimaryHeader::spec_parse(b).packet_data_length_raw + 1) as nat)
    } else {
        None
    }
}

/// The buffer after pushing the M_PDU `m` onto `buf`, or the error.
pub open spec fn push_step(buf: Seq<u8>, m: Seq<u8>) -> Result<(Seq<u8>, bool), DefragError> {
    let zone = m.skip(M_PDU_HEADER_SIZE as int);
    if m.len() < M_PDU_HEADER_SIZE || zone.len() <= PRIMARY_HEADER_SIZE {
        Err(DefragError::TooShort)
    } else {
        let fhp = spec_first_header_pointer(MPduHeader::spec_parse(m).first_header_pointer_raw);
        if buf.len() == 0 {
            match fhp {
                FirstHeaderPointer::Pointer(p) => if p > zone.len() {
                    Err(DefragError::InvalidPointer)
                } else {
                    Ok((zone.skip(p as int), true))
                },
                _ => Ok((buf, false)),
            }
        } else {
            match fhp {
                FirstHeaderPointer::IdleData => Ok((buf, false)),
                _ => Ok((buf + zone, true)),
            }
        }
    }
}

/// Reassembles Space Packets from the packet zones of successive M_PDUs of
/// one virtual channel.
pub struct Defragmenter {
    buf: Vec<u8>,
}

impl View for Defragmenter {
    type V = Seq<u8>;

    closed spec fn view(&self) -> Seq<u8> {
        self.buf@
    }
}

impl Defragmenter {
    pub fn new() -> (r: Defragmenter)
        ensures
            r@ == Seq::<u8>::empty(),
    {
        Defragmenter { buf: Vec::new() }
    }

    /// Takes the next M_PDU. The first one into an empty buffer must point
    /// at a packet start, and what precedes it is dropped; later ones add
    /// their whole packet zone, except idle ones. Returns whether bytes
    /// were added.
    pub fn push(&mut self, m_pdu_bytes: &[u8]) -> (r: Result<bool, DefragError>)
        ensures
            match push_step(old(self)@, m_pdu_bytes@) {
                Ok((b, added)) => r == Ok::<bool, DefragError>(added) && final(self)@ == b,
                Err(e) => r == Err::<bool, DefragError>(e) && final(self)@ == old(self)@,
            },
    {
        let header = match MPduHeader::parse(m_pdu_bytes) {
            Some(h) => h,
            None => return Err(DefragError::TooShort),
        };
        if m_pdu_bytes.len() - M_PDU_HEADER_SIZE <= PRIMARY_HEADER_SIZE {
            return Err(DefragError::TooShort);
        }
        let zone = slice_subrange(m_pdu_bytes, M_PDU_HEADER_SIZE, m_pdu_bytes.len());
        assert(zone@ =~= m_pdu_bytes@.skip(M_PDU_HEADER_SIZE as int));
        let fhp = header.first_header_pointer();
        if self.buf.len() == 0 {
            match fhp {
                FirstHeaderPointer::Pointer(pointer) => {
                    let offset = pointer as usize;
                    if offset > zone.len() {
                        return Err(DefragError::InvalidPointer);
                    }
                    let first = slice_subrange(zone, offset, zone.len());
                    self.buf = slice_to_vec(first);
                    assert(self.buf@ =~= zone@.skip(offset as int));
                    Ok(true)
                },
                _ => Ok(false),
            }
        } else {
            match fhp {
                FirstHeaderPointer::IdleData => Ok(false),
                _ => {
                    let mut more = slice_to_vec(zone);
                    self.buf.append(&mut more);
                    Ok(true)
                },
            }
        }
    }

    /// The packet at the front of the buffer, with its bytes, where all of
    /// it has arrived.
    pub fn read_as_bytes_and_packet(&self) -> (r: Option<(Vec<u8>, SpacePacket)>)
        ensures
            r is Some <==> next_packet_len(self@) is Some,
            r matches Some((bytes, p)) ==> {
                let n = next_packet_len(self@)->0;
                &&& bytes@ == self@.take(n as int)
                &&& p.primary_header == PrimaryHeader::spec_parse(self@)
                &&& p.packet_data@ == self@.subrange(PRIMARY_HEADER_SIZE as int, n as int)
            },
    {
        match SpacePacket::new(self.buf.as_slice()) {
            Some((packet, trailer)) => {
                let n = self.buf.len() - trailer.len();
                let bytes = slice_to_vec(slice_subrange(self.buf.as_slice(), 0, n));
                assert(bytes@ =~= self.buf@.take(n as int));
                Some((bytes, packet))
            },
            None => None,
        }
    }

    /// Drops the packet at the front of the buffer, where all of it has
    /// arrived, and returns its size; otherwise returns 0.
    pub fn advance(&mut self) -> (r: usize)
        ensures
            match next_packet_len(old(self)@) {
                Some(n) => r == n && final(self)@ == old(self)@.skip(n as int),
                None => r == 0 && final(self)@ == old(self)@,
            },
    {
        match SpacePacket::new(self.buf.as_slice()) {
            Some((packet, _trailer)) => {
                let size = PRIMARY_HEADER_SIZE + packet.primary_header.packet_data_length_in_bytes();
                let rest = slice_to_vec(slice_subrange(self.buf.as_slice(), size, self.buf.len()));
                self.buf = rest;
                size
            },
            None => 0,
        }
    }

    pub fn reset(&mut self)
        ensures
            final(self)@ == Seq::<u8>::empty(),
    {
        self.buf = Vec::new();
    }
}

/// The packets that reading and advancing `count` times takes off the front
/// of `b`, and what is left.
pub open spec fn drain_packets(b: Seq<u8>, count: nat) -> (Seq<Seq<u8>>, Seq<u8>)
    decreases count,
{
    if count == 0 {
        (Seq::empty(), b)
    } else {
        match next_packet_len(b) {
            Some(n) => {
                let (rest_packets, left) = drain_packets(b.skip(n as int), (count - 1) as nat);
                (seq![b.take(n as int)] + rest_packets, left)
            },
            None => (Seq::empty(), b),
        }
    }
}

/// Concatenation of the packets `p`.
pub open spec fn concat(p: Seq<Seq<u8>>) -> Seq<u8>
    decreases p.len(),
{
    if p.len() == 0 {
        Seq::empty()
    } else {
        p[0] + concat(p.drop_first())
    }
}

/// A whole Space Packet: its length is what its header announces.
pub open spec fn is_whole_packet(p: Seq<u8>) -> bool {
    next_packet_len(p) == Some(p.len())
}

proof fn lemma_whole_packet_prefix(p: Seq<u8>, rest: Seq<u8>)
    requires
        is_whole_packet(p),
    ensures
        next_packet_len(p + rest) == Some(p.len()),
        (p + rest).take(p.len() as int) == p,
        (p + rest).skip(p.len() as int) == rest,
{
    let b = p + rest;
    reveal_with_fuel(crate::layout::offset, 8);
    assert(b.subrange(0, p.len() as int) =~= p);
    lemma_field_at_prefix(p, b, primary_header_widths());
    assert(PrimaryHeader::spec_parse(b) == PrimaryHeader::spec_parse(p));
    assert(b.take(p.len() as int) =~= p);
    assert(b.skip(p.len() as int) =~= rest);
}

/// Whole Space Packets laid end to end in the buffer, followed by anything,
/// come out one by one unchanged, and exactly their bytes are consumed.
pub proof fn lemma_defragmenter_emits_packets(packets: Seq<Seq<u8>>, rest: Seq<u8>)
    requires
        forall|i: int| 0 <= i < packets.len() ==> is_whole_packet(#[trigger] packets[i]),
    ensures
        drain_packets(concat(packets) + rest, packets.len()) == (packets, rest),
    decreases packets.len(),
{
    if packets.len() > 0 {
        let p = packets[0];
        let tail = packets.drop_first();
        assert forall|i: int| 0 <= i < tail.len() implies is_whole_packet(#[trigger] tail[i]) by {
            assert(tail[i] == packets[i + 1]);
        }
        lemma_defragmenter_emits_packets(tail, rest);
        assert(concat(packets) + rest =~= p + (concat(tail) + rest));
        lemma_whole_packet_prefix(p, concat(tail) + rest);
        assert(seq![p] + tail =~= packets);
    } else {
        assert(concat(packets) + rest =~= rest);
    }
}

} // verus!
