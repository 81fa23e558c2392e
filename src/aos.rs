use vstd::arithmetic::power2::*;
use vstd::prelude::*;

use vstd::slice::{slice_subrange, slice_to_vec};

use crate::bits::lemma_bits_val_bound;
use crate::clcw::{Clcw, CLCW_SIZE};
use crate::modular::wrapping_next;
use crate::layout::{
    field_at, lemma_fields_read_back, offset, read_fields, values_fit, widths_ok, write_fields,
};

verus! {

pub const AOS_PRIMARY_HEADER_SIZE: usize = 6;

pub const M_PDU_HEADER_SIZE: usize = 2;

/// The AOS transfer frame primary header (6 bytes).
#[derive(Debug, Clone, Copy, PartialEq, Eq, Structural)]
pub struct AosPrimaryHeader {
    pub version_number: u8,
    pub scid: u8,
    pub vcid: u8,
    pub frame_count_raw: u32,
    pub replay_flag: bool,
}

pub open spec fn aos_header_widths() -> Seq<usize> {
    seq![2usize, 8, 6, 24, 1, 7]
}

fn aos_header_widths_exec() -> (r: Vec<usize>)
    ensures
        r@ == aos_header_widths(),
        widths_ok(r@),
        offset(r@, 6) == 48,
{
    let r = vec![2usize, 8, 6, 24, 1, 7];
    assert(r@ =~= aos_header_widths());
    proof {
        reveal_with_fuel(offset, 7);
    }
    r
}

impl AosPrimaryHeader {
    /// Every field fits its width on the wire.
    pub open spec fn wf(self) -> bool {
        &&& self.version_number < 4
        &&& self.vcid < 64
        &&& self.frame_count_raw < 16777216
    }

    /// The header that the first 6 bytes of `b` spell.
    pub open spec fn spec_parse(b: Seq<u8>) -> AosPrimaryHeader {
        let w = aos_header_widths();
        AosPrimaryHeader {
            version_number: field_at(b, w, 0) as u8,
            scid: field_at(b, w, 1) as u8,
            vcid: field_at(b, w, 2) as u8,
            frame_count_raw: field_at(b, w, 3) as u32,
            replay_flag: field_at(b, w, 4) == 1,
        }
    }

    /// Parses the header at the front of `bytes`.
    pub fn parse(bytes: &[u8]) -> (r: Option<AosPrimaryHeader>)
        ensures
            r is Some <==> bytes@.len() >= AOS_PRIMARY_HEADER_SIZE,
            r matches Some(h) ==> h == AosPrimaryHeader::spec_parse(bytes@) && h.wf(),
    {
        if bytes.len() < AOS_PRIMARY_HEADER_SIZE {
            return None;
        }
        let w = aos_header_widths_exec();
        let v = read_fields(bytes, &w);
        proof {
            reveal_with_fuel(offset, 7);
            lemma2_to64();
            lemma2_to64_rest();
            assert(v@[0] as nat == field_at(bytes@, w@, 0));
            lemma_bits_val_bound(bytes@, offset(w@, 0), offset(w@, 0) + 2);
            assert(v@[1] as nat == field_at(bytes@, w@, 1));
            assert(v@[2] as nat == field_at(bytes@, w@, 2));
            lemma_bits_val_bound(bytes@, offset(w@, 2), offset(w@, 2) + 6);
            assert(v@[3] as nat == field_at(bytes@, w@, 3));
            lemma_bits_val_bound(bytes@, offset(w@, 3), offset(w@, 3) + 24);
            assert(v@[4] as nat == field_at(bytes@, w@, 4));
        }
        Some(
            AosPrimaryHeader {
                version_number: v[0] as u8,
                scid: v[1] as u8,
                vcid: v[2] as u8,
                frame_count_raw: v[3] as u32,
                replay_flag: v[4] == 1,
            },
        )
    }

    /// The bytes of the header; bits outside the named fields are zero.
    pub fn to_bytes(&self) -> (r: Vec<u8>)
        requires
            self.wf(),
        ensures
            r@.len() == AOS_PRIMARY_HEADER_SIZE,
            AosPrimaryHeader::spec_parse(r@) == *self,
    {
        let w = aos_header_widths_exec();
        let values = vec![
            self.version_number as u64,
            self.scid as u64,
            self.vcid as u64,
            self.frame_count_raw as u64,
            if self.replay_flag {
                1u64
            } else {
                0u64
            },
            0u64,
        ];
        let mut buf = vec![0u8; AOS_PRIMARY_HEADER_SIZE];
        write_fields(&mut buf, &w, &values);
        proof {
            lemma2_to64();
            lemma2_to64_rest();
            assert(values_fit(w@, values@));
            lemma_fields_read_back(buf@, w@, values@);
            assert(field_at(buf@, w@, 0) == values@[0]);
            assert(field_at(buf@, w@, 1) == values@[1]);
            assert(field_at(buf@, w@, 2) == values@[2]);
            assert(field_at(buf@, w@, 3) == values@[3]);
            assert(field_at(buf@, w@, 4) == values@[4]);
            assert(field_at(buf@, w@, 5) == values@[5]);
        }
        buf
    }
}

/// The M_PDU header (2 bytes).
#[derive(Debug, Clone, Copy, PartialEq, Eq, Structural)]
pub struct MPduHeader {
    pub first_header_pointer_raw: u16,
}

pub open spec fn m_pdu_header_widths() -> Seq<usize> {
    seq![5usize, 11]
}

fn m_pdu_header_widths_exec() -> (r: Vec<usize>)
    ensures
        r@ == m_pdu_header_widths(),
        widths_ok(r@),
        offset(r@, 2) == 16,
{
    let r = vec![5usize, 11];
    assert(r@ =~= m_pdu_header_widths());
    proof {
        reveal_with_fuel(offset, 3);
    }
    r
}

impl MPduHeader {
    /// Every field fits its width on the wire.
    pub open spec fn wf(self) -> bool {
        &&& self.first_header_pointer_raw < 2048
    }

    /// The header that the first 2 bytes of `b` spell.
    pub open spec fn spec_parse(b: Seq<u8>) -> MPduHeader {
        let w = m_pdu_header_widths();
        MPduHeader {
            first_header_pointer_raw: field_at(b, w, 1) as u16,
        }
    }

    /// Parses the header at the front of `bytes`.
    pub fn parse(bytes: &[u8]) -> (r: Option<MPduHeader>)
        ensures
            r is Some <==> bytes@.len() >= M_PDU_HEADER_SIZE,
            r matches Some(h) ==> h == MPduHeader::spec_parse(bytes@) && h.wf(),
    {
        if bytes.len() < M_PDU_HEADER_SIZE {
            return None;
        }
        let w = m_pdu_header_widths_exec();
        let v = read_fields(bytes, &w);
        proof {
            reveal_with_fuel(offset, 3);
            lemma2_to64();
            lemma2_to64_rest();
            assert(v@[1] as nat == field_at(bytes@, w@, 1));
            lemma_bits_val_bound(bytes@, offset(w@, 1), offset(w@, 1) + 11);
        }
        Some(
            MPduHeader {
                first_header_pointer_raw: v[1] as u16,
            },
        )
    }

    /// The bytes of the header; bits outside the named fields are zero.
    pub fn to_bytes(&self) -> (r: Vec<u8>)
        requires
            self.wf(),
        ensures
            r@.len() == M_PDU_HEADER_SIZE,
            MPduHeader::spec_parse(r@) == *self,
    {
        let w = m_pdu_header_widths_exec();
        let values = vec![
            0u64,
            self.first_header_pointer_raw as u64,
        ];
        let mut buf = vec![0u8; M_PDU_HEADER_SIZE];
        write_fields(&mut buf, &w, &values);
        proof {
            lemma2_to64();
            lemma2_to64_rest();
            assert(values_fit(w@, values@));
            lemma_fields_read_back(buf@, w@, values@);
            assert(field_at(buf@, w@, 0) == values@[0]);
            assert(field_at(buf@, w@, 1) == values@[1]);
        }
        buf
    }
}

/// The number of distinct AOS frame counts.
pub const FRAME_COUNT_MODULUS: u64 = 0x100_0000;

/// A 24-bit virtual channel frame count.
#[derive(Debug, Clone, Copy, PartialEq, Eq, Structural)]
pub struct FrameCount {
    pub raw: u32,
}

pub open spec fn spec_next_count(c: FrameCount) -> FrameCount {
    FrameCount { raw: ((c.raw + 1) % (FRAME_COUNT_MODULUS as int)) as u32 }
}

impl FrameCount {
    pub open spec fn wf(self) -> bool {
        self.raw < FRAME_COUNT_MODULUS
    }

    /// The count that follows, wrapping after 2^24 - 1.
    pub fn next(self) -> (r: FrameCount)
        requires
            self.wf(),
        ensures
            r == spec_next_count(self),
            r.wf(),
    {
        FrameCount { raw: wrapping_next(self.raw as u64, FRAME_COUNT_MODULUS) as u32 }
    }

    /// `self` directly follows `other`.
    pub fn is_next_to(self, other: FrameCount) -> (r: bool)
        requires
            other.wf(),
        ensures
            r == (self == spec_next_count(other)),
    {
        self.raw == other.next().raw
    }
}

impl AosPrimaryHeader {
    pub fn frame_count(&self) -> (r: FrameCount)
        requires
            self.wf(),
        ensures
            r.raw == self.frame_count_raw,
            r.wf(),
    {
        FrameCount { raw: self.frame_count_raw }
    }

    pub fn set_frame_count(&mut self, frame_count: FrameCount)
        requires
            frame_count.wf(),
        ensures
            final(self).frame_count_raw == frame_count.raw,
            *final(self) == (AosPrimaryHeader { frame_count_raw: frame_count.raw, ..*old(self) }),
    {
        self.frame_count_raw = frame_count.raw;
    }
}

/// An AOS transfer frame split into its primary header, data unit zone and
/// CLCW trailer.
pub struct AosTransferFrame {
    pub primary_header: AosPrimaryHeader,
    pub data_unit_zone: Vec<u8>,
    pub trailer: Clcw,
}

impl AosTransferFrame {
    /// Splits `bytes`; `None` where they are shorter than a header and a
    /// trailer.
    pub fn new(bytes: &[u8]) -> (r: Option<AosTransferFrame>)
        ensures
            r is Some <==> bytes@.len() >= AOS_PRIMARY_HEADER_SIZE + CLCW_SIZE,
            r matches Some(f) ==> {
                let n = bytes@.len() as int;
                &&& f.primary_header == AosPrimaryHeader::spec_parse(bytes@)
                &&& f.primary_header.wf()
                &&& f.data_unit_zone@ == bytes@.subrange(AOS_PRIMARY_HEADER_SIZE as int, n - CLCW_SIZE)
                &&& f.trailer == Clcw::spec_parse(bytes@.subrange(n - CLCW_SIZE, n))
                &&& f.trailer.wf()
            },
    {
        if bytes.len() < AOS_PRIMARY_HEADER_SIZE + CLCW_SIZE {
            return None;
        }
        let primary_header = AosPrimaryHeader::parse(bytes).unwrap();
        let end = bytes.len() - CLCW_SIZE;
        let data_unit_zone = slice_to_vec(slice_subrange(bytes, AOS_PRIMARY_HEADER_SIZE, end));
        let trailer = Clcw::parse(slice_subrange(bytes, end, bytes.len())).unwrap();
        Some(AosTransferFrame { primary_header, data_unit_zone, trailer })
    }
}

/// Tracks the frame count of one virtual channel.
pub struct Synchronizer {
    pub counter: Option<FrameCount>,
}

impl Synchronizer {
    pub fn new() -> (r: Synchronizer)
        ensures
            r.counter is None,
    {
        Synchronizer { counter: None }
    }

    /// Takes the count of the next frame and adopts it. Where a count was
    /// known and `frame_count` does not follow it, returns the count that
    /// was expected.
    pub fn next(&mut self, frame_count: FrameCount) -> (r: Result<(), FrameCount>)
        requires
            old(self).counter matches Some(c) ==> c.wf(),
        ensures
            final(self).counter == Some(frame_count),
            match old(self).counter {
                None => r is Ok,
                Some(c) => if frame_count == spec_next_count(c) {
                    r is Ok
                } else {
                    r == Err::<(), FrameCount>(spec_next_count(c))
                },
            },
    {
        match self.counter {
            Some(counter) => {
                let is_contiguous = frame_count.is_next_to(counter);
                self.counter = Some(frame_count);
                if is_contiguous {
                    Ok(())
                } else {
                    Err(counter.next())
                }
            },
            None => {
                self.counter = Some(frame_count);
                Ok(())
            },
        }
    }

    pub fn reset(&mut self)
        ensures
            final(self).counter is None,
    {
        self.counter = None;
    }
}

/// The bytes of one AOS transfer frame as the radio link delivered them.
pub struct TransferFrameBuffer {
    bytes: Vec<u8>,
}

impl TransferFrameBuffer {
    pub closed spec fn spec_bytes(&self) -> Seq<u8> {
        self.bytes@
    }

    pub fn new(bytes: Vec<u8>) -> (r: TransferFrameBuffer)
        ensures
            r.spec_bytes() == bytes@,
    {
        TransferFrameBuffer { bytes }
    }

    /// The frame split into header, data unit zone and CLCW trailer.
    pub fn transfer_frame(&self) -> (r: Option<AosTransferFrame>)
        ensures
            r is Some <==> self.spec_bytes().len() >= AOS_PRIMARY_HEADER_SIZE + CLCW_SIZE,
            r matches Some(f) ==> f.primary_header == AosPrimaryHeader::spec_parse(self.spec_bytes()),
    {
        AosTransferFrame::new(self.bytes.as_slice())
    }

    pub fn into_inner(self) -> (r: Vec<u8>)
        ensures
            r@ == self.spec_bytes(),
    {
        self.bytes
    }
}

} // verus!
