use vstd::arithmetic::power2::*;
use vstd::prelude::*;
use vstd::slice::slice_to_vec;

use crate::layout::{field_at, lemma_field_at_prefix, lemma_fields_read_back, offset, read_fields, values_fit, widths_ok, write_fields};

verus! {

pub const PRIMARY_HEADER_SIZE: usize = 5;

/// Length of the frame error control field (the CRC trailer).
pub const TRAILER_SIZE: usize = 2;

/// Largest TC transfer frame, in bytes.
pub const MAX_SIZE: usize = 1024;

/// The TC transfer frame primary header (5 bytes).
#[derive(Debug, Clone, Copy, PartialEq, Eq, Structural)]
pub struct PrimaryHeader {
    pub version_number: u8,
    pub bypass_flag: bool,
    pub control_command_flag: bool,
    pub scid: u16,
    pub vcid: u8,
    /// The frame length minus one, as on the wire.
    pub frame_length_raw: u16,
    pub frame_sequence_number: u8,
}

pub open spec fn primary_header_widths() -> Seq<usize> {
    seq![2usize, 1, 1, 2, 10, 6, 10, 8]
}

fn primary_header_widths_exec() -> (r: Vec<usize>)
    ensures
        r@ == primary_header_widths(),
        widths_ok(r@),
        offset(r@, 8) == 40,
{
    let r = vec![2usize, 1, 1, 2, 10, 6, 10, 8];
    assert(r@ =~= primary_header_widths());
    proof {
        reveal_with_fuel(offset, 9);
    }
    r
}

impl PrimaryHeader {
    pub open spec fn wf(self) -> bool {
        &&& self.version_number < 4
        &&& self.scid < 1024
        &&& self.vcid < 64
        &&& self.frame_length_raw < 1024
    }

    /// The header that the first five bytes of `b` spell.
    pub open spec fn spec_parse(b: Seq<u8>) -> PrimaryHeader {
        let w = primary_header_widths();
        PrimaryHeader {
            version_number: field_at(b, w, 0) as u8,
            bypass_flag: field_at(b, w, 1) == 1,
            control_command_flag: field_at(b, w, 2) == 1,
            scid: field_at(b, w, 4) as u16,
            vcid: field_at(b, w, 5) as u8,
            frame_length_raw: field_at(b, w, 6) as u16,
            frame_sequence_number: field_at(b, w, 7) as u8,
        }
    }

    /// The bits between the control command flag and the SCID, which are
    /// written as zero.
    pub open spec fn spec_spare(b: Seq<u8>) -> nat {
        field_at(b, primary_header_widths(), 3)
    }

    /// Parses the header at the front of `bytes`.
    pub fn parse(bytes: &[u8]) -> (r: Option<PrimaryHeader>)
        ensures
            r is Some <==> bytes@.len() >= PRIMARY_HEADER_SIZE,
            r matches Some(h) ==> h == PrimaryHeader::spec_parse(bytes@),
    {
        if bytes.len() < PRIMARY_HEADER_SIZE {
            return None;
        }
        let w = primary_header_widths_exec();
        let v = read_fields(bytes, &w);
        proof {
            assert(v@[0] as nat == field_at(bytes@, w@, 0));
            assert(v@[1] as nat == field_at(bytes@, w@, 1));
            assert(v@[2] as nat == field_at(bytes@, w@, 2));
            assert(v@[4] as nat == field_at(bytes@, w@, 4));
            assert(v@[5] as nat == field_at(bytes@, w@, 5));
            assert(v@[6] as nat == field_at(bytes@, w@, 6));
            assert(v@[7] as nat == field_at(bytes@, w@, 7));
        }
        Some(
            PrimaryHeader {
                version_number: v[0] as u8,
                bypass_flag: v[1] == 1,
                control_command_flag: v[2] == 1,
                scid: v[4] as u16,
                vcid: v[5] as u8,
                frame_length_raw: v[6] as u16,
                frame_sequence_number: v[7] as u8,
            },
        )
    }

    /// The five bytes of the header, spare bits zero.
    pub fn to_bytes(&self) -> (r: Vec<u8>)
        requires
            self.wf(),
        ensures
            r@.len() == PRIMARY_HEADER_SIZE,
            PrimaryHeader::spec_parse(r@) == *self,
            PrimaryHeader::spec_spare(r@) == 0,
    {
        let w = primary_header_widths_exec();
        let values = vec![
            self.version_number as u64,
            if self.bypass_flag {
                1u64
            } else {
                0u64
            },
            if self.control_command_flag {
                1u64
            } else {
                0u64
            },
            0u64,
            self.scid as u64,
            self.vcid as u64,
            self.frame_length_raw as u64,
            self.frame_sequence_number as u64,
        ];
        let mut buf = vec![0u8; PRIMARY_HEADER_SIZE];
        write_fields(&mut buf, &w, &values);
        proof {
            lemma2_to64();
            assert(values_fit(w@, values@));
            lemma_fields_read_back(buf@, w@, values@);
            assert(field_at(buf@, w@, 0) == values@[0]);
            assert(field_at(buf@, w@, 1) == values@[1]);
            assert(field_at(buf@, w@, 2) == values@[2]);
            assert(field_at(buf@, w@, 3) == values@[3]);
            assert(field_at(buf@, w@, 4) == values@[4]);
            assert(field_at(buf@, w@, 5) == values@[5]);
            assert(field_at(buf@, w@, 6) == values@[6]);
            assert(field_at(buf@, w@, 7) == values@[7]);
        }
        buf
    }

    pub fn frame_length_in_bytes(&self) -> (r: usize)
        ensures
            r == self.frame_length_raw + 1,
    {
        self.frame_length_raw as usize + 1
    }

    /// Sets the frame length, stored on the wire minus one.
    pub fn set_frame_length_in_bytes(&mut self, frame_length_in_bytes: usize)
        requires
            1 <= frame_length_in_bytes <= 1024,
        ensures
            final(self).frame_length_raw == frame_length_in_bytes - 1,
            *final(self) == (PrimaryHeader { frame_length_raw: final(self).frame_length_raw, ..*old(self) }),
    {
        self.frame_length_raw = (frame_length_in_bytes - 1) as u16;
    }
}

/// The CRC-16/IBM-3740 checksum of `b` (polynomial 0x1021, initial value
/// 0xFFFF, no reflection, no final xor).
pub uninterp spec fn crc16_ibm3740(b: Seq<u8>) -> u16;

/// Relies on `crc::Crc::<u16>::checksum` with the `CRC_16_IBM_3740`
/// algorithm of the crc crate: the checksum depends on the bytes alone.
#[verifier::external_body]
fn fecf_checksum(bytes: &[u8]) -> (r: u16)
    ensures
        r == crc16_ibm3740(bytes@),
{
    crc::Crc::<u16>::new(&crc::CRC_16_IBM_3740).checksum(bytes)
}

/// The two bytes of `v`, most significant first.
pub open spec fn be_bytes(v: u16) -> Seq<u8> {
    seq![(v / 256) as u8, (v % 256) as u8]
}

/// Appends the frame error control field `fecf` to a bare frame, big-endian.
pub fn append_fecf(bare: Vec<u8>, fecf: u16) -> (r: Vec<u8>)
    ensures
        r@ == bare@ + be_bytes(fecf),
{
    let ghost b0 = bare@;
    let mut r = bare;
    r.push((fecf / 256) as u8);
    r.push((fecf % 256) as u8);
    assert(r@ =~= b0 + be_bytes(fecf));
    r
}

/// The three kinds of TC transfer frame.
#[derive(Debug, Clone, Copy, PartialEq, Eq, Structural)]
pub enum FrameType {
    /// Sequence-controlled data, sent through FOP-1.
    TypeAD,
    /// Expedited data.
    TypeBD,
    /// Expedited control command.
    TypeBC,
}

impl FrameType {
    pub open spec fn spec_bypass_flag(self) -> bool {
        self != FrameType::TypeAD
    }

    pub open spec fn spec_control_command_flag(self) -> bool {
        self == FrameType::TypeBC
    }

    /// Set for the expedited frame types (BD and BC).
    pub fn bypass_flag(&self) -> (r: bool)
        ensures
            r == self.spec_bypass_flag(),
    {
        match self {
            FrameType::TypeAD => false,
            FrameType::TypeBD => true,
            FrameType::TypeBC => true,
        }
    }

    /// Set for control commands (BC) only.
    pub fn control_command_flag(&self) -> (r: bool)
        ensures
            r == self.spec_control_command_flag(),
    {
        match self {
            FrameType::TypeAD => false,
            FrameType::TypeBD => false,
            FrameType::TypeBC => true,
        }
    }
}

/// Why a TC transfer frame could not be built.
#[derive(Debug, Clone, Copy, PartialEq, Eq, Structural)]
pub enum BuildError {
    /// The data field does not fit a frame of the largest size.
    TooLargeData,
}

/// The header of a frame of type `frame_type` carrying `data_len` bytes of
/// data: version 0, the flags of the type, the length of the whole frame
/// (header, data and FECF) minus one.
pub open spec fn frame_header(
    scid: u16,
    vcid: u8,
    frame_type: FrameType,
    sequence_number: u8,
    data_len: nat,
) -> PrimaryHeader {
    PrimaryHeader {
        version_number: 0,
        bypass_flag: frame_type.spec_bypass_flag(),
        control_command_flag: frame_type.spec_control_command_flag(),
        scid,
        vcid,
        frame_length_raw: (PRIMARY_HEADER_SIZE + data_len + TRAILER_SIZE - 1) as u16,
        frame_sequence_number: sequence_number,
    }
}

/// Builds a TC transfer frame: the primary header, `data` as the data field,
/// then the CRC of everything before it, big-endian.
pub fn build_tf(
    scid: u16,
    vcid: u8,
    frame_type: FrameType,
    sequence_number: u8,
    data: &[u8],
) -> (r: Result<Vec<u8>, BuildError>)
    requires
        scid < 1024,
        vcid < 64,
    ensures
        r is Ok <==> data@.len() <= MAX_SIZE - PRIMARY_HEADER_SIZE - TRAILER_SIZE,
        r matches Ok(f) ==> {
            let n = PRIMARY_HEADER_SIZE + data@.len();
            &&& f@.len() == n + TRAILER_SIZE
            &&& PrimaryHeader::spec_parse(f@) == frame_header(
                scid,
                vcid,
                frame_type,
                sequence_number,
                data@.len(),
            )
            &&& PrimaryHeader::spec_spare(f@) == 0
            &&& f@.subrange(PRIMARY_HEADER_SIZE as int, n) == data@
            &&& f@.subrange(n, n + TRAILER_SIZE) == be_bytes(crc16_ibm3740(f@.subrange(0, n)))
        },
{
    if data.len() > MAX_SIZE - PRIMARY_HEADER_SIZE - TRAILER_SIZE {
        return Err(BuildError::TooLargeData);
    }
    let header = PrimaryHeader {
        version_number: 0,
        bypass_flag: frame_type.bypass_flag(),
        control_command_flag: frame_type.control_command_flag(),
        scid,
        vcid,
        frame_length_raw: (PRIMARY_HEADER_SIZE + data.len() + TRAILER_SIZE - 1) as u16,
        frame_sequence_number: sequence_number,
    };
    let mut bare = header.to_bytes();
    let ghost h = bare@;
    let mut tail = slice_to_vec(data);
    bare.append(&mut tail);
    let fecf = fecf_checksum(bare.as_slice());
    let ghost b = bare@;
    let frame = append_fecf(bare, fecf);
    proof {
        reveal_with_fuel(offset, 9);
        assert(frame@.subrange(0, 5) =~= h);
        lemma_field_at_prefix(h, frame@, primary_header_widths());
        assert(frame@.subrange(PRIMARY_HEADER_SIZE as int, PRIMARY_HEADER_SIZE + data@.len()) =~= data@);
        assert(frame@.subrange(0, PRIMARY_HEADER_SIZE + data@.len()) =~= b);
        assert(frame@.subrange(PRIMARY_HEADER_SIZE + data@.len(), PRIMARY_HEADER_SIZE + data@.len() + 2) =~= be_bytes(fecf));
    }
    Ok(frame)
}

} // verus!
