use vstd::arithmetic::power2::*;
use vstd::prelude::*;

use crate::bits::lemma_bits_val_bound;
use crate::layout::{
    field_at, lemma_fields_read_back, offset, read_fields, values_fit, widths_ok, write_fields,
};

verus! {

pub const CLCW_SIZE: usize = 4;

/// The Communications Link Control Word: the receiver's report on the
/// uplink, four bytes on the wire.
#[derive(Debug, Clone, Copy, PartialEq, Eq, Structural)]
pub struct Clcw {
    pub control_word_type: u8,
    pub clcw_version_number: u8,
    pub status_field: u8,
    pub cop_in_effect: u8,
    pub virtual_channel_identification: u8,
    pub no_rf_available: bool,
    pub no_bit_lock: bool,
    pub lockout: bool,
    pub wait: bool,
    pub retransmit: bool,
    pub farm_b_counter: u8,
    /// The next frame sequence number the receiver expects (V(R)).
    pub report_value: u8,
}

pub open spec fn clcw_widths() -> Seq<usize> {
    seq![1usize, 2, 3, 2, 6, 2, 1, 1, 1, 1, 1, 2, 1, 8]
}

fn clcw_widths_exec() -> (r: Vec<usize>)
    ensures
        r@ == clcw_widths(),
        widths_ok(r@),
        offset(r@, 14) == 32,
{
    let r = vec![1usize, 2, 3, 2, 6, 2, 1, 1, 1, 1, 1, 2, 1, 8];
    assert(r@ =~= clcw_widths());
    proof {
        reveal_with_fuel(offset, 15);
    }
    r
}

impl Clcw {
    /// Every field fits its width on the wire.
    pub open spec fn wf(self) -> bool {
        &&& self.control_word_type < 2
        &&& self.clcw_version_number < 4
        &&& self.status_field < 8
        &&& self.cop_in_effect < 4
        &&& self.virtual_channel_identification < 64
        &&& self.farm_b_counter < 4
    }

    /// The CLCW that the first 4 bytes of `b` spell.
    pub open spec fn spec_parse(b: Seq<u8>) -> Clcw {
        let w = clcw_widths();
        Clcw {
            control_word_type: field_at(b, w, 0) as u8,
            clcw_version_number: field_at(b, w, 1) as u8,
            status_field: field_at(b, w, 2) as u8,
            cop_in_effect: field_at(b, w, 3) as u8,
            virtual_channel_identification: field_at(b, w, 4) as u8,
            no_rf_available: field_at(b, w, 6) == 1,
            no_bit_lock: field_at(b, w, 7) == 1,
            lockout: field_at(b, w, 8) == 1,
            wait: field_at(b, w, 9) == 1,
            retransmit: field_at(b, w, 10) == 1,
            farm_b_counter: field_at(b, w, 11) as u8,
            report_value: field_at(b, w, 13) as u8,
        }
    }

    /// Parses the CLCW at the front of `bytes`.
    pub fn parse(bytes: &[u8]) -> (r: Option<Clcw>)
        ensures
            r is Some <==> bytes@.len() >= CLCW_SIZE,
            r matches Some(h) ==> h == Clcw::spec_parse(bytes@) && h.wf(),
    {
        if bytes.len() < CLCW_SIZE {
            return None;
        }
        let w = clcw_widths_exec();
        let v = read_fields(bytes, &w);
        proof {
            reveal_with_fuel(offset, 15);
            lemma2_to64();
            lemma2_to64_rest();
            assert(v@[0] as nat == field_at(bytes@, w@, 0));
            lemma_bits_val_bound(bytes@, offset(w@, 0), offset(w@, 0) + 1);
            assert(v@[1] as nat == field_at(bytes@, w@, 1));
            lemma_bits_val_bound(bytes@, offset(w@, 1), offset(w@, 1) + 2);
            assert(v@[2] as nat == field_at(bytes@, w@, 2));
            lemma_bits_val_bound(bytes@, offset(w@, 2), offset(w@, 2) + 3);
            assert(v@[3] as nat == field_at(bytes@, w@, 3));
            lemma_bits_val_bound(bytes@, offset(w@, 3), offset(w@, 3) + 2);
            assert(v@[4] as nat == field_at(bytes@, w@, 4));
            lemma_bits_val_bound(bytes@, offset(w@, 4), offset(w@, 4) + 6);
            assert(v@[6] as nat == field_at(bytes@, w@, 6));
            assert(v@[7] as nat == field_at(bytes@, w@, 7));
            assert(v@[8] as nat == field_at(bytes@, w@, 8));
            assert(v@[9] as nat == field_at(bytes@, w@, 9));
            assert(v@[10] as nat == field_at(bytes@, w@, 10));
            assert(v@[11] as nat == field_at(bytes@, w@, 11));
            lemma_bits_val_bound(bytes@, offset(w@, 11), offset(w@, 11) + 2);
            assert(v@[13] as nat == field_at(bytes@, w@, 13));
        }
        Some(
            Clcw {
                control_word_type: v[0] as u8,
                clcw_version_number: v[1] as u8,
                status_field: v[2] as u8,
                cop_in_effect: v[3] as u8,
                virtual_channel_identification: v[4] as u8,
                no_rf_available: v[6] == 1,
                no_bit_lock: v[7] == 1,
                lockout: v[8] == 1,
                wait: v[9] == 1,
                retransmit: v[10] == 1,
                farm_b_counter: v[11] as u8,
                report_value: v[13] as u8,
            },
        )
    }

    /// The four bytes of the CLCW; spare bits are zero.
    pub fn to_bytes(&self) -> (r: Vec<u8>)
        requires
            self.wf(),
        ensures
            r@.len() == CLCW_SIZE,
            Clcw::spec_parse(r@) == *self,
    {
        let w = clcw_widths_exec();
        let values = vec![
            self.control_word_type as u64,
            self.clcw_version_number as u64,
            self.status_field as u64,
            self.cop_in_effect as u64,
            self.virtual_channel_identification as u64,
            0u64,
            if self.no_rf_available {
                1u64
            } else {
                0u64
            },
            if self.no_bit_lock {
                1u64
            } else {
                0u64
            },
            if self.lockout {
                1u64
            } else {
                0u64
            },
            if self.wait {
                1u64
            } else {
                0u64
            },
            if self.retransmit {
                1u64
            } else {
                0u64
            },
            self.farm_b_counter as u64,
            0u64,
            self.report_value as u64,
        ];
        let mut buf = vec![0u8; CLCW_SIZE];
        write_fields(&mut buf, &w, &values);
        proof {
            lemma2_to64();
            lemma2_to64_rest();
            assert(values_fit(w@, values@));
            lemma_fields_read_back(buf@, w@, values@);
            assert(field_at(buf@, w@, 0) == values@[0]);
            assert(field_at(buf@, w@, 1) == values@[1]);
            assert(field_at(buf@, w@, 2) == values@[2]);
            assert(field_at(buf@, w@, 3) == values@[3]);
            assert(field_at(buf@, w@, 4) == values@[4]);
            assert(field_at(buf@, w@, 5) == values@[5]);
            assert(field_at(buf@, w@, 6) == values@[6]);
            assert(field_at(buf@, w@, 7) == values@[7]);
            assert(field_at(buf@, w@, 8) == values@[8]);
            assert(field_at(buf@, w@, 9) == values@[9]);
            assert(field_at(buf@, w@, 10) == values@[10]);
            assert(field_at(buf@, w@, 11) == values@[11]);
            assert(field_at(buf@, w@, 12) == values@[12]);
            assert(field_at(buf@, w@, 13) == values@[13]);
        }
        buf
    }
}

} // verus!
