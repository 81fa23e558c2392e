use vstd::arithmetic::power2::*;
use vstd::prelude::*;

use crate::bits::{bit_at, bits_hold, bits_val, lemma_bits_val_frame, lemma_bits_hold_kept, lemma_bits_hold_val, read_bits, write_bits};

verus! {

/// Where field `k` starts when fields of widths `w` follow one another from
/// bit 0.
pub open spec fn offset(w: Seq<usize>, k: int) -> int
    decreases k,
{
    if k <= 0 {
        0
    } else {
        offset(w, k - 1) + w[k - 1]
    }
}

/// Every field is 1 to 64 bits wide.
pub open spec fn widths_ok(w: Seq<usize>) -> bool {
    forall|k: int| 0 <= k < w.len() ==> 1 <= #[trigger] w[k] <= 64
}

/// The value of field `k` of the contiguous layout `w` in `b`.
pub open spec fn field_at(b: Seq<u8>, w: Seq<usize>, k: int) -> nat {
    bits_val(b, offset(w, k), offset(w, k) + w[k])
}

/// Every value fits the width of its field.
pub open spec fn values_fit(w: Seq<usize>, v: Seq<u64>) -> bool {
    &&& v.len() == w.len()
    &&& forall|k: int| 0 <= k < w.len() ==> (#[trigger] v[k]) < pow2(w[k] as nat)
}

pub proof fn lemma_offset_mono(w: Seq<usize>, k: int, m: int)
    requires
        widths_ok(w),
        0 <= k <= m <= w.len(),
    ensures
        offset(w, k) <= offset(w, m),
        k < m ==> offset(w, k) + w[k] <= offset(w, m),
    decreases m - k,
{
    if k < m {
        lemma_offset_mono(w, k, m - 1);
        assert(w[m - 1] >= 1);
    }
}

/// Writes each value into its field, fields laid out one after another from
/// bit 0.
pub fn write_fields(buf: &mut Vec<u8>, widths: &Vec<usize>, values: &Vec<u64>)
    requires
        widths_ok(widths@),
        offset(widths@, widths@.len() as int) <= 8 * old(buf)@.len(),
        offset(widths@, widths@.len() as int) <= usize::MAX,
        values@.len() == widths@.len(),
    ensures
        final(buf)@.len() == old(buf)@.len(),
        forall|k: int| 0 <= k < widths@.len() ==> bits_hold(
            final(buf)@,
            #[trigger] offset(widths@, k),
            offset(widths@, k) + widths@[k],
            values@[k] as int,
        ),
{
    let mut i: usize = 0;
    let mut pos: usize = 0;
    while i < widths.len()
        invariant
            i <= widths@.len(),
            values@.len() == widths@.len(),
            buf@.len() == old(buf)@.len(),
            widths_ok(widths@),
            offset(widths@, widths@.len() as int) <= 8 * old(buf)@.len(),
            offset(widths@, widths@.len() as int) <= usize::MAX,
            pos == offset(widths@, i as int),
            forall|k: int| 0 <= k < i ==> bits_hold(
                buf@,
                #[trigger] offset(widths@, k),
                offset(widths@, k) + widths@[k],
                values@[k] as int,
            ),
        decreases widths.len() - i,
    {
        proof {
            lemma_offset_mono(widths@, i + 1, widths@.len() as int);
        }
        let end = pos + widths[i];
        let ghost before = buf@;
        write_bits(buf, pos, end, values[i]);
        proof {
            assert forall|k: int| 0 <= k < i + 1 implies bits_hold(
                buf@,
                #[trigger] offset(widths@, k),
                offset(widths@, k) + widths@[k],
                values@[k] as int,
            ) by {
                if k < i {
                    lemma_offset_mono(widths@, k, i as int);
                    lemma_offset_mono(widths@, 0, k);
                    lemma_bits_hold_kept(
                        before,
                        buf@,
                        offset(widths@, k),
                        offset(widths@, k) + widths@[k],
                        values@[k] as int,
                        pos as int,
                        end as int,
                    );
                }
            }
        }
        pos = end;
        i = i + 1;
    }
}

/// Reads each field of the contiguous layout `widths` from `bytes`.
pub fn read_fields(bytes: &[u8], widths: &Vec<usize>) -> (r: Vec<u64>)
    requires
        widths_ok(widths@),
        offset(widths@, widths@.len() as int) <= 8 * bytes@.len(),
        offset(widths@, widths@.len() as int) <= usize::MAX,
    ensures
        r@.len() == widths@.len(),
        forall|k: int| 0 <= k < widths@.len() ==> #[trigger] r@[k] as nat == field_at(
            bytes@,
            widths@,
            k,
        ),
{
    let mut r: Vec<u64> = Vec::new();
    let mut i: usize = 0;
    let mut pos: usize = 0;
    while i < widths.len()
        invariant
            i <= widths@.len(),
            r@.len() == i,
            widths_ok(widths@),
            offset(widths@, widths@.len() as int) <= 8 * bytes@.len(),
            offset(widths@, widths@.len() as int) <= usize::MAX,
            pos == offset(widths@, i as int),
            forall|k: int| 0 <= k < i ==> #[trigger] r@[k] as nat == field_at(bytes@, widths@, k),
        decreases widths.len() - i,
    {
        proof {
            lemma_offset_mono(widths@, i + 1, widths@.len() as int);
        }
        let end = pos + widths[i];
        let v = read_bits(bytes, pos, end);
        r.push(v);
        pos = end;
        i = i + 1;
    }
    r
}

/// Values written into their fields read back unchanged.
pub proof fn lemma_fields_read_back(b: Seq<u8>, w: Seq<usize>, v: Seq<u64>)
    requires
        widths_ok(w),
        values_fit(w, v),
        forall|k: int| 0 <= k < w.len() ==> bits_hold(
            b,
            #[trigger] offset(w, k),
            offset(w, k) + w[k],
            v[k] as int,
        ),
    ensures
        forall|k: int| 0 <= k < w.len() ==> #[trigger] field_at(b, w, k) == v[k],
{
    assert forall|k: int| 0 <= k < w.len() implies #[trigger] field_at(b, w, k) == v[k] by {
        assert(bits_hold(b, offset(w, k), offset(w, k) + w[k], v[k] as int));
        assert(w[k] >= 1);
        lemma_bits_hold_val(b, offset(w, k), offset(w, k) + w[k], v[k] as int);
        assert(v[k] < pow2(w[k] as nat));
        vstd::arithmetic::div_mod::lemma_small_mod(v[k] as nat, pow2(w[k] as nat));
    }
}

/// Fields within the first bytes of a buffer keep their values when bytes
/// are added after them.
pub proof fn lemma_field_at_prefix(b1: Seq<u8>, b2: Seq<u8>, w: Seq<usize>)
    requires
        widths_ok(w),
        offset(w, w.len() as int) <= 8 * b1.len(),
        b1.len() <= b2.len(),
        b2.subrange(0, b1.len() as int) == b1,
    ensures
        forall|k: int| 0 <= k < w.len() ==> #[trigger] field_at(b1, w, k) == field_at(b2, w, k),
{
    assert forall|k: int| 0 <= k < w.len() implies #[trigger] field_at(b1, w, k) == field_at(b2, w, k) by {
        lemma_offset_mono(w, k, w.len() as int);
        lemma_offset_mono(w, 0, k);
        let s = offset(w, k);
        let e = offset(w, k) + w[k];
        assert forall|j: int| s <= j < e implies #[trigger] bit_at(b1, j) == bit_at(b2, j) by {
            assert(b2.subrange(0, b1.len() as int)[j / 8] == b2[j / 8]);
        }
        lemma_bits_val_frame(b1, b2, s, e);
    }
}

} // verus!
