use vstd::arithmetic::div_mod::*;
use vstd::arithmetic::power2::*;
use vstd::prelude::*;

verus! {

/// The bit at position `i` of `b`, counting from the most significant bit of
/// the first byte (MSB0).
pub open spec fn bit_at(b: Seq<u8>, i: int) -> bool {
    ((b[i / 8] >> ((7 - i % 8) as u8)) & 1u8) == 1u8
}

/// Bit `k` of the non-negative integer `v`, counting from the least
/// significant bit.
pub open spec fn nth_bit(v: int, k: int) -> bool {
    (v / (pow2(k as nat) as int)) % 2 == 1
}

/// The big-endian unsigned value of the bits `[s, e)` of `b`.
pub open spec fn bits_val(b: Seq<u8>, s: int, e: int) -> nat
    decreases e - s,
{
    if e <= s {
        0
    } else {
        2 * bits_val(b, s, e - 1) + (if bit_at(b, e - 1) { 1nat } else { 0nat })
    }
}

/// The bits `[s, e)` of `b` spell the low `e - s` bits of `v`, most
/// significant first.
pub open spec fn bits_hold(b: Seq<u8>, s: int, e: int, v: int) -> bool {
    forall|j: int| s <= j < e ==> #[trigger] bit_at(b, j) == nth_bit(v, e - 1 - j)
}

/// `b2` agrees with `b1` on every bit outside `[s, e)`.
pub open spec fn same_outside(b1: Seq<u8>, b2: Seq<u8>, s: int, e: int) -> bool {
    &&& b1.len() == b2.len()
    &&& forall|j: int| 0 <= j < 8 * b1.len() && !(s <= j < e) ==> #[trigger] bit_at(b2, j)
        == bit_at(b1, j)
}

pub proof fn lemma_bits_val_bound(b: Seq<u8>, s: int, e: int)
    requires
        s <= e,
    ensures
        bits_val(b, s, e) < pow2((e - s) as nat),
    decreases e - s,
{
    lemma2_to64();
    if e > s {
        lemma_bits_val_bound(b, s, e - 1);
        lemma_pow2_unfold((e - s) as nat);
        assert(((e - s) - 1) as nat == (e - 1 - s) as nat);
    }
}

/// A field's value is decided by the bits inside its range alone.
pub proof fn lemma_bits_val_frame(b1: Seq<u8>, b2: Seq<u8>, s: int, e: int)
    requires
        forall|j: int| s <= j < e ==> #[trigger] bit_at(b1, j) == bit_at(b2, j),
    ensures
        bits_val(b1, s, e) == bits_val(b2, s, e),
    decreases e - s,
{
    if e > s {
        lemma_bits_val_frame(b1, b2, s, e - 1);
        assert(bit_at(b1, e - 1) == bit_at(b2, e - 1));
    }
}

/// Bits that spell a value read back as that value, truncated to the width.
pub proof fn lemma_bits_hold_val(b: Seq<u8>, s: int, e: int, v: int)
    requires
        s <= e,
        0 <= v,
        bits_hold(b, s, e, v),
    ensures
        bits_val(b, s, e) == v % (pow2((e - s) as nat) as int),
    decreases e - s,
{
    lemma2_to64();
    if e == s {
        assert(v % 1 == 0);
    } else {
        let n = (e - s) as nat;
        assert forall|j: int| s <= j < e - 1 implies #[trigger] bit_at(b, j) == nth_bit(
            v / 2,
            e - 1 - 1 - j,
        ) by {
            assert(bit_at(b, j) == nth_bit(v, e - 1 - j));
            lemma_pow2_unfold((e - 1 - j) as nat);
            lemma_pow2_pos((e - 2 - j) as nat);
            lemma_div_denominator(v, 2, pow2((e - 2 - j) as nat) as int);
            assert(((e - 1 - j) as nat) == (((e - 2 - j) as nat) + 1) as nat);
        }
        lemma_div_pos_is_pos(v, 2);
        lemma_bits_hold_val(b, s, e - 1, v / 2);
        assert(bit_at(b, e - 1) == nth_bit(v, 0));
        assert(v / 1 == v);
        lemma_pow2_unfold(n);
        lemma_pow2_pos((n - 1) as nat);
        lemma_mod_breakdown(v, 2, pow2((n - 1) as nat) as int);
        let bv = bits_val(b, s, e - 1);
        assert(bv == (v / 2) % (pow2((n - 1) as nat) as int));
        assert(nth_bit(v, 0) == (v % 2 == 1));
        assert(v % (2 * (pow2((n - 1) as nat) as int)) == 2 * ((v / 2) % (pow2((n - 1) as nat) as int)) + v % 2);
        assert(bits_val(b, s, e) == 2 * bits_val(b, s, e - 1) + (if bit_at(b, e - 1) { 1nat } else { 0nat }));
        assert(((e - 1 - s) as nat) == (n - 1) as nat);
        assert(pow2(n) as int == 2 * (pow2((n - 1) as nat) as int));
    }
}

/// Bits that hold a value keep holding it while only other bits change.
pub proof fn lemma_bits_hold_kept(b1: Seq<u8>, b2: Seq<u8>, s: int, e: int, v: int, s2: int, e2: int)
    requires
        bits_hold(b1, s, e, v),
        same_outside(b1, b2, s2, e2),
        0 <= s,
        e <= 8 * b1.len(),
        e <= s2 || e2 <= s,
    ensures
        bits_hold(b2, s, e, v),
{
    assert forall|j: int| s <= j < e implies #[trigger] bit_at(b2, j) == nth_bit(v, e - 1 - j) by {
        assert(bit_at(b1, j) == nth_bit(v, e - 1 - j));
    }
}

proof fn lemma_same_outside_trans(b1: Seq<u8>, b2: Seq<u8>, b3: Seq<u8>, s: int, i: int, e: int)
    requires
        same_outside(b1, b2, i, e),
        same_outside(b2, b3, i - 1, i),
        s <= i - 1,
        i <= e,
    ensures
        same_outside(b1, b3, i - 1, e),
{
    assert forall|j: int| 0 <= j < 8 * b1.len() && !(i - 1 <= j < e) implies #[trigger] bit_at(b3, j)
        == bit_at(b1, j) by {
        assert(bit_at(b3, j) == bit_at(b2, j));
    }
}

/// Reads the bits `[start, end)` of `bytes` as a big-endian unsigned value.
pub fn read_bits(bytes: &[u8], start: usize, end: usize) -> (r: u64)
    requires
        start <= end,
        end - start <= 64,
        end <= 8 * bytes@.len(),
    ensures
        r as nat == bits_val(bytes@, start as int, end as int),
{
    let mut acc: u64 = 0;
    let mut i: usize = start;
    while i < end
        invariant
            start <= i <= end,
            end - start <= 64,
            end <= 8 * bytes@.len(),
            acc as nat == bits_val(bytes@, start as int, i as int),
        decreases end - i,
    {
        let byte = bytes[i / 8];
        let shift: u8 = (7 - i % 8) as u8;
        let bit: u64 = ((byte >> shift) & 1u8) as u64;
        proof {
            assert(((byte >> shift) & 1u8) <= 1u8) by (bit_vector);
            assert(bit_at(bytes@, i as int) == (((byte >> shift) & 1u8) == 1u8));
            lemma_bits_val_bound(bytes@, start as int, (i + 1) as int);
            assert(pow2(64) == 0x1_0000_0000_0000_0000) by { lemma2_to64_rest(); }
            if i + 1 - start < 64 {
                lemma_pow2_strictly_increases((i + 1 - start) as nat, 64);
            }
        }
        acc = acc * 2 + bit;
        i = i + 1;
    }
    acc
}

proof fn lemma_set_bit_in_byte(x: u8, y: u8, k: u8, bit: bool)
    requires
        k < 8,
        y == (if bit { x | (1u8 << k) } else { x & !(1u8 << k) }),
    ensures
        ((y >> k) & 1u8 == 1u8) == bit,
        forall|m: u8| m < 8 && m != k ==> #[trigger] ((y >> m) & 1u8) == ((x >> m) & 1u8),
{
    if bit {
        assert(y == x | (1u8 << k) ==> ((y >> k) & 1u8 == 1u8)) by (bit_vector)
            requires
                k < 8,
        ;
        assert(forall|m: u8|
            m < 8 && m != k && y == x | (1u8 << k) ==> #[trigger] ((y >> m) & 1u8) == ((x >> m)
                & 1u8)) by (bit_vector)
            requires
                k < 8,
        ;
    } else {
        assert(y == x & !(1u8 << k) ==> ((y >> k) & 1u8 == 0u8)) by (bit_vector)
            requires
                k < 8,
        ;
        assert(forall|m: u8|
            m < 8 && m != k && y == x & !(1u8 << k) ==> #[trigger] ((y >> m) & 1u8) == ((x >> m)
                & 1u8)) by (bit_vector)
            requires
                k < 8,
        ;
    }
}

/// Sets the bit at MSB0 position `i` of `bytes` to `bit`.
fn set_bit(bytes: &mut Vec<u8>, i: usize, bit: bool)
    requires
        i < 8 * old(bytes)@.len(),
    ensures
        bit_at(final(bytes)@, i as int) == bit,
        same_outside(old(bytes)@, final(bytes)@, i as int, i as int + 1),
{
    let k: u8 = (7 - i % 8) as u8;
    let x = bytes[i / 8];
    let y: u8 = if bit {
        x | (1u8 << k)
    } else {
        x & !(1u8 << k)
    };
    proof {
        lemma_set_bit_in_byte(x, y, k, bit);
    }
    bytes.set(i / 8, y);
    proof {
        let ob = old(bytes)@;
        let nb = bytes@;
        assert forall|j: int|
            0 <= j < 8 * ob.len() && !(i <= j < i + 1) implies #[trigger] bit_at(nb, j) == bit_at(
            ob,
            j,
        ) by {
            if j / 8 != i / 8 {
                assert(nb[j / 8] == ob[j / 8]);
            } else {
                assert((7 - j % 8) as u8 != k);
            }
        }
    }
}

/// Writes the low `end - start` bits of `v` into the bits `[start, end)` of
/// `bytes`, most significant first; every other bit is kept.
pub fn write_bits(bytes: &mut Vec<u8>, start: usize, end: usize, v: u64)
    requires
        start <= end,
        end <= 8 * old(bytes)@.len(),
    ensures
        bits_hold(final(bytes)@, start as int, end as int, v as int),
        same_outside(old(bytes)@, final(bytes)@, start as int, end as int),
{
    let mut cur: u64 = v;
    let mut i: usize = end;
    proof {
        lemma2_to64();
        assert(v as int / 1 == v as int);
    }
    while i > start
        invariant
            start <= i <= end,
            end <= 8 * old(bytes)@.len(),
            cur as int == v as int / pow2((end - i) as nat) as int,
            bits_hold(bytes@, i as int, end as int, v as int),
            same_outside(old(bytes)@, bytes@, i as int, end as int),
        decreases i,
    {
        i = i - 1;
        let bit = cur % 2 == 1;
        let ghost before = bytes@;
        set_bit(bytes, i, bit);
        proof {
            lemma_same_outside_trans(old(bytes)@, before, bytes@, start as int, (i + 1) as int, end as int);
            assert forall|j: int| i <= j < end implies #[trigger] bit_at(bytes@, j) == nth_bit(
                v as int,
                end - 1 - j,
            ) by {
                if j > i {
                    assert(bit_at(before, j) == nth_bit(v as int, end - 1 - j));
                }
            }
            lemma_pow2_unfold((end - i) as nat);
            lemma_pow2_pos((end - i - 1) as nat);
            lemma_div_denominator(v as int, pow2((end - i - 1) as nat) as int, 2);
        }
        cur = cur / 2;
    }
}

} // verus!
