//! Little-endian item data and bit-field extraction for HID reports.
use vstd::prelude::*;
use vstd::arithmetic::power2::pow2;
use vstd::arithmetic::power2::lemma_pow2_unfold;
use vstd::arithmetic::power2::lemma_pow2_pos;
use vstd::arithmetic::power2::lemma2_to64;
use vstd::arithmetic::power2::lemma2_to64_rest;

verus! {

/// Unsigned little-endian value of a byte sequence.
pub open spec fn le_value(data: Seq<u8>) -> nat
    decreases data.len(),
{
    if data.len() == 0 {
        0
    } else {
        data[0] as nat + 256 * le_value(data.drop_first())
    }
}

/// 256 raised to `n`.
pub open spec fn pow256(n: nat) -> nat
    decreases n,
{
    if n == 0 {
        1
    } else {
        256 * pow256((n - 1) as nat)
    }
}

/// A little-endian value of `n` bytes is below 256^n.
pub proof fn lemma_le_value_bound(data: Seq<u8>)
    ensures
        le_value(data) < pow256(data.len()),
    decreases data.len(),
{
    if data.len() > 0 {
        lemma_le_value_bound(data.drop_first());
    }
}

proof fn lemma_pow256_values()
    ensures
        pow256(1) == 0x100,
        pow256(2) == 0x1_0000,
        pow256(3) == 0x100_0000,
        pow256(4) == 0x1_0000_0000,
{
    reveal_with_fuel(pow256, 5);
}

/// Item data read as an unsigned little-endian number.
pub open spec fn spec_unsigned_value(data: Seq<u8>) -> u32 {
    le_value(data) as u32
}

/// Item data read as a two's-complement little-endian number of its own width
/// (one, two or four bytes; three bytes read as a non-negative number).
pub open spec fn spec_signed_value(data: Seq<u8>) -> i32 {
    let v = le_value(data);
    if data.len() == 0 {
        0
    } else if data.len() == 1 {
        if v >= 0x80 { (v - 0x100) as i32 } else { v as i32 }
    } else if data.len() == 2 {
        if v >= 0x8000 { (v - 0x1_0000) as i32 } else { v as i32 }
    } else {
        if v >= 0x8000_0000 { (v - 0x1_0000_0000) as i32 } else { v as i32 }
    }
}

/// Reads item data (at most four bytes) as an unsigned little-endian number.
pub fn unsigned_value(data: &[u8]) -> (value: u32)
    requires
        data@.len() <= 4,
    ensures
        value as nat == le_value(data@),
        value == spec_unsigned_value(data@),
{
    proof {
        lemma_le_value_bound(data@);
        lemma_pow256_values();
    }
    let mut acc: u32 = 0;
    let mut index: usize = data.len();
    while index > 0
        invariant
            data@.len() <= 4,
            index <= data@.len(),
            acc as nat == le_value(data@.skip(index as int)),
            pow256(4) == 0x1_0000_0000,
            pow256(3) == 0x100_0000,
            pow256(2) == 0x1_0000,
            pow256(1) == 0x100,
        decreases index,
    {
        let ghost rest = data@.skip(index as int);
        let ghost longer = data@.skip(index - 1);
        assert(longer.drop_first() =~= rest);
        proof {
            lemma_le_value_bound(rest);
            lemma_le_value_bound(longer);
        }
        assert(le_value(longer) == data@[index - 1] as nat + 256 * le_value(rest));
        acc = (data[index - 1] as u32) + 256 * acc;
        index = index - 1;
    }
    assert(data@.skip(0) =~= data@);
    acc
}

/// Reads item data (at most four bytes) as a signed little-endian number.
pub fn signed_value(data: &[u8]) -> (value: i32)
    requires
        data@.len() <= 4,
    ensures
        value == spec_signed_value(data@),
{
    let v = unsigned_value(data);
    proof {
        lemma_le_value_bound(data@);
        lemma_pow256_values();
    }
    if data.len() == 0 {
        0
    } else if data.len() == 1 {
        if v >= 0x80 { (v as i32) - 0x100 } else { v as i32 }
    } else if data.len() == 2 {
        if v >= 0x8000 { (v as i32) - 0x1_0000 } else { v as i32 }
    } else {
        reinterpret_i32(v)
    }
}

/// Two's-complement reinterpretation of a 32-bit pattern.
pub open spec fn spec_reinterpret_i32(v: u32) -> i32 {
    if v >= 0x8000_0000 { (v - 0x1_0000_0000) as i32 } else { v as i32 }
}

/// Reinterprets the bits of an unsigned 32-bit value as a signed one.
pub fn reinterpret_i32(v: u32) -> (r: i32)
    ensures
        r == spec_reinterpret_i32(v),
{
    if v < 0x8000_0000 {
        v as i32
    } else {
        ((v - 0x8000_0000) as i32) + i32::MIN
    }
}

/// Bit `k` (counted from bit 0 of byte 0) of a byte sequence.
pub open spec fn bit_at(data: Seq<u8>, k: int) -> bool {
    (data[k / 8] as nat / pow2((k % 8) as nat)) % 2 == 1
}

/// The `size` bits of `data` starting at bit `offset`, least significant first.
pub open spec fn bits_value(data: Seq<u8>, offset: int, size: nat) -> nat
    decreases size,
{
    if size == 0 {
        0
    } else {
        bits_value(data, offset, (size - 1) as nat) + if bit_at(data, offset + size - 1) {
            pow2((size - 1) as nat)
        } else {
            0
        }
    }
}

/// The bit count that a report of `len` bytes is checked against: the byte
/// length taken as 32 bits, times eight, saturated.
pub open spec fn spec_report_bits(len: nat) -> u32 {
    let l = (len % 0x1_0000_0000) as int;
    if l * 8 > u32::MAX { u32::MAX } else { (l * 8) as u32 }
}

/// What reading a bit field of a report gives: nothing when the size is not
/// in 1..=32 or the field does not end inside the report.
#[verifier::opaque]
pub open spec fn spec_read_bits(data: Seq<u8>, bit_offset: u32, bit_size: u32) -> Option<u32> {
    if bit_size == 0 || bit_size > 32 {
        None
    } else if bit_offset + bit_size > u32::MAX {
        None
    } else if bit_offset + bit_size > spec_report_bits(data.len()) {
        None
    } else {
        Some(bits_value(data, bit_offset as int, bit_size as nat) as u32)
    }
}

proof fn lemma_bits_value_bound(data: Seq<u8>, offset: int, size: nat)
    ensures
        bits_value(data, offset, size) < pow2(size),
    decreases size,
{
    lemma_pow2_pos(size);
    if size > 0 {
        lemma_bits_value_bound(data, offset, (size - 1) as nat);
        lemma_pow2_unfold(size);
    }
}

proof fn lemma_byte_bit(byte: u8, s: u8)
    requires
        s < 8,
    ensures
        ((byte >> s) & 1) as nat == (byte as nat / pow2(s as nat)) % 2,
{
    vstd::bits::lemma_u8_shr_is_div(byte, s);
    let q = byte >> s;
    assert(q & 1 == q % 2) by (bit_vector);
}

proof fn lemma_or_shift(v: u32, b: u32, i: u32)
    requires
        i < 32,
        b <= 1,
        (v as nat) < pow2(i as nat),
    ensures
        (v | (b << i)) as nat == v as nat + if b == 1 {
            pow2(i as nat)
        } else {
            0
        },
{
    vstd::bits::lemma_u32_pow2_no_overflow(i as nat);
    vstd::bits::lemma_u32_shl_is_mul(1, i);
    let p = 1u32 << i;
    assert(p as nat == pow2(i as nat));
    assert((v < p && b <= 1 && i < 32 && p == 1u32 << i) ==> (v | (b << i)) == v + (if b == 1 {
        p
    } else {
        0
    })) by (bit_vector);
}

/// Reads `bit_size` bits starting at `bit_offset` (LSB first within each byte).
pub fn read_bits(data: &[u8], bit_offset: u32, bit_size: u32) -> (r: Option<u32>)
    ensures
        r == spec_read_bits(data@, bit_offset, bit_size),
{
    reveal(spec_read_bits);
    if bit_size == 0 || bit_size > 32 {
        return None;
    }
    let end_bit = match bit_offset.checked_add(bit_size) {
        Some(end) => end,
        None => return None,
    };
    let len32 = ((data.len() as u64) % 0x1_0000_0000u64) as u32;
    let total_bits = match len32.checked_mul(8) {
        Some(t) => t,
        None => u32::MAX,
    };
    if end_bit > total_bits {
        return None;
    }
    proof {
        lemma2_to64();
        lemma2_to64_rest();
    }
    let mut value: u32 = 0;
    let mut bit_index: u32 = 0;
    while bit_index < bit_size
        invariant
            1 <= bit_size <= 32,
            bit_index <= bit_size,
            bit_offset + bit_size <= total_bits,
            total_bits as int <= (data@.len() as int) * 8,
            value as nat == bits_value(data@, bit_offset as int, bit_index as nat),
            pow2(32) == 0x1_0000_0000,
        decreases bit_size - bit_index,
    {
        let absolute_bit = bit_offset + bit_index;
        let byte = data[(absolute_bit / 8) as usize];
        let shift = (absolute_bit % 8) as u8;
        let bit = (byte >> shift) & 1;
        proof {
            lemma_byte_bit(byte, shift);
            lemma_bits_value_bound(data@, bit_offset as int, bit_index as nat);
            lemma_or_shift(value, bit as u32, bit_index);
            assert(bit_at(data@, absolute_bit as int) == (bit == 1));
            assert(bit <= 1) by (bit_vector)
                requires bit == (byte >> shift) & 1;
        }
        let ghost old_value = value;
        let ghost old_index = bit_index;
        value = value | ((bit as u32) << bit_index);
        bit_index = bit_index + 1;
        assert(bits_value(data@, bit_offset as int, bit_index as nat) == bits_value(
            data@,
            bit_offset as int,
            old_index as nat,
        ) + if bit_at(data@, bit_offset + old_index) {
            pow2(old_index as nat)
        } else {
            0
        });
    }
    proof {
        lemma_bits_value_bound(data@, bit_offset as int, bit_size as nat);
    }
    Some(value)
}

/// The low `bits` bits of `value` read as a two's-complement number; a width
/// of 0 or of 32 and more reinterprets the whole 32-bit pattern.
pub open spec fn spec_sign_extend(value: u32, bits: u32) -> i32 {
    if bits == 0 || bits >= 32 {
        spec_reinterpret_i32(value)
    } else {
        let m = value as nat % pow2(bits as nat);
        if m >= pow2((bits - 1) as nat) {
            (m - pow2(bits as nat)) as i32
        } else {
            m as i32
        }
    }
}

/// Sign-extends the low `bit_size` bits of `value`.
pub fn sign_extend(value: u32, bit_size: u32) -> (r: i32)
    ensures
        r == spec_sign_extend(value, bit_size),
{
    reveal(spec_sign_extend);
    if bit_size == 0 || bit_size >= 32 {
        reinterpret_i32(value)
    } else {
        proof {
            lemma_pow2_unfold(bit_size as nat);
            lemma_pow2_pos((bit_size - 1) as nat);
            lemma2_to64();
            vstd::arithmetic::power2::lemma_pow2_strictly_increases(bit_size as nat, 32);
            vstd::arithmetic::power2::lemma_pow2_strictly_increases((bit_size - 1) as nat, 32);
            vstd::bits::lemma_u64_shl_is_mul(1, bit_size as u64);
            vstd::bits::lemma_u64_shl_is_mul(1, (bit_size - 1) as u64);
        }
        let modulus: u64 = 1u64 << (bit_size as u64);
        let half: u64 = 1u64 << ((bit_size - 1) as u64);
        let m = (value as u64) % modulus;
        if m >= half {
            ((m as i64) - (modulus as i64)) as i32
        } else {
            m as i32
        }
    }
}

} // verus!
