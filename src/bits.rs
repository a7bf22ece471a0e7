//! Bit-level facts used by the frame bitmap and the page-table entry format.
use vstd::prelude::*;

verus! {

/// Bit `b` of word `w`.
pub open spec fn bit_of(w: u64, b: u64) -> bool {
    (w >> b) & 1u64 == 1u64
}

pub proof fn lemma_bit_set(w: u64, b: u64, c: u64)
    requires
        b < 64,
        c < 64,
    ensures
        bit_of(w | (1u64 << b), c) == (b == c || bit_of(w, c)),
{
    assert(((w | (1u64 << b)) >> c) & 1u64 == 1u64 <==> (b == c || (w >> c) & 1u64 == 1u64))
        by (bit_vector)
        requires
            b < 64,
            c < 64,
    ;
}

pub proof fn lemma_bit_clear(w: u64, b: u64, c: u64)
    requires
        b < 64,
        c < 64,
    ensures
        bit_of(w & !(1u64 << b), c) == (b != c && bit_of(w, c)),
{
    assert(((w & !(1u64 << b)) >> c) & 1u64 == 1u64 <==> (b != c && (w >> c) & 1u64 == 1u64))
        by (bit_vector)
        requires
            b < 64,
            c < 64,
    ;
}

pub proof fn lemma_bit_test(w: u64, b: u64)
    requires
        b < 64,
    ensures
        (w & (1u64 << b) != 0) == bit_of(w, b),
{
    assert((w & (1u64 << b) != 0) <==> ((w >> b) & 1u64 == 1u64)) by (bit_vector)
        requires
            b < 64,
    ;
}

pub proof fn lemma_zero_word(b: u64)
    requires
        b < 64,
    ensures
        !bit_of(0u64, b),
{
    assert((0u64 >> b) & 1u64 != 1u64) by (bit_vector);
}

pub proof fn lemma_full_word(b: u64)
    requires
        b < 64,
    ensures
        bit_of(0xffff_ffff_ffff_ffffu64, b),
{
    assert((0xffff_ffff_ffff_ffffu64 >> b) & 1u64 == 1u64) by (bit_vector)
        requires
            b < 64,
    ;
}

/// A word whose twelve low bits are clear is a multiple of 4096.
pub proof fn lemma_aligned_mod(a: u64)
    ensures
        (a & 0xfffu64 == 0) == (a % 4096 == 0),
{
    assert((a & 0xfffu64 == 0) == (a % 4096 == 0)) by (bit_vector);
}

pub proof fn lemma_index_bits(x: u64, s: u64)
    requires
        s < 64,
    ensures
        (x >> s) & 0x1ffu64 < 512,
{
    assert((x >> s) & 0x1ffu64 < 512) by (bit_vector);
}

/// An entry built from a page-aligned address and a small flag set gives
/// back the address and the flags.
pub proof fn lemma_entry_fields(a: u64, f: u64)
    requires
        a & 0xfffu64 == 0,
        f < 0x1000,
    ensures
        (a | f) & !0xfffu64 == a,
        (a | f) & 1u64 == f & 1u64,
        (a | f) & 0x80u64 == f & 0x80u64,
        (a | f) >> 12u64 == a >> 12u64,
        a & !0xfffu64 == a,
{
    assert((a | f) & !0xfffu64 == a) by (bit_vector)
        requires
            a & 0xfffu64 == 0,
            f < 0x1000,
    ;
    assert((a | f) & 1u64 == f & 1u64) by (bit_vector)
        requires
            a & 0xfffu64 == 0,
            f < 0x1000,
    ;
    assert((a | f) & 0x80u64 == f & 0x80u64) by (bit_vector)
        requires
            a & 0xfffu64 == 0,
            f < 0x1000,
    ;
    assert((a | f) >> 12u64 == a >> 12u64) by (bit_vector)
        requires
            a & 0xfffu64 == 0,
            f < 0x1000,
    ;
    assert(a & !0xfffu64 == a) by (bit_vector)
        requires
            a & 0xfffu64 == 0,
    ;
}

/// The address of frame `p` is aligned and gives `p` back.
pub proof fn lemma_frame_address(p: u64)
    requires
        p < 0x10_0000_0000_0000,
    ensures
        p * 4096 <= u64::MAX,
        ((p * 4096) as u64) & 0xfffu64 == 0,
        ((p * 4096) as u64) >> 12u64 == p,
{
    vstd::arithmetic::power2::lemma2_to64();
    vstd::bits::lemma_u64_shl_is_mul(p, 12);
    assert((p << 12u64) & 0xfffu64 == 0) by (bit_vector);
    assert((p << 12u64) >> 12u64 == p) by (bit_vector)
        requires
            p < 0x10_0000_0000_0000,
    ;
}

/// Clearing the low twelve bits of an address.
pub proof fn lemma_low_mask(a: u64)
    ensures
        a & !(((1u64 << 12u64) - 1) as u64) == a & !0xfffu64,
        (a & !0xfffu64) & 0xfffu64 == 0,
        (a & !0xfffu64) <= a,
        a - (a & !0xfffu64) < 4096,
{
    assert((1u64 << 12u64) == 4096u64) by (bit_vector);
    assert((a & !0xfffu64) & 0xfffu64 == 0) by (bit_vector);
    assert((a & !0xfffu64) <= a) by (bit_vector);
    assert(vstd::prelude::sub(a, a & !0xfffu64) < 4096) by (bit_vector);
}

} // verus!
