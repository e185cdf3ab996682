use vstd::prelude::*;

verus! {

/// Whether bit `i` of `bits` is set.
pub open spec fn bit64(bits: u64, i: u64) -> bool {
    bits & (1u64 << i) != 0
}

/// `bits` with bit `i` set.
pub fn set_bit64(bits: u64, i: u64) -> (r: u64)
    requires
        i < 64,
    ensures
        forall|q: u64| q < 64 ==> #[trigger] bit64(r, q) == (bit64(bits, q) || q == i),
{
    let r = bits | (1u64 << i);
    proof {
        assert forall|q: u64| q < 64 implies #[trigger] bit64(r, q) == (bit64(bits, q) || q == i) by {
            assert(bit64(bits | (1u64 << i), q) == (bit64(bits, q) || q == i)) by (bit_vector)
                requires
                    i < 64,
                    q < 64,
            ;
        }
    }
    r
}

/// `bits` with bit `i` cleared.
pub fn clear_bit64(bits: u64, i: u64) -> (r: u64)
    requires
        i < 64,
    ensures
        forall|q: u64| q < 64 ==> #[trigger] bit64(r, q) == (bit64(bits, q) && q != i),
{
    let r = bits & !(1u64 << i);
    proof {
        assert forall|q: u64| q < 64 implies #[trigger] bit64(r, q) == (bit64(bits, q) && q != i) by {
            assert(bit64(bits & !(1u64 << i), q) == (bit64(bits, q) && q != i)) by (bit_vector)
                requires
                    i < 64,
                    q < 64,
            ;
        }
    }
    r
}

/// Whether bit `i` of `bits` is set.
pub fn test_bit64(bits: u64, i: u64) -> (r: bool)
    requires
        i < 64,
    ensures
        r == bit64(bits, i),
{
    bits & (1u64 << i) != 0
}

/// The empty bit set has no bits.
pub proof fn lemma_zero64()
    ensures
        forall|q: u64| q < 64 ==> !#[trigger] bit64(0u64, q),
{
    assert forall|q: u64| q < 64 implies !#[trigger] bit64(0u64, q) by {
        assert(!bit64(0u64, q)) by (bit_vector);
    }
}

/// Whether bit `i` of a 16-bit set is set.
pub open spec fn bit16(bits: u16, i: u16) -> bool {
    bits & (1u16 << i) != 0
}

/// `bits` with bit `i` set.
pub fn set_bit16(bits: u16, i: u16) -> (r: u16)
    requires
        i < 16,
    ensures
        r == bits | (1u16 << i),
        forall|q: u16| q < 16 ==> #[trigger] bit16(r, q) == (bit16(bits, q) || q == i),
{
    let r = bits | (1u16 << i);
    proof {
        assert forall|q: u16| q < 16 implies #[trigger] bit16(r, q) == (bit16(bits, q) || q == i) by {
            assert(bit16(bits | (1u16 << i), q) == (bit16(bits, q) || q == i)) by (bit_vector)
                requires
                    i < 16,
                    q < 16,
            ;
        }
    }
    r
}

/// Whether bit `i` of a 16-bit set is set.
pub fn test_bit16(bits: u16, i: u16) -> (r: bool)
    requires
        i < 16,
    ensures
        r == bit16(bits, i),
{
    bits & (1u16 << i) != 0
}

/// The empty 16-bit set has no bits.
pub proof fn lemma_zero16()
    ensures
        forall|q: u16| q < 16 ==> !#[trigger] bit16(0u16, q),
{
    assert forall|q: u16| q < 16 implies !#[trigger] bit16(0u16, q) by {
        assert(!bit16(0u16, q)) by (bit_vector);
    }
}

} // verus!
