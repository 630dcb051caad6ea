//! Unsigned LEB128, the variable-length integers of WebAssembly headers.

use vstd::prelude::*;

verus! {

/// The unsigned LEB128 encoding of a number: seven bits to a byte, the low
/// bits first, and the high bit of a byte set where more bytes follow.
pub open spec fn uleb128(n: nat) -> Seq<u8>
    decreases n,
{
    if n < 128 {
        seq![n as u8]
    } else {
        seq![(n % 128 + 128) as u8] + uleb128(n / 128)
    }
}

/// The number that a sequence of bytes encodes, read as unsigned LEB128
/// to its last byte.
pub open spec fn uleb128_value(bytes: Seq<u8>) -> nat
    decreases bytes.len(),
{
    if bytes.len() == 0 {
        0
    } else {
        (bytes[0] % 128) as nat + 128 * uleb128_value(bytes.drop_first())
    }
}

/// Appends the unsigned LEB128 encoding of `val` by a call of
/// `leb128::write::unsigned`. Trusted: that function writes the low seven
/// bits of the value, with the high bit set where the rest is not zero,
/// and goes on with the rest; into a `Vec` no write fails.
#[verifier::external_body]
pub(crate) fn write_unsigned(out: &mut Vec<u8>, val: u64)
    ensures
        final(out)@ == old(out)@ + uleb128(val as nat),
{
    let _ = leb128::write::unsigned(out, val);
}

/// The encoding of a number below `128^k` has at most `k` bytes.
proof fn lemma_uleb128_len(n: nat, k: nat)
    requires
        k >= 1,
        n < pow128(k),
    ensures
        1 <= uleb128(n).len() <= k,
    decreases n,
{
    if n >= 128 {
        assert(k >= 2) by {
            if k == 1 {
                assert(pow128(1) == 128) by {
                    reveal_with_fuel(pow128, 2);
                }
            }
        }
        assert(pow128(k) == 128 * pow128((k - 1) as nat));
        lemma_uleb128_len(n / 128, (k - 1) as nat);
    }
}

/// `128` to the power `k`.
pub open spec fn pow128(k: nat) -> nat
    decreases k,
{
    if k == 0 {
        1
    } else {
        128 * pow128((k - 1) as nat)
    }
}

/// The encoding of a 64-bit number has at most ten bytes.
pub(crate) proof fn lemma_uleb128_len_u64(val: u64)
    ensures
        1 <= uleb128(val as nat).len() <= 10,
{
    assert(pow128(10) == 0x40_0000_0000_0000_0000) by {
        reveal_with_fuel(pow128, 11);
    }
    lemma_uleb128_len(val as nat, 10);
}

/// The encoding is canonical: it ends where the continuation bit is
/// clear, which is at its last byte and nowhere before; it is as short as
/// can be, so that its last byte is zero only for the number zero; and it
/// encodes the number.
pub proof fn law_uleb128_canonical(n: nat)
    ensures
        uleb128(n).len() >= 1,
        uleb128(n).last() < 128,
        forall|i: int| 0 <= i < uleb128(n).len() - 1 ==> #[trigger] uleb128(n)[i] >= 128,
        n > 0 ==> uleb128(n).last() != 0,
        uleb128_value(uleb128(n)) == n,
    decreases n,
{
    let bytes = uleb128(n);
    if n >= 128 {
        let rest = uleb128(n / 128);
        law_uleb128_canonical(n / 128);
        assert(bytes.drop_first() =~= rest);
        assert(bytes.last() == rest.last());
        assert forall|i: int| 0 <= i < bytes.len() - 1 implies #[trigger] bytes[i] >= 128 by {
            if i > 0 {
                assert(bytes[i] == rest[i - 1]);
            }
        }
        assert(bytes[0] % 128 == n % 128);
        assert(uleb128_value(bytes) == (bytes[0] % 128) as nat + 128 * uleb128_value(rest));
    } else {
        assert(bytes.drop_first() =~= Seq::<u8>::empty());
        assert(uleb128_value(bytes.drop_first()) == 0);
        assert(uleb128_value(bytes) == (bytes[0] % 128) as nat + 128 * uleb128_value(
            bytes.drop_first(),
        ));
    }
}

} // verus!
