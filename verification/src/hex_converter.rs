//! Lower-case hexadecimal text of a byte string.
use vstd::prelude::*;

verus! {

/// The ASCII character of the hexadecimal digit `nibble`.
pub open spec fn hex_digit(nibble: u8) -> u8
    recommends
        nibble < 16,
{
    if nibble < 10 {
        (48 + nibble) as u8
    } else {
        (87 + nibble) as u8
    }
}

/// Two hexadecimal digits for each byte of `bytes`, the high one first.
pub open spec fn hex_of(bytes: Seq<u8>) -> Seq<u8> {
    Seq::new(
        2 * bytes.len(),
        |i: int|
            if i % 2 == 0 {
                hex_digit(bytes[i / 2] / 16)
            } else {
                hex_digit(bytes[i / 2] % 16)
            },
    )
}

/// Different byte strings have different hexadecimal text.
pub proof fn lemma_hex_injective(a: Seq<u8>, b: Seq<u8>)
    requires
        hex_of(a) == hex_of(b),
    ensures
        a == b,
{
    assert(hex_of(a).len() == 2 * a.len());
    assert(hex_of(b).len() == 2 * b.len());
    assert forall|i: int| 0 <= i < a.len() implies a[i] == b[i] by {
        assert(hex_of(a)[2 * i] == hex_of(b)[2 * i]);
        assert(hex_of(a)[2 * i + 1] == hex_of(b)[2 * i + 1]);
        assert(hex_of(a)[2 * i] == hex_digit(a[i] / 16));
        assert(hex_of(a)[2 * i + 1] == hex_digit(a[i] % 16));
        assert(hex_of(b)[2 * i] == hex_digit(b[i] / 16));
        assert(hex_of(b)[2 * i + 1] == hex_digit(b[i] % 16));
    }
    assert(a =~= b);
}

fn digit(nibble: u8) -> (c: u8)
    requires
        nibble < 16,
    ensures
        c == hex_digit(nibble),
{
    if nibble < 10 {
        48 + nibble
    } else {
        87 + nibble
    }
}

/// Writes `bytes` as lower-case hexadecimal ASCII text.
pub fn byte_slice_to_hex(bytes: &[u8]) -> (text: Vec<u8>)
    ensures
        text@ == hex_of(bytes@),
{
    let mut text: Vec<u8> = Vec::new();
    let mut i: usize = 0;
    while i < bytes.len()
        invariant
            i <= bytes.len(),
            text@ == hex_of(bytes@.take(i as int)),
        decreases bytes.len() - i,
    {
        let b: u8 = bytes[i];
        text.push(digit(b / 16));
        text.push(digit(b % 16));
        assert(text@ =~= hex_of(bytes@.take(i + 1)));
        i += 1;
    }
    assert(bytes@.take(bytes.len() as int) =~= bytes@);
    text
}

} // verus!
