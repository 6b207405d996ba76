//! The byte-level encodings of the wire format, as mathematics.
//!
//! Integers are little-endian. A parser reads from the front of a byte string and says
//! either what it read and how many bytes that took, or why it could not.
use vstd::prelude::*;

verus! {

/// Why a byte string could not be decoded.
#[derive(Clone, Copy, Debug, PartialEq, Eq, Structural)]
pub enum DecodeError {
    /// The bytes ran out in the middle of a field.
    InputTooShort,
    /// A tag byte has a value that the format does not define.
    InvalidValue,
}

/// The two bytes of `x`, least significant first.
pub open spec fn u16_le(x: u16) -> Seq<u8> {
    seq![(x % 256) as u8, (x / 256) as u8]
}

/// The four bytes of `x`, least significant first.
pub open spec fn u32_le(x: u32) -> Seq<u8> {
    let q1 = x / 256;
    let q2 = q1 / 256;
    let q3 = q2 / 256;
    seq![(x % 256) as u8, (q1 % 256) as u8, (q2 % 256) as u8, q3 as u8]
}

/// The eight bytes of `x`, least significant first.
pub open spec fn u64_le(x: u64) -> Seq<u8> {
    let q1 = x / 256;
    let q2 = q1 / 256;
    let q3 = q2 / 256;
    let q4 = q3 / 256;
    let q5 = q4 / 256;
    let q6 = q5 / 256;
    let q7 = q6 / 256;
    seq![
        (x % 256) as u8,
        (q1 % 256) as u8,
        (q2 % 256) as u8,
        (q3 % 256) as u8,
        (q4 % 256) as u8,
        (q5 % 256) as u8,
        (q6 % 256) as u8,
        q7 as u8,
    ]
}

/// The number whose little-endian bytes are the first two of `s`.
pub open spec fn le_u16(s: Seq<u8>) -> u16
    recommends
        s.len() >= 2,
{
    (s[0] as int + 256 * (s[1] as int)) as u16
}

/// The number whose little-endian bytes are the first four of `s`.
pub open spec fn le_u32(s: Seq<u8>) -> u32
    recommends
        s.len() >= 4,
{
    (s[0] as int + 256 * (s[1] as int) + 65536 * (s[2] as int) + 16777216 * (s[3] as int)) as u32
}

/// The number whose little-endian bytes are the first eight of `s`.
pub open spec fn le_u64(s: Seq<u8>) -> u64
    recommends
        s.len() >= 8,
{
    (s[0] as int + 256 * (s[1] as int) + 65536 * (s[2] as int) + 16777216 * (s[3] as int)
        + 4294967296 * (s[4] as int) + 1099511627776 * (s[5] as int) + 281474976710656 * (
    s[6] as int) + 72057594037927936 * (s[7] as int)) as u64
}

/// Reading back the bytes of a 16-bit number gives the number.
pub proof fn lemma_u16_round_trip(x: u16)
    ensures
        u16_le(x).len() == 2,
        le_u16(u16_le(x)) == x,
{
}

/// Reading back the bytes of a 32-bit number gives the number.
pub proof fn lemma_u32_round_trip(x: u32)
    ensures
        u32_le(x).len() == 4,
        le_u32(u32_le(x)) == x,
{
    let q1 = x / 256;
    let q2 = q1 / 256;
    let q3 = q2 / 256;
    assert(x == x % 256 + 256 * q1);
    assert(q1 == q1 % 256 + 256 * q2);
    assert(q2 == q2 % 256 + 256 * q3);
    assert(q3 < 256);
}

/// Reading back the bytes of a 64-bit number gives the number.
pub proof fn lemma_u64_round_trip(x: u64)
    ensures
        u64_le(x).len() == 8,
        le_u64(u64_le(x)) == x,
{
    let q1 = x / 256;
    let q2 = q1 / 256;
    let q3 = q2 / 256;
    let q4 = q3 / 256;
    let q5 = q4 / 256;
    let q6 = q5 / 256;
    let q7 = q6 / 256;
    assert(x == x % 256 + 256 * q1);
    assert(q1 == q1 % 256 + 256 * q2);
    assert(q2 == q2 % 256 + 256 * q3);
    assert(q3 == q3 % 256 + 256 * q4);
    assert(q4 == q4 % 256 + 256 * q5);
    assert(q5 == q5 % 256 + 256 * q6);
    assert(q6 == q6 % 256 + 256 * q7);
    assert(q7 < 256);
    let b = u64_le(x);
    assert(b[0] == x % 256 && b[1] == q1 % 256 && b[2] == q2 % 256 && b[3] == q3 % 256);
    assert(b[4] == q4 % 256 && b[5] == q5 % 256 && b[6] == q6 % 256 && b[7] == q7);
}

/// The variable-length encoding of `x`: one byte below `0xFD`, else a marker byte and the
/// number in two, four or eight bytes, whichever is the shortest that holds it.
pub open spec fn var_uint(x: u64) -> Seq<u8> {
    if x < 0xFD {
        seq![x as u8]
    } else if x <= 0xFFFF {
        seq![0xFDu8] + u16_le(x as u16)
    } else if x <= 0xFFFF_FFFF {
        seq![0xFEu8] + u32_le(x as u32)
    } else {
        seq![0xFFu8] + u64_le(x)
    }
}

/// The number of bytes that a variable-length integer takes when its first byte is `marker`.
pub open spec fn var_uint_width(marker: u8) -> int {
    if marker < 0xFD {
        1
    } else if marker == 0xFD {
        3
    } else if marker == 0xFE {
        5
    } else {
        9
    }
}

/// Reads a variable-length integer from the front of `s`. A number written with more bytes
/// than it needs is read all the same.
pub open spec fn parse_var_uint(s: Seq<u8>) -> Result<(u64, int), DecodeError> {
    if s.len() < 1 || s.len() < var_uint_width(s[0]) {
        Err(DecodeError::InputTooShort)
    } else if s[0] < 0xFD {
        Ok((s[0] as u64, 1))
    } else if s[0] == 0xFD {
        Ok((le_u16(s.skip(1)) as u64, 3))
    } else if s[0] == 0xFE {
        Ok((le_u32(s.skip(1)) as u64, 5))
    } else {
        Ok((le_u64(s.skip(1)), 9))
    }
}

/// A variable-length integer followed by anything reads back as itself.
pub proof fn lemma_var_uint_round_trip(x: u64, rest: Seq<u8>)
    ensures
        parse_var_uint(var_uint(x) + rest) == Ok::<(u64, int), DecodeError>(
            (x, var_uint(x).len() as int),
        ),
{
    let s = var_uint(x) + rest;
    if x < 0xFD {
        assert(s[0] == x as u8);
    } else if x <= 0xFFFF {
        lemma_u16_round_trip(x as u16);
        assert(s[0] == 0xFDu8);
        assert(s.skip(1)[0] == u16_le(x as u16)[0]);
        assert(s.skip(1)[1] == u16_le(x as u16)[1]);
    } else if x <= 0xFFFF_FFFF {
        lemma_u32_round_trip(x as u32);
        assert(s[0] == 0xFEu8);
        assert(s.skip(1)[0] == u32_le(x as u32)[0]);
        assert(s.skip(1)[1] == u32_le(x as u32)[1]);
        assert(s.skip(1)[2] == u32_le(x as u32)[2]);
        assert(s.skip(1)[3] == u32_le(x as u32)[3]);
    } else {
        lemma_u64_round_trip(x);
        assert(s[0] == 0xFFu8);
        assert(s.skip(1)[0] == u64_le(x)[0]);
        assert(s.skip(1)[1] == u64_le(x)[1]);
        assert(s.skip(1)[2] == u64_le(x)[2]);
        assert(s.skip(1)[3] == u64_le(x)[3]);
        assert(s.skip(1)[4] == u64_le(x)[4]);
        assert(s.skip(1)[5] == u64_le(x)[5]);
        assert(s.skip(1)[6] == u64_le(x)[6]);
        assert(s.skip(1)[7] == u64_le(x)[7]);
    }
}

/// A byte string with a length prefix: the length as a variable-length integer, then the
/// bytes.
pub open spec fn var_bytes(bytes: Seq<u8>) -> Seq<u8>
    recommends
        bytes.len() <= u64::MAX,
{
    var_uint(bytes.len() as u64) + bytes
}

/// Reads a length-prefixed byte string from the front of `s`.
pub open spec fn parse_var_bytes(s: Seq<u8>) -> Result<(Seq<u8>, int), DecodeError> {
    match parse_var_uint(s) {
        Err(e) => Err(e),
        Ok((len, n)) => if s.len() - n < len {
            Err(DecodeError::InputTooShort)
        } else {
            Ok((s.subrange(n, n + len), n + len))
        },
    }
}

/// A length-prefixed byte string followed by anything reads back as itself.
pub proof fn lemma_var_bytes_round_trip(bytes: Seq<u8>, rest: Seq<u8>)
    requires
        bytes.len() <= u64::MAX,
    ensures
        parse_var_bytes(var_bytes(bytes) + rest) == Ok::<(Seq<u8>, int), DecodeError>(
            (bytes, var_bytes(bytes).len() as int),
        ),
{
    let prefix = var_uint(bytes.len() as u64);
    let s = var_bytes(bytes) + rest;
    assert(s =~= prefix + (bytes + rest));
    lemma_var_uint_round_trip(bytes.len() as u64, bytes + rest);
    let n = prefix.len() as int;
    assert(s.subrange(n, n + bytes.len()) =~= bytes);
}

/// What a parser owes on the first `m` bytes of a byte string on which it gave `whole`:
/// the same result where those bytes hold all that it read, and `InputTooShort` where they
/// do not. Nothing is said where `whole` is an error.
pub open spec fn prefix_outcome<T>(
    whole: Result<(T, int), DecodeError>,
    m: int,
    part: Result<(T, int), DecodeError>,
) -> bool {
    match whole {
        Ok((_, n)) => if m >= n {
            part == whole
        } else {
            part == Err::<(T, int), DecodeError>(DecodeError::InputTooShort)
        },
        Err(_) => true,
    }
}

/// Cutting a byte string short leaves a variable-length integer readable, or too short.
pub proof fn lemma_var_uint_prefix(s: Seq<u8>, m: int)
    requires
        0 <= m <= s.len(),
    ensures
        prefix_outcome(parse_var_uint(s), m, parse_var_uint(s.take(m))),
        parse_var_uint(s) matches Ok((_, n)) ==> 1 <= n <= s.len(),
{
    if m >= 1 {
        assert(s.take(m)[0] == s[0]);
        if parse_var_uint(s) is Ok && m >= var_uint_width(s[0]) {
            if s[0] >= 0xFD {
                assert(s.take(m).skip(1)[0] == s.skip(1)[0]);
                assert(s.take(m).skip(1)[1] == s.skip(1)[1]);
            }
            if s[0] >= 0xFE {
                assert(s.take(m).skip(1)[2] == s.skip(1)[2]);
                assert(s.take(m).skip(1)[3] == s.skip(1)[3]);
            }
            if s[0] == 0xFF {
                assert(s.take(m).skip(1)[4] == s.skip(1)[4]);
                assert(s.take(m).skip(1)[5] == s.skip(1)[5]);
                assert(s.take(m).skip(1)[6] == s.skip(1)[6]);
                assert(s.take(m).skip(1)[7] == s.skip(1)[7]);
            }
        }
    }
}

/// Cutting a byte string short leaves a length-prefixed byte string readable, or too short.
pub proof fn lemma_var_bytes_prefix(s: Seq<u8>, m: int)
    requires
        0 <= m <= s.len(),
    ensures
        prefix_outcome(parse_var_bytes(s), m, parse_var_bytes(s.take(m))),
        parse_var_bytes(s) matches Ok((_, n)) ==> 1 <= n <= s.len(),
{
    lemma_var_uint_prefix(s, m);
    if let Ok((bytes, total)) = parse_var_bytes(s) {
        let (len, n) = parse_var_uint(s)->Ok_0;
        if m >= total {
            assert(s.take(m).subrange(n, n + len) =~= s.subrange(n, n + len));
        }
    }
}

/// Byte strings laid end to end.
pub open spec fn concat(items: Seq<Seq<u8>>) -> Seq<u8>
    decreases items.len(),
{
    if items.len() == 0 {
        Seq::empty()
    } else {
        concat(items.drop_last()) + items.last()
    }
}

/// Whether every item is `width` bytes long.
pub open spec fn all_of_width(items: Seq<Seq<u8>>, width: int) -> bool {
    forall|i: int| 0 <= i < items.len() ==> (#[trigger] items[i]).len() == width
}

/// The first `n` consecutive pieces of `width` bytes of `s`.
pub open spec fn chunks(s: Seq<u8>, width: int, n: int) -> Seq<Seq<u8>> {
    Seq::new(n as nat, |i: int| s.subrange(i * width, i * width + width))
}

/// Reads `n` items of `width` bytes each from the front of `s`.
pub open spec fn parse_items(s: Seq<u8>, width: int, n: int) -> Result<
    (Seq<Seq<u8>>, int),
    DecodeError,
> {
    if s.len() < n * width {
        Err(DecodeError::InputTooShort)
    } else {
        Ok((chunks(s, width, n), n * width))
    }
}

/// A list of items of one width: their number as a variable-length integer, then the items.
pub open spec fn counted(items: Seq<Seq<u8>>) -> Seq<u8>
    recommends
        items.len() <= u64::MAX,
{
    var_uint(items.len() as u64) + concat(items)
}

/// Reads a counted list of items of `width` bytes each from the front of `s`.
pub open spec fn parse_counted(s: Seq<u8>, width: int) -> Result<(Seq<Seq<u8>>, int), DecodeError> {
    match parse_var_uint(s) {
        Err(e) => Err(e),
        Ok((n, c)) => match parse_items(s.skip(c), width, n as int) {
            Err(e) => Err(e),
            Ok((items, len)) => Ok((items, c + len)),
        },
    }
}

/// Items of one width laid end to end take that width each, and cut back into themselves.
pub proof fn lemma_concat_chunks(items: Seq<Seq<u8>>, width: int, rest: Seq<u8>)
    requires
        width >= 0,
        all_of_width(items, width),
    ensures
        concat(items).len() == items.len() * width,
        chunks(concat(items) + rest, width, items.len() as int) == items,
    decreases items.len(),
{
    let n = items.len() as int;
    if n == 0 {
        assert(chunks(concat(items) + rest, width, 0) =~= items);
        assert(n * width == 0) by (nonlinear_arith)
            requires
                n == 0,
        ;
    } else {
        let front = items.drop_last();
        lemma_concat_chunks(front, width, items.last() + rest);
        assert((n - 1) * width + width == n * width) by (nonlinear_arith);
        let whole = concat(items) + rest;
        assert(whole =~= concat(front) + (items.last() + rest));
        let got = chunks(whole, width, n);
        assert forall|i: int| 0 <= i < n implies got[i] == items[i] by {
            if i < n - 1 {
                assert(chunks(whole, width, n - 1)[i] == front[i]);
            } else {
                assert(whole.subrange(i * width, i * width + width) =~= items.last());
            }
        }
        assert(got =~= items);
    }
}

/// A counted list followed by anything reads back as itself.
pub proof fn lemma_counted_round_trip(items: Seq<Seq<u8>>, width: int, rest: Seq<u8>)
    requires
        width >= 0,
        all_of_width(items, width),
        items.len() <= u64::MAX,
    ensures
        parse_counted(counted(items) + rest, width) == Ok::<(Seq<Seq<u8>>, int), DecodeError>(
            (items, counted(items).len() as int),
        ),
{
    let prefix = var_uint(items.len() as u64);
    let s = counted(items) + rest;
    assert(s =~= prefix + (concat(items) + rest));
    lemma_var_uint_round_trip(items.len() as u64, concat(items) + rest);
    assert(s.skip(prefix.len() as int) =~= concat(items) + rest);
    lemma_concat_chunks(items, width, rest);
}

/// Cutting a byte string short leaves a run of items readable, or too short.
pub proof fn lemma_items_prefix(s: Seq<u8>, width: int, n: int, m: int)
    requires
        0 <= m <= s.len(),
        width >= 0,
        n >= 0,
    ensures
        prefix_outcome(parse_items(s, width, n), m, parse_items(s.take(m), width, n)),
        parse_items(s, width, n) matches Ok((_, len)) ==> 0 <= len <= s.len(),
{
    assert(n * width >= 0) by (nonlinear_arith)
        requires
            n >= 0,
            width >= 0,
    ;
    if parse_items(s, width, n) is Ok && m >= n * width {
        let a = chunks(s, width, n);
        let b = chunks(s.take(m), width, n);
        assert forall|i: int| 0 <= i < n implies a[i] == b[i] by {
            assert(0 <= i * width && i * width + width <= n * width) by (nonlinear_arith)
                requires
                    0 <= i < n,
                    width >= 0,
            ;
            assert(s.subrange(i * width, i * width + width) =~= s.take(m).subrange(
                i * width,
                i * width + width,
            ));
        }
        assert(a =~= b);
    }
}

/// Cutting a byte string short leaves a counted list readable, or too short.
pub proof fn lemma_counted_prefix(s: Seq<u8>, width: int, m: int)
    requires
        0 <= m <= s.len(),
        width >= 0,
    ensures
        prefix_outcome(parse_counted(s, width), m, parse_counted(s.take(m), width)),
        parse_counted(s, width) matches Ok((_, len)) ==> 1 <= len <= s.len(),
{
    lemma_var_uint_prefix(s, m);
    if let Ok((n, c)) = parse_var_uint(s) {
        if parse_counted(s, width) is Ok {
            lemma_items_prefix(s.skip(c), width, n as int, 0);
            if m >= c {
                assert(s.take(m).skip(c) =~= s.skip(c).take(m - c));
                lemma_items_prefix(s.skip(c), width, n as int, m - c);
            }
        }
    }
}

} // verus!
