//! Byte and text formats used by the ledger: big-endian `u64` words, the
//! UTF-8 bytes of strings, standard padded base64 and lower-case hex.
use vstd::prelude::*;

verus! {

/// Why a text is not standard base64: a byte outside the alphabet (or
/// misplaced padding) at an offset, a length that leaves 1 symbol in the last
/// group, a last symbol whose discarded bits are not zero, or padding that is
/// not canonical.
#[derive(Debug, Clone, Copy, PartialEq, Eq)]
pub enum Base64Failure {
    InvalidByte(usize, u8),
    InvalidLength(usize),
    InvalidLastSymbol(usize, u8),
    InvalidPadding,
}

/// The eight big-endian bytes of `x`, most significant first.
pub open spec fn be_bytes(x: u64) -> Seq<u8> {
    Seq::new(8, |i: int| ((x >> ((56 - 8 * i) as u64)) & 0xff) as u8)
}

/// The number that eight bytes spell in big-endian order: the first byte is
/// the most significant.
pub open spec fn be_word(b: Seq<u8>) -> int {
    (b[0] as int) * 0x100000000000000 + (b[1] as int) * 0x1000000000000 + (b[2] as int)
        * 0x10000000000 + (b[3] as int) * 0x100000000 + (b[4] as int) * 0x1000000 + (b[5] as int)
        * 0x10000 + (b[6] as int) * 0x100 + (b[7] as int)
}

/// The big-endian bytes of `x` are eight bytes that spell `x`.
pub proof fn lemma_be_bytes_spell(x: u64)
    ensures
        be_bytes(x).len() == 8,
        be_word(be_bytes(x)) == x,
{
    let b = be_bytes(x);
    let b0 = ((x >> 56u64) & 0xff) as u8;
    let b1 = ((x >> 48u64) & 0xff) as u8;
    let b2 = ((x >> 40u64) & 0xff) as u8;
    let b3 = ((x >> 32u64) & 0xff) as u8;
    let b4 = ((x >> 24u64) & 0xff) as u8;
    let b5 = ((x >> 16u64) & 0xff) as u8;
    let b6 = ((x >> 8u64) & 0xff) as u8;
    let b7 = ((x >> 0u64) & 0xff) as u8;
    assert(b[0] == b0 && b[1] == b1 && b[2] == b2 && b[3] == b3);
    assert(b[4] == b4 && b[5] == b5 && b[6] == b6 && b[7] == b7);
    assert((b0 as int) * 0x100000000000000 + (b1 as int) * 0x1000000000000 + (b2 as int)
        * 0x10000000000 + (b3 as int) * 0x100000000 + (b4 as int) * 0x1000000 + (b5 as int)
        * 0x10000 + (b6 as int) * 0x100 + (b7 as int) == x) by (bit_vector)
        requires
            b0 == ((x >> 56u64) & 0xff) as u8,
            b1 == ((x >> 48u64) & 0xff) as u8,
            b2 == ((x >> 40u64) & 0xff) as u8,
            b3 == ((x >> 32u64) & 0xff) as u8,
            b4 == ((x >> 24u64) & 0xff) as u8,
            b5 == ((x >> 16u64) & 0xff) as u8,
            b6 == ((x >> 8u64) & 0xff) as u8,
            b7 == ((x >> 0u64) & 0xff) as u8,
    ;
}

/// Distinct numbers have distinct big-endian bytes.
pub proof fn lemma_be_bytes_injective(x: u64, y: u64)
    requires
        be_bytes(x) == be_bytes(y),
    ensures
        x == y,
{
    lemma_be_bytes_spell(x);
    lemma_be_bytes_spell(y);
}

/// Appends the big-endian bytes of `x` to `out`.
pub fn push_be_bytes(out: &mut Vec<u8>, x: u64)
    ensures
        final(out)@ == old(out)@ + be_bytes(x),
{
    let ghost start = out@;
    let mut k: u64 = 0;
    while k < 8
        invariant
            k <= 8,
            out@ == start + be_bytes(x).take(k as int),
        decreases 8 - k,
    {
        let shift: u64 = 56 - 8 * k;
        let byte: u8 = ((x >> shift) & 0xff) as u8;
        out.push(byte);
        proof {
            assert(be_bytes(x)[k as int] == byte);
            assert(be_bytes(x).take(k + 1) =~= be_bytes(x).take(k as int).push(byte));
        }
        k = k + 1;
    }
    assert(be_bytes(x).take(8) =~= be_bytes(x));
}

/// Appends `bytes` to `out`.
pub fn push_bytes(out: &mut Vec<u8>, bytes: &[u8])
    ensures
        final(out)@ == old(out)@ + bytes@,
{
    let ghost start = out@;
    let n = bytes.len();
    let mut i: usize = 0;
    while i < n
        invariant
            i <= n,
            n == bytes@.len(),
            out@ == start + bytes@.take(i as int),
        decreases n - i,
    {
        out.push(bytes[i]);
        assert(bytes@.take(i + 1) =~= bytes@.take(i as int).push(bytes@[i as int]));
        i = i + 1;
    }
    assert(bytes@.take(n as int) =~= bytes@);
}

/// The symbol of the standard base64 alphabet (RFC 4648) for a six-bit value.
pub open spec fn base64_symbol(v: int) -> char {
    if v < 26 {
        (65 + v) as char
    } else if v < 52 {
        (71 + v) as char
    } else if v < 62 {
        (v - 4) as char
    } else if v == 62 {
        '+'
    } else {
        '/'
    }
}

/// Standard base64 with `=` padding: each group of three bytes becomes four
/// symbols, and a last group of one or two bytes is padded to four symbols.
pub open spec fn base64_text(b: Seq<u8>) -> Seq<char>
    decreases b.len(),
{
    if b.len() == 0 {
        seq![]
    } else if b.len() == 1 {
        seq![base64_symbol((b[0] as int) / 4), base64_symbol(((b[0] as int) % 4) * 16), '=', '=']
    } else if b.len() == 2 {
        seq![
            base64_symbol((b[0] as int) / 4),
            base64_symbol(((b[0] as int) % 4) * 16 + (b[1] as int) / 16),
            base64_symbol(((b[1] as int) % 16) * 4),
            '=',
        ]
    } else {
        seq![
            base64_symbol((b[0] as int) / 4),
            base64_symbol(((b[0] as int) % 4) * 16 + (b[1] as int) / 16),
            base64_symbol(((b[1] as int) % 16) * 4 + (b[2] as int) / 64),
            base64_symbol((b[2] as int) % 64),
        ] + base64_text(b.skip(3))
    }
}

/// The value that a base64 text decodes to, where it is the encoding of some
/// byte string.
pub open spec fn base64_value(t: Seq<char>) -> Option<Seq<u8>> {
    if exists|b: Seq<u8>| #[trigger] base64_text(b) == t {
        Some(choose|b: Seq<u8>| #[trigger] base64_text(b) == t)
    } else {
        None
    }
}

/// A lower-case hexadecimal digit for a value below sixteen.
pub open spec fn hex_digit(v: int) -> char {
    if v < 10 {
        (48 + v) as char
    } else {
        (87 + v) as char
    }
}

/// Lower-case hex: two digits per byte, high nibble first.
pub open spec fn hex_text(b: Seq<u8>) -> Seq<char>
    decreases b.len(),
{
    if b.len() == 0 {
        seq![]
    } else {
        seq![hex_digit((b[0] as int) / 16), hex_digit((b[0] as int) % 16)] + hex_text(b.drop_first())
    }
}

proof fn lemma_base64_symbol_injective(v: int, w: int)
    requires
        0 <= v < 64,
        0 <= w < 64,
        base64_symbol(v) == base64_symbol(w),
    ensures
        v == w,
{
}

proof fn lemma_base64_symbol_not_pad(v: int)
    requires
        0 <= v < 64,
    ensures
        base64_symbol(v) != '=',
{
}

/// The length of a base64 text: four symbols per started group of three bytes.
pub proof fn lemma_base64_len(b: Seq<u8>)
    ensures
        base64_text(b).len() == 4 * ((b.len() + 2) / 3),
    decreases b.len(),
{
    if b.len() >= 3 {
        lemma_base64_len(b.skip(3));
    }
}

/// Base64 encoding is injective: a text is the encoding of at most one byte
/// string.
pub proof fn lemma_base64_injective(a: Seq<u8>, b: Seq<u8>)
    requires
        base64_text(a) == base64_text(b),
    ensures
        a == b,
    decreases a.len(),
{
    lemma_base64_len(a);
    lemma_base64_len(b);
    let ta = base64_text(a);
    let tb = base64_text(b);
    if a.len() == 0 {
        assert(b.len() == 0);
        assert(a =~= b);
    } else {
        assert(b.len() > 0);
        // The first symbol fixes the high six bits of the first byte.
        assert(ta[0] == base64_symbol((a[0] as int) / 4));
        assert(tb[0] == base64_symbol((b[0] as int) / 4));
        lemma_base64_symbol_injective((a[0] as int) / 4, (b[0] as int) / 4);
        if a.len() == 1 || b.len() == 1 {
            if a.len() != 1 {
                lemma_base64_symbol_not_pad(((a[1] as int) % 16) * 4 + if a.len() == 2 { 0 } else { (a[2] as int) / 64 });
                assert(ta[2] != '=');
                assert(false);
            }
            if b.len() != 1 {
                lemma_base64_symbol_not_pad(((b[1] as int) % 16) * 4 + if b.len() == 2 { 0 } else { (b[2] as int) / 64 });
                assert(tb[2] != '=');
                assert(false);
            }
            lemma_base64_symbol_injective(((a[0] as int) % 4) * 16, ((b[0] as int) % 4) * 16);
            assert((a[0] as int) == (b[0] as int));
            assert(a =~= b);
        } else {
            assert(ta[1] == base64_symbol(((a[0] as int) % 4) * 16 + (a[1] as int) / 16));
            assert(tb[1] == base64_symbol(((b[0] as int) % 4) * 16 + (b[1] as int) / 16));
            lemma_base64_symbol_injective(((a[0] as int) % 4) * 16 + (a[1] as int) / 16, ((b[0] as int) % 4) * 16 + (b[1] as int) / 16);
            assert((a[0] as int) == (b[0] as int));
            assert((a[1] as int) / 16 == (b[1] as int) / 16);
            if a.len() == 2 || b.len() == 2 {
                if a.len() != 2 {
                    lemma_base64_symbol_not_pad((a[2] as int) % 64);
                    assert(ta[3] != '=');
                    assert(false);
                }
                if b.len() != 2 {
                    lemma_base64_symbol_not_pad((b[2] as int) % 64);
                    assert(tb[3] != '=');
                    assert(false);
                }
                lemma_base64_symbol_injective(((a[1] as int) % 16) * 4, ((b[1] as int) % 16) * 4);
                assert((a[1] as int) == (b[1] as int));
                assert(a =~= b);
            } else {
                assert(ta[2] == base64_symbol(((a[1] as int) % 16) * 4 + (a[2] as int) / 64));
                assert(tb[2] == base64_symbol(((b[1] as int) % 16) * 4 + (b[2] as int) / 64));
                assert(ta[3] == base64_symbol((a[2] as int) % 64));
                assert(tb[3] == base64_symbol((b[2] as int) % 64));
                lemma_base64_symbol_injective(((a[1] as int) % 16) * 4 + (a[2] as int) / 64, ((b[1] as int) % 16) * 4 + (b[2] as int) / 64);
                lemma_base64_symbol_injective((a[2] as int) % 64, (b[2] as int) % 64);
                assert((a[1] as int) == (b[1] as int));
                assert((a[2] as int) == (b[2] as int));
                assert(ta.skip(4) =~= base64_text(a.skip(3)));
                assert(tb.skip(4) =~= base64_text(b.skip(3)));
                lemma_base64_injective(a.skip(3), b.skip(3));
                assert(a =~= b.take(3) + b.skip(3));
                assert(b =~= b.take(3) + b.skip(3));
            }
        }
    }
}

/// Decoding the base64 text of a byte string gives that byte string back.
pub proof fn lemma_base64_roundtrip(b: Seq<u8>)
    ensures
        base64_value(base64_text(b)) == Some(b),
{
    let t = base64_text(b);
    assert(base64_text(b) == t);
    let c = choose|c: Seq<u8>| #[trigger] base64_text(c) == t;
    lemma_base64_injective(c, b);
}

/// A lower-case hexadecimal digit.
pub open spec fn is_lower_hex(c: char) -> bool {
    ('0' <= c <= '9') || ('a' <= c <= 'f')
}

/// The hex text of `b` has two lower-case digits per byte.
pub proof fn lemma_hex_text_shape(b: Seq<u8>)
    ensures
        hex_text(b).len() == 2 * b.len(),
        forall|i: int| 0 <= i < hex_text(b).len() ==> is_lower_hex(#[trigger] hex_text(b)[i]),
    decreases b.len(),
{
    if b.len() > 0 {
        lemma_hex_text_shape(b.drop_first());
        let head = seq![hex_digit((b[0] as int) / 16), hex_digit((b[0] as int) % 16)];
        assert(hex_text(b) == head + hex_text(b.drop_first()));
        assert forall|i: int| 0 <= i < hex_text(b).len() implies is_lower_hex(#[trigger] hex_text(b)[i]) by {
            if i >= 2 {
                assert(hex_text(b)[i] == hex_text(b.drop_first())[i - 2]);
            }
        }
    }
}

} // verus!
