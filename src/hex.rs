use vstd::prelude::*;

verus! {

/// A lowercase hexadecimal digit: `0-9` or `a-f`.
pub open spec fn is_hex_digit(c: u8) -> bool {
    (48 <= c <= 57) || (97 <= c <= 102)
}

/// Value of a lowercase hexadecimal digit.
pub open spec fn hex_digit_value(c: u8) -> int {
    if 48 <= c <= 57 {
        c - 48
    } else {
        c - 87
    }
}

/// The lowercase hexadecimal digit for `n` in `0..16`.
pub open spec fn hex_char(n: int) -> u8 {
    if n < 10 {
        (48 + n) as u8
    } else {
        (87 + n) as u8
    }
}

/// Lowercase hexadecimal text of a byte string, two digits per byte, high nibble first.
pub open spec fn hex_of(b: Seq<u8>) -> Seq<u8> {
    Seq::new(
        2 * b.len(),
        |i: int|
            if i % 2 == 0 {
                hex_char(b[i / 2] as int / 16)
            } else {
                hex_char(b[i / 2] as int % 16)
            },
    )
}

/// Every byte of `s` is a lowercase hexadecimal digit.
pub open spec fn all_hex(s: Seq<u8>) -> bool {
    forall|i: int| 0 <= i < s.len() ==> is_hex_digit(#[trigger] s[i])
}

/// The bytes denoted by a text of even length made of lowercase hexadecimal digits.
pub open spec fn bytes_of_hex(s: Seq<u8>) -> Seq<u8> {
    Seq::new(
        s.len() / 2,
        |i: int| (16 * hex_digit_value(s[2 * i]) + hex_digit_value(s[2 * i + 1])) as u8,
    )
}

pub proof fn lemma_hex_char(n: int)
    requires
        0 <= n < 16,
    ensures
        is_hex_digit(hex_char(n)),
        hex_digit_value(hex_char(n)) == n,
{
}

/// Reading back the text of a byte string gives the byte string.
pub proof fn lemma_hex_round_trip(b: Seq<u8>)
    ensures
        all_hex(hex_of(b)),
        hex_of(b).len() == 2 * b.len(),
        bytes_of_hex(hex_of(b)) == b,
{
    let h = hex_of(b);
    assert forall|i: int| 0 <= i < h.len() implies is_hex_digit(#[trigger] h[i]) by {
        lemma_hex_char(b[i / 2] as int / 16);
        lemma_hex_char(b[i / 2] as int % 16);
    }
    assert forall|i: int| 0 <= i < b.len() implies #[trigger] bytes_of_hex(h)[i] == b[i] by {
        lemma_hex_char(b[i] as int / 16);
        lemma_hex_char(b[i] as int % 16);
        assert(h[2 * i] == hex_char(b[i] as int / 16));
        assert(h[2 * i + 1] == hex_char(b[i] as int % 16));
    }
    assert(bytes_of_hex(h) =~= b);
}

/// Writing out the bytes of a hexadecimal text gives the text.
pub proof fn lemma_hex_parse_round_trip(s: Seq<u8>)
    requires
        all_hex(s),
        s.len() % 2 == 0,
    ensures
        hex_of(bytes_of_hex(s)) == s,
{
    let b = bytes_of_hex(s);
    assert forall|i: int| 0 <= i < s.len() implies #[trigger] hex_of(b)[i] == s[i] by {
        let j = i / 2;
        assert(is_hex_digit(s[2 * j]));
        assert(is_hex_digit(s[2 * j + 1]));
        let v = 16 * hex_digit_value(s[2 * j]) + hex_digit_value(s[2 * j + 1]);
        assert(b[j] as int == v);
        assert(v / 16 == hex_digit_value(s[2 * j]));
        assert(v % 16 == hex_digit_value(s[2 * j + 1]));
    }
    assert(hex_of(b) =~= s);
}

/// Hexadecimal text is ASCII.
pub proof fn lemma_hex_ascii(b: Seq<u8>)
    ensures
        crate::text::all_ascii(hex_of(b)),
        hex_of(b).len() == 2 * b.len(),
{
    assert forall|i: int| 0 <= i < hex_of(b).len() implies #[trigger] hex_of(b)[i] < 128 by {
        lemma_hex_char(b[i / 2] as int / 16);
        lemma_hex_char(b[i / 2] as int % 16);
    }
}

/// The byte that two lowercase hexadecimal digits denote, high digit first.
pub fn hex_to_u8(h0: u8, h1: u8) -> (r: Option<u8>)
    ensures
        r is Some <==> is_hex_digit(h0) && is_hex_digit(h1),
        r is Some ==> r->0 as int == 16 * hex_digit_value(h0) + hex_digit_value(h1),
{
    let n0: u8 = if 48 <= h0 && h0 <= 57 {
        h0 - 48
    } else if 97 <= h0 && h0 <= 102 {
        h0 - 87
    } else {
        return None;
    };
    let n1: u8 = if 48 <= h1 && h1 <= 57 {
        h1 - 48
    } else if 97 <= h1 && h1 <= 102 {
        h1 - 87
    } else {
        return None;
    };
    Some(n0 * 16 + n1)
}

/// The two lowercase hexadecimal digits of a byte, high digit first.
pub fn u8_to_hex(n: u8) -> (r: [u8; 2])
    ensures
        r@ == seq![hex_char(n as int / 16), hex_char(n as int % 16)],
{
    let n0: u8 = n / 16;
    let n1: u8 = n % 16;
    let c0: u8 = if n0 < 10 { n0 + 48 } else { n0 + 87 };
    let c1: u8 = if n1 < 10 { n1 + 48 } else { n1 + 87 };
    let r = [c0, c1];
    assert(r@ =~= seq![hex_char(n as int / 16), hex_char(n as int % 16)]);
    r
}

/// Lowercase hexadecimal text of a byte string.
pub fn slice_to_hex(slice: &[u8]) -> (r: Vec<u8>)
    requires
        slice@.len() * 2 <= usize::MAX,
    ensures
        r@ == hex_of(slice@),
{
    let mut out: Vec<u8> = Vec::with_capacity(slice.len() * 2);
    let mut i: usize = 0;
    while i < slice.len()
        invariant
            i <= slice@.len(),
            out@ =~= hex_of(slice@.subrange(0, i as int)),
        decreases slice@.len() - i,
    {
        let pair = u8_to_hex(slice[i]);
        out.push(pair[0]);
        out.push(pair[1]);
        i = i + 1;
        assert(out@ =~= hex_of(slice@.subrange(0, i as int)));
    }
    assert(slice@.subrange(0, slice@.len() as int) =~= slice@);
    out
}

/// Bytes denoted by a lowercase hexadecimal text; `None` where a byte is no such digit.
pub fn hex_to_bytes(s: &[u8]) -> (r: Option<Vec<u8>>)
    requires
        s@.len() % 2 == 0,
    ensures
        r is Some <==> all_hex(s@),
        r is Some ==> r->0@ == bytes_of_hex(s@),
{
    let mut out: Vec<u8> = Vec::new();
    let mut i: usize = 0;
    while i < s.len() / 2
        invariant
            i <= s@.len() / 2,
            s@.len() % 2 == 0,
            all_hex(s@.subrange(0, 2 * i as int)),
            out@ =~= bytes_of_hex(s@.subrange(0, 2 * i as int)),
        decreases s@.len() / 2 - i,
    {
        match hex_to_u8(s[2 * i], s[2 * i + 1]) {
            Some(b) => {
                out.push(b);
                i = i + 1;
                assert(out@ =~= bytes_of_hex(s@.subrange(0, 2 * i as int)));
            },
            None => {
                assert(!is_hex_digit(s@[2 * i as int]) || !is_hex_digit(s@[2 * i + 1]));
                return None;
            },
        }
    }
    assert(s@.subrange(0, s@.len() as int) =~= s@);
    Some(out)
}

} // verus!
