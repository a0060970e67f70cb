//! Lowercase hexadecimal text for fixed-width digests.
use vstd::prelude::*;

verus! {

pub open spec fn hex_digit(d: int) -> char {
    if d == 0 { '0' } else if d == 1 { '1' } else if d == 2 { '2' } else if d == 3 { '3' }
    else if d == 4 { '4' } else if d == 5 { '5' } else if d == 6 { '6' } else if d == 7 { '7' }
    else if d == 8 { '8' } else if d == 9 { '9' } else if d == 10 { 'a' } else if d == 11 { 'b' }
    else if d == 12 { 'c' } else if d == 13 { 'd' } else if d == 14 { 'e' } else { 'f' }
}

/// The value of a hexadecimal digit, either case; `None` for any other
/// character.
pub open spec fn hex_value(c: char) -> Option<u8> {
    if '0' <= c && c <= '9' {
        Some((c as int - '0' as int) as u8)
    } else if 'a' <= c && c <= 'f' {
        Some((c as int - 'a' as int + 10) as u8)
    } else if 'A' <= c && c <= 'F' {
        Some((c as int - 'A' as int + 10) as u8)
    } else {
        None
    }
}

/// Two lowercase digits per byte, most significant first.
pub open spec fn hex_text(bytes: Seq<u8>) -> Seq<char>
    decreases bytes.len(),
{
    if bytes.len() == 0 {
        Seq::empty()
    } else {
        hex_text(bytes.drop_last()) + seq![
            hex_digit(bytes.last() as int / 16),
            hex_digit(bytes.last() as int % 16),
        ]
    }
}

/// Whether every character is a hexadecimal digit.
pub open spec fn all_hex(s: Seq<char>) -> bool {
    forall|i: int| 0 <= i < s.len() ==> (#[trigger] hex_value(s[i])) is Some
}

/// The bytes a run of digit pairs spells.
pub open spec fn hex_bytes(s: Seq<char>) -> Seq<u8> {
    Seq::new(
        s.len() / 2,
        |i: int| (hex_value(s[2 * i]).unwrap() as int * 16 + hex_value(s[2 * i + 1]).unwrap() as int) as u8,
    )
}

/// Reading `2 * width` hexadecimal digits as `width` bytes.
pub open spec fn parse_hex(s: Seq<char>, width: nat) -> Option<Seq<u8>> {
    if s.len() == 2 * width && all_hex(s) {
        Some(hex_bytes(s))
    } else {
        None
    }
}

proof fn lemma_hex_digit_value(d: int)
    requires
        0 <= d < 16,
    ensures
        hex_value(hex_digit(d)) == Some(d as u8),
{
}

/// Hexadecimal text has two digits per byte: the high nibble, then the low.
pub proof fn lemma_hex_text(bytes: Seq<u8>)
    ensures
        hex_text(bytes).len() == 2 * bytes.len(),
        forall|i: int|
            0 <= i < bytes.len() ==> hex_text(bytes)[2 * i] == hex_digit(#[trigger] bytes[i] as int / 16)
                && hex_text(bytes)[2 * i + 1] == hex_digit(bytes[i] as int % 16),
    decreases bytes.len(),
{
    if bytes.len() > 0 {
        let t = bytes.drop_last();
        lemma_hex_text(t);
        assert forall|i: int| 0 <= i < bytes.len() implies hex_text(bytes)[2 * i] == hex_digit(
            #[trigger] bytes[i] as int / 16,
        ) && hex_text(bytes)[2 * i + 1] == hex_digit(bytes[i] as int % 16) by {
            if i < t.len() {
                assert(t[i] == bytes[i]);
            }
        }
    }
}

/// Printing bytes in hexadecimal and reading them back gives the bytes.
pub proof fn lemma_hex_roundtrip(bytes: Seq<u8>)
    ensures
        parse_hex(hex_text(bytes), bytes.len()) == Some(bytes),
{
    lemma_hex_text(bytes);
    let s = hex_text(bytes);
    assert forall|i: int| 0 <= i < s.len() implies (#[trigger] hex_value(s[i])) is Some by {
        let k = i / 2;
        assert(0 <= k < bytes.len());
        assert(bytes[k] as int / 16 < 16) by (nonlinear_arith)
            requires
                bytes[k] < 256,
        ;
        lemma_hex_digit_value(bytes[k] as int / 16);
        lemma_hex_digit_value(bytes[k] as int % 16);
        if i % 2 == 0 {
            assert(i == 2 * k);
        } else {
            assert(i == 2 * k + 1);
        }
    }
    assert forall|k: int| 0 <= k < bytes.len() implies #[trigger] hex_bytes(s)[k] == bytes[k] by {
        assert(bytes[k] as int / 16 < 16) by (nonlinear_arith)
            requires
                bytes[k] < 256,
        ;
        lemma_hex_digit_value(bytes[k] as int / 16);
        lemma_hex_digit_value(bytes[k] as int % 16);
        assert((bytes[k] as int / 16) * 16 + bytes[k] as int % 16 == bytes[k] as int);
    }
    assert(hex_bytes(s) =~= bytes);
}

fn digit_char(d: u8) -> (c: char)
    requires
        d < 16,
    ensures
        c == hex_digit(d as int),
{
    if d == 0 { '0' } else if d == 1 { '1' } else if d == 2 { '2' } else if d == 3 { '3' }
    else if d == 4 { '4' } else if d == 5 { '5' } else if d == 6 { '6' } else if d == 7 { '7' }
    else if d == 8 { '8' } else if d == 9 { '9' } else if d == 10 { 'a' } else if d == 11 { 'b' }
    else if d == 12 { 'c' } else if d == 13 { 'd' } else if d == 14 { 'e' } else { 'f' }
}

/// The lowercase hexadecimal text of the bytes.
pub fn to_hex(bytes: &[u8]) -> (r: String)
    ensures
        r@ == hex_text(bytes@),
{
    let mut out = String::new();
    let mut i: usize = 0;
    while i < bytes.len()
        invariant
            i <= bytes@.len(),
            out@ == hex_text(bytes@.take(i as int)),
        decreases bytes@.len() - i,
    {
        let b = bytes[i];
        crate::text::push_char(&mut out, digit_char(b / 16));
        crate::text::push_char(&mut out, digit_char(b % 16));
        proof {
            assert(bytes@.take(i + 1).drop_last() =~= bytes@.take(i as int));
            assert(out@ =~= hex_text(bytes@.take(i + 1)));
        }
        i = i + 1;
    }
    proof {
        assert(bytes@.take(i as int) =~= bytes@);
    }
    out
}

fn char_value(c: char) -> (r: Option<u8>)
    ensures
        r == hex_value(c),
{
    if '0' <= c && c <= '9' {
        Some((c as u32 - '0' as u32) as u8)
    } else if 'a' <= c && c <= 'f' {
        Some((c as u32 - 'a' as u32 + 10) as u8)
    } else if 'A' <= c && c <= 'F' {
        Some((c as u32 - 'A' as u32 + 10) as u8)
    } else {
        None
    }
}

/// Read exactly `2 * width` hexadecimal digits (either case) as `width`
/// bytes; any other length or character gives `None`.
pub fn parse_hex_text(text: &str, width: usize) -> (r: Option<Vec<u8>>)
    requires
        width <= usize::MAX / 2,
    ensures
        match parse_hex(text@, width as nat) {
            Some(b) => r is Some && r.unwrap()@ == b,
            None => r is None,
        },
{
    let chars = crate::text::text_chars(text);
    if chars.len() != 2 * width {
        return None;
    }
    let mut out: Vec<u8> = Vec::new();
    let mut i: usize = 0;
    while i < width
        invariant
            i <= width,
            width <= usize::MAX / 2,
            chars@ == text@,
            chars@.len() == 2 * width,
            out@.len() == i,
            forall|k: int| 0 <= k < 2 * i ==> (#[trigger] hex_value(chars@[k])) is Some,
            forall|k: int| 0 <= k < i ==> #[trigger] out@[k] == hex_bytes(chars@)[k],
        decreases width - i,
    {
        let high = match char_value(chars[2 * i]) {
            Some(v) => v,
            None => { return None; },
        };
        let low = match char_value(chars[2 * i + 1]) {
            Some(v) => v,
            None => { return None; },
        };
        assert(high < 16 && low < 16);
        out.push(high * 16 + low);
        i = i + 1;
    }
    proof {
        assert(all_hex(text@));
        assert(out@ =~= hex_bytes(chars@));
    }
    Some(out)
}

} // verus!
