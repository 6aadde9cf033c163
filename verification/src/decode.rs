//! The bytes that `wsl.exe` prints, as text: UTF-16 (little endian) or UTF-8.
use vstd::prelude::*;
use vstd::slice::slice_subrange;
use vstd::utf8::{decode_utf8, encode_utf8, valid_utf8};

use crate::text::{strip_nul, without_nul};

verus! {

/// `char::from_u32` turns a number into the character with that code point. It
/// succeeds for the Unicode scalar values: up to 0x10FFFF, surrogates excepted.
pub assume_specification[ char::from_u32 ](i: u32) -> (r: Option<char>)
    ensures
        r == scalar_char(i),
;

/// The character with the given code point.
pub open spec fn scalar_char(v: u32) -> Option<char> {
    if v < 0xD800 || 0xDFFF < v <= 0x10FFFF {
        Some(v as char)
    } else {
        None
    }
}

/// What `String::from_utf8_lossy` makes of bytes.
pub uninterp spec fn utf8_lossy(bytes: Seq<u8>) -> Seq<char>;

/// `String::from_utf8_lossy`: the text of valid UTF-8 as it is; other bytes with
/// U+FFFD in the place of what is not valid. How many U+FFFD stand for a run of
/// invalid bytes is left to the name [`utf8_lossy`].
#[verifier::external_body]
fn from_utf8_lossy(bytes: &[u8]) -> (s: String)
    ensures
        s@ == utf8_lossy(bytes@),
        valid_utf8(bytes@) ==> s@ == decode_utf8(bytes@),
{
    String::from_utf8_lossy(bytes).into_owned()
}

/// The first half of a surrogate pair.
pub open spec fn is_high_surrogate(w: u16) -> bool {
    0xD800 <= w <= 0xDBFF
}

/// The second half of a surrogate pair.
pub open spec fn is_low_surrogate(w: u16) -> bool {
    0xDC00 <= w <= 0xDFFF
}

/// The code point that a surrogate pair stands for.
pub open spec fn pair_value(high: u16, low: u16) -> int {
    0x10000 + (high - 0xD800) * 0x400 + (low - 0xDC00)
}

/// UTF-16 as text, with U+FFFD for each unpaired surrogate.
pub open spec fn utf16_lossy(w: Seq<u16>) -> Seq<char>
    decreases w.len(),
{
    if w.len() == 0 {
        Seq::empty()
    } else if is_high_surrogate(w[0]) && w.len() > 1 && is_low_surrogate(w[1]) {
        seq![pair_value(w[0], w[1]) as char] + utf16_lossy(w.skip(2))
    } else if is_high_surrogate(w[0]) || is_low_surrogate(w[0]) {
        seq!['\u{FFFD}'] + utf16_lossy(w.skip(1))
    } else {
        seq![w[0] as char] + utf16_lossy(w.skip(1))
    }
}

/// The pairs of bytes as little-endian words; a last single byte is left out.
pub open spec fn le_words(bytes: Seq<u8>) -> Seq<u16> {
    Seq::new(bytes.len() / 2, |i: int| (bytes[2 * i] + 256 * bytes[2 * i + 1]) as u16)
}

/// Whether the bytes begin with the byte order mark of little-endian UTF-16.
pub open spec fn has_bom(bytes: Seq<u8>) -> bool {
    bytes.len() >= 2 && bytes[0] == 0xFF && bytes[1] == 0xFE
}

/// How many of the first `n` words of two bytes have zero as their second byte.
pub open spec fn zero_high_bytes(bytes: Seq<u8>, n: nat) -> nat
    decreases n,
{
    if n == 0 {
        0
    } else {
        zero_high_bytes(bytes, (n - 1) as nat) + if 2 * n <= bytes.len() && bytes[2 * n - 1] == 0 {
            1nat
        } else {
            0nat
        }
    }
}

/// Bytes are taken for UTF-16 where they begin with the byte order mark, or
/// where more than 8 of the first 16 words have zero as their second byte.
pub open spec fn looks_utf16(bytes: Seq<u8>) -> bool {
    has_bom(bytes) || zero_high_bytes(bytes, 16) > 8
}

/// The bytes behind the byte order mark, if there is one.
pub open spec fn skip_bom(bytes: Seq<u8>) -> Seq<u8> {
    if has_bom(bytes) {
        bytes.skip(2)
    } else {
        bytes
    }
}

/// The text of the bytes, where `utf8` is their text as UTF-8.
pub open spec fn decoded(bytes: Seq<u8>, utf8: Seq<char>) -> Seq<char> {
    without_nul(
        if looks_utf16(bytes) {
            utf16_lossy(le_words(skip_bom(bytes)))
        } else {
            utf8
        },
    )
}

fn starts_with_bom(bytes: &[u8]) -> (r: bool)
    ensures
        r == has_bom(bytes@),
{
    bytes.len() >= 2 && bytes[0] == 0xFF && bytes[1] == 0xFE
}

/// Whether the bytes are taken for UTF-16.
pub fn is_utf16(bytes: &[u8]) -> (r: bool)
    ensures
        r == looks_utf16(bytes@),
{
    let mut zeros: usize = 0;
    let mut n: usize = 0;
    while n < 16
        invariant
            n <= 16,
            zeros <= n,
            zeros == zero_high_bytes(bytes@, n as nat),
        decreases 16 - n,
    {
        if 2 * n + 1 < bytes.len() && bytes[2 * n + 1] == 0 {
            zeros += 1;
        }
        n += 1;
    }
    starts_with_bom(bytes) || zeros > 8
}

/// The pairs of bytes as little-endian words; a last single byte is left out.
pub fn to_words(bytes: &[u8]) -> (w: Vec<u16>)
    ensures
        w@ == le_words(bytes@),
{
    let mut w: Vec<u16> = Vec::new();
    let mut i: usize = 0;
    while bytes.len() - i >= 2
        invariant
            i <= bytes.len(),
            i == 2 * w.len(),
            forall|k: int| 0 <= k < w.len() ==> #[trigger] w@[k] == le_words(bytes@)[k],
        decreases bytes.len() - i,
    {
        w.push(bytes[i] as u16 + 256 * (bytes[i + 1] as u16));
        i += 2;
    }
    w
}

/// UTF-16 as text, with U+FFFD for each unpaired surrogate.
pub fn utf16_text(w: &[u16]) -> (s: String)
    ensures
        s@ == utf16_lossy(w@),
{
    let mut s = String::new();
    let mut i: usize = 0;
    assert(w@.skip(0) =~= w@);
    assert(s@ + utf16_lossy(w@) =~= utf16_lossy(w@));
    while i < w.len()
        invariant
            i <= w.len(),
            s@ + utf16_lossy(w@.skip(i as int)) == utf16_lossy(w@),
        decreases w.len() - i,
    {
        let ghost rest = w@.skip(i as int);
        let ghost before = s@;
        let a = w[i];
        let high = 0xD800 <= a && a <= 0xDBFF;
        let low = 0xDC00 <= a && a <= 0xDFFF;
        if high && w.len() - i > 1 && 0xDC00 <= w[i + 1] && w[i + 1] <= 0xDFFF {
            let b = w[i + 1];
            let v: u32 = 0x10000 + (a as u32 - 0xD800) * 0x400 + (b as u32 - 0xDC00);
            let c = char::from_u32(v);
            assert(rest.skip(2) =~= w@.skip(i + 2));
            assert(rest[0] == a && rest[1] == b);
            match c {
                Some(c) => {
                    s.push(c);
                    assert(c == pair_value(a, b) as char);
                },
                None => {},
            }
            i += 2;
        } else {
            assert(rest.skip(1) =~= w@.skip(i + 1));
            assert(rest[0] == a);
            if high || low {
                s.push('\u{FFFD}');
            } else {
                match char::from_u32(a as u32) {
                    Some(c) => {
                        s.push(c);
                    },
                    None => {},
                }
            }
            i += 1;
        }
        proof {
            let c = s@.last();
            assert(s@ =~= before.push(c));
            assert(s@ + utf16_lossy(w@.skip(i as int)) =~= before + (seq![c] + utf16_lossy(
                w@.skip(i as int),
            )));
        }
    }
    assert(s@ + utf16_lossy(w@.skip(i as int)) =~= s@);
    s
}

/// The text of bytes that are taken for UTF-16, without NUL characters.
pub fn utf16_output(bytes: &[u8]) -> (s: String)
    ensures
        s@ == without_nul(utf16_lossy(le_words(skip_bom(bytes@)))),
{
    let start: usize = if starts_with_bom(bytes) {
        2
    } else {
        0
    };
    let body = slice_subrange(bytes, start, bytes.len());
    assert(body@ =~= skip_bom(bytes@));
    let w = to_words(body);
    let text = utf16_text(w.as_slice());
    strip_nul(text.as_str())
}

/// The text that `wsl.exe` printed, without NUL characters.
pub fn decode_wsl_output(bytes: &[u8]) -> (s: String)
    ensures
        s@ == decoded(bytes@, utf8_lossy(bytes@)),
        valid_utf8(bytes@) ==> s@ == decoded(bytes@, decode_utf8(bytes@)),
        !s@.contains('\0'),
{
    proof {
        law_decoded_has_no_nul(bytes@, utf8_lossy(bytes@));
    }
    if is_utf16(bytes) {
        utf16_output(bytes)
    } else {
        let utf8 = from_utf8_lossy(bytes);
        strip_nul(utf8.as_str())
    }
}

/// Text as UTF-16, with a surrogate pair for each character beyond U+FFFF.
pub open spec fn encode_utf16(t: Seq<char>) -> Seq<u16>
    decreases t.len(),
{
    if t.len() == 0 {
        Seq::empty()
    } else {
        encode_char(t[0]) + encode_utf16(t.skip(1))
    }
}

/// One character as UTF-16.
pub open spec fn encode_char(c: char) -> Seq<u16> {
    let v = c as u32 as int;
    if v < 0x10000 {
        seq![v as u16]
    } else {
        seq![(0xD800 + (v - 0x10000) / 0x400) as u16, (0xDC00 + (v - 0x10000) % 0x400) as u16]
    }
}

/// Words as bytes, the low byte of each first.
pub open spec fn le_bytes(w: Seq<u16>) -> Seq<u8> {
    Seq::new(
        2 * w.len(),
        |i: int|
            if i % 2 == 0 {
                (w[i / 2] % 256) as u8
            } else {
                (w[i / 2] / 256) as u8
            },
    )
}

proof fn lemma_words_of_bytes(w: Seq<u16>)
    ensures
        le_words(le_bytes(w)) == w,
{
    let b = le_bytes(w);
    assert(b.len() / 2 == w.len());
    assert forall|i: int| 0 <= i < w.len() implies #[trigger] le_words(b)[i] == w[i] by {
        assert(b[2 * i] == (w[i] % 256) as u8) by {
            assert((2 * i) % 2 == 0 && (2 * i) / 2 == i);
        }
        assert(b[2 * i + 1] == (w[i] / 256) as u8) by {
            assert((2 * i + 1) % 2 == 1 && (2 * i + 1) / 2 == i);
        }
    }
    assert(le_words(b) =~= w);
}

proof fn lemma_char_value(c: char)
    ensures
        c as u32 as int == c as int,
        c as u32 as char == c,
        c as int <= 0x10FFFF,
        !(0xD800 <= c as int <= 0xDFFF),
{
}

proof fn lemma_utf16_of_encoded(t: Seq<char>)
    ensures
        utf16_lossy(encode_utf16(t)) == t,
    decreases t.len(),
{
    if t.len() > 0 {
        let w = encode_utf16(t);
        let first = encode_char(t[0]);
        let n = first.len() as int;
        lemma_utf16_of_encoded(t.skip(1));
        lemma_char_value(t[0]);
        assert(w.skip(n) =~= encode_utf16(t.skip(1)));
        assert(w[0] == first[0]);
        if n == 2 {
            assert(w[1] == first[1]);
            assert(pair_value(w[0], w[1]) == t[0] as u32 as int);
        }
        assert(utf16_lossy(w) =~= seq![t[0]] + t.skip(1));
        assert(seq![t[0]] + t.skip(1) =~= t);
    } else {
        assert(utf16_lossy(encode_utf16(t)) =~= t);
    }
}

proof fn lemma_encoded_prefix(t: Seq<char>, n: int)
    requires
        0 <= n <= t.len(),
        forall|i: int| 0 <= i < n ==> (#[trigger] t[i] as u32) < 0x10000,
    ensures
        encode_utf16(t).len() >= n,
        forall|i: int| 0 <= i < n ==> #[trigger] encode_utf16(t)[i] == t[i] as u32,
    decreases n,
{
    if n > 0 {
        assert((t[0] as u32) < 0x10000);
        let rest = t.skip(1);
        assert forall|i: int| 0 <= i < n - 1 implies (#[trigger] rest[i] as u32) < 0x10000 by {
            assert(rest[i] == t[i + 1]);
        }
        lemma_encoded_prefix(rest, n - 1);
        assert forall|i: int| 0 <= i < n implies #[trigger] encode_utf16(t)[i] == t[i] as u32 by {
            if i > 0 {
                assert(encode_utf16(t)[i] == encode_utf16(rest)[i - 1]);
            }
        }
    }
}

proof fn lemma_zero_high_bytes(bytes: Seq<u8>, n: nat, m: nat)
    requires
        m <= n,
        2 * m <= bytes.len(),
        forall|i: int| 0 <= i < m ==> #[trigger] bytes[2 * i + 1] == 0,
    ensures
        zero_high_bytes(bytes, n) >= m,
    decreases n,
{
    if n > m {
        lemma_zero_high_bytes(bytes, (n - 1) as nat, m);
    } else if n > 0 {
        assert(bytes[2 * (n - 1) + 1] == 0);
        lemma_zero_high_bytes(bytes, (n - 1) as nat, (m - 1) as nat);
    }
}

proof fn lemma_no_zero_high_bytes(bytes: Seq<u8>, n: nat)
    requires
        !bytes.contains(0),
    ensures
        zero_high_bytes(bytes, n) == 0,
    decreases n,
{
    if n > 0 {
        lemma_no_zero_high_bytes(bytes, (n - 1) as nat);
    }
}

proof fn lemma_scalar_bytes(v: u32)
    requires
        vstd::utf8::is_scalar(v),
        v != 0,
    ensures
        !vstd::utf8::encode_scalar(v).contains(0),
        !vstd::utf8::encode_scalar(v).contains(0xFF),
        vstd::utf8::encode_scalar(v).len() > 0,
{
    assert(v <= 0x7F && v != 0 ==> (v & 0x7F) as u8 != 0 && (v & 0x7F) as u8 != 0xFF)
        by (bit_vector);
    assert((0xC0 | ((v >> 6) & 0x1F) as u8) != 0 && (0xC0 | ((v >> 6) & 0x1F) as u8) != 0xFF)
        by (bit_vector);
    assert((0xE0 | ((v >> 12) & 0x0F) as u8) != 0 && (0xE0 | ((v >> 12) & 0x0F) as u8) != 0xFF)
        by (bit_vector);
    assert((0xF0 | ((v >> 18) & 0x7) as u8) != 0 && (0xF0 | ((v >> 18) & 0x7) as u8) != 0xFF)
        by (bit_vector);
    assert((0x80 | (v & 0x3F) as u8) != 0 && (0x80 | (v & 0x3F) as u8) != 0xFF) by (bit_vector);
    assert((0x80 | ((v >> 6) & 0x3F) as u8) != 0 && (0x80 | ((v >> 6) & 0x3F) as u8) != 0xFF)
        by (bit_vector);
    assert((0x80 | ((v >> 12) & 0x3F) as u8) != 0 && (0x80 | ((v >> 12) & 0x3F) as u8) != 0xFF)
        by (bit_vector);
}

proof fn lemma_utf8_bytes(t: Seq<char>)
    requires
        !t.contains('\0'),
    ensures
        !encode_utf8(t).contains(0),
        !encode_utf8(t).contains(0xFF),
    decreases t.len(),
{
    if t.len() > 0 {
        assert(t[0] != '\0');
        assert forall|i: int| 0 <= i < t.drop_first().len() implies t.drop_first()[i] != '\0' by {
            assert(t.drop_first()[i] == t[i + 1]);
        }
        lemma_utf8_bytes(t.drop_first());
        vstd::utf8::char_is_scalar(t[0]);
        lemma_char_value(t[0]);
        lemma_scalar_bytes(t[0] as u32);
        let a = vstd::utf8::encode_scalar(t[0] as u32);
        let b = encode_utf8(t.drop_first());
        assert forall|i: int| 0 <= i < (a + b).len() implies (a + b)[i] != 0 && (a + b)[i] != 0xFF by {
            if i < a.len() {
                assert((a + b)[i] == a[i]);
                assert(a.contains(a[i]));
            } else {
                assert((a + b)[i] == b[i - a.len()]);
                assert(b.contains(b[i - a.len()]));
            }
        }
    }
}

proof fn lemma_without_nul(t: Seq<char>)
    ensures
        !without_nul(t).contains('\0'),
        !t.contains('\0') ==> without_nul(t) == t,
    decreases t.len(),
{
    reveal(Seq::filter);
    if t.len() > 0 {
        lemma_without_nul(t.drop_last());
        let rest = without_nul(t.drop_last());
        assert(rest.push(t.last()).contains('\0') ==> rest.contains('\0') || t.last() == '\0');
        if !t.contains('\0') {
            assert(t.last() != '\0');
            assert forall|i: int| 0 <= i < t.len() - 1 implies t.drop_last()[i] != '\0' by {
                assert(t.drop_last()[i] == t[i]);
            }
            assert(t.drop_last().push(t.last()) =~= t);
        }
    }
}

/// A text that has no NUL characters is as it is without them.
pub proof fn law_text_without_nul_stays(t: Seq<char>)
    requires
        !t.contains('\0'),
    ensures
        without_nul(t) == t,
{
    lemma_without_nul(t);
}

/// What is read has no NUL characters.
pub proof fn law_decoded_has_no_nul(bytes: Seq<u8>, utf8: Seq<char>)
    ensures
        !decoded(bytes, utf8).contains('\0'),
{
    lemma_without_nul(
        if looks_utf16(bytes) {
            utf16_lossy(le_words(skip_bom(bytes)))
        } else {
            utf8
        },
    );
}

/// Any text that was written as little-endian UTF-16 behind its byte order mark
/// is read back, but for its NUL characters.
pub proof fn law_marked_utf16_is_read_back(t: Seq<char>, utf8: Seq<char>)
    ensures
        decoded(seq![0xFFu8, 0xFEu8] + le_bytes(encode_utf16(t)), utf8) == without_nul(t),
{
    let bytes = seq![0xFFu8, 0xFEu8] + le_bytes(encode_utf16(t));
    assert(bytes.skip(2) =~= le_bytes(encode_utf16(t)));
    lemma_words_of_bytes(encode_utf16(t));
    lemma_utf16_of_encoded(t);
}

/// Without the byte order mark, a text is read back from UTF-16 where its first
/// nine characters are below U+0100, but for its NUL characters.
pub proof fn law_plain_utf16_is_read_back(t: Seq<char>, utf8: Seq<char>)
    requires
        t.len() >= 9,
        forall|i: int| 0 <= i < 9 ==> (#[trigger] t[i] as u32) < 0x100,
    ensures
        decoded(le_bytes(encode_utf16(t)), utf8) == without_nul(t),
{
    let w = encode_utf16(t);
    let bytes = le_bytes(w);
    lemma_encoded_prefix(t, 9);
    assert forall|i: int| 0 <= i < 9 implies #[trigger] bytes[2 * i + 1] == 0 by {
        assert((2 * i + 1) % 2 == 1 && (2 * i + 1) / 2 == i);
        assert(w[i] == t[i] as u32);
    }
    lemma_zero_high_bytes(bytes, 16, 9);
    assert(bytes[1] == 0) by {
        assert(bytes[2 * 0int + 1] == 0);
    }
    lemma_words_of_bytes(w);
    lemma_utf16_of_encoded(t);
}

/// A text without NUL characters is never taken for UTF-16 when it was written
/// as UTF-8, and is read back.
pub proof fn law_utf8_is_read_back(t: Seq<char>)
    requires
        !t.contains('\0'),
    ensures
        valid_utf8(encode_utf8(t)),
        !looks_utf16(encode_utf8(t)),
        decoded(encode_utf8(t), decode_utf8(encode_utf8(t))) == t,
{
    let bytes = encode_utf8(t);
    vstd::utf8::encode_utf8_valid_utf8(t);
    vstd::utf8::encode_utf8_decode_utf8(t);
    lemma_utf8_bytes(t);
    lemma_no_zero_high_bytes(bytes, 16);
    assert(bytes.len() > 0 ==> bytes.contains(bytes[0]));
    lemma_without_nul(t);
}

/// Which of the first words of two bytes have zero as their second byte.
pub open spec fn zero_seconds(bytes: Seq<u8>, n: nat) -> Seq<bool> {
    Seq::new(n, |i: int| 2 * i + 1 < bytes.len() && bytes[2 * i + 1] == 0)
}

proof fn lemma_zero_seconds(bytes: Seq<u8>, n: nat)
    ensures
        zero_high_bytes(bytes, n) == zero_seconds(bytes, n).filter(|b: bool| b).len(),
    decreases n,
{
    reveal(Seq::filter);
    if n > 0 {
        lemma_zero_seconds(bytes, (n - 1) as nat);
        assert(zero_seconds(bytes, n).drop_last() =~= zero_seconds(bytes, (n - 1) as nat));
    }
}

/// Bytes are taken for UTF-16 for their byte order mark, or for zeros in more
/// than half of the 16 places that are looked at: of the first 32 bytes, every
/// second one. What follows does not matter.
pub proof fn law_what_looks_utf16(bytes: Seq<u8>, other: Seq<u8>)
    ensures
        bytes.len() >= 2 && bytes[0] == 0xFF && bytes[1] == 0xFE ==> looks_utf16(bytes),
        !(bytes.len() >= 2 && bytes[0] == 0xFF && bytes[1] == 0xFE) ==> (looks_utf16(bytes)
            <==> zero_seconds(bytes, 16).filter(|b: bool| b).len() > 8),
        bytes.len() >= 32 && other.len() >= 32 && bytes.take(32) == other.take(32) ==> (
        looks_utf16(bytes) <==> looks_utf16(other)),
{
    lemma_zero_seconds(bytes, 16);
    lemma_zero_seconds(other, 16);
    if bytes.len() >= 32 && other.len() >= 32 && bytes.take(32) == other.take(32) {
        assert forall|i: int| 0 <= i < 32 implies #[trigger] bytes[i] == other[i] by {
            assert(bytes[i] == bytes.take(32)[i]);
            assert(other[i] == other.take(32)[i]);
        }
        assert(zero_seconds(bytes, 16) =~= zero_seconds(other, 16));
    }
}

/// A word is made of two bytes, the low one first; a last single byte makes none.
pub proof fn law_words_of_bytes(bytes: Seq<u8>, i: int, last: u8)
    ensures
        le_words(bytes).len() == bytes.len() / 2,
        0 <= i < bytes.len() / 2 ==> le_words(bytes)[i] == bytes[2 * i] + 256 * bytes[2 * i + 1],
        bytes.len() % 2 == 0 ==> le_words(bytes.push(last)) == le_words(bytes),
{
    if bytes.len() % 2 == 0 {
        assert(le_words(bytes.push(last)) =~= le_words(bytes));
    }
}

/// UTF-16 is read piece by piece: only between the two halves of a surrogate pair
/// does it matter where a piece ends. A pair gives the character it stands for,
/// half of one gives U+FFFD, and any other word its own character.
pub proof fn law_utf16_in_pieces(a: Seq<u16>, b: Seq<u16>, w: u16, high: u16, low: u16)
    requires
        0xD800 <= high <= 0xDBFF,
        0xDC00 <= low <= 0xDFFF,
    ensures
        !(a.len() > 0 && b.len() > 0 && 0xD800 <= a.last() <= 0xDBFF && 0xDC00 <= b[0] <= 0xDFFF)
            ==> utf16_lossy(a + b) == utf16_lossy(a) + utf16_lossy(b),
        0xD800 <= w <= 0xDFFF ==> utf16_lossy(seq![w]) == seq!['\u{FFFD}'],
        !(0xD800 <= w <= 0xDFFF) ==> utf16_lossy(seq![w]) == seq![w as char],
        utf16_lossy(seq![high, low]) == seq![
            (0x10000 + 0x400 * (high - 0xD800) + (low - 0xDC00)) as char,
        ],
        utf16_lossy(Seq::empty()) == Seq::<char>::empty(),
{
    let none = Seq::<u16>::empty();
    assert(seq![w].skip(1) =~= none);
    assert(seq![high, low].skip(2) =~= none);
    assert(utf16_lossy(none) =~= Seq::<char>::empty());
    assert(utf16_lossy(seq![w]) =~= utf16_lossy(seq![w]).take(1));
    assert(pair_value(high, low) == 0x10000 + 0x400 * (high - 0xD800) + (low - 0xDC00));
    assert(utf16_lossy(seq![high, low]) =~= seq![pair_value(high, low) as char]);
    if !(a.len() > 0 && b.len() > 0 && is_high_surrogate(a.last()) && is_low_surrogate(b[0])) {
        lemma_utf16_pieces(a, b);
    }
}

proof fn lemma_utf16_pieces(a: Seq<u16>, b: Seq<u16>)
    requires
        !(a.len() > 0 && b.len() > 0 && is_high_surrogate(a.last()) && is_low_surrogate(b[0])),
    ensures
        utf16_lossy(a + b) == utf16_lossy(a) + utf16_lossy(b),
    decreases a.len(),
{
    let s = a + b;
    if a.len() == 0 {
        assert(s =~= b);
        assert(utf16_lossy(a) + utf16_lossy(b) =~= utf16_lossy(b));
    } else {
        assert(s[0] == a[0]);
        let n: int = if is_high_surrogate(a[0]) && a.len() > 1 && is_low_surrogate(a[1]) {
            2
        } else {
            1
        };
        if a.len() > 1 {
            assert(s[1] == a[1]);
        } else if b.len() > 0 {
            assert(s[1] == b[0]);
        }
        let rest = a.skip(n);
        if rest.len() > 0 {
            assert(rest.last() == a.last());
        }
        lemma_utf16_pieces(rest, b);
        assert(s.skip(n) =~= rest + b);
        assert(utf16_lossy(s) =~= utf16_lossy(a) + utf16_lossy(b));
    }
}

/// Whatever words come behind the byte order mark are read as UTF-16, and so are
/// words without it that are taken for UTF-16; all else is read as UTF-8.
pub proof fn law_what_is_decoded(w: Seq<u16>, bytes: Seq<u8>, utf8: Seq<char>)
    ensures
        decoded(seq![0xFFu8, 0xFEu8] + le_bytes(w), utf8) == without_nul(utf16_lossy(w)),
        looks_utf16(le_bytes(w)) && !has_bom(le_bytes(w)) ==> decoded(le_bytes(w), utf8)
            == without_nul(utf16_lossy(w)),
        !looks_utf16(bytes) ==> decoded(bytes, utf8) == without_nul(utf8),
{
    let marked = seq![0xFFu8, 0xFEu8] + le_bytes(w);
    assert(marked.skip(2) =~= le_bytes(w));
    lemma_words_of_bytes(w);
}

} // verus!
