//! Raw record bytes and their `#hex` literal form.
use vstd::prelude::*;
use vstd::slice::slice_subrange;
use vstd::utf8::{encode_utf8, is_ascii_chars, is_ascii_chars_encode_utf8};

use crate::error::{decoded, parse_error, DecodeError};
use crate::text::push_char;
use vstd::string::StringSliceAdditionalSpecFns;

verus! {

/// Bytes whose meaning the wire does not know, written as `#` followed by
/// two hex digits per byte.
#[derive(Debug, Clone, PartialEq, Eq)]
pub struct RawPayload(pub Vec<u8>);

/// Value of an ASCII hex digit of either case.
pub open spec fn hex_digit_value(b: u8) -> Option<u8> {
    if 48 <= b <= 57 {
        Some((b - 48) as u8)
    } else if 97 <= b <= 102 {
        Some((b - 87) as u8)
    } else if 65 <= b <= 70 {
        Some((b - 55) as u8)
    } else {
        None
    }
}

pub open spec fn is_hex_digit(b: u8) -> bool {
    hex_digit_value(b) is Some
}

/// The byte a pair of hex digits denotes, high digit first.
pub open spec fn pair_value(high: u8, low: u8) -> u8 {
    (hex_digit_value(high).unwrap() * 16 + hex_digit_value(low).unwrap()) as u8
}

/// The bytes denoted by consecutive pairs of hex digits.
pub open spec fn hex_pairs(hex: Seq<u8>) -> Seq<u8> {
    Seq::new(hex.len() / 2, |i: int| pair_value(hex[2 * i], hex[2 * i + 1]))
}

pub open spec fn non_hex_message(literal: Seq<char>) -> Seq<char> {
    "raw payload contains non-hex digit: "@ + literal
}

/// What decoding a payload literal gives, judged on its UTF-8 bytes; an
/// error carries its message, which names the literal's characters.
pub open spec fn payload_from_literal(literal: Seq<char>, bytes: Seq<u8>) -> Result<
    Seq<u8>,
    Seq<char>,
> {
    if bytes.len() == 0 || bytes[0] != 35 {
        Err("raw payload must be a #hex literal: "@ + literal)
    } else if (bytes.len() - 1) % 2 != 0 {
        Err("raw payload hex literal has odd length: "@ + literal)
    } else if exists|i: int| 1 <= i < bytes.len() && !is_hex_digit(#[trigger] bytes[i]) {
        Err(non_hex_message(literal))
    } else {
        Ok(hex_pairs(bytes.drop_first()))
    }
}

/// The lowercase hex digit of `d < 16`.
pub open spec fn hex_char(d: int) -> char {
    if d < 10 {
        (d + 48) as char
    } else {
        (d + 87) as char
    }
}

/// Two lowercase hex digits per byte, high digit first.
pub open spec fn hex_text(bytes: Seq<u8>) -> Seq<char> {
    Seq::new(
        2 * bytes.len(),
        |i: int|
            if i % 2 == 0 {
                hex_char((bytes[i / 2] / 16) as int)
            } else {
                hex_char((bytes[i / 2] % 16) as int)
            },
    )
}

/// The literal of a payload: `#` and its bytes in lowercase hex.
pub open spec fn payload_literal(bytes: Seq<u8>) -> Seq<char> {
    seq!['#'] + hex_text(bytes)
}

/// A decoding result of bytes, with the bytes and the error message as values.
pub open spec fn decoded_bytes(r: Result<Vec<u8>, DecodeError>) -> Result<Seq<u8>, Seq<char>> {
    match r {
        Ok(v) => Ok(v@),
        Err(e) => Err(e.message()),
    }
}

impl View for RawPayload {
    type V = Seq<u8>;

    open spec fn view(&self) -> Seq<u8> {
        self.0@
    }
}

impl RawPayload {
    pub fn new(bytes: Vec<u8>) -> (payload: Self)
        ensures
            payload@ == bytes@,
    {
        Self(bytes)
    }

    pub fn into_bytes(self) -> (bytes: Vec<u8>)
        ensures
            bytes@ == self@,
    {
        self.0
    }

    /// Decodes a `#hex` literal into bytes; hex digits of either case.
    pub fn decode_literal(literal: &str) -> (res: Result<Vec<u8>, DecodeError>)
        ensures
            decoded_bytes(res) == payload_from_literal(literal@, literal.spec_bytes()),
    {
        let bytes = literal.as_bytes();
        let n = bytes.len();
        if n == 0 || bytes[0] != 35 {
            return Err(parse_error("raw payload must be a #hex literal: ", literal));
        }
        if (n - 1) % 2 != 0 {
            return Err(parse_error("raw payload hex literal has odd length: ", literal));
        }
        let ghost hex = bytes@.drop_first();
        let mut out: Vec<u8> = Vec::new();
        let mut i: usize = 1;
        while i < n
            invariant
                1 <= i <= n,
                n == bytes@.len(),
                (n - 1) % 2 == 0,
                (i - 1) % 2 == 0,
                hex == bytes@.drop_first(),
                bytes@[0] == 35,
                bytes@ == literal.spec_bytes(),
                forall|j: int| 1 <= j < i ==> is_hex_digit(#[trigger] bytes@[j]),
                out@ =~= hex_pairs(hex.take(i - 1)),
            decreases n - i,
        {
            let pair = slice_subrange(bytes, i, i + 2);
            match Self::decode_byte(pair, literal) {
                Ok(b) => {
                    out.push(b);
                },
                Err(e) => {
                    proof {
                        if is_hex_digit(bytes@[i as int]) {
                            assert(!is_hex_digit(bytes@[i + 1]));
                        } else {
                            assert(!is_hex_digit(bytes@[i as int]));
                        }
                    }
                    return Err(e);
                },
            }
            i = i + 2;
            assert(out@ =~= hex_pairs(hex.take(i - 1)));
        }
        assert(hex.take(n - 1) =~= hex);
        Ok(out)
    }

    /// Decodes the first two bytes of `pair` as a high and a low hex digit.
    pub fn decode_byte(pair: &[u8], literal: &str) -> (res: Result<u8, DecodeError>)
        requires
            pair@.len() >= 2,
        ensures
            decoded(res) == (if is_hex_digit(pair@[0]) && is_hex_digit(pair@[1]) {
                Ok(pair_value(pair@[0], pair@[1]))
            } else {
                Err(non_hex_message(literal@))
            }),
    {
        let high = match Self::decode_digit(pair[0], literal) {
            Ok(d) => d,
            Err(e) => return Err(e),
        };
        let low = match Self::decode_digit(pair[1], literal) {
            Ok(d) => d,
            Err(e) => return Err(e),
        };
        Ok(high * 16 + low)
    }

    /// Decodes one hex digit of either case.
    pub fn decode_digit(byte: u8, literal: &str) -> (res: Result<u8, DecodeError>)
        ensures
            decoded(res) == (match hex_digit_value(byte) {
                Some(v) => Ok(v),
                None => Err(non_hex_message(literal@)),
            }),
            res matches Ok(v) ==> v < 16,
    {
        if 48 <= byte && byte <= 57 {
            Ok(byte - 48)
        } else if 97 <= byte && byte <= 102 {
            Ok(byte - 87)
        } else if 65 <= byte && byte <= 70 {
            Ok(byte - 55)
        } else {
            Err(parse_error("raw payload contains non-hex digit: ", literal))
        }
    }

    /// Encodes the payload as `#` followed by lowercase hex.
    pub fn to_nota(&self) -> (literal: String)
        ensures
            literal@ == payload_literal(self@),
    {
        let mut literal = String::new();
        push_char(&mut literal, '#');
        let n = self.0.len();
        let mut i: usize = 0;
        while i < n
            invariant
                i <= n,
                n == self@.len(),
                literal@ =~= seq!['#'] + hex_text(self@.take(i as int)),
            decreases n - i,
        {
            let byte = self.0[i];
            push_char(&mut literal, hex_digit_char(byte / 16));
            push_char(&mut literal, hex_digit_char(byte % 16));
            i = i + 1;
            assert(literal@ =~= seq!['#'] + hex_text(self@.take(i as int)));
        }
        assert(self@.take(n as int) =~= self@);
        literal
    }
}

/// The lowercase hex digit of `d < 16`.
fn hex_digit_char(d: u8) -> (c: char)
    requires
        d < 16,
    ensures
        c == hex_char(d as int),
{
    if d < 10 {
        (48 + d) as char
    } else {
        (87 + d) as char
    }
}

// ---------------------------------------------------------------------------
// Laws
// ---------------------------------------------------------------------------

proof fn lemma_hex_char(d: int)
    requires
        0 <= d < 16,
    ensures
        ('\0' <= hex_char(d) <= '\u{7f}'),
        hex_digit_value(hex_char(d) as u8) == Some(d as u8),
{
}

/// Decoding the literal of any bytes, taken as UTF-8, gives those bytes back.
pub proof fn lemma_payload_round_trip(bytes: Seq<u8>)
    ensures
        payload_from_literal(payload_literal(bytes), encode_utf8(payload_literal(bytes)))
            == Ok::<Seq<u8>, Seq<char>>(bytes),
{
    let lit = payload_literal(bytes);
    assert forall|i: int| 0 <= i < lit.len() implies '\0' <= #[trigger] lit[i] <= '\u{7f}' by {
        if i > 0 {
            let k = i - 1;
            if k % 2 == 0 {
                lemma_hex_char((bytes[k / 2] / 16) as int);
            } else {
                lemma_hex_char((bytes[k / 2] % 16) as int);
            }
        }
    }
    assert(is_ascii_chars(lit));
    is_ascii_chars_encode_utf8(lit);
    let enc = encode_utf8(lit);
    assert(enc[0] == lit[0] as u8);
    assert forall|i: int| 1 <= i < enc.len() implies is_hex_digit(#[trigger] enc[i]) by {
        assert(enc[i] == lit[i] as u8);
        let k = i - 1;
        if k % 2 == 0 {
            lemma_hex_char((bytes[k / 2] / 16) as int);
        } else {
            lemma_hex_char((bytes[k / 2] % 16) as int);
        }
    }
    let hex = enc.drop_first();
    assert forall|j: int| 0 <= j < bytes.len() implies hex_pairs(hex)[j] == bytes[j] by {
        assert(hex[2 * j] == lit[2 * j + 1] as u8);
        assert(hex[2 * j + 1] == lit[2 * j + 2] as u8);
        lemma_hex_char((bytes[j] / 16) as int);
        lemma_hex_char((bytes[j] % 16) as int);
    }
    assert(hex_pairs(hex) =~= bytes);
}

/// ASCII uppercase letters lowered; every other byte unchanged.
pub open spec fn ascii_lowercase(bytes: Seq<u8>) -> Seq<u8> {
    Seq::new(
        bytes.len(),
        |i: int|
            if 65 <= bytes[i] <= 90 {
                (bytes[i] + 32) as u8
            } else {
                bytes[i]
            },
    )
}

proof fn lemma_hex_char_of_digit(b: u8)
    requires
        is_hex_digit(b),
    ensures
        hex_char(hex_digit_value(b).unwrap() as int) as u8 == ascii_lowercase(seq![b])[0],
        0 <= hex_digit_value(b).unwrap() < 16,
{
}

/// Decoding accepts hex digits of either case; encoding what was decoded
/// gives the accepted literal back with its hex digits lowercased.
pub proof fn lemma_payload_reencode_lowercases(
    literal: Seq<char>,
    bytes: Seq<u8>,
    decoded: Seq<u8>,
)
    requires
        payload_from_literal(literal, bytes) == Ok::<Seq<u8>, Seq<char>>(decoded),
    ensures
        encode_utf8(payload_literal(decoded)) == ascii_lowercase(bytes),
{
    let lit = payload_literal(decoded);
    let hex = bytes.drop_first();
    assert forall|j: int| 0 <= j < decoded.len() implies decoded[j] == pair_value(
        hex[2 * j],
        hex[2 * j + 1],
    ) && is_hex_digit(hex[2 * j]) && is_hex_digit(hex[2 * j + 1]) by {
        assert(hex[2 * j] == bytes[2 * j + 1]);
        assert(hex[2 * j + 1] == bytes[2 * j + 2]);
        assert(is_hex_digit(bytes[2 * j + 1]));
        assert(is_hex_digit(bytes[2 * j + 2]));
    }
    assert forall|i: int| 0 <= i < lit.len() implies '\0' <= #[trigger] lit[i] <= '\u{7f}' by {
        if i > 0 {
            let k = i - 1;
            if k % 2 == 0 {
                lemma_hex_char((decoded[k / 2] / 16) as int);
            } else {
                lemma_hex_char((decoded[k / 2] % 16) as int);
            }
        }
    }
    is_ascii_chars_encode_utf8(lit);
    let enc = encode_utf8(lit);
    assert forall|i: int| 0 <= i < enc.len() implies enc[i] == ascii_lowercase(bytes)[i] by {
        assert(enc[i] == lit[i] as u8);
        if i > 0 {
            let k = i - 1;
            let j = k / 2;
            let high = hex[2 * j];
            let low = hex[2 * j + 1];
            lemma_hex_char_of_digit(high);
            lemma_hex_char_of_digit(low);
            assert(decoded[j] / 16 == hex_digit_value(high).unwrap());
            assert(decoded[j] % 16 == hex_digit_value(low).unwrap());
            if k % 2 == 0 {
                assert(bytes[i] == high);
            } else {
                assert(bytes[i] == low);
            }
        }
    }
    assert(enc =~= ascii_lowercase(bytes));
}

/// An ASCII hex digit of either case: `0`-`9`, `a`-`f` or `A`-`F`.
pub open spec fn is_ascii_hex(b: u8) -> bool {
    (48 <= b <= 57) || (97 <= b <= 102) || (65 <= b <= 70)
}

/// Hex digits and their values: each lowercase digit `hex_char(d)` of the
/// encoder decodes to `d`, an uppercase letter `A`-`F` has the value of its
/// lowercase form, and exactly the ASCII hex digits have a value.
pub proof fn lemma_hex_digits_either_case(b: u8, d: int)
    requires
        0 <= d < 16,
    ensures
        hex_digit_value(hex_char(d) as u8) == Some(d as u8),
        65 <= b <= 70 ==> hex_digit_value(b) == hex_digit_value((b + 32) as u8),
        is_ascii_hex(b) <==> hex_digit_value(b) is Some,
        hex_digit_value(b) matches Some(v) ==> v < 16,
{
}

/// Decoding a `#` literal of an even number of ASCII hex digits, of either
/// case, succeeds, and gives the same bytes as decoding its lowercased form.
pub proof fn lemma_payload_case_insensitive(
    literal: Seq<char>,
    lowered_literal: Seq<char>,
    bytes: Seq<u8>,
)
    requires
        bytes.len() >= 1,
        bytes[0] == 35,
        (bytes.len() - 1) % 2 == 0,
        forall|i: int| 1 <= i < bytes.len() ==> is_ascii_hex(#[trigger] bytes[i]),
    ensures
        payload_from_literal(literal, bytes) is Ok,
        payload_from_literal(literal, bytes) == payload_from_literal(
            lowered_literal,
            ascii_lowercase(bytes),
        ),
{
    let lower = ascii_lowercase(bytes);
    assert forall|i: int| 1 <= i < bytes.len() implies is_hex_digit(#[trigger] bytes[i]) by {
        assert(is_ascii_hex(bytes[i]));
    }
    assert forall|i: int| 1 <= i < lower.len() implies is_hex_digit(#[trigger] lower[i])
        && hex_digit_value(lower[i]) == hex_digit_value(bytes[i]) by {
        assert(is_ascii_hex(bytes[i]));
    }
    assert(lower[0] == 35);
    let h = bytes.drop_first();
    let hl = lower.drop_first();
    assert forall|j: int| 0 <= j < h.len() / 2 implies hex_pairs(h)[j] == hex_pairs(hl)[j] by {
        assert(h[2 * j] == bytes[2 * j + 1]);
        assert(h[2 * j + 1] == bytes[2 * j + 2]);
        assert(hl[2 * j] == lower[2 * j + 1]);
        assert(hl[2 * j + 1] == lower[2 * j + 2]);
    }
    assert(hex_pairs(h) =~= hex_pairs(hl));
}

/// The encoder's hex digits, in order of value, are `0`-`9` then `a`-`f`:
/// they rise strictly with the value, starting at `0`, with `9` at nine,
/// `a` at ten and `f` at fifteen.
pub proof fn lemma_hex_char_order(d: int, e: int)
    requires
        0 <= d < e < 16,
    ensures
        (hex_char(d) as int) < (hex_char(e) as int),
        hex_char(0) == '0',
        hex_char(9) == '9',
        hex_char(10) == 'a',
        hex_char(15) == 'f',
{
}

/// Only well-formed literals decode: a `#`, then an even number of ASCII hex
/// digits, two per decoded byte.
pub proof fn lemma_payload_well_formed(literal: Seq<char>, bytes: Seq<u8>, decoded: Seq<u8>)
    requires
        payload_from_literal(literal, bytes) == Ok::<Seq<u8>, Seq<char>>(decoded),
    ensures
        bytes.len() == 2 * decoded.len() + 1,
        bytes[0] == 35,
        forall|i: int| 1 <= i < bytes.len() ==> is_ascii_hex(#[trigger] bytes[i]),
{
    assert forall|i: int| 1 <= i < bytes.len() implies is_ascii_hex(#[trigger] bytes[i]) by {
        assert(is_hex_digit(bytes[i]));
    }
}

} // verus!
