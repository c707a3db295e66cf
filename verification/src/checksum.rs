use crate::error::Error;
use sha1::Digest;
use vstd::prelude::*;
use vstd::std_specs::cmp::PartialEqSpecImpl;
use vstd::string::StringSliceAdditionalSpecFns;
use vstd::utf8::{encode_scalar, encode_utf8, is_ascii_chars, is_ascii_chars_encode_utf8};

verus! {

/// Number of bytes in a digest.
pub const DIGEST_SIZE: usize = 20;

/// Number of characters in the hex form of a digest.
pub const HEX_SIZE: usize = 40;

/// The SHA-1 digest of `data`. The algorithm itself is not spelled out here:
/// it is whatever the `sha1` crate computes.
pub uninterp spec fn sha1_digest(data: Seq<u8>) -> Seq<u8>;

/// `b` is one of `0-9`, `A-F`, `a-f` in ASCII.
pub open spec fn is_hex_digit(b: u8) -> bool {
    (0x30 <= b <= 0x39) || (0x41 <= b <= 0x46) || (0x61 <= b <= 0x66)
}

/// The number that the hex digit `b` stands for.
pub open spec fn hex_digit_value(b: u8) -> int {
    if 0x30 <= b <= 0x39 {
        b - 0x30
    } else if 0x41 <= b <= 0x46 {
        b - 0x41 + 10
    } else {
        b - 0x61 + 10
    }
}

/// `c` is one of the characters `0-9`, `A-F`, `a-f`.
pub open spec fn is_hex_char(c: char) -> bool {
    let v = c as u32;
    (0x30 <= v <= 0x39) || (0x41 <= v <= 0x46) || (0x61 <= v <= 0x66)
}

/// Every character of `chars` is a hex digit.
pub open spec fn all_hex_chars(chars: Seq<char>) -> bool {
    forall|i: int| 0 <= i < chars.len() ==> is_hex_char(#[trigger] chars[i])
}

/// Every byte of `text` is a hex digit.
pub open spec fn all_hex_digits(text: Seq<u8>) -> bool {
    forall|i: int| 0 <= i < text.len() ==> is_hex_digit(#[trigger] text[i])
}

/// `text` is an even number of hex digits.
pub open spec fn is_hex_text(text: Seq<u8>) -> bool {
    &&& text.len() % 2 == 0
    &&& all_hex_digits(text)
}

/// The bytes that hex text stands for: each pair of digits is one byte, high digit first.
pub open spec fn hex_decoded(text: Seq<u8>) -> Seq<u8> {
    Seq::new(
        text.len() / 2,
        |i: int| (hex_digit_value(text[2 * i]) * 16 + hex_digit_value(text[2 * i + 1])) as u8,
    )
}

/// The lowercase hex digit for a number below 16, as an ASCII byte.
pub open spec fn lower_hex_digit(n: int) -> u8 {
    if n < 10 {
        (0x30 + n) as u8
    } else {
        (0x57 + n) as u8
    }
}

/// The lowercase hex form of `bytes` as ASCII bytes: two digits per byte, high digit first.
pub open spec fn hex_text(bytes: Seq<u8>) -> Seq<u8> {
    Seq::new(
        2 * bytes.len(),
        |j: int|
            if j % 2 == 0 {
                lower_hex_digit(bytes[j / 2] as int / 16)
            } else {
                lower_hex_digit(bytes[j / 2] as int % 16)
            },
    )
}

/// The lowercase hex form of `bytes` as characters.
pub open spec fn hex_encoded(bytes: Seq<u8>) -> Seq<char> {
    Seq::new(2 * bytes.len(), |j: int| hex_text(bytes)[j] as char)
}

/// What decoding the UTF-8 bytes `text` as the hex form of a digest gives.
pub open spec fn checksum_from_hex(text: Seq<u8>) -> Result<Seq<u8>, Error> {
    if text.len() != HEX_SIZE {
        Err(Error::InvalidLength)
    } else if !is_hex_text(text) {
        Err(Error::InvalidEncoding)
    } else {
        Ok(hex_decoded(text))
    }
}

/// The error type of the `hex` crate, carried from `hex::decode` to the
/// caller that turns it into `Error::InvalidEncoding`; nothing is read from it.
#[verifier::external_type_specification]
#[verifier::external_body]
pub struct ExFromHexError(hex::FromHexError);

/// `Sha1::digest` of the `sha1` crate, copied into a vector. The contract
/// is believed, not proved: it names the digest and claims its fixed size
/// of twenty bytes.
#[verifier::external_body]
fn sha1_of(data: &[u8]) -> (out: Vec<u8>)
    ensures
        out@ == sha1_digest(data@),
        out@.len() == DIGEST_SIZE,
{
    sha1::Sha1::digest(data).to_vec()
}

/// `hex::decode`. The contract is believed, not proved: it claims that the
/// call succeeds exactly on an even number of hex digits of either case,
/// and that each pair of digits then gives one byte, high digit first.
#[verifier::external_body]
fn hex_decode(text: &[u8]) -> (out: Result<Vec<u8>, hex::FromHexError>)
    ensures
        out is Ok <==> is_hex_text(text@),
        out matches Ok(bytes) ==> bytes@ == hex_decoded(text@),
{
    hex::decode(text)
}

/// `String::push`. The contract is believed, not proved: it claims that the
/// character is appended to the text.
#[verifier::external_body]
fn push_char(text: &mut String, c: char)
    ensures
        final(text)@ == old(text)@.push(c),
{
    text.push(c)
}

/// The lowercase hex digit for a number below 16.
fn hex_char(n: u8) -> (c: char)
    requires
        n < 16,
    ensures
        c == lower_hex_digit(n as int) as char,
{
    if n < 10 {
        (0x30u8 + n) as char
    } else {
        (0x57u8 + n) as char
    }
}

/// A SHA-1 content hash: always exactly `DIGEST_SIZE` bytes.
#[derive(Debug)]
pub struct Checksum {
    bytes: Vec<u8>,
}

impl View for Checksum {
    type V = Seq<u8>;

    closed spec fn view(&self) -> Seq<u8> {
        self.bytes@
    }
}

impl Checksum {
    #[verifier::type_invariant]
    spec fn well_formed(self) -> bool {
        self.bytes@.len() == DIGEST_SIZE
    }

    /// Takes `bytes` as a digest if it has the size of one.
    pub fn from_bytes(bytes: Vec<u8>) -> (r: Result<Checksum, Error>)
        ensures
            bytes@.len() == DIGEST_SIZE ==> r is Ok && r->Ok_0@ == bytes@,
            bytes@.len() != DIGEST_SIZE ==> r == Err::<Checksum, Error>(Error::InvalidLength),
    {
        if bytes.len() == DIGEST_SIZE {
            Ok(Checksum { bytes })
        } else {
            Err(Error::InvalidLength)
        }
    }

    /// Decodes the hex form of a digest. Digits of either case are accepted.
    pub fn from_str(hash: &str) -> (r: Result<Checksum, Error>)
        ensures
            match checksum_from_hex(hash.spec_bytes()) {
                Ok(bytes) => r is Ok && r->Ok_0@ == bytes,
                Err(e) => r == Err::<Checksum, Error>(e),
            },
    {
        let text = hash.as_bytes();
        if text.len() != HEX_SIZE {
            return Err(Error::InvalidLength);
        }
        match hex_decode(text) {
            Ok(bytes) => Checksum::from_bytes(bytes),
            Err(_) => Err(Error::InvalidEncoding),
        }
    }

    /// The digest of the UTF-8 bytes of `data`.
    pub fn calculate(data: &str) -> (c: Checksum)
        ensures
            c@ == sha1_digest(data.spec_bytes()),
            c@.len() == DIGEST_SIZE,
    {
        Checksum { bytes: sha1_of(data.as_bytes()) }
    }

    /// The digest as forty lowercase hex characters.
    pub fn as_string(&self) -> (s: String)
        ensures
            s@ == hex_encoded(self@),
            s@.len() == HEX_SIZE,
            is_ascii_chars(s@),
    {
        proof {
            use_type_invariant(self);
        }
        let mut text = String::new();
        let mut i: usize = 0;
        while i < self.bytes.len()
            invariant
                0 <= i <= self.bytes.len(),
                text@.len() == 2 * i,
                forall|j: int| 0 <= j < 2 * i ==> text@[j] == #[trigger] hex_encoded(self.bytes@)[j],
            decreases self.bytes.len() - i,
        {
            let b: u8 = self.bytes[i];
            push_char(&mut text, hex_char(b / 16));
            push_char(&mut text, hex_char(b % 16));
            i += 1;
        }
        proof {
            assert(text@ =~= hex_encoded(self.bytes@));
            lemma_hex_encoded_is_ascii(self.bytes@);
        }
        text
    }

    /// The bytes of the digest.
    pub fn bytes(&self) -> (r: &Vec<u8>)
        ensures
            r@ == self@,
            r@.len() == DIGEST_SIZE,
    {
        proof {
            use_type_invariant(self);
        }
        &self.bytes
    }
}

impl Clone for Checksum {
    fn clone(&self) -> (r: Self)
        ensures
            r@ == self@,
    {
        proof {
            use_type_invariant(self);
        }
        let bytes = self.bytes.clone();
        assert(bytes@ =~= self.bytes@);
        Checksum { bytes }
    }
}

impl PartialEq for Checksum {
    fn eq(&self, other: &Self) -> (r: bool) {
        proof {
            use_type_invariant(self);
            use_type_invariant(other);
        }
        let mut i: usize = 0;
        while i < DIGEST_SIZE
            invariant
                0 <= i <= DIGEST_SIZE,
                self.bytes@.len() == DIGEST_SIZE,
                other.bytes@.len() == DIGEST_SIZE,
                forall|j: int| 0 <= j < i ==> self.bytes@[j] == other.bytes@[j],
            decreases DIGEST_SIZE - i,
        {
            if self.bytes[i] != other.bytes[i] {
                return false;
            }
            i += 1;
        }
        assert(self.bytes@ =~= other.bytes@);
        true
    }
}

impl Eq for Checksum {

}

impl PartialEqSpecImpl for Checksum {
    open spec fn obeys_eq_spec() -> bool {
        true
    }

    open spec fn eq_spec(&self, other: &Self) -> bool {
        self@ == other@
    }
}

/// Every character of a hex form is an ASCII hex digit, so its UTF-8 bytes
/// are the hex text itself.
pub proof fn lemma_hex_encoded_is_ascii(bytes: Seq<u8>)
    ensures
        is_ascii_chars(hex_encoded(bytes)),
        encode_utf8(hex_encoded(bytes)) == hex_text(bytes),
        is_hex_text(hex_text(bytes)),
{
    let chars = hex_encoded(bytes);
    let text = hex_text(bytes);
    assert forall|j: int| 0 <= j < text.len() implies is_hex_digit(#[trigger] text[j]) && text[j]
        < 0x80 by {
        let b = bytes[j / 2];
        assert(0 <= b as int / 16 < 16);
        assert(0 <= b as int % 16 < 16);
    }
    assert forall|j: int| 0 <= j < chars.len() implies '\0' <= #[trigger] chars[j] <= '\u{7f}' by {
        assert(text[j] < 0x80);
    }
    is_ascii_chars_encode_utf8(chars);
    assert forall|j: int| 0 <= j < chars.len() implies encode_utf8(chars)[j] == text[j] by {
        assert(chars[j] as u8 == encode_utf8(chars)[j]);
        assert(text[j] < 0x80);
    }
    assert(encode_utf8(chars) =~= text);
}

/// Decoding the hex form of any sequence of bytes gives the bytes back.
pub proof fn lemma_hex_decode_encode(bytes: Seq<u8>)
    ensures
        is_hex_text(hex_text(bytes)),
        hex_decoded(hex_text(bytes)) == bytes,
{
    lemma_hex_encoded_is_ascii(bytes);
    let text = hex_text(bytes);
    assert forall|k: int| 0 <= k < bytes.len() implies hex_decoded(text)[k] == bytes[k] by {
        let b = bytes[k];
        assert((2 * k) / 2 == k && (2 * k) % 2 == 0);
        assert((2 * k + 1) / 2 == k && (2 * k + 1) % 2 == 1);
        assert(hex_digit_value(text[2 * k]) == b as int / 16);
        assert(hex_digit_value(text[2 * k + 1]) == b as int % 16);
    }
    assert(hex_decoded(text) =~= bytes);
}

/// Reading hex fails on every text that is not forty bytes long, and on
/// every text of forty bytes that holds a byte which is no hex digit; on
/// every other text it succeeds.
pub proof fn lemma_from_hex_failures(text: Seq<u8>)
    ensures
        text.len() != HEX_SIZE ==> checksum_from_hex(text) == Err::<Seq<u8>, Error>(
            Error::InvalidLength,
        ),
        text.len() == HEX_SIZE && !all_hex_digits(text) ==> checksum_from_hex(text) == Err::<
            Seq<u8>,
            Error,
        >(Error::InvalidEncoding),
        text.len() == HEX_SIZE && all_hex_digits(text) ==> checksum_from_hex(text) == Ok::<
            Seq<u8>,
            Error,
        >(hex_decoded(text)),
{
}

/// A character of ASCII is its own single byte in UTF-8, the first byte of
/// any other character is no hex digit, and a hex digit is in ASCII.
proof fn lemma_first_byte(c: char)
    ensures
        encode_scalar(c as u32).len() >= 1,
        c as u32 <= 0x7f ==> encode_scalar(c as u32) == seq![c as u8],
        c as u32 > 0x7f ==> !is_hex_digit(encode_scalar(c as u32)[0]),
        is_hex_digit(encode_scalar(c as u32)[0]) ==> is_hex_char(c),
        is_hex_char(c) ==> '\0' <= c <= '\u{7f}' && is_hex_digit(c as u8),
{
    let v = c as u32;
    if v <= 0x7f {
        assert((v & 0x7f) as u8 == v as u8) by (bit_vector)
            requires
                v <= 0x7f,
        ;
    } else {
        assert(forall|x: u8| (0xc0u8 | x) >= 0xc0 && (0xe0u8 | x) >= 0xe0 && (0xf0u8 | x) >= 0xf0)
            by (bit_vector);
    }
}

/// Where every byte of the UTF-8 form of a text is a hex digit, the text has
/// one character per byte and every character is a hex digit.
pub proof fn lemma_hex_bytes_are_hex_chars(chars: Seq<char>)
    requires
        all_hex_digits(encode_utf8(chars)),
    ensures
        encode_utf8(chars).len() == chars.len(),
        all_hex_chars(chars),
    decreases chars.len(),
{
    if chars.len() > 0 {
        let head = encode_scalar(chars[0] as u32);
        let rest = chars.drop_first();
        let bytes = encode_utf8(chars);
        lemma_first_byte(chars[0]);
        assert(bytes == head + encode_utf8(rest));
        assert(bytes[0] == head[0]);
        assert(is_hex_digit(bytes[0]));
        assert(head.len() == 1);
        assert forall|j: int| 0 <= j < encode_utf8(rest).len() implies is_hex_digit(
            #[trigger] encode_utf8(rest)[j],
        ) by {
            assert(encode_utf8(rest)[j] == bytes[j + 1]);
        }
        lemma_hex_bytes_are_hex_chars(rest);
        assert forall|i: int| 0 <= i < chars.len() implies is_hex_char(#[trigger] chars[i]) by {
            if i > 0 {
                assert(chars[i] == rest[i - 1]);
            }
        }
        assert(encode_utf8(chars).len() == chars.len());
    }
}

/// Reading a text as hex fails where the text is not forty characters long,
/// and where any of its characters is no hex digit; it succeeds on every
/// other text.
pub proof fn lemma_from_hex_on_text(chars: Seq<char>)
    ensures
        checksum_from_hex(encode_utf8(chars)) is Ok <==> chars.len() == HEX_SIZE && all_hex_chars(
            chars,
        ),
{
    let bytes = encode_utf8(chars);
    if checksum_from_hex(bytes) is Ok {
        lemma_hex_bytes_are_hex_chars(chars);
    }
    if chars.len() == HEX_SIZE && all_hex_chars(chars) {
        assert(is_ascii_chars(chars)) by {
            assert forall|i: int| 0 <= i < chars.len() implies '\0' <= #[trigger] chars[i]
                <= '\u{7f}' by {
                assert(is_hex_char(chars[i]));
                lemma_first_byte(chars[i]);
            }
        }
        is_ascii_chars_encode_utf8(chars);
        assert forall|i: int| 0 <= i < bytes.len() implies is_hex_digit(#[trigger] bytes[i]) by {
            assert(is_hex_char(chars[i]));
            lemma_first_byte(chars[i]);
            assert(chars[i] as u8 == bytes[i]);
        }
    }
}

/// Round trip: the hex form of a digest, read back as hex, is the digest.
pub proof fn lemma_checksum_round_trip(digest: Seq<u8>)
    requires
        digest.len() == DIGEST_SIZE,
    ensures
        checksum_from_hex(encode_utf8(hex_encoded(digest))) == Ok::<Seq<u8>, Error>(digest),
{
    lemma_hex_encoded_is_ascii(digest);
    lemma_hex_decode_encode(digest);
}

} // verus!
