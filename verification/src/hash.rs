//! Object ids: 20-byte content hashes and their 40-digit hexadecimal form.

use crate::errors::GitError;
use crate::hex::{hex_digit, hex_value, lemma_hex_digit_value, value_of};
use vstd::prelude::*;
use vstd::string::*;

verus! {

/// The id of an object: the digest of its type, size and content.
#[derive(Clone, Copy, Debug)]
pub struct Hash(pub [u8; 20]);

impl View for Hash {
    type V = Seq<u8>;

    open spec fn view(&self) -> Seq<u8> {
        self.0@
    }
}

/// Whether every byte of `text` is a hexadecimal digit.
pub open spec fn is_hex(text: Seq<u8>) -> bool {
    forall|i: int| 0 <= i < text.len() ==> (#[trigger] hex_value(text[i])) is Some
}

/// The bytes that the hexadecimal digits `text` spell, two digits to a
/// byte, the high digit first.
pub open spec fn hex_decode(text: Seq<u8>) -> Seq<u8> {
    Seq::new(
        text.len() / 2,
        |i: int| (hex_value(text[2 * i]).unwrap() * 16 + hex_value(text[2 * i + 1]).unwrap()) as u8,
    )
}

/// `bytes` in lower-case hexadecimal digits, two digits to a byte, the high
/// digit first.
pub open spec fn hex_encode(bytes: Seq<u8>) -> Seq<u8> {
    Seq::new(
        2 * bytes.len(),
        |i: int|
            if i % 2 == 0 {
                hex_digit(bytes[i / 2] as int / 16)
            } else {
                hex_digit(bytes[i / 2] as int % 16)
            },
    )
}

/// `bytes` in lower-case hexadecimal digits, as text.
pub open spec fn hex_text(bytes: Seq<u8>) -> Seq<char> {
    Seq::new(2 * bytes.len(), |i: int| hex_encode(bytes)[i] as char)
}

/// Reading the digits that bytes were written in gives the bytes back.
pub proof fn lemma_hex_round_trip(bytes: Seq<u8>)
    ensures
        is_hex(hex_encode(bytes)),
        hex_decode(hex_encode(bytes)) == bytes,
{
    let text = hex_encode(bytes);
    assert forall|i: int| 0 <= i < text.len() implies (#[trigger] hex_value(text[i])) is Some by {
        lemma_hex_digit_value(bytes[i / 2] as int / 16);
        lemma_hex_digit_value(bytes[i / 2] as int % 16);
    }
    assert forall|i: int| 0 <= i < bytes.len() implies hex_decode(text)[i] == bytes[i] by {
        lemma_hex_digit_value(bytes[i] as int / 16);
        lemma_hex_digit_value(bytes[i] as int % 16);
        assert(text[2 * i] == hex_digit(bytes[i] as int / 16));
        assert(text[2 * i + 1] == hex_digit(bytes[i] as int % 16));
    }
    assert(hex_decode(text) =~= bytes);
}

/// The text of written bytes has the written digits as its bytes.
pub proof fn lemma_hex_text_bytes(bytes: Seq<u8>)
    ensures
        vstd::utf8::encode_utf8(hex_text(bytes)) == hex_encode(bytes),
{
    let text = hex_text(bytes);
    assert(vstd::utf8::is_ascii_chars(text));
    vstd::utf8::is_ascii_chars_encode_utf8(text);
    assert(vstd::utf8::encode_utf8(text) =~= hex_encode(bytes));
}

/// Hexadecimal digits are text.
pub proof fn lemma_hex_is_text(text: Seq<u8>)
    requires
        is_hex(text),
    ensures
        vstd::utf8::valid_utf8(text),
{
    assert forall|i: int| 0 <= i < text.len() implies #[trigger] vstd::utf8::is_leading_byte_width_1(
        text[i],
    ) by {
        assert(hex_value(text[i]) is Some);
    }
    assert(text.subrange(0, 0) =~= Seq::<u8>::empty());
    assert(vstd::utf8::partial_valid_utf8(text, 0));
    vstd::utf8::partial_valid_utf8_extend_ascii_block(text, 0, text.len() as int);
    assert(text.subrange(0, text.len() as int) =~= text);
}

/// The text of one lower-case hexadecimal digit.
fn digit_text(v: u8) -> (r: &'static str)
    requires
        v < 16,
    ensures
        r@ == seq![hex_digit(v as int) as char],
{
    proof {
        reveal_strlit("0");
        reveal_strlit("1");
        reveal_strlit("2");
        reveal_strlit("3");
        reveal_strlit("4");
        reveal_strlit("5");
        reveal_strlit("6");
        reveal_strlit("7");
        reveal_strlit("8");
        reveal_strlit("9");
        reveal_strlit("a");
        reveal_strlit("b");
        reveal_strlit("c");
        reveal_strlit("d");
        reveal_strlit("e");
        reveal_strlit("f");
    }
    let r = if v == 0 {
        "0"
    } else if v == 1 {
        "1"
    } else if v == 2 {
        "2"
    } else if v == 3 {
        "3"
    } else if v == 4 {
        "4"
    } else if v == 5 {
        "5"
    } else if v == 6 {
        "6"
    } else if v == 7 {
        "7"
    } else if v == 8 {
        "8"
    } else if v == 9 {
        "9"
    } else if v == 10 {
        "a"
    } else if v == 11 {
        "b"
    } else if v == 12 {
        "c"
    } else if v == 13 {
        "d"
    } else if v == 14 {
        "e"
    } else {
        "f"
    };
    assert(r@ =~= seq![hex_digit(v as int) as char]);
    r
}

impl Default for Hash {
    fn default() -> (h: Hash)
        ensures
            h@ == Seq::new(20, |i: int| 0u8),
    {
        Hash::zero()
    }
}

impl Hash {
    /// The id of twenty zero bytes, which names no object.
    pub fn zero() -> (h: Hash)
        ensures
            h@ == Seq::new(20, |i: int| 0u8),
    {
        let h = Hash([0u8; 20]);
        assert(h@ =~= Seq::new(20, |i: int| 0u8));
        h
    }

    /// Whether `self` and `other` are the same id.
    pub fn same(&self, other: &Hash) -> (b: bool)
        ensures
            b == (*self == *other),
    {
        let mut i: usize = 0;
        while i < 20
            invariant
                i <= 20,
                forall|j: int| 0 <= j < i ==> self.0[j] == other.0[j],
            decreases 20 - i,
        {
            if self.0[i] != other.0[i] {
                return false;
            }
            i += 1;
        }
        proof {
            assert(self.0 =~= other.0);
        }
        true
    }

    /// The id that the forty hexadecimal digits `text` spell, in either
    /// case. Fails with `FormatError` where `text` is not forty
    /// hexadecimal digits.
    pub fn from_bytes(text: &[u8]) -> (r: Result<Hash, GitError>)
        ensures
            match r {
                Ok(h) => text@.len() == 40 && is_hex(text@) && h@ == hex_decode(text@),
                Err(e) => e == GitError::FormatError && !(text@.len() == 40 && is_hex(text@)),
            },
    {
        if text.len() != 40 {
            return Err(GitError::FormatError);
        }
        let mut bytes: [u8; 20] = [0u8; 20];
        let mut i: usize = 0;
        while i < 20
            invariant
                i <= 20,
                text@.len() == 40,
                forall|j: int| 0 <= j < 2 * i ==> (#[trigger] hex_value(text@[j])) is Some,
                forall|j: int| 0 <= j < i ==> bytes@[j] == hex_decode(text@)[j],
            decreases 20 - i,
        {
            let high = match value_of(text[2 * i]) {
                Some(v) => v,
                None => {
                    return Err(GitError::FormatError);
                },
            };
            let low = match value_of(text[2 * i + 1]) {
                Some(v) => v,
                None => {
                    return Err(GitError::FormatError);
                },
            };
            bytes.set(i, (high * 16 + low) as u8);
            i += 1;
        }
        let h = Hash(bytes);
        assert(h@ =~= hex_decode(text@));
        Ok(h)
    }

    /// The id in forty lower-case hexadecimal digits; reading them gives
    /// the id back.
    pub fn to_plain_str(&self) -> (r: String)
        ensures
            r@ == hex_text(self@),
            vstd::utf8::encode_utf8(r@) == hex_encode(self@),
            is_hex(vstd::utf8::encode_utf8(r@)),
            hex_decode(vstd::utf8::encode_utf8(r@)) == self@,
    {
        proof {
            lemma_hex_text_bytes(self@);
            lemma_hex_round_trip(self@);
        }
        let mut r = String::new();
        let mut i: usize = 0;
        while i < 20
            invariant
                i <= 20,
                r@ == hex_text(self@).take(2 * i),
            decreases 20 - i,
        {
            let b: u8 = self.0[i];
            r.append(digit_text(b / 16));
            r.append(digit_text(b % 16));
            proof {
                let whole = hex_text(self@);
                assert(whole.take(2 * i + 2) =~= whole.take(2 * i) + seq![whole[2 * i]] + seq![
                    whole[2 * i + 1],
                ]);
            }
            i += 1;
        }
        assert(hex_text(self@).take(40) =~= hex_text(self@));
        r
    }
}

} // verus!
