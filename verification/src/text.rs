//! Text and bytes: the protocol is written in bytes, its fields are kept
//! as text.

use vstd::prelude::*;
use vstd::utf8::{encode_utf8, valid_utf8};

verus! {

/// Whether `bytes` starts with `word`.
pub fn starts_with(bytes: &[u8], word: &[u8]) -> (b: bool)
    ensures
        b == word@.is_prefix_of(bytes@),
{
    if word.len() > bytes.len() {
        return false;
    }
    let mut i: usize = 0;
    while i < word.len()
        invariant
            i <= word@.len() <= bytes@.len(),
            forall|j: int| 0 <= j < i ==> bytes@[j] == word@[j],
        decreases word@.len() - i,
    {
        if bytes[i] != word[i] {
            return false;
        }
        i += 1;
    }
    assert(word@ =~= bytes@.subrange(0, word@.len() as int));
    true
}

/// `bstr::ByteSlice::to_str`: the text that `bytes` encode. The call
/// succeeds exactly where the bytes are completely valid UTF-8, and the
/// text it gives is those bytes, unchanged.
#[verifier::external_body]
pub(crate) fn text_of(bytes: &[u8]) -> (r: Option<String>)
    ensures
        match r {
            Some(s) => valid_utf8(bytes@) && encode_utf8(s@) == bytes@,
            None => !valid_utf8(bytes@),
        },
{
    bstr::ByteSlice::to_str(bytes).ok().map(|s| s.to_owned())
}

/// The text that `src[from..to]` encodes, if the bytes are valid UTF-8.
pub(crate) fn text_of_range(src: &[u8], from: usize, to: usize) -> (r: Option<String>)
    requires
        from <= to <= src@.len(),
    ensures
        match r {
            Some(s) => valid_utf8(src@.subrange(from as int, to as int)) && encode_utf8(s@)
                == src@.subrange(from as int, to as int),
            None => !valid_utf8(src@.subrange(from as int, to as int)),
        },
{
    let mut bytes: Vec<u8> = Vec::new();
    crate::delta::append_range(&mut bytes, src, from, to);
    assert(bytes@ =~= src@.subrange(from as int, to as int));
    text_of(bytes.as_slice())
}

} // verus!
