//! What the library takes from the standard library's strings beyond what
//! is specified for them already.

use vstd::prelude::*;
use vstd::utf8::encode_utf8;

verus! {

/// `String::push` of the standard library appends the given character to the
/// end of the string. Taken on trust: the string afterwards is the string
/// before with `c` added at its end.
pub assume_specification[ String::push ](s: &mut String, c: char)
    ensures
        final(s)@ == old(s)@.push(c),
;

/// Every character takes at least one byte of UTF-8.
pub proof fn lemma_chars_within_bytes(chars: Seq<char>)
    ensures
        chars.len() <= encode_utf8(chars).len(),
    decreases chars.len(),
{
    if chars.len() > 0 {
        lemma_chars_within_bytes(chars.drop_first());
    }
}

/// How many bytes the text takes in UTF-8. A text has no more characters
/// than bytes, so the number of its characters fits in a `usize` too.
pub fn byte_count(text: &str) -> (count: usize)
    ensures
        count == encode_utf8(text@).len(),
        text@.len() <= count,
{
    proof {
        lemma_chars_within_bytes(text@);
    }
    text.as_bytes().len()
}

} // verus!
