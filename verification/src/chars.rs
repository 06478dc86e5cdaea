//! The classes of characters that the scanner tells apart.

use vstd::prelude::*;

verus! {

/// Whether `c` is one of the ten ASCII digits.
pub open spec fn spec_is_digit(c: char) -> bool {
    '0' <= c <= '9'
}

/// Whether `c` is an ASCII letter.
pub open spec fn spec_is_letter(c: char) -> bool {
    'a' <= c <= 'z' || 'A' <= c <= 'Z'
}

/// Whether a name may begin with `c`: a letter or an underscore.
pub open spec fn spec_is_name_start(c: char) -> bool {
    spec_is_letter(c) || c == '_'
}

/// Whether a name may go on with `c`: a letter, a digit or an underscore.
pub open spec fn spec_is_name_part(c: char) -> bool {
    spec_is_name_start(c) || spec_is_digit(c)
}

/// Whether a numeral may hold `c`: a digit or a point.
pub open spec fn spec_is_number_part(c: char) -> bool {
    spec_is_digit(c) || c == '.'
}

/// Whether `c` is white space: one of the 25 code points that carry the
/// Unicode property `White_Space`.
pub open spec fn spec_is_whitespace(c: char) -> bool {
    ||| '\u{9}' <= c <= '\u{D}'
    ||| c == ' '
    ||| c == '\u{85}'
    ||| c == '\u{A0}'
    ||| c == '\u{1680}'
    ||| '\u{2000}' <= c <= '\u{200A}'
    ||| c == '\u{2028}'
    ||| c == '\u{2029}'
    ||| c == '\u{202F}'
    ||| c == '\u{205F}'
    ||| c == '\u{3000}'
}

/// Whether `c` is one of the ten ASCII digits.
#[verifier::when_used_as_spec(spec_is_digit)]
pub fn is_digit(c: char) -> (yes: bool)
    ensures
        yes == spec_is_digit(c),
{
    '0' <= c && c <= '9'
}

/// Whether `c` is an ASCII letter.
#[verifier::when_used_as_spec(spec_is_letter)]
pub fn is_letter(c: char) -> (yes: bool)
    ensures
        yes == spec_is_letter(c),
{
    ('a' <= c && c <= 'z') || ('A' <= c && c <= 'Z')
}

/// Whether a name may begin with `c`.
#[verifier::when_used_as_spec(spec_is_name_start)]
pub fn is_name_start(c: char) -> (yes: bool)
    ensures
        yes == spec_is_name_start(c),
{
    is_letter(c) || c == '_'
}

/// Whether a name may go on with `c`.
#[verifier::when_used_as_spec(spec_is_name_part)]
pub fn is_name_part(c: char) -> (yes: bool)
    ensures
        yes == spec_is_name_part(c),
{
    is_name_start(c) || is_digit(c)
}

/// Whether a numeral may hold `c`.
#[verifier::when_used_as_spec(spec_is_number_part)]
pub fn is_number_part(c: char) -> (yes: bool)
    ensures
        yes == spec_is_number_part(c),
{
    is_digit(c) || c == '.'
}

/// Whether `c` is white space.
#[verifier::when_used_as_spec(spec_is_whitespace)]
pub fn is_whitespace(c: char) -> (yes: bool)
    ensures
        yes == spec_is_whitespace(c),
{
    ('\u{9}' <= c && c <= '\u{D}') || c == ' ' || c == '\u{85}' || c == '\u{A0}' || c
        == '\u{1680}' || ('\u{2000}' <= c && c <= '\u{200A}') || c == '\u{2028}' || c
        == '\u{2029}' || c == '\u{202F}' || c == '\u{205F}' || c == '\u{3000}'
}

/// White space begins no token: it is neither a bracket, a `#`, a `:`, a
/// `=`, nor a character of a name or of a numeral.
pub proof fn lemma_whitespace_is_apart(c: char)
    requires
        is_whitespace(c),
    ensures
        !is_name_part(c),
        !is_number_part(c),
        c != '(' && c != ')' && c != '#' && c != ':' && c != '=',
{
}

} // verus!
