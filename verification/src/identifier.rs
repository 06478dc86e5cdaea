//! The rewrite that every name undergoes before it is turned into a number:
//! its first character moves to its end.

use crate::chars::{is_name_part, is_name_start};
use vstd::prelude::*;

verus! {

/// `text` turned left by one place: its first character is taken from the
/// front and put at the end. A text of no or of one character stays as it
/// is.
pub open spec fn rotate_left(text: Seq<char>) -> Seq<char> {
    if text.len() == 0 {
        text
    } else {
        text.drop_first().push(text[0])
    }
}

/// `text` turned right by one place: its last character is taken from the
/// end and put at the front.
pub open spec fn rotate_right(text: Seq<char>) -> Seq<char> {
    if text.len() == 0 {
        text
    } else {
        seq![text.last()] + text.drop_last()
    }
}

/// Whether `text` is a name as it stands in a source: a letter or an
/// underscore, then any number of letters, digits and underscores.
pub open spec fn is_identifier(text: Seq<char>) -> bool {
    &&& text.len() > 0
    &&& is_name_start(text[0])
    &&& forall|i: int| 0 <= i < text.len() ==> is_name_part(#[trigger] text[i])
}

/// Whether `text` is a name turned left by one place: letters, digits and
/// underscores, the last of them a letter or an underscore.
pub open spec fn is_rotated_identifier(text: Seq<char>) -> bool {
    &&& text.len() > 0
    &&& is_name_start(text.last())
    &&& forall|i: int| 0 <= i < text.len() ==> is_name_part(#[trigger] text[i])
}

/// Turns a name left by one place.
pub fn rotate(name: &str) -> (rotated: String)
    ensures
        rotated@ == rotate_left(name@),
{
    let mut rotated = String::new();
    let mut first: Option<char> = None;
    for c in it: name.chars()
        invariant
            it.seq() == name@,
            it.index() == 0 ==> first is None && rotated@ == Seq::<char>::empty(),
            it.index() > 0 ==> first == Some(name@[0]) && rotated@ == name@.subrange(
                1,
                it.index(),
            ),
    {
        match first {
            None => {
                first = Some(c);
            },
            Some(_) => {
                rotated.push(c);
                assert(name@.subrange(1, it.index() + 1) =~= name@.subrange(1, it.index()).push(
                    c,
                ));
            },
        }
    }
    if let Some(c) = first {
        rotated.push(c);
    }
    rotated
}

/// Turning keeps the length, so it maps the texts of one length to
/// themselves.
pub proof fn lemma_rotate_left_len(text: Seq<char>)
    ensures
        rotate_left(text).len() == text.len(),
        rotate_right(text).len() == text.len(),
{
}

/// Turning right undoes turning left: from a turned name the name as it was
/// written comes back exactly.
pub proof fn lemma_rotate_right_undoes_left(text: Seq<char>)
    ensures
        rotate_right(rotate_left(text)) == text,
{
    assert(rotate_right(rotate_left(text)) =~= text);
}

/// Turning left undoes turning right. With the law above, turning left is
/// one-to-one and onto on the texts of each length.
pub proof fn lemma_rotate_left_undoes_right(text: Seq<char>)
    ensures
        rotate_left(rotate_right(text)) == text,
{
    assert(rotate_left(rotate_right(text)) =~= text);
}

/// Two texts that turn into the same text are the same text.
pub proof fn lemma_rotate_left_injective(a: Seq<char>, b: Seq<char>)
    requires
        rotate_left(a) == rotate_left(b),
    ensures
        a == b,
{
    lemma_rotate_right_undoes_left(a);
    lemma_rotate_right_undoes_left(b);
}

/// A text is a name exactly when, turned left, it is a turned name.
pub proof fn lemma_rotated_identifier(text: Seq<char>)
    ensures
        is_identifier(text) <==> is_rotated_identifier(rotate_left(text)),
{
    let turned = rotate_left(text);
    if is_rotated_identifier(turned) {
        // Every character of the text but the first stands one place
        // further to the left in the turned text.
        assert forall|i: int| 0 <= i < text.len() implies is_name_part(#[trigger] text[i]) by {
            if i > 0 {
                assert(text[i] == turned[i - 1]);
            }
        }
    }
}

} // verus!
