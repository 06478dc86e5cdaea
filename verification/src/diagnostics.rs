//! Source positions and the report that a failed scan hands back.

use crate::decimal::{decimal_text, push_decimal};
use vstd::prelude::*;

verus! {

/// A place in a text, as a line and a column, both counted from 1.
pub struct Position {
    pub line: nat,
    pub column: nat,
}

impl Position {
    /// The place of the first character of a text.
    pub open spec fn start() -> Position {
        Position { line: 1, column: 1 }
    }

    /// The place that follows `self` once the character `c` has been read:
    /// a line feed opens the next line, any other character moves one
    /// column to the right.
    pub open spec fn advance(self, c: char) -> Position {
        if c == '\n' {
            Position { line: self.line + 1, column: 1 }
        } else {
            Position { line: self.line, column: self.column + 1 }
        }
    }

    /// Whether `self` lies before `other` in a text: on an earlier line, or
    /// on the same line in an earlier column.
    pub open spec fn precedes(self, other: Position) -> bool {
        self.line < other.line || (self.line == other.line && self.column < other.column)
    }

    /// The place that is reached once all of `text` has been read.
    pub open spec fn after(text: Seq<char>) -> Position
        decreases text.len(),
    {
        if text.len() == 0 {
            Position::start()
        } else {
            Position::after(text.drop_last()).advance(text.last())
        }
    }
}

/// A place in the source text. Lines and columns are counted from 1.
#[derive(Clone, Copy, Debug, PartialEq, Eq, Structural)]
pub struct Pos {
    pub line: usize,
    pub column: usize,
}

impl View for Pos {
    type V = Position;

    open spec fn view(&self) -> Position {
        Position { line: self.line as nat, column: self.column as nat }
    }
}

impl Pos {
    /// The place of the first character of a text: line 1, column 1.
    pub fn start() -> (pos: Pos)
        ensures
            pos@ == Position::start(),
    {
        Pos { line: 1, column: 1 }
    }

    /// The place that follows once the character `c` has been read.
    pub fn advance(self, c: char) -> (next: Pos)
        requires
            c == '\n' ==> self.line < usize::MAX,
            c != '\n' ==> self.column < usize::MAX,
        ensures
            next@ == self@.advance(c),
    {
        if c == '\n' {
            Pos { line: self.line + 1, column: 1 }
        } else {
            Pos { line: self.line, column: self.column + 1 }
        }
    }
}

/// What is known of where a token or a failure lies.
#[derive(Clone, Copy, Debug, PartialEq, Eq, Structural)]
pub struct Info {
    pub pos: Pos,
}

/// What a failed scan reports: where it failed, and why.
#[derive(Debug)]
pub enum Diagnostics {
    Error { info: Info, msg: String },
}

/// What a [`Diagnostics`] stands for: a place and a message.
pub struct Report {
    pub pos: Position,
    pub message: Seq<char>,
}

impl View for Diagnostics {
    type V = Report;

    open spec fn view(&self) -> Report {
        match self {
            Diagnostics::Error { info, msg } => Report { pos: info.pos@, message: msg@ },
        }
    }
}

/// Why a scan fails. Every failure ends the scan.
pub enum Failure {
    /// A character that begins no token.
    UnexpectedCharacter { found: char },
    /// A `:` that no `=` follows at once. What follows it is `next`: no
    /// character at all where the text ends with the `:`.
    MalformedAssign { next: Option<char> },
    /// A run of `count` brackets, opening or closing ones, that is neither
    /// one nor two long.
    AmbiguousBracketRun { opening: bool, count: nat },
    /// A text of digits and points that is no numeral.
    InvalidLiteral { text: Seq<char> },
    /// A text, already turned left by one place, that is no name and so has
    /// no number.
    IdentifierEncodingFailure { text: Seq<char> },
}

impl Failure {
    /// What is said of the failure.
    pub open spec fn message(self) -> Seq<char> {
        match self {
            Failure::UnexpectedCharacter { found } => "Unexpected token '"@.push(found) + "'"@,
            Failure::MalformedAssign { next: Some(c) } => "Expected token '=', got '"@.push(c)
                + "'"@,
            Failure::MalformedAssign { next: None } => "Expected token '=', got end of input"@,
            Failure::AmbiguousBracketRun { opening: true, count } => "Found "@ + decimal_text(count)
                + " consecutive \"(\".\nIf you intend to have multiple \"(\" or \"((\", please seperate them with whitespace."@,
            Failure::AmbiguousBracketRun { opening: false, count } => "Found "@ + decimal_text(
                count,
            )
                + " consecutive \")\".\nIf you intend to have multiple \")\" or \"))\" please seperate them with whitespace."@,
            Failure::InvalidLiteral { text } => text + " is not a valid number literal"@,
            Failure::IdentifierEncodingFailure { text } => text + " is not a valid identifier"@,
        }
    }

    /// The report of the failure at a place.
    pub open spec fn at(self, pos: Position) -> Report {
        Report { pos, message: self.message() }
    }
}

impl Diagnostics {
    /// The report of a character that begins no token.
    pub fn unexpected_character(found: char, pos: Pos) -> (diagnostics: Diagnostics)
        ensures
            diagnostics@ == (Failure::UnexpectedCharacter { found }).at(pos@),
    {
        let mut msg = String::from_str("Unexpected token '");
        msg.push(found);
        msg.append("'");
        Diagnostics::Error { info: Info { pos }, msg }
    }

    /// The report of a `:` that no `=` follows.
    pub fn malformed_assign(next: Option<char>, pos: Pos) -> (diagnostics: Diagnostics)
        ensures
            diagnostics@ == (Failure::MalformedAssign { next }).at(pos@),
    {
        let msg = match next {
            Some(c) => {
                let mut msg = String::from_str("Expected token '=', got '");
                msg.push(c);
                msg.append("'");
                msg
            },
            None => String::from_str("Expected token '=', got end of input"),
        };
        Diagnostics::Error { info: Info { pos }, msg }
    }

    /// The report of a run of brackets that is neither one nor two long.
    pub fn ambiguous_bracket_run(opening: bool, count: usize, pos: Pos) -> (diagnostics:
        Diagnostics)
        ensures
            diagnostics@ == (Failure::AmbiguousBracketRun { opening, count: count as nat }).at(
                pos@,
            ),
    {
        let mut msg = String::from_str("Found ");
        push_decimal(count, &mut msg);
        if opening {
            msg.append(
                " consecutive \"(\".\nIf you intend to have multiple \"(\" or \"((\", please seperate them with whitespace.",
            );
        } else {
            msg.append(
                " consecutive \")\".\nIf you intend to have multiple \")\" or \"))\" please seperate them with whitespace.",
            );
        }
        Diagnostics::Error { info: Info { pos }, msg }
    }
}

/// Lines and columns are at least 1, and every character that is read adds
/// one to the line or to the column, never to both.
pub proof fn lemma_position_bound(text: Seq<char>)
    ensures
        Position::after(text).line >= 1,
        Position::after(text).column >= 1,
        Position::after(text).line + Position::after(text).column <= text.len() + 2,
    decreases text.len(),
{
    if text.len() > 0 {
        lemma_position_bound(text.drop_last());
    }
}

/// The further a text is read, the later the place that is reached.
pub proof fn lemma_position_rises(text: Seq<char>, early: int, late: int)
    requires
        0 <= early < late <= text.len(),
    ensures
        Position::after(text.take(early)).precedes(Position::after(text.take(late))),
    decreases late - early,
{
    assert(text.take(late).drop_last() == text.take(late - 1));
    if early < late - 1 {
        lemma_position_rises(text, early, late - 1);
    }
}

} // verus!
