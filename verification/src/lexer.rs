//! The scanner: from the characters of a source text to its tokens.
//!
//! The scanner reads one character at a time and holds at most one token
//! that is still open. Each character either goes into the open token, or
//! closes it and is then looked at afresh. What the scanner computes is
//! [`scan`]; [`process`] is proved against it.

use crate::chars::{is_name_part, is_name_start, is_number_part, is_whitespace};
use crate::diagnostics::{
    lemma_position_bound, lemma_position_rises, Diagnostics, Failure, Info, Pos, Position, Report,
};
use crate::identifier::{is_identifier, lemma_rotated_identifier, rotate, rotate_left};
use crate::number::{is_literal, literal_number, name_number, Number, NumberView};
use crate::text::byte_count;
use vstd::prelude::*;
use vstd::std_specs::cmp::PartialEqSpecImpl;

verus! {

/// What a token is. A name and a numeral both end as a `Number`: past the
/// scanner no token holds the text of a name.
#[derive(Debug)]
pub enum TokenKind {
    OpenBracket,
    CloseBracket,
    Comment(String),
    OpenBracket2,
    CloseBracket2,
    Assign,
    Number(Number),
}

/// What a [`TokenKind`] stands for.
pub enum TokenKindView {
    OpenBracket,
    CloseBracket,
    Comment(Seq<char>),
    OpenBracket2,
    CloseBracket2,
    Assign,
    Number(NumberView),
}

impl View for TokenKind {
    type V = TokenKindView;

    open spec fn view(&self) -> TokenKindView {
        match self {
            TokenKind::OpenBracket => TokenKindView::OpenBracket,
            TokenKind::CloseBracket => TokenKindView::CloseBracket,
            TokenKind::Comment(text) => TokenKindView::Comment(text@),
            TokenKind::OpenBracket2 => TokenKindView::OpenBracket2,
            TokenKind::CloseBracket2 => TokenKindView::CloseBracket2,
            TokenKind::Assign => TokenKindView::Assign,
            TokenKind::Number(number) => TokenKindView::Number(number@),
        }
    }
}

impl PartialEq for TokenKind {
    fn eq(&self, other: &TokenKind) -> (equal: bool) {
        match (self, other) {
            (TokenKind::OpenBracket, TokenKind::OpenBracket) => true,
            (TokenKind::CloseBracket, TokenKind::CloseBracket) => true,
            (TokenKind::Comment(a), TokenKind::Comment(b)) => *a == *b,
            (TokenKind::OpenBracket2, TokenKind::OpenBracket2) => true,
            (TokenKind::CloseBracket2, TokenKind::CloseBracket2) => true,
            (TokenKind::Assign, TokenKind::Assign) => true,
            (TokenKind::Number(a), TokenKind::Number(b)) => *a == *b,
            _ => false,
        }
    }
}

impl PartialEqSpecImpl for TokenKind {
    open spec fn obeys_eq_spec() -> bool {
        true
    }

    open spec fn eq_spec(&self, other: &TokenKind) -> bool {
        self@ == other@
    }
}

impl Eq for TokenKind {

}

/// A token, and where its first character stands.
#[derive(Debug)]
pub struct Token {
    pub info: Info,
    pub kind: TokenKind,
}

/// What a [`Token`] stands for.
pub struct TokenView {
    pub pos: Position,
    pub kind: TokenKindView,
}

impl View for Token {
    type V = TokenView;

    open spec fn view(&self) -> TokenView {
        TokenView { pos: self.info.pos@, kind: self.kind@ }
    }
}

/// A token that is still open: what has been read of it so far.
#[derive(Debug)]
pub enum PartialToken {
    /// A run of so many `(`.
    OpenBracket(usize),
    /// A run of so many `)`.
    CloseBracket(usize),
    /// A comment, with its text after the `#`.
    Comment(String),
    /// A `:` that waits for its `=`.
    Assign,
    /// A name, as it is written.
    Name(String),
    /// A numeral, as it is written.
    Number(String),
}

/// What a [`PartialToken`] stands for.
pub enum PartialTokenView {
    OpenBracket(nat),
    CloseBracket(nat),
    Comment(Seq<char>),
    Assign,
    Name(Seq<char>),
    Number(Seq<char>),
}

impl View for PartialToken {
    type V = PartialTokenView;

    open spec fn view(&self) -> PartialTokenView {
        match self {
            PartialToken::OpenBracket(count) => PartialTokenView::OpenBracket(*count as nat),
            PartialToken::CloseBracket(count) => PartialTokenView::CloseBracket(*count as nat),
            PartialToken::Comment(text) => PartialTokenView::Comment(text@),
            PartialToken::Assign => PartialTokenView::Assign,
            PartialToken::Name(text) => PartialTokenView::Name(text@),
            PartialToken::Number(text) => PartialTokenView::Number(text@),
        }
    }
}

/// The open token of a scan, if there is one, with the place of its first
/// character.
pub type Open = Option<(PartialTokenView, Position)>;

/// What the open token of the scanner stands for.
pub open spec fn open_view(partial: Option<(PartialToken, Pos)>) -> Open {
    match partial {
        Some((partial, start)) => Some((partial@, start@)),
        None => None,
    }
}

/// What a row of tokens stands for.
pub open spec fn token_views(tokens: Seq<Token>) -> Seq<TokenView> {
    tokens.map_values(|token: Token| token@)
}

/// What a character opens when no token is open. White space opens
/// nothing. A character that begins no token is a failure at its place.
pub open spec fn classify(c: char, pos: Position) -> Result<Open, Report> {
    if is_whitespace(c) {
        Ok(None)
    } else if c == '#' {
        Ok(Some((PartialTokenView::Comment(Seq::empty()), pos)))
    } else if c == '(' {
        Ok(Some((PartialTokenView::OpenBracket(1), pos)))
    } else if c == ')' {
        Ok(Some((PartialTokenView::CloseBracket(1), pos)))
    } else if is_number_part(c) {
        Ok(Some((PartialTokenView::Number(seq![c]), pos)))
    } else if c == ':' {
        Ok(Some((PartialTokenView::Assign, pos)))
    } else if is_name_start(c) {
        Ok(Some((PartialTokenView::Name(seq![c]), pos)))
    } else {
        Err((Failure::UnexpectedCharacter { found: c }).at(pos))
    }
}

/// The token that an open token becomes when it is closed.
///
/// A run of brackets becomes one token if it is one or two long, and is a
/// failure otherwise. A name is turned left by one place and then into its
/// number; a numeral is turned into its number. A failure lies at the place
/// of the token's first character.
pub open spec fn finalize(partial: PartialTokenView, pos: Position) -> Result<TokenView, Report> {
    match partial {
        PartialTokenView::OpenBracket(count) => if count == 1 {
            Ok(TokenView { pos, kind: TokenKindView::OpenBracket })
        } else if count == 2 {
            Ok(TokenView { pos, kind: TokenKindView::OpenBracket2 })
        } else {
            Err((Failure::AmbiguousBracketRun { opening: true, count }).at(pos))
        },
        PartialTokenView::CloseBracket(count) => if count == 1 {
            Ok(TokenView { pos, kind: TokenKindView::CloseBracket })
        } else if count == 2 {
            Ok(TokenView { pos, kind: TokenKindView::CloseBracket2 })
        } else {
            Err((Failure::AmbiguousBracketRun { opening: false, count }).at(pos))
        },
        PartialTokenView::Comment(text) => Ok(
            TokenView { pos, kind: TokenKindView::Comment(text) },
        ),
        PartialTokenView::Assign => Ok(TokenView { pos, kind: TokenKindView::Assign }),
        PartialTokenView::Name(text) => if is_identifier(text) {
            Ok(TokenView { pos, kind: TokenKindView::Number(name_number(rotate_left(text))) })
        } else {
            Err((Failure::IdentifierEncodingFailure { text: rotate_left(text) }).at(pos))
        },
        PartialTokenView::Number(text) => if is_literal(text) {
            Ok(TokenView { pos, kind: TokenKindView::Number(literal_number(text)) })
        } else {
            Err((Failure::InvalidLiteral { text }).at(pos))
        },
    }
}

/// How far a scan has come: the tokens that are closed, and the open one.
pub struct Scan {
    pub tokens: Seq<TokenView>,
    pub open: Open,
}

/// The open token closed, and `c` looked at afresh.
pub open spec fn close_and_classify(
    tokens: Seq<TokenView>,
    partial: PartialTokenView,
    start: Position,
    c: char,
    pos: Position,
) -> Result<Scan, Report> {
    match finalize(partial, start) {
        Ok(token) => match classify(c, pos) {
            Ok(open) => Ok(Scan { tokens: tokens.push(token), open }),
            Err(report) => Err(report),
        },
        Err(report) => Err(report),
    }
}

/// One step of the scan: the character `c`, which stands at `pos`, is read.
pub open spec fn step(scan: Scan, c: char, pos: Position) -> Result<Scan, Report> {
    match scan.open {
        None => match classify(c, pos) {
            Ok(open) => Ok(Scan { tokens: scan.tokens, open }),
            Err(report) => Err(report),
        },
        Some((PartialTokenView::OpenBracket(count), start)) => if c == '(' {
            Ok(
                Scan {
                    tokens: scan.tokens,
                    open: Some((PartialTokenView::OpenBracket(count + 1), start)),
                },
            )
        } else {
            close_and_classify(scan.tokens, PartialTokenView::OpenBracket(count), start, c, pos)
        },
        Some((PartialTokenView::CloseBracket(count), start)) => if c == ')' {
            Ok(
                Scan {
                    tokens: scan.tokens,
                    open: Some((PartialTokenView::CloseBracket(count + 1), start)),
                },
            )
        } else {
            close_and_classify(scan.tokens, PartialTokenView::CloseBracket(count), start, c, pos)
        },
        Some((PartialTokenView::Comment(text), start)) => if c == '\n' {
            close_and_classify(scan.tokens, PartialTokenView::Comment(text), start, c, pos)
        } else {
            Ok(
                Scan {
                    tokens: scan.tokens,
                    open: Some((PartialTokenView::Comment(text.push(c)), start)),
                },
            )
        },
        Some((PartialTokenView::Assign, start)) => if c == '=' {
            Ok(
                Scan {
                    tokens: scan.tokens.push(TokenView { pos: start, kind: TokenKindView::Assign }),
                    open: None,
                },
            )
        } else {
            Err((Failure::MalformedAssign { next: Some(c) }).at(start))
        },
        Some((PartialTokenView::Name(text), start)) => if is_name_part(c) {
            Ok(
                Scan {
                    tokens: scan.tokens,
                    open: Some((PartialTokenView::Name(text.push(c)), start)),
                },
            )
        } else {
            close_and_classify(scan.tokens, PartialTokenView::Name(text), start, c, pos)
        },
        Some((PartialTokenView::Number(text), start)) => if is_number_part(c) {
            Ok(
                Scan {
                    tokens: scan.tokens,
                    open: Some((PartialTokenView::Number(text.push(c)), start)),
                },
            )
        } else {
            close_and_classify(scan.tokens, PartialTokenView::Number(text), start, c, pos)
        },
    }
}

/// The scan of a whole text up to its last character: every character is
/// read in turn, each at its place, and the first failure ends the scan.
pub open spec fn scan_prefix(text: Seq<char>) -> Result<Scan, Report>
    decreases text.len(),
{
    if text.len() == 0 {
        Ok(Scan { tokens: Seq::empty(), open: None })
    } else {
        match scan_prefix(text.drop_last()) {
            Ok(scan) => step(scan, text.last(), Position::after(text.drop_last())),
            Err(report) => Err(report),
        }
    }
}

/// The end of the text: a token that is still open is closed as any
/// character that does not go on with it would close it. Only a `:` that
/// waits for its `=` cannot be closed: that is a failure at its place.
pub open spec fn finish(scan: Scan) -> Result<Seq<TokenView>, Report> {
    match scan.open {
        None => Ok(scan.tokens),
        Some((PartialTokenView::Assign, start)) => Err(
            (Failure::MalformedAssign { next: None }).at(start),
        ),
        Some((partial, start)) => match finalize(partial, start) {
            Ok(token) => Ok(scan.tokens.push(token)),
            Err(report) => Err(report),
        },
    }
}

/// The tokens of a text, in the order of the text, or the first failure.
pub open spec fn scan(text: Seq<char>) -> Result<Seq<TokenView>, Report> {
    match scan_prefix(text) {
        Ok(scan) => finish(scan),
        Err(report) => Err(report),
    }
}

/// Closes an open token.
pub fn complete_token(partial: PartialToken, pos: Pos) -> (result: Result<Token, Diagnostics>)
    ensures
        match result {
            Ok(token) => finalize(partial@, pos@) == Ok::<TokenView, Report>(token@),
            Err(diagnostics) => finalize(partial@, pos@) == Err::<TokenView, Report>(diagnostics@),
        },
{
    let kind = match partial {
        PartialToken::OpenBracket(count) => {
            if count == 1 {
                TokenKind::OpenBracket
            } else if count == 2 {
                TokenKind::OpenBracket2
            } else {
                return Err(Diagnostics::ambiguous_bracket_run(true, count, pos));
            }
        },
        PartialToken::CloseBracket(count) => {
            if count == 1 {
                TokenKind::CloseBracket
            } else if count == 2 {
                TokenKind::CloseBracket2
            } else {
                return Err(Diagnostics::ambiguous_bracket_run(false, count, pos));
            }
        },
        PartialToken::Comment(content) => TokenKind::Comment(content),
        PartialToken::Assign => TokenKind::Assign,
        PartialToken::Name(name) => {
            proof {
                lemma_rotated_identifier(name@);
            }
            match Number::from_name(rotate(name.as_str())) {
                Ok(number) => TokenKind::Number(number),
                Err(msg) => {
                    return Err(Diagnostics::Error { info: Info { pos }, msg });
                },
            }
        },
        PartialToken::Number(text) => match Number::from_string(text) {
            Ok(number) => TokenKind::Number(number),
            Err(msg) => {
                return Err(Diagnostics::Error { info: Info { pos }, msg });
            },
        },
    };
    Ok(Token { info: Info { pos }, kind })
}

/// Looks at a character while no token is open.
pub fn start_token(c: char, pos: Pos) -> (result: Result<Option<(PartialToken, Pos)>, Diagnostics>)
    ensures
        match result {
            Ok(open) => classify(c, pos@) == Ok::<Open, Report>(open_view(open)),
            Err(diagnostics) => classify(c, pos@) == Err::<Open, Report>(diagnostics@),
        },
{
    if is_whitespace(c) {
        Ok(None)
    } else if c == '#' {
        Ok(Some((PartialToken::Comment(String::new()), pos)))
    } else if c == '(' {
        Ok(Some((PartialToken::OpenBracket(1), pos)))
    } else if c == ')' {
        Ok(Some((PartialToken::CloseBracket(1), pos)))
    } else if is_number_part(c) {
        let mut text = String::new();
        text.push(c);
        Ok(Some((PartialToken::Number(text), pos)))
    } else if c == ':' {
        Ok(Some((PartialToken::Assign, pos)))
    } else if is_name_start(c) {
        let mut text = String::new();
        text.push(c);
        Ok(Some((PartialToken::Name(text), pos)))
    } else {
        Err(Diagnostics::unexpected_character(c, pos))
    }
}

/// Whether the open token can take the character `c`: a run of brackets
/// that a further bracket lengthens must not have reached `usize::MAX`.
pub open spec fn can_take(open: Option<(PartialToken, Pos)>, c: char) -> bool {
    match open {
        Some((PartialToken::OpenBracket(count), _)) => c == '(' ==> count < usize::MAX,
        Some((PartialToken::CloseBracket(count), _)) => c == ')' ==> count < usize::MAX,
        _ => true,
    }
}

/// Reads the character `c`, which stands at `pos`: it goes into the open
/// token, or closes it and is looked at afresh. A token that is closed is
/// put at the end of `tokens`.
pub fn read_character(
    open: Option<(PartialToken, Pos)>,
    c: char,
    pos: Pos,
    tokens: &mut Vec<Token>,
) -> (result: Result<Option<(PartialToken, Pos)>, Diagnostics>)
    requires
        can_take(open, c),
    ensures
        match result {
            Ok(next) => step(
                Scan { tokens: token_views(old(tokens)@), open: open_view(open) },
                c,
                pos@,
            ) == Ok::<Scan, Report>(
                Scan { tokens: token_views(final(tokens)@), open: open_view(next) },
            ),
            Err(diagnostics) => step(
                Scan { tokens: token_views(old(tokens)@), open: open_view(open) },
                c,
                pos@,
            ) == Err::<Scan, Report>(diagnostics@),
        },
{
    match open {
        None => start_token(c, pos),
        Some((partial, start)) => match partial {
            PartialToken::Comment(mut content) => {
                if c == '\n' {
                    close_and_start(PartialToken::Comment(content), start, c, pos, tokens)
                } else {
                    content.push(c);
                    Ok(Some((PartialToken::Comment(content), start)))
                }
            },
            PartialToken::Assign => {
                if c == '=' {
                    let token = Token { info: Info { pos: start }, kind: TokenKind::Assign };
                    push_token(tokens, token);
                    Ok(None)
                } else {
                    Err(Diagnostics::malformed_assign(Some(c), start))
                }
            },
            PartialToken::Name(mut name) => {
                if is_name_part(c) {
                    name.push(c);
                    Ok(Some((PartialToken::Name(name), start)))
                } else {
                    close_and_start(PartialToken::Name(name), start, c, pos, tokens)
                }
            },
            PartialToken::Number(mut text) => {
                if is_number_part(c) {
                    text.push(c);
                    Ok(Some((PartialToken::Number(text), start)))
                } else {
                    close_and_start(PartialToken::Number(text), start, c, pos, tokens)
                }
            },
            PartialToken::OpenBracket(count) => {
                if c == '(' {
                    Ok(Some((PartialToken::OpenBracket(count + 1), start)))
                } else {
                    close_and_start(PartialToken::OpenBracket(count), start, c, pos, tokens)
                }
            },
            PartialToken::CloseBracket(count) => {
                if c == ')' {
                    Ok(Some((PartialToken::CloseBracket(count + 1), start)))
                } else {
                    close_and_start(PartialToken::CloseBracket(count), start, c, pos, tokens)
                }
            },
        },
    }
}

/// Puts a token at the end of the tokens.
fn push_token(tokens: &mut Vec<Token>, token: Token)
    ensures
        token_views(final(tokens)@) == token_views(old(tokens)@).push(token@),
{
    tokens.push(token);
    assert(token_views(tokens@) =~= token_views(old(tokens)@).push(token@));
}

/// Closes the open token, puts it at the end of `tokens`, and looks at `c`
/// afresh.
fn close_and_start(
    partial: PartialToken,
    start: Pos,
    c: char,
    pos: Pos,
    tokens: &mut Vec<Token>,
) -> (result: Result<Option<(PartialToken, Pos)>, Diagnostics>)
    ensures
        match result {
            Ok(next) => close_and_classify(token_views(old(tokens)@), partial@, start@, c, pos@)
                == Ok::<Scan, Report>(
                Scan { tokens: token_views(final(tokens)@), open: open_view(next) },
            ),
            Err(diagnostics) => close_and_classify(
                token_views(old(tokens)@),
                partial@,
                start@,
                c,
                pos@,
            ) == Err::<Scan, Report>(diagnostics@),
        },
{
    push_token(tokens, complete_token(partial, start)?);
    start_token(c, pos)
}

/// Scans a source text: its tokens in the order of the text, or the first
/// failure, after which nothing more is read.
pub fn process(src: &str) -> (result: Result<Vec<Token>, Diagnostics>)
    ensures
        match result {
            Ok(tokens) => scan(src@) == Ok::<Seq<TokenView>, Report>(token_views(tokens@)),
            Err(diagnostics) => scan(src@) == Err::<Seq<TokenView>, Report>(diagnostics@),
        },
{
    let limit: usize = byte_count(src);
    let mut tokens: Vec<Token> = Vec::new();
    let mut open: Option<(PartialToken, Pos)> = None;
    // The place is moved past a character only when the next one is read:
    // so it never lies further than the last character of the text, and
    // fits in the numbers that hold it.
    let mut pos = Pos::start();
    let mut previous: Option<char> = None;
    assert(token_views(tokens@) =~= Seq::<TokenView>::empty());
    for c in it: src.chars()
        invariant
            it.seq() == src@,
            src@.len() <= limit,
            scan_prefix(src@.take(it.index())) == Ok::<Scan, Report>(
                Scan { tokens: token_views(tokens@), open: open_view(open) },
            ),
            it.index() == 0 ==> previous is None && pos@ == Position::start(),
            it.index() > 0 ==> previous == Some(src@[it.index() - 1]) && pos@ == Position::after(
                src@.take(it.index() - 1),
            ),
            match open {
                Some((PartialToken::OpenBracket(count), _)) => count <= it.index(),
                Some((PartialToken::CloseBracket(count), _)) => count <= it.index(),
                _ => true,
            },
    {
        let ghost read = src@.take(it.index());
        if let Some(last) = previous {
            proof {
                lemma_position_bound(src@.take(it.index() - 1));
                assert(read.drop_last() == src@.take(it.index() - 1));
            }
            pos = pos.advance(last);
        }
        previous = Some(c);
        assert(src@.take(it.index() + 1).drop_last() == read);
        match read_character(open, c, pos, &mut tokens) {
            Ok(next) => {
                open = next;
            },
            Err(diagnostics) => {
                proof {
                    lemma_failure_stays(src@, it.index() + 1);
                }
                return Err(diagnostics);
            },
        }
    }
    assert(src@.take(src@.len() as int) =~= src@);
    match open {
        None => Ok(tokens),
        Some((PartialToken::Assign, start)) => Err(Diagnostics::malformed_assign(None, start)),
        Some((partial, start)) => {
            push_token(&mut tokens, complete_token(partial, start)?);
            Ok(tokens)
        },
    }
}

/// What can stand open in the course of a scan: a run of at least one
/// bracket, a name that is a name, a numeral of at least one digit or point.
pub open spec fn is_sound(open: Open) -> bool {
    match open {
        Some((PartialTokenView::OpenBracket(count), _)) => count >= 1,
        Some((PartialTokenView::CloseBracket(count), _)) => count >= 1,
        Some((PartialTokenView::Name(text), _)) => is_identifier(text),
        Some((PartialTokenView::Number(text), _)) => {
            &&& text.len() > 0
            &&& forall|i: int| 0 <= i < text.len() ==> is_number_part(#[trigger] text[i])
        },
        _ => true,
    }
}

/// One step keeps what stands open sound.
proof fn lemma_step_is_sound(scan: Scan, c: char, pos: Position)
    requires
        is_sound(scan.open),
    ensures
        step(scan, c, pos) matches Ok(next) ==> is_sound(next.open),
{
    match scan.open {
        Some((PartialTokenView::Name(front), _)) => {
            if is_name_part(c) {
                assert(is_identifier(front.push(c)));
            }
        },
        Some((PartialTokenView::Number(front), _)) => {
            if is_number_part(c) {
                assert(is_sound(Some((PartialTokenView::Number(front.push(c)), pos))));
            }
        },
        _ => {},
    }
}

/// What stands open in the course of a scan is always sound. So no scan
/// meets a run of no bracket, and none a name that has no number: the only
/// failures of a scan are a character that begins no token, a `:` without
/// its `=`, a run of three brackets or more, and a numeral without a digit
/// or with more than one point.
pub proof fn lemma_open_token_is_sound(text: Seq<char>)
    ensures
        scan_prefix(text) matches Ok(scan) ==> is_sound(scan.open),
    decreases text.len(),
{
    if text.len() > 0 {
        lemma_open_token_is_sound(text.drop_last());
        match scan_prefix(text.drop_last()) {
            Ok(scan) => {
                lemma_step_is_sound(scan, text.last(), Position::after(text.drop_last()));
            },
            Err(_) => {},
        }
    }
}

/// Whether `pos` is the place of a character of `text` that begins a token.
pub open spec fn begins_token_at(text: Seq<char>, pos: Position) -> bool {
    exists|k: int|
        0 <= k < text.len() && pos == Position::after(#[trigger] text.take(k)) && (classify(
            text[k],
            pos,
        ) matches Ok(Some(_)))
}

/// What begins a token in the beginning of a text begins one in the text.
proof fn lemma_begins_token_later(text: Seq<char>, pos: Position)
    requires
        text.len() > 0,
        begins_token_at(text.drop_last(), pos),
    ensures
        begins_token_at(text, pos),
{
    let front = text.drop_last();
    let k = choose|k: int|
        0 <= k < front.len() && pos == Position::after(#[trigger] front.take(k)) && (classify(
            front[k],
            pos,
        ) matches Ok(Some(_)));
    assert(front.take(k) =~= text.take(k));
}

/// Every token stands where its first character stands: the place of each
/// token, the open one too, is the place of a character of the text that
/// begins a token.
pub proof fn lemma_tokens_stand_at_their_start(text: Seq<char>)
    ensures
        scan_prefix(text) matches Ok(scan) ==> {
            &&& forall|i: int|
                0 <= i < scan.tokens.len() ==> begins_token_at(
                    text,
                    (#[trigger] scan.tokens[i]).pos,
                )
            &&& scan.open matches Some((_, start)) ==> begins_token_at(text, start)
        },
        scan(text) matches Ok(tokens) ==> forall|i: int|
            0 <= i < tokens.len() ==> begins_token_at(text, (#[trigger] tokens[i]).pos),
    decreases text.len(),
{
    if text.len() > 0 {
        let front = text.drop_last();
        lemma_tokens_stand_at_their_start(front);
        match (scan_prefix(front), scan_prefix(text)) {
            (Ok(before), Ok(scan)) => {
                // A token is older than the last character, or it begins
                // with it: and the last character stands after all of
                // `front`.
                assert(front == text.take(text.len() - 1));
                match before.open {
                    Some((_, start)) => {
                        lemma_begins_token_later(text, start);
                    },
                    None => {},
                }
                assert forall|i: int| 0 <= i < scan.tokens.len() implies begins_token_at(
                    text,
                    (#[trigger] scan.tokens[i]).pos,
                ) by {
                    if i < before.tokens.len() {
                        lemma_begins_token_later(text, before.tokens[i].pos);
                    }
                }
            },
            _ => {},
        }
    }
}

/// Whether the tokens stand in rising order of their places.
pub open spec fn is_ordered(tokens: Seq<TokenView>) -> bool {
    forall|i: int, j: int|
        0 <= i < j < tokens.len() ==> (#[trigger] tokens[i]).pos.precedes(
            (#[trigger] tokens[j]).pos,
        )
}

/// Whether all the tokens stand before `bound`.
pub open spec fn is_before(tokens: Seq<TokenView>, bound: Position) -> bool {
    forall|i: int| 0 <= i < tokens.len() ==> (#[trigger] tokens[i]).pos.precedes(bound)
}

/// The tokens of a scan stand in the order of the text: each at a later
/// place than the one before it. The open token stands after all of them,
/// and none stands where the text has not been read yet.
pub proof fn lemma_tokens_stand_in_order(text: Seq<char>)
    ensures
        scan_prefix(text) matches Ok(scan) ==> {
            &&& is_ordered(scan.tokens)
            &&& is_before(scan.tokens, Position::after(text))
            &&& scan.open matches Some((_, start)) ==> is_before(scan.tokens, start)
                && start.precedes(Position::after(text))
        },
        scan(text) matches Ok(tokens) ==> is_ordered(tokens),
    decreases text.len(),
{
    if text.len() > 0 {
        let front = text.drop_last();
        lemma_tokens_stand_in_order(front);
        // The last character stands after all of `front`, and reading it
        // moves the place on.
        assert(text.take(text.len() as int) == text);
        assert(text.take(text.len() - 1) == front);
        lemma_position_rises(text, text.len() - 1, text.len() as int);
    }
}

/// A failure ends the scan: what fails for the beginning of a text fails
/// for the whole text, and in the same way.
pub proof fn lemma_failure_stays(text: Seq<char>, read: int)
    requires
        0 <= read <= text.len(),
        scan_prefix(text.take(read)) is Err,
    ensures
        scan_prefix(text) == scan_prefix(text.take(read)),
    decreases text.len(),
{
    if read == text.len() {
        assert(text.take(read) =~= text);
    } else {
        assert(text.drop_last().take(read) =~= text.take(read));
        lemma_failure_stays(text.drop_last(), read);
    }
}

} // verus!
