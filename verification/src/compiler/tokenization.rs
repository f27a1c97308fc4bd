//! Tokens of source text, found by patterns.
//!
//! Each kind of token has a regular expression. At each place of the text
//! the kinds are tried in their order, and the first whose expression
//! matches what is left of the text gives the token: the part of the match
//! that the expression marks as its second group. The text goes on behind
//! that part. Places are counted in bytes; lines and columns from zero.
//!
//! The matching itself is the work of the `regex` crate: what it answers
//! for a pattern and a text is named here, not described.

use regex::Regex;
use vstd::prelude::*;
use vstd::string::StringSliceAdditionalSpecFns;
use vstd::utf8::*;

verus! {

/// What a token is; the kinds are tried in the order in which they stand
/// here.
#[derive(Debug, PartialEq, Eq, Clone, Copy)]
pub enum TokenType {
    EndLineIndicator,
    ModuleKeyword,
    ExportKeyword,
    SerialKeyword,
    FunctionKeyword,
    TrueKeyword,
    FalseKeyword,
    Comment,
    Name,
    Integer,
    Float,
    String,
    OpenParenthesesSymbol,
    CloseParenthesesSymbol,
    OpenBracketsSymbol,
    CloseBracketsSymbol,
    CheckEqualsSymbol,
    AssignEqualsSymbol,
    ColonSymbol,
    PeriodSymbol,
    PlusSymbol,
    MinusSymbol,
    MultiplySymbol,
    DivideSymbol,
    ModulusSymbol,
    Unknown,
    ProgramEnd,
}

/// A token with the place it stands at in the text.
#[derive(Debug, PartialEq, Eq)]
pub struct Token {
    /// What the token is.
    pub token_type: TokenType,
    /// The line of the token's first byte.
    pub line: usize,
    /// The number of bytes between the start of that line and the token.
    pub col: usize,
    /// The text of the token.
    pub contents: String,
}

/// A token as a mathematical value.
pub struct TokenView {
    /// What the token is.
    pub token_type: TokenType,
    /// The line of the token's first byte.
    pub line: nat,
    /// The number of bytes between the start of that line and the token.
    pub col: nat,
    /// The text of the token.
    pub contents: Seq<char>,
}

impl View for Token {
    type V = TokenView;

    open spec fn view(&self) -> TokenView {
        TokenView {
            token_type: self.token_type,
            line: self.line as nat,
            col: self.col as nat,
            contents: self.contents@,
        }
    }
}

/// What a pattern finds in a text, for one of its groups.
#[derive(Debug, PartialEq, Eq, Clone, Copy)]
pub enum Capture {
    /// The pattern is no regular expression.
    Invalid,
    /// The pattern matches nowhere in the text.
    Unmatched,
    /// The pattern matches, and the group took no part in the match.
    Absent,
    /// The pattern matches, and the group is the bytes of the text from
    /// `start` up to `end`.
    Span { start: usize, end: usize },
}

/// Why a text could not be read to its end.
#[derive(Debug, PartialEq, Eq, Clone, Copy)]
pub enum ScanError {
    /// The pattern of this kind is no regular expression.
    Pattern { kind: TokenType },
    /// From this byte on no reading goes further: no kind matches what is
    /// left, or the first that does is not the end of the text and leaves
    /// all of it behind.
    Stalled { position: usize },
}

/// A failure of reading as a mathematical value.
pub enum ScanFault {
    /// The pattern of this kind is no regular expression.
    Pattern { kind: TokenType },
    /// From this byte on no reading goes further.
    Stalled { position: nat },
}

impl View for ScanError {
    type V = ScanFault;

    open spec fn view(&self) -> ScanFault {
        match self {
            ScanError::Pattern { kind } => ScanFault::Pattern { kind: *kind },
            ScanError::Stalled { position } => ScanFault::Stalled { position: *position as nat },
        }
    }
}

/// The number of kinds of token.
pub const KIND_COUNT: usize = 27;

/// The kinds of token in the order in which they are tried.
pub open spec fn kind_at(i: nat) -> TokenType {
    if i == 0 {
        TokenType::EndLineIndicator
    } else if i == 1 {
        TokenType::ModuleKeyword
    } else if i == 2 {
        TokenType::ExportKeyword
    } else if i == 3 {
        TokenType::SerialKeyword
    } else if i == 4 {
        TokenType::FunctionKeyword
    } else if i == 5 {
        TokenType::TrueKeyword
    } else if i == 6 {
        TokenType::FalseKeyword
    } else if i == 7 {
        TokenType::Comment
    } else if i == 8 {
        TokenType::Name
    } else if i == 9 {
        TokenType::Integer
    } else if i == 10 {
        TokenType::Float
    } else if i == 11 {
        TokenType::String
    } else if i == 12 {
        TokenType::OpenParenthesesSymbol
    } else if i == 13 {
        TokenType::CloseParenthesesSymbol
    } else if i == 14 {
        TokenType::OpenBracketsSymbol
    } else if i == 15 {
        TokenType::CloseBracketsSymbol
    } else if i == 16 {
        TokenType::CheckEqualsSymbol
    } else if i == 17 {
        TokenType::AssignEqualsSymbol
    } else if i == 18 {
        TokenType::ColonSymbol
    } else if i == 19 {
        TokenType::PeriodSymbol
    } else if i == 20 {
        TokenType::PlusSymbol
    } else if i == 21 {
        TokenType::MinusSymbol
    } else if i == 22 {
        TokenType::MultiplySymbol
    } else if i == 23 {
        TokenType::DivideSymbol
    } else if i == 24 {
        TokenType::ModulusSymbol
    } else if i == 25 {
        TokenType::Unknown
    } else {
        TokenType::ProgramEnd
    }
}

/// The regular expression of a kind of token. Its second group is the
/// token; before it blanks are passed over, but a line's end only where the
/// kind is that end itself.
pub open spec fn pattern_text(kind: TokenType) -> Seq<char> {
    match kind {
        TokenType::EndLineIndicator => r"^[\r\t ]*?((\n).*)"@,
        TokenType::ModuleKeyword => r"^\s*((module)\b.*)"@,
        TokenType::ExportKeyword => r"^\s*((export)\b.*)"@,
        TokenType::SerialKeyword => r"^\s*((serial)\b.*)"@,
        TokenType::FunctionKeyword => r"^\s*((function)\b.*)"@,
        TokenType::TrueKeyword => r"^\s*((true)\b.*)"@,
        TokenType::FalseKeyword => r"^\s*((false)\b.*)"@,
        TokenType::Comment => r"^\s*((\#.*).*)"@,
        TokenType::Name => r"^\s*(([a-zA-Z_][a-zA-Z0-9_]*)\b.*)"@,
        TokenType::Integer => r"^\s*(([0-9]+).*)"@,
        TokenType::Float => r"^\s*(([0-9]+\.[0-9]*)\b.*)"@,
        TokenType::String => r#"^\s*((".*?"|'.*?').*)"#@,
        TokenType::OpenParenthesesSymbol => r"^\s*((\().*)"@,
        TokenType::CloseParenthesesSymbol => r"^\s*((\)).*)"@,
        TokenType::OpenBracketsSymbol => r"^\s*((\[).*)"@,
        TokenType::CloseBracketsSymbol => r"^\s*((\]).*)"@,
        TokenType::CheckEqualsSymbol => r"^\s*((==).*)"@,
        TokenType::AssignEqualsSymbol => r"^\s*((=).*)"@,
        TokenType::ColonSymbol => r"^\s*((:).*)"@,
        TokenType::PeriodSymbol => r"^\s*((\.).*)"@,
        TokenType::PlusSymbol => r"^\s*((\+).*)"@,
        TokenType::MinusSymbol => r"^\s*((\-).*)"@,
        TokenType::MultiplySymbol => r"^\s*((\*).*)"@,
        TokenType::DivideSymbol => r"^\s*((/).*)"@,
        TokenType::ModulusSymbol => r"^\s*((%).*)"@,
        TokenType::Unknown => r"^\s*((.*)(\s|\b).*)"@,
        TokenType::ProgramEnd => r"^\s*$"@,
    }
}

/// What the `regex` crate finds for a pattern in a text: whether the
/// pattern matches, leftmost, and where the group of that number lies in
/// the text.
pub uninterp spec fn captured(pattern: Seq<char>, text: Seq<char>, group: nat) -> Capture;

/// The bytes that a capture spans; none where it is no span.
pub open spec fn span_of(found: Capture) -> (nat, nat) {
    match found {
        Capture::Span { start, end } => (start as nat, end as nat),
        _ => (0, 0),
    }
}

/// The first kind, from the `from`-th on, whose pattern does not fail to
/// match the text, with what it found.
pub open spec fn first_match(text: Seq<char>, from: nat) -> Option<(TokenType, Capture)>
    decreases KIND_COUNT - from,
{
    if from >= KIND_COUNT {
        None
    } else {
        let found = captured(pattern_text(kind_at(from)), text, 2);
        if found == Capture::Unmatched {
            first_match(text, from + 1)
        } else {
            Some((kind_at(from), found))
        }
    }
}

/// The line and the column of a byte of a text: the number of line ends
/// before the byte, and the number of bytes between the last of them and
/// the byte.
pub open spec fn line_col(bytes: Seq<u8>, position: nat) -> (nat, nat)
    decreases position,
{
    if position == 0 || position > bytes.len() {
        (0, 0)
    } else {
        let before = line_col(bytes, (position - 1) as nat);
        if bytes[position - 1] == 10u8 {
            (before.0 + 1, 0)
        } else {
            (before.0, before.1 + 1)
        }
    }
}

/// What is left of a text from a byte on.
pub open spec fn rest(bytes: Seq<u8>, position: nat) -> Seq<char> {
    decode_utf8(bytes.subrange(position as int, bytes.len() as int))
}

/// Whether a capture in what is left of a text from `position` on lies
/// within the text and between characters.
pub open spec fn fits(bytes: Seq<u8>, position: nat, found: Capture) -> bool {
    let (start, end) = span_of(found);
    &&& start <= end
    &&& position + end <= bytes.len()
    &&& is_char_boundary(bytes, (position + start) as int)
    &&& is_char_boundary(bytes, (position + end) as int)
}

/// The token that a capture in what is left of a text from `position` on
/// gives: it stands where the capture starts and holds what it spans.
pub open spec fn token_of(bytes: Seq<u8>, position: nat, kind: TokenType, found: Capture) -> TokenView {
    let (start, end) = span_of(found);
    let at = line_col(bytes, position + start);
    TokenView {
        token_type: kind,
        line: at.0,
        col: at.1,
        contents: decode_utf8(bytes.subrange((position + start) as int, (position + end) as int)),
    }
}

/// Puts tokens in front of the outcome of a reading.
pub open spec fn read_after(done: Seq<TokenView>, then: Result<Seq<TokenView>, ScanFault>) -> Result<
    Seq<TokenView>,
    ScanFault,
> {
    match then {
        Ok(tokens) => Ok(done + tokens),
        Err(fault) => Err(fault),
    }
}

/// What comes of reading a text once a kind has been found at `position`:
/// its token, and the byte from which the reading goes on; or the end of
/// the reading.
pub enum Step {
    /// The text's end was found: this is the last token.
    Last(TokenView),
    /// A token, and the reading goes on from the byte `next`.
    Next(TokenView, nat),
    /// The reading fails.
    Fails(ScanFault),
}

/// One step of the reading, from what was found at `position`.
pub open spec fn step_of(bytes: Seq<u8>, position: nat, found: Option<(TokenType, Capture)>) -> Step {
    match found {
        None => Step::Fails(ScanFault::Stalled { position }),
        Some((kind, Capture::Invalid)) => Step::Fails(ScanFault::Pattern { kind }),
        Some((kind, capture)) => {
            let token = token_of(bytes, position, kind, capture);
            let end = span_of(capture).1;
            if kind == TokenType::ProgramEnd {
                Step::Last(token)
            } else if end == 0 || position + end > bytes.len() {
                Step::Fails(ScanFault::Stalled { position })
            } else {
                Step::Next(token, position + end)
            }
        },
    }
}

/// The tokens of a text from a byte on, up to and with the text's end.
pub open spec fn scan(bytes: Seq<u8>, position: nat) -> Result<Seq<TokenView>, ScanFault>
    decreases bytes.len() - position,
{
    match step_of(bytes, position, first_match(rest(bytes, position), 0)) {
        Step::Fails(fault) => Err(fault),
        Step::Last(token) => Ok(seq![token]),
        Step::Next(token, next) => if position < next <= bytes.len() {
            read_after(seq![token], scan(bytes, next))
        } else {
            Err(ScanFault::Stalled { position })
        },
    }
}

/// The tokens of a text.
pub open spec fn tokens_of(text: Seq<char>) -> Result<Seq<TokenView>, ScanFault> {
    scan(encode_utf8(text), 0)
}

/// The views of a list of tokens.
pub open spec fn token_views(tokens: Seq<Token>) -> Seq<TokenView> {
    Seq::new(tokens.len(), |i: int| tokens[i]@)
}

/// A place between characters of a text is one of any part of the text
/// that starts between characters and reaches over it.
pub proof fn lemma_boundary_within(bytes: Seq<u8>, from: int, to: int, at: int)
    requires
        valid_utf8(bytes),
        0 <= from <= at <= to <= bytes.len(),
        is_char_boundary(bytes, from),
        is_char_boundary(bytes, to),
        is_char_boundary(bytes, at),
    ensures
        valid_utf8(bytes.subrange(from, to)),
        is_char_boundary(bytes.subrange(from, to), at - from),
{
    let tail = bytes.subrange(from, bytes.len() as int);
    valid_utf8_split(bytes, from);
    let part = bytes.subrange(from, to);
    lemma_boundary_moved(bytes, from, to - from);
    valid_utf8_split(tail, to - from);
    assert(tail.subrange(0, to - from) =~= part);
    is_char_boundary_start_end_of_seq(part);
    if at < to {
        if from < at {
            is_char_boundary_iff_not_is_continuation_byte(bytes, at);
            is_char_boundary_iff_not_is_continuation_byte(part, at - from);
        }
    }
}

/// A place of the part of a text behind a place between characters lies
/// between characters of the part where it does so in the text.
pub proof fn lemma_boundary_moved(bytes: Seq<u8>, from: int, at: int)
    requires
        valid_utf8(bytes),
        0 <= from <= bytes.len(),
        is_char_boundary(bytes, from),
        0 <= at <= bytes.len() - from,
    ensures
        is_char_boundary(bytes.subrange(from, bytes.len() as int), at) == is_char_boundary(
            bytes,
            from + at,
        ),
{
    let tail = bytes.subrange(from, bytes.len() as int);
    valid_utf8_split(bytes, from);
    is_char_boundary_start_end_of_seq(tail);
    is_char_boundary_start_end_of_seq(bytes);
    if at < tail.len() {
        if at > 0 {
            is_char_boundary_iff_not_is_continuation_byte(bytes, from + at);
            is_char_boundary_iff_not_is_continuation_byte(tail, at);
        }
    }
}

/// The kind of token that is tried as the `i`-th.
pub fn kind_of(i: usize) -> (kind: TokenType)
    ensures
        kind == kind_at(i as nat),
{
    if i == 0 {
        TokenType::EndLineIndicator
    } else if i == 1 {
        TokenType::ModuleKeyword
    } else if i == 2 {
        TokenType::ExportKeyword
    } else if i == 3 {
        TokenType::SerialKeyword
    } else if i == 4 {
        TokenType::FunctionKeyword
    } else if i == 5 {
        TokenType::TrueKeyword
    } else if i == 6 {
        TokenType::FalseKeyword
    } else if i == 7 {
        TokenType::Comment
    } else if i == 8 {
        TokenType::Name
    } else if i == 9 {
        TokenType::Integer
    } else if i == 10 {
        TokenType::Float
    } else if i == 11 {
        TokenType::String
    } else if i == 12 {
        TokenType::OpenParenthesesSymbol
    } else if i == 13 {
        TokenType::CloseParenthesesSymbol
    } else if i == 14 {
        TokenType::OpenBracketsSymbol
    } else if i == 15 {
        TokenType::CloseBracketsSymbol
    } else if i == 16 {
        TokenType::CheckEqualsSymbol
    } else if i == 17 {
        TokenType::AssignEqualsSymbol
    } else if i == 18 {
        TokenType::ColonSymbol
    } else if i == 19 {
        TokenType::PeriodSymbol
    } else if i == 20 {
        TokenType::PlusSymbol
    } else if i == 21 {
        TokenType::MinusSymbol
    } else if i == 22 {
        TokenType::MultiplySymbol
    } else if i == 23 {
        TokenType::DivideSymbol
    } else if i == 24 {
        TokenType::ModulusSymbol
    } else if i == 25 {
        TokenType::Unknown
    } else {
        TokenType::ProgramEnd
    }
}

/// The regular expression of a kind of token.
pub fn pattern_of(kind: TokenType) -> (pattern: &'static str)
    ensures
        pattern@ == pattern_text(kind),
{
    match kind {
        TokenType::EndLineIndicator => r"^[\r\t ]*?((\n).*)",
        TokenType::ModuleKeyword => r"^\s*((module)\b.*)",
        TokenType::ExportKeyword => r"^\s*((export)\b.*)",
        TokenType::SerialKeyword => r"^\s*((serial)\b.*)",
        TokenType::FunctionKeyword => r"^\s*((function)\b.*)",
        TokenType::TrueKeyword => r"^\s*((true)\b.*)",
        TokenType::FalseKeyword => r"^\s*((false)\b.*)",
        TokenType::Comment => r"^\s*((\#.*).*)",
        TokenType::Name => r"^\s*(([a-zA-Z_][a-zA-Z0-9_]*)\b.*)",
        TokenType::Integer => r"^\s*(([0-9]+).*)",
        TokenType::Float => r"^\s*(([0-9]+\.[0-9]*)\b.*)",
        TokenType::String => r#"^\s*((".*?"|'.*?').*)"#,
        TokenType::OpenParenthesesSymbol => r"^\s*((\().*)",
        TokenType::CloseParenthesesSymbol => r"^\s*((\)).*)",
        TokenType::OpenBracketsSymbol => r"^\s*((\[).*)",
        TokenType::CloseBracketsSymbol => r"^\s*((\]).*)",
        TokenType::CheckEqualsSymbol => r"^\s*((==).*)",
        TokenType::AssignEqualsSymbol => r"^\s*((=).*)",
        TokenType::ColonSymbol => r"^\s*((:).*)",
        TokenType::PeriodSymbol => r"^\s*((\.).*)",
        TokenType::PlusSymbol => r"^\s*((\+).*)",
        TokenType::MinusSymbol => r"^\s*((\-).*)",
        TokenType::MultiplySymbol => r"^\s*((\*).*)",
        TokenType::DivideSymbol => r"^\s*((/).*)",
        TokenType::ModulusSymbol => r"^\s*((%).*)",
        TokenType::Unknown => r"^\s*((.*)(\s|\b).*)",
        TokenType::ProgramEnd => r"^\s*$",
    }
}

/// Compiles the pattern with `Regex::new`, searches the text with
/// `Regex::captures` and reads the group with `Captures::get`, and the
/// ends of what it spans with `Match::start` and `Match::end`. The answer
/// is taken on trust to depend on the pattern, the text and the group
/// alone, and a span to start no later than it ends, both ends between
/// characters of the text, as the crate promises of every match.
#[verifier::external_body]
fn capture(pattern: &str, text: &str, group: usize) -> (found: Capture)
    ensures
        found == captured(pattern@, text@, group as nat),
        found matches Capture::Span { start, end } ==> start <= end && is_char_boundary(
            text.spec_bytes(),
            start as int,
        ) && is_char_boundary(text.spec_bytes(), end as int),
{
    match Regex::new(pattern) {
        Err(_) => Capture::Invalid,
        Ok(regex) => match regex.captures(text) {
            None => Capture::Unmatched,
            Some(groups) => match groups.get(group) {
                None => Capture::Absent,
                Some(part) => Capture::Span { start: part.start(), end: part.end() },
            },
        },
    }
}

/// The line and the column of a byte of a text, both counted from zero.
pub fn position_to_line_col(position: usize, code: &str) -> (at: (usize, usize))
    requires
        position <= code.spec_bytes().len(),
    ensures
        at.0 == line_col(code.spec_bytes(), position as nat).0,
        at.1 == line_col(code.spec_bytes(), position as nat).1,
{
    let bytes = code.as_bytes();
    let mut line: usize = 0;
    let mut col: usize = 0;
    let mut i: usize = 0;
    while i < position
        invariant
            bytes@ == code.spec_bytes(),
            i <= position <= bytes@.len(),
            line <= i,
            col <= i,
            line == line_col(bytes@, i as nat).0,
            col == line_col(bytes@, i as nat).1,
        decreases position - i,
    {
        if bytes[i] == 10u8 {
            line += 1;
            col = 0;
        } else {
            col += 1;
        }
        i += 1;
    }
    (line, col)
}

/// The token that a capture gives in what is left of a text from the byte
/// `position` on.
pub fn token_from(code: &str, position: usize, kind: TokenType, found: Capture) -> (token: Token)
    requires
        fits(code.spec_bytes(), position as nat, found),
    ensures
        token@ == token_of(code.spec_bytes(), position as nat, kind, found),
{
    broadcast use {encode_utf8_valid_utf8, encode_utf8_decode_utf8};

    let ghost bytes = code.spec_bytes();
    let size = code.as_bytes().len();
    proof {
        assert(bytes == encode_utf8(code@));
        assert(valid_utf8(bytes));
    }
    let (start, end) = match found {
        Capture::Span { start, end } => (start, end),
        _ => (0, 0),
    };
    let first: usize = position + start;
    let last: usize = position + end;
    let at = position_to_line_col(first, code);
    let (head, _) = code.split_at(last);
    proof {
        lemma_boundary_within(bytes, 0, last as int, first as int);
        assert(head.spec_bytes() =~= bytes.subrange(0, last as int));
    }
    let (_, body) = head.split_at(first);
    proof {
        assert(body.spec_bytes() =~= bytes.subrange(first as int, last as int));
    }
    Token { token_type: kind, line: at.0, col: at.1, contents: body.to_owned() }
}

/// Tries the kinds in their order on a text.
fn find_first(text: &str) -> (found: Option<(TokenType, Capture)>)
    ensures
        found == first_match(text@, 0),
        found matches Some((_, Capture::Span { start, end })) ==> start <= end && is_char_boundary(
            text.spec_bytes(),
            start as int,
        ) && is_char_boundary(text.spec_bytes(), end as int),
        found matches Some((_, capture)) ==> capture != Capture::Unmatched,
{
    let mut i: usize = 0;
    while i < KIND_COUNT
        invariant
            i <= KIND_COUNT,
            first_match(text@, 0) == first_match(text@, i as nat),
        decreases KIND_COUNT - i,
    {
        let kind = kind_of(i);
        let found = capture(pattern_of(kind), text, 2);
        match found {
            Capture::Unmatched => {},
            _ => {
                return Some((kind, found));
            },
        }
        i += 1;
    }
    None
}

/// Reads a text as tokens: at each place the first kind that matches what
/// is left gives the next token, up to and with the token of the text's
/// end. The reading fails where it cannot go on.
pub fn tokenize(code: &String) -> (tokens: Result<Vec<Token>, ScanError>)
    ensures
        match tokens {
            Ok(list) => tokens_of(code@) == Ok::<Seq<TokenView>, ScanFault>(token_views(list@)),
            Err(error) => tokens_of(code@) == Err::<Seq<TokenView>, ScanFault>(error@),
        },
{
    broadcast use {encode_utf8_valid_utf8, encode_utf8_decode_utf8};

    let text = code.as_str();
    let ghost bytes = text.spec_bytes();
    let size = text.as_bytes().len();
    let mut tokens: Vec<Token> = Vec::new();
    let mut position: usize = 0;
    proof {
        assert(bytes == encode_utf8(code@));
        assert(valid_utf8(bytes));
        is_char_boundary_start_end_of_seq(bytes);
        assert(token_views(tokens@) =~= Seq::<TokenView>::empty());
        match scan(bytes, 0) {
            Ok(all) => {
                assert(Seq::<TokenView>::empty() + all =~= all);
            },
            Err(_) => {},
        }
    }
    loop
        invariant
            text@ == code@,
            bytes == encode_utf8(code@),
            bytes == text.spec_bytes(),
            valid_utf8(bytes),
            size == bytes.len(),
            position <= size,
            is_char_boundary(bytes, position as int),
            tokens_of(code@) == read_after(token_views(tokens@), scan(bytes, position as nat)),
        decreases size - position,
    {
        let (_, walk) = text.split_at(position);
        proof {
            valid_utf8_split(bytes, position as int);
            assert(walk.spec_bytes() =~= bytes.subrange(position as int, size as int));
            assert(walk.spec_bytes() == bytes.subrange(position as int, size as int));
            encode_utf8_decode_utf8(walk@);
            assert(walk@ == rest(bytes, position as nat));
        }
        let (kind, found) = match find_first(walk) {
            None => {
                return Err(ScanError::Stalled { position });
            },
            Some(first) => first,
        };
        let end = match found {
            Capture::Invalid => {
                return Err(ScanError::Pattern { kind });
            },
            Capture::Span { start, end } => {
                proof {
                    is_char_boundary_start_end_of_seq(walk.spec_bytes());
                    assert(end <= walk.spec_bytes().len()) by {
                        reveal_with_fuel(is_char_boundary, 1);
                    }
                    lemma_boundary_moved(bytes, position as int, start as int);
                    lemma_boundary_moved(bytes, position as int, end as int);
                }
                end
            },
            _ => 0,
        };
        let ghost before = token_views(tokens@);
        let token = token_from(text, position, kind, found);
        let ghost view = token@;
        tokens.push(token);
        proof {
            assert(token_views(tokens@) =~= before.push(view));
        }
        match kind {
            TokenType::ProgramEnd => {
                proof {
                    assert(before + seq![view] =~= token_views(tokens@));
                }
                return Ok(tokens);
            },
            _ => {},
        }
        if end == 0 {
            return Err(ScanError::Stalled { position });
        }
        position += end;
        proof {
            match scan(bytes, position as nat) {
                Ok(more) => {
                    assert(before + (seq![view] + more) =~= token_views(tokens@) + more);
                },
                Err(_) => {},
            }
        }
    }
}

} // verus!
