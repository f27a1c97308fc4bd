//! Tokens of source text.
//!
//! A token is, in this order of precedence: a string in single or double
//! quotes, in which a backslash keeps the next character from ending it; a
//! number, made of digits, dots and minus signs, which is an integer or
//! else a float; one of the symbols; or a name made of letters, digits and
//! underscores, which may be a keyword. Blanks before a token are skipped.
//! Where none of these stands, the text has no further token.

use crate::compiler::type_names::{all_digits, digits_value, is_digit};
use crate::text::{chars_of, text_of};
use vstd::prelude::*;

verus! {

/// What a token is.
#[derive(Debug, PartialEq, Eq, Copy, Clone)]
pub enum TokenType {
    String,
    Integer,
    Float,
    LTEConditional,
    GTEConditional,
    LTConditional,
    GTConditional,
    EqConditional,
    OpenBlock,
    CloseBlock,
    OpenParams,
    CloseParams,
    OpenArray,
    CloseArray,
    NewLine,
    VarAssignment,
    ModuleReference,
    Name,
    ExportKeyword,
    SerialKeyword,
    AcceleratableKeyword,
    FunctionKeyword,
    ReturnKeyword,
    TrueKeyword,
    FalseKeyword,
}

/// A token with the place it stands at in the text.
#[derive(Debug, PartialEq, Eq)]
pub struct Token {
    /// What the token is.
    pub token_type: TokenType,
    /// The text of the token.
    pub contents: String,
    /// The line of the token, counted from zero.
    pub line: usize,
    /// The column of the token, counted from zero.
    pub col: usize,
}

/// A token as it was read: with the number of blanks before it and its
/// length.
#[derive(Debug, PartialEq, Eq)]
pub struct TokenContents {
    /// What the token is.
    pub token_type: TokenType,
    /// The text of the token.
    pub contents: String,
    /// The number of blanks that were skipped before the token.
    pub skipped: usize,
    /// The number of characters of the token.
    pub len: usize,
}

/// Why text could not be read as tokens.
#[derive(Debug, Clone, Copy, PartialEq, Eq)]
pub enum TokenError {
    /// A string that is not closed before its line or the text ends; the
    /// place is that from which the string was looked for.
    UnterminatedString { line: usize, col: usize },
}

/// A token as a mathematical value.
pub struct TokenView {
    /// What the token is.
    pub token_type: TokenType,
    /// The text of the token.
    pub contents: Seq<char>,
    /// The line of the token.
    pub line: nat,
    /// The column of the token.
    pub col: nat,
}

/// A failure of reading tokens as a mathematical value: a string that is
/// not closed, and the place from which it was looked for.
pub struct TokenFault {
    /// The line of the place.
    pub line: nat,
    /// The column of the place.
    pub col: nat,
}

impl View for TokenError {
    type V = TokenFault;

    open spec fn view(&self) -> TokenFault {
        match self {
            TokenError::UnterminatedString { line, col } => TokenFault {
                line: *line as nat,
                col: *col as nat,
            },
        }
    }
}

/// A token as it was read, as a mathematical value.
pub struct ContentsView {
    /// What the token is.
    pub token_type: TokenType,
    /// The text of the token.
    pub contents: Seq<char>,
    /// The number of blanks that were skipped before the token.
    pub skipped: nat,
    /// The number of characters of the token.
    pub len: nat,
}

impl View for Token {
    type V = TokenView;

    open spec fn view(&self) -> TokenView {
        TokenView {
            token_type: self.token_type,
            contents: self.contents@,
            line: self.line as nat,
            col: self.col as nat,
        }
    }
}

impl View for TokenContents {
    type V = ContentsView;

    open spec fn view(&self) -> ContentsView {
        ContentsView {
            token_type: self.token_type,
            contents: self.contents@,
            skipped: self.skipped as nat,
            len: self.len as nat,
        }
    }
}

/// Whether a character is a blank that is skipped before a token.
pub open spec fn is_blank(c: char) -> bool {
    c == '\r' || c == '\t' || c == ' '
}

/// The number of blanks from index `i` on, if a character that is no blank
/// follows them.
pub open spec fn blanks(s: Seq<char>, i: int) -> Option<nat>
    decreases s.len() - i,
{
    if i < 0 || i >= s.len() {
        None
    } else if is_blank(s[i]) {
        match blanks(s, i + 1) {
            Some(n) => Some(n + 1),
            None => None,
        }
    } else {
        Some(0)
    }
}

/// The index after the quote that closes a string, looked for from index
/// `j` on; `escaped` says whether a backslash stands right before `j`.
/// There is none where the line or the text ends first.
pub open spec fn string_end(s: Seq<char>, quote: char, j: int, escaped: bool) -> Option<int>
    decreases s.len() - j,
{
    if j < 0 || j >= s.len() || s[j] == '\n' {
        None
    } else if escaped {
        string_end(s, quote, j + 1, false)
    } else if s[j] == quote {
        Some(j + 1)
    } else {
        string_end(s, quote, j + 1, s[j] == '\\')
    }
}

/// Whether a character may stand in a number.
pub open spec fn is_number_char(c: char) -> bool {
    is_digit(c) || c == '.' || c == '-'
}

/// Whether a character may stand in a name.
pub open spec fn is_name_char(c: char) -> bool {
    ('a' <= c <= 'z') || ('A' <= c <= 'Z') || is_digit(c) || c == '_'
}

/// The number of characters from index `i` on that may stand in a number.
pub open spec fn number_run(s: Seq<char>, i: int) -> nat
    decreases s.len() - i,
{
    if 0 <= i < s.len() && is_number_char(s[i]) {
        1 + number_run(s, i + 1)
    } else {
        0
    }
}

/// The number of characters from index `i` on that may stand in a name.
pub open spec fn name_run(s: Seq<char>, i: int) -> nat
    decreases s.len() - i,
{
    if 0 <= i < s.len() && is_name_char(s[i]) {
        1 + name_run(s, i + 1)
    } else {
        0
    }
}

/// A number without its minus sign.
pub open spec fn unsigned_part(t: Seq<char>) -> Seq<char> {
    if t.len() > 0 && t[0] == '-' {
        t.drop_first()
    } else {
        t
    }
}

/// Whether a text is an integer of 64 bits: digits, after a minus sign or
/// not.
pub open spec fn is_integer_text(t: Seq<char>) -> bool {
    let digits = unsigned_part(t);
    &&& digits.len() > 0
    &&& all_digits(digits)
    &&& if digits.len() < t.len() {
        digits_value(digits) <= 0x8000_0000_0000_0000
    } else {
        digits_value(digits) < 0x8000_0000_0000_0000
    }
}

/// The number of dots among the first `n` characters of a text.
pub open spec fn dots(t: Seq<char>, n: nat) -> nat
    decreases n,
{
    if n == 0 || n > t.len() {
        0
    } else if t[n - 1] == '.' {
        dots(t, (n - 1) as nat) + 1
    } else {
        dots(t, (n - 1) as nat)
    }
}

/// Whether a text of digits, dots and minus signs is a float: at least one
/// digit, at most one dot, and no minus sign but at the start.
pub open spec fn is_float_text(t: Seq<char>) -> bool {
    let body = unsigned_part(t);
    &&& forall|k: int| 0 <= k < body.len() ==> #[trigger] body[k] != '-'
    &&& dots(body, body.len()) <= 1
    &&& dots(body, body.len()) < body.len()
}

/// What stands at an index of a text.
pub enum Scan {
    /// A token of the given kind and length.
    Found(TokenType, nat),
    /// No token.
    Nothing,
    /// A string that is not closed.
    Unterminated,
}

/// The symbol of the given text, if it stands at index `i`.
pub open spec fn symbol_at(s: Seq<char>, i: int, symbol: Seq<char>) -> bool {
    0 <= i && i + symbol.len() <= s.len() && s.subrange(i, i + symbol.len()) == symbol
}

/// The symbol that stands at index `i`.
pub open spec fn symbol_scan(s: Seq<char>, i: int) -> Option<(TokenType, nat)> {
    if symbol_at(s, i, seq!['<', '=']) {
        Some((TokenType::LTEConditional, 2nat))
    } else if symbol_at(s, i, seq!['>', '=']) {
        Some((TokenType::GTEConditional, 2nat))
    } else if symbol_at(s, i, seq!['<']) {
        Some((TokenType::LTConditional, 1nat))
    } else if symbol_at(s, i, seq!['>']) {
        Some((TokenType::GTConditional, 1nat))
    } else if symbol_at(s, i, seq!['=', '=']) {
        Some((TokenType::EqConditional, 2nat))
    } else if symbol_at(s, i, seq!['{']) {
        Some((TokenType::OpenBlock, 1nat))
    } else if symbol_at(s, i, seq!['}']) {
        Some((TokenType::CloseBlock, 1nat))
    } else if symbol_at(s, i, seq!['(']) {
        Some((TokenType::OpenParams, 1nat))
    } else if symbol_at(s, i, seq![')']) {
        Some((TokenType::CloseParams, 1nat))
    } else if symbol_at(s, i, seq!['[']) {
        Some((TokenType::OpenArray, 1nat))
    } else if symbol_at(s, i, seq![']']) {
        Some((TokenType::CloseArray, 1nat))
    } else if symbol_at(s, i, seq!['\n']) {
        Some((TokenType::NewLine, 1nat))
    } else if symbol_at(s, i, seq!['=']) {
        Some((TokenType::VarAssignment, 1nat))
    } else if symbol_at(s, i, seq![':']) {
        Some((TokenType::ModuleReference, 1nat))
    } else {
        None
    }
}

/// What a name is: a keyword, or a name. The words `return`, `true` and
/// `false` count as the function keyword.
pub open spec fn name_type(t: Seq<char>) -> TokenType {
    if t == "export"@ {
        TokenType::ExportKeyword
    } else if t == "serial"@ {
        TokenType::SerialKeyword
    } else if t == "acceleratable"@ {
        TokenType::AcceleratableKeyword
    } else if t == "function"@ || t == "return"@ || t == "true"@ || t == "false"@ {
        TokenType::FunctionKeyword
    } else {
        TokenType::Name
    }
}

/// What stands at index `i` of a text.
pub open spec fn scan_at(s: Seq<char>, i: int) -> Scan {
    if i < 0 || i > s.len() {
        Scan::Nothing
    } else if i < s.len() && (s[i] == '"' || s[i] == '\'') {
        match string_end(s, s[i], i + 1, false) {
            Some(end) => Scan::Found(TokenType::String, (end - i) as nat),
            None => Scan::Unterminated,
        }
    } else {
        let number = s.subrange(i, i + number_run(s, i));
        if is_integer_text(number) {
            Scan::Found(TokenType::Integer, number_run(s, i))
        } else if number.len() > 0 && is_float_text(number) {
            Scan::Found(TokenType::Float, number_run(s, i))
        } else {
            match symbol_scan(s, i) {
                Some(symbol) => Scan::Found(symbol.0, symbol.1),
                None => if name_run(s, i) > 0 {
                    Scan::Found(name_type(s.subrange(i, i + name_run(s, i))), name_run(s, i))
                } else {
                    Scan::Nothing
                },
            }
        }
    }
}

/// The token that is read from index `char_index` on, after the blanks
/// there; nothing where no token follows.
pub open spec fn token_read(s: Seq<char>, char_index: int, line: nat, col: nat) -> Result<
    Option<ContentsView>,
    TokenFault,
> {
    match blanks(s, char_index) {
        None => Ok(None),
        Some(skipped) => match scan_at(s, char_index + skipped) {
            Scan::Found(token_type, len) => Ok(
                Some(
                    ContentsView {
                        token_type,
                        contents: s.subrange(
                            char_index + skipped,
                            char_index + skipped + len,
                        ),
                        skipped,
                        len,
                    },
                ),
            ),
            Scan::Nothing => Ok(None),
            Scan::Unterminated => Err(TokenFault { line, col }),
        },
    }
}

/// A run of characters lies inside the text.
pub proof fn lemma_runs(s: Seq<char>, i: int)
    requires
        0 <= i,
    ensures
        i + number_run(s, i) <= s.len() || number_run(s, i) == 0,
        i + name_run(s, i) <= s.len() || name_run(s, i) == 0,
        forall|k: int| i <= k < i + number_run(s, i) ==> is_number_char(#[trigger] s[k]),
        forall|k: int| i <= k < i + name_run(s, i) ==> is_name_char(#[trigger] s[k]),
    decreases s.len() - i,
{
    if i < s.len() {
        lemma_runs(s, i + 1);
    }
}

/// The blanks that are skipped lie inside the text, and a character
/// follows them.
pub proof fn lemma_blanks(s: Seq<char>, i: int)
    ensures
        blanks(s, i) matches Some(n) ==> 0 <= i && i + n < s.len(),
    decreases s.len() - i,
{
    if 0 <= i < s.len() && is_blank(s[i]) {
        lemma_blanks(s, i + 1);
    }
}

/// The end of a string lies inside the text, after where it was looked
/// for.
pub proof fn lemma_string_end(s: Seq<char>, quote: char, j: int, escaped: bool)
    ensures
        string_end(s, quote, j, escaped) matches Some(end) ==> j < end <= s.len(),
    decreases s.len() - j,
{
    if !(j < 0 || j >= s.len() || s[j] == '\n') {
        if escaped {
            lemma_string_end(s, quote, j + 1, false);
        } else if s[j] != quote {
            lemma_string_end(s, quote, j + 1, s[j] == '\\');
        }
    }
}

/// A token has at least one character and lies inside the text.
pub proof fn lemma_scan(s: Seq<char>, i: int)
    ensures
        scan_at(s, i) matches Scan::Found(_, len) ==> 0 <= i && 0 < len && i + len <= s.len(),
{
    if i < 0 || i > s.len() {
    } else if i < s.len() && (s[i] == '"' || s[i] == '\'') {
        lemma_string_end(s, s[i], i + 1, false);
    } else {
        lemma_runs(s, i);
        let number = s.subrange(i, i + number_run(s, i));
        if number_run(s, i) == 0 {
            assert(unsigned_part(number).len() == 0);
        }
        match symbol_scan(s, i) {
            Some(symbol) => {
                assert(0 < symbol.1 <= 2);
                assert(i + symbol.1 <= s.len());
            },
            None => {},
        }
    }
}

/// The tokens of a text from index `i` on, which lies at the given line
/// and column.
pub open spec fn tokens_from(s: Seq<char>, i: int, line: nat, col: nat) -> Result<
    Seq<TokenView>,
    TokenFault,
>
    decreases s.len() - i,
{
    match token_read(s, i, line, col) {
        Err(e) => Err(e),
        Ok(None) => Ok(Seq::empty()),
        Ok(Some(c)) => {
            let at = col + c.skipped;
            let token = TokenView { token_type: c.token_type, contents: c.contents, line, col: at };
            proof {
                lemma_blanks(s, i);
                lemma_scan(s, i + blanks(s, i)->Some_0);
            }
            let rest = if c.token_type == TokenType::NewLine {
                tokens_from(s, i + c.skipped + c.len, line + 1, 0)
            } else {
                tokens_from(s, i + c.skipped + c.len, line, at + c.len)
            };
            match rest {
                Ok(tokens) => Ok(seq![token] + tokens),
                Err(e) => Err(e),
            }
        },
    }
}

/// The tokens of a text.
pub open spec fn tokens_of(s: Seq<char>) -> Result<Seq<TokenView>, TokenFault> {
    tokens_from(s, 0, 0, 0)
}

/// Counts the blanks from `i` on.
fn skip_whitespace(chars: &Vec<char>, i: usize) -> (r: Option<usize>)
    ensures
        match r {
            Some(n) => blanks(chars@, i as int) == Some(n as nat) && i + n < chars@.len(),
            None => blanks(chars@, i as int) is None,
        },
{
    let mut j = i;
    while j < chars.len() && (chars[j] == '\r' || chars[j] == '\t' || chars[j] == ' ')
        invariant
            i <= j,
            j <= chars@.len() || j == i,
            blanks(chars@, i as int) == match blanks(chars@, j as int) {
                Some(n) => Some((n + (j - i)) as nat),
                None => None,
            },
        decreases chars@.len() - j,
    {
        j += 1;
    }
    if j >= chars.len() {
        None
    } else {
        Some(j - i)
    }
}

/// Looks for the end of the string that starts at `start`.
fn string_token_handler(chars: &Vec<char>, start: usize) -> (r: Option<usize>)
    requires
        start < chars@.len(),
        chars@[start as int] == '"' || chars@[start as int] == '\'',
    ensures
        match r {
            Some(len) => string_end(chars@, chars@[start as int], start + 1, false) == Some(
                start + len,
            ) && start + len <= chars@.len(),
            None => string_end(chars@, chars@[start as int], start + 1, false) is None,
        },
{
    let quote = chars[start];
    let total = chars.len();
    let mut j = start + 1;
    let mut skip_next = false;
    proof {
        lemma_string_end(chars@, quote, start + 1, false);
    }
    loop
        invariant
            start < j <= chars@.len(),
            quote == chars@[start as int],
            string_end(chars@, quote, start + 1, false) == string_end(
                chars@,
                quote,
                j as int,
                skip_next,
            ),
        decreases chars@.len() - j,
    {
        if j >= chars.len() || chars[j] == '\n' {
            return None;
        }
        let c = chars[j];
        j += 1;
        if skip_next {
            skip_next = false;
        } else if c == quote {
            return Some(j - start);
        } else if c == '\\' {
            skip_next = true;
        }
    }
}

/// Counts the characters from `i` on that may stand in a number.
fn number_length(chars: &Vec<char>, i: usize) -> (n: usize)
    requires
        i <= chars@.len(),
    ensures
        n == number_run(chars@, i as int),
        i + n <= chars@.len(),
{
    let mut j = i;
    while j < chars.len() && (is_digit_char(chars[j]) || chars[j] == '.' || chars[j] == '-')
        invariant
            i <= j <= chars@.len(),
            number_run(chars@, i as int) == (j - i) + number_run(chars@, j as int),
        decreases chars@.len() - j,
    {
        j += 1;
    }
    j - i
}

/// Whether a character is a decimal digit.
fn is_digit_char(c: char) -> (r: bool)
    ensures
        r == is_digit(c),
{
    c >= '0' && c <= '9'
}

/// Whether a character may stand in a name.
fn name_char(c: char) -> (r: bool)
    ensures
        r == is_name_char(c),
{
    (c >= 'a' && c <= 'z') || (c >= 'A' && c <= 'Z') || is_digit_char(c) || c == '_'
}

/// Counts the characters from `i` on that may stand in a name.
fn name_length(chars: &Vec<char>, i: usize) -> (n: usize)
    requires
        i <= chars@.len(),
    ensures
        n == name_run(chars@, i as int),
        i + n <= chars@.len(),
{
    let mut j = i;
    while j < chars.len() && name_char(chars[j])
        invariant
            i <= j <= chars@.len(),
            name_run(chars@, i as int) == (j - i) + name_run(chars@, j as int),
        decreases chars@.len() - j,
    {
        j += 1;
    }
    j - i
}

/// Whether the characters in `lo..hi` are an integer of 64 bits.
fn is_integer(chars: &Vec<char>, lo: usize, hi: usize) -> (r: bool)
    requires
        lo <= hi <= chars@.len(),
    ensures
        r == is_integer_text(chars@.subrange(lo as int, hi as int)),
{
    let ghost t = chars@.subrange(lo as int, hi as int);
    let negative = lo < hi && chars[lo] == '-';
    let from = if negative {
        lo + 1
    } else {
        lo
    };
    let ghost digits = chars@.subrange(from as int, hi as int);
    assert(unsigned_part(t) =~= digits);
    if from == hi {
        return false;
    }
    assert(digits.len() < t.len() <==> negative);
    let limit: u64 = if negative {
        0x8000_0000_0000_0000
    } else {
        0x7FFF_FFFF_FFFF_FFFF
    };
    let mut value: u64 = 0;
    let mut i = from;
    let mut over = false;
    while i < hi
        invariant
            from <= i <= hi <= chars@.len(),
            from < hi,
            t == chars@.subrange(lo as int, hi as int),
            digits == chars@.subrange(from as int, hi as int),
            digits == unsigned_part(t),
            limit == (if digits.len() < t.len() {
                0x8000_0000_0000_0000u64
            } else {
                0x7FFF_FFFF_FFFF_FFFFu64
            }),
            all_digits(digits.subrange(0, (i - from) as int)),
            !over ==> value == digits_value(digits.subrange(0, (i - from) as int)) && value
                <= limit,
            over ==> digits_value(digits.subrange(0, (i - from) as int)) > limit,
        decreases hi - i,
    {
        let c = chars[i];
        let ghost before = digits.subrange(0, (i - from) as int);
        let ghost upto = digits.subrange(0, (i + 1 - from) as int);
        assert(upto.drop_last() =~= before);
        assert(upto.last() == c);
        if !is_digit_char(c) {
            assert(digits[(i - from) as int] == c);
            assert(!is_digit(digits[(i - from) as int]));
            assert(!all_digits(digits));
            return false;
        }
        assert forall|j: int| 0 <= j < upto.len() implies is_digit(#[trigger] upto[j]) by {
            if j < before.len() {
                assert(before[j] == upto[j]);
            }
        }
        if !over {
            let d = (c as u32 - '0' as u32) as u64;
            assert(d <= 9);
            if value > (limit - d) / 10 {
                over = true;
            } else {
                value = value * 10 + d;
            }
        }
        i += 1;
    }
    assert(digits.subrange(0, (hi - from) as int) =~= digits);
    !over
}

/// Whether the characters in `lo..hi`, which may all stand in a number,
/// are a float.
fn is_float(chars: &Vec<char>, lo: usize, hi: usize) -> (r: bool)
    requires
        lo <= hi <= chars@.len(),
    ensures
        r == is_float_text(chars@.subrange(lo as int, hi as int)),
{
    let ghost t = chars@.subrange(lo as int, hi as int);
    let from = if lo < hi && chars[lo] == '-' {
        lo + 1
    } else {
        lo
    };
    let ghost body = chars@.subrange(from as int, hi as int);
    assert(unsigned_part(t) =~= body);
    let mut found: usize = 0;
    let mut i = from;
    while i < hi
        invariant
            from <= i <= hi <= chars@.len(),
            t == chars@.subrange(lo as int, hi as int),
            body == chars@.subrange(from as int, hi as int),
            body == unsigned_part(t),
            found == dots(body, (i - from) as nat),
            found <= i - from,
            forall|k: int| 0 <= k < i - from ==> #[trigger] body[k] != '-',
        decreases hi - i,
    {
        let c = chars[i];
        assert(body[(i - from) as int] == c);
        if c == '-' {
            assert(unsigned_part(t)[(i - from) as int] == '-');
            assert(!is_float_text(t));
            return false;
        }
        if c == '.' {
            found += 1;
        }
        i += 1;
    }
    found <= 1 && found < hi - from
}

/// Whether the given symbol stands at index `i`.
fn symbol_token_handler(chars: &Vec<char>, i: usize, symbol: &Vec<char>) -> (r: bool)
    requires
        i <= chars@.len(),
    ensures
        r == symbol_at(chars@, i as int, symbol@),
{
    if symbol.len() > chars.len() - i {
        return false;
    }
    let mut k: usize = 0;
    while k < symbol.len()
        invariant
            k <= symbol@.len(),
            chars@.len() <= usize::MAX,
            i + symbol@.len() <= chars@.len(),
            forall|j: int| 0 <= j < k ==> chars@[i + j] == symbol@[j],
        decreases symbol@.len() - k,
    {
        if chars[i + k] != symbol[k] {
            assert(chars@.subrange(i as int, i + symbol@.len())[k as int] != symbol@[k as int]);
            return false;
        }
        k += 1;
    }
    assert(chars@.subrange(i as int, i + symbol@.len()) =~= symbol@);
    true
}

/// The symbol of one character.
fn one(a: char) -> (v: Vec<char>)
    ensures
        v@ == seq![a],
{
    let mut v: Vec<char> = Vec::new();
    v.push(a);
    assert(v@ =~= seq![a]);
    v
}

/// The symbol of two characters.
fn two(a: char, b: char) -> (v: Vec<char>)
    ensures
        v@ == seq![a, b],
{
    let mut v: Vec<char> = Vec::new();
    v.push(a);
    v.push(b);
    assert(v@ =~= seq![a, b]);
    v
}

/// The symbol that stands at index `i`.
fn symbol_handlers(chars: &Vec<char>, i: usize) -> (r: Option<(TokenType, usize)>)
    requires
        i <= chars@.len(),
    ensures
        match r {
            Some(found) => symbol_scan(chars@, i as int) == Some((found.0, found.1 as nat)),
            None => symbol_scan(chars@, i as int) is None,
        },
{
    if symbol_token_handler(chars, i, &two('<', '=')) {
        Some((TokenType::LTEConditional, 2))
    } else if symbol_token_handler(chars, i, &two('>', '=')) {
        Some((TokenType::GTEConditional, 2))
    } else if symbol_token_handler(chars, i, &one('<')) {
        Some((TokenType::LTConditional, 1))
    } else if symbol_token_handler(chars, i, &one('>')) {
        Some((TokenType::GTConditional, 1))
    } else if symbol_token_handler(chars, i, &two('=', '=')) {
        Some((TokenType::EqConditional, 2))
    } else if symbol_token_handler(chars, i, &one('{')) {
        Some((TokenType::OpenBlock, 1))
    } else if symbol_token_handler(chars, i, &one('}')) {
        Some((TokenType::CloseBlock, 1))
    } else if symbol_token_handler(chars, i, &one('(')) {
        Some((TokenType::OpenParams, 1))
    } else if symbol_token_handler(chars, i, &one(')')) {
        Some((TokenType::CloseParams, 1))
    } else if symbol_token_handler(chars, i, &one('[')) {
        Some((TokenType::OpenArray, 1))
    } else if symbol_token_handler(chars, i, &one(']')) {
        Some((TokenType::CloseArray, 1))
    } else if symbol_token_handler(chars, i, &one('\n')) {
        Some((TokenType::NewLine, 1))
    } else if symbol_token_handler(chars, i, &one('=')) {
        Some((TokenType::VarAssignment, 1))
    } else if symbol_token_handler(chars, i, &one(':')) {
        Some((TokenType::ModuleReference, 1))
    } else {
        None
    }
}

/// Whether the characters in `lo..hi` spell the given word.
fn spells(chars: &Vec<char>, lo: usize, hi: usize, word: &str) -> (r: bool)
    requires
        lo <= hi <= chars@.len(),
    ensures
        r == (chars@.subrange(lo as int, hi as int) == word@),
{
    let n = word.unicode_len();
    if hi - lo != n {
        return false;
    }
    let mut i: usize = 0;
    while i < n
        invariant
            i <= n,
            n == word@.len(),
            n == hi - lo,
            lo <= hi <= chars@.len(),
            forall|j: int| 0 <= j < i ==> chars@[lo + j] == word@[j],
        decreases n - i,
    {
        if chars[lo + i] != word.get_char(i) {
            assert(chars@.subrange(lo as int, hi as int)[i as int] != word@[i as int]);
            return false;
        }
        i += 1;
    }
    assert(chars@.subrange(lo as int, hi as int) =~= word@);
    true
}

/// What the name in `lo..hi` is: a keyword, or a name.
fn name_token_handler(chars: &Vec<char>, lo: usize, hi: usize) -> (t: TokenType)
    requires
        lo <= hi <= chars@.len(),
    ensures
        t == name_type(chars@.subrange(lo as int, hi as int)),
{
    if spells(chars, lo, hi, "export") {
        TokenType::ExportKeyword
    } else if spells(chars, lo, hi, "serial") {
        TokenType::SerialKeyword
    } else if spells(chars, lo, hi, "acceleratable") {
        TokenType::AcceleratableKeyword
    } else if spells(chars, lo, hi, "function") || spells(chars, lo, hi, "return") || spells(
        chars,
        lo,
        hi,
        "true",
    ) || spells(chars, lo, hi, "false") {
        TokenType::FunctionKeyword
    } else {
        TokenType::Name
    }
}

/// What stands at index `i`, in executable form.
enum Scanned {
    Found(TokenType, usize),
    Nothing,
    Unterminated,
}

/// Tries the kinds of tokens in their order of precedence at index `i`.
fn try_token_handlers(chars: &Vec<char>, i: usize) -> (r: Scanned)
    requires
        i <= chars@.len(),
    ensures
        match r {
            Scanned::Found(t, len) => scan_at(chars@, i as int) == Scan::Found(t, len as nat) && 0
                < len && i + len <= chars@.len(),
            Scanned::Nothing => scan_at(chars@, i as int) == Scan::Nothing,
            Scanned::Unterminated => scan_at(chars@, i as int) == Scan::Unterminated,
        },
{
    proof {
        lemma_scan(chars@, i as int);
    }
    if i < chars.len() && (chars[i] == '"' || chars[i] == '\'') {
        return match string_token_handler(chars, i) {
            Some(len) => Scanned::Found(TokenType::String, len),
            None => Scanned::Unterminated,
        };
    }
    let run = number_length(chars, i);
    if is_integer(chars, i, i + run) {
        return Scanned::Found(TokenType::Integer, run);
    }
    if run > 0 && is_float(chars, i, i + run) {
        return Scanned::Found(TokenType::Float, run);
    }
    match symbol_handlers(chars, i) {
        Some(symbol) => Scanned::Found(symbol.0, symbol.1),
        None => {
            let len = name_length(chars, i);
            if len > 0 {
                Scanned::Found(name_token_handler(chars, i, i + len), len)
            } else {
                Scanned::Nothing
            }
        },
    }
}

/// Whether an executable result of reading a token is the expected one.
pub open spec fn read_is(
    r: Result<Option<TokenContents>, TokenError>,
    expected: Result<Option<ContentsView>, TokenFault>,
) -> bool {
    match r {
        Ok(Some(c)) => expected == Ok::<Option<ContentsView>, TokenFault>(Some(c@)),
        Ok(None) => expected == Ok::<Option<ContentsView>, TokenFault>(None),
        Err(e) => expected == Err::<Option<ContentsView>, TokenFault>(e@),
    }
}

/// Reads the token that follows the blanks at `char_index`.
fn read_token_in(code: &str, chars: &Vec<char>, char_index: usize, line: usize, col: usize) -> (r:
    Result<Option<TokenContents>, TokenError>)
    requires
        chars@ == code@,
    ensures
        read_is(r, token_read(chars@, char_index as int, line as nat, col as nat)),
        r matches Ok(Some(c)) ==> 0 < c.len && char_index + c.skipped + c.len <= chars@.len(),
{
    let total = chars.len();
    let skipped = match skip_whitespace(chars, char_index) {
        Some(n) => n,
        None => {
            return Ok(None);
        },
    };
    let start = char_index + skipped;
    match try_token_handlers(chars, start) {
        Scanned::Found(token_type, len) => Ok(
            Some(
                TokenContents {
                    token_type,
                    contents: text_of(code, start, start + len),
                    skipped,
                    len,
                },
            ),
        ),
        Scanned::Nothing => Ok(None),
        Scanned::Unterminated => Err(TokenError::UnterminatedString { line, col }),
    }
}

/// Reads the next token of a text from `char_index` on: skips the blanks
/// there and then tries the kinds of tokens in their order of precedence.
/// It reads nothing where no token stands there. `line` and `col` serve
/// to say where a string that is not closed was looked for.
pub fn read_token(code: &str, char_index: usize, line: usize, col: usize) -> (r: Result<
    Option<TokenContents>,
    TokenError,
>)
    ensures
        read_is(r, token_read(code@, char_index as int, line as nat, col as nat)),
{
    let chars = chars_of(code);
    read_token_in(code, &chars, char_index, line, col)
}

/// Puts tokens that were read in front of a result.
pub open spec fn read_before(done: Seq<TokenView>, rest: Result<Seq<TokenView>, TokenFault>) -> Result<
    Seq<TokenView>,
    TokenFault,
> {
    match rest {
        Ok(tokens) => Ok(done + tokens),
        Err(e) => Err(e),
    }
}

/// The views of a list of tokens.
pub open spec fn token_views(tokens: Seq<Token>) -> Seq<TokenView> {
    Seq::new(tokens.len(), |i: int| tokens[i]@)
}

/// Reads all tokens of a text, with the line and the column of each; a
/// new line ends a line.
pub fn read_all_tokens(code: &str) -> (r: Result<Vec<Token>, TokenError>)
    ensures
        match r {
            Ok(tokens) => tokens_of(code@) == Ok::<Seq<TokenView>, TokenFault>(
                token_views(tokens@),
            ),
            Err(e) => tokens_of(code@) == Err::<Seq<TokenView>, TokenFault>(e@),
        },
{
    let chars = chars_of(code);
    let mut tokens: Vec<Token> = Vec::new();
    let mut char_index: usize = 0;
    let mut line: usize = 0;
    let mut col: usize = 0;
    let ghost goal = tokens_of(code@);
    assert(token_views(tokens@) =~= Seq::<TokenView>::empty());
    assert(goal == read_before(token_views(tokens@), tokens_from(chars@, 0, 0, 0))) by {
        match tokens_from(chars@, 0, 0, 0) {
            Ok(t) => {
                assert(Seq::<TokenView>::empty() + t =~= t);
            },
            Err(_) => {},
        }
    }
    loop
        invariant
            chars@ == code@,
            goal == tokens_of(code@),
            char_index <= chars@.len(),
            line <= char_index,
            col <= char_index,
            goal == read_before(
                token_views(tokens@),
                tokens_from(chars@, char_index as int, line as nat, col as nat),
            ),
        decreases chars@.len() - char_index,
    {
        let next = match read_token_in(code, &chars, char_index, line, col) {
            Ok(next) => next,
            Err(e) => {
                return Err(e);
            },
        };
        let contents = match next {
            Some(contents) => contents,
            None => {
                assert(token_views(tokens@) + Seq::<TokenView>::empty() =~= token_views(tokens@));
                return Ok(tokens);
            },
        };
        let new_line = match contents.token_type {
            TokenType::NewLine => true,
            _ => false,
        };
        let ghost before = token_views(tokens@);
        let ghost here = tokens_from(chars@, char_index as int, line as nat, col as nat);
        col += contents.skipped;
        let token = Token {
            token_type: contents.token_type,
            contents: contents.contents,
            line,
            col,
        };
        let ghost view = token@;
        tokens.push(token);
        col += contents.len;
        char_index += contents.skipped + contents.len;
        if new_line {
            line += 1;
            col = 0;
        }
        proof {
            let rest = tokens_from(chars@, char_index as int, line as nat, col as nat);
            assert(token_views(tokens@) =~= before.push(view));
            match rest {
                Ok(t) => {
                    assert(before + (seq![view] + t) =~= token_views(tokens@) + t);
                },
                Err(_) => {},
            }
        }
    }
}

} // verus!
