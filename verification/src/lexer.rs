//! The lexer: turns source text into a sequence of tokens.
//!
//! The behaviour of the lexer is specified by [`lex`], a function on the
//! characters of the source, and the executable [`Lexer`] is proved to
//! compute exactly that function.
use crate::token::{
    clone_tokens,
    literal_view, spec_keyword, token_views, keyword_type, LiteralValue, LiteralView, Token, TokenType,
    TokenView,
};
use std::ops::Range;
use vstd::prelude::*;
use vstd::string::*;
use vstd::utf8::is_ascii_chars;

verus! {

/// The error classes that the lexer reports.
#[derive(Clone, Copy, Debug, PartialEq, Eq, Structural)]
pub enum LexerCodes {
    UnknownSymbol,
    UnterminatedString,
    NumberParseError,
}

impl LexerCodes {
    /// The diagnostic code of this class.
    pub fn code(&self) -> (r: &'static str)
        ensures
            r@ == (match self {
                LexerCodes::UnknownSymbol => "unknown_symbol"@,
                LexerCodes::UnterminatedString => "unterminated_string"@,
                LexerCodes::NumberParseError => "number_parse_error"@,
            }),
    {
        match self {
            LexerCodes::UnknownSymbol => "unknown_symbol",
            LexerCodes::UnterminatedString => "unterminated_string",
            LexerCodes::NumberParseError => "number_parse_error",
        }
    }
}

/// What went wrong while reading a token.
#[derive(Clone, Copy, Debug, PartialEq, Eq, Structural)]
pub enum LexErrorKind {
    /// A character that starts no token.
    UnknownSymbol(char),
    /// A `!` that is not part of `!=`.
    BangNotAllowed,
    /// A `=` that is not part of `==`.
    EqualsNotAllowed,
    /// A backslash in a string followed by a character that is no escape.
    InvalidEscape(char),
    /// A string literal with no closing quote.
    UnterminatedString,
}

impl LexErrorKind {
    /// The class of this error.
    pub fn class(&self) -> (r: LexerCodes)
        ensures
            r == (match self {
                LexErrorKind::UnterminatedString => LexerCodes::UnterminatedString,
                _ => LexerCodes::UnknownSymbol,
            }),
    {
        match self {
            LexErrorKind::UnterminatedString => LexerCodes::UnterminatedString,
            _ => LexerCodes::UnknownSymbol,
        }
    }
}

/// A lexical error: its kind, the source range of the offending token and
/// the line the lexer had reached.
#[derive(Debug)]
pub struct LexError {
    pub kind: LexErrorKind,
    pub span: Range<usize>,
    pub line: usize,
}

impl Clone for LexError {
    fn clone(&self) -> (r: Self)
        ensures
            r == *self,
    {
        LexError { kind: self.kind, span: self.span.start..self.span.end, line: self.line }
    }
}

// ---------------------------------------------------------------------------
// Specification
// ---------------------------------------------------------------------------
/// The character at `i`, or `'\0'` past either end.
pub open spec fn char_at(s: Seq<char>, i: int) -> char {
    if 0 <= i < s.len() {
        s[i]
    } else {
        '\0'
    }
}

pub open spec fn is_digit(c: char) -> bool {
    '0' <= c && c <= '9'
}

pub open spec fn is_alpha(c: char) -> bool {
    ('a' <= c && c <= 'z') || ('A' <= c && c <= 'Z')
}

/// Characters that may continue an identifier.
pub open spec fn is_ident_char(c: char) -> bool {
    is_alpha(c) || is_digit(c) || c == '_'
}

/// The position of the newline (or the end) that closes a comment begun
/// before `i`.
pub open spec fn comment_end(s: Seq<char>, i: int) -> int
    decreases s.len() - i,
{
    if i < s.len() && s[i] != '\n' {
        comment_end(s, i + 1)
    } else {
        i
    }
}

/// The first position at or after `i` that holds no digit.
pub open spec fn digits_end(s: Seq<char>, i: int) -> int
    decreases s.len() - i,
{
    if i < s.len() && is_digit(s[i]) {
        digits_end(s, i + 1)
    } else {
        i
    }
}

/// The end of a numeral whose first digit lies just before `i`: more
/// digits, then optionally a `.` followed by at least one digit and more.
pub open spec fn number_end(s: Seq<char>, i: int) -> int {
    let j = digits_end(s, i);
    if char_at(s, j) == '.' && is_digit(char_at(s, j + 1)) {
        digits_end(s, j + 1)
    } else {
        j
    }
}

/// The end of an identifier whose first character lies just before `i`.
pub open spec fn ident_end(s: Seq<char>, i: int) -> int
    decreases s.len() - i,
{
    if i < s.len() && is_ident_char(s[i]) {
        ident_end(s, i + 1)
    } else {
        i
    }
}

/// The character that an escape `\c` stands for.
pub open spec fn escape_of(c: char) -> Option<char> {
    if c == 'n' {
        Some('\n')
    } else if c == 'r' {
        Some('\r')
    } else if c == 't' {
        Some('\t')
    } else if c == '\\' {
        Some('\\')
    } else if c == '"' {
        Some('"')
    } else {
        None
    }
}

/// How the body of a string literal ends.
pub enum StringScan {
    /// The closing quote ends just before `end`; `text` is the content.
    Closed { end: int, line: int, text: Seq<char> },
    /// The character at `at` follows a backslash and is no escape.
    BadEscape { at: int, line: int, found: char },
    /// The source ended inside the literal.
    Unterminated { line: int },
}

/// Reads the body of a string literal from `i`, having read `text` so far.
pub open spec fn scan_string(s: Seq<char>, i: int, line: int, text: Seq<char>) -> StringScan
    decreases s.len() - i,
{
    if i < 0 || i >= s.len() {
        StringScan::Unterminated { line }
    } else if s[i] == '"' {
        StringScan::Closed { end: i + 1, line, text }
    } else if s[i] == '\\' {
        match escape_of(char_at(s, i + 1)) {
            Some(e) => scan_string(s, i + 2, line, text.push(e)),
            None => StringScan::BadEscape { at: i + 1, line, found: char_at(s, i + 1) },
        }
    } else {
        scan_string(
            s,
            i + 1,
            if s[i] == '\n' {
                line + 1
            } else {
                line
            },
            text.push(s[i]),
        )
    }
}

/// Token kinds after which a newline ends a statement.
pub open spec fn ends_statement(t: TokenType) -> bool {
    match t {
        TokenType::Identifier | TokenType::Number | TokenType::StringLiteral | TokenType::Break
        | TokenType::Continue | TokenType::Return | TokenType::RightParen
        | TokenType::RightBracket | TokenType::RightBrace => true,
        _ => false,
    }
}

/// The outcome of reading one token.
pub enum Step {
    /// A token of kind `tt` ending just before `end`.
    Emit { tt: TokenType, end: int, line: int, literal: Option<LiteralView> },
    /// Nothing to emit (blank, comment or newline); reading resumes at `end`.
    Skip { end: int, line: int },
    /// An error; reading resumes at `end`.
    Fail { kind: LexErrorKind, end: int, line: int },
}

/// The token kind of a one-character token, if `c` is one.
pub open spec fn single_char_token(c: char) -> Option<TokenType> {
    if c == '(' {
        Some(TokenType::LeftParen)
    } else if c == ')' {
        Some(TokenType::RightParen)
    } else if c == '[' {
        Some(TokenType::LeftBracket)
    } else if c == ']' {
        Some(TokenType::RightBracket)
    } else if c == '{' {
        Some(TokenType::LeftBrace)
    } else if c == '}' {
        Some(TokenType::RightBrace)
    } else if c == ',' {
        Some(TokenType::Comma)
    } else if c == '.' {
        Some(TokenType::Dot)
    } else if c == '-' {
        Some(TokenType::Minus)
    } else if c == '+' {
        Some(TokenType::Plus)
    } else if c == '*' {
        Some(TokenType::Star)
    } else if c == ';' {
        Some(TokenType::SoftSemi)
    } else {
        None
    }
}

/// Reads the token that starts at `pos`, on line `line`, after a token of
/// kind `last` (if any token was read before).
pub open spec fn scan_step(s: Seq<char>, pos: int, line: int, last: Option<TokenType>) -> Step {
    let c = s[pos];
    let p = pos + 1;
    if single_char_token(c) is Some {
        Step::Emit { tt: single_char_token(c)->0, end: p, line, literal: None }
    } else if c == '!' {
        if char_at(s, p) == '=' {
            Step::Emit { tt: TokenType::BangEqual, end: p + 1, line, literal: None }
        } else {
            Step::Fail { kind: LexErrorKind::BangNotAllowed, end: p, line }
        }
    } else if c == '=' {
        if char_at(s, p) == '=' {
            Step::Emit { tt: TokenType::EqualEqual, end: p + 1, line, literal: None }
        } else {
            Step::Fail { kind: LexErrorKind::EqualsNotAllowed, end: p, line }
        }
    } else if c == '<' {
        if char_at(s, p) == '=' {
            Step::Emit { tt: TokenType::LessEqual, end: p + 1, line, literal: None }
        } else if char_at(s, p) == '-' {
            Step::Emit { tt: TokenType::Arrow, end: p + 1, line, literal: None }
        } else {
            Step::Emit { tt: TokenType::Less, end: p, line, literal: None }
        }
    } else if c == '>' {
        if char_at(s, p) == '=' {
            Step::Emit { tt: TokenType::GreaterEqual, end: p + 1, line, literal: None }
        } else {
            Step::Emit { tt: TokenType::Greater, end: p, line, literal: None }
        }
    } else if c == '/' {
        if char_at(s, p) == '/' {
            Step::Skip { end: comment_end(s, p + 1), line }
        } else {
            Step::Emit { tt: TokenType::Slash, end: p, line, literal: None }
        }
    } else if c == ' ' || c == '\r' || c == '\t' {
        Step::Skip { end: p, line }
    } else if c == '\n' {
        match last {
            Some(t) => if ends_statement(t) {
                Step::Emit { tt: TokenType::SoftSemi, end: p, line: line + 1, literal: None }
            } else {
                Step::Skip { end: p, line: line + 1 }
            },
            None => Step::Skip { end: p, line },
        }
    } else if c == '"' {
        match scan_string(s, p, line, seq![]) {
            StringScan::Closed { end, line, text } => Step::Emit {
                tt: TokenType::StringLiteral,
                end,
                line,
                literal: Some(LiteralView::String(text)),
            },
            StringScan::BadEscape { at, line, found } => Step::Fail {
                kind: LexErrorKind::InvalidEscape(found),
                end: at,
                line,
            },
            StringScan::Unterminated { line } => Step::Fail {
                kind: LexErrorKind::UnterminatedString,
                end: s.len() as int,
                line,
            },
        }
    } else if is_digit(c) {
        let e = number_end(s, p);
        Step::Emit {
            tt: TokenType::Number,
            end: e,
            line,
            literal: Some(LiteralView::Number(s.subrange(pos, e))),
        }
    } else if is_alpha(c) {
        let e = ident_end(s, p);
        Step::Emit {
            tt: match spec_keyword(s.subrange(pos, e)) {
                Some(k) => k,
                None => TokenType::Identifier,
            },
            end: e,
            line,
            literal: None,
        }
    } else {
        Step::Fail { kind: LexErrorKind::UnknownSymbol(c), end: p, line }
    }
}

/// The kind of the last token of `toks`, if there is one.
pub open spec fn last_type(toks: Seq<TokenView>) -> Option<TokenType> {
    if toks.len() == 0 {
        None
    } else {
        Some(toks.last().token_type)
    }
}

/// The end-of-file token, placed at the start of the last token read.
pub open spec fn eof_view(start: int, line: int) -> TokenView {
    TokenView {
        token_type: TokenType::Eof,
        lexeme: "<EOF>"@,
        literal: None,
        span_start: start as usize,
        span_end: start as usize,
        line_number: line as usize,
    }
}

/// The token emitted for the source range `pos..end`.
pub open spec fn token_at(
    s: Seq<char>,
    tt: TokenType,
    pos: int,
    end: int,
    line: int,
    literal: Option<LiteralView>,
) -> TokenView {
    TokenView {
        token_type: tt,
        lexeme: s.subrange(pos, end),
        literal,
        span_start: pos as usize,
        span_end: end as usize,
        line_number: line as usize,
    }
}

/// The error reported for the source range `pos..end`.
pub open spec fn error_at(kind: LexErrorKind, pos: int, end: int, line: int) -> LexError {
    LexError { kind, span: Range { start: pos as usize, end: end as usize }, line: line as usize }
}

/// The tokens and errors of a complete scan.
pub struct LexOutcome {
    pub tokens: Seq<TokenView>,
    pub errors: Seq<LexError>,
}

/// Scans from `pos` to the end of `s`, having produced `toks` and `errs`;
/// `start` is where the last token read began.
pub open spec fn scan_from(
    s: Seq<char>,
    pos: int,
    line: int,
    start: int,
    toks: Seq<TokenView>,
    errs: Seq<LexError>,
) -> LexOutcome
    decreases s.len() - pos,
    via scan_from_decreases
{
    if pos < 0 || pos >= s.len() {
        LexOutcome { tokens: toks.push(eof_view(start, line)), errors: errs }
    } else {
        match scan_step(s, pos, line, last_type(toks)) {
            Step::Emit { tt, end, line: l2, literal } => scan_from(
                s,
                end,
                l2,
                pos,
                toks.push(token_at(s, tt, pos, end, l2, literal)),
                errs,
            ),
            Step::Skip { end, line: l2 } => scan_from(s, end, l2, pos, toks, errs),
            Step::Fail { kind, end, line: l2 } => scan_from(
                s,
                end,
                l2,
                pos,
                toks,
                errs.push(error_at(kind, pos, end, l2)),
            ),
        }
    }
}

/// The result of lexing the whole of `s`.
pub open spec fn lex(s: Seq<char>) -> LexOutcome {
    scan_from(s, 0, 1, 0, seq![], seq![])
}

/// The position where a step resumes.
pub open spec fn step_end(st: Step) -> int {
    match st {
        Step::Emit { end, .. } => end,
        Step::Skip { end, .. } => end,
        Step::Fail { end, .. } => end,
    }
}

/// The line a step leaves the lexer on.
pub open spec fn step_line(st: Step) -> int {
    match st {
        Step::Emit { line, .. } => line,
        Step::Skip { line, .. } => line,
        Step::Fail { line, .. } => line,
    }
}

// ---------------------------------------------------------------------------
// Lemmas about the specification
// ---------------------------------------------------------------------------
proof fn lemma_comment_end(s: Seq<char>, i: int)
    requires
        0 <= i <= s.len(),
    ensures
        i <= comment_end(s, i) <= s.len(),
        forall|k: int| i <= k < comment_end(s, i) ==> s[k] != '\n',
        comment_end(s, i) < s.len() ==> s[comment_end(s, i)] == '\n',
    decreases s.len() - i,
{
    if i < s.len() && s[i] != '\n' {
        lemma_comment_end(s, i + 1);
    }
}

proof fn lemma_digits_end(s: Seq<char>, i: int)
    requires
        0 <= i <= s.len(),
    ensures
        i <= digits_end(s, i) <= s.len(),
        forall|k: int| i <= k < digits_end(s, i) ==> is_digit(#[trigger] s[k]),
        digits_end(s, i) < s.len() ==> !is_digit(s[digits_end(s, i)]),
    decreases s.len() - i,
{
    if i < s.len() && is_digit(s[i]) {
        lemma_digits_end(s, i + 1);
    }
}

proof fn lemma_ident_end(s: Seq<char>, i: int)
    requires
        0 <= i <= s.len(),
    ensures
        i <= ident_end(s, i) <= s.len(),
        forall|k: int| i <= k < ident_end(s, i) ==> is_ident_char(#[trigger] s[k]),
        ident_end(s, i) < s.len() ==> !is_ident_char(s[ident_end(s, i)]),
    decreases s.len() - i,
{
    if i < s.len() && is_ident_char(s[i]) {
        lemma_ident_end(s, i + 1);
    }
}

proof fn lemma_number_end(s: Seq<char>, i: int)
    requires
        0 <= i <= s.len(),
    ensures
        i <= number_end(s, i) <= s.len(),
{
    lemma_digits_end(s, i);
    let j = digits_end(s, i);
    if char_at(s, j) == '.' && is_digit(char_at(s, j + 1)) {
        lemma_digits_end(s, j + 1);
    }
}

proof fn lemma_scan_string(s: Seq<char>, i: int, line: int, text: Seq<char>)
    requires
        0 <= i <= s.len(),
    ensures
        match scan_string(s, i, line, text) {
            StringScan::Closed { end, line: l2, .. } => i < end <= s.len() && line <= l2 <= line
                + (end - i),
            StringScan::BadEscape { at, line: l2, .. } => i < at <= s.len() && line <= l2 <= line
                + (at - i),
            StringScan::Unterminated { line: l2 } => line <= l2 <= line + (s.len() - i),
        },
    decreases s.len() - i,
{
    if i < 0 || i >= s.len() {
    } else if s[i] == '"' {
    } else if s[i] == '\\' {
        match escape_of(char_at(s, i + 1)) {
            Some(e) => {
                lemma_scan_string(s, i + 2, line, text.push(e));
            },
            None => {},
        }
    } else {
        let l2 = if s[i] == '\n' {
            line + 1
        } else {
            line
        };
        lemma_scan_string(s, i + 1, l2, text.push(s[i]));
    }
}

/// Every step moves forward, stays within the source and adds at most one
/// line per character read.
proof fn lemma_step_advances(s: Seq<char>, pos: int, line: int, last: Option<TokenType>)
    requires
        0 <= pos < s.len(),
    ensures
        pos < step_end(scan_step(s, pos, line, last)) <= s.len(),
        line <= step_line(scan_step(s, pos, line, last)) <= line + (step_end(
            scan_step(s, pos, line, last),
        ) - pos),
{
    let c = s[pos];
    let p = pos + 1;
    if c == '/' && char_at(s, p) == '/' {
        lemma_comment_end(s, p + 1);
    }
    if c == '"' {
        lemma_scan_string(s, p, line, seq![]);
    }
    if is_digit(c) {
        lemma_number_end(s, p);
    }
    if is_alpha(c) {
        lemma_ident_end(s, p);
    }
}

#[via_fn]
proof fn scan_from_decreases(
    s: Seq<char>,
    pos: int,
    line: int,
    start: int,
    toks: Seq<TokenView>,
    errs: Seq<LexError>,
) {
    if 0 <= pos < s.len() {
        lemma_step_advances(s, pos, line, last_type(toks));
    }
}

/// Whether a token's span lies within `s`, is not empty, and its lexeme is
/// the text of that span.
pub open spec fn token_fits(s: Seq<char>, t: TokenView) -> bool {
    &&& t.span_start < t.span_end <= s.len()
    &&& t.lexeme == s.subrange(t.span_start as int, t.span_end as int)
}

/// Whether the tokens of `ts` are no end-of-file tokens, fit `s` and come
/// in the order of their spans, none overlapping the next.
pub open spec fn tokens_in_order(s: Seq<char>, ts: Seq<TokenView>) -> bool {
    &&& forall|k: int| 0 <= k < ts.len() ==> (#[trigger] ts[k]).token_type != TokenType::Eof
    &&& forall|k: int| 0 <= k < ts.len() ==> token_fits(s, #[trigger] ts[k])
    &&& forall|j: int, k: int| 0 <= j < k < ts.len() ==> #[trigger] ts[j].span_end <= #[trigger] ts[k].span_start
}

/// A step never emits the end-of-file kind.
proof fn lemma_step_not_eof(s: Seq<char>, pos: int, line: int, last: Option<TokenType>)
    requires
        0 <= pos < s.len(),
    ensures
        scan_step(s, pos, line, last) matches Step::Emit { tt, .. } ==> tt != TokenType::Eof,
{
}

proof fn lemma_scan_from_tokens(
    s: Seq<char>,
    pos: int,
    line: int,
    start: int,
    toks: Seq<TokenView>,
    errs: Seq<LexError>,
)
    requires
        0 <= pos <= s.len(),
        s.len() < usize::MAX,
        tokens_in_order(s, toks),
        forall|k: int| 0 <= k < toks.len() ==> (#[trigger] toks[k]).span_end <= pos,
    ensures
        ({
            let r = scan_from(s, pos, line, start, toks, errs).tokens;
            &&& r.len() > toks.len()
            &&& r.take(toks.len() as int) == toks
            &&& r.last().token_type == TokenType::Eof
            &&& tokens_in_order(s, r.drop_last())
        }),
    decreases s.len() - pos,
{
    if pos >= s.len() {
        let r = toks.push(eof_view(start, line));
        assert(r.take(toks.len() as int) =~= toks);
        assert(r.drop_last() =~= toks);
    } else {
        lemma_step_advances(s, pos, line, last_type(toks));
        lemma_step_not_eof(s, pos, line, last_type(toks));
        match scan_step(s, pos, line, last_type(toks)) {
            Step::Emit { tt, end, line: l2, literal } => {
                let t = token_at(s, tt, pos, end, l2, literal);
                let t2 = toks.push(t);
                assert forall|j: int, k: int| 0 <= j < k < t2.len() implies #[trigger] t2[j].span_end
                    <= #[trigger] t2[k].span_start by {
                    if k == toks.len() {
                        assert(toks[j].span_end <= pos);
                    }
                }
                lemma_scan_from_tokens(s, end, l2, pos, t2, errs);
                let r = scan_from(s, end, l2, pos, t2, errs).tokens;
                assert(r.take(toks.len() as int) =~= r.take(t2.len() as int).take(toks.len() as int));
                assert(t2.take(toks.len() as int) =~= toks);
            },
            Step::Skip { end, line: l2 } => {
                lemma_scan_from_tokens(s, end, l2, pos, toks, errs);
            },
            Step::Fail { kind, end, line: l2 } => {
                lemma_scan_from_tokens(s, end, l2, pos, toks, errs.push(error_at(kind, pos, end, l2)));
            },
        }
    }
}

/// Every scan ends with the end-of-file token and has no other: the tokens
/// before it are read in order from the source, each spanning a non-empty
/// stretch of it whose text is the token's lexeme, no two overlapping.
pub proof fn lemma_lex_tokens(s: Seq<char>)
    requires
        s.len() < usize::MAX,
    ensures
        lex(s).tokens.len() > 0,
        lex(s).tokens.last().token_type == TokenType::Eof,
        tokens_in_order(s, lex(s).tokens.drop_last()),
{
    lemma_scan_from_tokens(s, 0, 1, 0, seq![], seq![]);
}

/// Text a string literal copies as it stands: no quote, backslash or
/// newline in it.
pub open spec fn plain_text(x: Seq<char>) -> bool {
    forall|k: int| 0 <= k < x.len() ==> #[trigger] x[k] != '"' && x[k] != '\\' && x[k] != '\n'
}

/// Plain characters are copied into the literal's value one by one.
proof fn lemma_plain_run(s: Seq<char>, i: int, line: int, text: Seq<char>, k: int)
    requires
        0 <= i,
        0 <= k,
        i + k <= s.len(),
        plain_text(s.subrange(i, i + k)),
    ensures
        scan_string(s, i, line, text) == scan_string(s, i + k, line, text + s.subrange(i, i + k)),
    decreases k,
{
    if k == 0 {
        assert(text + s.subrange(i, i) =~= text);
    } else {
        assert(s.subrange(i, i + k)[0] == s[i]);
        assert(s.subrange(i + 1, i + k) =~= s.subrange(i, i + k).subrange(1, k));
        lemma_plain_run(s, i + 1, line, text.push(s[i]), k - 1);
        assert(text.push(s[i]) + s.subrange(i + 1, i + k) =~= text + s.subrange(i, i + k));
    }
}

/// An escape in a string literal stands for the character it names:
/// backslash-`n` for a line feed, backslash-`r` for a carriage return,
/// backslash-`t` for a tab, and a backslash before `\\` or `"` for that
/// character itself. The literal's body `x`, the escape, `y` and the closing
/// quote read as the value `x`, the escaped character, `y`.
pub proof fn lemma_escape_in_literal(
    x: Seq<char>,
    c: char,
    y: Seq<char>,
    rest: Seq<char>,
    line: int,
)
    requires
        plain_text(x),
        plain_text(y),
        c == 'n' || c == 'r' || c == 't' || c == '\\' || c == '"',
    ensures
        scan_string(x + seq!['\\', c] + y + seq!['"'] + rest, 0, line, seq![])
            == (StringScan::Closed {
            end: x.len() + y.len() + 3int,
            line,
            text: x + seq![
                if c == 'n' {
                    '\n'
                } else if c == 'r' {
                    '\r'
                } else if c == 't' {
                    '\t'
                } else {
                    c
                },
            ] + y,
        }),
{
    let s = x + seq!['\\', c] + y + seq!['"'] + rest;
    let m = if c == 'n' {
        '\n'
    } else if c == 'r' {
        '\r'
    } else if c == 't' {
        '\t'
    } else {
        c
    };
    let i = x.len() as int;
    let j = i + 2 + y.len();
    assert(s.subrange(0, i) =~= x);
    assert(seq![] + x =~= x);
    lemma_plain_run(s, 0, line, seq![], i);
    assert(s[i] == '\\');
    assert(char_at(s, i + 1) == c);
    assert(scan_string(s, i, line, x) == scan_string(s, i + 2, line, x.push(m)));
    assert(s.subrange(i + 2, j) =~= y);
    lemma_plain_run(s, i + 2, line, x.push(m), y.len() as int);
    assert(s[j] == '"');
    assert(x.push(m) + y =~= x + seq![m] + y);
}

// ---------------------------------------------------------------------------
// Implementation
// ---------------------------------------------------------------------------
/// The lexer state: the source, the tokens read so far, where the current
/// token started, how far reading has got and the current line.
pub struct Lexer {
    file_name: String,
    source: String,
    chars: Vec<char>,
    tokens: Vec<Token>,
    start: usize,
    current: usize,
    line: usize,
}

impl Lexer {
    /// The characters of the source.
    pub closed spec fn text(&self) -> Seq<char> {
        self.chars@
    }

    /// Where reading has got.
    pub closed spec fn pos(&self) -> int {
        self.current as int
    }

    /// Where the last token read began.
    pub closed spec fn token_start(&self) -> int {
        self.start as int
    }

    /// The current line.
    pub closed spec fn line(&self) -> int {
        self.line as int
    }

    /// The tokens read so far.
    pub closed spec fn tokens_read(&self) -> Seq<TokenView> {
        token_views(self.tokens@)
    }

    /// The name of the file being read.
    pub closed spec fn file(&self) -> Seq<char> {
        self.file_name@
    }

    /// The lexer's invariant.
    pub closed spec fn wf(&self) -> bool {
        &&& self.chars@ == self.source@
        &&& is_ascii_chars(self.chars@)
        &&& self.chars@.len() < usize::MAX
        &&& self.start <= self.current <= self.chars@.len()
        &&& 1 <= self.line <= self.current + 1
    }

    /// A lexer positioned at the start of `input`.
    pub fn new(input: &str, file_name: String) -> (l: Lexer)
        requires
            is_ascii_chars(input@),
            input@.len() < usize::MAX,
        ensures
            l.wf(),
            l.text() == input@,
            l.pos() == 0,
            l.token_start() == 0,
            l.line() == 1,
            l.tokens_read() == Seq::<TokenView>::empty(),
            l.file() == file_name@,
    {
        let mut chars: Vec<char> = Vec::new();
        for c in it: input.chars()
            invariant
                chars@ == it.seq().take(it.index() as int),
        {
            chars.push(c);
        }
        assert(chars@ == input@);
        let l = Lexer {
            file_name,
            source: String::from_str(input),
            chars,
            tokens: Vec::new(),
            start: 0,
            current: 0,
            line: 1,
        };
        assert(token_views(l.tokens@) =~= Seq::<TokenView>::empty());
        l
    }

    /// Lexes the whole of `input`. Succeeds with the tokens exactly when the
    /// source has no lexical error, and otherwise returns every error found.
    pub fn scan(input: &str, file_name: String) -> (r: Result<Vec<Token>, Vec<LexError>>)
        requires
            is_ascii_chars(input@),
            input@.len() < usize::MAX,
        ensures
            match r {
                Ok(toks) => lex(input@).errors.len() == 0 && token_views(toks@) == lex(
                    input@,
                ).tokens,
                Err(errs) => lex(input@).errors.len() > 0 && errs@ == lex(input@).errors,
            },
    {
        let mut lexer = Self::new(input, file_name);
        proof {
            assert(lex(input@) == scan_from(lexer.text(), 0, 1, 0, lexer.tokens_read(), seq![]));
        }
        lexer.scan_tokens()
    }

    /// Reads tokens up to the end of the source and appends the end-of-file
    /// token. Succeeds with all tokens read exactly when no error was found.
    pub fn scan_tokens(&mut self) -> (r: Result<Vec<Token>, Vec<LexError>>)
        requires
            old(self).wf(),
        ensures
            final(self).wf(),
            final(self).text() == old(self).text(),
            final(self).tokens_read() == scan_from(
                old(self).text(),
                old(self).pos(),
                old(self).line(),
                old(self).token_start(),
                old(self).tokens_read(),
                seq![],
            ).tokens,
            match r {
                Ok(toks) => scan_from(
                    old(self).text(),
                    old(self).pos(),
                    old(self).line(),
                    old(self).token_start(),
                    old(self).tokens_read(),
                    seq![],
                ).errors.len() == 0 && token_views(toks@) == final(self).tokens_read(),
                Err(errs) => errs@ == scan_from(
                    old(self).text(),
                    old(self).pos(),
                    old(self).line(),
                    old(self).token_start(),
                    old(self).tokens_read(),
                    seq![],
                ).errors && errs@.len() > 0,
            },
    {
        let ghost goal = scan_from(
            self.text(),
            self.pos(),
            self.line(),
            self.token_start(),
            self.tokens_read(),
            seq![],
        );
        let mut errors: Vec<LexError> = Vec::new();
        while !self.is_at_end()
            invariant
                self.wf(),
                self.text() == old(self).text(),
                scan_from(
                    self.text(),
                    self.pos(),
                    self.line(),
                    self.token_start(),
                    self.tokens_read(),
                    errors@,
                ) == goal,
            decreases self.text().len() - self.pos(),
        {
            self.start = self.current;
            proof {
                lemma_step_advances(
                    self.text(),
                    self.pos(),
                    self.line(),
                    last_type(self.tokens_read()),
                );
            }
            match self.scan_token() {
                Ok(_) => (),
                Err(e) => errors.push(e),
            }
        }
        let eof = Token {
            token_type: TokenType::Eof,
            lexeme: String::from_str("<EOF>"),
            literal: None,
            span: self.start..self.start,
            line_number: self.line,
        };
        self.tokens.push(eof);
        proof {
            assert(self.tokens_read() =~= goal.tokens);
        }
        if errors.len() > 0 {
            return Err(errors);
        }
        let out = clone_tokens(&self.tokens);
        Ok(out)
    }

    fn is_at_end(&self) -> (r: bool)
        requires
            self.wf(),
        ensures
            r == (self.pos() >= self.text().len()),
    {
        self.current >= self.chars.len()
    }

    /// Reads one token starting at `current` and records it, or reports why
    /// it could not be read.
    fn scan_token(&mut self) -> (r: Result<(), LexError>)
        requires
            old(self).wf(),
            old(self).token_start() == old(self).pos(),
            old(self).pos() < old(self).text().len(),
        ensures
            final(self).wf(),
            final(self).text() == old(self).text(),
            final(self).token_start() == old(self).pos(),
            ({
                let st = scan_step(
                    old(self).text(),
                    old(self).pos(),
                    old(self).line(),
                    last_type(old(self).tokens_read()),
                );
                &&& final(self).pos() == step_end(st)
                &&& final(self).line() == step_line(st)
                &&& match st {
                    Step::Emit { tt, end, line, literal } => r is Ok && final(self).tokens_read()
                        == old(self).tokens_read().push(
                        token_at(old(self).text(), tt, old(self).pos(), end, line, literal),
                    ),
                    Step::Skip { .. } => r is Ok && final(self).tokens_read() == old(self).tokens_read(),
                    Step::Fail { kind, end, line } => r == Err::<(), LexError>(
                        error_at(kind, old(self).pos(), end, line),
                    ) && final(self).tokens_read() == old(self).tokens_read(),
                }
            }),
    {
        let ghost s = self.text();
        let ghost st = scan_step(s, self.pos(), self.line(), last_type(self.tokens_read()));
        let c = self.advance();
        if c == '(' {
            self.add_token(TokenType::LeftParen);
        } else if c == ')' {
            self.add_token(TokenType::RightParen);
        } else if c == '[' {
            self.add_token(TokenType::LeftBracket);
        } else if c == ']' {
            self.add_token(TokenType::RightBracket);
        } else if c == '{' {
            self.add_token(TokenType::LeftBrace);
        } else if c == '}' {
            self.add_token(TokenType::RightBrace);
        } else if c == ',' {
            self.add_token(TokenType::Comma);
        } else if c == '.' {
            self.add_token(TokenType::Dot);
        } else if c == '-' {
            self.add_token(TokenType::Minus);
        } else if c == '+' {
            self.add_token(TokenType::Plus);
        } else if c == '*' {
            self.add_token(TokenType::Star);
        } else if c == ';' {
            self.add_token(TokenType::SoftSemi);
        } else if c == '!' {
            if self.char_match('=') {
                self.add_token(TokenType::BangEqual);
            } else {
                return Err(self.error(LexErrorKind::BangNotAllowed));
            }
        } else if c == '=' {
            if self.char_match('=') {
                self.add_token(TokenType::EqualEqual);
            } else {
                return Err(self.error(LexErrorKind::EqualsNotAllowed));
            }
        } else if c == '<' {
            let token = if self.char_match('=') {
                TokenType::LessEqual
            } else if self.char_match('-') {
                TokenType::Arrow
            } else {
                TokenType::Less
            };
            self.add_token(token);
        } else if c == '>' {
            let token = if self.char_match('=') {
                TokenType::GreaterEqual
            } else {
                TokenType::Greater
            };
            self.add_token(token);
        } else if c == '/' {
            if self.char_match('/') {
                // a comment runs to the end of the line
                proof {
                    lemma_comment_end(s, self.pos());
                }
                while self.peek() != '\n' && !self.is_at_end()
                    invariant
                        self.wf(),
                        self.text() == s,
                        s == old(self).text(),
                        self.token_start() == old(self).pos(),
                        self.line() == old(self).line(),
                        self.tokens_read() == old(self).tokens_read(),
                        comment_end(s, self.pos()) == comment_end(s, old(self).pos() + 2),
                    decreases s.len() - self.pos(),
                {
                    self.advance();
                }
                assert(comment_end(s, self.pos()) == self.pos());
            } else {
                self.add_token(TokenType::Slash);
            }
        } else if c == ' ' || c == '\r' || c == '\t' {
        } else if c == '\n' {
            if self.tokens.len() > 0 {
                let prev = self.tokens[self.tokens.len() - 1].token_type;
                assert(last_type(self.tokens_read()) == Some(prev));
                self.line = self.line + 1;
                if ends_statement_exec(prev) {
                    self.add_token(TokenType::SoftSemi);
                }
            }
        } else if c == '"' {
            return self.string();
        } else if is_digit_exec(c) {
            self.number();
        } else if is_alpha_exec(c) {
            self.identifier();
        } else {
            return Err(self.error(LexErrorKind::UnknownSymbol(c)));
        }
        Ok(())
    }

    /// The error of the given kind for the current token.
    fn error(&self, kind: LexErrorKind) -> (e: LexError)
        ensures
            e == error_at(kind, self.token_start(), self.pos(), self.line()),
    {
        LexError { kind, span: self.start..self.current, line: self.line }
    }

    /// Reads the rest of a string literal whose opening quote was just read.
    fn string(&mut self) -> (r: Result<(), LexError>)
        requires
            old(self).wf(),
            old(self).pos() == old(self).token_start() + 1,
            old(self).text()[old(self).token_start()] == '"',
        ensures
            final(self).wf(),
            final(self).text() == old(self).text(),
            final(self).token_start() == old(self).token_start(),
            ({
                let s = old(self).text();
                let pos = old(self).token_start();
                match scan_string(s, old(self).pos(), old(self).line(), seq![]) {
                    StringScan::Closed { end, line, text } => r is Ok && final(self).pos() == end
                        && final(self).line() == line && final(self).tokens_read() == old(self).tokens_read().push(
                        token_at(
                            s,
                            TokenType::StringLiteral,
                            pos,
                            end,
                            line,
                            Some(LiteralView::String(text)),
                        ),
                    ),
                    StringScan::BadEscape { at, line, found } => r == Err::<(), LexError>(
                        error_at(LexErrorKind::InvalidEscape(found), pos, at, line),
                    ) && final(self).pos() == at && final(self).line() == line && final(self).tokens_read() == old(self).tokens_read(),
                    StringScan::Unterminated { line } => r == Err::<(), LexError>(
                        error_at(LexErrorKind::UnterminatedString, pos, s.len() as int, line),
                    ) && final(self).pos() == s.len() && final(self).line() == line && final(self).tokens_read() == old(self).tokens_read(),
                }
            }),
    {
        let ghost s = self.text();
        let ghost goal = scan_string(s, self.pos(), self.line(), seq![]);
        let mut result = String::new();
        while self.peek() != '"' && !self.is_at_end()
            invariant
                self.wf(),
                self.text() == s,
                s == old(self).text(),
                goal == scan_string(s, old(self).pos(), old(self).line(), seq![]),
                self.token_start() == old(self).token_start(),
                self.tokens_read() == old(self).tokens_read(),
                scan_string(s, self.pos(), self.line(), result@) == goal,
            decreases s.len() - self.pos(),
        {
            let c = self.peek();
            let ghost before = result@;
            if c == '\\' {
                self.advance();
                let e = self.peek();
                if e == 'n' {
                    proof {
                        reveal_strlit("\n");
                    }
                    result.append("\n");
                    assert(result@ =~= before.push("\n"@[0]));
                    self.advance();
                } else if e == 'r' {
                    proof {
                        reveal_strlit("\r");
                    }
                    result.append("\r");
                    assert(result@ =~= before.push("\r"@[0]));
                    self.advance();
                } else if e == 't' {
                    proof {
                        reveal_strlit("\t");
                    }
                    result.append("\t");
                    assert(result@ =~= before.push("\t"@[0]));
                    self.advance();
                } else if e == '\\' {
                    proof {
                        reveal_strlit("\\");
                    }
                    result.append("\\");
                    assert(result@ =~= before.push("\\"@[0]));
                    self.advance();
                } else if e == '"' {
                    proof {
                        reveal_strlit("\"");
                    }
                    result.append("\"");
                    assert(result@ =~= before.push("\""@[0]));
                    self.advance();
                } else {
                    return Err(self.error(LexErrorKind::InvalidEscape(e)));
                }
            } else {
                let i = self.current;
                result.append(self.source.as_str().substring_ascii(i, i + 1));
                assert(result@ =~= before.push(s[i as int]));
                self.advance();
                if c == '\n' {
                    self.line = self.line + 1;
                }
            }
        }
        if self.is_at_end() {
            return Err(self.error(LexErrorKind::UnterminatedString));
        }
        self.advance();
        self.add_token_lit(TokenType::StringLiteral, Some(LiteralValue::String(result)));
        Ok(())
    }

    /// Reads the rest of a numeral whose first digit was just read.
    fn number(&mut self)
        requires
            old(self).wf(),
            old(self).pos() == old(self).token_start() + 1,
        ensures
            final(self).wf(),
            final(self).text() == old(self).text(),
            final(self).token_start() == old(self).token_start(),
            final(self).line() == old(self).line(),
            final(self).pos() == number_end(old(self).text(), old(self).pos()),
            final(self).tokens_read() == old(self).tokens_read().push(
                token_at(
                    old(self).text(),
                    TokenType::Number,
                    old(self).token_start(),
                    number_end(old(self).text(), old(self).pos()),
                    old(self).line(),
                    Some(
                        LiteralView::Number(
                            old(self).text().subrange(
                                old(self).token_start(),
                                number_end(old(self).text(), old(self).pos()),
                            ),
                        ),
                    ),
                ),
            ),
    {
        let ghost s = self.text();
        let ghost p = self.pos();
        proof {
            lemma_digits_end(s, p);
        }
        while self.peek_is_digit()
            invariant
                self.wf(),
                self.text() == s,
                s == old(self).text(),
                self.token_start() == old(self).token_start(),
                self.line() == old(self).line(),
                self.tokens_read() == old(self).tokens_read(),
                p <= self.pos() <= digits_end(s, p),
                digits_end(s, self.pos()) == digits_end(s, p),
            decreases s.len() - self.pos(),
        {
            proof {
                lemma_digits_end(s, self.pos() + 1);
            }
            self.advance();
        }
        if self.peek() == '.' && is_digit_exec(self.peek_advance()) {
            self.advance();
            let ghost q = self.pos();
            proof {
                lemma_digits_end(s, q);
            }
            while self.peek_is_digit()
                invariant
                    self.wf(),
                    self.text() == s,
                    s == old(self).text(),
                    self.token_start() == old(self).token_start(),
                    self.line() == old(self).line(),
                    self.tokens_read() == old(self).tokens_read(),
                    q <= self.pos() <= digits_end(s, q),
                    digits_end(s, self.pos()) == digits_end(s, q),
                decreases s.len() - self.pos(),
            {
                proof {
                    lemma_digits_end(s, self.pos() + 1);
                }
                self.advance();
            }
        }
        let text = String::from_str(
            self.source.as_str().substring_ascii(self.start, self.current),
        );
        self.add_token_lit(TokenType::Number, Some(LiteralValue::Number(text)));
    }

    /// Reads the rest of an identifier or keyword whose first letter was
    /// just read.
    fn identifier(&mut self)
        requires
            old(self).wf(),
            old(self).pos() == old(self).token_start() + 1,
        ensures
            final(self).wf(),
            final(self).text() == old(self).text(),
            final(self).token_start() == old(self).token_start(),
            final(self).line() == old(self).line(),
            final(self).pos() == ident_end(old(self).text(), old(self).pos()),
            final(self).tokens_read() == old(self).tokens_read().push(
                token_at(
                    old(self).text(),
                    match spec_keyword(
                        old(self).text().subrange(
                            old(self).token_start(),
                            ident_end(old(self).text(), old(self).pos()),
                        ),
                    ) {
                        Some(k) => k,
                        None => TokenType::Identifier,
                    },
                    old(self).token_start(),
                    ident_end(old(self).text(), old(self).pos()),
                    old(self).line(),
                    None,
                ),
            ),
    {
        let ghost s = self.text();
        let ghost p = self.pos();
        proof {
            lemma_ident_end(s, p);
        }
        while self.peek_is_ident_char()
            invariant
                self.wf(),
                self.text() == s,
                s == old(self).text(),
                self.token_start() == old(self).token_start(),
                self.line() == old(self).line(),
                self.tokens_read() == old(self).tokens_read(),
                p <= self.pos() <= ident_end(s, p),
                ident_end(s, self.pos()) == ident_end(s, p),
            decreases s.len() - self.pos(),
        {
            proof {
                lemma_ident_end(s, self.pos() + 1);
            }
            self.advance();
        }
        match keyword_type(&self.chars, self.start, self.current) {
            Some(keyword) => self.add_token(keyword),
            None => self.add_token(TokenType::Identifier),
        }
    }

    fn peek_is_digit(&self) -> (r: bool)
        requires
            self.wf(),
        ensures
            r == (self.pos() < self.text().len() && is_digit(self.text()[self.pos()])),
    {
        !self.is_at_end() && is_digit_exec(self.chars[self.current])
    }

    fn peek_is_ident_char(&self) -> (r: bool)
        requires
            self.wf(),
        ensures
            r == (self.pos() < self.text().len() && is_ident_char(self.text()[self.pos()])),
    {
        if self.is_at_end() {
            return false;
        }
        let c = self.chars[self.current];
        is_alpha_exec(c) || is_digit_exec(c) || c == '_'
    }

    /// The character after the next one, or `'\0'`.
    fn peek_advance(&self) -> (c: char)
        requires
            self.wf(),
        ensures
            c == char_at(self.text(), self.pos() + 1),
    {
        if self.current + 1 >= self.chars.len() {
            return '\0';
        }
        self.chars[self.current + 1]
    }

    /// The next character, or `'\0'` at the end.
    fn peek(&self) -> (c: char)
        requires
            self.wf(),
        ensures
            c == char_at(self.text(), self.pos()),
    {
        if self.is_at_end() {
            return '\0';
        }
        self.chars[self.current]
    }

    /// Reads the next character.
    fn advance(&mut self) -> (c: char)
        requires
            old(self).wf(),
            old(self).pos() < old(self).text().len(),
        ensures
            final(self).wf(),
            c == old(self).text()[old(self).pos()],
            final(self).pos() == old(self).pos() + 1,
            final(self).text() == old(self).text(),
            final(self).token_start() == old(self).token_start(),
            final(self).line() == old(self).line(),
            final(self).tokens_read() == old(self).tokens_read(),
            final(self).file() == old(self).file(),
    {
        let c = self.chars[self.current];
        self.current = self.current + 1;
        c
    }

    fn add_token(&mut self, token_type: TokenType)
        requires
            old(self).wf(),
        ensures
            final(self).wf(),
            final(self).text() == old(self).text(),
            final(self).pos() == old(self).pos(),
            final(self).token_start() == old(self).token_start(),
            final(self).line() == old(self).line(),
            final(self).tokens_read() == old(self).tokens_read().push(
                token_at(
                    old(self).text(),
                    token_type,
                    old(self).token_start(),
                    old(self).pos(),
                    old(self).line(),
                    None,
                ),
            ),
    {
        self.add_token_lit(token_type, None)
    }

    /// Records the token spanning `start..current`.
    fn add_token_lit(&mut self, token_type: TokenType, literal: Option<LiteralValue>)
        requires
            old(self).wf(),
        ensures
            final(self).wf(),
            final(self).text() == old(self).text(),
            final(self).pos() == old(self).pos(),
            final(self).token_start() == old(self).token_start(),
            final(self).line() == old(self).line(),
            final(self).tokens_read() == old(self).tokens_read().push(
                token_at(
                    old(self).text(),
                    token_type,
                    old(self).token_start(),
                    old(self).pos(),
                    old(self).line(),
                    literal_view(literal),
                ),
            ),
    {
        let text = String::from_str(
            self.source.as_str().substring_ascii(self.start, self.current),
        );
        let token = Token {
            token_type,
            lexeme: text,
            literal,
            line_number: self.line,
            span: self.start..self.current,
        };
        self.tokens.push(token);
        proof {
            assert(token_views(self.tokens@) =~= token_views(old(self).tokens@).push(token@));
        }
    }

    /// Reads the next character if it is `ch`.
    fn char_match(&mut self, ch: char) -> (r: bool)
        requires
            old(self).wf(),
        ensures
            final(self).wf(),
            r == (char_at(old(self).text(), old(self).pos()) == ch && old(self).pos() < old(self).text().len()),
            final(self).pos() == old(self).pos() + if r {
                1int
            } else {
                0int
            },
            final(self).text() == old(self).text(),
            final(self).token_start() == old(self).token_start(),
            final(self).line() == old(self).line(),
            final(self).tokens_read() == old(self).tokens_read(),
    {
        if self.is_at_end() {
            return false;
        }
        if self.chars[self.current] != ch {
            false
        } else {
            self.current = self.current + 1;
            true
        }
    }

    /// The range of the token being read.
    pub fn current_span(&self) -> (r: Range<usize>)
        ensures
            r.start == self.token_start(),
            r.end == self.pos(),
    {
        self.start..self.current
    }

    /// The name of the file being read.
    pub fn file_name(&self) -> (r: &String)
        ensures
            r@ == self.file(),
    {
        &self.file_name
    }
}

fn is_digit_exec(c: char) -> (r: bool)
    ensures
        r == is_digit(c),
{
    '0' <= c && c <= '9'
}

fn is_alpha_exec(c: char) -> (r: bool)
    ensures
        r == is_alpha(c),
{
    ('a' <= c && c <= 'z') || ('A' <= c && c <= 'Z')
}

fn ends_statement_exec(t: TokenType) -> (r: bool)
    ensures
        r == ends_statement(t),
{
    match t {
        TokenType::Identifier | TokenType::Number | TokenType::StringLiteral | TokenType::Break
        | TokenType::Continue | TokenType::Return | TokenType::RightParen
        | TokenType::RightBracket | TokenType::RightBrace => true,
        _ => false,
    }
}

} // verus!
