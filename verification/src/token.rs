//! Tokens produced by the lexer and consumed by the parser.
use std::ops::Range;
use vstd::prelude::*;

verus! {

/// Every kind of token in the language.
#[derive(Clone, Copy, Debug, PartialEq, Eq, Structural)]
pub enum TokenType {
    // Smart
    SoftSemi,
    // Single-char tokens
    LeftParen,
    RightParen,
    LeftBracket,
    RightBracket,
    LeftBrace,
    RightBrace,
    Comma,
    Dot,
    Minus,
    Plus,
    Slash,
    Star,
    // Mixed
    Arrow,
    EqualEqual,
    BangEqual,
    Greater,
    GreaterEqual,
    Less,
    LessEqual,
    // Literals
    Identifier,
    Number,
    StringLiteral,
    // Keywords
    Mod,
    If,
    Else,
    Repeat,
    Times,
    Until,
    For,
    Each,
    Continue,
    Break,
    In,
    Procedure,
    Return,
    Print,
    Not,
    And,
    Or,
    True,
    False,
    Null,
    Import,
    Export,
    From,
    Eof,
}

/// The value carried by a literal token.
///
/// A number keeps the text of its numeral (digits, optionally a `.` and more
/// digits); converting it to a machine number is left to the evaluator.
#[derive(Debug)]
pub enum LiteralValue {
    Number(String),
    String(String),
}

/// The mathematical content of a [`LiteralValue`].
pub enum LiteralView {
    Number(Seq<char>),
    String(Seq<char>),
}

impl View for LiteralValue {
    type V = LiteralView;

    open spec fn view(&self) -> LiteralView {
        match self {
            LiteralValue::Number(s) => LiteralView::Number(s@),
            LiteralValue::String(s) => LiteralView::String(s@),
        }
    }
}

/// The view of an optional literal.
pub open spec fn literal_view(l: Option<LiteralValue>) -> Option<LiteralView> {
    match l {
        Some(v) => Some(v@),
        None => None,
    }
}

/// A token: its kind, the source text it was read from, its literal value,
/// the half-open range of source positions it covers and its line.
#[derive(Debug)]
pub struct Token {
    pub token_type: TokenType,
    pub lexeme: String,
    pub literal: Option<LiteralValue>,
    pub span: Range<usize>,
    pub line_number: usize,
}

/// The mathematical content of a [`Token`].
pub struct TokenView {
    pub token_type: TokenType,
    pub lexeme: Seq<char>,
    pub literal: Option<LiteralView>,
    pub span_start: usize,
    pub span_end: usize,
    pub line_number: usize,
}

impl View for Token {
    type V = TokenView;

    open spec fn view(&self) -> TokenView {
        TokenView {
            token_type: self.token_type,
            lexeme: self.lexeme@,
            literal: literal_view(self.literal),
            span_start: self.span.start,
            span_end: self.span.end,
            line_number: self.line_number,
        }
    }
}

/// The views of a sequence of tokens.
pub open spec fn token_views(ts: Seq<Token>) -> Seq<TokenView> {
    ts.map_values(|t: Token| t@)
}

/// The kinds of a sequence of tokens.
pub open spec fn token_types(ts: Seq<TokenView>) -> Seq<TokenType> {
    ts.map_values(|t: TokenView| t.token_type)
}

impl Clone for LiteralValue {
    fn clone(&self) -> (r: Self)
        ensures
            r@ == self@,
    {
        match self {
            LiteralValue::Number(s) => LiteralValue::Number(s.clone()),
            LiteralValue::String(s) => LiteralValue::String(s.clone()),
        }
    }
}

impl Clone for Token {
    fn clone(&self) -> (r: Self)
        ensures
            r@ == self@,
    {
        let literal = match &self.literal {
            Some(l) => Some(l.clone()),
            None => None,
        };
        Token {
            token_type: self.token_type,
            lexeme: self.lexeme.clone(),
            literal,
            span: self.span.start..self.span.end,
            line_number: self.line_number,
        }
    }
}

/// Binary operators of the language.
#[derive(Clone, Copy, Debug, PartialEq, Eq, Structural)]
pub enum BinaryOp {
    EqualEqual,
    NotEqual,
    Less,
    LessEqual,
    Greater,
    GreaterEqual,
    Plus,
    Minus,
    Star,
    Slash,
    Modulo,
}

/// Unary operators of the language.
#[derive(Clone, Copy, Debug, PartialEq, Eq, Structural)]
pub enum UnaryOp {
    Minus,
    Not,
}

/// Short-circuiting logical operators of the language.
#[derive(Clone, Copy, Debug, PartialEq, Eq, Structural)]
pub enum LogicalOp {
    Or,
    And,
}

/// Why a token could not be read as an operator.
#[derive(Clone, Copy, Debug, PartialEq, Eq, Structural)]
pub enum OperatorError {
    NotBinary,
    NotUnary,
    NotLogical,
}

/// The binary operator that a token kind denotes, if any.
pub open spec fn spec_binary_op(t: TokenType) -> Option<BinaryOp> {
    match t {
        TokenType::EqualEqual => Some(BinaryOp::EqualEqual),
        TokenType::BangEqual => Some(BinaryOp::NotEqual),
        TokenType::Less => Some(BinaryOp::Less),
        TokenType::LessEqual => Some(BinaryOp::LessEqual),
        TokenType::Greater => Some(BinaryOp::Greater),
        TokenType::GreaterEqual => Some(BinaryOp::GreaterEqual),
        TokenType::Plus => Some(BinaryOp::Plus),
        TokenType::Minus => Some(BinaryOp::Minus),
        TokenType::Star => Some(BinaryOp::Star),
        TokenType::Slash => Some(BinaryOp::Slash),
        TokenType::Mod => Some(BinaryOp::Modulo),
        _ => None,
    }
}

/// The unary operator that a token kind denotes, if any.
pub open spec fn spec_unary_op(t: TokenType) -> Option<UnaryOp> {
    match t {
        TokenType::Minus => Some(UnaryOp::Minus),
        TokenType::Not => Some(UnaryOp::Not),
        _ => None,
    }
}

/// The logical operator that a token kind denotes, if any.
pub open spec fn spec_logical_op(t: TokenType) -> Option<LogicalOp> {
    match t {
        TokenType::Or => Some(LogicalOp::Or),
        TokenType::And => Some(LogicalOp::And),
        _ => None,
    }
}

/// A copy of a sequence of tokens.
pub fn clone_tokens(ts: &Vec<Token>) -> (r: Vec<Token>)
    ensures
        token_views(r@) == token_views(ts@),
{
    let mut out: Vec<Token> = Vec::new();
    let mut i: usize = 0;
    while i < ts.len()
        invariant
            i <= ts@.len(),
            out@.len() == i,
            forall|j: int| 0 <= j < i ==> (#[trigger] out@[j])@ == ts@[j]@,
        decreases ts@.len() - i,
    {
        let t = ts[i].clone();
        out.push(t);
        i += 1;
    }
    assert(token_views(out@) =~= token_views(ts@));
    out
}

/// The binary operator of a token kind (exec form of [`spec_binary_op`]).
pub fn binary_op_of(t: TokenType) -> (r: Option<BinaryOp>)
    ensures
        r == spec_binary_op(t),
{
    match t {
        TokenType::EqualEqual => Some(BinaryOp::EqualEqual),
        TokenType::BangEqual => Some(BinaryOp::NotEqual),
        TokenType::Less => Some(BinaryOp::Less),
        TokenType::LessEqual => Some(BinaryOp::LessEqual),
        TokenType::Greater => Some(BinaryOp::Greater),
        TokenType::GreaterEqual => Some(BinaryOp::GreaterEqual),
        TokenType::Plus => Some(BinaryOp::Plus),
        TokenType::Minus => Some(BinaryOp::Minus),
        TokenType::Star => Some(BinaryOp::Star),
        TokenType::Slash => Some(BinaryOp::Slash),
        TokenType::Mod => Some(BinaryOp::Modulo),
        _ => None,
    }
}

impl Token {
    /// The kind of this token.
    pub fn token_type(&self) -> (r: &TokenType)
        ensures
            *r == self.token_type,
    {
        &self.token_type
    }

    /// The source range this token covers.
    pub fn span(&self) -> (r: &Range<usize>)
        ensures
            *r == self.span,
    {
        &self.span
    }

    /// The range from the start of this token to the end of `other`.
    pub fn span_to(&self, other: &Range<usize>) -> (r: Range<usize>)
        ensures
            r.start == self.span.start,
            r.end == other.end,
    {
        join_spans(self.span(), other)
    }

    /// Whether this is an implicit or explicit statement terminator.
    pub fn is_soft_semi(&self) -> (r: bool)
        ensures
            r == (self.token_type == TokenType::SoftSemi),
    {
        self.token_type == TokenType::SoftSemi
    }

    /// The binary operator this token denotes.
    pub fn to_binary_op(&self) -> (r: Result<BinaryOp, OperatorError>)
        ensures
            match spec_binary_op(self.token_type) {
                Some(op) => r == Ok::<BinaryOp, OperatorError>(op),
                None => r == Err::<BinaryOp, OperatorError>(OperatorError::NotBinary),
            },
    {
        match binary_op_of(self.token_type) {
            Some(op) => Ok(op),
            None => Err(OperatorError::NotBinary),
        }
    }

    /// The unary operator this token denotes.
    pub fn to_unary_op(&self) -> (r: Result<UnaryOp, OperatorError>)
        ensures
            match spec_unary_op(self.token_type) {
                Some(op) => r == Ok::<UnaryOp, OperatorError>(op),
                None => r == Err::<UnaryOp, OperatorError>(OperatorError::NotUnary),
            },
    {
        match self.token_type {
            TokenType::Minus => Ok(UnaryOp::Minus),
            TokenType::Not => Ok(UnaryOp::Not),
            _ => Err(OperatorError::NotUnary),
        }
    }

    /// The logical operator this token denotes.
    pub fn to_logical_op(&self) -> (r: Result<LogicalOp, OperatorError>)
        ensures
            match spec_logical_op(self.token_type) {
                Some(op) => r == Ok::<LogicalOp, OperatorError>(op),
                None => r == Err::<LogicalOp, OperatorError>(OperatorError::NotLogical),
            },
    {
        match self.token_type {
            TokenType::Or => Ok(LogicalOp::Or),
            TokenType::And => Ok(LogicalOp::And),
            _ => Err(OperatorError::NotLogical),
        }
    }
}

/// The range that starts where `left` starts and ends where `right` ends.
pub fn join_spans(left: &Range<usize>, right: &Range<usize>) -> (r: Range<usize>)
    ensures
        r.start == left.start,
        r.end == right.end,
{
    left.start..right.end
}

/// The keyword kind of a word, if the word is a keyword.
///
/// A keyword is written either wholly in lower case or wholly in upper case.
pub open spec fn spec_keyword(w: Seq<char>) -> Option<TokenType> {
    if w == seq!['m', 'o', 'd'] || w == seq!['M', 'O', 'D'] {
        Some(TokenType::Mod)
    } else if w == seq!['i', 'f'] || w == seq!['I', 'F'] {
        Some(TokenType::If)
    } else if w == seq!['e', 'l', 's', 'e'] || w == seq!['E', 'L', 'S', 'E'] {
        Some(TokenType::Else)
    } else if w == seq!['r', 'e', 'p', 'e', 'a', 't'] || w == seq!['R', 'E', 'P', 'E', 'A', 'T'] {
        Some(TokenType::Repeat)
    } else if w == seq!['t', 'i', 'm', 'e', 's'] || w == seq!['T', 'I', 'M', 'E', 'S'] {
        Some(TokenType::Times)
    } else if w == seq!['u', 'n', 't', 'i', 'l'] || w == seq!['U', 'N', 'T', 'I', 'L'] {
        Some(TokenType::Until)
    } else if w == seq!['f', 'o', 'r'] || w == seq!['F', 'O', 'R'] {
        Some(TokenType::For)
    } else if w == seq!['e', 'a', 'c', 'h'] || w == seq!['E', 'A', 'C', 'H'] {
        Some(TokenType::Each)
    } else if w == seq!['c', 'o', 'n', 't', 'i', 'n', 'u', 'e'] || w == seq![
        'C',
        'O',
        'N',
        'T',
        'I',
        'N',
        'U',
        'E',
    ] {
        Some(TokenType::Continue)
    } else if w == seq!['b', 'r', 'e', 'a', 'k'] || w == seq!['B', 'R', 'E', 'A', 'K'] {
        Some(TokenType::Break)
    } else if w == seq!['i', 'n'] || w == seq!['I', 'N'] {
        Some(TokenType::In)
    } else if w == seq!['p', 'r', 'o', 'c', 'e', 'd', 'u', 'r', 'e'] || w == seq![
        'P',
        'R',
        'O',
        'C',
        'E',
        'D',
        'U',
        'R',
        'E',
    ] {
        Some(TokenType::Procedure)
    } else if w == seq!['r', 'e', 't', 'u', 'r', 'n'] || w == seq!['R', 'E', 'T', 'U', 'R', 'N'] {
        Some(TokenType::Return)
    } else if w == seq!['p', 'r', 'i', 'n', 't'] || w == seq!['P', 'R', 'I', 'N', 'T'] {
        Some(TokenType::Print)
    } else if w == seq!['n', 'o', 't'] || w == seq!['N', 'O', 'T'] {
        Some(TokenType::Not)
    } else if w == seq!['a', 'n', 'd'] || w == seq!['A', 'N', 'D'] {
        Some(TokenType::And)
    } else if w == seq!['o', 'r'] || w == seq!['O', 'R'] {
        Some(TokenType::Or)
    } else if w == seq!['t', 'r', 'u', 'e'] || w == seq!['T', 'R', 'U', 'E'] {
        Some(TokenType::True)
    } else if w == seq!['f', 'a', 'l', 's', 'e'] || w == seq!['F', 'A', 'L', 'S', 'E'] {
        Some(TokenType::False)
    } else if w == seq!['n', 'u', 'l', 'l'] || w == seq!['N', 'U', 'L', 'L'] {
        Some(TokenType::Null)
    } else if w == seq!['i', 'm', 'p', 'o', 'r', 't'] || w == seq!['I', 'M', 'P', 'O', 'R', 'T'] {
        Some(TokenType::Import)
    } else if w == seq!['e', 'x', 'p', 'o', 'r', 't'] || w == seq!['E', 'X', 'P', 'O', 'R', 'T'] {
        Some(TokenType::Export)
    } else if w == seq!['f', 'r', 'o', 'm'] || w == seq!['F', 'R', 'O', 'M'] {
        Some(TokenType::From)
    } else {
        None
    }
}

/// Whether `s[start..end]` spells exactly the characters of `word`.
fn spells(s: &Vec<char>, start: usize, end: usize, word: &[char]) -> (b: bool)
    requires
        start <= end <= s@.len(),
    ensures
        b == (s@.subrange(start as int, end as int) == word@),
{
    if end - start != word.len() {
        return false;
    }
    let mut i: usize = 0;
    while i < word.len()
        invariant
            end - start == word@.len(),
            start <= end <= s@.len(),
            i <= word@.len(),
            forall|j: int| 0 <= j < i ==> s@[start + j] == word@[j],
        decreases word.len() - i,
    {
        if s[start + i] != word[i] {
            return false;
        }
        i += 1;
    }
    assert(s@.subrange(start as int, end as int) =~= word@);
    true
}

/// Whether `s[start..end]` is `lower` or `upper`.
fn spells_either(s: &Vec<char>, start: usize, end: usize, lower: &[char], upper: &[char]) -> (b:
    bool)
    requires
        start <= end <= s@.len(),
    ensures
        b == (s@.subrange(start as int, end as int) == lower@ || s@.subrange(
            start as int,
            end as int,
        ) == upper@),
{
    spells(s, start, end, lower) || spells(s, start, end, upper)
}

/// The keyword kind of the word `s[start..end]`, if it is a keyword.
pub fn keyword_type(s: &Vec<char>, start: usize, end: usize) -> (r: Option<TokenType>)
    requires
        start <= end <= s@.len(),
    ensures
        r == spec_keyword(s@.subrange(start as int, end as int)),
{
    let ghost w = s@.subrange(start as int, end as int);
    proof {
        assert(['m', 'o', 'd']@ =~= seq!['m', 'o', 'd']);
        assert(['M', 'O', 'D']@ =~= seq!['M', 'O', 'D']);
        assert(['i', 'f']@ =~= seq!['i', 'f']);
        assert(['I', 'F']@ =~= seq!['I', 'F']);
        assert(['e', 'l', 's', 'e']@ =~= seq!['e', 'l', 's', 'e']);
        assert(['E', 'L', 'S', 'E']@ =~= seq!['E', 'L', 'S', 'E']);
        assert(['r', 'e', 'p', 'e', 'a', 't']@ =~= seq!['r', 'e', 'p', 'e', 'a', 't']);
        assert(['R', 'E', 'P', 'E', 'A', 'T']@ =~= seq!['R', 'E', 'P', 'E', 'A', 'T']);
        assert(['t', 'i', 'm', 'e', 's']@ =~= seq!['t', 'i', 'm', 'e', 's']);
        assert(['T', 'I', 'M', 'E', 'S']@ =~= seq!['T', 'I', 'M', 'E', 'S']);
        assert(['u', 'n', 't', 'i', 'l']@ =~= seq!['u', 'n', 't', 'i', 'l']);
        assert(['U', 'N', 'T', 'I', 'L']@ =~= seq!['U', 'N', 'T', 'I', 'L']);
        assert(['f', 'o', 'r']@ =~= seq!['f', 'o', 'r']);
        assert(['F', 'O', 'R']@ =~= seq!['F', 'O', 'R']);
        assert(['e', 'a', 'c', 'h']@ =~= seq!['e', 'a', 'c', 'h']);
        assert(['E', 'A', 'C', 'H']@ =~= seq!['E', 'A', 'C', 'H']);
        assert(['c', 'o', 'n', 't', 'i', 'n', 'u', 'e']@ =~= seq![
            'c',
            'o',
            'n',
            't',
            'i',
            'n',
            'u',
            'e',
        ]);
        assert(['C', 'O', 'N', 'T', 'I', 'N', 'U', 'E']@ =~= seq![
            'C',
            'O',
            'N',
            'T',
            'I',
            'N',
            'U',
            'E',
        ]);
        assert(['b', 'r', 'e', 'a', 'k']@ =~= seq!['b', 'r', 'e', 'a', 'k']);
        assert(['B', 'R', 'E', 'A', 'K']@ =~= seq!['B', 'R', 'E', 'A', 'K']);
        assert(['i', 'n']@ =~= seq!['i', 'n']);
        assert(['I', 'N']@ =~= seq!['I', 'N']);
        assert(['p', 'r', 'o', 'c', 'e', 'd', 'u', 'r', 'e']@ =~= seq![
            'p',
            'r',
            'o',
            'c',
            'e',
            'd',
            'u',
            'r',
            'e',
        ]);
        assert(['P', 'R', 'O', 'C', 'E', 'D', 'U', 'R', 'E']@ =~= seq![
            'P',
            'R',
            'O',
            'C',
            'E',
            'D',
            'U',
            'R',
            'E',
        ]);
        assert(['r', 'e', 't', 'u', 'r', 'n']@ =~= seq!['r', 'e', 't', 'u', 'r', 'n']);
        assert(['R', 'E', 'T', 'U', 'R', 'N']@ =~= seq!['R', 'E', 'T', 'U', 'R', 'N']);
        assert(['p', 'r', 'i', 'n', 't']@ =~= seq!['p', 'r', 'i', 'n', 't']);
        assert(['P', 'R', 'I', 'N', 'T']@ =~= seq!['P', 'R', 'I', 'N', 'T']);
        assert(['n', 'o', 't']@ =~= seq!['n', 'o', 't']);
        assert(['N', 'O', 'T']@ =~= seq!['N', 'O', 'T']);
        assert(['a', 'n', 'd']@ =~= seq!['a', 'n', 'd']);
        assert(['A', 'N', 'D']@ =~= seq!['A', 'N', 'D']);
        assert(['o', 'r']@ =~= seq!['o', 'r']);
        assert(['O', 'R']@ =~= seq!['O', 'R']);
        assert(['t', 'r', 'u', 'e']@ =~= seq!['t', 'r', 'u', 'e']);
        assert(['T', 'R', 'U', 'E']@ =~= seq!['T', 'R', 'U', 'E']);
        assert(['f', 'a', 'l', 's', 'e']@ =~= seq!['f', 'a', 'l', 's', 'e']);
        assert(['F', 'A', 'L', 'S', 'E']@ =~= seq!['F', 'A', 'L', 'S', 'E']);
        assert(['n', 'u', 'l', 'l']@ =~= seq!['n', 'u', 'l', 'l']);
        assert(['N', 'U', 'L', 'L']@ =~= seq!['N', 'U', 'L', 'L']);
        assert(['i', 'm', 'p', 'o', 'r', 't']@ =~= seq!['i', 'm', 'p', 'o', 'r', 't']);
        assert(['I', 'M', 'P', 'O', 'R', 'T']@ =~= seq!['I', 'M', 'P', 'O', 'R', 'T']);
        assert(['e', 'x', 'p', 'o', 'r', 't']@ =~= seq!['e', 'x', 'p', 'o', 'r', 't']);
        assert(['E', 'X', 'P', 'O', 'R', 'T']@ =~= seq!['E', 'X', 'P', 'O', 'R', 'T']);
        assert(['f', 'r', 'o', 'm']@ =~= seq!['f', 'r', 'o', 'm']);
        assert(['F', 'R', 'O', 'M']@ =~= seq!['F', 'R', 'O', 'M']);
    }
    if spells_either(s, start, end, &['m', 'o', 'd'], &['M', 'O', 'D']) {
        Some(TokenType::Mod)
    } else if spells_either(s, start, end, &['i', 'f'], &['I', 'F']) {
        Some(TokenType::If)
    } else if spells_either(s, start, end, &['e', 'l', 's', 'e'], &['E', 'L', 'S', 'E']) {
        Some(TokenType::Else)
    } else if spells_either(
        s,
        start,
        end,
        &['r', 'e', 'p', 'e', 'a', 't'],
        &['R', 'E', 'P', 'E', 'A', 'T'],
    ) {
        Some(TokenType::Repeat)
    } else if spells_either(s, start, end, &['t', 'i', 'm', 'e', 's'], &['T', 'I', 'M', 'E', 'S']) {
        Some(TokenType::Times)
    } else if spells_either(s, start, end, &['u', 'n', 't', 'i', 'l'], &['U', 'N', 'T', 'I', 'L']) {
        Some(TokenType::Until)
    } else if spells_either(s, start, end, &['f', 'o', 'r'], &['F', 'O', 'R']) {
        Some(TokenType::For)
    } else if spells_either(s, start, end, &['e', 'a', 'c', 'h'], &['E', 'A', 'C', 'H']) {
        Some(TokenType::Each)
    } else if spells_either(
        s,
        start,
        end,
        &['c', 'o', 'n', 't', 'i', 'n', 'u', 'e'],
        &['C', 'O', 'N', 'T', 'I', 'N', 'U', 'E'],
    ) {
        Some(TokenType::Continue)
    } else if spells_either(s, start, end, &['b', 'r', 'e', 'a', 'k'], &['B', 'R', 'E', 'A', 'K']) {
        Some(TokenType::Break)
    } else if spells_either(s, start, end, &['i', 'n'], &['I', 'N']) {
        Some(TokenType::In)
    } else if spells_either(
        s,
        start,
        end,
        &['p', 'r', 'o', 'c', 'e', 'd', 'u', 'r', 'e'],
        &['P', 'R', 'O', 'C', 'E', 'D', 'U', 'R', 'E'],
    ) {
        Some(TokenType::Procedure)
    } else if spells_either(
        s,
        start,
        end,
        &['r', 'e', 't', 'u', 'r', 'n'],
        &['R', 'E', 'T', 'U', 'R', 'N'],
    ) {
        Some(TokenType::Return)
    } else if spells_either(s, start, end, &['p', 'r', 'i', 'n', 't'], &['P', 'R', 'I', 'N', 'T']) {
        Some(TokenType::Print)
    } else if spells_either(s, start, end, &['n', 'o', 't'], &['N', 'O', 'T']) {
        Some(TokenType::Not)
    } else if spells_either(s, start, end, &['a', 'n', 'd'], &['A', 'N', 'D']) {
        Some(TokenType::And)
    } else if spells_either(s, start, end, &['o', 'r'], &['O', 'R']) {
        Some(TokenType::Or)
    } else if spells_either(s, start, end, &['t', 'r', 'u', 'e'], &['T', 'R', 'U', 'E']) {
        Some(TokenType::True)
    } else if spells_either(s, start, end, &['f', 'a', 'l', 's', 'e'], &['F', 'A', 'L', 'S', 'E']) {
        Some(TokenType::False)
    } else if spells_either(s, start, end, &['n', 'u', 'l', 'l'], &['N', 'U', 'L', 'L']) {
        Some(TokenType::Null)
    } else if spells_either(
        s,
        start,
        end,
        &['i', 'm', 'p', 'o', 'r', 't'],
        &['I', 'M', 'P', 'O', 'R', 'T'],
    ) {
        Some(TokenType::Import)
    } else if spells_either(
        s,
        start,
        end,
        &['e', 'x', 'p', 'o', 'r', 't'],
        &['E', 'X', 'P', 'O', 'R', 'T'],
    ) {
        Some(TokenType::Export)
    } else if spells_either(s, start, end, &['f', 'r', 'o', 'm'], &['F', 'R', 'O', 'M']) {
        Some(TokenType::From)
    } else {
        None
    }
}

// ---------------------------------------------------------------------------
// What the operators are written as
// ---------------------------------------------------------------------------
/// The token an operator is written with: `=` for equality, `!=`, `<`,
/// `<=`, `>`, `>=`, `+`, `-`, `*`, `/` and `MOD`.
pub open spec fn binary_op_token(op: BinaryOp) -> TokenType {
    match op {
        BinaryOp::EqualEqual => TokenType::EqualEqual,
        BinaryOp::NotEqual => TokenType::BangEqual,
        BinaryOp::Less => TokenType::Less,
        BinaryOp::LessEqual => TokenType::LessEqual,
        BinaryOp::Greater => TokenType::Greater,
        BinaryOp::GreaterEqual => TokenType::GreaterEqual,
        BinaryOp::Plus => TokenType::Plus,
        BinaryOp::Minus => TokenType::Minus,
        BinaryOp::Star => TokenType::Star,
        BinaryOp::Slash => TokenType::Slash,
        BinaryOp::Modulo => TokenType::Mod,
    }
}

/// The token a unary operator is written with: `-` or `NOT`.
pub open spec fn unary_op_token(op: UnaryOp) -> TokenType {
    match op {
        UnaryOp::Minus => TokenType::Minus,
        UnaryOp::Not => TokenType::Not,
    }
}

/// The token a logical operator is written with: `OR` or `AND`.
pub open spec fn logical_op_token(op: LogicalOp) -> TokenType {
    match op {
        LogicalOp::Or => TokenType::Or,
        LogicalOp::And => TokenType::And,
    }
}

/// A token denotes an operator exactly when it is the token that operator
/// is written with: `<` reads as less-than and nothing else does, `>` as
/// greater-than, and so on for every binary, unary and logical operator.
pub proof fn lemma_operators_denote_their_tokens(
    t: TokenType,
    b: BinaryOp,
    u: UnaryOp,
    l: LogicalOp,
)
    ensures
        spec_binary_op(t) == Some(b) <==> t == binary_op_token(b),
        spec_unary_op(t) == Some(u) <==> t == unary_op_token(u),
        spec_logical_op(t) == Some(l) <==> t == logical_op_token(l),
{
}

} // verus!
