//! The stages a program goes through: read, split into tokens, parsed into a
//! tree, run. Each stage is a type, so that a program can only be parsed once
//! it has been lexed, and so on.
use crate::ast::{stmts_view, Ast};
use crate::lexer::{lemma_lex_tokens, lex, LexError, Lexer};
use crate::parser::Parser;
use crate::parser_spec::{can_begin_program, parse_tokens, ParseError};
use crate::token::{token_types, token_views, Token, TokenType, TokenView};
use vstd::prelude::*;
use vstd::utf8::is_ascii_chars;

verus! {

/// A program that has been read.
pub struct Initialized;

/// A program that has been split into tokens.
pub struct Lexed;

/// A program that has been parsed.
pub struct Parsed;

/// A program that has been run.
pub struct Executed;

/// A program that has been run, keeping what each statement printed as its
/// value.
pub struct ExecutedWithDebug;

/// A program at stage `State`: its source, where it was read from, and what
/// the stages so far have made of it.
pub struct ApLang<State> {
    source_code: String,
    file_path: Option<String>,
    tokens: Option<Vec<Token>>,
    ast: Option<Ast>,
    values: Option<Vec<String>>,
    state: State,
}

/// The text the lexer stage shows of its tokens: each token's lexeme and a
/// space, with ` ;` before each statement end.
pub open spec fn tokens_text(ts: Seq<TokenView>) -> Seq<char>
    decreases ts.len(),
{
    if ts.len() == 0 {
        seq![]
    } else {
        let t = ts.last();
        tokens_text(ts.drop_last()) + (if t.token_type == TokenType::SoftSemi {
            " ;"@
        } else {
            seq![]
        }) + t.lexeme + " "@
    }
}

/// The text the debugging run shows: one line per statement value.
pub open spec fn values_text(vs: Seq<Seq<char>>) -> Seq<char>
    decreases vs.len(),
{
    if vs.len() == 0 {
        seq![]
    } else {
        values_text(vs.drop_last()) + "EXPR OUTPUT: "@ + vs.last() + "\n"@
    }
}

/// The views of a sequence of strings.
pub open spec fn strings_view(vs: Seq<String>) -> Seq<Seq<char>> {
    Seq::new(vs.len(), |k: int| vs[k]@)
}

impl<State> ApLang<State> {
    /// The source text.
    pub closed spec fn source(&self) -> Seq<char> {
        self.source_code@
    }

    /// Where the source was read from, if from a file.
    pub closed spec fn path(&self) -> Option<Seq<char>> {
        match self.file_path {
            Some(p) => Some(p@),
            None => None,
        }
    }

    /// The tokens of the source, once lexed.
    pub closed spec fn token_list(&self) -> Seq<TokenView> {
        match self.tokens {
            Some(t) => token_views(t@),
            None => seq![],
        }
    }

    /// The tree of the program, once parsed.
    pub closed spec fn tree(&self) -> Option<Ast> {
        self.ast
    }

    /// What each statement gave, once run for debugging.
    pub closed spec fn value_list(&self) -> Seq<Seq<char>> {
        match self.values {
            Some(v) => strings_view(v@),
            None => seq![],
        }
    }

    /// Whether the tokens are there and end with the end-of-file token.
    pub closed spec fn lexed(&self) -> bool {
        &&& self.tokens is Some
        &&& self.token_list().len() > 0
        &&& self.token_list().last().token_type == TokenType::Eof
    }

    /// Where the source was read from, if from a file.
    pub fn file_path(&self) -> (r: Option<&String>)
        ensures
            match r {
                Some(p) => self.path() == Some(p@),
                None => self.path() is None,
            },
    {
        self.file_path.as_ref()
    }

    /// The source text.
    pub fn get_source_code(&self) -> (r: String)
        ensures
            r@ == self.source(),
    {
        self.source_code.clone()
    }
}

impl ApLang<Initialized> {
    /// A program given directly as text.
    pub fn new_from_stdin(source_code: String) -> (r: ApLang<Initialized>)
        ensures
            r.source() == source_code@,
            r.path() is None,
    {
        ApLang {
            source_code,
            file_path: None,
            tokens: None,
            ast: None,
            values: None,
            state: Initialized,
        }
    }

    /// A program with its text and, if it came from a file, the file's path.
    pub fn new(source_code: String, file_path: Option<String>) -> (r: ApLang<Initialized>)
        ensures
            r.source() == source_code@,
            r.path() == (match file_path {
                Some(p) => Some(p@),
                None => None::<Seq<char>>,
            }),
    {
        ApLang { source_code, file_path, tokens: None, ast: None, values: None, state: Initialized }
    }

    /// Splits the source into tokens. Succeeds with the tokens of
    /// [`lex`] exactly when it finds no lexical error, and otherwise returns
    /// every error found. The source must be ASCII; it may come from a file or
    /// be given directly.
    pub fn lex(self) -> (r: Result<ApLang<Lexed>, Vec<LexError>>)
        requires
            is_ascii_chars(self.source()),
            self.source().len() < usize::MAX,
        ensures
            match r {
                Ok(a) => {
                    &&& lex(self.source()).errors.len() == 0
                    &&& a.token_list() == lex(self.source()).tokens
                    &&& a.lexed()
                    &&& a.source() == self.source()
                    &&& a.path() == self.path()
                },
                Err(errs) => lex(self.source()).errors.len() > 0 && errs@ == lex(
                    self.source(),
                ).errors,
            },
    {
        let file_name = match &self.file_path {
            Some(p) => p.clone(),
            None => String::new(),
        };
        let tokens = Lexer::scan(self.source_code.as_str(), file_name)?;
        proof {
            lemma_lex_tokens(self.source());
        }
        Ok(
            ApLang {
                source_code: self.source_code,
                file_path: self.file_path,
                tokens: Some(tokens),
                ast: None,
                values: None,
                state: Lexed,
            },
        )
    }
}

impl ApLang<Lexed> {
    /// Parses the tokens. Succeeds with the program of [`parse_tokens`]
    /// exactly when no syntax error is found, and otherwise returns every
    /// error found. The first token must be one that can begin a program.
    pub fn parse(self) -> (r: Result<ApLang<Parsed>, Vec<ParseError>>)
        requires
            self.lexed(),
            can_begin_program(token_types(self.token_list())[0]),
        ensures
            ({
                let o = parse_tokens(token_types(self.token_list()));
                match r {
                    Ok(a) => {
                        &&& o.errors.len() == 0
                        &&& a.tree() is Some
                        &&& stmts_view(a.tree()->0.program@) == o.program
                        &&& token_views(a.tree()->0.tokens@) == self.token_list()
                        &&& a.source() == self.source()
                        &&& a.path() == self.path()
                    },
                    Err(errs) => o.errors.len() > 0 && errs@ == o.errors,
                }
            }),
    {
        let tokens = match self.tokens {
            Some(t) => t,
            None => Vec::new(),
        };
        let mut parser = Parser::new(tokens);
        let ast = parser.parse()?;
        Ok(
            ApLang {
                source_code: self.source_code,
                file_path: self.file_path,
                tokens: None,
                ast: Some(ast),
                values: None,
                state: Parsed,
            },
        )
    }

    /// The tokens of the source.
    pub fn tokens(&self) -> (r: &Vec<Token>)
        requires
            self.lexed(),
        ensures
            token_views(r@) == self.token_list(),
    {
        self.tokens.as_ref().unwrap()
    }

    /// The tokens as text: each lexeme followed by a space, with ` ;`
    /// before each statement end.
    pub fn debug_output(&self) -> (r: String)
        requires
            self.lexed(),
        ensures
            r@ == tokens_text(self.token_list()),
    {
        let mut out = String::new();
        let tokens = match &self.tokens {
            Some(t) => t,
            None => {
                return out;
            },
        };
        let ghost ts = token_views(tokens@);
        let mut k: usize = 0;
        proof {
            assert(ts.take(0) =~= Seq::<TokenView>::empty());
        }
        while k < tokens.len()
            invariant
                ts == token_views(tokens@),
                k <= tokens@.len(),
                out@ == tokens_text(ts.take(k as int)),
            decreases tokens@.len() - k,
        {
            let t = &tokens[k];
            if t.is_soft_semi() {
                out.append(" ;");
            }
            out.append(t.lexeme.as_str());
            out.append(" ");
            proof {
                assert(ts.take(k + 1).drop_last() =~= ts.take(k as int));
                assert(out@ =~= tokens_text(ts.take(k + 1)));
            }
            k = k + 1;
        }
        proof {
            assert(ts.take(k as int) =~= ts);
        }
        out
    }
}

impl ApLang<Parsed> {
    /// The tree of the program.
    pub fn ast(&self) -> (r: &Ast)
        requires
            self.tree() is Some,
        ensures
            Some(*r) == self.tree(),
    {
        self.ast.as_ref().unwrap()
    }

    /// The program once it has been run.
    pub fn executed(self) -> (r: ApLang<Executed>)
        ensures
            r.source() == self.source(),
            r.path() == self.path(),
    {
        ApLang {
            source_code: self.source_code,
            file_path: self.file_path,
            tokens: None,
            ast: None,
            values: None,
            state: Executed,
        }
    }

    /// The program once it has been run for debugging, with the text of the
    /// value of each statement.
    pub fn executed_with_debug(self, values: Vec<String>) -> (r: ApLang<ExecutedWithDebug>)
        ensures
            r.source() == self.source(),
            r.path() == self.path(),
            r.value_list() == strings_view(values@),
    {
        ApLang {
            source_code: self.source_code,
            file_path: self.file_path,
            tokens: None,
            ast: None,
            values: Some(values),
            state: ExecutedWithDebug,
        }
    }
}

impl ApLang<ExecutedWithDebug> {
    /// One line `EXPR OUTPUT: value` for the value of each statement.
    pub fn debug_output(&self) -> (r: String)
        ensures
            r@ == values_text(self.value_list()),
    {
        let mut out = String::new();
        let values = match &self.values {
            Some(v) => v,
            None => {
                assert(self.value_list() =~= Seq::<Seq<char>>::empty());
                return out;
            },
        };
        let ghost vs = strings_view(values@);
        let mut k: usize = 0;
        proof {
            assert(vs.take(0) =~= Seq::<Seq<char>>::empty());
        }
        while k < values.len()
            invariant
                vs == strings_view(values@),
                k <= values@.len(),
                out@ == values_text(vs.take(k as int)),
            decreases values@.len() - k,
        {
            out.append("EXPR OUTPUT: ");
            out.append(values[k].as_str());
            out.append("\n");
            proof {
                assert(vs.take(k + 1).drop_last() =~= vs.take(k as int));
                assert(out@ =~= values_text(vs.take(k + 1)));
            }
            k = k + 1;
        }
        proof {
            assert(vs.take(k as int) =~= vs);
        }
        out
    }
}

} // verus!
