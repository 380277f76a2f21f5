use vstd::prelude::*;
use crate::lexer::{lex, tokenize};
use crate::logger::Logger;
use crate::token::{tokens_view, Token, TokenModel};

verus! {

/// Holds the token stream of one source text for syntactic analysis.
pub struct Parser {
    position: usize,
    tokens: Vec<Token>,
    pub logger: Logger,
}

impl Parser {
    /// The tokens to be parsed.
    pub closed spec fn stream(&self) -> Seq<TokenModel> {
        tokens_view(self.tokens@)
    }

    /// The offset of the next token to parse.
    pub closed spec fn cursor(&self) -> int {
        self.position as int
    }

    /// The logger's state.
    pub closed spec fn log(&self) -> Logger {
        self.logger
    }

    /// Scans `source` and keeps its tokens; the parser's own logger starts clean.
    pub fn new(source: &str) -> (r: Self)
        requires
            source@.len() < usize::MAX,
        ensures
            r.stream() == lex(source@).tokens,
            r.cursor() == 0,
            !r.log().errored,
            r.log().reports@.len() == 0,
    {
        let (tokens, _) = tokenize(source);
        Parser { position: 0, tokens, logger: Logger::new() }
    }

    /// Builds nothing: the stream, the cursor and the logger stay as they are.
    pub fn parse(&self) {
    }
}

} // verus!
