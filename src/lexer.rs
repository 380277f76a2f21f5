use vstd::prelude::*;
use crate::chars::{
    digit, ident_continue, ident_start, is_digit, is_ident_continue, is_ident_start,
    is_whitespace, string_of, whitespace,
};
use crate::keywords::{
    get_keyword_syntax, get_keyword_value, get_type_syntax, is_keyword, is_type_keyword,
    keyword_syntax, keyword_value, type_syntax,
};
use crate::logger::{Diagnostic, ErrorKind, Logger};
use crate::syntax::Syntax;
use crate::token::{tokens_view, Numeral, PossibleTokenValue, Token, TokenModel, ValueModel};

verus! {

/// A class of characters that a scan runs over.
#[derive(Clone, Copy)]
pub enum Run {
    /// Anything but the given character.
    Until(char),
    /// The digits of a radix.
    Digits(u32),
    /// The characters that continue an identifier.
    Ident,
}

pub open spec fn in_run(c: char, r: Run) -> bool {
    match r {
        Run::Until(d) => c != d,
        Run::Digits(radix) => is_digit(c, radix),
        Run::Ident => is_ident_continue(c),
    }
}

/// How many characters from `j` on belong to the class `r`.
pub open spec fn span(s: Seq<char>, j: int, r: Run) -> nat
    decreases s.len() - j,
{
    if 0 <= j < s.len() && in_run(s[j], r) {
        1 + span(s, j + 1, r)
    } else {
        0
    }
}

/// How many characters from `j` on a block comment still covers: up to and
/// including the first `:##`, or all that is left.
pub open spec fn block_len(s: Seq<char>, j: int) -> nat
    decreases s.len() - j,
{
    if j < 0 || j >= s.len() {
        0
    } else if j + 2 < s.len() && s[j] == ':' && s[j + 1] == '#' && s[j + 2] == '#' {
        3
    } else {
        1 + block_len(s, j + 1)
    }
}

/// The number of newlines among the first `n` characters.
pub open spec fn newlines(s: Seq<char>, n: int) -> nat
    decreases n,
{
    if n <= 0 {
        0
    } else {
        newlines(s, n - 1) + (if n - 1 < s.len() && s[n - 1] == '\n' {
            1nat
        } else {
            0nat
        })
    }
}

/// The one-based line of offset `i`.
pub open spec fn line_at(s: Seq<char>, i: int) -> int {
    1 + newlines(s, i) as int
}

pub open spec fn is_at(s: Seq<char>, k: int, c: char) -> bool {
    0 <= k < s.len() && s[k] == c
}

/// Operators that have a variant with a trailing `=`: the plain kind and that variant.
pub open spec fn compound(c: char) -> Option<(Syntax, Syntax)> {
    if c == '+' {
        Some((Syntax::Plus, Syntax::PlusEqual))
    } else if c == '-' {
        Some((Syntax::Minus, Syntax::MinusEqual))
    } else if c == '*' {
        Some((Syntax::Star, Syntax::StarEqual))
    } else if c == '/' {
        Some((Syntax::Slash, Syntax::SlashEqual))
    } else if c == '^' {
        Some((Syntax::Carat, Syntax::CaratEqual))
    } else if c == '%' {
        Some((Syntax::Percent, Syntax::PercentEqual))
    } else if c == '|' {
        Some((Syntax::Pipe, Syntax::PipeEqual))
    } else if c == '!' {
        Some((Syntax::Bang, Syntax::BangEqual))
    } else if c == '=' {
        Some((Syntax::Equal, Syntax::EqualEqual))
    } else if c == '<' {
        Some((Syntax::Less, Syntax::LessEqual))
    } else if c == '>' {
        Some((Syntax::Greater, Syntax::GreaterEqual))
    } else {
        None
    }
}

/// Punctuation of one character.
pub open spec fn single(c: char) -> Option<Syntax> {
    if c == '.' {
        Some(Syntax::Dot)
    } else if c == '{' {
        Some(Syntax::LeftBrace)
    } else if c == '}' {
        Some(Syntax::RightBrace)
    } else if c == '[' {
        Some(Syntax::LeftBracket)
    } else if c == ']' {
        Some(Syntax::RightBracket)
    } else if c == '(' {
        Some(Syntax::LeftParen)
    } else if c == ')' {
        Some(Syntax::RightParen)
    } else if c == ',' {
        Some(Syntax::Comma)
    } else if c == '&' {
        Some(Syntax::Ampersand)
    } else {
        None
    }
}

/// What one step of the scanner does: the token it makes, the error it
/// reports (kind and offset) and where the next step begins.
pub struct Step {
    pub token: Option<TokenModel>,
    pub error: Option<(ErrorKind, int)>,
    pub next: int,
}

pub open spec fn skip(next: int) -> Step {
    Step { token: None, error: None, next }
}

pub open spec fn emit(syntax: Syntax, next: int) -> Step {
    Step { token: Some(TokenModel { syntax, value: None }), error: None, next }
}

/// Past the closing delimiter at `e`, if there is one.
pub open spec fn past(s: Seq<char>, e: int) -> int {
    if e < s.len() {
        e + 1
    } else {
        e
    }
}

/// The token an identifier-shaped word makes: a keyword, a type name, or a
/// plain identifier carrying its text.
pub open spec fn word_token(t: Seq<char>) -> TokenModel {
    match keyword_syntax(t) {
        Some(k) => TokenModel { syntax: k, value: keyword_value(t) },
        None => match type_syntax(t) {
            Some(k) => TokenModel { syntax: k, value: Some(ValueModel::Type(t)) },
            None => TokenModel { syntax: Syntax::Identifier, value: Some(ValueModel::Text(t)) },
        },
    }
}

pub open spec fn number_token(radix: u32, digits: Seq<char>) -> TokenModel {
    TokenModel { syntax: Syntax::Float, value: Some(ValueModel::Float { radix, digits }) }
}

/// A `0` followed by the prefix letter and a digit of that radix.
pub open spec fn has_prefix(s: Seq<char>, i: int, letter: char, radix: u32) -> bool {
    s[i] == '0' && is_at(s, i + 1, letter) && i + 2 < s.len() && is_digit(s[i + 2], radix)
}

/// The length of the fraction (`.` and digits) after the integer part ending at `e`.
pub open spec fn fraction_len(s: Seq<char>, e: int) -> nat {
    if is_at(s, e, '.') && e + 1 < s.len() && is_digit(s[e + 1], 10) {
        1 + span(s, e + 1, Run::Digits(10))
    } else {
        0
    }
}

/// A numeric literal starting at `i`, where `s[i]` is a decimal digit.
pub open spec fn number_step(s: Seq<char>, i: int) -> Step {
    if has_prefix(s, i, 'x', 16) {
        let n = span(s, i + 2, Run::Digits(16));
        Step {
            token: Some(number_token(16, s.subrange(i + 2, i + 2 + n))),
            error: None,
            next: i + 2 + n,
        }
    } else if has_prefix(s, i, 'b', 2) {
        let n = span(s, i + 2, Run::Digits(2));
        Step {
            token: Some(number_token(2, s.subrange(i + 2, i + 2 + n))),
            error: None,
            next: i + 2 + n,
        }
    } else {
        let n = 1 + span(s, i + 1, Run::Digits(10));
        let f = fraction_len(s, i + n);
        Step { token: Some(number_token(10, s.subrange(i, i + n + f))), error: None, next: i + n + f }
    }
}

/// A character literal opened at `i`.
pub open spec fn char_step(s: Seq<char>, i: int) -> Step {
    let n = span(s, i + 1, Run::Until('\''));
    Step {
        token: if n == 0 {
            None
        } else {
            Some(TokenModel { syntax: Syntax::Char, value: Some(ValueModel::Char(s[i + 1])) })
        },
        error: if n == 0 {
            Some((ErrorKind::EmptyCharacter, i))
        } else if n > 1 {
            Some((ErrorKind::CharacterOverflow, i + 2))
        } else {
            None
        },
        next: past(s, i + 1 + n),
    }
}

/// One step of the scanner at offset `i`, for `0 <= i < s.len()`.
///
/// A newline, a semicolon or other whitespace is skipped. `##` opens a line
/// comment, which ends before the next newline, and `##:` a block comment,
/// which ends after the next `:##`. A string or character literal, or a block
/// comment, that is never closed runs silently to the end of the text: no
/// error is reported for it.
pub open spec fn step(s: Seq<char>, i: int) -> Step {
    let c = s[i];
    if c == '\n' || c == ';' || is_whitespace(c) {
        skip(i + 1)
    } else if c == '#' {
        if is_at(s, i + 1, '#') {
            if is_at(s, i + 2, ':') {
                skip(i + 3 + block_len(s, i + 3))
            } else {
                skip(i + 2 + span(s, i + 2, Run::Until('\n')))
            }
        } else {
            emit(Syntax::Hashtag, i + 1)
        }
    } else if c == ':' {
        if is_at(s, i + 1, ':') {
            emit(Syntax::ColonColon, i + 2)
        } else {
            emit(Syntax::Colon, i + 1)
        }
    } else if c == '-' && is_at(s, i + 1, '>') {
        emit(Syntax::HyphenArrow, i + 2)
    } else if compound(c) is Some {
        let pair = compound(c)->0;
        if is_at(s, i + 1, '=') {
            emit(pair.1, i + 2)
        } else {
            emit(pair.0, i + 1)
        }
    } else if single(c) is Some {
        emit(single(c)->0, i + 1)
    } else if c == '"' {
        let n = span(s, i + 1, Run::Until('"'));
        Step {
            token: Some(
                TokenModel {
                    syntax: Syntax::String,
                    value: Some(ValueModel::Text(s.subrange(i + 1, i + 1 + n))),
                },
            ),
            error: None,
            next: past(s, i + 1 + n),
        }
    } else if c == '\'' {
        char_step(s, i)
    } else if is_digit(c, 10) {
        number_step(s, i)
    } else if is_ident_start(c) {
        let n = span(s, i + 1, Run::Ident);
        Step { token: Some(word_token(s.subrange(i, i + 1 + n))), error: None, next: i + 1 + n }
    } else {
        Step { token: None, error: Some((ErrorKind::UnexpectedCharacter(c), i)), next: i + 1 }
    }
}

/// The outcome of a scan: the tokens made and the errors reported.
pub struct Scan {
    pub tokens: Seq<TokenModel>,
    pub reports: Seq<Diagnostic>,
}

pub open spec fn eof_token() -> TokenModel {
    TokenModel { syntax: Syntax::EOF, value: None }
}

pub open spec fn option_seq<T>(o: Option<T>) -> Seq<T> {
    match o {
        Some(x) => seq![x],
        None => Seq::empty(),
    }
}

/// The report an error of a step makes, with the line of its offset.
pub open spec fn report_of(s: Seq<char>, e: Option<(ErrorKind, int)>) -> Option<Diagnostic> {
    match e {
        Some((kind, off)) => Some(
            Diagnostic { kind, offset: off as usize, line: line_at(s, off) as usize },
        ),
        None => None,
    }
}

/// Scanning `s` from offset `i` to its end, then closing with `EOF`.
pub open spec fn lex_from(s: Seq<char>, i: int) -> Scan
    decreases s.len() - i,
{
    if i < 0 || i >= s.len() {
        Scan { tokens: seq![eof_token()], reports: Seq::empty() }
    } else {
        let st = step(s, i);
        proof {
            lemma_step_bounds(s, i);
        }
        let rest = lex_from(s, st.next);
        Scan {
            tokens: option_seq(st.token) + rest.tokens,
            reports: option_seq(report_of(s, st.error)) + rest.reports,
        }
    }
}

/// Scanning all of `s`.
pub open spec fn lex(s: Seq<char>) -> Scan {
    lex_from(s, 0)
}

pub proof fn lemma_span_bound(s: Seq<char>, j: int, r: Run)
    requires
        0 <= j <= s.len(),
    ensures
        j + span(s, j, r) <= s.len(),
        forall|k: int| j <= k < j + span(s, j, r) ==> in_run(#[trigger] s[k], r),
        j + span(s, j, r) < s.len() ==> !in_run(s[j + span(s, j, r)], r),
    decreases s.len() - j,
{
    if j < s.len() && in_run(s[j], r) {
        lemma_span_bound(s, j + 1, r);
    }
}

pub proof fn lemma_block_bound(s: Seq<char>, j: int)
    requires
        0 <= j <= s.len(),
    ensures
        j + block_len(s, j) <= s.len(),
    decreases s.len() - j,
{
    if j < s.len() && !(j + 2 < s.len() && s[j] == ':' && s[j + 1] == '#' && s[j + 2] == '#') {
        lemma_block_bound(s, j + 1);
    }
}

/// A step moves forward and stays within the text.
pub proof fn lemma_step_bounds(s: Seq<char>, i: int)
    requires
        0 <= i < s.len(),
    ensures
        i < step(s, i).next <= s.len(),
{
    lemma_span_bound(s, i + 1, Run::Until('"'));
    lemma_span_bound(s, i + 1, Run::Until('\''));
    lemma_span_bound(s, i + 1, Run::Ident);
    lemma_span_bound(s, i + 1, Run::Digits(10));
    if i + 2 <= s.len() {
        lemma_span_bound(s, i + 2, Run::Until('\n'));
        lemma_span_bound(s, i + 2, Run::Digits(16));
        lemma_span_bound(s, i + 2, Run::Digits(2));
    }
    if i + 3 <= s.len() {
        lemma_block_bound(s, i + 3);
    }
    let n = 1 + span(s, i + 1, Run::Digits(10));
    if i + n + 1 <= s.len() {
        lemma_span_bound(s, i + n + 1, Run::Digits(10));
    }
}

pub proof fn lemma_newlines_bound(s: Seq<char>, n: int)
    requires
        0 <= n,
    ensures
        newlines(s, n) <= n,
    decreases n,
{
    if n > 0 {
        lemma_newlines_bound(s, n - 1);
    }
}

fn in_run_exec(c: char, r: Run) -> (b: bool)
    ensures
        b == in_run(c, r),
{
    match r {
        Run::Until(d) => c != d,
        Run::Digits(radix) => digit(c, radix),
        Run::Ident => ident_continue(c),
    }
}

fn compound_of(c: char) -> (r: Option<(Syntax, Syntax)>)
    ensures
        r == compound(c),
{
    if c == '+' {
        Some((Syntax::Plus, Syntax::PlusEqual))
    } else if c == '-' {
        Some((Syntax::Minus, Syntax::MinusEqual))
    } else if c == '*' {
        Some((Syntax::Star, Syntax::StarEqual))
    } else if c == '/' {
        Some((Syntax::Slash, Syntax::SlashEqual))
    } else if c == '^' {
        Some((Syntax::Carat, Syntax::CaratEqual))
    } else if c == '%' {
        Some((Syntax::Percent, Syntax::PercentEqual))
    } else if c == '|' {
        Some((Syntax::Pipe, Syntax::PipeEqual))
    } else if c == '!' {
        Some((Syntax::Bang, Syntax::BangEqual))
    } else if c == '=' {
        Some((Syntax::Equal, Syntax::EqualEqual))
    } else if c == '<' {
        Some((Syntax::Less, Syntax::LessEqual))
    } else if c == '>' {
        Some((Syntax::Greater, Syntax::GreaterEqual))
    } else {
        None
    }
}

fn single_of(c: char) -> (r: Option<Syntax>)
    ensures
        r == single(c),
{
    if c == '.' {
        Some(Syntax::Dot)
    } else if c == '{' {
        Some(Syntax::LeftBrace)
    } else if c == '}' {
        Some(Syntax::RightBrace)
    } else if c == '[' {
        Some(Syntax::LeftBracket)
    } else if c == ']' {
        Some(Syntax::RightBracket)
    } else if c == '(' {
        Some(Syntax::LeftParen)
    } else if c == ')' {
        Some(Syntax::RightParen)
    } else if c == ',' {
        Some(Syntax::Comma)
    } else if c == '&' {
        Some(Syntax::Ampersand)
    } else {
        None
    }
}

/// The token an identifier-shaped word makes.
fn word(text: String) -> (r: Token)
    ensures
        r@ == word_token(text@),
{
    if is_keyword(text.as_str()) {
        let syntax = get_keyword_syntax(text.as_str());
        let value = get_keyword_value(text.as_str());
        Token { syntax_type: syntax, value }
    } else if is_type_keyword(text.as_str()) {
        let syntax = get_type_syntax(text.as_str());
        Token { syntax_type: syntax, value: Some(PossibleTokenValue::Type(text)) }
    } else {
        Token { syntax_type: Syntax::Identifier, value: Some(PossibleTokenValue::String(text)) }
    }
}

/// A single-pass scanner over one source text. It walks the characters once,
/// appending tokens and reporting malformed input to its logger.
pub struct Lexer {
    position: usize,
    line: usize,
    chars: Vec<char>,
    tokens: Vec<Token>,
    pub logger: Logger,
}

/// `post` is `pre` after the step `st`.
spec fn did_step(pre: Lexer, post: Lexer, st: Step) -> bool {
    &&& post.wf()
    &&& post.chars@ == pre.chars@
    &&& post.position == st.next
    &&& tokens_view(post.tokens@) == tokens_view(pre.tokens@) + option_seq(st.token)
    &&& post.logger.reports@ == pre.logger.reports@ + option_seq(report_of(pre.chars@, st.error))
    &&& post.logger.errored == (pre.logger.errored || st.error is Some)
}

impl Lexer {
    /// The characters being scanned.
    pub closed spec fn source(&self) -> Seq<char> {
        self.chars@
    }

    /// The offset of the next character to scan.
    pub closed spec fn pos(&self) -> int {
        self.position as int
    }

    /// The tokens made so far.
    pub closed spec fn made(&self) -> Seq<TokenModel> {
        tokens_view(self.tokens@)
    }

    /// The logger's state.
    pub closed spec fn log(&self) -> Logger {
        self.logger
    }

    /// The cursor lies within the text and the line counter matches it.
    pub closed spec fn wf(&self) -> bool {
        &&& self.position <= self.chars@.len() < usize::MAX
        &&& self.line == line_at(self.chars@, self.position as int)
    }

    pub fn new(source: &str) -> (r: Self)
        requires
            source@.len() < usize::MAX,
        ensures
            r.wf(),
            r.source() == source@,
            r.pos() == 0,
            r.made().len() == 0,
            !r.log().errored,
            r.log().reports@.len() == 0,
    {
        let chars = crate::chars::collect_chars(source);
        let r = Lexer { position: 0, line: 1, chars, tokens: Vec::new(), logger: Logger::new() };
        r
    }

    /// Whether the character `k` places ahead of the cursor is `c`.
    fn peek_is(&self, k: usize, c: char) -> (r: bool)
        requires
            self.wf(),
        ensures
            r == is_at(self.chars@, self.position + k, c),
    {
        if k < self.chars.len() - self.position {
            self.chars[self.position + k] == c
        } else {
            false
        }
    }

    /// The end of the run of class `r` that starts at `from`.
    fn scan(&self, from: usize, r: Run) -> (e: usize)
        requires
            from <= self.chars@.len(),
        ensures
            e == from + span(self.chars@, from as int, r),
    {
        let mut j: usize = from;
        while j < self.chars.len() && in_run_exec(self.chars[j], r)
            invariant
                from <= j <= self.chars@.len(),
                j + span(self.chars@, j as int, r) == from + span(self.chars@, from as int, r),
            decreases self.chars@.len() - j,
        {
            j = j + 1;
        }
        j
    }

    /// The end of a block comment whose text starts at `from`.
    fn block_end(&self, from: usize) -> (e: usize)
        requires
            from <= self.chars@.len(),
        ensures
            e == from + block_len(self.chars@, from as int),
    {
        let len = self.chars.len();
        let mut j: usize = from;
        while j < len
            invariant
                len == self.chars@.len(),
                from <= j <= len,
                j + block_len(self.chars@, j as int) == from + block_len(self.chars@, from as int),
            decreases len - j,
        {
            if len - j > 2 && self.chars[j] == ':' && self.chars[j + 1] == '#' && self.chars[j + 2]
                == '#' {
                return j + 3;
            }
            j = j + 1;
        }
        j
    }

    /// Moves the cursor forward to `to`, counting the newlines passed.
    fn advance_to(&mut self, to: usize)
        requires
            old(self).wf(),
            old(self).position <= to <= old(self).chars@.len(),
        ensures
            final(self).wf(),
            final(self).position == to,
            final(self).chars@ == old(self).chars@,
            final(self).tokens@ == old(self).tokens@,
            final(self).logger == old(self).logger,
    {
        while self.position < to
            invariant
                self.wf(),
                self.position <= to <= self.chars@.len(),
                self.chars@ == old(self).chars@,
                self.tokens@ == old(self).tokens@,
                self.logger == old(self).logger,
            decreases to - self.position,
        {
            proof {
                lemma_newlines_bound(self.chars@, self.position as int);
            }
            if self.chars[self.position] == '\n' {
                self.line = self.line + 1;
            }
            self.position = self.position + 1;
        }
    }

    fn add_token(&mut self, syntax: Syntax, value: Option<PossibleTokenValue>)
        ensures
            final(self).tokens@ == old(self).tokens@.push(Token { syntax_type: syntax, value }),
            tokens_view(final(self).tokens@) == tokens_view(old(self).tokens@) + seq![
                Token { syntax_type: syntax, value }@,
            ],
            final(self).position == old(self).position,
            final(self).line == old(self).line,
            final(self).chars@ == old(self).chars@,
            final(self).logger == old(self).logger,
    {
        let t = Token { syntax_type: syntax, value };
        self.tokens.push(t);
        assert(tokens_view(self.tokens@) =~= tokens_view(old(self).tokens@) + seq![t@]);
    }

    fn read_identifier(&mut self)
        requires
            old(self).wf(),
            old(self).position < old(self).chars@.len(),
        ensures
            did_step(
                *old(self),
                *final(self),
                ({
                    let s = old(self).chars@;
                    let i = old(self).position as int;
                    let n = span(s, i + 1, Run::Ident);
                    Step {
                        token: Some(word_token(s.subrange(i, i + 1 + n))),
                        error: None,
                        next: i + 1 + n,
                    }
                }),
            ),
    {
        let i = self.position;
        proof {
            lemma_span_bound(self.chars@, i + 1, Run::Ident);
        }
        let e = self.scan(i + 1, Run::Ident);
        let text = string_of(&self.chars, i, e);
        let t = word(text);
        self.add_token(t.syntax_type, t.value);
        self.advance_to(e);
        assert(self.logger.reports@ =~= old(self).logger.reports@ + Seq::empty());
    }

    fn read_string(&mut self)
        requires
            old(self).wf(),
            old(self).position < old(self).chars@.len(),
        ensures
            did_step(
                *old(self),
                *final(self),
                ({
                    let s = old(self).chars@;
                    let i = old(self).position as int;
                    let n = span(s, i + 1, Run::Until('"'));
                    Step {
                        token: Some(
                            TokenModel {
                                syntax: Syntax::String,
                                value: Some(ValueModel::Text(s.subrange(i + 1, i + 1 + n))),
                            },
                        ),
                        error: None,
                        next: past(s, i + 1 + n),
                    }
                }),
            ),
    {
        let i = self.position;
        proof {
            lemma_span_bound(self.chars@, i + 1, Run::Until('"'));
        }
        let e = self.scan(i + 1, Run::Until('"'));
        let text = string_of(&self.chars, i + 1, e);
        self.add_token(Syntax::String, Some(PossibleTokenValue::String(text)));
        let next = if e < self.chars.len() {
            e + 1
        } else {
            e
        };
        self.advance_to(next);
        assert(self.logger.reports@ =~= old(self).logger.reports@ + Seq::empty());
    }

    fn read_char(&mut self)
        requires
            old(self).wf(),
            old(self).position < old(self).chars@.len(),
        ensures
            did_step(*old(self), *final(self), char_step(old(self).chars@, old(self).position as int)),
    {
        let i = self.position;
        proof {
            lemma_span_bound(self.chars@, i + 1, Run::Until('\''));
        }
        let e = self.scan(i + 1, Run::Until('\''));
        let next = if e < self.chars.len() {
            e + 1
        } else {
            e
        };
        if e == i + 1 {
            let line = self.line;
            self.logger.report_error(ErrorKind::EmptyCharacter, i, line);
            assert(self.logger.reports@ =~= old(self).logger.reports@ + seq![
                Diagnostic { kind: ErrorKind::EmptyCharacter, offset: i, line },
            ]);
            assert(tokens_view(self.tokens@) =~= tokens_view(old(self).tokens@) + Seq::empty());
        } else {
            let first = self.chars[i + 1];
            self.add_token(Syntax::Char, Some(PossibleTokenValue::Char(first)));
            if e > i + 2 {
                self.advance_to(i + 2);
                let line = self.line;
                self.logger.report_error(ErrorKind::CharacterOverflow, i + 2, line);
                assert(self.logger.reports@ =~= old(self).logger.reports@ + seq![
                    Diagnostic { kind: ErrorKind::CharacterOverflow, offset: (i + 2) as usize, line },
                ]);
            } else {
                assert(self.logger.reports@ =~= old(self).logger.reports@ + Seq::empty());
            }
        }
        self.advance_to(next);
    }

    fn read_number(&mut self)
        requires
            old(self).wf(),
            old(self).position < old(self).chars@.len(),
            is_digit(old(self).chars@[old(self).position as int], 10),
        ensures
            did_step(*old(self), *final(self), number_step(old(self).chars@, old(self).position as int)),
    {
        let i = self.position;
        let len = self.chars.len();
        let s = Ghost(self.chars@);
        if self.chars[i] == '0' && self.peek_is(1, 'x') && len - i > 2 && digit(self.chars[i + 2], 16) {
            proof {
                lemma_span_bound(s@, i + 2, Run::Digits(16));
            }
            let e = self.scan(i + 2, Run::Digits(16));
            let digits = string_of(&self.chars, i + 2, e);
            self.add_token(Syntax::Float, Some(PossibleTokenValue::Float(Numeral { radix: 16, digits })));
            self.advance_to(e);
        } else if self.chars[i] == '0' && self.peek_is(1, 'b') && len - i > 2 && digit(self.chars[i + 2], 2) {
            proof {
                lemma_span_bound(s@, i + 2, Run::Digits(2));
            }
            let e = self.scan(i + 2, Run::Digits(2));
            let digits = string_of(&self.chars, i + 2, e);
            self.add_token(Syntax::Float, Some(PossibleTokenValue::Float(Numeral { radix: 2, digits })));
            self.advance_to(e);
        } else {
            proof {
                lemma_span_bound(s@, i + 1, Run::Digits(10));
            }
            let e = self.scan(i + 1, Run::Digits(10));
            let end = if e < len && self.chars[e] == '.' && len - e > 1 && digit(self.chars[e + 1], 10) {
                proof {
                    lemma_span_bound(s@, e + 1, Run::Digits(10));
                }
                self.scan(e + 1, Run::Digits(10))
            } else {
                e
            };
            let digits = string_of(&self.chars, i, end);
            self.add_token(Syntax::Float, Some(PossibleTokenValue::Float(Numeral { radix: 10, digits })));
            self.advance_to(end);
        }
        assert(self.logger.reports@ =~= old(self).logger.reports@ + Seq::empty());
    }

    /// Scans one step at the cursor: makes at most one token and reports at
    /// most one error.
    fn lex(&mut self)
        requires
            old(self).wf(),
            old(self).position < old(self).chars@.len(),
        ensures
            did_step(*old(self), *final(self), step(old(self).chars@, old(self).position as int)),
    {
        let i = self.position;
        let c = self.chars[i];
        proof {
            lemma_step_bounds(self.chars@, i as int);
        }
        if c == '\n' || c == ';' || whitespace(c) {
            self.advance_to(i + 1);
            assert(tokens_view(self.tokens@) =~= tokens_view(old(self).tokens@) + Seq::empty());
        } else if c == '#' {
            if self.peek_is(1, '#') {
                if self.peek_is(2, ':') {
                    let e = self.block_end(i + 3);
                    self.advance_to(e);
                } else {
                    let e = self.scan(i + 2, Run::Until('\n'));
                    self.advance_to(e);
                }
                assert(tokens_view(self.tokens@) =~= tokens_view(old(self).tokens@) + Seq::empty());
            } else {
                self.add_token(Syntax::Hashtag, None);
                self.advance_to(i + 1);
            }
        } else if c == ':' {
            if self.peek_is(1, ':') {
                self.add_token(Syntax::ColonColon, None);
                self.advance_to(i + 2);
            } else {
                self.add_token(Syntax::Colon, None);
                self.advance_to(i + 1);
            }
        } else if c == '-' && self.peek_is(1, '>') {
            self.add_token(Syntax::HyphenArrow, None);
            self.advance_to(i + 2);
        } else if let Some(pair) = compound_of(c) {
            if self.peek_is(1, '=') {
                self.add_token(pair.1, None);
                self.advance_to(i + 2);
            } else {
                self.add_token(pair.0, None);
                self.advance_to(i + 1);
            }
        } else if let Some(k) = single_of(c) {
            self.add_token(k, None);
            self.advance_to(i + 1);
        } else if c == '"' {
            self.read_string();
        } else if c == '\'' {
            self.read_char();
        } else if digit(c, 10) {
            self.read_number();
        } else if ident_start(c) {
            self.read_identifier();
        } else {
            let line = self.line;
            self.logger.report_error(ErrorKind::UnexpectedCharacter(c), i, line);
            assert(self.logger.reports@ =~= old(self).logger.reports@ + seq![
                Diagnostic { kind: ErrorKind::UnexpectedCharacter(c), offset: i, line },
            ]);
            self.advance_to(i + 1);
            assert(tokens_view(self.tokens@) =~= tokens_view(old(self).tokens@) + Seq::empty());
        }
        proof {
            if self.logger.reports@ == old(self).logger.reports@ {
                assert(self.logger.reports@ =~= old(self).logger.reports@ + Seq::empty());
            }
        }
    }

    /// Scans from the cursor to the end of the text, then appends `EOF`.
    /// Returns all tokens made so far.
    pub fn tokenize(&mut self) -> (r: &Vec<Token>)
        requires
            old(self).wf(),
        ensures
            final(self).wf(),
            final(self).source() == old(self).source(),
            final(self).pos() == old(self).source().len(),
            final(self).made() == old(self).made() + lex_from(old(self).source(), old(self).pos()).tokens,
            final(self).log().reports@ == old(self).log().reports@ + lex_from(
                old(self).source(),
                old(self).pos(),
            ).reports,
            final(self).log().errored == (old(self).log().errored || lex_from(
                old(self).source(),
                old(self).pos(),
            ).reports.len() > 0),
            tokens_view(r@) == final(self).made(),
    {
        let ghost s = self.chars@;
        let ghost start = self.position as int;
        while self.position < self.chars.len()
            invariant
                self.wf(),
                self.chars@ == s,
                start <= self.position,
                tokens_view(self.tokens@) + lex_from(s, self.position as int).tokens == tokens_view(
                    old(self).tokens@,
                ) + lex_from(s, start).tokens,
                self.logger.reports@ + lex_from(s, self.position as int).reports
                    == old(self).logger.reports@ + lex_from(s, start).reports,
                self.logger.errored == (old(self).logger.errored || self.logger.reports@.len()
                    > old(self).logger.reports@.len()),
                self.logger.reports@.len() >= old(self).logger.reports@.len(),
            decreases self.chars@.len() - self.position,
        {
            let ghost pre = *self;
            self.lex();
            proof {
                let st = step(s, pre.position as int);
                let rest = lex_from(s, st.next);
                assert(lex_from(s, pre.position as int).tokens == option_seq(st.token) + rest.tokens);
                assert(tokens_view(pre.tokens@) + (option_seq(st.token) + rest.tokens)
                    =~= (tokens_view(pre.tokens@) + option_seq(st.token)) + rest.tokens);
                let e = option_seq(report_of(s, st.error));
                assert(pre.logger.reports@ + (e + rest.reports)
                    =~= (pre.logger.reports@ + e) + rest.reports);
            }
        }
        self.add_token(Syntax::EOF, None);
        proof {
            assert(lex_from(s, self.position as int).reports =~= Seq::<Diagnostic>::empty());
            assert(self.logger.reports@ =~= old(self).logger.reports@ + lex_from(s, start).reports);
        }
        &self.tokens
    }
}

/// Scans a whole source text: the tokens, closed by `EOF`, and the logger
/// that holds the errors met on the way.
pub fn tokenize(source: &str) -> (r: (Vec<Token>, Logger))
    requires
        source@.len() < usize::MAX,
    ensures
        tokens_view(r.0@) == lex(source@).tokens,
        r.1.reports@ == lex(source@).reports,
        r.1.errored == (lex(source@).reports.len() > 0),
{
    let mut lexer = Lexer::new(source);
    lexer.tokenize();
    proof {
        assert(tokens_view(lexer.tokens@) =~= lex(source@).tokens);
        assert(lexer.logger.reports@ =~= lex(source@).reports);
    }
    (lexer.tokens, lexer.logger)
}

} // verus!
