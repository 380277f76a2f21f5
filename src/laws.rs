use vstd::prelude::*;
use crate::chars::{is_digit, is_ident_continue, is_ident_start, is_whitespace};
use crate::keywords::{keyword_entries, lookup, type_entries};
use crate::logger::{Diagnostic, ErrorKind};
use crate::token::{TokenModel, ValueModel};
use crate::lexer::{
    block_len, compound, eof_token, is_at, lemma_span_bound, lemma_step_bounds, lex, lex_from,
    line_at, newlines, option_seq, single, span, step, word_token, Run,
};
use crate::syntax::Syntax;

verus! {

/// A lookup returns the kind of one of the table's entries.
pub proof fn lemma_lookup_in_table(table: Seq<(Seq<char>, Syntax)>, t: Seq<char>)
    ensures
        lookup(table, t) matches Some(k) ==> exists|j: int| 0 <= j < table.len() && table[j].1 == k,
    decreases table.len(),
{
    if table.len() > 0 && table[0].0 != t {
        lemma_lookup_in_table(table.drop_first(), t);
        if let Some(k) = lookup(table, t) {
            let j = choose|j: int| 0 <= j < table.drop_first().len() && table.drop_first()[j].1 == k;
            assert(table[j + 1].1 == k);
        }
    }
}

/// No word is ever classified as `EOF`.
pub proof fn lemma_word_not_eof(t: Seq<char>)
    ensures
        word_token(t).syntax != Syntax::EOF,
{
    lemma_lookup_in_table(keyword_entries(), t);
    lemma_lookup_in_table(type_entries(), t);
}

/// No step of the scanner makes an `EOF` token.
pub proof fn lemma_step_not_eof(s: Seq<char>, i: int)
    requires
        0 <= i < s.len(),
    ensures
        step(s, i).token matches Some(t) ==> t.syntax != Syntax::EOF,
{
    let n = crate::lexer::span(s, i + 1, crate::lexer::Run::Ident);
    lemma_word_not_eof(s.subrange(i, i + 1 + n));
}

/// Scanning from any offset ends with `EOF`, and `EOF` appears nowhere else.
pub proof fn lemma_eof_once_from(s: Seq<char>, i: int)
    ensures
        lex_from(s, i).tokens.len() >= 1,
        lex_from(s, i).tokens.last() == eof_token(),
        forall|k: int|
            0 <= k < lex_from(s, i).tokens.len() - 1 ==> (#[trigger] lex_from(s, i).tokens[k]).syntax
                != Syntax::EOF,
    decreases s.len() - i,
{
    if 0 <= i < s.len() {
        lemma_step_bounds(s, i);
        lemma_step_not_eof(s, i);
        lemma_eof_once_from(s, step(s, i).next);
        let head = option_seq(step(s, i).token);
        let rest = lex_from(s, step(s, i).next).tokens;
        assert(lex_from(s, i).tokens == head + rest);
        assert forall|k: int| 0 <= k < lex_from(s, i).tokens.len() - 1 implies (#[trigger] lex_from(
            s,
            i,
        ).tokens[k]).syntax != Syntax::EOF by {
            if k >= head.len() {
                assert(lex_from(s, i).tokens[k] == rest[k - head.len()]);
            }
        }
    }
}

/// Every scan terminates with exactly one `EOF` token, and it is the last.
pub proof fn lemma_eof_exactly_once(s: Seq<char>)
    ensures
        lex(s).tokens.len() >= 1,
        lex(s).tokens.last() == eof_token(),
        forall|k: int| 0 <= k < lex(s).tokens.len() - 1 ==> (#[trigger] lex(s).tokens[k]).syntax != Syntax::EOF,
{
    lemma_eof_once_from(s, 0);
}

/// From an offset after which only whitespace follows, a scan makes nothing but `EOF`.
pub proof fn lemma_blank_from(s: Seq<char>, i: int)
    requires
        0 <= i,
        forall|k: int| i <= k < s.len() ==> is_whitespace(#[trigger] s[k]),
    ensures
        lex_from(s, i).tokens == seq![eof_token()],
        lex_from(s, i).reports.len() == 0,
    decreases s.len() - i,
{
    if i < s.len() {
        assert(is_whitespace(s[i]));
        lemma_blank_from(s, i + 1);
        assert(lex_from(s, i).tokens =~= seq![eof_token()]);
        assert(lex_from(s, i).reports =~= lex_from(s, i + 1).reports);
    }
}

/// Input made of whitespace alone (newlines included) scans to exactly `[EOF]`
/// and reports no error.
pub proof fn lemma_whitespace_only(s: Seq<char>)
    requires
        forall|k: int| 0 <= k < s.len() ==> is_whitespace(#[trigger] s[k]),
    ensures
        lex(s).tokens == seq![eof_token()],
        lex(s).reports.len() == 0,
{
    lemma_blank_from(s, 0);
}

/// Two texts that agree from offsets `i` and `j` on have the same runs there.
pub proof fn lemma_span_suffix(s: Seq<char>, i: int, t: Seq<char>, j: int, r: Run)
    requires
        0 <= i <= s.len(),
        0 <= j <= t.len(),
        s.skip(i) == t.skip(j),
    ensures
        span(s, i, r) == span(t, j, r),
    decreases s.len() - i,
{
    assert(s.len() - i == t.skip(j).len());
    if i < s.len() {
        assert(s[i] == s.skip(i)[0]);
        assert(t[j] == t.skip(j)[0]);
        assert(s.skip(i + 1) =~= t.skip(j + 1)) by {
            assert forall|k: int| 0 <= k < s.skip(i + 1).len() implies #[trigger] s.skip(i + 1)[k] == t.skip(
                j + 1,
            )[k] by {
                assert(s.skip(i + 1)[k] == s.skip(i)[k + 1]);
                assert(t.skip(j + 1)[k] == t.skip(j)[k + 1]);
            }
        }
        lemma_span_suffix(s, i + 1, t, j + 1, r);
    }
}

pub proof fn lemma_block_suffix(s: Seq<char>, i: int, t: Seq<char>, j: int)
    requires
        0 <= i <= s.len(),
        0 <= j <= t.len(),
        s.skip(i) == t.skip(j),
    ensures
        block_len(s, i) == block_len(t, j),
    decreases s.len() - i,
{
    assert(s.len() - i == t.skip(j).len());
    if i < s.len() {
        assert(s[i] == s.skip(i)[0] && t[j] == t.skip(j)[0]);
        if i + 2 < s.len() {
            assert(s[i + 1] == s.skip(i)[1] && t[j + 1] == t.skip(j)[1]);
            assert(s[i + 2] == s.skip(i)[2] && t[j + 2] == t.skip(j)[2]);
        }
        assert(s.skip(i + 1) =~= t.skip(j + 1)) by {
            assert forall|k: int| 0 <= k < s.skip(i + 1).len() implies #[trigger] s.skip(i + 1)[k] == t.skip(
                j + 1,
            )[k] by {
                assert(s.skip(i + 1)[k] == s.skip(i)[k + 1]);
                assert(t.skip(j + 1)[k] == t.skip(j)[k + 1]);
            }
        }
        lemma_block_suffix(s, i + 1, t, j + 1);
    }
}

/// A step reads only the text from its offset on.
#[verifier::spinoff_prover]
#[verifier::rlimit(40)]
pub proof fn lemma_step_suffix(s: Seq<char>, i: int, t: Seq<char>, j: int)
    requires
        0 <= i < s.len(),
        0 <= j <= t.len(),
        s.skip(i) == t.skip(j),
    ensures
        step(s, i).token == step(t, j).token,
        step(s, i).next - i == step(t, j).next - j,
{
    let m = s.len() - i;
    assert(m == t.skip(j).len());
    assert forall|p: int| i <= p < s.len() implies #[trigger] s[p] == t[p - i + j] by {
        assert(s.skip(i)[p - i] == s[p]);
        assert(t.skip(j)[p - i] == t[p - i + j]);
    }
    assert forall|x: int, y: int| i <= x <= y <= s.len() implies #[trigger] s.subrange(x, y)
        == t.subrange(x - i + j, y - i + j) by {
        assert(s.subrange(x, y) =~= t.subrange(x - i + j, y - i + j)) by {
            assert forall|k: int| 0 <= k < y - x implies #[trigger] s.subrange(x, y)[k]
                == t.subrange(x - i + j, y - i + j)[k] by {
                assert(s[x + k] == t[x + k - i + j]);
            }
        }
    }
    assert forall|p: int| i <= p <= s.len() implies #[trigger] s.skip(p) == t.skip(p - i + j) by {
        assert(s.skip(p) =~= t.skip(p - i + j)) by {
            assert forall|k: int| 0 <= k < s.len() - p implies #[trigger] s.skip(p)[k] == t.skip(
                p - i + j,
            )[k] by {
                assert(s[p + k] == t[p + k - i + j]);
            }
        }
    }
    assert(s.skip(i + 1) == t.skip(j + 1));
    lemma_span_suffix(s, i + 1, t, j + 1, Run::Until('"'));
    lemma_span_suffix(s, i + 1, t, j + 1, Run::Until('\''));
    lemma_span_suffix(s, i + 1, t, j + 1, Run::Ident);
    lemma_span_suffix(s, i + 1, t, j + 1, Run::Digits(10));
    lemma_span_bound(s, i + 1, Run::Digits(10));
    if m >= 2 {
        assert(s.skip(i + 2) == t.skip(j + 2));
        lemma_span_suffix(s, i + 2, t, j + 2, Run::Until('\n'));
        lemma_span_suffix(s, i + 2, t, j + 2, Run::Digits(16));
        lemma_span_suffix(s, i + 2, t, j + 2, Run::Digits(2));
    }
    if m >= 3 {
        assert(s.skip(i + 3) == t.skip(j + 3));
        lemma_block_suffix(s, i + 3, t, j + 3);
    }
    let n = 1 + span(s, i + 1, Run::Digits(10));
    if n + 1 <= m {
        assert(s.skip(i + n + 1) == t.skip(j + n + 1));
        lemma_span_suffix(s, i + n + 1, t, j + n + 1, Run::Digits(10));
    }
    lemma_step_bounds(s, i);
}

/// A scan of `p + b` from where `b` begins makes the tokens a scan of `b` makes.
pub proof fn lemma_lex_suffix(p: Seq<char>, b: Seq<char>, j: int)
    requires
        0 <= j,
    ensures
        lex_from(p + b, p.len() + j).tokens == lex_from(b, j).tokens,
    decreases b.len() - j,
{
    let s = p + b;
    if j < b.len() {
        assert(s.skip(p.len() + j) =~= b.skip(j));
        lemma_step_suffix(s, p.len() + j, b, j);
        lemma_step_bounds(b, j);
        lemma_lex_suffix(p, b, step(b, j).next);
    }
}

/// Whether a block comment whose text starts at `j` is closed by `:##` within `s`.
pub open spec fn block_closed(s: Seq<char>, j: int) -> bool
    decreases s.len() - j,
{
    if j < 0 || j >= s.len() {
        false
    } else if j + 2 < s.len() && s[j] == ':' && s[j + 1] == '#' && s[j + 2] == '#' {
        true
    } else {
        block_closed(s, j + 1)
    }
}

/// Whether the string, character literal or comment that a step at `i` opens,
/// if any, is closed within `s`.
pub open spec fn step_closed(s: Seq<char>, i: int) -> bool {
    let c = s[i];
    if c == '#' && is_at(s, i + 1, '#') {
        if is_at(s, i + 2, ':') {
            block_closed(s, i + 3)
        } else {
            i + 2 + span(s, i + 2, Run::Until('\n')) < s.len()
        }
    } else if c == '"' {
        i + 1 + span(s, i + 1, Run::Until('"')) < s.len()
    } else if c == '\'' {
        i + 1 + span(s, i + 1, Run::Until('\'')) < s.len()
    } else {
        true
    }
}

/// Every step of a scan from `i` closes what it opens within `s`.
pub open spec fn closed_from(s: Seq<char>, i: int) -> bool
    decreases s.len() - i,
{
    if i < 0 || i >= s.len() {
        true
    } else {
        proof {
            lemma_step_bounds(s, i);
        }
        step_closed(s, i) && closed_from(s, step(s, i).next)
    }
}

/// A valid fragment: no string, character literal or comment of it runs to
/// its end unclosed.
pub open spec fn closed(s: Seq<char>) -> bool {
    closed_from(s, 0)
}

pub proof fn lemma_span_prefix(a: Seq<char>, t: Seq<char>, j: int, r: Run)
    requires
        0 <= j <= a.len(),
        j + span(a, j, r) < a.len() || (t.len() > 0 && !crate::lexer::in_run(t[0], r)),
    ensures
        span(a + t, j, r) == span(a, j, r),
    decreases a.len() - j,
{
    if j < a.len() {
        assert((a + t)[j] == a[j]);
        if crate::lexer::in_run(a[j], r) {
            lemma_span_prefix(a, t, j + 1, r);
        }
    } else {
        assert((a + t)[j] == t[0]);
    }
}

pub proof fn lemma_block_prefix(a: Seq<char>, t: Seq<char>, j: int)
    requires
        0 <= j,
        block_closed(a, j),
    ensures
        j + 2 < a.len(),
        block_len(a + t, j) == block_len(a, j),
    decreases a.len() - j,
{
    if !(j + 2 < a.len() && a[j] == ':' && a[j + 1] == '#' && a[j + 2] == '#') {
        lemma_block_prefix(a, t, j + 1);
    }
    assert((a + t)[j] == a[j]);
    assert((a + t)[j + 1] == a[j + 1]);
    assert((a + t)[j + 2] == a[j + 2]);
}

/// Whitespace ends every run but those of `Until`.
pub proof fn lemma_whitespace_stops(c: char)
    requires
        is_whitespace(c),
    ensures
        !crate::lexer::in_run(c, Run::Ident),
        !crate::lexer::in_run(c, Run::Digits(10)),
        !crate::lexer::in_run(c, Run::Digits(16)),
        !crate::lexer::in_run(c, Run::Digits(2)),
        c != '=' && c != '>' && c != ':' && c != '#' && c != '.' && c != 'x' && c != 'b',
        !crate::chars::is_digit(c, 10) && !crate::chars::is_digit(c, 16) && !crate::chars::is_digit(c, 2),
{
}

/// A step whose literal or comment closes within `a` does the same when text
/// that starts with whitespace follows `a`.
#[verifier::spinoff_prover]
#[verifier::rlimit(40)]
pub proof fn lemma_step_prefix(a: Seq<char>, t: Seq<char>, i: int)
    requires
        0 <= i < a.len(),
        step_closed(a, i),
        t.len() > 0,
        is_whitespace(t[0]),
    ensures
        step(a + t, i).token == step(a, i).token,
        step(a + t, i).next == step(a, i).next,
{
    let s = a + t;
    lemma_whitespace_stops(t[0]);
    assert(s[a.len() as int] == t[0]);
    assert(forall|k: int| 0 <= k < a.len() ==> #[trigger] s[k] == a[k]);
    assert forall|x: int, y: int| 0 <= x <= y <= a.len() implies #[trigger] s.subrange(x, y)
        == a.subrange(x, y) by {
        assert(s.subrange(x, y) =~= a.subrange(x, y));
    }
    let c = a[i];
    lemma_span_prefix(a, t, i + 1, Run::Ident);
    lemma_span_prefix(a, t, i + 1, Run::Digits(10));
    lemma_span_bound(a, i + 1, Run::Digits(10));
    if i + 2 <= a.len() {
        lemma_span_prefix(a, t, i + 2, Run::Digits(16));
        lemma_span_prefix(a, t, i + 2, Run::Digits(2));
    }
    let n = 1 + span(a, i + 1, Run::Digits(10));
    if i + n + 1 <= a.len() {
        lemma_span_prefix(a, t, i + n + 1, Run::Digits(10));
    }
    if c == '#' && is_at(a, i + 1, '#') {
        if is_at(a, i + 2, ':') {
            lemma_block_prefix(a, t, i + 3);
        } else {
            lemma_span_prefix(a, t, i + 2, Run::Until('\n'));
        }
    } else if c == '"' {
        lemma_span_prefix(a, t, i + 1, Run::Until('"'));
    } else if c == '\'' {
        lemma_span_prefix(a, t, i + 1, Run::Until('\''));
    }
    lemma_step_bounds(a, i);
}

/// Scanning `a + t` over the part `a` makes the tokens of `a` but its `EOF`.
pub proof fn lemma_lex_prefix(a: Seq<char>, t: Seq<char>, i: int)
    requires
        0 <= i <= a.len(),
        closed_from(a, i),
        t.len() > 0,
        is_whitespace(t[0]),
    ensures
        lex_from(a + t, i).tokens == lex_from(a, i).tokens.drop_last() + lex_from(
            a + t,
            a.len() as int,
        ).tokens,
    decreases a.len() - i,
{
    if i < a.len() {
        lemma_step_bounds(a, i);
        lemma_step_prefix(a, t, i);
        let st = step(a, i);
        lemma_lex_prefix(a, t, st.next);
        lemma_eof_once_from(a, st.next);
        let head = option_seq(st.token);
        let rest = lex_from(a, st.next).tokens;
        assert((head + rest).drop_last() =~= head + rest.drop_last());
        assert(head + (rest.drop_last() + lex_from(a + t, a.len() as int).tokens) =~= (head
            + rest.drop_last()) + lex_from(a + t, a.len() as int).tokens);
    } else {
        assert(lex_from(a, i).tokens.drop_last() =~= Seq::<crate::token::TokenModel>::empty());
        assert(lex_from(a + t, i).tokens =~= Seq::<crate::token::TokenModel>::empty() + lex_from(
            a + t,
            a.len() as int,
        ).tokens);
    }
}

/// Skipping a run of whitespace makes no token.
pub proof fn lemma_blank_run(s: Seq<char>, i: int, e: int)
    requires
        0 <= i <= e <= s.len(),
        forall|k: int| i <= k < e ==> is_whitespace(#[trigger] s[k]),
    ensures
        lex_from(s, i).tokens == lex_from(s, e).tokens,
    decreases e - i,
{
    if i < e {
        assert(is_whitespace(s[i]));
        lemma_blank_run(s, i + 1, e);
        assert(lex_from(s, i).tokens =~= lex_from(s, i + 1).tokens);
    }
}

/// Lexing is compositional over whitespace: scanning two fragments joined by
/// whitespace makes the tokens of the first, without its `EOF`, followed by
/// the tokens of the second. The first fragment must be valid: none of its
/// strings, character literals or comments may run unclosed to its end.
pub proof fn lemma_compose(a: Seq<char>, w: Seq<char>, b: Seq<char>)
    requires
        closed(a),
        w.len() > 0,
        forall|k: int| 0 <= k < w.len() ==> is_whitespace(#[trigger] w[k]),
    ensures
        lex(a + w + b).tokens == lex(a).tokens.drop_last() + lex(b).tokens,
{
    let s = a + w + b;
    assert(s =~= a + (w + b));
    assert((w + b)[0] == w[0]);
    lemma_lex_prefix(a, w + b, 0);
    assert forall|k: int| a.len() <= k < a.len() + w.len() implies is_whitespace(#[trigger] s[k]) by {
        assert(s[k] == w[k - a.len()]);
    }
    lemma_blank_run(s, a.len() as int, (a.len() + w.len()) as int);
    lemma_lex_suffix(a + w, b, 0);
}

/// A run that covers exactly `[j, e)`.
pub proof fn lemma_span_exact(s: Seq<char>, j: int, e: int, r: Run)
    requires
        0 <= j <= e <= s.len(),
        forall|k: int| j <= k < e ==> crate::lexer::in_run(#[trigger] s[k], r),
        e == s.len() || !crate::lexer::in_run(s[e], r),
    ensures
        span(s, j, r) == e - j,
    decreases e - j,
{
    if j < e {
        assert(crate::lexer::in_run(s[j], r));
        lemma_span_exact(s, j + 1, e, r);
    }
}

/// A word followed by nothing but whitespace makes its own token, then `EOF`.
pub proof fn lemma_word_alone(word: Seq<char>, w: Seq<char>)
    requires
        word.len() > 0,
        is_ident_start(word[0]),
        forall|k: int| 1 <= k < word.len() ==> is_ident_continue(#[trigger] word[k]),
        forall|k: int| 0 <= k < w.len() ==> is_whitespace(#[trigger] w[k]),
    ensures
        lex(word + w).tokens == seq![word_token(word), eof_token()],
{
    let u = word + w;
    assert forall|k: int| 1 <= k < word.len() implies crate::lexer::in_run(#[trigger] u[k], Run::Ident) by {
        assert(u[k] == word[k]);
    }
    if w.len() > 0 {
        assert(u[word.len() as int] == w[0]);
        lemma_whitespace_stops(w[0]);
    }
    lemma_span_exact(u, 1, word.len() as int, Run::Ident);
    assert(u[0] == word[0]);
    assert(u.subrange(0, word.len() as int) =~= word);
    assert(step(u, 0).token == Some(word_token(word)));
    assert(step(u, 0).next == word.len());
    assert forall|k: int| word.len() <= k < u.len() implies is_whitespace(#[trigger] u[k]) by {
        assert(u[k] == w[k - word.len()]);
    }
    lemma_blank_from(u, word.len() as int);
    assert(lex(u).tokens =~= seq![word_token(word), eof_token()]);
}

/// `true`, `false` and `none`, between any whitespace, each lex to one token
/// carrying `Boolean(true)`, `Boolean(false)` or the none value, then `EOF`.
pub proof fn lemma_literal_keywords(w1: Seq<char>, word: Seq<char>, w2: Seq<char>)
    requires
        forall|k: int| 0 <= k < w1.len() ==> is_whitespace(#[trigger] w1[k]),
        forall|k: int| 0 <= k < w2.len() ==> is_whitespace(#[trigger] w2[k]),
        word == seq!['t', 'r', 'u', 'e'] || word == seq!['f', 'a', 'l', 's', 'e'] || word == seq![
            'n',
            'o',
            'n',
            'e',
        ],
    ensures
        word == seq!['t', 'r', 'u', 'e'] ==> lex(w1 + word + w2).tokens == seq![
            TokenModel { syntax: Syntax::Boolean, value: Some(ValueModel::Boolean(true)) },
            eof_token(),
        ],
        word == seq!['f', 'a', 'l', 's', 'e'] ==> lex(w1 + word + w2).tokens == seq![
            TokenModel { syntax: Syntax::Boolean, value: Some(ValueModel::Boolean(false)) },
            eof_token(),
        ],
        word == seq!['n', 'o', 'n', 'e'] ==> lex(w1 + word + w2).tokens == seq![
            TokenModel { syntax: Syntax::NoneLiteral, value: Some(ValueModel::NoneValue) },
            eof_token(),
        ],
{
    let s = w1 + word + w2;
    assert(s =~= w1 + (word + w2));
    assert forall|k: int| 0 <= k < w1.len() implies is_whitespace(#[trigger] s[k]) by {
        assert(s[k] == w1[k]);
    }
    lemma_blank_run(s, 0, w1.len() as int);
    lemma_lex_suffix(w1, word + w2, 0);
    lemma_word_alone(word, w2);
    reveal_with_fuel(lookup, 4);
}

/// A character that begins no token, no comment and no skipped run.
pub open spec fn unrecognized(c: char) -> bool {
    &&& !is_whitespace(c)
    &&& c != ';' && c != '#' && c != ':' && c != '"' && c != '\''
    &&& compound(c) is None
    &&& single(c) is None
    &&& !is_digit(c, 10)
    &&& !is_ident_start(c)
}

/// An unrecognized character makes no token and one report of its offset and
/// line; the scan then goes on with the next character.
pub proof fn lemma_unrecognized_skipped(s: Seq<char>, i: int)
    requires
        0 <= i < s.len(),
        unrecognized(s[i]),
    ensures
        lex_from(s, i).tokens == lex_from(s, i + 1).tokens,
        lex_from(s, i).reports == seq![
            Diagnostic {
                kind: ErrorKind::UnexpectedCharacter(s[i]),
                offset: i as usize,
                line: line_at(s, i) as usize,
            },
        ] + lex_from(s, i + 1).reports,
{
    assert(lex_from(s, i).tokens =~= lex_from(s, i + 1).tokens);
}

/// No newline in `[i, e)` leaves the newline count unchanged.
pub proof fn lemma_newlines_flat(s: Seq<char>, i: int, e: int)
    requires
        0 <= i <= e <= s.len(),
        forall|k: int| i <= k < e ==> #[trigger] s[k] != '\n',
    ensures
        newlines(s, e) == newlines(s, i),
    decreases e - i,
{
    if i < e {
        lemma_newlines_flat(s, i, e - 1);
    }
}

/// A line comment makes no token and no report: the scan resumes at the
/// newline that ends it, or at the end of the text, and past that newline the
/// line count is one more than where the comment began.
pub proof fn lemma_line_comment(s: Seq<char>, i: int)
    requires
        0 <= i,
        i + 1 < s.len(),
        s[i] == '#',
        s[i + 1] == '#',
        !is_at(s, i + 2, ':'),
    ensures
        ({
            let e = i + 2 + span(s, i + 2, Run::Until('\n'));
            &&& lex_from(s, i) == lex_from(s, e)
            &&& e < s.len() ==> s[e] == '\n' && line_at(s, e + 1) == line_at(s, i) + 1
        }),
{
    let e = i + 2 + span(s, i + 2, Run::Until('\n'));
    lemma_span_bound(s, i + 2, Run::Until('\n'));
    assert(lex_from(s, i).tokens =~= lex_from(s, e).tokens);
    assert(lex_from(s, i).reports =~= lex_from(s, e).reports);
    if e < s.len() {
        assert forall|k: int| i <= k < e implies #[trigger] s[k] != '\n' by {
            if k >= i + 2 {
                assert(crate::lexer::in_run(s[k], Run::Until('\n')));
            }
        }
        lemma_newlines_flat(s, i, e);
    }
}

/// A block comment makes no token and no report: the scan resumes just after
/// the `:##` that closes it, or at the end of the text.
pub proof fn lemma_block_comment(s: Seq<char>, i: int)
    requires
        0 <= i,
        i + 2 < s.len(),
        s[i] == '#',
        s[i + 1] == '#',
        s[i + 2] == ':',
    ensures
        lex_from(s, i) == lex_from(s, i + 3 + block_len(s, i + 3)),
        block_closed(s, i + 3) ==> s[i + 2 + block_len(s, i + 3)] == '#' && s[i + 1 + block_len(
            s,
            i + 3,
        )] == '#' && s[i + block_len(s, i + 3)] == ':',
{
    let e = i + 3 + block_len(s, i + 3);
    assert(lex_from(s, i).tokens =~= lex_from(s, e).tokens);
    assert(lex_from(s, i).reports =~= lex_from(s, e).reports);
    if block_closed(s, i + 3) {
        lemma_block_end(s, i + 3);
    }
}

/// A closed block comment ends with its `:##`.
pub proof fn lemma_block_end(s: Seq<char>, j: int)
    requires
        block_closed(s, j),
    ensures
        block_len(s, j) >= 3,
        s[j + block_len(s, j) - 3] == ':',
        s[j + block_len(s, j) - 2] == '#',
        s[j + block_len(s, j) - 1] == '#',
    decreases s.len() - j,
{
    if !(j + 2 < s.len() && s[j] == ':' && s[j + 1] == '#' && s[j + 2] == '#') {
        lemma_block_end(s, j + 1);
    }
}

/// Every report of a scan from `i` names an offset within the text and, as
/// its line, one more than the number of newlines before that offset.
pub proof fn lemma_report_lines_from(s: Seq<char>, i: int)
    requires
        0 <= i,
    ensures
        forall|k: int|
            0 <= k < lex_from(s, i).reports.len() ==> exists|off: int|
                i <= off < s.len() && (#[trigger] lex_from(s, i).reports[k]).offset == off as usize
                    && lex_from(s, i).reports[k].line == line_at(s, off) as usize,
    decreases s.len() - i,
{
    if i < s.len() {
        lemma_step_bounds(s, i);
        let st = step(s, i);
        lemma_report_lines_from(s, st.next);
        let head = option_seq(crate::lexer::report_of(s, st.error));
        let rest = lex_from(s, st.next).reports;
        lemma_span_bound(s, i + 1, Run::Until('\''));
        assert forall|k: int| 0 <= k < lex_from(s, i).reports.len() implies exists|off: int|
            i <= off < s.len() && (#[trigger] lex_from(s, i).reports[k]).offset == off as usize
                && lex_from(s, i).reports[k].line == line_at(s, off) as usize by {
            if k < head.len() {
                let pair = st.error->0;
                let off = pair.1;
                assert(lex_from(s, i).reports[k] == head[k]);
                assert(i <= off < s.len());
            } else {
                assert(lex_from(s, i).reports[k] == rest[k - head.len()]);
            }
        }
    }
}

/// Every report of a scan carries the line of its offset: one more than the
/// number of newlines before it, however many comments or literals span lines.
pub proof fn lemma_report_lines(s: Seq<char>)
    ensures
        forall|k: int|
            0 <= k < lex(s).reports.len() ==> exists|off: int|
                0 <= off < s.len() && (#[trigger] lex(s).reports[k]).offset == off as usize
                    && lex(s).reports[k].line == line_at(s, off) as usize,
{
    lemma_report_lines_from(s, 0);
}

/// The kind of the two-character operator `a b`, if it is one.
pub open spec fn two_char_kind(a: char, b: char) -> Option<Syntax> {
    if a == '-' && b == '>' {
        Some(Syntax::HyphenArrow)
    } else if a == ':' && b == ':' {
        Some(Syntax::ColonColon)
    } else if b == '=' && compound(a) is Some {
        let pair = compound(a)->0;
        Some(pair.1)
    } else {
        None
    }
}

/// A two-character operator makes one compound token, never two tokens of one
/// character; the scan resumes after its second character.
pub proof fn lemma_two_char_operator(s: Seq<char>, i: int)
    requires
        0 <= i,
        i + 1 < s.len(),
        two_char_kind(s[i], s[i + 1]) is Some,
    ensures
        lex_from(s, i).tokens == seq![
            TokenModel { syntax: two_char_kind(s[i], s[i + 1])->0, value: None },
        ] + lex_from(s, i + 2).tokens,
        lex_from(s, i).reports == lex_from(s, i + 2).reports,
{
    assert(lex_from(s, i).reports =~= lex_from(s, i + 2).reports);
}

} // verus!
