use vstd::prelude::*;
use vstd::string::StrSliceExecFns;
use crate::syntax::Syntax;
use crate::token::{PossibleTokenValue, ValueModel};

verus! {

/// The reserved words and their kinds.
pub open spec fn keyword_entries() -> Seq<(Seq<char>, Syntax)> {
    seq![
        (seq!['t', 'r', 'u', 'e'], Syntax::Boolean),
        (seq!['f', 'a', 'l', 's', 'e'], Syntax::Boolean),
        (seq!['n', 'o', 'n', 'e'], Syntax::NoneLiteral),
        (seq!['f', 'n'], Syntax::Function),
        (seq!['i', 'f'], Syntax::If),
        (seq!['e', 'l', 's', 'e'], Syntax::Else),
        (seq!['f', 'o', 'r'], Syntax::For),
        (seq!['f', 'o', 'r', 'e', 'a', 'c', 'h'], Syntax::ForEach),
        (seq!['w', 'h', 'i', 'l', 'e'], Syntax::While),
        (seq!['b', 'r', 'e', 'a', 'k'], Syntax::Break),
        (seq!['n', 'e', 'x', 't'], Syntax::Next),
        (seq!['m', 'a', 't', 'c', 'h'], Syntax::Match),
        (seq!['g', 'l', 'o', 'b', 'a', 'l'], Syntax::Global),
        (seq!['c', 'o', 'n', 's', 't'], Syntax::Constant),
    ]
}

/// The built-in type names and their kinds.
pub open spec fn type_entries() -> Seq<(Seq<char>, Syntax)> {
    seq![
        (seq!['b', 'o', 'o', 'l'], Syntax::BooleanType),
        (seq!['s', 't', 'r', 'i', 'n', 'g'], Syntax::StringType),
        (seq!['c', 'h', 'a', 'r'], Syntax::CharType),
        (seq!['f', 'l', 'o', 'a', 't'], Syntax::FloatType),
        (seq!['v', 'o', 'i', 'd'], Syntax::VoidType),
        (seq!['n', 'o', 'n', 'e'], Syntax::NoneType),
    ]
}

/// The kind of the first entry whose text is `t`, if any.
pub open spec fn lookup(table: Seq<(Seq<char>, Syntax)>, t: Seq<char>) -> Option<Syntax>
    decreases table.len(),
{
    if table.len() == 0 {
        None
    } else if table[0].0 == t {
        Some(table[0].1)
    } else {
        lookup(table.drop_first(), t)
    }
}

pub open spec fn keyword_syntax(t: Seq<char>) -> Option<Syntax> {
    lookup(keyword_entries(), t)
}

pub open spec fn type_syntax(t: Seq<char>) -> Option<Syntax> {
    lookup(type_entries(), t)
}

/// The value a literal keyword stands for.
pub open spec fn keyword_value(t: Seq<char>) -> Option<ValueModel> {
    if t == seq!['t', 'r', 'u', 'e'] {
        Some(ValueModel::Boolean(true))
    } else if t == seq!['f', 'a', 'l', 's', 'e'] {
        Some(ValueModel::Boolean(false))
    } else if t == seq!['n', 'o', 'n', 'e'] {
        Some(ValueModel::NoneValue)
    } else {
        None
    }
}

/// The entries of an executable table, as text and kind.
pub open spec fn entries_of(table: Seq<(&'static str, Syntax)>) -> Seq<(Seq<char>, Syntax)> {
    table.map_values(|e: (&'static str, Syntax)| (e.0@, e.1))
}

/// Whether two strings hold the same characters.
pub fn same_text(a: &str, b: &str) -> (r: bool)
    ensures
        r == (a@ == b@),
{
    let n = a.unicode_len();
    if n != b.unicode_len() {
        return false;
    }
    let mut i: usize = 0;
    while i < n
        invariant
            n == a@.len() == b@.len(),
            i <= n,
            a@.take(i as int) == b@.take(i as int),
        decreases n - i,
    {
        if a.get_char(i) != b.get_char(i) {
            return false;
        }
        assert(a@.take(i + 1) =~= a@.take(i as int).push(a@[i as int]));
        assert(b@.take(i + 1) =~= b@.take(i as int).push(b@[i as int]));
        i = i + 1;
    }
    assert(a@ =~= a@.take(n as int));
    assert(b@ =~= b@.take(n as int));
    true
}

/// Looks `s` up in an executable table.
fn find(table: &Vec<(&'static str, Syntax)>, s: &str) -> (r: Option<Syntax>)
    ensures
        r == lookup(entries_of(table@), s@),
{
    let mut i: usize = 0;
    assert(entries_of(table@).skip(0) =~= entries_of(table@));
    while i < table.len()
        invariant
            i <= table@.len(),
            lookup(entries_of(table@), s@) == lookup(entries_of(table@).skip(i as int), s@),
        decreases table@.len() - i,
    {
        let (key, syntax) = table[i];
        assert(entries_of(table@).skip(i as int)[0] == (key@, syntax));
        if same_text(key, s) {
            return Some(syntax);
        }
        assert(entries_of(table@).skip(i as int).drop_first() =~= entries_of(table@).skip(i + 1));
        i = i + 1;
    }
    None
}

pub fn get_keywords() -> (r: Vec<(&'static str, Syntax)>)
    ensures
        entries_of(r@) == keyword_entries(),
{
    let r = vec![
        ("true", Syntax::Boolean),
        ("false", Syntax::Boolean),
        ("none", Syntax::NoneLiteral),
        ("fn", Syntax::Function),
        ("if", Syntax::If),
        ("else", Syntax::Else),
        ("for", Syntax::For),
        ("foreach", Syntax::ForEach),
        ("while", Syntax::While),
        ("break", Syntax::Break),
        ("next", Syntax::Next),
        ("match", Syntax::Match),
        ("global", Syntax::Global),
        ("const", Syntax::Constant),
    ];
    proof {
        reveal_strlit("true");
        reveal_strlit("false");
        reveal_strlit("none");
        reveal_strlit("fn");
        reveal_strlit("if");
        reveal_strlit("else");
        reveal_strlit("for");
        reveal_strlit("foreach");
        reveal_strlit("while");
        reveal_strlit("break");
        reveal_strlit("next");
        reveal_strlit("match");
        reveal_strlit("global");
        reveal_strlit("const");
        assert(entries_of(r@) =~~= keyword_entries());
    }
    r
}

pub fn get_type_keywords() -> (r: Vec<(&'static str, Syntax)>)
    ensures
        entries_of(r@) == type_entries(),
{
    let r = vec![
        ("bool", Syntax::BooleanType),
        ("string", Syntax::StringType),
        ("char", Syntax::CharType),
        ("float", Syntax::FloatType),
        ("void", Syntax::VoidType),
        ("none", Syntax::NoneType),
    ];
    proof {
        reveal_strlit("bool");
        reveal_strlit("string");
        reveal_strlit("char");
        reveal_strlit("float");
        reveal_strlit("void");
        reveal_strlit("none");
        assert(entries_of(r@) =~~= type_entries());
    }
    r
}

pub fn is_type_keyword(s: &str) -> (r: bool)
    ensures
        r == type_syntax(s@).is_some(),
{
    let types = get_type_keywords();
    find(&types, s).is_some()
}

pub fn get_type_syntax(s: &str) -> (r: Syntax)
    requires
        type_syntax(s@).is_some(),
    ensures
        type_syntax(s@) == Some(r),
{
    let types = get_type_keywords();
    match find(&types, s) {
        Some(k) => k,
        None => Syntax::NoneType,
    }
}

pub fn is_keyword(s: &str) -> (r: bool)
    ensures
        r == keyword_syntax(s@).is_some(),
{
    let keywords = get_keywords();
    find(&keywords, s).is_some()
}

pub fn get_keyword_syntax(s: &str) -> (r: Syntax)
    requires
        keyword_syntax(s@).is_some(),
    ensures
        keyword_syntax(s@) == Some(r),
{
    let keywords = get_keywords();
    match find(&keywords, s) {
        Some(k) => k,
        None => Syntax::Identifier,
    }
}

pub fn get_keyword_value(s: &str) -> (r: Option<PossibleTokenValue>)
    ensures
        r matches Some(v) ==> keyword_value(s@) == Some(v@),
        r is None ==> keyword_value(s@) is None,
{
    proof {
        reveal_strlit("true");
        reveal_strlit("false");
        reveal_strlit("none");
        assert("true"@ =~= seq!['t', 'r', 'u', 'e']);
        assert("false"@ =~= seq!['f', 'a', 'l', 's', 'e']);
        assert("none"@ =~= seq!['n', 'o', 'n', 'e']);
    }
    if same_text(s, "true") {
        Some(PossibleTokenValue::Boolean(true))
    } else if same_text(s, "false") {
        Some(PossibleTokenValue::Boolean(false))
    } else if same_text(s, "none") {
        Some(PossibleTokenValue::NoneValue)
    } else {
        None
    }
}

} // verus!
