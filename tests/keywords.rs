use test_lang::keywords::{
    get_keyword_syntax, get_keyword_value, get_keywords, get_type_keywords, get_type_syntax,
    is_keyword, is_type_keyword, same_text,
};
use test_lang::logger::{ErrorKind, Logger};
use test_lang::syntax::Syntax;
use test_lang::token::PossibleTokenValue;

#[test]
fn keyword_table_holds_the_reserved_words() {
    let table = get_keywords();
    let words: Vec<&str> = table.iter().map(|e| e.0).collect();
    assert_eq!(
        words,
        vec![
            "true", "false", "none", "fn", "if", "else", "for", "foreach", "while", "break",
            "next", "match", "global", "const"
        ]
    );
    assert_eq!(table[7].1, Syntax::ForEach);
}

#[test]
fn type_table_holds_the_type_names() {
    let table = get_type_keywords();
    let words: Vec<&str> = table.iter().map(|e| e.0).collect();
    assert_eq!(words, vec!["bool", "string", "char", "float", "void", "none"]);
    assert_eq!(table[0].1, Syntax::BooleanType);
}

#[test]
fn keyword_lookup() {
    assert!(is_keyword("fn"));
    assert!(is_keyword("foreach"));
    assert!(!is_keyword("fo"));
    assert!(!is_keyword("bool"));
    assert!(!is_keyword(""));
    assert_eq!(get_keyword_syntax("while"), Syntax::While);
    assert_eq!(get_keyword_syntax("const"), Syntax::Constant);
    assert_eq!(get_keyword_syntax("none"), Syntax::NoneLiteral);
    assert_eq!(get_keyword_syntax("false"), Syntax::Boolean);
}

#[test]
fn type_keyword_lookup() {
    assert!(is_type_keyword("string"));
    assert!(is_type_keyword("none"));
    assert!(!is_type_keyword("str"));
    assert_eq!(get_type_syntax("void"), Syntax::VoidType);
    assert_eq!(get_type_syntax("float"), Syntax::FloatType);
    assert_eq!(get_type_syntax("none"), Syntax::NoneType);
}

#[test]
fn keyword_values() {
    assert!(matches!(get_keyword_value("true"), Some(PossibleTokenValue::Boolean(true))));
    assert!(matches!(get_keyword_value("false"), Some(PossibleTokenValue::Boolean(false))));
    assert!(matches!(get_keyword_value("none"), Some(PossibleTokenValue::NoneValue)));
    assert!(get_keyword_value("if").is_none());
    assert!(get_keyword_value("True").is_none());
}

#[test]
fn text_comparison() {
    assert!(same_text("abc", "abc"));
    assert!(!same_text("abc", "abd"));
    assert!(!same_text("abc", "ab"));
    assert!(same_text("", ""));
    assert!(same_text("héé", "héé"));
}

#[test]
fn logger_records_and_flags() {
    let mut logger = Logger::new();
    assert!(!logger.errored);
    assert!(logger.reports.is_empty());
    logger.report_error(ErrorKind::CharacterOverflow, 4, 2);
    logger.report_error(ErrorKind::UnexpectedCharacter('@'), 9, 3);
    assert!(logger.errored);
    assert_eq!(logger.reports.len(), 2);
    assert_eq!(logger.reports[0].kind, ErrorKind::CharacterOverflow);
    assert_eq!(logger.reports[0].offset, 4);
    assert_eq!(logger.reports[0].line, 2);
    assert_eq!(logger.reports[1].kind, ErrorKind::UnexpectedCharacter('@'));
    assert_eq!(ErrorKind::CharacterOverflow.title(), "Character overflow");
    assert_eq!(ErrorKind::UnexpectedCharacter('x').title(), "Unexpected character");
}
