use test_lang::lexer::{tokenize, Lexer};
use test_lang::logger::{ErrorKind, Logger};
use test_lang::syntax::Syntax;
use test_lang::token::{PossibleTokenValue, Token};

fn lex(src: &str) -> (Vec<Token>, Logger) {
    tokenize(src)
}

fn kinds(src: &str) -> Vec<Syntax> {
    lex(src).0.iter().map(|t| t.syntax_type).collect()
}

fn float_of(t: &Token) -> f64 {
    match &t.value {
        Some(PossibleTokenValue::Float(n)) => match i64::from_str_radix(&n.digits, n.radix) {
            Ok(v) => v as f64,
            Err(_) => n.digits.parse::<f64>().unwrap(),
        },
        other => panic!("not a number: {:?}", other),
    }
}

fn text_of(t: &Token) -> String {
    match &t.value {
        Some(PossibleTokenValue::String(s)) => s.clone(),
        other => panic!("no text: {:?}", other),
    }
}

#[test]
fn eof_is_last_and_appears_once() {
    for src in ["", "a", "fn f(x) { x += 1 }", "\"open", "'", "##: open", "@@", "0x", "1.2.3"] {
        let k = kinds(src);
        assert_eq!(*k.last().unwrap(), Syntax::EOF, "{}", src);
        assert_eq!(k.iter().filter(|s| **s == Syntax::EOF).count(), 1, "{}", src);
    }
}

#[test]
fn whitespace_only_is_just_eof() {
    for src in ["", " ", "\t\r\n", "  \n\n \u{a0}\u{2003} "] {
        let (tokens, logger) = lex(src);
        assert_eq!(tokens.len(), 1);
        assert_eq!(tokens[0].syntax_type, Syntax::EOF);
        assert!(tokens[0].value.is_none());
        assert!(!logger.errored);
    }
}

#[test]
fn fragments_compose_over_whitespace() {
    let a = "foo += 0x1F -> bar::baz";
    let b = "if (x != 'c') { \"s\" }";
    let whole = format!("{} \n {}", a, b);
    let ta = lex(a).0;
    let tb = lex(b).0;
    let tw = lex(&whole).0;
    let mut expected: Vec<String> = ta[..ta.len() - 1].iter().map(|t| format!("{:?}", t)).collect();
    expected.extend(tb.iter().map(|t| format!("{:?}", t)));
    let got: Vec<String> = tw.iter().map(|t| format!("{:?}", t)).collect();
    assert_eq!(got, expected);
}

#[test]
fn literal_keywords_lex_to_values() {
    let (t, _) = lex("  true ");
    assert_eq!(t.len(), 2);
    assert_eq!(t[0].syntax_type, Syntax::Boolean);
    assert!(matches!(t[0].value, Some(PossibleTokenValue::Boolean(true))));
    let (t, _) = lex("false");
    assert_eq!(t.len(), 2);
    assert!(matches!(t[0].value, Some(PossibleTokenValue::Boolean(false))));
    let (t, _) = lex("\tnone\n");
    assert_eq!(t.len(), 2);
    assert_eq!(t[0].syntax_type, Syntax::NoneLiteral);
    assert!(matches!(t[0].value, Some(PossibleTokenValue::NoneValue)));
}

#[test]
fn numeric_literals() {
    let (t, _) = lex("0xFF");
    assert_eq!(t.len(), 2);
    assert_eq!(t[0].syntax_type, Syntax::Float);
    assert_eq!(float_of(&t[0]), 255.0);
    let (t, _) = lex("0b101");
    assert_eq!(t.len(), 2);
    assert_eq!(float_of(&t[0]), 5.0);
    let (t, _) = lex("3.14");
    assert_eq!(t.len(), 2);
    assert_eq!(float_of(&t[0]), 3.14);
    let (t, _) = lex("42");
    assert_eq!(float_of(&t[0]), 42.0);
    match &t[0].value {
        Some(PossibleTokenValue::Float(n)) => {
            assert_eq!(n.radix, 10);
            assert_eq!(n.digits, "42");
        }
        _ => panic!("not a number"),
    }
}

#[test]
fn malformed_prefixes_are_not_numbers_of_that_radix() {
    assert_eq!(kinds("0x"), vec![Syntax::Float, Syntax::Identifier, Syntax::EOF]);
    assert_eq!(kinds("0b2"), vec![Syntax::Float, Syntax::Identifier, Syntax::EOF]);
    assert_eq!(kinds("3."), vec![Syntax::Float, Syntax::Dot, Syntax::EOF]);
    let (t, _) = lex("1.2.3");
    assert_eq!(float_of(&t[0]), 1.2);
    assert_eq!(t[1].syntax_type, Syntax::Dot);
    assert_eq!(float_of(&t[2]), 3.0);
}

#[test]
fn char_literal_overflow() {
    let (t, logger) = lex("'ab'");
    assert!(logger.errored);
    assert_eq!(logger.reports.len(), 1);
    assert_eq!(logger.reports[0].kind, ErrorKind::CharacterOverflow);
    assert_eq!(logger.reports[0].offset, 2);
    assert_eq!(logger.reports[0].line, 1);
    let chars: Vec<&Token> = t.iter().filter(|x| x.syntax_type == Syntax::Char).collect();
    assert_eq!(chars.len(), 1);
    assert!(matches!(chars[0].value, Some(PossibleTokenValue::Char('a'))));
    assert_eq!(t.len(), 2);
}

#[test]
fn char_literal_single_and_empty() {
    let (t, logger) = lex("'é'");
    assert!(!logger.errored);
    assert!(matches!(t[0].value, Some(PossibleTokenValue::Char('é'))));
    let (t, logger) = lex("''");
    assert!(logger.errored);
    assert_eq!(logger.reports[0].kind, ErrorKind::EmptyCharacter);
    assert_eq!(t.len(), 1);
}

#[test]
fn line_comment_skips_to_newline() {
    let (t, logger) = lex("## ignored\ncode");
    assert!(!logger.errored);
    assert_eq!(t.len(), 2);
    assert_eq!(t[0].syntax_type, Syntax::Identifier);
    assert_eq!(text_of(&t[0]), "code");
    let (_, logger) = lex("## ignored\ncode @");
    assert_eq!(logger.reports.len(), 1);
    assert_eq!(logger.reports[0].line, 2);
    assert_eq!(logger.reports[0].offset, 16);
}

#[test]
fn block_comment_skips_and_counts_lines() {
    let (t, logger) = lex("##: spans\nmultiple lines :##tail");
    assert!(!logger.errored);
    assert_eq!(t.len(), 2);
    assert_eq!(text_of(&t[0]), "tail");
    let (_, logger) = lex("##: spans\nmultiple lines :##tail @");
    assert_eq!(logger.reports[0].line, 2);
    assert_eq!(logger.reports[0].offset, 33);
    assert_eq!(kinds("##: never closed\n x"), vec![Syntax::EOF]);
}

#[test]
fn compound_operators_are_single_tokens() {
    let cases = [
        ("+=", Syntax::PlusEqual),
        ("-=", Syntax::MinusEqual),
        ("->", Syntax::HyphenArrow),
        ("::", Syntax::ColonColon),
        ("!=", Syntax::BangEqual),
        ("==", Syntax::EqualEqual),
        ("<=", Syntax::LessEqual),
        (">=", Syntax::GreaterEqual),
        ("|=", Syntax::PipeEqual),
        ("*=", Syntax::StarEqual),
        ("/=", Syntax::SlashEqual),
        ("^=", Syntax::CaratEqual),
        ("%=", Syntax::PercentEqual),
    ];
    for (src, kind) in cases {
        assert_eq!(kinds(src), vec![kind, Syntax::EOF], "{}", src);
    }
}

#[test]
fn single_operators_and_punctuation() {
    assert_eq!(
        kinds(". { } [ ] ( ) , & + - * / ^ % | ! = < > : #"),
        vec![
            Syntax::Dot,
            Syntax::LeftBrace,
            Syntax::RightBrace,
            Syntax::LeftBracket,
            Syntax::RightBracket,
            Syntax::LeftParen,
            Syntax::RightParen,
            Syntax::Comma,
            Syntax::Ampersand,
            Syntax::Plus,
            Syntax::Minus,
            Syntax::Star,
            Syntax::Slash,
            Syntax::Carat,
            Syntax::Percent,
            Syntax::Pipe,
            Syntax::Bang,
            Syntax::Equal,
            Syntax::Less,
            Syntax::Greater,
            Syntax::Colon,
            Syntax::Hashtag,
            Syntax::EOF,
        ]
    );
    assert_eq!(kinds("&="), vec![Syntax::Ampersand, Syntax::Equal, Syntax::EOF]);
    assert_eq!(kinds("-->"), vec![Syntax::Minus, Syntax::HyphenArrow, Syntax::EOF]);
}

#[test]
fn unexpected_character_is_reported_and_skipped() {
    let (t, logger) = lex("a @ b\n~c");
    assert!(logger.errored);
    assert_eq!(logger.reports.len(), 2);
    assert_eq!(logger.reports[0].kind, ErrorKind::UnexpectedCharacter('@'));
    assert_eq!(logger.reports[0].offset, 2);
    assert_eq!(logger.reports[0].line, 1);
    assert_eq!(logger.reports[1].kind, ErrorKind::UnexpectedCharacter('~'));
    assert_eq!(logger.reports[1].offset, 6);
    assert_eq!(logger.reports[1].line, 2);
    let names: Vec<String> = t[..t.len() - 1].iter().map(text_of).collect();
    assert_eq!(names, vec!["a", "b", "c"]);
}

#[test]
fn identifiers_keywords_and_types() {
    let (t, _) = lex("fn $x_1 float foreach _y;");
    assert_eq!(
        t.iter().map(|x| x.syntax_type).collect::<Vec<_>>(),
        vec![
            Syntax::Function,
            Syntax::Identifier,
            Syntax::FloatType,
            Syntax::ForEach,
            Syntax::Identifier,
            Syntax::EOF
        ]
    );
    assert!(t[0].value.is_none());
    assert_eq!(text_of(&t[1]), "$x_1");
    assert!(matches!(&t[2].value, Some(PossibleTokenValue::Type(s)) if s == "float"));
    assert_eq!(text_of(&t[4]), "_y");
}

#[test]
fn strings_keep_their_text() {
    let (t, logger) = lex("\"a b ## c\" x");
    assert!(!logger.errored);
    assert_eq!(t[0].syntax_type, Syntax::String);
    assert_eq!(text_of(&t[0]), "a b ## c");
    assert_eq!(text_of(&t[1]), "x");
    let (t, logger) = lex("\"open to the end");
    assert!(!logger.errored);
    assert_eq!(t.len(), 2);
    assert_eq!(text_of(&t[0]), "open to the end");
}

#[test]
fn semicolons_are_dropped() {
    assert_eq!(kinds("a;b"), vec![Syntax::Identifier, Syntax::Identifier, Syntax::EOF]);
    assert_eq!(kinds(";;;"), vec![Syntax::EOF]);
}

#[test]
fn lexer_method_matches_free_function() {
    let src = "x = 'q' ## trailing";
    let mut lexer = Lexer::new(src);
    let from_method: Vec<String> = lexer.tokenize().iter().map(|t| format!("{:?}", t)).collect();
    assert!(!lexer.logger.errored);
    let from_fn: Vec<String> = lex(src).0.iter().map(|t| format!("{:?}", t)).collect();
    assert_eq!(from_method, from_fn);
    assert_eq!(from_fn.len(), 4);
}

#[test]
fn parser_keeps_the_token_stream() {
    let parser = test_lang::parser::Parser::new("x += 1 @");
    parser.parse();
    assert!(!parser.logger.errored);
    assert!(parser.logger.reports.is_empty());
}

#[test]
fn composition_with_comments_and_newlines() {
    let a = "## note\nfoo(1, 2) ##: block :## 'z'";
    let b = "bar ## trailing";
    let whole = format!("{}\n\t{}", a, b);
    let ta = lex(a).0;
    let tb = lex(b).0;
    let mut expected: Vec<String> = ta[..ta.len() - 1].iter().map(|t| format!("{:?}", t)).collect();
    expected.extend(tb.iter().map(|t| format!("{:?}", t)));
    let got: Vec<String> = lex(&whole).0.iter().map(|t| format!("{:?}", t)).collect();
    assert_eq!(got, expected);
}

#[test]
fn literal_keywords_between_any_whitespace() {
    for (src, expected) in [("\n\ttrue\r\n", "Boolean(true)"), ("\u{a0}false", "Boolean(false)"), ("none  \n", "NoneValue")] {
        let (t, logger) = lex(src);
        assert!(!logger.errored);
        assert_eq!(t.len(), 2);
        assert_eq!(format!("{:?}", t[0].value.as_ref().unwrap()), expected);
    }
}

#[test]
fn unrecognized_characters_each_reported() {
    let (t, logger) = lex("@`é~");
    assert_eq!(t.len(), 1);
    let offsets: Vec<usize> = logger.reports.iter().map(|d| d.offset).collect();
    assert_eq!(offsets, vec![0, 1, 2, 3]);
    assert_eq!(logger.reports[2].kind, ErrorKind::UnexpectedCharacter('é'));
}

#[test]
fn line_numbers_count_newlines_inside_literals() {
    let (_, logger) = lex("\"a\nb\"\n'x\ny' @");
    assert_eq!(logger.reports.len(), 2);
    assert_eq!(logger.reports[0].kind, ErrorKind::CharacterOverflow);
    assert_eq!(logger.reports[0].line, 3);
    assert_eq!(logger.reports[1].offset, 12);
    assert_eq!(logger.reports[1].line, 4);
}
