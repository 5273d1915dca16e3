use clox::chunk::Chunk;
use clox::compiler::compile;
use clox::scanner::{EOFToken, ErrorToken, ScanResult, Scanner, TokenType};
use clox::vm::{InterpretResult, VM};

fn kinds_and_lexemes(source: &str) -> Vec<(TokenType, String, i32)> {
    compile(source)
        .unwrap()
        .iter()
        .map(|t| (t.kind, t.get_lexeme(), t.line))
        .collect()
}

#[test]
fn scans_a_declaration() {
    let toks = kinds_and_lexemes("var x = 1.5;");
    assert_eq!(
        toks,
        vec![
            (TokenType::Var, "var".to_string(), 1),
            (TokenType::Identifier, "x".to_string(), 1),
            (TokenType::Equal, "=".to_string(), 1),
            (TokenType::Number, "1.5".to_string(), 1),
            (TokenType::Semicolon, ";".to_string(), 1),
        ]
    );
}

#[test]
fn keywords_need_the_whole_word() {
    let toks = kinds_and_lexemes("and android nil nilly fun fund this true tr f t _x");
    let kinds: Vec<TokenType> = toks.iter().map(|t| t.0).collect();
    assert_eq!(
        kinds,
        vec![
            TokenType::And,
            TokenType::Identifier,
            TokenType::Nil,
            TokenType::Identifier,
            TokenType::Fun,
            TokenType::Identifier,
            TokenType::This,
            TokenType::True,
            TokenType::Identifier,
            TokenType::Identifier,
            TokenType::Identifier,
            TokenType::Identifier,
        ]
    );
}

#[test]
fn every_keyword() {
    let source = "and class else false for fun if nil or print return super this true var while";
    let kinds: Vec<TokenType> = kinds_and_lexemes(source).iter().map(|t| t.0).collect();
    assert_eq!(
        kinds,
        vec![
            TokenType::And,
            TokenType::Class,
            TokenType::Else,
            TokenType::False,
            TokenType::For,
            TokenType::Fun,
            TokenType::If,
            TokenType::Nil,
            TokenType::Or,
            TokenType::Print,
            TokenType::Return,
            TokenType::Super,
            TokenType::This,
            TokenType::True,
            TokenType::Var,
            TokenType::While,
        ]
    );
}

#[test]
fn one_and_two_character_operators() {
    let kinds: Vec<TokenType> = kinds_and_lexemes("(){};,.-+/* ! != = == < <= > >=")
        .iter()
        .map(|t| t.0)
        .collect();
    assert_eq!(
        kinds,
        vec![
            TokenType::LeftParen,
            TokenType::RightParen,
            TokenType::LeftBrace,
            TokenType::RightBrace,
            TokenType::Semicolon,
            TokenType::Comma,
            TokenType::Dot,
            TokenType::Minus,
            TokenType::Plus,
            TokenType::Slash,
            TokenType::Star,
            TokenType::Bang,
            TokenType::BangEqual,
            TokenType::Equal,
            TokenType::EqualEqual,
            TokenType::Less,
            TokenType::LessEqual,
            TokenType::Greater,
            TokenType::GreaterEqual,
        ]
    );
}

#[test]
fn comments_and_newlines_count_lines() {
    let toks = kinds_and_lexemes("// a comment\nprint 1; // more\n\n  x");
    assert_eq!(
        toks,
        vec![
            (TokenType::Print, "print".to_string(), 2),
            (TokenType::Number, "1".to_string(), 2),
            (TokenType::Semicolon, ";".to_string(), 2),
            (TokenType::Identifier, "x".to_string(), 4),
        ]
    );
}

#[test]
fn string_spanning_lines() {
    let toks = kinds_and_lexemes("\"a\nb\" c");
    assert_eq!(
        toks,
        vec![
            (TokenType::String, "\"a\nb\"".to_string(), 2),
            (TokenType::Identifier, "c".to_string(), 2),
        ]
    );
}

#[test]
fn number_without_fraction_digits_leaves_the_dot() {
    let toks = kinds_and_lexemes("12. 3.25");
    assert_eq!(
        toks,
        vec![
            (TokenType::Number, "12".to_string(), 1),
            (TokenType::Dot, ".".to_string(), 1),
            (TokenType::Number, "3.25".to_string(), 1),
        ]
    );
}

#[test]
fn unterminated_string_is_an_error() {
    assert_eq!(
        compile("print \"abc").unwrap_err(),
        ErrorToken::new("Unterminated string")
    );
}

#[test]
fn unexpected_character_is_an_error() {
    assert_eq!(
        compile("x @ y").unwrap_err(),
        ErrorToken::new("Unexpected character")
    );
}

#[test]
fn empty_and_blank_sources_have_no_tokens() {
    assert!(compile("").unwrap().is_empty());
    assert!(compile("  \t\n// only a comment").unwrap().is_empty());
}

#[test]
fn scan_token_reports_end_with_line() {
    let mut scanner = Scanner::new("a\n\n");
    match scanner.scan_token() {
        ScanResult::Normal(t) => {
            assert_eq!(t.kind, TokenType::Identifier);
            assert_eq!(t.length, 1);
        }
        other => panic!("unexpected {:?}", other),
    }
    match scanner.scan_token() {
        ScanResult::EOF(e) => assert_eq!(e, EOFToken::new(3)),
        other => panic!("unexpected {:?}", other),
    }
}

#[test]
fn scanner_primitives() {
    let mut scanner = Scanner::new("ab=");
    assert!(!scanner.is_at_end());
    assert_eq!(scanner.peek(), Some('a'));
    assert_eq!(scanner.peek_next(), Some('b'));
    assert_eq!(scanner.advance(), Some('a'));
    assert!(!scanner.matches('='));
    assert_eq!(scanner.advance(), Some('b'));
    assert!(scanner.matches('='));
    assert!(scanner.is_at_end());
    assert_eq!(scanner.advance(), None);
    assert_eq!(scanner.get_lexeme(), vec!['a', 'b', '=']);
    assert!(scanner.is_alpha('_'));
    assert!(scanner.is_alpha('é'));
    assert!(!scanner.is_alpha('3'));
}

#[test]
fn unicode_whitespace_is_skipped() {
    let toks = kinds_and_lexemes("\u{00A0}x");
    assert_eq!(toks, vec![(TokenType::Identifier, "x".to_string(), 1)]);
}

#[test]
fn interpret_reports_compile_errors() {
    let chunk: Chunk<f64> = Chunk::new();
    let mut vm = VM::new(&chunk);
    assert_eq!(vm.interpret("print 1 + 2;"), InterpretResult::InterpretOk);
    assert_eq!(vm.interpret("print #"), InterpretResult::InterpretCompileError);
}
