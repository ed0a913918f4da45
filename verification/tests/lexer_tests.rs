use scuttle_db::sql::keyword::Keyword;
use scuttle_db::sql::lexer::{Lexer, Token};
use scuttle_db::DatabaseError;

fn assert_token_eq(actual: Option<Result<Token, DatabaseError>>, expected: Token) {
    match actual {
        Some(Ok(token)) => assert_eq!(token, expected),
        _ => panic!("Expected token {expected:?}, got {actual:?}"),
    }
}

fn identifier(name: &str) -> Token {
    Token::Identifier(name.to_string())
}

fn lex(input: &str) -> Result<Vec<Token>, DatabaseError> {
    Lexer::new(input).parse()
}

#[test]
fn test_lexer() {
    let mut lexer = Lexer::new("SELECT * FROM users");

    assert_token_eq(lexer.next(), Token::Keyword(Keyword::Select));
    assert_token_eq(lexer.next(), Token::Asterisk);
    assert_token_eq(lexer.next(), Token::Keyword(Keyword::From));
    assert_token_eq(lexer.next(), identifier("users"));
    assert!(lexer.next().is_none());
}

#[test]
fn test_lexer_with_spaces() {
    let mut lexer = Lexer::new("  SELECT   *  FROM    users  ");

    assert_token_eq(lexer.next(), Token::Keyword(Keyword::Select));
    assert_token_eq(lexer.next(), Token::Asterisk);
    assert_token_eq(lexer.next(), Token::Keyword(Keyword::From));
    assert_token_eq(lexer.next(), identifier("users"));
    assert!(lexer.next().is_none());
}

#[test]
fn test_lexer_with_columns() {
    let mut lexer = Lexer::new("SELECT id, name, email FROM users");

    assert_token_eq(lexer.next(), Token::Keyword(Keyword::Select));
    assert_token_eq(lexer.next(), identifier("id"));
    assert_token_eq(lexer.next(), Token::Comma);
    assert_token_eq(lexer.next(), identifier("name"));
    assert_token_eq(lexer.next(), Token::Comma);
    assert_token_eq(lexer.next(), identifier("email"));
    assert_token_eq(lexer.next(), Token::Keyword(Keyword::From));
    assert_token_eq(lexer.next(), identifier("users"));
    assert!(lexer.next().is_none());
}

#[test]
fn test_lexer_with_where() {
    let mut lexer = Lexer::new("SELECT id FROM users WHERE name = 'Alice'");

    assert_token_eq(lexer.next(), Token::Keyword(Keyword::Select));
    assert_token_eq(lexer.next(), identifier("id"));
    assert_token_eq(lexer.next(), Token::Keyword(Keyword::From));
    assert_token_eq(lexer.next(), identifier("users"));
    assert_token_eq(lexer.next(), Token::Keyword(Keyword::Where));
    assert_token_eq(lexer.next(), identifier("name"));
    assert_token_eq(lexer.next(), Token::Equal);
    assert_token_eq(lexer.next(), Token::String("Alice".to_string()));
    assert!(lexer.next().is_none());
}

#[test]
fn keywords_are_matched_in_any_case() {
    assert_eq!(
        lex("select Select SELECT sElEcT").unwrap(),
        vec![Token::Keyword(Keyword::Select); 4]
    );
    assert_eq!(
        lex("int integer text string bool boolean").unwrap(),
        vec![
            Token::Keyword(Keyword::Integer),
            Token::Keyword(Keyword::Integer),
            Token::Keyword(Keyword::Text),
            Token::Keyword(Keyword::Text),
            Token::Keyword(Keyword::Boolean),
            Token::Keyword(Keyword::Boolean),
        ]
    );
    assert_eq!(
        lex("FROM WHERE INSERT UPDATE DELETE CREATE TABLE AS AND OR IS NOT NULL TRUE FALSE DISTINCT FLOAT VARCHAR TIMESTAMP DATE").unwrap(),
        vec![
            Token::Keyword(Keyword::From),
            Token::Keyword(Keyword::Where),
            Token::Keyword(Keyword::Insert),
            Token::Keyword(Keyword::Update),
            Token::Keyword(Keyword::Delete),
            Token::Keyword(Keyword::Create),
            Token::Keyword(Keyword::Table),
            Token::Keyword(Keyword::As),
            Token::Keyword(Keyword::And),
            Token::Keyword(Keyword::Or),
            Token::Keyword(Keyword::Is),
            Token::Keyword(Keyword::Not),
            Token::Keyword(Keyword::Null),
            Token::Keyword(Keyword::True),
            Token::Keyword(Keyword::False),
            Token::Keyword(Keyword::Distinct),
            Token::Keyword(Keyword::Float),
            Token::Keyword(Keyword::Varchar),
            Token::Keyword(Keyword::Timestamp),
            Token::Keyword(Keyword::Date),
        ]
    );
    assert_eq!(
        lex("selects _from where2").unwrap(),
        vec![identifier("selects"), identifier("_from"), identifier("where2")]
    );
}

#[test]
fn keyword_helpers() {
    assert!(Keyword::True.is_bool_literal());
    assert!(Keyword::False.is_bool());
    assert!(!Keyword::Null.is_bool_literal());
    assert!(Keyword::Integer.is_type());
    assert!(Keyword::Date.is_type());
    assert!(!Keyword::Varchar.is_type());
    assert!(!Keyword::Select.is_type());
    let word: Vec<char> = "Between".chars().collect();
    assert_eq!(Keyword::from_word(&word), Some(Keyword::Between));
    let word: Vec<char> = "betweens".chars().collect();
    assert_eq!(Keyword::from_word(&word), None);
}

#[test]
fn operators_and_punctuation() {
    assert_eq!(
        lex("= != < <= > >= + - * / , ; ( )").unwrap(),
        vec![
            Token::Equal,
            Token::NotEqual,
            Token::LessThan,
            Token::LessThanEqual,
            Token::GreaterThan,
            Token::GreaterThanEqual,
            Token::Plus,
            Token::Minus,
            Token::Asterisk,
            Token::Slash,
            Token::Comma,
            Token::SemiColon,
            Token::LeftParen,
            Token::RightParen,
        ]
    );
    assert_eq!(
        lex("a<=b>=c!=d<e>f").unwrap(),
        vec![
            identifier("a"),
            Token::LessThanEqual,
            identifier("b"),
            Token::GreaterThanEqual,
            identifier("c"),
            Token::NotEqual,
            identifier("d"),
            Token::LessThan,
            identifier("e"),
            Token::GreaterThan,
            identifier("f"),
        ]
    );
    assert_eq!(
        lex("(age+5)*2").unwrap(),
        vec![
            Token::LeftParen,
            identifier("age"),
            Token::Plus,
            Token::Integer(5),
            Token::RightParen,
            Token::Asterisk,
            Token::Integer(2),
        ]
    );
}

#[test]
fn numbers_with_and_without_a_point() {
    assert_eq!(
        lex("42 3.15 0 7. 9223372036854775807").unwrap(),
        vec![
            Token::Integer(42),
            Token::Float("3.15".to_string()),
            Token::Integer(0),
            Token::Float("7.".to_string()),
            Token::Integer(i64::MAX),
        ]
    );
    assert!(lex("1.2.3").is_err());
    assert!(lex("9223372036854775808").is_err());
    assert!(lex("99999999999999999999999999").is_err());
    assert_eq!(
        lex("12abc").unwrap(),
        vec![Token::Integer(12), identifier("abc")]
    );
}

#[test]
fn strings_and_quoted_identifiers() {
    assert_eq!(
        lex("'it is' \"Mixed Case\" '' 'SELECT'").unwrap(),
        vec![
            Token::String("it is".to_string()),
            identifier("Mixed Case"),
            Token::String(String::new()),
            Token::String("SELECT".to_string()),
        ]
    );
    assert_eq!(
        lex("\"select\"").unwrap(),
        vec![identifier("select")]
    );
    assert_eq!(
        lex("'héllo wörld'").unwrap(),
        vec![Token::String("héllo wörld".to_string())]
    );
    assert!(lex("'open").is_err());
    assert!(lex("\"open").is_err());
}

#[test]
fn lex_errors() {
    assert!(matches!(lex("a ! b"), Err(DatabaseError::InvalidQuery(_))));
    assert!(matches!(lex("!"), Err(DatabaseError::InvalidQuery(_))));
    assert!(matches!(lex("a # b"), Err(DatabaseError::InvalidQuery(_))));
    assert!(matches!(lex("é"), Err(DatabaseError::InvalidQuery(_))));

    let mut lexer = Lexer::new("id ! x");
    assert_token_eq(lexer.next(), identifier("id"));
    assert!(matches!(lexer.next(), Some(Err(_))));
    assert!(matches!(lexer.next(), Some(Err(_))));
    assert_eq!(lexer.position, 3);
}

#[test]
fn empty_input_has_no_tokens() {
    assert_eq!(lex("").unwrap(), vec![]);
    assert_eq!(lex(" \t\r\n ").unwrap(), vec![]);
    let mut lexer = Lexer::new("   ");
    lexer.skip_whitespace();
    assert_eq!(lexer.position, 3);
    assert!(lexer.next().is_none());
    let (tokens, error) = Lexer::new("a, !").collect();
    assert_eq!(tokens, vec![identifier("a"), Token::Comma]);
    assert!(error.is_some());
}
