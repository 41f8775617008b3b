use loxlib::scanner::{ScanError, Scanner};
use loxlib::token::{Item, NumberValue, Token};

fn scan(source: &str) -> Vec<Item> {
    Scanner::new(source).scan_tokens().expect("scan failed")
}

fn number_value(token: &Token) -> f64 {
    match token {
        Token::Number(v) => v.mantissa as f64 / 10f64.powi(v.scale as i32),
        other => panic!("not a number token: {:?}", other),
    }
}

#[test]
fn single_punctuation_each_yields_one_item() {
    let cases: Vec<(&str, Token)> = vec![
        ("(", Token::LeftParen),
        (")", Token::RightParen),
        ("{", Token::LeftBrace),
        ("}", Token::RightBrace),
        (",", Token::Comma),
        (".", Token::Dot),
        ("-", Token::Minus),
        ("+", Token::Plus),
        (";", Token::SemiColon),
        ("*", Token::Star),
        ("/", Token::Slash),
    ];
    for (source, expected) in cases {
        let items = scan(source);
        assert_eq!(items.len(), 1, "source {:?}", source);
        assert_eq!(items[0].token, expected, "source {:?}", source);
        assert_eq!(items[0].lexeme, source);
        assert_eq!(items[0].line, 1);
    }
}

#[test]
fn maximal_munch_two_character_operators() {
    let items = scan("==");
    assert_eq!(items.len(), 1);
    assert_eq!(items[0].token, Token::EqualEqual);
    assert_eq!(items[0].lexeme, "==");

    let items = scan("!=");
    assert_eq!(items.len(), 1);
    assert_eq!(items[0].token, Token::BangEqual);

    let items = scan("<=");
    assert_eq!(items.len(), 1);
    assert_eq!(items[0].token, Token::LesserEqual);

    let items = scan(">=");
    assert_eq!(items.len(), 1);
    assert_eq!(items[0].token, Token::GreaterEqual);
}

#[test]
fn single_character_operators_without_lookahead_match() {
    let items = scan("= ! < >");
    let tokens: Vec<&Token> = items.iter().map(|i| &i.token).collect();
    assert_eq!(
        tokens,
        vec![&Token::Equal, &Token::Bang, &Token::Lesser, &Token::Greater]
    );
}

#[test]
fn three_equals_scan_as_double_then_single() {
    let items = scan("===");
    assert_eq!(items.len(), 2);
    assert_eq!(items[0].token, Token::EqualEqual);
    assert_eq!(items[1].token, Token::Equal);
}

#[test]
fn comment_contributes_no_items() {
    let items = scan("// comment\n+");
    assert_eq!(items.len(), 1);
    assert_eq!(items[0].token, Token::Plus);
    assert_eq!(items[0].line, 2);
}

#[test]
fn comment_at_end_of_input_scans_cleanly() {
    let items = scan("//x");
    assert_eq!(items.len(), 0);
}

#[test]
fn integer_literal_value() {
    let items = scan("123");
    assert_eq!(items.len(), 1);
    assert_eq!(
        items[0].token,
        Token::Number(NumberValue { mantissa: 123, scale: 0 })
    );
    assert_eq!(number_value(&items[0].token), 123.0);
    assert_eq!(items[0].lexeme, "123");
}

#[test]
fn fractional_literal_value() {
    let items = scan("123.45");
    assert_eq!(items.len(), 1);
    assert_eq!(
        items[0].token,
        Token::Number(NumberValue { mantissa: 12345, scale: 2 })
    );
    assert_eq!(number_value(&items[0].token), 123.45);
    assert_eq!(items[0].lexeme, "123.45");
}

#[test]
fn trailing_dot_is_not_part_of_the_number() {
    let items = scan("123.");
    assert_eq!(items.len(), 2);
    assert_eq!(
        items[0].token,
        Token::Number(NumberValue { mantissa: 123, scale: 0 })
    );
    assert_eq!(items[0].lexeme, "123");
    assert_eq!(items[1].token, Token::Dot);
    assert_eq!(items[1].lexeme, ".");
}

#[test]
fn overlong_number_fails_as_parse_failure() {
    let result = Scanner::new("99999999999999999999999").scan_tokens();
    assert_eq!(result, Err(ScanError::NumberParseFailure));
}

#[test]
fn string_literal_payload_strips_quotes() {
    let items = scan("\"abc\"");
    assert_eq!(items.len(), 1);
    assert_eq!(items[0].token, Token::StringLit(String::from("abc")));
    assert_eq!(items[0].lexeme, "\"abc\"");
    assert_eq!(items[0].line, 1);
}

#[test]
fn string_with_no_escape_processing() {
    let items = scan("\"a\\nb\"");
    assert_eq!(items[0].token, Token::StringLit(String::from("a\\nb")));
}

#[test]
fn unterminated_string_fails() {
    let result = Scanner::new("\"abc").scan_tokens();
    assert_eq!(result, Err(ScanError::UnterminatedString { line: 1 }));
}

#[test]
fn unterminated_string_reports_line_of_input_end() {
    let result = Scanner::new("\"a\nbc").scan_tokens();
    assert_eq!(result, Err(ScanError::UnterminatedString { line: 2 }));
}

#[test]
fn keyword_fun_is_not_an_identifier() {
    let items = scan("fun");
    assert_eq!(items.len(), 1);
    assert_eq!(items[0].token, Token::Fun);
}

#[test]
fn funny_is_an_identifier() {
    let items = scan("funny");
    assert_eq!(items.len(), 1);
    assert_eq!(items[0].token, Token::Identifier(String::from("funny")));
    assert_eq!(items[0].lexeme, "funny");
}

#[test]
fn all_sixteen_keywords_are_recognized() {
    let cases: Vec<(&str, Token)> = vec![
        ("and", Token::And),
        ("class", Token::Class),
        ("else", Token::Else),
        ("false", Token::False),
        ("fun", Token::Fun),
        ("for", Token::For),
        ("if", Token::If),
        ("nil", Token::Nil),
        ("or", Token::Or),
        ("print", Token::Print),
        ("return", Token::Return),
        ("super", Token::Super),
        ("this", Token::This),
        ("true", Token::True),
        ("var", Token::Var),
        ("while", Token::While),
    ];
    for (source, expected) in cases {
        let items = scan(source);
        assert_eq!(items.len(), 1, "source {:?}", source);
        assert_eq!(items[0].token, expected, "source {:?}", source);
    }
}

#[test]
fn identifiers_allow_underscores_and_digits() {
    let items = scan("_tally_2");
    assert_eq!(items.len(), 1);
    assert_eq!(items[0].token, Token::Identifier(String::from("_tally_2")));
}

#[test]
fn unexpected_character_fails_with_char_and_line() {
    let result = Scanner::new("+\n@").scan_tokens();
    assert_eq!(
        result,
        Err(ScanError::UnexpectedCharacter { character: '@', line: 2 })
    );
}

#[test]
fn string_spanning_lines_counts_them() {
    let items = scan("\"a\nb\" x");
    assert_eq!(items.len(), 2);
    assert_eq!(items[0].token, Token::StringLit(String::from("a\nb")));
    // The string's item reports the line it started on.
    assert_eq!(items[0].line, 1);
    // The token after it stands one source line further down.
    assert_eq!(items[1].token, Token::Identifier(String::from("x")));
    assert_eq!(items[1].line, items[0].line + 1);
}

#[test]
fn newlines_advance_the_line_counter() {
    let items = scan("+\n-\n*");
    assert_eq!(items.len(), 3);
    assert_eq!(items[0].line, 1);
    assert_eq!(items[1].line, 2);
    assert_eq!(items[2].line, 3);
}

#[test]
fn whitespace_emits_nothing() {
    let items = scan(" \t\r ");
    assert_eq!(items.len(), 0);
}

#[test]
fn empty_source_scans_to_no_items() {
    let items = scan("");
    assert_eq!(items.len(), 0);
}

#[test]
fn slash_not_followed_by_slash_is_division() {
    let items = scan("8/2");
    assert_eq!(items.len(), 3);
    assert_eq!(items[1].token, Token::Slash);
}

#[test]
fn mixed_statement_scans_in_order() {
    let items = scan("var answer = 42;");
    let tokens: Vec<&Token> = items.iter().map(|i| &i.token).collect();
    assert_eq!(
        tokens,
        vec![
            &Token::Var,
            &Token::Identifier(String::from("answer")),
            &Token::Equal,
            &Token::Number(NumberValue { mantissa: 42, scale: 0 }),
            &Token::SemiColon,
        ]
    );
    assert_eq!(items[1].lexeme, "answer");
    assert_eq!(items[3].lexeme, "42");
}

#[test]
fn item_to_string_names_category_lexeme_and_line() {
    let item = Item::new(String::from("+"), Token::Plus, 3);
    assert_eq!(item.to_string(), "Plus + 3");
}

#[test]
fn fraction_with_leading_zeros_keeps_scale() {
    let items = scan("1.005");
    assert_eq!(
        items[0].token,
        Token::Number(NumberValue { mantissa: 1005, scale: 3 })
    );
    assert_eq!(number_value(&items[0].token), 1.005);
}
