use oxyscheme::lexer::{
    lex_boolean, lex_boolean_at, lex_character, lex_character_at, lex_comment, lex_comment_at,
    lex_identifier, lex_identifier_at, lex_input, lex_input_at, lex_number, lex_number_at,
    lex_punctuator, lex_punctuator_at, lex_string, lex_string_at, lex_whitespace,
    lex_whitespace_at, non_peculiar, peek_delimiter, LexErrorKind, LexFailure, LispNum, Token,
};

/// The binary32 value of a token that is a decimal literal.
fn float_value(token: &Token) -> f32 {
    match token {
        Token::Number(LispNum::Float(text)) => text.parse().unwrap(),
        other => panic!("no decimal literal: {:?}", other),
    }
}

#[test]
fn lex_string_test() {
    assert_eq!(
        lex_string(r#""string""#),
        Ok(("", Token::String(String::from("string"))))
    );
    assert_eq!(
        lex_string(r#""st\"ring""#),
        Ok(("", Token::String(String::from("st\"ring"))))
    );
    assert_eq!(
        lex_string(r#""fail"#),
        Err(LexFailure::new("", LexErrorKind::Tag))
    );
    assert_eq!(
        lex_string(r#""new\nline""#),
        Ok(("", Token::String(String::from("new\nline"))))
    );
    assert_eq!(
        lex_string(r#"blah"string""#),
        Err(LexFailure::new("blah\"string\"", LexErrorKind::Tag))
    );
}

#[test]
fn lex_boolean_test() {
    assert_eq!(lex_boolean("#t"), Ok(("", Token::Boolean(true))));
    assert_eq!(lex_boolean("#f"), Ok(("", Token::Boolean(false))));
    assert_eq!(
        lex_boolean("#m"),
        Err(LexFailure::new("m", LexErrorKind::OneOf))
    );
}

#[test]
fn lex_character_test() {
    assert_eq!(lex_character("#\\n\n"), Ok(("\n", Token::Character('n'))));
    assert_eq!(
        lex_character("#\\space\n"),
        Ok(("\n", Token::Character(' ')))
    );
    assert_eq!(
        lex_character("#\\newline\n"),
        Ok(("\n", Token::Character('\n')))
    );
}

#[test]
fn non_peculiar_identifier_test() {
    assert_eq!(non_peculiar("a"), Ok(("", "a")));
    assert_eq!(non_peculiar("a+"), Ok(("", "a+")));
    assert_eq!(non_peculiar("&a+"), Ok(("", "&a+")));
    assert_eq!(
        non_peculiar("+&a+"),
        Err(LexFailure::new("+&a+", LexErrorKind::OneOf))
    );
}

#[test]
fn lex_identifier_test() {
    assert_eq!(
        lex_identifier("...\n"),
        Ok(("\n", Token::Identifier("...".to_string())))
    );
    assert_eq!(
        lex_identifier("var\n"),
        Ok(("\n", Token::Identifier("var".to_string())))
    );
    assert_eq!(
        lex_identifier("var "),
        Ok((" ", Token::Identifier("var".to_string())))
    );
    assert_eq!(
        lex_identifier("var)"),
        Ok((")", Token::Identifier("var".to_string())))
    );
    assert_eq!(
        lex_identifier("var;"),
        Ok((";", Token::Identifier("var".to_string())))
    );
    assert_eq!(
        lex_identifier("var\""),
        Ok(("\"", Token::Identifier("var".to_string())))
    );
    assert_eq!(
        lex_identifier("he++o "),
        Ok((" ", Token::Identifier("he++o".to_string())))
    );
    assert_eq!(
        lex_identifier("hel.o "),
        Ok((" ", Token::Identifier("hel.o".to_string())))
    );
    assert_eq!(
        lex_identifier("..."),
        Ok(("", Token::Identifier("...".to_string())))
    );
    assert_eq!(
        lex_identifier("asdf,"),
        Err(LexFailure::new(",", LexErrorKind::OneOf))
    );
}

#[test]
fn lex_number_test() {
    let (rest, token) = lex_number("+3.14;").unwrap();
    assert_eq!(rest, ";");
    assert_eq!(float_value(&token), 3.14);
    let (rest, token) = lex_number("-3.14;").unwrap();
    assert_eq!(rest, ";");
    assert_eq!(float_value(&token), -3.14);
    let (rest, token) = lex_number("3.14;").unwrap();
    assert_eq!(rest, ";");
    assert_eq!(float_value(&token), 3.14);
    let (rest, token) = lex_number(".14;").unwrap();
    assert_eq!(rest, ";");
    assert_eq!(float_value(&token), 0.14);
    assert_eq!(
        lex_number("1;"),
        Ok((";", Token::Number(LispNum::Integer(1))))
    );
    assert_eq!(
        lex_number("-1;"),
        Ok((";", Token::Number(LispNum::Integer(-1))))
    );
    assert_eq!(
        lex_number("-1;"),
        Ok((";", Token::Number(LispNum::Integer(-1))))
    );
    assert_eq!(
        lex_number("4294967296;"),
        Err(LexFailure::new(";", LexErrorKind::TooLarge))
    );
}

#[test]
fn lex_punctuator_test() {
    assert_eq!(
        lex_punctuator(",3"),
        Ok(("3", Token::Punctuator(",".to_string())))
    );
    assert_eq!(
        lex_punctuator(",@"),
        Ok(("", Token::Punctuator(",@".to_string())))
    );
}

#[test]
fn lex_whitespace_test() {
    assert_eq!(lex_whitespace(" 3"), Ok(("3", Token::Whitespace)));
    assert_eq!(lex_whitespace(" \n3"), Ok(("3", Token::Whitespace)));
}

#[test]
fn lex_comment_test() {
    assert_eq!(lex_comment("; Blah"), Ok(("", Token::Comment)));
    assert_eq!(lex_comment("; Blah\n3"), Ok(("3", Token::Comment)));
}

#[test]
fn decimal_literal_keeps_its_text() {
    assert_eq!(
        lex_number("+3.14;"),
        Ok((";", Token::Number(LispNum::Float("+3.14".to_string()))))
    );
    assert_eq!(
        lex_number("-.5"),
        Ok(("", Token::Number(LispNum::Float("-.5".to_string()))))
    );
    assert_eq!(
        lex_number("3.14.15"),
        Ok((".15", Token::Number(LispNum::Float("3.14".to_string()))))
    );
}

#[test]
fn number_is_decimal_exactly_with_a_point() {
    for text in ["0", "-7", "+12", "1.5", "-.25", "+0.0", "2147483647", "00012"] {
        let (rest, token) = lex_input(text).unwrap();
        assert_eq!(rest, "");
        match token {
            Token::Number(LispNum::Float(_)) => assert!(text.contains('.')),
            Token::Number(LispNum::Integer(_)) => assert!(!text.contains('.')),
            other => panic!("no number: {:?}", other),
        }
    }
}

#[test]
fn integer_bounds() {
    assert_eq!(
        lex_number("2147483647"),
        Ok(("", Token::Number(LispNum::Integer(i32::MAX))))
    );
    assert_eq!(
        lex_number("-2147483648"),
        Ok(("", Token::Number(LispNum::Integer(i32::MIN))))
    );
    assert_eq!(
        lex_number("+0000000000000000000000042"),
        Ok(("", Token::Number(LispNum::Integer(42))))
    );
    assert_eq!(
        lex_number("2147483648"),
        Err(LexFailure::new("", LexErrorKind::TooLarge))
    );
    assert_eq!(
        lex_number("-2147483649 "),
        Err(LexFailure::new(" ", LexErrorKind::TooLarge))
    );
    assert_eq!(
        lex_number("99999999999999999999999999999999999999999)"),
        Err(LexFailure::new(")", LexErrorKind::TooLarge))
    );
}

#[test]
fn number_failures() {
    assert_eq!(
        lex_number("abc"),
        Err(LexFailure::new("abc", LexErrorKind::Digit))
    );
    assert_eq!(
        lex_number("+x"),
        Err(LexFailure::new("x", LexErrorKind::Digit))
    );
    assert_eq!(lex_number(""), Err(LexFailure::new("", LexErrorKind::Digit)));
    assert_eq!(
        lex_number("1."),
        Ok((".", Token::Number(LispNum::Integer(1))))
    );
    assert_eq!(lex_number("."), Err(LexFailure::new(".", LexErrorKind::Digit)));
}

#[test]
fn too_large_integer_is_an_error_of_the_tokenizer() {
    assert_eq!(
        lex_input("4294967296"),
        Err(LexFailure::new("", LexErrorKind::TooLarge))
    );
    assert_eq!(
        lex_input("-4294967296 x"),
        Err(LexFailure::new(" x", LexErrorKind::TooLarge))
    );
}

#[test]
fn string_escapes_and_failures() {
    assert_eq!(
        lex_string(r#""a\\b" rest"#),
        Ok((" rest", Token::String("a\\b".to_string())))
    );
    assert_eq!(
        lex_string(r#""""#),
        Ok(("", Token::String(String::new())))
    );
    assert_eq!(
        lex_string(r#""ab\x""#),
        Err(LexFailure::new("x\"", LexErrorKind::Tag))
    );
    assert_eq!(
        lex_string("\"ab\\"),
        Err(LexFailure::new("\\", LexErrorKind::EscapedTransform))
    );
    assert_eq!(lex_string("\""), Err(LexFailure::new("", LexErrorKind::Tag)));
    assert_eq!(lex_string(""), Err(LexFailure::new("", LexErrorKind::Tag)));
    assert_eq!(
        lex_string("\"λx\" y"),
        Ok((" y", Token::String("λx".to_string())))
    );
}

#[test]
fn boolean_failures() {
    assert_eq!(lex_boolean("t"), Err(LexFailure::new("t", LexErrorKind::Tag)));
    assert_eq!(lex_boolean("#"), Err(LexFailure::new("", LexErrorKind::OneOf)));
    assert_eq!(lex_boolean("#true"), Ok(("rue", Token::Boolean(true))));
}

#[test]
fn character_needs_a_delimiter_or_the_end() {
    assert_eq!(lex_character("#\\a"), Ok(("", Token::Character('a'))));
    assert_eq!(lex_character("#\\space"), Ok(("", Token::Character(' '))));
    assert_eq!(
        lex_character("#\\newline)"),
        Ok((")", Token::Character('\n')))
    );
    assert_eq!(lex_character("#\\s("), Ok(("(", Token::Character('s'))));
    assert_eq!(lex_character("#\\λ;"), Ok((";", Token::Character('λ'))));
    assert_eq!(lex_character("#\\(\t"), Ok(("\t", Token::Character('('))));
    assert_eq!(
        lex_character("#\\ab"),
        Err(LexFailure::new("b", LexErrorKind::OneOf))
    );
    assert_eq!(
        lex_character("#\\spacex"),
        Err(LexFailure::new("x", LexErrorKind::OneOf))
    );
    assert_eq!(
        lex_character("#\\spa "),
        Err(LexFailure::new("pa ", LexErrorKind::OneOf))
    );
    assert_eq!(lex_character("#\\"), Err(LexFailure::new("", LexErrorKind::Eof)));
    assert_eq!(
        lex_character("#t"),
        Err(LexFailure::new("#t", LexErrorKind::Tag))
    );
}

#[test]
fn peculiar_and_unicode_identifiers() {
    assert_eq!(
        lex_identifier("+ 1"),
        Ok((" 1", Token::Identifier("+".to_string())))
    );
    assert_eq!(
        lex_identifier("-"),
        Ok(("", Token::Identifier("-".to_string())))
    );
    assert_eq!(
        lex_identifier("+1"),
        Err(LexFailure::new("1", LexErrorKind::OneOf))
    );
    assert_eq!(
        lex_identifier(".. "),
        Err(LexFailure::new(".. ", LexErrorKind::Tag))
    );
    assert_eq!(
        lex_identifier("1a"),
        Err(LexFailure::new("1a", LexErrorKind::Tag))
    );
    assert_eq!(
        lex_identifier("λ²x)"),
        Ok((")", Token::Identifier("λ²x".to_string())))
    );
    assert_eq!(
        lex_identifier("a1@b-c.d "),
        Ok((" ", Token::Identifier("a1@b-c.d".to_string())))
    );
    assert_eq!(
        lex_identifier("set!\t"),
        Ok(("\t", Token::Identifier("set!".to_string())))
    );
    assert_eq!(
        lex_identifier("a#b"),
        Err(LexFailure::new("#b", LexErrorKind::OneOf))
    );
}

#[test]
fn peek_delimiter_test() {
    for text in [" x", "\nx", "\tx", "(", ")", "\"", ";"] {
        assert_eq!(peek_delimiter(text), Ok(()));
    }
    assert_eq!(
        peek_delimiter("x "),
        Err(LexFailure::new("x ", LexErrorKind::OneOf))
    );
    assert_eq!(peek_delimiter(""), Err(LexFailure::new("", LexErrorKind::OneOf)));
}

#[test]
fn every_punctuator() {
    for text in ["(", ")", "#(", "'", "`", ",@", ",", "."] {
        let input = format!("{}x", text);
        assert_eq!(
            lex_punctuator(&input),
            Ok(("x", Token::Punctuator(text.to_string())))
        );
    }
    assert_eq!(
        lex_punctuator("#t"),
        Err(LexFailure::new("#t", LexErrorKind::Tag))
    );
    assert_eq!(lex_punctuator(""), Err(LexFailure::new("", LexErrorKind::Tag)));
}

#[test]
fn whitespace_and_comment_failures() {
    assert_eq!(
        lex_whitespace("\t "),
        Err(LexFailure::new("\t ", LexErrorKind::Tag))
    );
    assert_eq!(lex_whitespace(" \n \n"), Ok(("", Token::Whitespace)));
    assert_eq!(
        lex_comment("x; y"),
        Err(LexFailure::new("x; y", LexErrorKind::Tag))
    );
    assert_eq!(lex_comment(";\n\n"), Ok(("\n", Token::Comment)));
}

#[test]
fn alternatives_in_order() {
    assert_eq!(
        lex_input("\"a\"b"),
        Ok(("b", Token::String("a".to_string())))
    );
    assert_eq!(lex_input("#t"), Ok(("", Token::Boolean(true))));
    assert_eq!(lex_input("#\\t "), Ok((" ", Token::Character('t'))));
    assert_eq!(
        lex_input("abc)"),
        Ok((")", Token::Identifier("abc".to_string())))
    );
    assert_eq!(
        lex_input("+5"),
        Ok(("", Token::Number(LispNum::Integer(5))))
    );
    assert_eq!(
        lex_input("..."),
        Ok(("", Token::Identifier("...".to_string())))
    );
    assert_eq!(
        lex_input(".5"),
        Ok(("", Token::Number(LispNum::Float(".5".to_string()))))
    );
    assert_eq!(
        lex_input(". x"),
        Ok((" x", Token::Punctuator(".".to_string())))
    );
    assert_eq!(
        lex_input("#(1"),
        Ok(("1", Token::Punctuator("#(".to_string())))
    );
    assert_eq!(lex_input("  x"), Ok(("x", Token::Whitespace)));
    assert_eq!(lex_input("; c\nx"), Ok(("x", Token::Comment)));
    assert_eq!(lex_input("\tx"), Err(LexFailure::new("\tx", LexErrorKind::Tag)));
    assert_eq!(lex_input("#x"), Err(LexFailure::new("#x", LexErrorKind::Tag)));
    assert_eq!(lex_input(""), Err(LexFailure::new("", LexErrorKind::Tag)));
}

#[test]
fn token_texts_make_up_the_input() {
    let input = "(define (f x) ; add\n  (+ x 1.5 \"s\\n\" #\\a '(a . b) #(1 2) `(,x ,@y)))";
    let mut rest = input;
    let mut texts: Vec<&str> = Vec::new();
    while !rest.is_empty() {
        let (after, _) = lex_input(rest).unwrap();
        assert!(after.len() < rest.len());
        texts.push(&rest[..rest.len() - after.len()]);
        rest = after;
    }
    assert_eq!(texts.concat(), input);
    assert_eq!(texts.len(), 47);
}

#[test]
fn lexers_on_characters_give_indices() {
    let input: Vec<char> = "(λ \"s\" #t #\\a x2 -7 ,@ ;c".chars().collect();
    assert_eq!(
        lex_punctuator_at(&input, 0),
        Ok((1, Token::Punctuator("(".to_string())))
    );
    assert_eq!(
        lex_identifier_at(&input, 1),
        Ok((2, Token::Identifier("λ".to_string())))
    );
    assert_eq!(lex_whitespace_at(&input, 2), Ok((3, Token::Whitespace)));
    assert_eq!(
        lex_string_at(&input, 3),
        Ok((6, Token::String("s".to_string())))
    );
    assert_eq!(lex_boolean_at(&input, 7), Ok((9, Token::Boolean(true))));
    assert_eq!(lex_character_at(&input, 10), Ok((13, Token::Character('a'))));
    assert_eq!(
        lex_input_at(&input, 14),
        Ok((16, Token::Identifier("x2".to_string())))
    );
    assert_eq!(
        lex_number_at(&input, 17),
        Ok((19, Token::Number(LispNum::Integer(-7))))
    );
    assert_eq!(
        lex_input_at(&input, 20),
        Ok((22, Token::Punctuator(",@".to_string())))
    );
    assert_eq!(lex_comment_at(&input, 23), Ok((25, Token::Comment)));
    assert_eq!(lex_input_at(&input, 25), Err((25, LexErrorKind::Tag)));
    assert_eq!(lex_string_at(&input, 5), Err((12, LexErrorKind::Tag)));
    assert_eq!(lex_boolean_at(&input, 10), Err((11, LexErrorKind::OneOf)));
    assert_eq!(lex_character_at(&input, 7), Err((7, LexErrorKind::Tag)));
    assert_eq!(lex_identifier_at(&input, 14), Ok((16, Token::Identifier("x2".to_string()))));
    assert_eq!(lex_number_at(&input, 14), Err((14, LexErrorKind::Digit)));
    assert_eq!(lex_punctuator_at(&input, 1), Err((1, LexErrorKind::Tag)));
    assert_eq!(lex_whitespace_at(&input, 3), Err((3, LexErrorKind::Tag)));
    assert_eq!(lex_comment_at(&input, 0), Err((0, LexErrorKind::Tag)));
}
