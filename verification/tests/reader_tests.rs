use oxyscheme::lexer::{lex_input, LispNum, Token, TokenWithPosition};
use oxyscheme::parser::Datum;
use oxyscheme::reader::{read_tokens, without_blanks, Action, DatumIterator, LineReader};
use oxyscheme::CompilerError;

/// A source whose lines can all be read.
fn lines(texts: &[&str]) -> Vec<Result<String, String>> {
    texts.iter().map(|text| Ok(text.to_string())).collect()
}

/// The token and its place, or a word for the error.
fn shown(item: &Result<TokenWithPosition, CompilerError>) -> String {
    match item {
        Ok(t) => format!("{:?}@{}:{}", t.token, t.line, t.column),
        Err(e) => format!("{:?}", e),
    }
}

#[test]
fn tokens_carry_line_and_column() {
    let items = read_tokens(&lines(&["(a  \"b\\n\")", "", "  #t"]));
    let shown: Vec<String> = items.iter().map(shown).collect();
    assert_eq!(
        shown,
        vec![
            "Punctuator(\"(\")@1:0",
            "Identifier(\"a\")@1:1",
            "Whitespace@1:2",
            "String(\"b\\n\")@1:4",
            "Punctuator(\")\")@1:9",
            "Whitespace@3:0",
            "Boolean(true)@3:2",
        ]
    );
}

#[test]
fn column_counts_bytes_of_the_line() {
    let items = read_tokens(&lines(&["\"λ\\\"\" λ"]));
    let shown: Vec<String> = items.iter().map(shown).collect();
    assert_eq!(
        shown,
        vec![
            "String(\"λ\\\"\")@1:0",
            "Whitespace@1:6",
            "Identifier(\"λ\")@1:7",
        ]
    );
}

#[test]
fn columns_are_where_the_texts_begin() {
    let line = "(λx \"é→\" #\\ß 'ün ;ö)";
    let items = read_tokens(&lines(&[line]));
    let mut texts: Vec<&str> = Vec::new();
    let mut column = 0;
    for item in &items {
        let token = item.as_ref().unwrap();
        assert_eq!(token.line, 1);
        assert_eq!(token.column, column);
        let (after, same) = lex_input(&line[column..]).unwrap();
        assert_eq!(same, token.token);
        texts.push(&line[column..line.len() - after.len()]);
        column = line.len() - after.len();
    }
    assert_eq!(column, line.len());
    assert_eq!(texts.concat(), line);
    assert_eq!(texts, vec!["(", "λx", " ", "\"é→\"", " ", "#\\ß", " ", "'", "ün", " ", ";ö)"]);
}

#[test]
fn column_of_a_failure_counts_bytes_too() {
    let items = read_tokens(&lines(&["é λλ \"→\" \tz"]));
    assert_eq!(items.len(), 7);
    let columns: Vec<usize> = items
        .iter()
        .take(6)
        .map(|item| item.as_ref().unwrap().column)
        .collect();
    assert_eq!(columns, vec![0, 2, 3, 7, 8, 13]);
    assert!(matches!(&items[6], Err(CompilerError::LexError(rest, 1, 14)) if rest == "\tz"));
}

#[test]
fn stream_stops_behind_a_lex_error() {
    let items = read_tokens(&lines(&["a", "b \tc d", "e"]));
    assert_eq!(items.len(), 4);
    assert!(
        matches!(&items[3], Err(CompilerError::LexError(rest, 2, 2)) if rest == "\tc d")
    );
    let items = read_tokens(&lines(&["12345678901 x"]));
    assert_eq!(items.len(), 1);
    assert!(
        matches!(&items[0], Err(CompilerError::LexError(rest, 1, 0)) if rest == "12345678901 x")
    );
}

#[test]
fn stream_stops_behind_a_failure_to_read() {
    let source = vec![
        Ok("a".to_string()),
        Err("disk on fire".to_string()),
        Ok("b".to_string()),
    ];
    let items = read_tokens(&source);
    assert_eq!(items.len(), 2);
    assert!(matches!(&items[1], Err(CompilerError::IOError(m)) if m == "disk on fire"));
}

#[test]
fn empty_source_gives_no_token() {
    assert!(read_tokens(&Vec::new()).is_empty());
    assert!(read_tokens(&lines(&["", "", ""])).is_empty());
}

#[test]
fn reader_asks_for_lines_and_gives_tokens() {
    let mut reader = LineReader::new();
    assert!(matches!(reader.next(), Action::Pull));
    assert!(matches!(reader.next(), Action::Pull));
    reader.take_line("x 1");
    assert!(matches!(
        reader.next(),
        Action::Yield(Ok(TokenWithPosition { token: Token::Identifier(_), line: 1, column: 0 }))
    ));
    assert!(matches!(
        reader.next(),
        Action::Yield(Ok(TokenWithPosition { token: Token::Whitespace, line: 1, column: 1 }))
    ));
    assert!(matches!(
        reader.next(),
        Action::Yield(Ok(TokenWithPosition {
            token: Token::Number(LispNum::Integer(1)),
            line: 1,
            column: 2
        }))
    ));
    assert!(matches!(reader.next(), Action::Pull));
    reader.take_line("");
    assert!(matches!(reader.next(), Action::Pull));
    reader.take_line("#");
    assert!(
        matches!(reader.next(), Action::Yield(Err(CompilerError::LexError(rest, 3, 0))) if rest == "#")
    );
    assert!(matches!(reader.next(), Action::Stop));
    reader.take_line("x");
    assert!(matches!(reader.next(), Action::Stop));
}

#[test]
fn reader_halts_on_a_failure_of_the_source() {
    let mut reader = LineReader::new();
    reader.take_line("a b");
    assert!(matches!(reader.next(), Action::Yield(Ok(_))));
    let error = reader.fail("broken pipe".to_string());
    assert!(matches!(error, CompilerError::IOError(m) if m == "broken pipe"));
    assert!(matches!(reader.next(), Action::Stop));
}

#[test]
fn data_come_one_by_one() {
    let tokens = read_tokens(&lines(&["(a b)#t", "'x"]));
    let mut data = DatumIterator::new(tokens);
    assert_eq!(
        data.next().unwrap().unwrap(),
        Datum::List(vec![
            Datum::Identifier("a".to_string()),
            Datum::Identifier("b".to_string()),
        ])
    );
    assert_eq!(data.next().unwrap().unwrap(), Datum::Boolean(true));
    assert_eq!(
        data.next().unwrap().unwrap(),
        Datum::Quote(Box::new(Datum::Identifier("x".to_string())))
    );
    assert!(data.next().is_none());
    assert!(data.next().is_none());
}

#[test]
fn data_stop_behind_the_first_error() {
    let tokens = read_tokens(&lines(&["a ) b"]));
    let mut data = DatumIterator::new(tokens);
    assert_eq!(
        data.next().unwrap().unwrap(),
        Datum::Identifier("a".to_string())
    );
    assert!(matches!(
        data.next(),
        Some(Err(CompilerError::UnexpectedToken(1, 2)))
    ));
    assert!(data.next().is_none());
    let tokens = read_tokens(&lines(&["(a", "\tb)"]));
    let mut data = DatumIterator::new(tokens);
    assert!(matches!(
        data.next(),
        Some(Err(CompilerError::LexError(_, 2, 0)))
    ));
    assert!(data.next().is_none());
}

#[test]
fn blanks_behind_the_last_datum_end_the_stream_with_an_error() {
    let tokens = read_tokens(&lines(&["a ; the end"]));
    let mut data = DatumIterator::new(tokens);
    assert!(data.next().unwrap().is_ok());
    assert!(matches!(
        data.next(),
        Some(Err(CompilerError::TokenStreamEnded))
    ));
    assert!(data.next().is_none());
    assert!(DatumIterator::new(Vec::new()).next().is_none());
}

#[test]
fn blanks_and_comments_are_taken_out() {
    let source = vec![
        Ok("( a . b ) ; pair".to_string()),
        Ok("  ' x".to_string()),
        Err("gone".to_string()),
    ];
    let kept = without_blanks(&read_tokens(&source));
    let shown: Vec<String> = kept.iter().map(shown).collect();
    assert_eq!(
        shown,
        vec![
            "Punctuator(\"(\")@1:0",
            "Identifier(\"a\")@1:2",
            "Punctuator(\".\")@1:4",
            "Identifier(\"b\")@1:6",
            "Punctuator(\")\")@1:8",
            "Punctuator(\"'\")@2:2",
            "Identifier(\"x\")@2:4",
            "IOError(\"gone\")",
        ]
    );
    let mut data = DatumIterator::new(kept);
    assert_eq!(
        data.next().unwrap().unwrap(),
        Datum::DottedPair(
            vec![Datum::Identifier("a".to_string())],
            Box::new(Datum::Identifier("b".to_string()))
        )
    );
    assert_eq!(
        data.next().unwrap().unwrap(),
        Datum::Quote(Box::new(Datum::Identifier("x".to_string())))
    );
    assert!(matches!(data.next(), Some(Err(CompilerError::IOError(_)))));
    assert!(data.next().is_none());
    assert!(without_blanks(&Vec::new()).is_empty());
}

#[test]
fn dotted_pairs_with_blanks_are_not_read_as_they_come() {
    let tokens = read_tokens(&vec![Ok("(a . b)".to_string())]);
    let mut data = DatumIterator::new(tokens);
    assert!(matches!(
        data.next(),
        Some(Err(CompilerError::UnexpectedToken(1, 3)))
    ));
}
