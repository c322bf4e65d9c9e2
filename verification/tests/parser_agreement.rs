//! The parser agrees with the same recursive descent written over a peekable
//! iterator of the standard library.

use oxyscheme::lexer::{LispNum, Token, TokenWithPosition};
use oxyscheme::parser::{parse_datum, Datum, TokenStream};
use oxyscheme::reader::DatumIterator;
use oxyscheme::CompilerError;
use std::iter::Peekable;

type Item = Result<TokenWithPosition, CompilerError>;

fn oracle_datum<I>(token_stream: &mut Peekable<I>) -> Result<Datum, CompilerError>
where
    I: Iterator<Item = Item>,
{
    match token_stream.peek() {
        Some(Ok(TokenWithPosition {
            token,
            line,
            column,
        })) => match token {
            Token::Boolean(_) => oracle_simple_datum(token_stream),
            Token::String(_) => oracle_simple_datum(token_stream),
            Token::Character(_) => oracle_simple_datum(token_stream),
            Token::Number(_) => oracle_simple_datum(token_stream),
            Token::Identifier(_) => oracle_simple_datum(token_stream),
            Token::Whitespace => {
                token_stream.next();
                oracle_datum(token_stream)
            }
            Token::Comment => {
                token_stream.next();
                oracle_datum(token_stream)
            }
            Token::Punctuator(p) if p == "(" => oracle_list(token_stream),
            Token::Punctuator(p) if p == "#(" => oracle_vector(token_stream),
            Token::Punctuator(p) if p == "'" => oracle_abbrev(token_stream),
            Token::Punctuator(p) if p == "`" => oracle_abbrev(token_stream),
            Token::Punctuator(p) if p == "," => oracle_abbrev(token_stream),
            Token::Punctuator(p) if p == ",@" => oracle_abbrev(token_stream),
            _ => Err(CompilerError::UnexpectedToken(*line, *column)),
        },

        Some(Err(_)) => Err(token_stream.next().unwrap().unwrap_err()),

        None => Err(CompilerError::TokenStreamEnded),
    }
}

fn oracle_simple_datum<I>(token_stream: &mut Peekable<I>) -> Result<Datum, CompilerError>
where
    I: Iterator<Item = Item>,
{
    let TokenWithPosition { token, .. } = token_stream.next().unwrap()?;
    match token {
        Token::Boolean(b) => Ok(Datum::Boolean(b)),
        Token::String(s) => Ok(Datum::String(s)),
        Token::Character(c) => Ok(Datum::Character(c)),
        Token::Number(l) => Ok(Datum::Number(l)),
        Token::Identifier(i) => Ok(Datum::Identifier(i)),
        _ => unreachable!(),
    }
}

fn oracle_vector<I>(token_stream: &mut Peekable<I>) -> Result<Datum, CompilerError>
where
    I: Iterator<Item = Item>,
{
    let mut vector = Vec::new();
    token_stream.next();
    loop {
        match token_stream.peek() {
            Some(Ok(token_with_position)) => {
                let token = &token_with_position.token;
                match token {
                    Token::Punctuator(p) if p == ")" => {
                        token_stream.next();
                        break;
                    }
                    _ => {
                        let datum = oracle_datum(token_stream)?;
                        vector.push(datum);
                    }
                }
            }
            Some(Err(_)) => {
                return Err(token_stream.next().unwrap().unwrap_err());
            }
            None => {
                return Err(CompilerError::MissingCloseParen);
            }
        }
    }
    Ok(Datum::Vector(vector))
}

fn oracle_abbrev<I>(token_stream: &mut Peekable<I>) -> Result<Datum, CompilerError>
where
    I: Iterator<Item = Item>,
{
    let TokenWithPosition { token, .. } = token_stream.next().unwrap()?;
    let datum = oracle_datum(token_stream)?;
    if let Token::Punctuator(s) = token {
        match s.as_str() {
            "'" => Ok(Datum::Quote(Box::new(datum))),
            "`" => Ok(Datum::Backquote(Box::new(datum))),
            "," => Ok(Datum::Unquote(Box::new(datum))),
            ",@" => Ok(Datum::UnquoteSplice(Box::new(datum))),
            _ => unreachable!(),
        }
    } else {
        unreachable!()
    }
}

fn oracle_list<I>(token_stream: &mut Peekable<I>) -> Result<Datum, CompilerError>
where
    I: Iterator<Item = Item>,
{
    let mut car: Vec<Datum> = Vec::new();
    token_stream.next();
    loop {
        match token_stream.peek() {
            Some(Ok(token_with_position)) => {
                let token = &token_with_position.token;
                match token {
                    Token::Punctuator(p) if p == ")" => {
                        token_stream.next();
                        return Ok(Datum::List(car));
                    }
                    Token::Punctuator(p) if p == "." => {
                        return oracle_cdr(token_stream, car);
                    }
                    _ => {
                        let next_datum = oracle_datum(token_stream)?;
                        car.push(next_datum);
                    }
                }
            }
            Some(Err(_)) => {
                return Err(token_stream.next().unwrap().unwrap_err());
            }
            None => {
                return Err(CompilerError::MissingCloseParen);
            }
        }
    }
}

fn oracle_cdr<I>(token_stream: &mut Peekable<I>, car: Vec<Datum>) -> Result<Datum, CompilerError>
where
    I: Iterator<Item = Item>,
{
    token_stream.next();
    let cdr = oracle_datum(token_stream)?;
    match token_stream.next() {
        Some(Ok(TokenWithPosition {
            token: Token::Punctuator(p),
            ..
        })) if p == ")" => Ok(Datum::DottedPair(car, Box::new(cdr))),
        Some(Err(error)) => Err(error),
        _ => Err(CompilerError::MissingCloseParen),
    }
}

/// The results that the standard iterator over data gives for the tokens.
fn oracle_data(tokens: Vec<Item>) -> Vec<Result<Datum, CompilerError>> {
    let mut token_stream = tokens.into_iter().peekable();
    let mut results = Vec::new();
    loop {
        if token_stream.peek().is_none() {
            return results;
        }
        let datum_res = oracle_datum(&mut token_stream);
        let failed = datum_res.is_err();
        results.push(datum_res);
        if failed {
            return results;
        }
    }
}

/// The kinds of items of which the streams are made.
const KINDS: usize = 15;

/// The item of the kind `kind` at the column `column`.
fn item(kind: usize, column: usize) -> Item {
    let punctuator = |text: &str| Token::Punctuator(text.to_string());
    let token = match kind {
        0 => punctuator("("),
        1 => punctuator(")"),
        2 => punctuator("#("),
        3 => punctuator("'"),
        4 => punctuator("`"),
        5 => punctuator(","),
        6 => punctuator(",@"),
        7 => punctuator("."),
        8 => punctuator("["),
        9 => Token::Identifier("a".to_string()),
        10 => Token::Number(LispNum::Integer(column as i32)),
        11 => Token::Whitespace,
        12 => Token::Comment,
        13 => Token::String("s".to_string()),
        _ => return Err(CompilerError::LexError("?".to_string(), 1, column)),
    };
    Ok(TokenWithPosition {
        token,
        line: 1,
        column,
    })
}

fn stream_of(kinds: &[usize]) -> Vec<Item> {
    kinds
        .iter()
        .enumerate()
        .map(|(column, kind)| item(*kind, column))
        .collect()
}

/// All streams of up to four items, and streams of up to twelve items by chance.
fn streams() -> Vec<Vec<usize>> {
    let mut all = vec![Vec::new()];
    let mut last = vec![Vec::new()];
    for _ in 0..4 {
        let mut next = Vec::new();
        for kinds in &last {
            for kind in 0..KINDS {
                let mut longer = kinds.clone();
                longer.push(kind);
                next.push(longer);
            }
        }
        all.extend(next.iter().cloned());
        last = next;
    }
    let mut state: u64 = 0x2545_f491_4f6c_dd1d;
    let mut step = || {
        state ^= state << 13;
        state ^= state >> 7;
        state ^= state << 17;
        state
    };
    for _ in 0..20000 {
        let length = 5 + (step() % 8) as usize;
        let kinds = (0..length)
            .map(|_| {
                let r = (step() % 100) as usize;
                match r {
                    0..=24 => 0,
                    25..=49 => 1,
                    50..=69 => 9,
                    70..=74 => 7,
                    75..=79 => 2,
                    _ => r % KINDS,
                }
            })
            .collect();
        all.push(kinds);
    }
    all
}

fn shown<T: std::fmt::Debug>(value: &T) -> String {
    format!("{:?}", value)
}

#[test]
fn parser_agrees_with_the_descent_over_an_iterator() {
    for kinds in streams() {
        let mut theirs = stream_of(&kinds).into_iter().peekable();
        let expected = oracle_datum(&mut theirs);
        let mut ours = TokenStream::new(stream_of(&kinds));
        let found = parse_datum(&mut ours);
        assert_eq!(shown(&found), shown(&expected), "on {:?}", kinds);
        let left: Vec<Item> = theirs.collect();
        let mut ours_left = Vec::new();
        while let Some(item) = ours.next() {
            ours_left.push(item);
        }
        assert_eq!(shown(&ours_left), shown(&left), "on {:?}", kinds);
    }
}

#[test]
fn data_agree_with_the_iterator_over_data() {
    for kinds in streams() {
        let expected = oracle_data(stream_of(&kinds));
        let mut ours = DatumIterator::new(stream_of(&kinds));
        let mut found = Vec::new();
        while let Some(result) = ours.next() {
            found.push(result);
        }
        assert_eq!(shown(&found), shown(&expected), "on {:?}", kinds);
        assert!(ours.next().is_none());
    }
}
