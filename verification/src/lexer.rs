//! The tokenizer: from the characters of a source line to the next token.
//!
//! The grammar is stated as specification functions over a sequence of characters and
//! a start index (`spec_lex_*`). Each executable lexer is proved to compute exactly the
//! outcome that its specification function gives.

use vstd::prelude::*;
use crate::text::chars_of;
use crate::text::string_of;

verus! {

/// A number of the source language.
///
/// An integer literal is held by its value. A literal with a decimal point is held as
/// it was written, a text of which `is_decimal_literal` holds; who wants its binary32
/// value converts the text.
#[derive(Debug, PartialEq)]
pub enum LispNum {
    /// A signed 32-bit integer.
    Integer(i32),
    /// The text of a decimal literal.
    Float(String),
}

/// The mathematical model of a [`LispNum`].
pub enum NumView {
    Integer(i32),
    Float(Seq<char>),
}

impl View for LispNum {
    type V = NumView;

    open spec fn view(&self) -> NumView {
        match self {
            LispNum::Integer(n) => NumView::Integer(*n),
            LispNum::Float(t) => NumView::Float(t@),
        }
    }
}

impl Clone for LispNum {
    fn clone(&self) -> (r: Self)
        ensures
            r == *self,
    {
        match self {
            LispNum::Integer(n) => LispNum::Integer(*n),
            LispNum::Float(t) => LispNum::Float(t.clone()),
        }
    }
}

/// The terminal symbols of the source language.
#[derive(Debug, PartialEq)]
pub enum Token {
    /// A string literal, escapes resolved.
    String(String),
    /// A character literal.
    Character(char),
    /// `#t` or `#f`.
    Boolean(bool),
    /// A numeric literal.
    Number(LispNum),
    /// An identifier.
    Identifier(String),
    /// One of `(`, `)`, `#(`, `'`, `` ` ``, `,@`, `,`, `.`.
    Punctuator(String),
    /// A run of blanks.
    Whitespace,
    /// A comment, from `;` to the end of the line.
    Comment,
}

/// The mathematical model of a [`Token`].
pub enum TokenView {
    String(Seq<char>),
    Character(char),
    Boolean(bool),
    Number(NumView),
    Identifier(Seq<char>),
    Punctuator(Seq<char>),
    Whitespace,
    Comment,
}

impl View for Token {
    type V = TokenView;

    open spec fn view(&self) -> TokenView {
        match self {
            Token::String(s) => TokenView::String(s@),
            Token::Character(c) => TokenView::Character(*c),
            Token::Boolean(b) => TokenView::Boolean(*b),
            Token::Number(n) => TokenView::Number(n@),
            Token::Identifier(s) => TokenView::Identifier(s@),
            Token::Punctuator(s) => TokenView::Punctuator(s@),
            Token::Whitespace => TokenView::Whitespace,
            Token::Comment => TokenView::Comment,
        }
    }
}

impl Clone for Token {
    fn clone(&self) -> (r: Self)
        ensures
            r == *self,
    {
        match self {
            Token::String(s) => Token::String(s.clone()),
            Token::Character(c) => Token::Character(*c),
            Token::Boolean(b) => Token::Boolean(*b),
            Token::Number(n) => Token::Number(n.clone()),
            Token::Identifier(s) => Token::Identifier(s.clone()),
            Token::Punctuator(s) => Token::Punctuator(s.clone()),
            Token::Whitespace => Token::Whitespace,
            Token::Comment => Token::Comment,
        }
    }
}

/// A token with the place of its first character.
#[derive(Debug)]
pub struct TokenWithPosition {
    /// The token.
    pub token: Token,
    /// The line of the token, counted from 1.
    pub line: usize,
    /// The column of the token's first character: the number of bytes that the line
    /// takes in UTF-8 before it, so that the first column is 0.
    pub column: usize,
}

/// The mathematical model of a [`TokenWithPosition`].
pub struct PositionedToken {
    pub token: TokenView,
    pub line: usize,
    pub column: usize,
}

impl View for TokenWithPosition {
    type V = PositionedToken;

    open spec fn view(&self) -> PositionedToken {
        PositionedToken { token: self.token@, line: self.line, column: self.column }
    }
}

impl Clone for TokenWithPosition {
    fn clone(&self) -> (r: Self)
        ensures
            r == *self,
    {
        TokenWithPosition { token: self.token.clone(), line: self.line, column: self.column }
    }
}

/// Why a lexer gave up.
#[derive(Debug, PartialEq, Eq, Clone, Copy, Structural)]
pub enum LexErrorKind {
    /// A fixed piece of text that the rule begins or ends with is not there.
    Tag,
    /// The next character is not one of those that the rule admits.
    OneOf,
    /// A decimal digit was needed.
    Digit,
    /// The input ended where a character was needed.
    Eof,
    /// A backslash stands at the very end of the input.
    EscapedTransform,
    /// An integer literal does not fit in 32 bits.
    TooLarge,
}

/// What a lexer makes of the input from some index on.
pub enum Lexed {
    /// A token, and the index just behind its last character.
    Token { token: TokenView, end: int },
    /// No token, and the index at which the rule gave up.
    Failure { kind: LexErrorKind, at: int },
}

/// The outcome of a lexer that works on indices.
pub type LexResult = Result<(usize, Token), (usize, LexErrorKind)>;

/// The model of an indexed outcome.
pub open spec fn lexed_of(r: LexResult) -> Lexed {
    match r {
        Ok((end, token)) => Lexed::Token { token: token@, end: end as int },
        Err((at, kind)) => Lexed::Failure { kind, at: at as int },
    }
}

/// A failure of one of the lexers that take a string slice.
#[derive(Debug, PartialEq)]
pub struct LexFailure<'a> {
    /// The input from the place of the failure on.
    pub rest: &'a str,
    /// Why the lexer gave up.
    pub kind: LexErrorKind,
}

impl<'a> LexFailure<'a> {
    /// A failure of the given kind in front of `rest`.
    pub fn new(rest: &'a str, kind: LexErrorKind) -> (r: Self)
        ensures
            r.rest@ == rest@,
            r.kind == kind,
    {
        LexFailure { rest, kind }
    }
}

/// The outcome of a lexer that takes a string slice: the rest of the input and the
/// token, or the failure.
pub type StrLexResult<'a> = Result<(&'a str, Token), LexFailure<'a>>;

/// Whether `r` is the outcome `lexed` on `input`: the same token or kind of failure,
/// and as the rest the input from the index of `lexed` on.
pub open spec fn str_result_is(input: Seq<char>, r: StrLexResult, lexed: Lexed) -> bool {
    match (r, lexed) {
        (Ok((rest, token)), Lexed::Token { token: t, end }) => {
            &&& token@ == t
            &&& 0 <= end <= input.len()
            &&& rest@ == input.subrange(end, input.len() as int)
        },
        (Err(f), Lexed::Failure { kind, at }) => {
            &&& f.kind == kind
            &&& 0 <= at <= input.len()
            &&& f.rest@ == input.subrange(at, input.len() as int)
        },
        _ => false,
    }
}

// ---------------------------------------------------------------------------------
// Character classes
// ---------------------------------------------------------------------------------

/// Whether `c` has the Unicode property Alphabetic, as `char::is_alphabetic` tells.
pub uninterp spec fn unicode_alphabetic(c: char) -> bool;

/// Whether `c` is in one of the Unicode general categories for numbers, as
/// `char::is_numeric` tells.
pub uninterp spec fn unicode_numeric(c: char) -> bool;

/// `char::is_alphabetic`: its answer depends on the character alone. Nothing more is
/// claimed of it; what it answers is given the name `unicode_alphabetic`.
pub assume_specification[ char::is_alphabetic ](c: char) -> (b: bool)
    ensures
        b == unicode_alphabetic(c),
;

/// `char::is_numeric`: its answer depends on the character alone. Nothing more is
/// claimed of it; what it answers is given the name `unicode_numeric`.
pub assume_specification[ char::is_numeric ](c: char) -> (b: bool)
    ensures
        b == unicode_numeric(c),
;

/// Whether `c` ends an identifier or a character literal.
pub open spec fn is_delimiter(c: char) -> bool {
    c == ' ' || c == '\n' || c == '\t' || c == '(' || c == ')' || c == '"' || c == ';'
}

/// Whether `c` is an ASCII character.
pub open spec fn is_ascii_char(c: char) -> bool {
    (c as u32) < 0x80
}

/// Whether `c` is one of `0` to `9`.
pub open spec fn is_dec_digit(c: char) -> bool {
    '0' <= c && c <= '9'
}

/// The value of the decimal digit `c`.
pub open spec fn digit_value(c: char) -> int {
    c as u32 - '0' as u32
}

/// Whether `c` is a letter: `a` to `z`, `A` to `Z`, or an alphabetic character beyond
/// ASCII.
pub open spec fn is_letter(c: char) -> bool {
    ('a' <= c && c <= 'z') || ('A' <= c && c <= 'Z') || (!is_ascii_char(c) && unicode_alphabetic(
        c,
    ))
}

/// Whether `c` is a digit in the wide sense that identifiers admit: `0` to `9`, or a
/// numeric character beyond ASCII.
pub open spec fn is_numeral(c: char) -> bool {
    is_dec_digit(c) || (!is_ascii_char(c) && unicode_numeric(c))
}

/// Whether `c` is one of ``! $ % & * / : < = > ? ^ _ ~``.
pub open spec fn is_special_initial(c: char) -> bool {
    c == '!' || c == '$' || c == '%' || c == '&' || c == '*' || c == '/' || c == ':' || c == '<'
        || c == '=' || c == '>' || c == '?' || c == '^' || c == '_' || c == '~'
}

/// Whether an identifier may begin with `c`.
pub open spec fn is_initial(c: char) -> bool {
    is_letter(c) || is_special_initial(c)
}

/// Whether an identifier may go on with `c`.
pub open spec fn is_subsequent(c: char) -> bool {
    is_initial(c) || is_numeral(c) || c == '+' || c == '-' || c == '.' || c == '@'
}

/// The classes of characters of which the grammar takes runs.
#[derive(Debug, PartialEq, Eq, Clone, Copy, Structural)]
pub enum CharClass {
    /// What an identifier goes on with.
    Subsequent,
    /// `0` to `9`.
    DecDigit,
    /// A space or a line feed.
    Blank,
    /// Anything but a line feed.
    NotLineFeed,
}

/// Whether `c` belongs to `class`.
pub open spec fn in_class(class: CharClass, c: char) -> bool {
    match class {
        CharClass::Subsequent => is_subsequent(c),
        CharClass::DecDigit => is_dec_digit(c),
        CharClass::Blank => c == ' ' || c == '\n',
        CharClass::NotLineFeed => c != '\n',
    }
}

/// The end of the longest run of characters of `class` that begins at `i`.
pub open spec fn scan(s: Seq<char>, i: int, class: CharClass) -> int
    decreases s.len() - i,
{
    if 0 <= i < s.len() && in_class(class, s[i]) {
        scan(s, i + 1, class)
    } else {
        i
    }
}

/// `scan` stops in the input, behind nothing but characters of the class, and in front
/// of a character that is not of the class.
pub proof fn lemma_scan(s: Seq<char>, i: int, class: CharClass)
    requires
        0 <= i <= s.len(),
    ensures
        i <= scan(s, i, class) <= s.len(),
        forall|k: int| i <= k < scan(s, i, class) ==> in_class(class, #[trigger] s[k]),
        scan(s, i, class) < s.len() ==> !in_class(class, s[scan(s, i, class)]),
    decreases s.len() - i,
{
    if i < s.len() && in_class(class, s[i]) {
        lemma_scan(s, i + 1, class);
    }
}

/// Whether `c` ends an identifier or a character literal.
fn is_delimiter_char(c: char) -> (b: bool)
    ensures
        b == is_delimiter(c),
{
    c == ' ' || c == '\n' || c == '\t' || c == '(' || c == ')' || c == '"' || c == ';'
}

/// Whether `c` is one of `0` to `9`.
fn is_dec_digit_char(c: char) -> (b: bool)
    ensures
        b == is_dec_digit(c),
{
    '0' <= c && c <= '9'
}

/// Whether `c` is a letter. `char::is_alphabetic` is asked of no ASCII character.
fn is_letter_char(c: char) -> (b: bool)
    ensures
        b == is_letter(c),
{
    if (c as u32) < 0x80 {
        ('a' <= c && c <= 'z') || ('A' <= c && c <= 'Z')
    } else {
        c.is_alphabetic()
    }
}

/// Whether `c` is a digit in the wide sense. `char::is_numeric` is asked of no ASCII
/// character.
fn is_numeral_char(c: char) -> (b: bool)
    ensures
        b == is_numeral(c),
{
    if (c as u32) < 0x80 {
        '0' <= c && c <= '9'
    } else {
        c.is_numeric()
    }
}

/// Whether `c` is one of ``! $ % & * / : < = > ? ^ _ ~``.
fn is_special_initial_char(c: char) -> (b: bool)
    ensures
        b == is_special_initial(c),
{
    c == '!' || c == '$' || c == '%' || c == '&' || c == '*' || c == '/' || c == ':' || c == '<'
        || c == '=' || c == '>' || c == '?' || c == '^' || c == '_' || c == '~'
}

/// Whether an identifier may begin with `c`.
fn is_initial_char(c: char) -> (b: bool)
    ensures
        b == is_initial(c),
{
    is_letter_char(c) || is_special_initial_char(c)
}

/// Whether an identifier may go on with `c`.
fn is_subsequent_char(c: char) -> (b: bool)
    ensures
        b == is_subsequent(c),
{
    is_initial_char(c) || is_numeral_char(c) || c == '+' || c == '-' || c == '.' || c == '@'
}

/// Whether `c` belongs to `class`.
fn is_in_class(class: CharClass, c: char) -> (b: bool)
    ensures
        b == in_class(class, c),
{
    match class {
        CharClass::Subsequent => is_subsequent_char(c),
        CharClass::DecDigit => is_dec_digit_char(c),
        CharClass::Blank => c == ' ' || c == '\n',
        CharClass::NotLineFeed => c != '\n',
    }
}

/// The end of the longest run of characters of `class` in `input` from `start` on.
fn scan_class(input: &[char], start: usize, class: CharClass) -> (end: usize)
    requires
        start <= input@.len(),
    ensures
        end == scan(input@, start as int, class),
        start <= end <= input@.len(),
{
    let mut i: usize = start;
    while i < input.len() && is_in_class(class, input[i])
        invariant
            start <= i <= input@.len(),
            scan(input@, start as int, class) == scan(input@, i as int, class),
        decreases input@.len() - i,
    {
        i += 1;
    }
    i
}

// ---------------------------------------------------------------------------------
// The grammar
// ---------------------------------------------------------------------------------

/// Whether `s` holds the character `c` at index `i`.
pub open spec fn has_char(s: Seq<char>, i: int, c: char) -> bool {
    0 <= i < s.len() && s[i] == c
}

/// Whether a token may end at `i`: the input ends there, or a delimiter follows.
pub open spec fn at_token_end(s: Seq<char>, i: int) -> bool {
    i >= s.len() || (0 <= i && is_delimiter(s[i]))
}

/// A string literal from `i` on: `"`, the body, `"`.
pub open spec fn spec_lex_string(s: Seq<char>, i: int) -> Lexed {
    if has_char(s, i, '"') {
        spec_string_body(s, i + 1, Seq::empty())
    } else {
        Lexed::Failure { kind: LexErrorKind::Tag, at: i }
    }
}

/// The body of a string literal from `i` on, up to and with the closing `"`, where
/// `content` is what the body has given so far. A backslash stands before `\`, `"` or
/// `n`, and the pair gives a backslash, a double quote or a line feed.
pub open spec fn spec_string_body(s: Seq<char>, i: int, content: Seq<char>) -> Lexed
    decreases s.len() - i,
{
    if i < 0 || i >= s.len() {
        Lexed::Failure { kind: LexErrorKind::Tag, at: s.len() as int }
    } else if s[i] == '"' {
        Lexed::Token { token: TokenView::String(content), end: i + 1 }
    } else if s[i] == '\\' {
        if i + 1 >= s.len() {
            Lexed::Failure { kind: LexErrorKind::EscapedTransform, at: i }
        } else if s[i + 1] == '\\' {
            spec_string_body(s, i + 2, content.push('\\'))
        } else if s[i + 1] == '"' {
            spec_string_body(s, i + 2, content.push('"'))
        } else if s[i + 1] == 'n' {
            spec_string_body(s, i + 2, content.push('\n'))
        } else {
            Lexed::Failure { kind: LexErrorKind::Tag, at: i + 1 }
        }
    } else {
        spec_string_body(s, i + 1, content.push(s[i]))
    }
}

/// `#t` or `#f` at `i`.
pub open spec fn spec_lex_boolean(s: Seq<char>, i: int) -> Lexed {
    if !has_char(s, i, '#') {
        Lexed::Failure { kind: LexErrorKind::Tag, at: i }
    } else if has_char(s, i + 1, 't') {
        Lexed::Token { token: TokenView::Boolean(true), end: i + 2 }
    } else if has_char(s, i + 1, 'f') {
        Lexed::Token { token: TokenView::Boolean(false), end: i + 2 }
    } else {
        Lexed::Failure { kind: LexErrorKind::OneOf, at: i + 1 }
    }
}

/// Whether `s` spells `space` at `i`.
pub open spec fn spells_space(s: Seq<char>, i: int) -> bool {
    has_char(s, i, 's') && has_char(s, i + 1, 'p') && has_char(s, i + 2, 'a') && has_char(
        s,
        i + 3,
        'c',
    ) && has_char(s, i + 4, 'e')
}

/// Whether `s` spells `newline` at `i`.
pub open spec fn spells_newline(s: Seq<char>, i: int) -> bool {
    has_char(s, i, 'n') && has_char(s, i + 1, 'e') && has_char(s, i + 2, 'w') && has_char(
        s,
        i + 3,
        'l',
    ) && has_char(s, i + 4, 'i') && has_char(s, i + 5, 'n') && has_char(s, i + 6, 'e')
}

/// The character `c`, read up to `end`, if a token may end there.
pub open spec fn spec_character_end(s: Seq<char>, c: char, end: int) -> Lexed {
    if at_token_end(s, end) {
        Lexed::Token { token: TokenView::Character(c), end }
    } else {
        Lexed::Failure { kind: LexErrorKind::OneOf, at: end }
    }
}

/// A character literal at `i`: `#\`, then `space`, `newline` or any one character, and
/// then the end of the input or a delimiter, which is not read.
pub open spec fn spec_lex_character(s: Seq<char>, i: int) -> Lexed {
    if !(has_char(s, i, '#') && has_char(s, i + 1, '\\')) {
        Lexed::Failure { kind: LexErrorKind::Tag, at: i }
    } else if spells_space(s, i + 2) {
        spec_character_end(s, ' ', i + 7)
    } else if spells_newline(s, i + 2) {
        spec_character_end(s, '\n', i + 9)
    } else if i + 2 < s.len() {
        spec_character_end(s, s[i + 2], i + 3)
    } else {
        Lexed::Failure { kind: LexErrorKind::Eof, at: i + 2 }
    }
}

/// The end of the identifier that is not peculiar and begins at `i`, if there is one:
/// an initial and the longest run of subsequents.
pub open spec fn spec_non_peculiar(s: Seq<char>, i: int) -> Option<int> {
    if 0 <= i < s.len() && is_initial(s[i]) {
        Some(scan(s, i + 1, CharClass::Subsequent))
    } else {
        None
    }
}

/// The end of the identifier that begins at `i`, before the look at what follows it:
/// one that is not peculiar, or one of `+`, `-` and `...`.
pub open spec fn spec_identifier_end(s: Seq<char>, i: int) -> Option<int> {
    if spec_non_peculiar(s, i) is Some {
        spec_non_peculiar(s, i)
    } else if has_char(s, i, '+') || has_char(s, i, '-') {
        Some(i + 1)
    } else if has_char(s, i, '.') && has_char(s, i + 1, '.') && has_char(s, i + 2, '.') {
        Some(i + 3)
    } else {
        None
    }
}

/// An identifier at `i`, followed by the end of the input or by a delimiter, which is
/// not read.
pub open spec fn spec_lex_identifier(s: Seq<char>, i: int) -> Lexed {
    match spec_identifier_end(s, i) {
        None => Lexed::Failure { kind: LexErrorKind::Tag, at: i },
        Some(end) => if at_token_end(s, end) {
            Lexed::Token { token: TokenView::Identifier(s.subrange(i, end)), end }
        } else {
            Lexed::Failure { kind: LexErrorKind::OneOf, at: end }
        },
    }
}

/// The number that the decimal digits `s[from..to]` write.
pub open spec fn decimal_value(s: Seq<char>, from: int, to: int) -> int
    decreases to - from,
{
    if to <= from {
        0
    } else {
        decimal_value(s, from, to - 1) * 10 + digit_value(s[to - 1])
    }
}

/// The index behind the sign at `i`, or `i` where there is none.
pub open spec fn after_sign(s: Seq<char>, i: int) -> int {
    if has_char(s, i, '+') || has_char(s, i, '-') {
        i + 1
    } else {
        i
    }
}

/// Whether a decimal literal begins at `i`: the digits before the point may be missing,
/// those behind it may not.
pub open spec fn is_float_at(s: Seq<char>, i: int) -> bool {
    let point = scan(s, after_sign(s, i), CharClass::DecDigit);
    has_char(s, point, '.') && scan(s, point + 1, CharClass::DecDigit) > point + 1
}

/// A number at `i`. A decimal literal (`[sign] digit* "." digit+`) is tried first and
/// kept as text. Else an integer literal (`[sign] digit+`) gives its value, and fails
/// as too large where the value is no `i32`.
pub open spec fn spec_lex_number(s: Seq<char>, i: int) -> Lexed {
    let first = after_sign(s, i);
    let point = scan(s, first, CharClass::DecDigit);
    if is_float_at(s, i) {
        let end = scan(s, point + 1, CharClass::DecDigit);
        Lexed::Token { token: TokenView::Number(NumView::Float(s.subrange(i, end))), end }
    } else if point > first {
        let magnitude = decimal_value(s, first, point);
        let value = if has_char(s, i, '-') {
            -magnitude
        } else {
            magnitude
        };
        if i32::MIN <= value <= i32::MAX {
            Lexed::Token { token: TokenView::Number(NumView::Integer(value as i32)), end: point }
        } else {
            Lexed::Failure { kind: LexErrorKind::TooLarge, at: point }
        }
    } else {
        Lexed::Failure { kind: LexErrorKind::Digit, at: first }
    }
}

/// The end of the punctuator that begins at `i`, if there is one. Of two that begin
/// alike the longer is taken.
pub open spec fn spec_punctuator_end(s: Seq<char>, i: int) -> Option<int> {
    if has_char(s, i, '(') || has_char(s, i, ')') || has_char(s, i, '\'') || has_char(s, i, '`')
        || has_char(s, i, '.') {
        Some(i + 1)
    } else if has_char(s, i, '#') && has_char(s, i + 1, '(') {
        Some(i + 2)
    } else if has_char(s, i, ',') {
        if has_char(s, i + 1, '@') {
            Some(i + 2)
        } else {
            Some(i + 1)
        }
    } else {
        None
    }
}

/// A punctuator at `i`.
pub open spec fn spec_lex_punctuator(s: Seq<char>, i: int) -> Lexed {
    match spec_punctuator_end(s, i) {
        Some(end) => Lexed::Token { token: TokenView::Punctuator(s.subrange(i, end)), end },
        None => Lexed::Failure { kind: LexErrorKind::Tag, at: i },
    }
}

/// The longest run of spaces and line feeds at `i`, which is not empty.
pub open spec fn spec_lex_whitespace(s: Seq<char>, i: int) -> Lexed {
    let end = scan(s, i, CharClass::Blank);
    if end > i {
        Lexed::Token { token: TokenView::Whitespace, end }
    } else {
        Lexed::Failure { kind: LexErrorKind::Tag, at: i }
    }
}

/// A comment at `i`: from `;` to the end of the input, or to the next line feed and
/// over it.
pub open spec fn spec_lex_comment(s: Seq<char>, i: int) -> Lexed {
    if has_char(s, i, ';') {
        let stop = scan(s, i + 1, CharClass::NotLineFeed);
        Lexed::Token {
            token: TokenView::Comment,
            end: if stop < s.len() {
                stop + 1
            } else {
                stop
            },
        }
    } else {
        Lexed::Failure { kind: LexErrorKind::Tag, at: i }
    }
}

/// The next token at `i`. The kinds are tried in a fixed order and the first that gives
/// a token wins: string, boolean, character, identifier, number, punctuator, blanks,
/// comment. An integer literal that is too large ends the search. Where no kind gives
/// a token, the failure is at `i`.
pub open spec fn spec_lex_input(s: Seq<char>, i: int) -> Lexed {
    if spec_lex_string(s, i) is Token {
        spec_lex_string(s, i)
    } else if spec_lex_boolean(s, i) is Token {
        spec_lex_boolean(s, i)
    } else if spec_lex_character(s, i) is Token {
        spec_lex_character(s, i)
    } else if spec_lex_identifier(s, i) is Token {
        spec_lex_identifier(s, i)
    } else if spec_lex_number(s, i) is Token {
        spec_lex_number(s, i)
    } else if spec_lex_number(s, i) matches Lexed::Failure { kind: LexErrorKind::TooLarge, .. } {
        spec_lex_number(s, i)
    } else if spec_lex_punctuator(s, i) is Token {
        spec_lex_punctuator(s, i)
    } else if spec_lex_whitespace(s, i) is Token {
        spec_lex_whitespace(s, i)
    } else if spec_lex_comment(s, i) is Token {
        spec_lex_comment(s, i)
    } else {
        Lexed::Failure { kind: LexErrorKind::Tag, at: i }
    }
}

/// Whether `lexed` is an outcome for the input of length `len` from `i` on: a token
/// that holds at least one character of it, or a failure at an index of it.
pub open spec fn lexed_within(lexed: Lexed, i: int, len: int) -> bool {
    match lexed {
        Lexed::Token { end, .. } => i < end <= len,
        Lexed::Failure { at, .. } => i <= at <= len,
    }
}

// ---------------------------------------------------------------------------------
// What holds of the grammar
// ---------------------------------------------------------------------------------

/// The body of a string literal gives a string token that ends behind `i`, or fails at
/// an index from `i` on.
pub proof fn lemma_string_body(s: Seq<char>, i: int, content: Seq<char>)
    requires
        0 <= i <= s.len(),
    ensures
        lexed_within(spec_string_body(s, i, content), i, s.len() as int),
        spec_string_body(s, i, content) matches Lexed::Token { token, .. } ==> token is String,
    decreases s.len() - i,
{
    if i < s.len() && s[i] != '"' {
        if s[i] == '\\' {
            if i + 1 < s.len() {
                if s[i + 1] == '\\' {
                    lemma_string_body(s, i + 2, content.push('\\'));
                } else if s[i + 1] == '"' {
                    lemma_string_body(s, i + 2, content.push('"'));
                } else if s[i + 1] == 'n' {
                    lemma_string_body(s, i + 2, content.push('\n'));
                }
            }
        } else {
            lemma_string_body(s, i + 1, content.push(s[i]));
        }
    }
}

/// Every token holds at least one character and ends in the input, and every failure
/// is at an index of the input from `i` on.
pub proof fn lemma_lex_input_within(s: Seq<char>, i: int)
    requires
        0 <= i <= s.len(),
    ensures
        lexed_within(spec_lex_input(s, i), i, s.len() as int),
{
    let len = s.len() as int;
    if has_char(s, i, '"') {
        lemma_string_body(s, i + 1, Seq::empty());
    }
    assert(lexed_within(spec_lex_string(s, i), i, len));
    assert(lexed_within(spec_lex_boolean(s, i), i, len));
    assert(lexed_within(spec_lex_character(s, i), i, len));
    if i < len {
        lemma_scan(s, i + 1, CharClass::Subsequent);
        lemma_scan(s, i + 1, CharClass::NotLineFeed);
    }
    assert(lexed_within(spec_lex_identifier(s, i), i, len));
    let first = after_sign(s, i);
    let point = scan(s, first, CharClass::DecDigit);
    lemma_scan(s, first, CharClass::DecDigit);
    if point < len {
        lemma_scan(s, point + 1, CharClass::DecDigit);
    }
    assert(lexed_within(spec_lex_number(s, i), i, len));
    assert(lexed_within(spec_lex_punctuator(s, i), i, len));
    lemma_scan(s, i, CharClass::Blank);
    assert(lexed_within(spec_lex_whitespace(s, i), i, len));
    assert(lexed_within(spec_lex_comment(s, i), i, len));
}

/// The source texts of the tokens into which `s` falls from `i` on, blanks and comments
/// among them, or `None` where some index gives no token.
pub open spec fn token_texts(s: Seq<char>, i: int) -> Option<Seq<Seq<char>>>
    decreases s.len() - i,
{
    if i < 0 || i >= s.len() {
        Some(Seq::empty())
    } else {
        match spec_lex_input(s, i) {
            Lexed::Token { end, .. } => {
                proof {
                    lemma_lex_input_within(s, i);
                }
                match token_texts(s, end) {
                    Some(texts) => Some(seq![s.subrange(i, end)] + texts),
                    None => None,
                }
            },
            Lexed::Failure { .. } => None,
        }
    }
}

/// The texts of the tokens from `i` on, put together, are the input from `i` on.
pub proof fn lemma_token_texts(s: Seq<char>, i: int)
    requires
        0 <= i <= s.len(),
        token_texts(s, i) is Some,
    ensures
        token_texts(s, i).unwrap().flatten() == s.subrange(i, s.len() as int),
    decreases s.len() - i,
{
    let len = s.len() as int;
    if i >= len {
        assert(s.subrange(i, len) =~= Seq::<char>::empty());
    } else {
        lemma_lex_input_within(s, i);
        let end = spec_lex_input(s, i)->end;
        lemma_token_texts(s, end);
        let head = seq![s.subrange(i, end)];
        let tail = token_texts(s, end).unwrap();
        let all = head + tail;
        assert(all.first() == s.subrange(i, end));
        assert(all.drop_first() =~= tail);
        assert(all.flatten() == s.subrange(i, end) + tail.flatten());
        assert(s.subrange(i, end) + s.subrange(end, len) =~= s.subrange(i, len));
    }
}

/// Round trip: where a text falls into tokens from its first character to its last,
/// the source texts of the tokens, put together in order, are the text.
pub proof fn law_tokens_cover_input(s: Seq<char>)
    requires
        token_texts(s, 0) is Some,
    ensures
        token_texts(s, 0).unwrap().flatten() == s,
{
    lemma_token_texts(s, 0);
    assert(s.subrange(0, s.len() as int) =~= s);
}

/// A text that the tokenizer takes as one number token gives a decimal literal if it
/// holds a point, and an integer if it holds none.
pub proof fn law_number_kind(s: Seq<char>)
    requires
        spec_lex_input(s, 0) matches Lexed::Token { token: TokenView::Number(_), end } && end
            == s.len(),
    ensures
        spec_lex_input(s, 0) matches Lexed::Token { token: TokenView::Number(n), .. } && (n is Float
            <==> s.contains('.')),
{
    if has_char(s, 0, '"') {
        lemma_string_body(s, 1, Seq::empty());
    }
    assert(spec_lex_input(s, 0) == spec_lex_number(s, 0));
    let first = after_sign(s, 0);
    let point = scan(s, first, CharClass::DecDigit);
    lemma_scan(s, first, CharClass::DecDigit);
    if is_float_at(s, 0) {
        assert(s[point] == '.');
    } else {
        assert forall|k: int| 0 <= k < s.len() implies s[k] != '.' by {
            if k >= first {
                assert(in_class(CharClass::DecDigit, s[k]));
            }
        }
    }
}

/// Whether `t` is a decimal literal: a sign or none, digits or none, a point, and at
/// least one digit.
pub open spec fn is_decimal_literal(t: Seq<char>) -> bool {
    let point = scan(t, after_sign(t, 0), CharClass::DecDigit);
    &&& has_char(t, point, '.')
    &&& point + 1 < t.len()
    &&& scan(t, point + 1, CharClass::DecDigit) == t.len()
}

/// A run in a part of the input is the run in the input, as far as the part goes.
pub proof fn lemma_scan_in_part(s: Seq<char>, from: int, to: int, k: int, class: CharClass)
    requires
        0 <= from <= k <= to <= s.len(),
    ensures
        scan(s.subrange(from, to), k - from, class) == if scan(s, k, class) <= to {
            scan(s, k, class) - from
        } else {
            to - from
        },
    decreases to - k,
{
    let part = s.subrange(from, to);
    lemma_scan(s, k, class);
    if k < to {
        assert(part[k - from] == s[k]);
        if in_class(class, s[k]) {
            lemma_scan_in_part(s, from, to, k + 1, class);
        }
    }
}

/// The text of a number token that is a decimal literal is a decimal literal.
pub proof fn law_decimal_tokens_are_literals(s: Seq<char>, i: int)
    requires
        0 <= i <= s.len(),
        spec_lex_number(s, i) matches Lexed::Token { token: TokenView::Number(n), .. } && n is Float,
    ensures
        spec_lex_number(s, i) matches Lexed::Token {
            token: TokenView::Number(NumView::Float(text)),
            ..
        } && is_decimal_literal(text),
{
    let first = after_sign(s, i);
    let point = scan(s, first, CharClass::DecDigit);
    lemma_scan(s, first, CharClass::DecDigit);
    let end = scan(s, point + 1, CharClass::DecDigit);
    lemma_scan(s, point + 1, CharClass::DecDigit);
    let text = s.subrange(i, end);
    assert(after_sign(text, 0) == first - i) by {
        if i < end {
            assert(text[0] == s[i]);
        }
    }
    lemma_scan_in_part(s, i, end, first, CharClass::DecDigit);
    assert(text[point - i] == s[point]);
    lemma_scan_in_part(s, i, end, point + 1, CharClass::DecDigit);
}

// ---------------------------------------------------------------------------------
// The lexers, on a slice of characters and a start index
// ---------------------------------------------------------------------------------

/// Whether `input` holds `c` at index `i`.
fn holds_char(input: &[char], i: usize, c: char) -> (b: bool)
    ensures
        b == has_char(input@, i as int, c),
        b ==> i < usize::MAX,
{
    i < input.len() && input[i] == c
}

/// Whether a token may end at `i`.
fn token_may_end(input: &[char], i: usize) -> (b: bool)
    ensures
        b == at_token_end(input@, i as int),
{
    i >= input.len() || is_delimiter_char(input[i])
}

/// The string literal that begins at `start`.
pub fn lex_string_at(input: &[char], start: usize) -> (r: LexResult)
    requires
        start <= input@.len(),
    ensures
        lexed_of(r) == spec_lex_string(input@, start as int),
        lexed_within(lexed_of(r), start as int, input@.len() as int),
{
    let len: usize = input.len();
    if !holds_char(input, start, '"') {
        return Err((start, LexErrorKind::Tag));
    }
    let mut content: Vec<char> = Vec::new();
    let mut i: usize = start + 1;
    while i < len
        invariant
            len == input@.len(),
            start < i <= len,
            spec_lex_string(input@, start as int) == spec_string_body(
                input@,
                i as int,
                content@,
            ),
        decreases len - i,
    {
        let c: char = input[i];
        if c == '"' {
            let text = string_of(content.as_slice(), 0, content.len());
            assert(text@ == content@) by {
                assert(content@.subrange(0, content@.len() as int) =~= content@);
            }
            return Ok((i + 1, Token::String(text)));
        } else if c == '\\' {
            if i + 1 >= len {
                return Err((i, LexErrorKind::EscapedTransform));
            }
            let e: char = input[i + 1];
            if e == '\\' {
                content.push('\\');
            } else if e == '"' {
                content.push('"');
            } else if e == 'n' {
                content.push('\n');
            } else {
                return Err((i + 1, LexErrorKind::Tag));
            }
            i += 2;
        } else {
            content.push(c);
            i += 1;
        }
    }
    Err((len, LexErrorKind::Tag))
}

/// The boolean that begins at `start`.
pub fn lex_boolean_at(input: &[char], start: usize) -> (r: LexResult)
    requires
        start <= input@.len(),
    ensures
        lexed_of(r) == spec_lex_boolean(input@, start as int),
        lexed_within(lexed_of(r), start as int, input@.len() as int),
{
    if !holds_char(input, start, '#') {
        Err((start, LexErrorKind::Tag))
    } else if holds_char(input, start + 1, 't') {
        Ok((start + 2, Token::Boolean(true)))
    } else if holds_char(input, start + 1, 'f') {
        Ok((start + 2, Token::Boolean(false)))
    } else {
        Err((start + 1, LexErrorKind::OneOf))
    }
}

/// Whether `input` spells `space` at `i`.
fn reads_space(input: &[char], i: usize) -> (b: bool)
    requires
        i <= input@.len(),
    ensures
        b == spells_space(input@, i as int),
        b ==> i + 5 <= usize::MAX,
{
    input.len() - i >= 5 && input[i] == 's' && input[i + 1] == 'p' && input[i + 2] == 'a'
        && input[i + 3] == 'c' && input[i + 4] == 'e'
}

/// Whether `input` spells `newline` at `i`.
fn reads_newline(input: &[char], i: usize) -> (b: bool)
    requires
        i <= input@.len(),
    ensures
        b == spells_newline(input@, i as int),
        b ==> i + 7 <= usize::MAX,
{
    input.len() - i >= 7 && input[i] == 'n' && input[i + 1] == 'e' && input[i + 2] == 'w'
        && input[i + 3] == 'l' && input[i + 4] == 'i' && input[i + 5] == 'n' && input[i + 6]
        == 'e'
}

/// The character `c`, read up to `end`, if a token may end there.
fn character_end(input: &[char], c: char, end: usize) -> (r: LexResult)
    ensures
        lexed_of(r) == spec_character_end(input@, c, end as int),
{
    if token_may_end(input, end) {
        Ok((end, Token::Character(c)))
    } else {
        Err((end, LexErrorKind::OneOf))
    }
}

/// The character literal that begins at `start`.
pub fn lex_character_at(input: &[char], start: usize) -> (r: LexResult)
    requires
        start <= input@.len(),
    ensures
        lexed_of(r) == spec_lex_character(input@, start as int),
        lexed_within(lexed_of(r), start as int, input@.len() as int),
{
    if !(holds_char(input, start, '#') && holds_char(input, start + 1, '\\')) {
        return Err((start, LexErrorKind::Tag));
    }
    let body: usize = start + 2;
    if reads_space(input, body) {
        character_end(input, ' ', body + 5)
    } else if reads_newline(input, body) {
        character_end(input, '\n', body + 7)
    } else if body < input.len() {
        character_end(input, input[body], body + 1)
    } else {
        Err((body, LexErrorKind::Eof))
    }
}

/// The end of the identifier that is not peculiar and begins at `start`.
fn non_peculiar_at(input: &[char], start: usize) -> (r: Option<usize>)
    requires
        start <= input@.len(),
    ensures
        r is Some <==> spec_non_peculiar(input@, start as int) is Some,
        r matches Some(end) ==> spec_non_peculiar(input@, start as int) == Some(end as int)
            && start < end <= input@.len(),
{
    if start < input.len() && is_initial_char(input[start]) {
        Some(scan_class(input, start + 1, CharClass::Subsequent))
    } else {
        None
    }
}

/// The end of the identifier that begins at `start`, before the look at what follows.
fn identifier_end(input: &[char], start: usize) -> (r: Option<usize>)
    requires
        start <= input@.len(),
    ensures
        r is Some <==> spec_identifier_end(input@, start as int) is Some,
        r matches Some(end) ==> spec_identifier_end(input@, start as int) == Some(end as int)
            && start < end <= input@.len(),
{
    let plain = non_peculiar_at(input, start);
    if plain.is_some() {
        plain
    } else if holds_char(input, start, '+') || holds_char(input, start, '-') {
        Some(start + 1)
    } else if holds_char(input, start, '.') && holds_char(input, start + 1, '.') && holds_char(
        input,
        start + 2,
        '.',
    ) {
        Some(start + 3)
    } else {
        None
    }
}

/// The identifier that begins at `start`.
pub fn lex_identifier_at(input: &[char], start: usize) -> (r: LexResult)
    requires
        start <= input@.len(),
    ensures
        lexed_of(r) == spec_lex_identifier(input@, start as int),
        lexed_within(lexed_of(r), start as int, input@.len() as int),
{
    match identifier_end(input, start) {
        None => Err((start, LexErrorKind::Tag)),
        Some(end) => {
            if token_may_end(input, end) {
                Ok((end, Token::Identifier(string_of(input, start, end))))
            } else {
                Err((end, LexErrorKind::OneOf))
            }
        },
    }
}

/// The largest magnitude of an `i32`, that of its least value.
pub const MAGNITUDE_LIMIT: u64 = 2147483648;

/// `decimal_value` grows with each further digit.
pub proof fn lemma_decimal_value_grows(s: Seq<char>, from: int, mid: int, to: int)
    requires
        0 <= from <= mid <= to <= s.len(),
        forall|k: int| from <= k < to ==> is_dec_digit(#[trigger] s[k]),
    ensures
        0 <= decimal_value(s, from, mid) <= decimal_value(s, from, to),
    decreases to - mid,
{
    lemma_decimal_value_nonnegative(s, from, mid);
    if mid < to {
        lemma_decimal_value_grows(s, from, mid, to - 1);
        assert(is_dec_digit(s[to - 1]));
    }
}

/// `decimal_value` of digits is not negative.
pub proof fn lemma_decimal_value_nonnegative(s: Seq<char>, from: int, to: int)
    requires
        0 <= from <= to <= s.len(),
        forall|k: int| from <= k < to ==> is_dec_digit(#[trigger] s[k]),
    ensures
        0 <= decimal_value(s, from, to),
    decreases to - from,
{
    if from < to {
        lemma_decimal_value_nonnegative(s, from, to - 1);
        assert(is_dec_digit(s[to - 1]));
    }
}

/// The number that the digits `input[from..to]` write, or `None` where it is above
/// `MAGNITUDE_LIMIT`.
fn magnitude_of(input: &[char], from: usize, to: usize) -> (r: Option<u64>)
    requires
        from <= to <= input@.len(),
        forall|k: int| from <= k < to ==> is_dec_digit(#[trigger] input@[k]),
    ensures
        r matches Some(m) ==> m == decimal_value(input@, from as int, to as int) && m
            <= MAGNITUDE_LIMIT,
        r is None ==> decimal_value(input@, from as int, to as int) > MAGNITUDE_LIMIT,
{
    let mut value: u64 = 0;
    let mut k: usize = from;
    while k < to
        invariant
            from <= k <= to <= input@.len(),
            forall|j: int| from <= j < to ==> is_dec_digit(#[trigger] input@[j]),
            value == decimal_value(input@, from as int, k as int),
            value <= MAGNITUDE_LIMIT,
        decreases to - k,
    {
        let c: char = input[k];
        assert(is_dec_digit(c));
        let digit: u64 = (c as u32 - '0' as u32) as u64;
        let next: u64 = value * 10 + digit;
        assert(next == decimal_value(input@, from as int, k + 1));
        if next > MAGNITUDE_LIMIT {
            proof {
                lemma_decimal_value_grows(input@, from as int, k + 1, to as int);
            }
            return None;
        }
        value = next;
        k += 1;
    }
    Some(value)
}

/// The number that begins at `start`.
pub fn lex_number_at(input: &[char], start: usize) -> (r: LexResult)
    requires
        start <= input@.len(),
    ensures
        lexed_of(r) == spec_lex_number(input@, start as int),
        lexed_within(lexed_of(r), start as int, input@.len() as int),
{
    let negative: bool = holds_char(input, start, '-');
    let first: usize = if negative || holds_char(input, start, '+') {
        start + 1
    } else {
        start
    };
    let point: usize = scan_class(input, first, CharClass::DecDigit);
    if holds_char(input, point, '.') {
        let end: usize = scan_class(input, point + 1, CharClass::DecDigit);
        if end > point + 1 {
            return Ok((end, Token::Number(LispNum::Float(string_of(input, start, end)))));
        }
    }
    if point > first {
        proof {
            lemma_scan(input@, first as int, CharClass::DecDigit);
        }
        match magnitude_of(input, first, point) {
            Some(m) => {
                if negative {
                    let value: i64 = -(m as i64);
                    Ok((point, Token::Number(LispNum::Integer(value as i32))))
                } else if m < MAGNITUDE_LIMIT {
                    Ok((point, Token::Number(LispNum::Integer(m as i32))))
                } else {
                    Err((point, LexErrorKind::TooLarge))
                }
            },
            None => Err((point, LexErrorKind::TooLarge)),
        }
    } else {
        Err((first, LexErrorKind::Digit))
    }
}

/// The end of the punctuator that begins at `start`.
fn punctuator_end(input: &[char], start: usize) -> (r: Option<usize>)
    requires
        start <= input@.len(),
    ensures
        r is Some <==> spec_punctuator_end(input@, start as int) is Some,
        r matches Some(end) ==> spec_punctuator_end(input@, start as int) == Some(end as int)
            && start < end <= input@.len(),
{
    if holds_char(input, start, '(') || holds_char(input, start, ')') || holds_char(
        input,
        start,
        '\'',
    ) || holds_char(input, start, '`') || holds_char(input, start, '.') {
        Some(start + 1)
    } else if holds_char(input, start, '#') && holds_char(input, start + 1, '(') {
        Some(start + 2)
    } else if holds_char(input, start, ',') {
        if holds_char(input, start + 1, '@') {
            Some(start + 2)
        } else {
            Some(start + 1)
        }
    } else {
        None
    }
}

/// The punctuator that begins at `start`.
pub fn lex_punctuator_at(input: &[char], start: usize) -> (r: LexResult)
    requires
        start <= input@.len(),
    ensures
        lexed_of(r) == spec_lex_punctuator(input@, start as int),
        lexed_within(lexed_of(r), start as int, input@.len() as int),
{
    match punctuator_end(input, start) {
        Some(end) => Ok((end, Token::Punctuator(string_of(input, start, end)))),
        None => Err((start, LexErrorKind::Tag)),
    }
}

/// The run of blanks that begins at `start`.
pub fn lex_whitespace_at(input: &[char], start: usize) -> (r: LexResult)
    requires
        start <= input@.len(),
    ensures
        lexed_of(r) == spec_lex_whitespace(input@, start as int),
        lexed_within(lexed_of(r), start as int, input@.len() as int),
{
    let end: usize = scan_class(input, start, CharClass::Blank);
    if end > start {
        Ok((end, Token::Whitespace))
    } else {
        Err((start, LexErrorKind::Tag))
    }
}

/// The comment that begins at `start`.
pub fn lex_comment_at(input: &[char], start: usize) -> (r: LexResult)
    requires
        start <= input@.len(),
    ensures
        lexed_of(r) == spec_lex_comment(input@, start as int),
        lexed_within(lexed_of(r), start as int, input@.len() as int),
{
    if holds_char(input, start, ';') {
        let stop: usize = scan_class(input, start + 1, CharClass::NotLineFeed);
        if stop < input.len() {
            Ok((stop + 1, Token::Comment))
        } else {
            Ok((stop, Token::Comment))
        }
    } else {
        Err((start, LexErrorKind::Tag))
    }
}

/// The next token of `input` from `start` on.
pub fn lex_input_at(input: &[char], start: usize) -> (r: LexResult)
    requires
        start <= input@.len(),
    ensures
        lexed_of(r) == spec_lex_input(input@, start as int),
        lexed_within(lexed_of(r), start as int, input@.len() as int),
{
    let string = lex_string_at(input, start);
    if string.is_ok() {
        return string;
    }
    let boolean = lex_boolean_at(input, start);
    if boolean.is_ok() {
        return boolean;
    }
    let character = lex_character_at(input, start);
    if character.is_ok() {
        return character;
    }
    let identifier = lex_identifier_at(input, start);
    if identifier.is_ok() {
        return identifier;
    }
    let number = lex_number_at(input, start);
    match number {
        Ok(_) => {
            return number;
        },
        Err((_, LexErrorKind::TooLarge)) => {
            return number;
        },
        Err(_) => {},
    }
    let punctuator = lex_punctuator_at(input, start);
    if punctuator.is_ok() {
        return punctuator;
    }
    let whitespace = lex_whitespace_at(input, start);
    if whitespace.is_ok() {
        return whitespace;
    }
    let comment = lex_comment_at(input, start);
    if comment.is_ok() {
        return comment;
    }
    Err((start, LexErrorKind::Tag))
}

// ---------------------------------------------------------------------------------
// The lexers, on a string slice
// ---------------------------------------------------------------------------------

/// The outcome `r` on the characters of `input`, with the rest as a string slice.
fn with_rest<'a>(input: &'a str, len: usize, r: LexResult) -> (out: StrLexResult<'a>)
    requires
        len == input@.len(),
        lexed_within(lexed_of(r), 0, len as int),
    ensures
        str_result_is(input@, out, lexed_of(r)),
{
    match r {
        Ok((end, token)) => Ok((input.substring_char(end, len), token)),
        Err((at, kind)) => Err(LexFailure::new(input.substring_char(at, len), kind)),
    }
}

/// The next token of `input` and what follows it.
pub fn lex_input(input: &str) -> (r: StrLexResult<'_>)
    ensures
        str_result_is(input@, r, spec_lex_input(input@, 0)),
{
    let chars = chars_of(input);
    with_rest(input, chars.len(), lex_input_at(chars.as_slice(), 0))
}

/// The string literal at the head of `input` and what follows it.
pub fn lex_string(input: &str) -> (r: StrLexResult<'_>)
    ensures
        str_result_is(input@, r, spec_lex_string(input@, 0)),
{
    let chars = chars_of(input);
    with_rest(input, chars.len(), lex_string_at(chars.as_slice(), 0))
}

/// The boolean at the head of `input` and what follows it.
pub fn lex_boolean(input: &str) -> (r: StrLexResult<'_>)
    ensures
        str_result_is(input@, r, spec_lex_boolean(input@, 0)),
{
    let chars = chars_of(input);
    with_rest(input, chars.len(), lex_boolean_at(chars.as_slice(), 0))
}

/// Whether `input` begins with a delimiter, which is not read. The failure is of the
/// kind `OneOf`, in front of the whole input.
pub fn peek_delimiter(input: &str) -> (r: Result<(), LexFailure<'_>>)
    ensures
        r is Ok <==> input@.len() > 0 && is_delimiter(input@[0]),
        r matches Err(f) ==> f.kind == LexErrorKind::OneOf && f.rest@ == input@,
{
    let chars = chars_of(input);
    if chars.len() > 0 && is_delimiter_char(chars[0]) {
        Ok(())
    } else {
        Err(LexFailure::new(input, LexErrorKind::OneOf))
    }
}

/// The character literal at the head of `input` and what follows it.
pub fn lex_character(input: &str) -> (r: StrLexResult<'_>)
    ensures
        str_result_is(input@, r, spec_lex_character(input@, 0)),
{
    let chars = chars_of(input);
    with_rest(input, chars.len(), lex_character_at(chars.as_slice(), 0))
}

/// The identifier that is not peculiar at the head of `input`: what follows it, and
/// its text. The failure is of the kind `OneOf`, in front of the whole input.
pub fn non_peculiar(input: &str) -> (r: Result<(&str, &str), LexFailure<'_>>)
    ensures
        match r {
            Ok((rest, text)) => {
                &&& spec_non_peculiar(input@, 0) matches Some(end)
                &&& 0 < end <= input@.len()
                &&& text@ == input@.subrange(0, end)
                &&& rest@ == input@.subrange(end, input@.len() as int)
            },
            Err(f) => {
                &&& spec_non_peculiar(input@, 0) is None
                &&& f.kind == LexErrorKind::OneOf
                &&& f.rest@ == input@
            },
        },
{
    let chars = chars_of(input);
    match non_peculiar_at(chars.as_slice(), 0) {
        Some(end) => Ok((input.substring_char(end, chars.len()), input.substring_char(0, end))),
        None => Err(LexFailure::new(input, LexErrorKind::OneOf)),
    }
}

/// The identifier at the head of `input` and what follows it.
pub fn lex_identifier(input: &str) -> (r: StrLexResult<'_>)
    ensures
        str_result_is(input@, r, spec_lex_identifier(input@, 0)),
{
    let chars = chars_of(input);
    with_rest(input, chars.len(), lex_identifier_at(chars.as_slice(), 0))
}

/// The number at the head of `input` and what follows it.
pub fn lex_number(input: &str) -> (r: StrLexResult<'_>)
    ensures
        str_result_is(input@, r, spec_lex_number(input@, 0)),
{
    let chars = chars_of(input);
    with_rest(input, chars.len(), lex_number_at(chars.as_slice(), 0))
}

/// The punctuator at the head of `input` and what follows it.
pub fn lex_punctuator(input: &str) -> (r: StrLexResult<'_>)
    ensures
        str_result_is(input@, r, spec_lex_punctuator(input@, 0)),
{
    let chars = chars_of(input);
    with_rest(input, chars.len(), lex_punctuator_at(chars.as_slice(), 0))
}

/// The run of blanks at the head of `input` and what follows it.
pub fn lex_whitespace(input: &str) -> (r: StrLexResult<'_>)
    ensures
        str_result_is(input@, r, spec_lex_whitespace(input@, 0)),
{
    let chars = chars_of(input);
    with_rest(input, chars.len(), lex_whitespace_at(chars.as_slice(), 0))
}

/// The comment at the head of `input` and what follows it.
pub fn lex_comment(input: &str) -> (r: StrLexResult<'_>)
    ensures
        str_result_is(input@, r, spec_lex_comment(input@, 0)),
{
    let chars = chars_of(input);
    with_rest(input, chars.len(), lex_comment_at(chars.as_slice(), 0))
}

} // verus!
