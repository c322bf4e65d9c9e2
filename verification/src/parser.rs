//! The datum parser: from a stream of positioned tokens to trees of data.
//!
//! What the parser makes of a stream is stated by `spec_parse_datum` and the functions
//! beside it, over the sequence of the stream's items and an index into it. The
//! executable parser is proved to give exactly that result and to stop at exactly
//! that index.

use vstd::prelude::*;
use crate::lexer::LispNum;
use crate::lexer::NumView;
use crate::lexer::PositionedToken;
use crate::lexer::Token;
use crate::lexer::TokenView;
use crate::lexer::TokenWithPosition;
use crate::CompilerError;
use crate::CompilerErrorView;

verus! {

/// A datum: the tree that a piece of source text writes, before it is given a meaning.
#[derive(Debug, PartialEq)]
pub enum Datum {
    /// A boolean.
    Boolean(bool),
    /// A number.
    Number(LispNum),
    /// A character.
    Character(char),
    /// A string.
    String(String),
    /// An identifier.
    Identifier(String),
    /// A list without a dot: its elements in source order.
    List(Vec<Datum>),
    /// A list with a dot: the elements before the dot, and the one behind it.
    DottedPair(Vec<Datum>, Box<Datum>),
    /// `'` and a datum.
    Quote(Box<Datum>),
    /// `` ` `` and a datum.
    Backquote(Box<Datum>),
    /// `,` and a datum.
    Unquote(Box<Datum>),
    /// `,@` and a datum.
    UnquoteSplice(Box<Datum>),
    /// A vector: its elements in source order.
    Vector(Vec<Datum>),
}

/// The mathematical model of a [`Datum`].
pub enum DatumView {
    Boolean(bool),
    Number(NumView),
    Character(char),
    String(Seq<char>),
    Identifier(Seq<char>),
    List(Seq<DatumView>),
    DottedPair(Seq<DatumView>, Box<DatumView>),
    Quote(Box<DatumView>),
    Backquote(Box<DatumView>),
    Unquote(Box<DatumView>),
    UnquoteSplice(Box<DatumView>),
    Vector(Seq<DatumView>),
}

impl Datum {
    /// The model of the datum.
    pub open spec fn model(&self) -> DatumView
        decreases self,
    {
        match self {
            Datum::Boolean(b) => DatumView::Boolean(*b),
            Datum::Number(n) => DatumView::Number(n@),
            Datum::Character(c) => DatumView::Character(*c),
            Datum::String(s) => DatumView::String(s@),
            Datum::Identifier(s) => DatumView::Identifier(s@),
            Datum::List(items) => DatumView::List(
                Seq::new(
                    items@.len(),
                    |k: int|
                        if 0 <= k < items@.len() {
                            items@[k].model()
                        } else {
                            DatumView::Boolean(false)
                        },
                ),
            ),
            Datum::DottedPair(items, tail) => DatumView::DottedPair(
                Seq::new(
                    items@.len(),
                    |k: int|
                        if 0 <= k < items@.len() {
                            items@[k].model()
                        } else {
                            DatumView::Boolean(false)
                        },
                ),
                Box::new(tail.model()),
            ),
            Datum::Quote(d) => DatumView::Quote(Box::new(d.model())),
            Datum::Backquote(d) => DatumView::Backquote(Box::new(d.model())),
            Datum::Unquote(d) => DatumView::Unquote(Box::new(d.model())),
            Datum::UnquoteSplice(d) => DatumView::UnquoteSplice(Box::new(d.model())),
            Datum::Vector(items) => DatumView::Vector(
                Seq::new(
                    items@.len(),
                    |k: int|
                        if 0 <= k < items@.len() {
                            items@[k].model()
                        } else {
                            DatumView::Boolean(false)
                        },
                ),
            ),
        }
    }
}

impl View for Datum {
    type V = DatumView;

    open spec fn view(&self) -> DatumView {
        self.model()
    }
}

/// The models of a sequence of data, one for one.
pub open spec fn datum_views(items: Seq<Datum>) -> Seq<DatumView> {
    Seq::new(items.len(), |k: int| items[k]@)
}

/// The model of a list, a dotted pair and a vector, over the models of their elements.
pub proof fn lemma_datum_view(d: Datum)
    ensures
        d matches Datum::List(items) ==> d@ == DatumView::List(datum_views(items@)),
        d matches Datum::Vector(items) ==> d@ == DatumView::Vector(datum_views(items@)),
        d matches Datum::DottedPair(items, tail) ==> d@ == DatumView::DottedPair(
            datum_views(items@),
            Box::new(tail@),
        ),
{
    match d {
        Datum::List(items) => {
            assert(d@->List_0 =~= datum_views(items@));
        },
        Datum::Vector(items) => {
            assert(d@->Vector_0 =~= datum_views(items@));
        },
        Datum::DottedPair(items, tail) => {
            assert(d@->DottedPair_0 =~= datum_views(items@));
        },
        _ => {},
    }
}

/// A copy of the elements of `items`.
fn clone_items(items: &Vec<Datum>) -> (r: Vec<Datum>)
    ensures
        datum_views(r@) == datum_views(items@),
    decreases items,
{
    let mut out: Vec<Datum> = Vec::new();
    let mut i: usize = 0;
    while i < items.len()
        invariant
            i <= items@.len(),
            out@.len() == i,
            forall|k: int| 0 <= k < i ==> out@[k]@ == items@[k]@,
        decreases items@.len() - i,
    {
        out.push(items[i].clone());
        i += 1;
    }
    assert(datum_views(out@) =~= datum_views(items@));
    out
}

impl Clone for Datum {
    fn clone(&self) -> (r: Self)
        ensures
            r@ == self@,
        decreases self,
    {
        proof {
            lemma_datum_view(*self);
        }
        let r = match self {
            Datum::Boolean(b) => Datum::Boolean(*b),
            Datum::Number(n) => Datum::Number(n.clone()),
            Datum::Character(c) => Datum::Character(*c),
            Datum::String(s) => Datum::String(s.clone()),
            Datum::Identifier(s) => Datum::Identifier(s.clone()),
            Datum::List(items) => Datum::List(clone_items(items)),
            Datum::DottedPair(items, tail) => Datum::DottedPair(
                clone_items(items),
                Box::new((**tail).clone()),
            ),
            Datum::Quote(d) => Datum::Quote(Box::new((**d).clone())),
            Datum::Backquote(d) => Datum::Backquote(Box::new((**d).clone())),
            Datum::Unquote(d) => Datum::Unquote(Box::new((**d).clone())),
            Datum::UnquoteSplice(d) => Datum::UnquoteSplice(Box::new((**d).clone())),
            Datum::Vector(items) => Datum::Vector(clone_items(items)),
        };
        proof {
            lemma_datum_view(r);
        }
        r
    }
}

// ---------------------------------------------------------------------------------
// Token streams
// ---------------------------------------------------------------------------------

/// An item of a token stream: a positioned token, or the error that ends the stream.
pub type TokenResult = Result<TokenWithPosition, CompilerError>;

/// The model of an item of a token stream.
pub type TokenItem = Result<PositionedToken, CompilerErrorView>;

/// The model of `item`.
pub open spec fn token_item(item: TokenResult) -> TokenItem {
    match item {
        Ok(token) => Ok(token@),
        Err(error) => Err(error@),
    }
}

/// The models of the items of a stream, one for one.
pub open spec fn token_items(items: Seq<TokenResult>) -> Seq<TokenItem> {
    Seq::new(items.len(), |k: int| token_item(items[k]))
}

/// The four abbreviations that stand before a datum.
#[derive(Debug, PartialEq, Eq, Clone, Copy, Structural)]
pub enum Abbreviation {
    /// `'`
    Quote,
    /// `` ` ``
    Backquote,
    /// `,`
    Unquote,
    /// `,@`
    UnquoteSplice,
}

/// What a stream shows at an index, as far as the parser tells items apart.
#[derive(Debug, PartialEq, Eq, Clone, Copy, Structural)]
pub enum Peeked {
    /// The stream has ended.
    End,
    /// An error.
    Failed,
    /// A boolean, a number, a character, a string or an identifier.
    Simple,
    /// Blanks or a comment.
    Blank,
    /// `(`
    OpenList,
    /// `#(`
    OpenVector,
    /// One of the four abbreviations.
    Abbrev(Abbreviation),
    /// `)`
    Close,
    /// `.`
    Dot,
    /// A punctuator that is none of the above.
    Other,
}

/// What a punctuator with the text `text` is to the parser.
pub open spec fn punctuator_kind(text: Seq<char>) -> Peeked {
    if text == seq!['('] {
        Peeked::OpenList
    } else if text == seq!['#', '('] {
        Peeked::OpenVector
    } else if text == seq!['\''] {
        Peeked::Abbrev(Abbreviation::Quote)
    } else if text == seq!['`'] {
        Peeked::Abbrev(Abbreviation::Backquote)
    } else if text == seq![','] {
        Peeked::Abbrev(Abbreviation::Unquote)
    } else if text == seq![',', '@'] {
        Peeked::Abbrev(Abbreviation::UnquoteSplice)
    } else if text == seq![')'] {
        Peeked::Close
    } else if text == seq!['.'] {
        Peeked::Dot
    } else {
        Peeked::Other
    }
}

/// What the stream `ts` shows at `i`.
pub open spec fn spec_peek(ts: Seq<TokenItem>, i: int) -> Peeked {
    if i < 0 || i >= ts.len() {
        Peeked::End
    } else {
        match ts[i] {
            Err(_) => Peeked::Failed,
            Ok(t) => match t.token {
                TokenView::Whitespace => Peeked::Blank,
                TokenView::Comment => Peeked::Blank,
                TokenView::Punctuator(text) => punctuator_kind(text),
                _ => Peeked::Simple,
            },
        }
    }
}

/// A sequence of token results with a cursor: the items before the cursor have been
/// read, the one at the cursor is the next.
pub struct TokenStream {
    items: Vec<TokenResult>,
    cursor: usize,
}

impl TokenStream {
    /// All items of the stream, read or not.
    pub closed spec fn items(&self) -> Seq<TokenItem> {
        token_items(self.items@)
    }

    /// The number of items that have been read.
    pub closed spec fn cursor(&self) -> int {
        self.cursor as int
    }

    /// The number of items that have not been read.
    pub open spec fn remaining(&self) -> nat {
        if self.cursor() <= self.items().len() {
            (self.items().len() - self.cursor()) as nat
        } else {
            0
        }
    }

    /// A stream of the given items, none of them read.
    pub fn new(items: Vec<TokenResult>) -> (stream: Self)
        ensures
            stream.items() == token_items(items@),
            stream.cursor() == 0,
    {
        TokenStream { items, cursor: 0 }
    }

    /// Whether all items have been read.
    pub fn is_exhausted(&self) -> (b: bool)
        ensures
            b == (self.remaining() == 0),
            0 <= self.cursor(),
    {
        self.cursor >= self.items.len()
    }

    /// What the stream shows at the cursor.
    pub fn peek(&self) -> (p: Peeked)
        ensures
            p == spec_peek(self.items(), self.cursor()),
    {
        if self.cursor >= self.items.len() {
            return Peeked::End;
        }
        match &self.items[self.cursor] {
            Err(_) => Peeked::Failed,
            Ok(t) => match &t.token {
                Token::Whitespace => Peeked::Blank,
                Token::Comment => Peeked::Blank,
                Token::Punctuator(text) => punctuator_of(text.as_str()),
                _ => Peeked::Simple,
            },
        }
    }

    /// Moves the cursor over the next item, if there is one.
    pub fn advance(&mut self)
        ensures
            final(self).items() == old(self).items(),
            final(self).cursor() == if old(self).remaining() > 0 {
                old(self).cursor() + 1
            } else {
                old(self).cursor()
            },
    {
        if self.cursor < self.items.len() {
            self.cursor += 1;
        }
    }

    /// The next item, which is read, or `None` where the stream has ended.
    pub fn next(&mut self) -> (item: Option<TokenResult>)
        ensures
            final(self).items() == old(self).items(),
            old(self).remaining() == 0 ==> item is None && final(self).cursor() == old(
                self,
            ).cursor(),
            old(self).remaining() > 0 ==> final(self).cursor() == old(self).cursor() + 1 && (
            item matches Some(r) && token_item(r) == old(self).items()[old(self).cursor()]),
    {
        if self.cursor < self.items.len() {
            let item = match &self.items[self.cursor] {
                Ok(token) => Ok(token.clone()),
                Err(error) => Err(error.clone()),
            };
            self.cursor += 1;
            Some(item)
        } else {
            None
        }
    }

    /// The place of the token at the cursor: its line and its column.
    pub fn next_position(&self) -> (place: (usize, usize))
        requires
            self.remaining() > 0,
            self.items()[self.cursor()] is Ok,
        ensures
            place.0 == self.items()[self.cursor()]->Ok_0.line,
            place.1 == self.items()[self.cursor()]->Ok_0.column,
    {
        match &self.items[self.cursor] {
            Ok(token) => (token.line, token.column),
            Err(_) => (0, 0),
        }
    }

    /// The error at the cursor, which is read.
    fn take_error(&mut self) -> (error: CompilerError)
        requires
            spec_peek(old(self).items(), old(self).cursor()) == Peeked::Failed,
        ensures
            final(self).items() == old(self).items(),
            final(self).cursor() == old(self).cursor() + 1,
            error@ == old(self).items()[old(self).cursor()]->Err_0,
    {
        let error = match &self.items[self.cursor] {
            Err(error) => error.clone(),
            Ok(_) => CompilerError::TokenStreamEnded,
        };
        self.advance();
        error
    }
}

/// Whether `text` is the one character `c`.
fn is_one_char(text: &str, c: char) -> (b: bool)
    ensures
        b == (text@ == seq![c]),
{
    let b = text.unicode_len() == 1 && text.get_char(0) == c;
    assert(b ==> text@ =~= seq![c]);
    b
}

/// Whether `text` is the two characters `c` and `d`.
fn is_two_chars(text: &str, c: char, d: char) -> (b: bool)
    ensures
        b == (text@ == seq![c, d]),
{
    let b = text.unicode_len() == 2 && text.get_char(0) == c && text.get_char(1) == d;
    assert(b ==> text@ =~= seq![c, d]);
    b
}

/// What a punctuator with the text `text` is to the parser.
fn punctuator_of(text: &str) -> (p: Peeked)
    ensures
        p == punctuator_kind(text@),
{
    if is_one_char(text, '(') {
        Peeked::OpenList
    } else if is_two_chars(text, '#', '(') {
        Peeked::OpenVector
    } else if is_one_char(text, '\'') {
        Peeked::Abbrev(Abbreviation::Quote)
    } else if is_one_char(text, '`') {
        Peeked::Abbrev(Abbreviation::Backquote)
    } else if is_one_char(text, ',') {
        Peeked::Abbrev(Abbreviation::Unquote)
    } else if is_two_chars(text, ',', '@') {
        Peeked::Abbrev(Abbreviation::UnquoteSplice)
    } else if is_one_char(text, ')') {
        Peeked::Close
    } else if is_one_char(text, '.') {
        Peeked::Dot
    } else {
        Peeked::Other
    }
}

// ---------------------------------------------------------------------------------
// What the parser makes of a stream
// ---------------------------------------------------------------------------------

/// The result of a parse and the index at which it stopped.
pub struct Parsed {
    pub result: Result<DatumView, CompilerErrorView>,
    pub next: int,
}

/// The datum that the token `token` is by itself.
pub open spec fn simple_datum(token: TokenView) -> DatumView {
    match token {
        TokenView::Boolean(b) => DatumView::Boolean(b),
        TokenView::String(s) => DatumView::String(s),
        TokenView::Character(c) => DatumView::Character(c),
        TokenView::Number(n) => DatumView::Number(n),
        TokenView::Identifier(s) => DatumView::Identifier(s),
        _ => DatumView::Boolean(false),
    }
}

/// The datum `d` behind the abbreviation `a`.
pub open spec fn abbreviated(a: Abbreviation, d: DatumView) -> DatumView {
    match a {
        Abbreviation::Quote => DatumView::Quote(Box::new(d)),
        Abbreviation::Backquote => DatumView::Backquote(Box::new(d)),
        Abbreviation::Unquote => DatumView::Unquote(Box::new(d)),
        Abbreviation::UnquoteSplice => DatumView::UnquoteSplice(Box::new(d)),
    }
}

/// The error for the token at `i`, which can begin no datum.
pub open spec fn unexpected_at(ts: Seq<TokenItem>, i: int) -> CompilerErrorView {
    CompilerErrorView::UnexpectedToken(ts[i]->Ok_0.line, ts[i]->Ok_0.column)
}

/// One datum from `i` on.
///
/// Blanks and comments before it are passed over. A boolean, number, character,
/// string or identifier is a datum by itself; `(` begins a list, `#(` a vector, an
/// abbreviation stands before one datum. An error in the stream is read and handed
/// on. At the end of the stream the result is `TokenStreamEnded`, and at any other
/// token `UnexpectedToken` with its place; neither reads anything.
pub open spec fn spec_parse_datum(ts: Seq<TokenItem>, i: int) -> Parsed
    decreases ts.len() - i, 1int,
{
    match spec_peek(ts, i) {
        Peeked::End => Parsed { result: Err(CompilerErrorView::TokenStreamEnded), next: i },
        Peeked::Failed => Parsed { result: Err(ts[i]->Err_0), next: i + 1 },
        Peeked::Simple => Parsed { result: Ok(simple_datum(ts[i]->Ok_0.token)), next: i + 1 },
        Peeked::Blank => spec_parse_datum(ts, i + 1),
        Peeked::OpenList => spec_parse_list(ts, i + 1, Seq::empty()),
        Peeked::OpenVector => spec_parse_vector(ts, i + 1, Seq::empty()),
        Peeked::Abbrev(a) => spec_parse_abbrev(ts, i, a),
        _ => Parsed { result: Err(unexpected_at(ts, i)), next: i },
    }
}

/// The datum behind the abbreviation `a` at `i`.
pub open spec fn spec_parse_abbrev(ts: Seq<TokenItem>, i: int, a: Abbreviation) -> Parsed
    decreases ts.len() - i, 0int,
{
    if 0 <= i < ts.len() {
        let inner = spec_parse_datum(ts, i + 1);
        match inner.result {
            Ok(d) => Parsed { result: Ok(abbreviated(a, d)), next: inner.next },
            Err(_) => inner,
        }
    } else {
        Parsed { result: Err(CompilerErrorView::TokenStreamEnded), next: i }
    }
}

/// The rest of a list from `i` on, behind its `(` and the elements `items`.
///
/// `)` closes the list and `.` goes on to the tail of a dotted pair; both are looked
/// for at `i` itself, with no blanks passed over. Anything else begins a further
/// element, behind which the list goes on: an element takes at least one item, as
/// `lemma_parse_datum_advances` shows. The end of the stream gives
/// `MissingCloseParen`.
pub open spec fn spec_parse_list(ts: Seq<TokenItem>, i: int, items: Seq<DatumView>) -> Parsed
    decreases ts.len() - i, 2int,
{
    match spec_peek(ts, i) {
        Peeked::End => Parsed { result: Err(CompilerErrorView::MissingCloseParen), next: i },
        Peeked::Failed => Parsed { result: Err(ts[i]->Err_0), next: i + 1 },
        Peeked::Close => Parsed { result: Ok(DatumView::List(items)), next: i + 1 },
        Peeked::Dot => spec_parse_cdr(ts, i, items),
        _ => {
            let element = spec_parse_datum(ts, i);
            match element.result {
                Ok(d) => if i < element.next <= ts.len() {
                    spec_parse_list(ts, element.next, items.push(d))
                } else {
                    element
                },
                Err(_) => element,
            }
        },
    }
}

/// The rest of a vector from `i` on, behind its `#(` and the elements `items`. As for
/// a list, but a dot is no part of a vector.
pub open spec fn spec_parse_vector(ts: Seq<TokenItem>, i: int, items: Seq<DatumView>) -> Parsed
    decreases ts.len() - i, 2int,
{
    match spec_peek(ts, i) {
        Peeked::End => Parsed { result: Err(CompilerErrorView::MissingCloseParen), next: i },
        Peeked::Failed => Parsed { result: Err(ts[i]->Err_0), next: i + 1 },
        Peeked::Close => Parsed { result: Ok(DatumView::Vector(items)), next: i + 1 },
        _ => {
            let element = spec_parse_datum(ts, i);
            match element.result {
                Ok(d) => if i < element.next <= ts.len() {
                    spec_parse_vector(ts, element.next, items.push(d))
                } else {
                    element
                },
                Err(_) => element,
            }
        },
    }
}

/// The tail of a dotted pair whose dot is at `i`, behind the elements `items`: one
/// datum, and then `)` at once. An error in the stream where the `)` is looked for is
/// read and handed on, as everywhere. Any other token there is read and gives
/// `MissingCloseParen`, as does the end of the stream, which reads nothing.
pub open spec fn spec_parse_cdr(ts: Seq<TokenItem>, i: int, items: Seq<DatumView>) -> Parsed
    decreases ts.len() - i, 0int,
{
    if 0 <= i < ts.len() {
        let tail = spec_parse_datum(ts, i + 1);
        match tail.result {
            Ok(d) => match spec_peek(ts, tail.next) {
                Peeked::Close => Parsed {
                    result: Ok(DatumView::DottedPair(items, Box::new(d))),
                    next: tail.next + 1,
                },
                Peeked::End => Parsed {
                    result: Err(CompilerErrorView::MissingCloseParen),
                    next: tail.next,
                },
                Peeked::Failed => Parsed {
                    result: Err(ts[tail.next]->Err_0),
                    next: tail.next + 1,
                },
                _ => Parsed {
                    result: Err(CompilerErrorView::MissingCloseParen),
                    next: tail.next + 1,
                },
            },
            Err(_) => tail,
        }
    } else {
        Parsed { result: Err(CompilerErrorView::MissingCloseParen), next: i }
    }
}

/// Where a parse stops: in the stream, not before the index at which it began, and
/// behind that index where it gave a datum.
pub open spec fn parse_advances(p: Parsed, i: int, len: int) -> bool {
    &&& i <= p.next <= len
    &&& p.result is Ok ==> i < p.next
}

/// A parse of a datum stops in the stream, and behind at least one item where it gives
/// a datum.
pub proof fn lemma_parse_datum_advances(ts: Seq<TokenItem>, i: int)
    requires
        0 <= i <= ts.len(),
    ensures
        parse_advances(spec_parse_datum(ts, i), i, ts.len() as int),
    decreases ts.len() - i, 1int,
{
    match spec_peek(ts, i) {
        Peeked::Blank => {
            lemma_parse_datum_advances(ts, i + 1);
        },
        Peeked::OpenList => {
            lemma_parse_list_advances(ts, i + 1, Seq::empty());
        },
        Peeked::OpenVector => {
            lemma_parse_vector_advances(ts, i + 1, Seq::empty());
        },
        Peeked::Abbrev(a) => {
            lemma_parse_datum_advances(ts, i + 1);
            assert(spec_parse_datum(ts, i) == spec_parse_abbrev(ts, i, a));
        },
        _ => {},
    }
}

/// The parse of the rest of a list stops in the stream, and behind at least one item
/// where it gives a datum.
pub proof fn lemma_parse_list_advances(ts: Seq<TokenItem>, i: int, items: Seq<DatumView>)
    requires
        0 <= i <= ts.len(),
    ensures
        parse_advances(spec_parse_list(ts, i, items), i, ts.len() as int),
    decreases ts.len() - i, 2int,
{
    match spec_peek(ts, i) {
        Peeked::End => {},
        Peeked::Failed => {},
        Peeked::Close => {},
        Peeked::Dot => {
            lemma_parse_datum_advances(ts, i + 1);
            assert(spec_parse_list(ts, i, items) == spec_parse_cdr(ts, i, items));
        },
        _ => {
            lemma_parse_datum_advances(ts, i);
            let element = spec_parse_datum(ts, i);
            if element.result is Ok {
                lemma_parse_list_advances(ts, element.next, items.push(element.result->Ok_0));
            }
        },
    }
}

/// The parse of the rest of a vector stops in the stream, and behind at least one item
/// where it gives a datum.
pub proof fn lemma_parse_vector_advances(ts: Seq<TokenItem>, i: int, items: Seq<DatumView>)
    requires
        0 <= i <= ts.len(),
    ensures
        parse_advances(spec_parse_vector(ts, i, items), i, ts.len() as int),
    decreases ts.len() - i, 2int,
{
    match spec_peek(ts, i) {
        Peeked::End => {},
        Peeked::Failed => {},
        Peeked::Close => {},
        _ => {
            lemma_parse_datum_advances(ts, i);
            let element = spec_parse_datum(ts, i);
            if element.result is Ok {
                lemma_parse_vector_advances(ts, element.next, items.push(element.result->Ok_0));
            }
        },
    }
}

/// Whether the parse `p`, which began at `i`, met no error of the stream, or met one
/// as the last item that it read and gives that error as its result.
pub open spec fn hands_errors_on(ts: Seq<TokenItem>, i: int, p: Parsed) -> bool {
    &&& forall|j: int| i <= j < p.next - 1 ==> (#[trigger] ts[j]) is Ok
    &&& i < p.next && ts[p.next - 1] is Err ==> p.result == Err::<DatumView, CompilerErrorView>(
        ts[p.next - 1]->Err_0,
    )
}

/// No error is passed over: a parse of a datum reads nothing behind an error of the
/// stream, and where it reads one, its result is that error. So a datum is made of
/// tokens alone, and a stream of tokens that ends behind its first error gives that
/// error to whoever parses it to its end.
pub proof fn law_parser_hands_errors_on(ts: Seq<TokenItem>, i: int)
    requires
        0 <= i <= ts.len(),
    ensures
        hands_errors_on(ts, i, spec_parse_datum(ts, i)),
    decreases ts.len() - i, 1int,
{
    match spec_peek(ts, i) {
        Peeked::Blank => {
            law_parser_hands_errors_on(ts, i + 1);
            lemma_parse_datum_advances(ts, i + 1);
        },
        Peeked::OpenList => {
            lemma_list_hands_errors_on(ts, i + 1, Seq::empty());
            lemma_parse_list_advances(ts, i + 1, Seq::empty());
        },
        Peeked::OpenVector => {
            lemma_vector_hands_errors_on(ts, i + 1, Seq::empty());
            lemma_parse_vector_advances(ts, i + 1, Seq::empty());
        },
        Peeked::Abbrev(a) => {
            law_parser_hands_errors_on(ts, i + 1);
            lemma_parse_datum_advances(ts, i + 1);
            assert(spec_parse_datum(ts, i) == spec_parse_abbrev(ts, i, a));
        },
        _ => {},
    }
}

/// The parse of the rest of a list passes no error over.
proof fn lemma_list_hands_errors_on(ts: Seq<TokenItem>, i: int, items: Seq<DatumView>)
    requires
        0 <= i <= ts.len(),
    ensures
        hands_errors_on(ts, i, spec_parse_list(ts, i, items)),
    decreases ts.len() - i, 2int,
{
    match spec_peek(ts, i) {
        Peeked::End => {},
        Peeked::Failed => {},
        Peeked::Close => {},
        Peeked::Dot => {
            law_parser_hands_errors_on(ts, i + 1);
            lemma_parse_datum_advances(ts, i + 1);
            assert(spec_parse_list(ts, i, items) == spec_parse_cdr(ts, i, items));
        },
        _ => {
            law_parser_hands_errors_on(ts, i);
            lemma_parse_datum_advances(ts, i);
            let element = spec_parse_datum(ts, i);
            if element.result is Ok {
                let rest = items.push(element.result->Ok_0);
                lemma_list_hands_errors_on(ts, element.next, rest);
                lemma_parse_list_advances(ts, element.next, rest);
            }
        },
    }
}

/// The parse of the rest of a vector passes no error over.
proof fn lemma_vector_hands_errors_on(ts: Seq<TokenItem>, i: int, items: Seq<DatumView>)
    requires
        0 <= i <= ts.len(),
    ensures
        hands_errors_on(ts, i, spec_parse_vector(ts, i, items)),
    decreases ts.len() - i, 2int,
{
    match spec_peek(ts, i) {
        Peeked::End => {},
        Peeked::Failed => {},
        Peeked::Close => {},
        _ => {
            law_parser_hands_errors_on(ts, i);
            lemma_parse_datum_advances(ts, i);
            let element = spec_parse_datum(ts, i);
            if element.result is Ok {
                let rest = items.push(element.result->Ok_0);
                lemma_vector_hands_errors_on(ts, element.next, rest);
                lemma_parse_vector_advances(ts, element.next, rest);
            }
        },
    }
}

// ---------------------------------------------------------------------------------
// The parser
// ---------------------------------------------------------------------------------

/// The model of a result that is a datum or an error.
pub open spec fn datum_result(r: Result<Datum, CompilerError>) -> Result<
    DatumView,
    CompilerErrorView,
> {
    match r {
        Ok(d) => Ok(d@),
        Err(e) => Err(e@),
    }
}

/// The model of a result of the parser that left the cursor at `next`.
pub open spec fn parsed(r: Result<Datum, CompilerError>, next: int) -> Parsed {
    Parsed { result: datum_result(r), next }
}

/// Parses one datum from the stream.
pub fn parse_datum(stream: &mut TokenStream) -> (r: Result<Datum, CompilerError>)
    ensures
        final(stream).items() == old(stream).items(),
        parsed(r, final(stream).cursor()) == spec_parse_datum(
            old(stream).items(),
            old(stream).cursor(),
        ),
    decreases old(stream).remaining(), 1int,
{
    match stream.peek() {
        Peeked::End => Err(CompilerError::TokenStreamEnded),
        Peeked::Failed => Err(stream.take_error()),
        Peeked::Simple => parse_simple_datum(stream),
        Peeked::Blank => {
            stream.advance();
            parse_datum(stream)
        },
        Peeked::OpenList => parse_list(stream),
        Peeked::OpenVector => parse_vector(stream),
        Peeked::Abbrev(a) => parse_abbrev(stream, a),
        _ => {
            let (line, column) = stream.next_position();
            Err(CompilerError::UnexpectedToken(line, column))
        },
    }
}

/// Reads the boolean, number, character, string or identifier at the cursor.
fn parse_simple_datum(stream: &mut TokenStream) -> (r: Result<Datum, CompilerError>)
    requires
        spec_peek(old(stream).items(), old(stream).cursor()) == Peeked::Simple,
    ensures
        final(stream).items() == old(stream).items(),
        final(stream).cursor() == old(stream).cursor() + 1,
        r matches Ok(d) && d@ == simple_datum(
            old(stream).items()[old(stream).cursor()]->Ok_0.token,
        ),
{
    match stream.next() {
        Some(Ok(TokenWithPosition { token, .. })) => match token {
            Token::Boolean(b) => Ok(Datum::Boolean(b)),
            Token::String(s) => Ok(Datum::String(s)),
            Token::Character(c) => Ok(Datum::Character(c)),
            Token::Number(n) => Ok(Datum::Number(n)),
            Token::Identifier(s) => Ok(Datum::Identifier(s)),
            _ => Ok(Datum::Boolean(false)),
        },
        _ => Ok(Datum::Boolean(false)),
    }
}

/// Reads the abbreviation `a` at the cursor and the datum behind it.
fn parse_abbrev(stream: &mut TokenStream, a: Abbreviation) -> (r: Result<Datum, CompilerError>)
    requires
        spec_peek(old(stream).items(), old(stream).cursor()) == Peeked::Abbrev(a),
    ensures
        final(stream).items() == old(stream).items(),
        parsed(r, final(stream).cursor()) == spec_parse_abbrev(
            old(stream).items(),
            old(stream).cursor(),
            a,
        ),
    decreases old(stream).remaining(), 0int,
{
    stream.advance();
    let datum = parse_datum(stream)?;
    let inner = Box::new(datum);
    Ok(
        match a {
            Abbreviation::Quote => Datum::Quote(inner),
            Abbreviation::Backquote => Datum::Backquote(inner),
            Abbreviation::Unquote => Datum::Unquote(inner),
            Abbreviation::UnquoteSplice => Datum::UnquoteSplice(inner),
        },
    )
}

/// Reads a list from its `(`, which is at the cursor, to its `)`.
fn parse_list(stream: &mut TokenStream) -> (r: Result<Datum, CompilerError>)
    requires
        spec_peek(old(stream).items(), old(stream).cursor()) == Peeked::OpenList,
    ensures
        final(stream).items() == old(stream).items(),
        parsed(r, final(stream).cursor()) == spec_parse_list(
            old(stream).items(),
            old(stream).cursor() + 1,
            Seq::empty(),
        ),
    decreases old(stream).remaining(), 0int,
{
    let ghost ts = stream.items();
    let ghost start = stream.cursor();
    let mut car: Vec<Datum> = Vec::new();
    stream.advance();
    assert(datum_views(car@) =~= Seq::<DatumView>::empty());
    loop
        invariant
            ts == old(stream).items(),
            start == old(stream).cursor(),
            stream.items() == ts,
            start < stream.cursor() <= ts.len(),
            start + stream.remaining() < ts.len(),
            ts.len() - start == old(stream).remaining(),
            spec_parse_list(ts, start + 1, Seq::empty()) == spec_parse_list(
                ts,
                stream.cursor(),
                datum_views(car@),
            ),
        decreases stream.remaining(),
    {
        let ghost here = stream.cursor();
        match stream.peek() {
            Peeked::End => {
                return Err(CompilerError::MissingCloseParen);
            },
            Peeked::Failed => {
                return Err(stream.take_error());
            },
            Peeked::Close => {
                stream.advance();
                let list = Datum::List(car);
                proof {
                    lemma_datum_view(list);
                }
                return Ok(list);
            },
            Peeked::Dot => {
                return parse_cdr(stream, car);
            },
            _ => {
                proof {
                    lemma_parse_datum_advances(ts, here);
                }
                let next_datum = parse_datum(stream)?;
                assert(datum_views(car@.push(next_datum)) =~= datum_views(car@).push(
                    next_datum@,
                ));
                car.push(next_datum);
            },
        }
    }
}

/// Reads a vector from its `#(`, which is at the cursor, to its `)`.
fn parse_vector(stream: &mut TokenStream) -> (r: Result<Datum, CompilerError>)
    requires
        spec_peek(old(stream).items(), old(stream).cursor()) == Peeked::OpenVector,
    ensures
        final(stream).items() == old(stream).items(),
        parsed(r, final(stream).cursor()) == spec_parse_vector(
            old(stream).items(),
            old(stream).cursor() + 1,
            Seq::empty(),
        ),
    decreases old(stream).remaining(), 0int,
{
    let ghost ts = stream.items();
    let ghost start = stream.cursor();
    let mut vector: Vec<Datum> = Vec::new();
    stream.advance();
    assert(datum_views(vector@) =~= Seq::<DatumView>::empty());
    loop
        invariant
            ts == old(stream).items(),
            start == old(stream).cursor(),
            stream.items() == ts,
            start < stream.cursor() <= ts.len(),
            start + stream.remaining() < ts.len(),
            ts.len() - start == old(stream).remaining(),
            spec_parse_vector(ts, start + 1, Seq::empty()) == spec_parse_vector(
                ts,
                stream.cursor(),
                datum_views(vector@),
            ),
        decreases stream.remaining(),
    {
        let ghost here = stream.cursor();
        match stream.peek() {
            Peeked::End => {
                return Err(CompilerError::MissingCloseParen);
            },
            Peeked::Failed => {
                return Err(stream.take_error());
            },
            Peeked::Close => {
                stream.advance();
                let datum = Datum::Vector(vector);
                proof {
                    lemma_datum_view(datum);
                }
                return Ok(datum);
            },
            _ => {
                proof {
                    lemma_parse_datum_advances(ts, here);
                }
                let datum = parse_datum(stream)?;
                assert(datum_views(vector@.push(datum)) =~= datum_views(vector@).push(datum@));
                vector.push(datum);
            },
        }
    }
}

/// Reads the tail of a dotted pair from its dot, which is at the cursor, to its `)`.
fn parse_cdr(stream: &mut TokenStream, car: Vec<Datum>) -> (r: Result<Datum, CompilerError>)
    requires
        spec_peek(old(stream).items(), old(stream).cursor()) == Peeked::Dot,
    ensures
        final(stream).items() == old(stream).items(),
        parsed(r, final(stream).cursor()) == spec_parse_cdr(
            old(stream).items(),
            old(stream).cursor(),
            datum_views(car@),
        ),
    decreases old(stream).remaining(), 0int,
{
    stream.advance();
    let cdr = parse_datum(stream)?;
    match stream.peek() {
        Peeked::Close => {
            stream.advance();
            let pair = Datum::DottedPair(car, Box::new(cdr));
            proof {
                lemma_datum_view(pair);
            }
            Ok(pair)
        },
        Peeked::Failed => Err(stream.take_error()),
        _ => {
            stream.advance();
            Err(CompilerError::MissingCloseParen)
        },
    }
}

} // verus!
