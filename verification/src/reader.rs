//! The positional reader: from the lines of a source to a stream of positioned tokens,
//! and from a stream of tokens to a stream of data.
//!
//! Both streams stop for good behind their first error.
//!
//! A token's line is counted from 1. Its column is counted from 0 in bytes: it is the
//! number of bytes that the UTF-8 encoding of the line takes before the token's first
//! character.
//!
//! The reader does not fetch lines itself. [`LineReader::next`] decides what comes
//! next: an item of the stream, the end of the stream, or that the next line of the
//! source is needed. The holder of the source answers with [`LineReader::take_line`]
//! or [`LineReader::fail`]. [`read_tokens`] does so for a source that is held in memory.

use vstd::prelude::*;
use crate::lexer::law_tokens_cover_input;
use crate::lexer::lemma_lex_input_within;
use crate::lexer::lex_input_at;
use crate::lexer::Lexed;
use crate::lexer::PositionedToken;
use crate::lexer::spec_lex_input;
use crate::lexer::token_texts;
use crate::lexer::Token;
use crate::lexer::TokenWithPosition;
use crate::parser::Datum;
use crate::parser::datum_result;
use crate::parser::DatumView;
use crate::parser::lemma_parse_datum_advances;
use crate::parser::parse_datum;
use crate::parser::spec_parse_datum;
use crate::parser::token_item;
use crate::parser::token_items;
use crate::parser::TokenItem;
use crate::parser::TokenResult;
use crate::parser::TokenStream;
use crate::text::byte_length;
use crate::text::bytes_between;
use crate::text::chars_of;
use crate::text::lemma_encoding_of_both;
use crate::text::string_of;
use crate::CompilerError;
use crate::CompilerErrorView;

verus! {

/// What a source gives when it is asked for its next line: the line without its line
/// feed, or the message of the failure to read it.
pub type LineResult = Result<String, String>;

/// The model of what a source gives for a line.
pub type LineItem = Result<Seq<char>, Seq<char>>;

/// The model of `line`.
pub open spec fn line_item(line: LineResult) -> LineItem {
    match line {
        Ok(text) => Ok(text@),
        Err(message) => Err(message@),
    }
}

/// The models of what a source gives, one for one.
pub open spec fn line_items(lines: Seq<LineResult>) -> Seq<LineItem> {
    Seq::new(lines.len(), |k: int| line_item(lines[k]))
}

// ---------------------------------------------------------------------------------
// What the reader makes of a source
// ---------------------------------------------------------------------------------

/// The column of the character with the index `i` in `line`: the number of bytes
/// that the UTF-8 encoding of the characters before it takes.
pub open spec fn column_of(line: Seq<char>, i: int) -> usize {
    byte_length(line.take(i)) as usize
}

/// The item for the token or the failure that `line` gives at the character with the
/// index `i`: the token with the line and the column of that character, or the
/// error with the rest of the line from that character on, the line and the column.
pub open spec fn item_at(line: Seq<char>, number: usize, i: int) -> TokenItem {
    match spec_lex_input(line, i) {
        Lexed::Token { token, .. } => Ok(
            PositionedToken { token, line: number, column: column_of(line, i) },
        ),
        Lexed::Failure { .. } => Err(
            CompilerErrorView::LexError(
                line.subrange(i, line.len() as int),
                number,
                column_of(line, i),
            ),
        ),
    }
}

/// The items that the line `line` with the number `number` gives from its character
/// with the index `i` on: its tokens, each with the column of its first character, up
/// to the end of the line or up to and with the first failure.
pub open spec fn items_of_line(line: Seq<char>, number: usize, i: int) -> Seq<TokenItem>
    decreases line.len() - i,
{
    if i < 0 || i >= line.len() {
        Seq::empty()
    } else {
        match spec_lex_input(line, i) {
            Lexed::Token { end, .. } => {
                proof {
                    lemma_lex_input_within(line, i);
                }
                seq![item_at(line, number, i)] + items_of_line(line, number, end)
            },
            Lexed::Failure { .. } => seq![item_at(line, number, i)],
        }
    }
}

/// Whether the line fails to fall into tokens from its character with the index `i`
/// on.
pub open spec fn line_fails(line: Seq<char>, i: int) -> bool
    decreases line.len() - i,
{
    if i < 0 || i >= line.len() {
        false
    } else {
        match spec_lex_input(line, i) {
            Lexed::Token { end, .. } => {
                proof {
                    lemma_lex_input_within(line, i);
                }
                line_fails(line, end)
            },
            Lexed::Failure { .. } => true,
        }
    }
}

/// The items that the source gives from its line `k` on, lines counted from 0 here and
/// from 1 in the items: the items of each line in turn, up to and with the first
/// failure to lex or to read.
pub open spec fn items_of_source(lines: Seq<LineItem>, k: int) -> Seq<TokenItem>
    decreases lines.len() - k,
{
    if k < 0 || k >= lines.len() {
        Seq::empty()
    } else {
        match lines[k] {
            Err(message) => seq![Err(CompilerErrorView::IOError(message))],
            Ok(line) => {
                let number = (k + 1) as usize;
                if line_fails(line, 0) {
                    items_of_line(line, number, 0)
                } else {
                    items_of_line(line, number, 0) + items_of_source(lines, k + 1)
                }
            },
        }
    }
}

/// The results that a stream of tokens gives from `i` on: one datum after the other,
/// up to the end of the stream or up to and with the first error.
pub open spec fn data_of_stream(ts: Seq<TokenItem>, i: int) -> Seq<
    Result<DatumView, CompilerErrorView>,
>
    decreases ts.len() - i,
{
    if i < 0 || i >= ts.len() {
        Seq::empty()
    } else {
        let first = spec_parse_datum(ts, i);
        match first.result {
            Ok(d) => {
                proof {
                    lemma_parse_datum_advances(ts, i);
                }
                seq![Ok(d)] + data_of_stream(ts, first.next)
            },
            Err(e) => seq![Err(e)],
        }
    }
}

/// Whether no item of `items` but the last is an error.
pub open spec fn ends_at_first_error<T, E>(items: Seq<Result<T, E>>) -> bool {
    forall|j: int| 0 <= j < items.len() - 1 ==> (#[trigger] items[j]) is Ok
}

/// The items of a line are tokens, but for the last where the line fails.
pub proof fn lemma_items_of_line(line: Seq<char>, number: usize, i: int)
    requires
        0 <= i,
    ensures
        ends_at_first_error(items_of_line(line, number, i)),
        line_fails(line, i) ==> items_of_line(line, number, i).len() > 0
            && items_of_line(line, number, i).last() is Err,
        !line_fails(line, i) ==> forall|j: int|
            0 <= j < items_of_line(line, number, i).len() ==> (#[trigger] items_of_line(
                line,
                number,
                i,
            )[j]) is Ok,
    decreases line.len() - i,
{
    if i < line.len() {
        lemma_lex_input_within(line, i);
        match spec_lex_input(line, i) {
            Lexed::Token { end, .. } => {
                lemma_items_of_line(line, number, end);
                let rest = items_of_line(line, number, end);
                let all = items_of_line(line, number, i);
                assert(all[0] is Ok);
                assert forall|j: int| 0 < j < all.len() implies #[trigger] all[j] == rest[j - 1] by {}
            },
            Lexed::Failure { .. } => {},
        }
    }
}

/// Where the line falls into tokens from its character with the index `i` on, each
/// of them is given with the line's number, and with the bytes before `i` and the
/// bytes of the texts before it as its column.
proof fn lemma_columns(line: Seq<char>, number: usize, i: int)
    requires
        0 <= i <= line.len(),
        token_texts(line, i) is Some,
        byte_length(line) <= usize::MAX,
    ensures
        items_of_line(line, number, i).len() == token_texts(line, i).unwrap().len(),
        forall|k: int|
            0 <= k < token_texts(line, i).unwrap().len() ==> (#[trigger] items_of_line(
                line,
                number,
                i,
            )[k] matches Ok(t) && t.line == number && t.column == byte_length(line.take(i))
                + byte_length(token_texts(line, i).unwrap().take(k).flatten())),
    decreases line.len() - i,
{
    let len = line.len() as int;
    let none = Seq::<char>::empty();
    lemma_encoding_of_both(none, none);
    assert(none + none =~= none);
    if i < len {
        lemma_lex_input_within(line, i);
        let end = spec_lex_input(line, i)->end;
        lemma_columns(line, number, end);
        let text = line.subrange(i, end);
        let tail = token_texts(line, end).unwrap();
        let texts = token_texts(line, i).unwrap();
        let items = items_of_line(line, number, i);
        let rest = items_of_line(line, number, end);
        assert(texts == seq![text] + tail);
        assert(items == seq![item_at(line, number, i)] + rest);
        lemma_encoding_of_both(line.take(i), line.skip(i));
        assert(line.take(i) + line.skip(i) =~= line);
        lemma_encoding_of_both(line.take(i), text);
        assert(line.take(i) + text =~= line.take(end));
        assert forall|k: int| 0 <= k < texts.len() implies (#[trigger] items[k] matches Ok(t)
            && t.line == number && t.column == byte_length(line.take(i)) + byte_length(
            texts.take(k).flatten(),
        )) by {
            if k == 0 {
                assert(texts.take(0) =~= Seq::<Seq<char>>::empty());
                assert(texts.take(0).flatten() == none);
            } else {
                assert(items[k] == rest[k - 1]);
                let before = tail.take(k - 1);
                assert(texts.take(k) =~= seq![text] + before);
                assert((seq![text] + before).first() == text);
                assert((seq![text] + before).drop_first() =~= before);
                assert(texts.take(k).flatten() == text + before.flatten());
                lemma_encoding_of_both(text, before.flatten());
            }
        }
    }
}

/// Round trip with positions: where a line falls into tokens from its first character
/// to its last, the reader gives one token for each of their source texts, in order
/// and with the line's number. The column of each is the number of bytes that the
/// texts before it take in UTF-8, so that the first column is 0 and each text takes
/// as many bytes as lie between its column and the next. Put together in order, the
/// texts are the line.
pub proof fn law_columns_are_where_the_texts_begin(line: Seq<char>, number: usize)
    requires
        token_texts(line, 0) is Some,
        byte_length(line) <= usize::MAX,
    ensures
        items_of_line(line, number, 0).len() == token_texts(line, 0).unwrap().len(),
        token_texts(line, 0).unwrap().flatten() == line,
        forall|k: int|
            0 <= k < token_texts(line, 0).unwrap().len() ==> (#[trigger] items_of_line(
                line,
                number,
                0,
            )[k] matches Ok(t) && t.line == number && t.column == byte_length(
                token_texts(line, 0).unwrap().take(k).flatten(),
            )),
        forall|k: int|
            0 <= k && k + 1 < token_texts(line, 0).unwrap().len() ==> byte_length(
                #[trigger] token_texts(line, 0).unwrap().take(k + 1).flatten(),
            ) == byte_length(token_texts(line, 0).unwrap().take(k).flatten()) + byte_length(
                token_texts(line, 0).unwrap()[k],
            ),
{
    let texts = token_texts(line, 0).unwrap();
    let none = Seq::<char>::empty();
    lemma_columns(line, number, 0);
    law_tokens_cover_input(line);
    lemma_encoding_of_both(none, none);
    assert(none + none =~= none);
    assert(line.take(0) =~= none);
    assert forall|k: int| 0 <= k && k + 1 < texts.len() implies byte_length(
        #[trigger] texts.take(k + 1).flatten(),
    ) == byte_length(texts.take(k).flatten()) + byte_length(texts[k]) by {
        assert(texts.take(k + 1) =~= texts.take(k).push(texts[k]));
        texts.take(k).lemma_flatten_push(texts[k]);
        lemma_encoding_of_both(texts.take(k).flatten(), texts[k]);
    }
}

/// Fail fast: in the stream of the tokens of a source, no item but the last is an
/// error.
pub proof fn law_tokens_stop_at_first_error(lines: Seq<LineItem>, k: int)
    requires
        0 <= k,
    ensures
        ends_at_first_error(items_of_source(lines, k)),
    decreases lines.len() - k,
{
    if k < lines.len() {
        match lines[k] {
            Err(_) => {},
            Ok(line) => {
                let number = (k + 1) as usize;
                lemma_items_of_line(line, number, 0);
                if !line_fails(line, 0) {
                    law_tokens_stop_at_first_error(lines, k + 1);
                    let here = items_of_line(line, number, 0);
                    let rest = items_of_source(lines, k + 1);
                    let all = items_of_source(lines, k);
                    assert forall|j: int| 0 <= j < all.len() - 1 implies (#[trigger] all[j]) is Ok by {
                        if j < here.len() {
                            assert(all[j] == here[j]);
                        } else {
                            assert(all[j] == rest[j - here.len()]);
                        }
                    }
                }
            },
        }
    }
}

/// Fail fast: in the stream of the data of a stream of tokens, no item but the last
/// is an error.
pub proof fn law_data_stop_at_first_error(ts: Seq<TokenItem>, i: int)
    requires
        0 <= i,
    ensures
        ends_at_first_error(data_of_stream(ts, i)),
    decreases ts.len() - i,
{
    if i < ts.len() {
        let first = spec_parse_datum(ts, i);
        if first.result is Ok {
            lemma_parse_datum_advances(ts, i);
            law_data_stop_at_first_error(ts, first.next);
            let rest = data_of_stream(ts, first.next);
            let all = data_of_stream(ts, i);
            assert forall|j: int| 0 <= j < all.len() - 1 implies (#[trigger] all[j]) is Ok by {
                if j > 0 {
                    assert(all[j] == rest[j - 1]);
                }
            }
        }
    }
}

// ---------------------------------------------------------------------------------
// The reader of lines
// ---------------------------------------------------------------------------------

/// The state of a reader.
pub struct ReaderState {
    /// The line that is being read.
    pub line: Seq<char>,
    /// The number of characters of the line that have been read.
    pub position: nat,
    /// The number of the line, counted from 1; 0 before the first line.
    pub line_number: usize,
    /// Whether the stream has met its error.
    pub halted: bool,
}

/// What a reader does next.
pub enum Action {
    /// It gives the next item of the stream.
    Yield(TokenResult),
    /// It needs the next line of the source.
    Pull,
    /// The stream has ended behind an error.
    Stop,
}

/// The model of an [`Action`].
pub enum ActionView {
    Yield(TokenItem),
    Pull,
    Stop,
}

impl View for Action {
    type V = ActionView;

    open spec fn view(&self) -> ActionView {
        match self {
            Action::Yield(item) => ActionView::Yield(token_item(*item)),
            Action::Pull => ActionView::Pull,
            Action::Stop => ActionView::Stop,
        }
    }
}

/// What a reader in the state `s` does next.
pub open spec fn spec_action(s: ReaderState) -> ActionView {
    if s.halted {
        ActionView::Stop
    } else if s.position >= s.line.len() {
        ActionView::Pull
    } else {
        ActionView::Yield(item_at(s.line, s.line_number, s.position as int))
    }
}

/// The state of a reader behind what it does in the state `s`: behind a token the
/// line is read up to the end of the token, and behind a failure the reader has
/// halted.
pub open spec fn spec_after_action(s: ReaderState) -> ReaderState {
    if s.halted || s.position >= s.line.len() {
        s
    } else {
        match spec_lex_input(s.line, s.position as int) {
            Lexed::Token { end, .. } => ReaderState { position: end as nat, ..s },
            Lexed::Failure { .. } => ReaderState { halted: true, ..s },
        }
    }
}

/// Where a reader is in its line.
struct Place {
    /// The number of characters that have been read.
    cursor: usize,
    /// The number of bytes that they take in UTF-8.
    column: usize,
}

/// Turns the lines of a source into positioned tokens, one at a time.
pub struct LineReader {
    input: Vec<char>,
    place: Place,
    line_number: usize,
    encountered_error: bool,
}

impl View for LineReader {
    type V = ReaderState;

    closed spec fn view(&self) -> ReaderState {
        ReaderState {
            line: self.input@,
            position: self.place.cursor as nat,
            line_number: self.line_number,
            halted: self.encountered_error,
        }
    }
}

impl LineReader {
    /// The reader is in its line, knows the column of the place where it is, and the
    /// line is one that a string can hold.
    #[verifier::type_invariant]
    spec fn is_in_its_line(self) -> bool {
        &&& self.place.cursor <= self.input@.len()
        &&& self.place.column == byte_length(self.input@.take(self.place.cursor as int))
        &&& byte_length(self.input@) <= usize::MAX
    }

    /// A reader that has taken no line yet.
    pub fn new() -> (reader: Self)
        ensures
            reader@ == (ReaderState {
                line: Seq::empty(),
                position: 0,
                line_number: 0,
                halted: false,
            }),
    {
        let input: Vec<char> = Vec::new();
        proof {
            assert(input@.take(0) =~= input@);
            lemma_encoding_of_both(input@, input@);
        }
        LineReader {
            input,
            place: Place { cursor: 0, column: 0 },
            line_number: 0,
            encountered_error: false,
        }
    }

    /// Decides what comes next, and gives the item where it is one.
    pub fn next(&mut self) -> (action: Action)
        ensures
            action@ == spec_action(old(self)@),
            final(self)@ == spec_after_action(old(self)@),
    {
        proof {
            use_type_invariant(&*self);
        }
        if self.encountered_error {
            return Action::Stop;
        }
        let cursor: usize = self.place.cursor;
        let column: usize = self.place.column;
        if self.input.len() <= cursor {
            return Action::Pull;
        }
        match lex_input_at(self.input.as_slice(), cursor) {
            Ok((end, token)) => {
                let item = TokenWithPosition { token, line: self.line_number, column };
                let width: usize = bytes_between(self.input.as_slice(), cursor, end);
                self.place = Place { cursor: end, column: column + width };
                Action::Yield(Ok(item))
            },
            Err(_) => {
                self.encountered_error = true;
                let rest = string_of(self.input.as_slice(), cursor, self.input.len());
                Action::Yield(Err(CompilerError::LexError(rest, self.line_number, column)))
            },
        }
    }

    /// Takes the next line of the source, which becomes the line that is read.
    pub fn take_line(&mut self, line: &str)
        requires
            old(self)@.line_number < usize::MAX,
        ensures
            final(self)@ == (ReaderState {
                line: line@,
                position: 0,
                line_number: (old(self)@.line_number + 1) as usize,
                halted: old(self)@.halted,
            }),
    {
        proof {
            use_type_invariant(&*self);
        }
        let chars = chars_of(line);
        let bytes = line.as_bytes();
        proof {
            assert(bytes@.len() == bytes.len());
            assert(chars@.take(0) =~= Seq::<char>::empty());
            assert(self.input@.take(0) =~= Seq::<char>::empty());
            lemma_encoding_of_both(Seq::<char>::empty(), Seq::<char>::empty());
        }
        self.place = Place { cursor: 0, column: 0 };
        self.input = chars;
        self.line_number = self.line_number + 1;
    }

    /// Takes the failure of the source to give its next line: the reader halts, and
    /// the error is the last item of the stream.
    pub fn fail(&mut self, message: String) -> (error: CompilerError)
        ensures
            error@ == CompilerErrorView::IOError(message@),
            final(self)@ == (ReaderState { halted: true, ..old(self)@ }),
    {
        proof {
            use_type_invariant(&*self);
        }
        self.encountered_error = true;
        CompilerError::IOError(message)
    }
}

/// The items that are still to come from a reader in the state `s` whose source goes
/// on with its line `k`.
pub open spec fn items_to_come(s: ReaderState, lines: Seq<LineItem>, k: int) -> Seq<TokenItem> {
    if s.halted {
        Seq::empty()
    } else if line_fails(s.line, s.position as int) {
        items_of_line(s.line, s.line_number, s.position as int)
    } else {
        items_of_line(s.line, s.line_number, s.position as int) + items_of_source(lines, k)
    }
}

/// Behind an item that a reader gives, the items that were to come are that item and
/// those that are to come now.
pub proof fn lemma_items_to_come(s: ReaderState, lines: Seq<LineItem>, k: int)
    requires
        spec_action(s) is Yield,
    ensures
        items_to_come(s, lines, k) == seq![spec_action(s)->Yield_0] + items_to_come(
            spec_after_action(s),
            lines,
            k,
        ),
{
    let at = s.position as int;
    lemma_lex_input_within(s.line, at);
    match spec_lex_input(s.line, at) {
        Lexed::Token { end, .. } => {
            assert(line_fails(s.line, at) == line_fails(s.line, end));
            assert(items_of_line(s.line, s.line_number, at) == seq![
                item_at(s.line, s.line_number, at),
            ] + items_of_line(s.line, s.line_number, end));
            assert(items_to_come(s, lines, k) =~= seq![spec_action(s)->Yield_0] + items_to_come(
                spec_after_action(s),
                lines,
                k,
            ));
        },
        Lexed::Failure { .. } => {
            assert(items_to_come(s, lines, k) =~= seq![spec_action(s)->Yield_0] + items_to_come(
                spec_after_action(s),
                lines,
                k,
            ));
        },
    }
}

/// The stream of positioned tokens of a source whose lines are held in memory.
pub fn read_tokens(lines: &Vec<LineResult>) -> (items: Vec<TokenResult>)
    ensures
        token_items(items@) == items_of_source(line_items(lines@), 0),
{
    let ghost source = line_items(lines@);
    let mut reader = LineReader::new();
    let mut items: Vec<TokenResult> = Vec::new();
    let mut k: usize = 0;
    assert(token_items(items@) + items_to_come(reader@, source, 0) =~= items_of_source(
        source,
        0,
    ));
    loop
        invariant
            source == line_items(lines@),
            k <= lines@.len(),
            !reader@.halted ==> reader@.line_number == k,
            items_of_source(source, 0) == token_items(items@) + items_to_come(
                reader@,
                source,
                k as int,
            ),
        ensures
            token_items(items@) == items_of_source(source, 0),
        decreases
            lines@.len() - k,
            if reader@.halted {
                0
            } else {
                1 + reader@.line.len() - reader@.position
            },
    {
        let ghost before = reader@;
        let ghost done = token_items(items@);
        match reader.next() {
            Action::Stop => {
                assert(done + Seq::<TokenItem>::empty() =~= done);
                break ;
            },
            Action::Yield(item) => {
                proof {
                    lemma_lex_input_within(before.line, before.position as int);
                    lemma_items_to_come(before, source, k as int);
                    assert(token_items(items@.push(item)) =~= done.push(token_item(item)));
                    assert(done.push(token_item(item)) + items_to_come(
                        reader@,
                        source,
                        k as int,
                    ) =~= done + items_to_come(before, source, k as int));
                }
                items.push(item);
            },
            Action::Pull => {
                if k >= lines.len() {
                    assert(done + Seq::<TokenItem>::empty() =~= done);
                    break ;
                }
                match &lines[k] {
                    Ok(line) => {
                        reader.take_line(line.as_str());
                    },
                    Err(message) => {
                        let error = reader.fail(message.clone());
                        proof {
                            assert(token_items(items@.push(Err(error))) =~= done.push(
                                Err(error@),
                            ));
                            assert(done.push(Err(error@)) =~= done + items_of_source(
                                source,
                                k as int,
                            ));
                        }
                        items.push(Err(error));
                    },
                }
                k += 1;
            },
        }
    }
    items
}

/// Whether `item` is a token that is blanks or a comment.
pub open spec fn is_blank(item: TokenItem) -> bool {
    item matches Ok(t) && (t.token is Whitespace || t.token is Comment)
}

/// The items of a stream without the blanks and comments among them, in order. The
/// parser passes blanks over before a datum only, so a consumer to whom they are to
/// mean nothing anywhere takes them out first.
pub fn without_blanks(items: &Vec<TokenResult>) -> (kept: Vec<TokenResult>)
    ensures
        token_items(kept@) == token_items(items@).filter(|item: TokenItem| !is_blank(item)),
{
    let ghost all = token_items(items@);
    let ghost wanted = |item: TokenItem| !is_blank(item);
    let mut kept: Vec<TokenResult> = Vec::new();
    let mut k: usize = 0;
    proof {
        reveal(Seq::filter);
        assert(all.take(0) =~= Seq::<TokenItem>::empty());
        assert(token_items(kept@) =~= all.take(0).filter(wanted));
    }
    while k < items.len()
        invariant
            k <= items@.len(),
            all == token_items(items@),
            wanted == (|item: TokenItem| !is_blank(item)),
            token_items(kept@) == all.take(k as int).filter(wanted),
        decreases items@.len() - k,
    {
        let ghost so_far = token_items(kept@);
        proof {
            reveal(Seq::filter);
            assert(all.take(k + 1).drop_last() =~= all.take(k as int));
            assert(all.take(k + 1).last() == all[k as int]);
        }
        match &items[k] {
            Ok(token) => {
                match &token.token {
                    Token::Whitespace => {},
                    Token::Comment => {},
                    _ => {
                        let copy = token.clone();
                        assert(token_items(kept@.push(Ok(copy))) =~= so_far.push(all[k as int]));
                        kept.push(Ok(copy));
                    },
                }
            },
            Err(error) => {
                let copy = error.clone();
                assert(token_items(kept@.push(Err(copy))) =~= so_far.push(all[k as int]));
                kept.push(Err(copy));
            },
        }
        k += 1;
    }
    assert(all.take(items@.len() as int) =~= all);
    kept
}

// ---------------------------------------------------------------------------------
// The stream of data
// ---------------------------------------------------------------------------------

/// Turns a stream of tokens into data, one at a time.
pub struct DatumIterator {
    token_stream: TokenStream,
    encountered_error: bool,
}

impl DatumIterator {
    /// The results that are still to come, in order.
    pub closed spec fn pending(&self) -> Seq<Result<DatumView, CompilerErrorView>> {
        if self.encountered_error {
            Seq::empty()
        } else {
            data_of_stream(self.token_stream.items(), self.token_stream.cursor())
        }
    }

    /// The stream of the data that the tokens `tokens` write.
    pub fn new(tokens: Vec<TokenResult>) -> (stream: Self)
        ensures
            stream.pending() == data_of_stream(token_items(tokens@), 0),
    {
        DatumIterator { token_stream: TokenStream::new(tokens), encountered_error: false }
    }

    /// The next result of the stream, or `None` where the stream has ended: behind the
    /// last token, or behind its first error.
    pub fn next(&mut self) -> (r: Option<Result<Datum, CompilerError>>)
        ensures
            old(self).pending().len() == 0 ==> r is None && final(self).pending() == old(
                self,
            ).pending(),
            old(self).pending().len() > 0 ==> r is Some && datum_result(r->Some_0) == old(
                self,
            ).pending()[0] && final(self).pending() == old(self).pending().drop_first(),
    {
        if self.encountered_error {
            return None;
        }
        if self.token_stream.is_exhausted() {
            return None;
        }
        let ghost ts = self.token_stream.items();
        let ghost i = self.token_stream.cursor();
        proof {
            lemma_parse_datum_advances(ts, i);
        }
        let datum_res = parse_datum(&mut self.token_stream);
        if datum_res.is_err() {
            self.encountered_error = true;
        }
        assert(final(self).pending() =~= old(self).pending().drop_first());
        Some(datum_res)
    }
}

} // verus!
