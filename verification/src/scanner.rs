pub mod spelling;

use vstd::prelude::*;
use vstd::string::*;
use crate::errors::{Error, ErrorView};
use crate::text::{chars_of, string_of};
use crate::token::{
    lemma_kind_view, token_views, word_kind, Token, TokenType, TokenTypeView, TokenView,
};

verus! {

/// Whether `c` is a digit.
pub open spec fn is_digit(c: char) -> bool {
    '0' <= c && c <= '9'
}

/// Whether `c` is a letter or an underscore.
pub open spec fn is_alpha(c: char) -> bool {
    ('a' <= c && c <= 'z') || ('A' <= c && c <= 'Z') || c == '_'
}

/// Whether `c` may stand in a word: a letter, an underscore or a digit.
pub open spec fn is_word_char(c: char) -> bool {
    is_alpha(c) || is_digit(c)
}

/// The end of the run of digits that starts at `pos`.
pub open spec fn digits_end(src: Seq<char>, pos: int) -> int
    decreases src.len() - pos,
{
    if 0 <= pos < src.len() && is_digit(src[pos]) {
        digits_end(src, pos + 1)
    } else {
        pos
    }
}

/// The end of the run of letters, digits and underscores that starts at
/// `pos`.
pub open spec fn word_end(src: Seq<char>, pos: int) -> int
    decreases src.len() - pos,
{
    if 0 <= pos < src.len() && is_word_char(src[pos]) {
        word_end(src, pos + 1)
    } else {
        pos
    }
}

/// The place of the first newline at or after `pos`, or the end of the
/// source.
pub open spec fn comment_end(src: Seq<char>, pos: int) -> int
    decreases src.len() - pos,
{
    if 0 <= pos < src.len() && src[pos] != '\n' {
        comment_end(src, pos + 1)
    } else {
        pos
    }
}

/// The place of the first double quote at or after `pos`, or the end of
/// the source.
pub open spec fn quote_at(src: Seq<char>, pos: int) -> int
    decreases src.len() - pos,
{
    if 0 <= pos < src.len() && src[pos] != '"' {
        quote_at(src, pos + 1)
    } else {
        pos
    }
}

/// The number of newlines among the characters from `from` up to `to`.
pub open spec fn newlines(src: Seq<char>, from: int, to: int) -> nat
    decreases to - from,
{
    if from >= to || to > src.len() || from < 0 {
        0
    } else if src[to - 1] == '\n' {
        newlines(src, from, to - 1) + 1
    } else {
        newlines(src, from, to - 1)
    }
}

/// The end of the number literal whose first digit is at `start`: the run
/// of digits, and a fraction where a dot is followed by a digit.
pub open spec fn number_end(src: Seq<char>, start: int) -> int {
    let whole = digits_end(src, start);
    if whole + 1 < src.len() && src[whole] == '.' && is_digit(src[whole + 1]) {
        digits_end(src, whole + 1)
    } else {
        whole
    }
}

/// What one step of scanning found: a token's kind, or nothing for blank
/// space and comments; where the next lexeme starts; and the line there.
pub struct Lexeme {
    pub kind: Option<TokenTypeView>,
    pub end: int,
    pub line: nat,
}

/// The message for a character with which no lexeme starts.
pub open spec fn unexpected_character() -> Seq<char> {
    "Unexpected character."@
}

/// The message for a string literal without its closing quote.
pub open spec fn unterminated_string() -> Seq<char> {
    "Unterminated string."@
}

/// The lexeme that starts at `start`, read on line `line`.
pub open spec fn next_lexeme(src: Seq<char>, start: int, line: nat) -> Result<Lexeme, ErrorView>
    recommends
        0 <= start < src.len(),
{
    let c = src[start];
    let then_equal = start + 1 < src.len() && src[start + 1] == '=';
    let one = |kind: TokenTypeView| Ok::<Lexeme, ErrorView>(Lexeme { kind: Some(kind), end: start + 1, line });
    let one_or_two = |short: TokenTypeView, long: TokenTypeView|
        if then_equal {
            Ok::<Lexeme, ErrorView>(Lexeme { kind: Some(long), end: start + 2, line })
        } else {
            Ok::<Lexeme, ErrorView>(Lexeme { kind: Some(short), end: start + 1, line })
        };
    if c == '(' {
        one(TokenTypeView::LeftParen)
    } else if c == ')' {
        one(TokenTypeView::RightParen)
    } else if c == '{' {
        one(TokenTypeView::LeftBrace)
    } else if c == '}' {
        one(TokenTypeView::RightBrace)
    } else if c == ',' {
        one(TokenTypeView::Comma)
    } else if c == '.' {
        one(TokenTypeView::Dot)
    } else if c == '-' {
        one(TokenTypeView::Minus)
    } else if c == '+' {
        one(TokenTypeView::Plus)
    } else if c == ';' {
        one(TokenTypeView::Semicolon)
    } else if c == '*' {
        one(TokenTypeView::Star)
    } else if c == '!' {
        one_or_two(TokenTypeView::Bang, TokenTypeView::BangEqual)
    } else if c == '=' {
        one_or_two(TokenTypeView::Equal, TokenTypeView::EqualEqual)
    } else if c == '<' {
        one_or_two(TokenTypeView::Less, TokenTypeView::LessEqual)
    } else if c == '>' {
        one_or_two(TokenTypeView::Greater, TokenTypeView::GreaterEqual)
    } else if c == '/' {
        if start + 1 < src.len() && src[start + 1] == '/' {
            Ok(Lexeme { kind: None, end: comment_end(src, start + 2), line })
        } else {
            one(TokenTypeView::Slash)
        }
    } else if c == ' ' || c == '\r' || c == '\t' {
        Ok(Lexeme { kind: None, end: start + 1, line })
    } else if c == '\n' {
        Ok(Lexeme { kind: None, end: start + 1, line: line + 1 })
    } else if c == '"' {
        let close = quote_at(src, start + 1);
        let last = line + newlines(src, start + 1, close);
        if close >= src.len() {
            Err(ErrorView::Scan(last, unterminated_string()))
        } else {
            Ok(
                Lexeme {
                    kind: Some(TokenTypeView::String(src.subrange(start + 1, close))),
                    end: close + 1,
                    line: last,
                },
            )
        }
    } else if is_digit(c) {
        let end = number_end(src, start);
        Ok(Lexeme { kind: Some(TokenTypeView::Number(src.subrange(start, end))), end, line })
    } else if is_alpha(c) {
        let end = word_end(src, start);
        Ok(Lexeme { kind: Some(word_kind(src.subrange(start, end))), end, line })
    } else {
        Err(ErrorView::Scan(line, unexpected_character()))
    }
}

/// The tokens of the source from `pos` on, read from line `line`, with the
/// end-of-input token last; or the first scan error.
pub open spec fn scan_from(src: Seq<char>, pos: int, line: nat) -> Result<Seq<TokenView>, ErrorView>
    decreases src.len() - pos,
{
    if pos < 0 || pos >= src.len() {
        Ok(seq![TokenView { kind: TokenTypeView::EOF, line }])
    } else {
        match next_lexeme(src, pos, line) {
            Err(e) => Err(e),
            Ok(lexeme) => {
                proof {
                    lemma_lexeme_advances(src, pos, line);
                }
                match scan_from(src, lexeme.end, lexeme.line) {
                    Err(e) => Err(e),
                    Ok(rest) => match lexeme.kind {
                        Some(kind) => Ok(seq![TokenView { kind, line: lexeme.line }] + rest),
                        None => Ok(rest),
                    },
                }
            },
        }
    }
}

/// The tokens of a whole source text.
pub open spec fn scan(src: Seq<char>) -> Result<Seq<TokenView>, ErrorView> {
    scan_from(src, 0, 1)
}

/// A run of digits ends at or after its start, within the source.
pub proof fn lemma_digits_end_bounds(src: Seq<char>, pos: int)
    requires
        0 <= pos <= src.len(),
    ensures
        pos <= digits_end(src, pos) <= src.len(),
    decreases src.len() - pos,
{
    if pos < src.len() && is_digit(src[pos]) {
        lemma_digits_end_bounds(src, pos + 1);
    }
}

/// A word ends at or after its start, within the source.
pub proof fn lemma_word_end_bounds(src: Seq<char>, pos: int)
    requires
        0 <= pos <= src.len(),
    ensures
        pos <= word_end(src, pos) <= src.len(),
    decreases src.len() - pos,
{
    if pos < src.len() && is_word_char(src[pos]) {
        lemma_word_end_bounds(src, pos + 1);
    }
}

/// A comment ends at or after its start, within the source.
pub proof fn lemma_comment_end_bounds(src: Seq<char>, pos: int)
    requires
        0 <= pos <= src.len(),
    ensures
        pos <= comment_end(src, pos) <= src.len(),
    decreases src.len() - pos,
{
    if pos < src.len() && src[pos] != '\n' {
        lemma_comment_end_bounds(src, pos + 1);
    }
}

/// The next quote lies at or after the start, within the source.
pub proof fn lemma_quote_at_bounds(src: Seq<char>, pos: int)
    requires
        0 <= pos <= src.len(),
    ensures
        pos <= quote_at(src, pos) <= src.len(),
    decreases src.len() - pos,
{
    if pos < src.len() && src[pos] != '"' {
        lemma_quote_at_bounds(src, pos + 1);
    }
}

/// A stretch has no more newlines than characters.
pub proof fn lemma_newlines_bound(src: Seq<char>, from: int, to: int)
    ensures
        from <= to ==> newlines(src, from, to) <= to - from,
        from > to ==> newlines(src, from, to) == 0,
    decreases to - from,
{
    if from >= to || to > src.len() || from < 0 {
    } else {
        lemma_newlines_bound(src, from, to - 1);
    }
}

/// Every lexeme ends after the place where it starts, within the source,
/// and raises the line by no more than the characters it spans.
pub proof fn lemma_lexeme_advances(src: Seq<char>, pos: int, line: nat)
    requires
        0 <= pos < src.len(),
    ensures
        match next_lexeme(src, pos, line) {
            Ok(lexeme) => pos < lexeme.end <= src.len() && line <= lexeme.line <= line + (
            lexeme.end - pos),
            Err(e) => true,
        },
{
    let c = src[pos];
    lemma_comment_end_bounds(src, pos + 1);
    if pos + 2 <= src.len() {
        lemma_comment_end_bounds(src, pos + 2);
    }
    lemma_quote_at_bounds(src, pos + 1);
    lemma_newlines_bound(src, pos + 1, quote_at(src, pos + 1));
    lemma_word_end_bounds(src, pos + 1);
    lemma_digits_end_bounds(src, pos + 1);
    let whole = digits_end(src, pos);
    if is_digit(c) {
        assert(whole == digits_end(src, pos + 1));
        if whole + 1 < src.len() {
            lemma_digits_end_bounds(src, whole + 1);
        }
    }
}

/// The newlines of a stretch are those of its two parts.
pub proof fn lemma_newlines_split(src: Seq<char>, from: int, mid: int, to: int)
    requires
        0 <= from <= mid <= to <= src.len(),
    ensures
        newlines(src, from, to) == newlines(src, from, mid) + newlines(src, mid, to),
    decreases to - mid,
{
    if mid < to {
        lemma_newlines_split(src, from, mid, to - 1);
    }
}

proof fn lemma_no_newline_in_digits(src: Seq<char>, pos: int)
    requires
        0 <= pos <= src.len(),
    ensures
        newlines(src, pos, digits_end(src, pos)) == 0,
    decreases src.len() - pos,
{
    lemma_digits_end_bounds(src, pos);
    if pos < src.len() && is_digit(src[pos]) {
        lemma_no_newline_in_digits(src, pos + 1);
        lemma_digits_end_bounds(src, pos + 1);
        lemma_newlines_split(src, pos, pos + 1, digits_end(src, pos));
        assert(newlines(src, pos, pos + 1) == newlines(src, pos, pos));
    }
}

proof fn lemma_no_newline_in_word(src: Seq<char>, pos: int)
    requires
        0 <= pos <= src.len(),
    ensures
        newlines(src, pos, word_end(src, pos)) == 0,
    decreases src.len() - pos,
{
    lemma_word_end_bounds(src, pos);
    if pos < src.len() && is_word_char(src[pos]) {
        lemma_no_newline_in_word(src, pos + 1);
        lemma_word_end_bounds(src, pos + 1);
        lemma_newlines_split(src, pos, pos + 1, word_end(src, pos));
        assert(newlines(src, pos, pos + 1) == newlines(src, pos, pos));
    }
}

proof fn lemma_no_newline_in_comment(src: Seq<char>, pos: int)
    requires
        0 <= pos <= src.len(),
    ensures
        newlines(src, pos, comment_end(src, pos)) == 0,
    decreases src.len() - pos,
{
    lemma_comment_end_bounds(src, pos);
    if pos < src.len() && src[pos] != '\n' {
        lemma_no_newline_in_comment(src, pos + 1);
        lemma_comment_end_bounds(src, pos + 1);
        lemma_newlines_split(src, pos, pos + 1, comment_end(src, pos));
        assert(newlines(src, pos, pos + 1) == newlines(src, pos, pos));
    }
}

/// A lexeme raises the line by the newlines that it spans, and is never
/// the end-of-input token.
pub proof fn lemma_lexeme_counts_newlines(src: Seq<char>, pos: int, line: nat)
    requires
        0 <= pos < src.len(),
    ensures
        match next_lexeme(src, pos, line) {
            Ok(lexeme) => lexeme.line == line + newlines(src, pos, lexeme.end) && !(lexeme.kind
                matches Some(kind) && kind is EOF),
            Err(e) => true,
        },
{
    lemma_lexeme_advances(src, pos, line);
    let c = src[pos];
    assert(newlines(src, pos, pos + 1) == if c == '\n' {
        1nat
    } else {
        0nat
    }) by {
        assert(newlines(src, pos, pos) == 0);
    }
    if pos + 2 <= src.len() {
        assert(newlines(src, pos, pos + 2) == newlines(src, pos, pos + 1) + if src[pos + 1]
            == '\n' {
            1nat
        } else {
            0nat
        });
    }
    match next_lexeme(src, pos, line) {
        Ok(lexeme) => {
            if c == '/' && pos + 1 < src.len() && src[pos + 1] == '/' {
                lemma_no_newline_in_comment(src, pos + 2);
                lemma_comment_end_bounds(src, pos + 2);
                lemma_newlines_split(src, pos, pos + 2, lexeme.end);
            } else if c == '"' {
                let close = quote_at(src, pos + 1);
                lemma_quote_at_bounds(src, pos + 1);
                lemma_newlines_split(src, pos, pos + 1, close);
                lemma_newlines_split(src, pos, close, close + 1);
                assert(newlines(src, close, close + 1) == 0) by {
                    assert(newlines(src, close, close) == 0);
                    lemma_quote_at_stops(src, pos + 1);
                }
            } else if is_digit(c) {
                let whole = digits_end(src, pos);
                lemma_digits_end_bounds(src, pos);
                lemma_no_newline_in_digits(src, pos);
                if whole + 1 < src.len() && src[whole] == '.' && is_digit(src[whole + 1]) {
                    lemma_digits_end_bounds(src, whole + 1);
                    lemma_no_newline_in_digits(src, whole + 1);
                    lemma_newlines_split(src, pos, whole, lexeme.end);
                    lemma_newlines_split(src, whole, whole + 1, lexeme.end);
                    assert(newlines(src, whole, whole + 1) == 0) by {
                        assert(newlines(src, whole, whole) == 0);
                    }
                }
            } else if is_alpha(c) {
                lemma_no_newline_in_word(src, pos);
            }
        },
        Err(_) => {},
    }
}

proof fn lemma_quote_at_stops(src: Seq<char>, pos: int)
    requires
        0 <= pos <= src.len(),
    ensures
        quote_at(src, pos) < src.len() ==> src[quote_at(src, pos)] == '"',
    decreases src.len() - pos,
{
    if pos < src.len() && src[pos] != '"' {
        lemma_quote_at_stops(src, pos + 1);
    }
}

proof fn lemma_scan_from_ends_with_end_token(src: Seq<char>, pos: int, line: nat)
    requires
        0 <= pos <= src.len(),
    ensures
        match scan_from(src, pos, line) {
            Ok(tokens) => {
                &&& tokens.len() >= 1
                &&& tokens.last() == (TokenView {
                    kind: TokenTypeView::EOF,
                    line: line + newlines(src, pos, src.len() as int),
                })
                &&& forall|i: int| 0 <= i < tokens.len() - 1 ==> !(#[trigger] tokens[i].kind is EOF)
            },
            Err(e) => true,
        },
    decreases src.len() - pos,
{
    if pos < src.len() {
        lemma_lexeme_advances(src, pos, line);
        lemma_lexeme_counts_newlines(src, pos, line);
        match next_lexeme(src, pos, line) {
            Ok(lexeme) => {
                lemma_scan_from_ends_with_end_token(src, lexeme.end, lexeme.line);
                lemma_newlines_split(src, pos, lexeme.end, src.len() as int);
                match scan_from(src, lexeme.end, lexeme.line) {
                    Ok(rest) => {
                        match lexeme.kind {
                            Some(kind) => {
                                let first = TokenView { kind, line: lexeme.line };
                                let tokens = seq![first] + rest;
                                assert(tokens.last() == rest.last());
                                assert forall|i: int| 0 <= i < tokens.len() - 1 implies !(
                                #[trigger] tokens[i].kind is EOF) by {
                                    if i > 0 {
                                        assert(tokens[i] == rest[i - 1]);
                                    }
                                }
                            },
                            None => {},
                        }
                    },
                    Err(_) => {},
                }
            },
            Err(_) => {},
        }
    } else {
        assert(newlines(src, pos, src.len() as int) == 0);
    }
}

/// The tokens of a source end with exactly one end-of-input token, whose
/// line is the number of newlines in the source plus one.
pub proof fn law_scan_ends_with_end_token(src: Seq<char>)
    ensures
        match scan(src) {
            Ok(tokens) => {
                &&& tokens.len() >= 1
                &&& tokens.last() == (TokenView {
                    kind: TokenTypeView::EOF,
                    line: newlines(src, 0, src.len() as int) + 1,
                })
                &&& forall|i: int| 0 <= i < tokens.len() - 1 ==> !(#[trigger] tokens[i].kind is EOF)
            },
            Err(e) => true,
        },
{
    lemma_scan_from_ends_with_end_token(src, 0, 1);
}

/// The tokens `head` before the outcome `tail` of scanning on.
pub open spec fn prepend(head: Seq<TokenView>, tail: Result<Seq<TokenView>, ErrorView>) -> Result<
    Seq<TokenView>,
    ErrorView,
> {
    match tail {
        Ok(rest) => Ok(head + rest),
        Err(e) => Err(e),
    }
}

fn digit(c: char) -> (yes: bool)
    ensures
        yes == is_digit(c),
{
    c >= '0' && c <= '9'
}

fn alpha(c: char) -> (yes: bool)
    ensures
        yes == is_alpha(c),
{
    (c >= 'a' && c <= 'z') || (c >= 'A' && c <= 'Z') || c == '_'
}

/// Turns source text into tokens.
#[derive(Debug)]
pub struct Scanner {
    source: Vec<char>,
    tokens: Vec<Token>,
    current: usize,
    start: usize,
    line: usize,
}

impl Scanner {
    /// The source text that this scanner reads.
    pub closed spec fn source(&self) -> Seq<char> {
        self.source@
    }

    /// The source is short enough for every line number to fit.
    pub closed spec fn wf(&self) -> bool {
        self.source@.len() < usize::MAX
    }

    spec fn inv(&self) -> bool {
        &&& self.source@.len() < usize::MAX
        &&& self.start <= self.current <= self.source@.len()
    }

    /// A scanner for the source text `source`.
    pub fn new(source: String) -> (scanner: Scanner)
        requires
            source@.len() < usize::MAX,
        ensures
            scanner.wf(),
            scanner.source() == source@,
    {
        Scanner { source: chars_of(source.as_str()), tokens: Vec::new(), current: 0, start: 0, line: 1 }
    }

    /// Scans the whole source: the tokens in order, ending with the one
    /// end-of-input token, or the first scan error.
    pub fn scan_tokens(&mut self) -> (result: Result<Vec<Token>, Error>)
        requires
            old(self).wf(),
        ensures
            final(self).wf(),
            final(self).source() == old(self).source(),
            match result {
                Ok(tokens) => scan(old(self).source()) == Ok::<Seq<TokenView>, ErrorView>(
                    token_views(tokens@),
                ),
                Err(e) => scan(old(self).source()) == Err::<Seq<TokenView>, ErrorView>(e@),
            },
    {
        self.tokens = Vec::new();
        self.current = 0;
        self.start = 0;
        self.line = 1;
        assert(token_views(self.tokens@) =~= Seq::<TokenView>::empty());
        assert(prepend(Seq::<TokenView>::empty(), scan_from(self.source@, 0, 1)) == scan_from(
            self.source@,
            0,
            1,
        )) by {
            match scan_from(self.source@, 0, 1) {
                Ok(rest) => assert(Seq::<TokenView>::empty() + rest =~= rest),
                Err(_) => {},
            }
        }
        while !self.is_at_end()
            invariant
                self.inv(),
                self.line <= self.current + 1,
                self.source@ == old(self).source@,
                scan(self.source@) == prepend(
                    token_views(self.tokens@),
                    scan_from(self.source@, self.current as int, self.line as nat),
                ),
            decreases self.source@.len() - self.current,
        {
            self.start = self.current;
            let ghost before = *self;
            proof {
                lemma_lexeme_advances(self.source@, self.current as int, self.line as nat);
            }
            match self.scan_token() {
                Err(e) => {
                    return Err(e);
                },
                Ok(()) => {
                    proof {
                        let step = next_lexeme(
                            before.source@,
                            before.current as int,
                            before.line as nat,
                        )->Ok_0;
                        let rest = scan_from(self.source@, step.end, step.line);
                        match rest {
                            Ok(tail) => {
                                match step.kind {
                                    Some(kind) => {
                                        let t = TokenView { kind, line: step.line };
                                        assert(token_views(before.tokens@) + (seq![t] + tail)
                                            =~= token_views(before.tokens@).push(t) + tail);
                                    },
                                    None => {},
                                }
                            },
                            Err(_) => {},
                        }
                    }
                },
            }
        }
        let ghost scanned = self.tokens@;
        let mut tokens = Vec::new();
        std::mem::swap(&mut tokens, &mut self.tokens);
        tokens.push(Token::new(TokenType::EOF, self.line));
        proof {
            lemma_kind_view(TokenType::EOF);
            let last = TokenView { kind: TokenTypeView::EOF, line: self.line as nat };
            assert(token_views(tokens@) =~= token_views(scanned) + seq![last]);
        }
        Ok(tokens)
    }

    fn is_at_end(&self) -> (yes: bool)
        ensures
            yes == (self.current >= self.source@.len()),
    {
        self.current >= self.source.len()
    }

    /// Reads one lexeme from `current` on.
    fn scan_token(&mut self) -> (result: Result<(), Error>)
        requires
            old(self).inv(),
            old(self).start == old(self).current,
            old(self).current < old(self).source@.len(),
            old(self).line <= old(self).current + 1,
        ensures
            final(self).source@ == old(self).source@,
            match next_lexeme(
                old(self).source@,
                old(self).current as int,
                old(self).line as nat,
            ) {
                Err(e) => result is Err && result->Err_0@ == e,
                Ok(lexeme) => {
                    &&& result is Ok
                    &&& final(self).inv()
                    &&& final(self).line <= final(self).current + 1
                    &&& final(self).current == lexeme.end
                    &&& final(self).line == lexeme.line
                    &&& token_views(final(self).tokens@) == match lexeme.kind {
                        Some(kind) => token_views(old(self).tokens@).push(
                            TokenView { kind, line: lexeme.line },
                        ),
                        None => token_views(old(self).tokens@),
                    }
                },
            },
    {
        let c = self.advance();
        if c == '(' {
            self.add_token(TokenType::LeftParen);
        } else if c == ')' {
            self.add_token(TokenType::RightParen);
        } else if c == '{' {
            self.add_token(TokenType::LeftBrace);
        } else if c == '}' {
            self.add_token(TokenType::RightBrace);
        } else if c == ',' {
            self.add_token(TokenType::Comma);
        } else if c == '.' {
            self.add_token(TokenType::Dot);
        } else if c == '-' {
            self.add_token(TokenType::Minus);
        } else if c == '+' {
            self.add_token(TokenType::Plus);
        } else if c == ';' {
            self.add_token(TokenType::Semicolon);
        } else if c == '*' {
            self.add_token(TokenType::Star);
        } else if c == '!' {
            if self.next_matches('=') {
                self.add_token(TokenType::BangEqual);
            } else {
                self.add_token(TokenType::Bang);
            }
        } else if c == '=' {
            if self.next_matches('=') {
                self.add_token(TokenType::EqualEqual);
            } else {
                self.add_token(TokenType::Equal);
            }
        } else if c == '<' {
            if self.next_matches('=') {
                self.add_token(TokenType::LessEqual);
            } else {
                self.add_token(TokenType::Less);
            }
        } else if c == '>' {
            if self.next_matches('=') {
                self.add_token(TokenType::GreaterEqual);
            } else {
                self.add_token(TokenType::Greater);
            }
        } else if c == '/' {
            if self.next_matches('/') {
                self.skip_comment();
            } else {
                self.add_token(TokenType::Slash);
            }
        } else if c == ' ' || c == '\r' || c == '\t' {
        } else if c == '\n' {
            self.line += 1;
        } else if c == '"' {
            return self.read_string();
        } else if digit(c) {
            self.read_number();
        } else if alpha(c) {
            self.read_identifier();
        } else {
            return Err(Error::Scan(self.line, String::from_str("Unexpected character.")));
        }
        Ok(())
    }

    fn advance(&mut self) -> (c: char)
        requires
            old(self).inv(),
            old(self).current < old(self).source@.len(),
        ensures
            c == old(self).source@[old(self).current as int],
            *final(self) == (Scanner { current: (old(self).current + 1) as usize, ..*old(self) }),
    {
        let c = self.source[self.current];
        self.current += 1;
        c
    }

    fn peek(&self) -> (c: Option<char>)
        requires
            self.current <= self.source@.len(),
        ensures
            c == if self.current < self.source@.len() {
                Some(self.source@[self.current as int])
            } else {
                None
            },
    {
        if self.is_at_end() {
            None
        } else {
            Some(self.source[self.current])
        }
    }

    fn peek_next(&self) -> (c: Option<char>)
        requires
            self.current <= self.source@.len(),
        ensures
            c == if self.current + 1 < self.source@.len() {
                Some(self.source@[self.current + 1])
            } else {
                None
            },
    {
        if self.source.len() - self.current <= 1 {
            None
        } else {
            Some(self.source[self.current + 1])
        }
    }

    fn current_string(&self) -> (text: String)
        requires
            self.start <= self.current <= self.source@.len(),
        ensures
            text@ == self.source@.subrange(self.start as int, self.current as int),
    {
        string_of(&self.source, self.start, self.current)
    }

    fn next_matches(&mut self, expect: char) -> (yes: bool)
        requires
            old(self).inv(),
        ensures
            yes == (old(self).current < old(self).source@.len() && old(self).source@[old(
                self,
            ).current as int] == expect),
            *final(self) == (Scanner {
                current: if yes {
                    (old(self).current + 1) as usize
                } else {
                    old(self).current
                },
                ..*old(self)
            }),
    {
        if self.is_at_end() || self.source[self.current] != expect {
            return false;
        }
        self.current += 1;
        true
    }

    fn add_token(&mut self, kind: TokenType)
        ensures
            token_views(final(self).tokens@) == token_views(old(self).tokens@).push(
                TokenView { kind: kind.model(), line: old(self).line as nat },
            ),
            final(self).source == old(self).source,
            final(self).current == old(self).current,
            final(self).start == old(self).start,
            final(self).line == old(self).line,
    {
        proof {
            lemma_kind_view(kind);
        }
        self.tokens.push(Token::new(kind, self.line));
        assert(token_views(self.tokens@) =~= token_views(old(self).tokens@).push(
            TokenView { kind: kind.model(), line: old(self).line as nat },
        ));
    }

    fn skip_comment(&mut self)
        requires
            old(self).inv(),
        ensures
            *final(self) == (Scanner {
                current: comment_end(old(self).source@, old(self).current as int) as usize,
                ..*old(self)
            }),
            old(self).current <= final(self).current <= old(self).source@.len(),
            final(self).current == comment_end(old(self).source@, old(self).current as int),
    {
        while self.current < self.source.len() && self.source[self.current] != '\n'
            invariant
                old(self).current <= self.current <= self.source@.len(),
                *self == (Scanner { current: self.current, ..*old(self) }),
                comment_end(self.source@, self.current as int) == comment_end(
                    old(self).source@,
                    old(self).current as int,
                ),
            decreases self.source@.len() - self.current,
        {
            self.current += 1;
        }
    }

    fn skip_digits(&mut self)
        requires
            old(self).inv(),
        ensures
            *final(self) == (Scanner {
                current: digits_end(old(self).source@, old(self).current as int) as usize,
                ..*old(self)
            }),
            old(self).current <= final(self).current <= old(self).source@.len(),
            final(self).current == digits_end(old(self).source@, old(self).current as int),
    {
        while self.current < self.source.len() && digit(self.source[self.current])
            invariant
                old(self).current <= self.current <= self.source@.len(),
                *self == (Scanner { current: self.current, ..*old(self) }),
                digits_end(self.source@, self.current as int) == digits_end(
                    old(self).source@,
                    old(self).current as int,
                ),
            decreases self.source@.len() - self.current,
        {
            self.current += 1;
        }
    }

    fn read_string(&mut self) -> (result: Result<(), Error>)
        requires
            old(self).inv(),
            old(self).start + 1 == old(self).current,
            old(self).line <= old(self).current,
        ensures
            final(self).source@ == old(self).source@,
            ({
                let src = old(self).source@;
                let open = old(self).current as int;
                let close = quote_at(src, open);
                let last = (old(self).line + newlines(src, open, close)) as nat;
                if close >= src.len() {
                    result is Err && result->Err_0@ == ErrorView::Scan(last, unterminated_string())
                } else {
                    &&& result is Ok
                    &&& final(self).inv()
                    &&& final(self).line <= final(self).current
                    &&& final(self).current == close + 1
                    &&& final(self).line == last
                    &&& final(self).start == old(self).start
                    &&& token_views(final(self).tokens@) == token_views(old(self).tokens@).push(
                        TokenView {
                            kind: TokenTypeView::String(src.subrange(open, close)),
                            line: last,
                        },
                    )
                }
            }),
    {
        let ghost open = self.current as int;
        while self.current < self.source.len() && self.source[self.current] != '"'
            invariant
                self.inv(),
                open <= self.current,
                self.line <= self.current,
                self.source == old(self).source,
                self.tokens == old(self).tokens,
                self.start == old(self).start,
                open == old(self).current,
                quote_at(self.source@, self.current as int) == quote_at(self.source@, open),
                self.line == old(self).line + newlines(self.source@, open, self.current as int),
            decreases self.source@.len() - self.current,
        {
            if self.source[self.current] == '\n' {
                self.line += 1;
            }
            self.current += 1;
        }
        if self.is_at_end() {
            return Err(Error::Scan(self.line, String::from_str("Unterminated string.")));
        }
        self.current += 1;
        let val = string_of(&self.source, self.start + 1, self.current - 1);
        self.add_token(TokenType::String(val));
        Ok(())
    }

    fn read_number(&mut self)
        requires
            old(self).inv(),
            old(self).start + 1 == old(self).current,
            is_digit(old(self).source@[old(self).start as int]),
        ensures
            final(self).inv(),
            final(self).source == old(self).source,
            final(self).line == old(self).line,
            final(self).start == old(self).start,
            final(self).current == number_end(old(self).source@, old(self).start as int),
            token_views(final(self).tokens@) == token_views(old(self).tokens@).push(
                TokenView {
                    kind: TokenTypeView::Number(
                        old(self).source@.subrange(
                            old(self).start as int,
                            number_end(old(self).source@, old(self).start as int),
                        ),
                    ),
                    line: old(self).line as nat,
                },
            ),
    {
        self.skip_digits();
        let dot = match self.peek() {
            Some(c) => c == '.',
            None => false,
        };
        let fraction = match self.peek_next() {
            Some(c) => digit(c),
            None => false,
        };
        if dot && fraction {
            self.current += 1;
            self.skip_digits();
        }
        let val = self.current_string();
        self.add_token(TokenType::Number(val));
    }

    fn read_identifier(&mut self)
        requires
            old(self).inv(),
            old(self).start + 1 == old(self).current,
            is_alpha(old(self).source@[old(self).start as int]),
        ensures
            final(self).inv(),
            final(self).source == old(self).source,
            final(self).line == old(self).line,
            final(self).start == old(self).start,
            final(self).current == word_end(old(self).source@, old(self).start as int),
            token_views(final(self).tokens@) == token_views(old(self).tokens@).push(
                TokenView {
                    kind: word_kind(
                        old(self).source@.subrange(
                            old(self).start as int,
                            word_end(old(self).source@, old(self).start as int),
                        ),
                    ),
                    line: old(self).line as nat,
                },
            ),
    {
        while self.current < self.source.len() && (alpha(self.source[self.current]) || digit(
            self.source[self.current],
        ))
            invariant
                self.inv(),
                old(self).current <= self.current,
                *self == (Scanner { current: self.current, ..*old(self) }),
                word_end(self.source@, self.current as int) == word_end(
                    old(self).source@,
                    old(self).current as int,
                ),
            decreases self.source@.len() - self.current,
        {
            self.current += 1;
        }
        let text = self.current_string();
        let kind = TokenType::new_identifier(text);
        proof {
            lemma_kind_view(kind);
        }
        self.add_token(kind);
    }
}

} // verus!
