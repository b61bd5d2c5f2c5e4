use vstd::prelude::*;
use crate::scanner::{
    digits_end, is_alpha, is_digit, is_word_char, lemma_digits_end_bounds,
    lemma_lexeme_advances, lemma_quote_at_bounds, lemma_word_end_bounds, next_lexeme,
    number_end, quote_at, scan, scan_from, word_end,
};
use crate::token::{keyword, word_kind, TokenTypeView, TokenView};

verus! {

/// Whether `s` is written as a number: digits, and after them at most one
/// dot with digits behind it.
pub open spec fn number_text(s: Seq<char>) -> bool {
    let whole = digits_end(s, 0);
    &&& whole > 0
    &&& whole == s.len() || (s[whole] == '.' && whole + 1 < s.len() && digits_end(s, whole + 1)
        == s.len())
}

/// Whether `s` is written as a word: a letter or an underscore, then
/// letters, digits and underscores.
pub open spec fn word_text(s: Seq<char>) -> bool {
    &&& s.len() > 0
    &&& is_alpha(s[0])
    &&& forall|i: int| 0 <= i < s.len() ==> is_word_char(#[trigger] s[i])
}

/// Whether a token of this kind can be written: every kind but the
/// end-of-input token can, where the text it carries is one that the
/// scanner reads as this kind.
pub open spec fn writable(kind: TokenTypeView) -> bool {
    match kind {
        TokenTypeView::Identifier(name) => word_text(name) && keyword(name) is None,
        TokenTypeView::Number(digits) => number_text(digits),
        TokenTypeView::String(text) => forall|i: int|
            0 <= i < text.len() ==> #[trigger] text[i] != '"',
        TokenTypeView::EOF => false,
        _ => true,
    }
}

/// The lexemes of the tokens before the last, each with a space after it.
pub open spec fn spelled(tokens: Seq<TokenView>) -> Seq<char>
    decreases tokens.len(),
{
    if tokens.len() <= 1 {
        Seq::empty()
    } else {
        tokens[0].kind.lexeme() + seq![' '] + spelled(tokens.drop_first())
    }
}

/// The kinds of a sequence of tokens.
pub open spec fn kinds(tokens: Seq<TokenView>) -> Seq<TokenTypeView> {
    tokens.map_values(|t: TokenView| t.kind)
}

proof fn lemma_digits_span(src: Seq<char>, pos: int)
    requires
        0 <= pos <= src.len(),
    ensures
        forall|i: int| pos <= i < digits_end(src, pos) ==> is_digit(#[trigger] src[i]),
        digits_end(src, pos) < src.len() ==> !is_digit(src[digits_end(src, pos)]),
    decreases src.len() - pos,
{
    if pos < src.len() && is_digit(src[pos]) {
        lemma_digits_span(src, pos + 1);
    }
}

proof fn lemma_word_span(src: Seq<char>, pos: int)
    requires
        0 <= pos <= src.len(),
    ensures
        forall|i: int| pos <= i < word_end(src, pos) ==> is_word_char(#[trigger] src[i]),
        word_end(src, pos) < src.len() ==> !is_word_char(src[word_end(src, pos)]),
    decreases src.len() - pos,
{
    if pos < src.len() && is_word_char(src[pos]) {
        lemma_word_span(src, pos + 1);
    }
}

proof fn lemma_quote_span(src: Seq<char>, pos: int)
    requires
        0 <= pos <= src.len(),
    ensures
        forall|i: int| pos <= i < quote_at(src, pos) ==> #[trigger] src[i] != '"',
        quote_at(src, pos) < src.len() ==> src[quote_at(src, pos)] == '"',
    decreases src.len() - pos,
{
    if pos < src.len() && src[pos] != '"' {
        lemma_quote_span(src, pos + 1);
    }
}

proof fn lemma_digits_region(text: Seq<char>, pos: int, n: int)
    requires
        0 <= pos,
        0 <= n,
        pos + n <= text.len(),
        forall|i: int| pos <= i < pos + n ==> is_digit(#[trigger] text[i]),
        pos + n == text.len() || !is_digit(text[pos + n]),
    ensures
        digits_end(text, pos) == pos + n,
    decreases n,
{
    if n > 0 {
        assert(is_digit(text[pos]));
        lemma_digits_region(text, pos + 1, n - 1);
    }
}

proof fn lemma_word_region(text: Seq<char>, pos: int, n: int)
    requires
        0 <= pos,
        0 <= n,
        pos + n <= text.len(),
        forall|i: int| pos <= i < pos + n ==> is_word_char(#[trigger] text[i]),
        pos + n == text.len() || !is_word_char(text[pos + n]),
    ensures
        word_end(text, pos) == pos + n,
    decreases n,
{
    if n > 0 {
        assert(is_word_char(text[pos]));
        lemma_word_region(text, pos + 1, n - 1);
    }
}

proof fn lemma_quote_region(text: Seq<char>, pos: int, n: int)
    requires
        0 <= pos,
        0 <= n,
        pos + n <= text.len(),
        forall|i: int| pos <= i < pos + n ==> #[trigger] text[i] != '"',
        pos + n == text.len() || text[pos + n] == '"',
    ensures
        quote_at(text, pos) == pos + n,
    decreases n,
{
    if n > 0 {
        assert(text[pos] != '"');
        lemma_quote_region(text, pos + 1, n - 1);
    }
}

/// What the scanner reads as a number is written as a number.
proof fn lemma_scanned_number(src: Seq<char>, start: int)
    requires
        0 <= start < src.len(),
        is_digit(src[start]),
    ensures
        number_text(src.subrange(start, number_end(src, start))),
        start < number_end(src, start) <= src.len(),
{
    let whole = digits_end(src, start);
    lemma_digits_end_bounds(src, start);
    lemma_digits_span(src, start);
    assert(whole > start) by {
        lemma_digits_end_bounds(src, start + 1);
    }
    let end = number_end(src, start);
    if whole + 1 < src.len() && src[whole] == '.' && is_digit(src[whole + 1]) {
        lemma_digits_end_bounds(src, whole + 1);
        lemma_digits_span(src, whole + 1);
        lemma_digits_end_bounds(src, whole + 2);
        let text = src.subrange(start, end);
        assert(forall|i: int| 0 <= i < text.len() ==> text[i] == src[start + i]);
        lemma_digits_region(text, 0, whole - start);
        lemma_digits_region(text, whole - start + 1, end - whole - 1);
    } else {
        let text = src.subrange(start, end);
        assert(forall|i: int| 0 <= i < text.len() ==> text[i] == src[start + i]);
        lemma_digits_region(text, 0, whole - start);
    }
}

/// What the scanner reads as a word is written as a word.
proof fn lemma_scanned_word(src: Seq<char>, start: int)
    requires
        0 <= start < src.len(),
        is_alpha(src[start]),
    ensures
        word_text(src.subrange(start, word_end(src, start))),
        start < word_end(src, start) <= src.len(),
{
    lemma_word_end_bounds(src, start);
    lemma_word_end_bounds(src, start + 1);
    lemma_word_span(src, start);
    let text = src.subrange(start, word_end(src, start));
    assert(forall|i: int| 0 <= i < text.len() ==> text[i] == src[start + i]);
}

/// Every token that the scanner makes of a lexeme can be written.
pub proof fn lemma_scanned_kind_is_writable(src: Seq<char>, pos: int, line: nat)
    requires
        0 <= pos < src.len(),
    ensures
        match next_lexeme(src, pos, line) {
            Ok(lexeme) => match lexeme.kind {
                Some(kind) => writable(kind),
                None => true,
            },
            Err(_) => true,
        },
{
    let c = src[pos];
    if c == '"' {
        lemma_quote_at_bounds(src, pos + 1);
        lemma_quote_span(src, pos + 1);
        let close = quote_at(src, pos + 1);
        let text = src.subrange(pos + 1, close);
        assert(forall|i: int| 0 <= i < text.len() ==> text[i] == src[pos + 1 + i]);
    } else if is_digit(c) {
        lemma_scanned_number(src, pos);
    } else if is_alpha(c) {
        lemma_scanned_word(src, pos);
    }
}

/// Whether `text` holds `lexeme` at `pos`, and after it a space or
/// nothing more.
pub open spec fn written_at(text: Seq<char>, pos: int, lexeme: Seq<char>) -> bool {
    &&& 0 <= pos
    &&& pos + lexeme.len() <= text.len()
    &&& forall|i: int| 0 <= i < lexeme.len() ==> text[pos + i] == #[trigger] lexeme[i]
    &&& pos + lexeme.len() == text.len() || text[pos + lexeme.len()] == ' '
}

/// Whether the scanner reads a token of the kind `kind` at `pos`, and
/// goes on after `n` characters.
pub open spec fn reads(text: Seq<char>, pos: int, line: nat, kind: TokenTypeView, n: int) -> bool {
    match next_lexeme(text, pos, line) {
        Ok(lexeme) => lexeme.kind == Some(kind) && lexeme.end == pos + n,
        Err(_) => false,
    }
}

/// Whether a kind is a symbol of one or two characters.
pub open spec fn is_symbol(kind: TokenTypeView) -> bool {
    kind is LeftParen || kind is RightParen || kind is LeftBrace || kind is RightBrace || kind is Comma || kind is Dot || kind is Minus || kind is Plus || kind is Semicolon || kind is Slash || kind is Star || kind is Bang || kind is BangEqual || kind is Equal || kind is EqualEqual || kind is Greater || kind is GreaterEqual || kind is Less || kind is LessEqual
}

/// Whether a kind is a reserved word.
pub open spec fn is_reserved(kind: TokenTypeView) -> bool {
    kind is And || kind is Class || kind is Else || kind is False || kind is Fun || kind is For || kind is If || kind is Nil || kind is Or || kind is Print || kind is Return || kind is Super || kind is This || kind is True || kind is Var || kind is While
}

/// The lexeme of a symbol has one or two characters.
proof fn lemma_symbol_text(kind: TokenTypeView)
    requires
        is_symbol(kind),
    ensures
        1 <= kind.lexeme().len() <= 2,
{
    reveal_strlit("(");
    reveal_strlit(")");
    reveal_strlit("{");
    reveal_strlit("}");
    reveal_strlit(",");
    reveal_strlit(".");
    reveal_strlit("-");
    reveal_strlit("+");
    reveal_strlit(";");
    reveal_strlit("/");
    reveal_strlit("*");
    reveal_strlit("!");
    reveal_strlit("!=");
    reveal_strlit("=");
    reveal_strlit("==");
    reveal_strlit(">");
    reveal_strlit(">=");
    reveal_strlit("<");
    reveal_strlit("<=");
}

proof fn lemma_reads_back_symbol(text: Seq<char>, pos: int, line: nat, kind: TokenTypeView)
    requires
        is_symbol(kind),
        written_at(text, pos, kind.lexeme()),
    ensures
        reads(text, pos, line, kind, kind.lexeme().len() as int),
{
    reveal_strlit("(");
    reveal_strlit(")");
    reveal_strlit("{");
    reveal_strlit("}");
    reveal_strlit(",");
    reveal_strlit(".");
    reveal_strlit("-");
    reveal_strlit("+");
    reveal_strlit(";");
    reveal_strlit("/");
    reveal_strlit("*");
    reveal_strlit("!");
    reveal_strlit("!=");
    reveal_strlit("=");
    reveal_strlit("==");
    reveal_strlit(">");
    reveal_strlit(">=");
    reveal_strlit("<");
    reveal_strlit("<=");
    let lexeme = kind.lexeme();
    assert(text[pos + 0] == lexeme[0]);
    if lexeme.len() == 2 {
        assert(text[pos + 1] == lexeme[1]);
    }
}

/// The characters of a short text are word characters where each of the
/// first six is one or lies past the end.
proof fn lemma_short_word(s: Seq<char>)
    requires
        0 < s.len() <= 6,
        is_alpha(s[0]),
        s.len() > 1 ==> is_word_char(s[1]),
        s.len() > 2 ==> is_word_char(s[2]),
        s.len() > 3 ==> is_word_char(s[3]),
        s.len() > 4 ==> is_word_char(s[4]),
        s.len() > 5 ==> is_word_char(s[5]),
    ensures
        word_text(s),
{
    assert forall|i: int| 0 <= i < s.len() implies is_word_char(#[trigger] s[i]) by {
        if i == 0 {
        } else if i == 1 {
        } else if i == 2 {
        } else if i == 3 {
        } else if i == 4 {
        } else {
        }
    }
}

/// A reserved word is written as a word.
proof fn lemma_reserved_word_text(kind: TokenTypeView)
    requires
        is_reserved(kind),
    ensures
        word_text(kind.lexeme()),
{
    reveal_strlit("and");
    reveal_strlit("class");
    reveal_strlit("else");
    reveal_strlit("false");
    reveal_strlit("fun");
    reveal_strlit("for");
    reveal_strlit("if");
    reveal_strlit("nil");
    reveal_strlit("or");
    reveal_strlit("print");
    reveal_strlit("return");
    reveal_strlit("super");
    reveal_strlit("this");
    reveal_strlit("true");
    reveal_strlit("var");
    reveal_strlit("while");
    lemma_short_word(kind.lexeme());
}

/// A reserved word is the reserved word that its spelling spells.
proof fn lemma_reserved_word_kind(kind: TokenTypeView)
    requires
        is_reserved(kind),
    ensures
        keyword(kind.lexeme()) == Some(kind),
{
    reveal_strlit("and");
    reveal_strlit("class");
    reveal_strlit("else");
    reveal_strlit("false");
    reveal_strlit("fun");
    reveal_strlit("for");
    reveal_strlit("if");
    reveal_strlit("nil");
    reveal_strlit("or");
    reveal_strlit("print");
    reveal_strlit("return");
    reveal_strlit("super");
    reveal_strlit("this");
    reveal_strlit("true");
    reveal_strlit("var");
    reveal_strlit("while");
    let s = kind.lexeme();
    assert(s.len() >= 2);
    assert(is_alpha(s[0]) && is_alpha(s[1]));
}

/// A word that is written at `pos` is read back as the kind of the word.
proof fn lemma_reads_back_word(text: Seq<char>, pos: int, line: nat, word: Seq<char>)
    requires
        word_text(word),
        written_at(text, pos, word),
    ensures
        reads(text, pos, line, word_kind(word), word.len() as int),
{
    let n = word.len() as int;
    assert(text[pos + 0] == word[0]);
    assert forall|i: int| pos <= i < pos + n implies is_word_char(#[trigger] text[i]) by {
        assert(text[pos + (i - pos)] == word[i - pos]);
    }
    lemma_word_region(text, pos, n);
    assert(text.subrange(pos, pos + n) =~= word) by {
        assert forall|i: int| 0 <= i < n implies text.subrange(pos, pos + n)[i] == word[i] by {
            assert(text[pos + i] == word[i]);
        }
    }
}

/// A number that is written at `pos` is read back as that number.
proof fn lemma_reads_back_number(text: Seq<char>, pos: int, line: nat, digits: Seq<char>)
    requires
        number_text(digits),
        written_at(text, pos, digits),
    ensures
        reads(text, pos, line, TokenTypeView::Number(digits), digits.len() as int),
{
    let n = digits.len() as int;
    let whole = digits_end(digits, 0);
    lemma_digits_end_bounds(digits, 0);
    lemma_digits_span(digits, 0);
    assert(text[pos + 0] == digits[0]);
    assert(is_digit(digits[0]));
    assert forall|i: int| pos <= i < pos + whole implies is_digit(#[trigger] text[i]) by {
        assert(text[pos + (i - pos)] == digits[i - pos]);
    }
    if whole < n {
        assert(text[pos + whole] == digits[whole]);
    }
    lemma_digits_region(text, pos, whole);
    if whole < n {
        lemma_digits_end_bounds(digits, whole + 1);
        lemma_digits_span(digits, whole + 1);
        assert(text[pos + (whole + 1)] == digits[whole + 1]);
        assert(is_digit(digits[whole + 1])) by {
            lemma_digits_end_bounds(digits, whole + 2);
        }
        assert forall|i: int| pos + whole + 1 <= i < pos + n implies is_digit(
            #[trigger] text[i],
        ) by {
            assert(text[pos + (i - pos)] == digits[i - pos]);
        }
        lemma_digits_region(text, pos + whole + 1, n - whole - 1);
    }
    assert(text.subrange(pos, pos + n) =~= digits) by {
        assert forall|i: int| 0 <= i < n implies text.subrange(pos, pos + n)[i] == digits[i] by {
            assert(text[pos + i] == digits[i]);
        }
    }
}

/// A string that is written at `pos`, in its quotes, is read back as that
/// string.
proof fn lemma_reads_back_string(text: Seq<char>, pos: int, line: nat, content: Seq<char>)
    requires
        writable(TokenTypeView::String(content)),
        written_at(text, pos, TokenTypeView::String(content).lexeme()),
    ensures
        reads(text, pos, line, TokenTypeView::String(content), (content.len() + 2) as int),
{
    let lexeme = TokenTypeView::String(content).lexeme();
    let n = content.len() as int;
    assert(lexeme.len() == n + 2);
    assert(lexeme[0] == '"');
    assert(lexeme[n + 1] == '"');
    assert(text[pos + 0] == lexeme[0]);
    assert(text[pos + (n + 1)] == lexeme[n + 1]);
    assert forall|i: int| pos + 1 <= i < pos + 1 + n implies #[trigger] text[i] != '"' by {
        assert(text[pos + (i - pos)] == lexeme[i - pos]);
        assert(lexeme[i - pos] == content[i - pos - 1]);
    }
    lemma_quote_region(text, pos + 1, n);
    assert(text.subrange(pos + 1, pos + 1 + n) =~= content) by {
        assert forall|i: int| 0 <= i < n implies text.subrange(pos + 1, pos + 1 + n)[i]
            == content[i] by {
            assert(text[pos + (i + 1)] == lexeme[i + 1]);
            assert(lexeme[i + 1] == content[i]);
        }
    }
}

/// The lexeme of a token that can be written is not empty.
pub proof fn lemma_lexeme_is_not_empty(kind: TokenTypeView)
    requires
        writable(kind),
    ensures
        kind.lexeme().len() > 0,
{
    match kind {
        TokenTypeView::Identifier(_) => {},
        TokenTypeView::Number(digits) => {
            lemma_digits_end_bounds(digits, 0);
        },
        TokenTypeView::String(_) => {},
        _ => {
            if is_symbol(kind) {
                lemma_symbol_text(kind);
            } else {
                lemma_reserved_word_text(kind);
            }
        },
    }
}

/// A token that can be written, and is written at `pos` with a space or
/// nothing more after it, is read back as a token of its kind, up to the
/// end of its lexeme.
pub proof fn lemma_reads_back(text: Seq<char>, pos: int, line: nat, kind: TokenTypeView)
    requires
        writable(kind),
        written_at(text, pos, kind.lexeme()),
    ensures
        reads(text, pos, line, kind, kind.lexeme().len() as int),
{
    match kind {
        TokenTypeView::Identifier(name) => {
            lemma_reads_back_word(text, pos, line, name);
        },
        TokenTypeView::Number(digits) => {
            lemma_reads_back_number(text, pos, line, digits);
        },
        TokenTypeView::String(content) => {
            lemma_reads_back_string(text, pos, line, content);
        },
        _ => {
            if is_symbol(kind) {
                lemma_reads_back_symbol(text, pos, line, kind);
            } else {
                assert(is_reserved(kind));
                lemma_reserved_word_text(kind);
                lemma_reserved_word_kind(kind);
                lemma_reads_back_word(text, pos, line, kind.lexeme());
            }
        },
    }
}

/// Whether every token but the last can be written, and the last is the
/// end-of-input token.
pub open spec fn all_writable(tokens: Seq<TokenView>) -> bool {
    &&& tokens.len() >= 1
    &&& tokens.last().kind is EOF
    &&& forall|i: int| 0 <= i < tokens.len() - 1 ==> writable(#[trigger] tokens[i].kind)
}

/// The tokens that the scanner makes can be written.
proof fn lemma_scanned_tokens_are_writable(src: Seq<char>, pos: int, line: nat)
    requires
        0 <= pos <= src.len(),
    ensures
        match scan_from(src, pos, line) {
            Ok(tokens) => all_writable(tokens),
            Err(_) => true,
        },
    decreases src.len() - pos,
{
    if pos < src.len() {
        lemma_lexeme_advances(src, pos, line);
        lemma_scanned_kind_is_writable(src, pos, line);
        match next_lexeme(src, pos, line) {
            Ok(lexeme) => {
                lemma_scanned_tokens_are_writable(src, lexeme.end, lexeme.line);
                match scan_from(src, lexeme.end, lexeme.line) {
                    Ok(rest) => {
                        match lexeme.kind {
                            Some(kind) => {
                                let first = TokenView { kind, line: lexeme.line };
                                let tokens = seq![first] + rest;
                                assert(tokens.last() == rest.last());
                                assert forall|i: int| 0 <= i < tokens.len() - 1 implies writable(
                                    #[trigger] tokens[i].kind,
                                ) by {
                                    if i > 0 {
                                        assert(tokens[i] == rest[i - 1]);
                                    }
                                }
                            },
                            None => {},
                        }
                    },
                    Err(_) => {},
                }
            },
            Err(_) => {},
        }
    }
}

/// The spelling of tokens, read after any text, gives tokens of the same
/// kinds.
proof fn lemma_respelled(tokens: Seq<TokenView>, before: Seq<char>, line: nat)
    requires
        all_writable(tokens),
    ensures
        match scan_from(before + spelled(tokens), before.len() as int, line) {
            Ok(again) => kinds(again) == kinds(tokens),
            Err(_) => false,
        },
    decreases tokens.len(),
{
    let text = before + spelled(tokens);
    let pos = before.len() as int;
    if tokens.len() <= 1 {
        assert(text =~= before);
        let again = seq![TokenView { kind: TokenTypeView::EOF, line }];
        assert(kinds(again) =~= kinds(tokens));
    } else {
        let kind = tokens[0].kind;
        let lexeme = kind.lexeme();
        let rest = tokens.drop_first();
        let n = lexeme.len() as int;
        assert(all_writable(rest)) by {
            assert(rest.last() == tokens.last());
            assert forall|i: int| 0 <= i < rest.len() - 1 implies writable(
                #[trigger] rest[i].kind,
            ) by {
                assert(rest[i] == tokens[i + 1]);
            }
        }
        assert(writable(kind));
        assert(spelled(tokens) == lexeme + seq![' '] + spelled(rest));
        assert(written_at(text, pos, lexeme)) by {
            assert forall|i: int| 0 <= i < n implies text[pos + i] == #[trigger] lexeme[i] by {}
        }
        lemma_reads_back(text, pos, line, kind);
        let first = next_lexeme(text, pos, line)->Ok_0;
        assert(text[pos + n] == ' ');
        let blank = next_lexeme(text, pos + n, first.line)->Ok_0;
        assert(blank.kind is None && blank.end == pos + n + 1 && blank.line == first.line);
        let longer = before + lexeme + seq![' '];
        assert(text =~= longer + spelled(rest));
        lemma_respelled(rest, longer, first.line);
        let tail = scan_from(text, pos + n + 1, first.line)->Ok_0;
        assert(scan_from(text, pos + n, first.line) == Ok::<Seq<TokenView>, crate::errors::ErrorView>(
            tail,
        ));
        let again = seq![TokenView { kind, line: first.line }] + tail;
        assert(scan_from(text, pos, line) == Ok::<Seq<TokenView>, crate::errors::ErrorView>(again));
        assert(kinds(again) =~= kinds(tokens)) by {
            assert(kinds(tail).len() == tail.len());
            assert(kinds(rest).len() == rest.len());
            assert(again.len() == tokens.len());
            assert forall|i: int| 0 <= i < again.len() implies kinds(again)[i] == kinds(
                tokens,
            )[i] by {
                if i > 0 {
                    assert(again[i] == tail[i - 1]);
                    assert(kinds(tail)[i - 1] == kinds(rest)[i - 1]);
                    assert(rest[i - 1] == tokens[i]);
                }
            }
        }
    }
}

/// The lexeme of a token is its spelling in a source: the lexeme alone,
/// scanned as a source, gives one token of the kind of the token, with the
/// text it carries, and the end-of-input token.
pub proof fn law_lexeme_scans_to_its_kind(kind: TokenTypeView)
    requires
        writable(kind),
    ensures
        match scan(kind.lexeme()) {
            Ok(tokens) => kinds(tokens) == seq![kind, TokenTypeView::EOF],
            Err(_) => false,
        },
{
    let text = kind.lexeme();
    lemma_lexeme_is_not_empty(kind);
    assert(written_at(text, 0, text));
    lemma_reads_back(text, 0, 1, kind);
    let first = next_lexeme(text, 0, 1)->Ok_0;
    let tail = seq![TokenView { kind: TokenTypeView::EOF, line: first.line }];
    assert(scan_from(text, text.len() as int, first.line) == Ok::<
        Seq<TokenView>,
        crate::errors::ErrorView,
    >(tail));
    let tokens = seq![TokenView { kind, line: first.line }] + tail;
    assert(scan(text) == Ok::<Seq<TokenView>, crate::errors::ErrorView>(tokens));
    assert(kinds(tokens) =~= seq![kind, TokenTypeView::EOF]);
}

/// Lexing round trip: the lexemes of the tokens of a source, written one
/// after the other with a space after each, are a source with tokens of
/// the same kinds, carrying the same text. (The lines of the tokens are
/// not kept: the spelling has the newlines of string literals only.)
pub proof fn law_respelled_source_scans_alike(src: Seq<char>)
    ensures
        match scan(src) {
            Ok(tokens) => match scan(spelled(tokens)) {
                Ok(again) => kinds(again) == kinds(tokens),
                Err(_) => false,
            },
            Err(_) => true,
        },
{
    lemma_scanned_tokens_are_writable(src, 0, 1);
    match scan(src) {
        Ok(tokens) => {
            lemma_respelled(tokens, Seq::empty(), 1);
            assert(Seq::<char>::empty() + spelled(tokens) =~= spelled(tokens));
        },
        Err(_) => {},
    }
}

} // verus!
