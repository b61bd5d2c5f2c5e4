use vstd::prelude::*;
use vstd::string::*;
use crate::text::{decimal, decimal_string};
use crate::token::{lemma_kind_view, Token, TokenType, TokenView};

verus! {

/// What can go wrong between source text and the end of a run.
#[derive(Debug)]
pub enum Error {
    /// The scanner met text that is no lexeme: the line and what is wrong.
    Scan(usize, String),
    /// The parser met a token that fits no rule: the token and what is wrong.
    Parse(Token, String),
    /// Parsing ended with at least one parse error collected.
    ParseFailed,
    /// The resolver found a misuse of a name: the token and what is wrong.
    Resolve(Token, String),
    /// Evaluation failed: the token at fault and what is wrong.
    Runtime(Token, String),
}

pub type Result<T> = std::result::Result<T, Error>;

/// The mathematical model of an [`Error`].
pub enum ErrorView {
    Scan(nat, Seq<char>),
    Parse(TokenView, Seq<char>),
    ParseFailed,
    Resolve(TokenView, Seq<char>),
    Runtime(TokenView, Seq<char>),
}

impl View for Error {
    type V = ErrorView;

    open spec fn view(&self) -> ErrorView {
        match self {
            Error::Scan(line, msg) => ErrorView::Scan(*line as nat, msg@),
            Error::Parse(token, msg) => ErrorView::Parse(token@, msg@),
            Error::ParseFailed => ErrorView::ParseFailed,
            Error::Resolve(token, msg) => ErrorView::Resolve(token@, msg@),
            Error::Runtime(token, msg) => ErrorView::Runtime(token@, msg@),
        }
    }
}

/// A diagnostic line: `[line N] Error`, then the place, a colon and the
/// message.
pub open spec fn report_text(line: nat, place: Seq<char>, msg: Seq<char>) -> Seq<char> {
    "[line "@ + decimal(line) + "] Error"@ + place + ": "@ + msg
}

/// The place of a token in a diagnostic: `at end` for the end of input,
/// else `at` and the token's lexeme.
pub open spec fn place_of(token: TokenView) -> Seq<char> {
    if token.kind is EOF {
        " at end"@
    } else {
        " at "@ + token.kind.lexeme()
    }
}

impl ErrorView {
    /// The line that reports this error.
    pub open spec fn display(self) -> Seq<char> {
        match self {
            ErrorView::Scan(line, msg) => report_text(line, Seq::empty(), msg),
            ErrorView::Parse(token, msg) => report_text(token.line, place_of(token), msg),
            ErrorView::ParseFailed => "parse failed"@,
            ErrorView::Resolve(token, msg) => report_text(token.line, place_of(token), msg),
            ErrorView::Runtime(token, msg) => report_text(token.line, place_of(token), msg),
        }
    }
}

/// The diagnostic line for `msg` at `line`, with `place` between the word
/// `Error` and the colon.
pub fn report(line: usize, place: &str, msg: &str) -> (text: String)
    ensures
        text@ == report_text(line as nat, place@, msg@),
{
    let mut text = String::from_str("[line ");
    let number = decimal_string(line);
    text.append(number.as_str());
    text.append("] Error");
    text.append(place);
    text.append(": ");
    text.append(msg);
    text
}

/// The diagnostic line for `msg` at `line`, with no place.
pub fn error(line: usize, msg: &str) -> (text: String)
    ensures
        text@ == report_text(line as nat, Seq::empty(), msg@),
{
    let text = report(line, "", msg);
    proof {
        reveal_strlit("");
        assert(""@ =~= Seq::<char>::empty());
    }
    text
}

fn place(token: &Token) -> (text: String)
    ensures
        text@ == place_of(token@),
{
    proof {
        lemma_kind_view(token.kind);
    }
    match token.kind {
        TokenType::EOF => String::from_str(" at end"),
        _ => {
            let mut text = String::from_str(" at ");
            let lexeme = token.lexeme();
            text.append(lexeme.as_str());
            text
        },
    }
}

impl Error {
    /// The line that reports this error.
    pub fn line_display(&self) -> (text: String)
        ensures
            text@ == self@.display(),
    {
        match self {
            Error::Scan(line, msg) => error(*line, msg.as_str()),
            Error::Parse(token, msg) => {
                let at = place(token);
                report(token.line, at.as_str(), msg.as_str())
            },
            Error::ParseFailed => String::from_str("parse failed"),
            Error::Resolve(token, msg) => {
                let at = place(token);
                report(token.line, at.as_str(), msg.as_str())
            },
            Error::Runtime(token, msg) => {
                let at = place(token);
                report(token.line, at.as_str(), msg.as_str())
            },
        }
    }

    /// A copy of this error.
    pub fn duplicate(&self) -> (copy: Error)
        ensures
            copy == *self,
    {
        match self {
            Error::Scan(line, msg) => Error::Scan(*line, msg.clone()),
            Error::Parse(token, msg) => Error::Parse(token.duplicate(), msg.clone()),
            Error::ParseFailed => Error::ParseFailed,
            Error::Resolve(token, msg) => Error::Resolve(token.duplicate(), msg.clone()),
            Error::Runtime(token, msg) => Error::Runtime(token.duplicate(), msg.clone()),
        }
    }
}

/// The models of a list of errors.
pub open spec fn error_views(errors: Seq<Error>) -> Seq<ErrorView> {
    Seq::new(errors.len(), |i: int| errors[i]@)
}

} // verus!
