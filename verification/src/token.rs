use vstd::prelude::*;
use vstd::string::*;

verus! {

/// The lexical category of a token. The three literal-carrying kinds hold the
/// text that the scanner read: the name of an identifier, the content of a
/// string literal without its quotes, and the digits of a number literal.
#[derive(Debug, Clone)]
pub enum TokenType {
    // single-char tokens
    LeftParen,
    RightParen,
    LeftBrace,
    RightBrace,
    Comma,
    Dot,
    Minus,
    Plus,
    Semicolon,
    Slash,
    Star,
    // one/two-char tokens
    Bang,
    BangEqual,
    Equal,
    EqualEqual,
    Greater,
    GreaterEqual,
    Less,
    LessEqual,
    // literals
    Identifier(String),
    String(String),
    Number(String),
    // keywords
    And,
    Class,
    Else,
    False,
    Fun,
    For,
    If,
    Nil,
    Or,
    Print,
    Return,
    Super,
    This,
    True,
    Var,
    While,
    EOF,
}

/// The mathematical model of a [`TokenType`]: the same categories, with the
/// carried text as a sequence of characters.
pub enum TokenTypeView {
    LeftParen,
    RightParen,
    LeftBrace,
    RightBrace,
    Comma,
    Dot,
    Minus,
    Plus,
    Semicolon,
    Slash,
    Star,
    Bang,
    BangEqual,
    Equal,
    EqualEqual,
    Greater,
    GreaterEqual,
    Less,
    LessEqual,
    Identifier(Seq<char>),
    String(Seq<char>),
    Number(Seq<char>),
    And,
    Class,
    Else,
    False,
    Fun,
    For,
    If,
    Nil,
    Or,
    Print,
    Return,
    Super,
    This,
    True,
    Var,
    While,
    EOF,
}

impl TokenType {
    /// The model of a kind: the same category, with the text it carries.
    pub open spec fn model(&self) -> TokenTypeView {
        match self {
            TokenType::LeftParen => TokenTypeView::LeftParen,
            TokenType::RightParen => TokenTypeView::RightParen,
            TokenType::LeftBrace => TokenTypeView::LeftBrace,
            TokenType::RightBrace => TokenTypeView::RightBrace,
            TokenType::Comma => TokenTypeView::Comma,
            TokenType::Dot => TokenTypeView::Dot,
            TokenType::Minus => TokenTypeView::Minus,
            TokenType::Plus => TokenTypeView::Plus,
            TokenType::Semicolon => TokenTypeView::Semicolon,
            TokenType::Slash => TokenTypeView::Slash,
            TokenType::Star => TokenTypeView::Star,
            TokenType::Bang => TokenTypeView::Bang,
            TokenType::BangEqual => TokenTypeView::BangEqual,
            TokenType::Equal => TokenTypeView::Equal,
            TokenType::EqualEqual => TokenTypeView::EqualEqual,
            TokenType::Greater => TokenTypeView::Greater,
            TokenType::GreaterEqual => TokenTypeView::GreaterEqual,
            TokenType::Less => TokenTypeView::Less,
            TokenType::LessEqual => TokenTypeView::LessEqual,
            TokenType::Identifier(s) => TokenTypeView::Identifier(s@),
            TokenType::String(s) => TokenTypeView::String(s@),
            TokenType::Number(s) => TokenTypeView::Number(s@),
            TokenType::And => TokenTypeView::And,
            TokenType::Class => TokenTypeView::Class,
            TokenType::Else => TokenTypeView::Else,
            TokenType::False => TokenTypeView::False,
            TokenType::Fun => TokenTypeView::Fun,
            TokenType::For => TokenTypeView::For,
            TokenType::If => TokenTypeView::If,
            TokenType::Nil => TokenTypeView::Nil,
            TokenType::Or => TokenTypeView::Or,
            TokenType::Print => TokenTypeView::Print,
            TokenType::Return => TokenTypeView::Return,
            TokenType::Super => TokenTypeView::Super,
            TokenType::This => TokenTypeView::This,
            TokenType::True => TokenTypeView::True,
            TokenType::Var => TokenTypeView::Var,
            TokenType::While => TokenTypeView::While,
            TokenType::EOF => TokenTypeView::EOF,
        }
    }
}

/// The view of a kind is its model. The view keeps its definition to
/// this module, so that a proof elsewhere meets the many cases of the
/// model only for the kinds it asks about, with [`lemma_kind_view`].
impl View for TokenType {
    type V = TokenTypeView;

    closed spec fn view(&self) -> TokenTypeView {
        self.model()
    }
}

/// The view of a kind is its model.
pub proof fn lemma_kind_view(kind: TokenType)
    ensures
        kind@ == kind.model(),
{
}

impl TokenTypeView {
    /// The text that stands for a kind: the fixed spelling of a symbol or a
    /// keyword, and the carried text of a literal-carrying kind.
    pub open spec fn text(self) -> Seq<char> {
        match self {
            TokenTypeView::LeftParen => "("@,
            TokenTypeView::RightParen => ")"@,
            TokenTypeView::LeftBrace => "{"@,
            TokenTypeView::RightBrace => "}"@,
            TokenTypeView::Comma => ","@,
            TokenTypeView::Dot => "."@,
            TokenTypeView::Minus => "-"@,
            TokenTypeView::Plus => "+"@,
            TokenTypeView::Semicolon => ";"@,
            TokenTypeView::Slash => "/"@,
            TokenTypeView::Star => "*"@,
            TokenTypeView::Bang => "!"@,
            TokenTypeView::BangEqual => "!="@,
            TokenTypeView::Equal => "="@,
            TokenTypeView::EqualEqual => "=="@,
            TokenTypeView::Greater => ">"@,
            TokenTypeView::GreaterEqual => ">="@,
            TokenTypeView::Less => "<"@,
            TokenTypeView::LessEqual => "<="@,
            TokenTypeView::Identifier(s) => s,
            TokenTypeView::String(s) => s,
            TokenTypeView::Number(s) => s,
            TokenTypeView::And => "and"@,
            TokenTypeView::Class => "class"@,
            TokenTypeView::Else => "else"@,
            TokenTypeView::False => "false"@,
            TokenTypeView::Fun => "fun"@,
            TokenTypeView::For => "for"@,
            TokenTypeView::If => "if"@,
            TokenTypeView::Nil => "nil"@,
            TokenTypeView::Or => "or"@,
            TokenTypeView::Print => "print"@,
            TokenTypeView::Return => "return"@,
            TokenTypeView::Super => "super"@,
            TokenTypeView::This => "this"@,
            TokenTypeView::True => "true"@,
            TokenTypeView::Var => "var"@,
            TokenTypeView::While => "while"@,
            TokenTypeView::EOF => "eof"@,
        }
    }

    /// Two kinds match when they are of the same category, whatever text
    /// they carry.
    pub open spec fn same_kind(self, other: TokenTypeView) -> bool {
        match self {
            TokenTypeView::Identifier(_) => other is Identifier,
            TokenTypeView::String(_) => other is String,
            TokenTypeView::Number(_) => other is Number,
            _ => self == other,
        }
    }

    /// The text of the token as it stood in the source: a string literal
    /// gets its quotes back, every other kind is its own text.
    pub open spec fn lexeme(self) -> Seq<char> {
        match self {
            TokenTypeView::String(s) => seq!['"'] + s + seq!['"'],
            _ => self.text(),
        }
    }
}

/// The reserved word that `text` spells, if it spells one.
pub open spec fn keyword(text: Seq<char>) -> Option<TokenTypeView> {
    if text == "and"@ {
        Some(TokenTypeView::And)
    } else if text == "class"@ {
        Some(TokenTypeView::Class)
    } else if text == "else"@ {
        Some(TokenTypeView::Else)
    } else if text == "false"@ {
        Some(TokenTypeView::False)
    } else if text == "fun"@ {
        Some(TokenTypeView::Fun)
    } else if text == "for"@ {
        Some(TokenTypeView::For)
    } else if text == "if"@ {
        Some(TokenTypeView::If)
    } else if text == "nil"@ {
        Some(TokenTypeView::Nil)
    } else if text == "or"@ {
        Some(TokenTypeView::Or)
    } else if text == "print"@ {
        Some(TokenTypeView::Print)
    } else if text == "return"@ {
        Some(TokenTypeView::Return)
    } else if text == "super"@ {
        Some(TokenTypeView::Super)
    } else if text == "this"@ {
        Some(TokenTypeView::This)
    } else if text == "true"@ {
        Some(TokenTypeView::True)
    } else if text == "var"@ {
        Some(TokenTypeView::Var)
    } else if text == "while"@ {
        Some(TokenTypeView::While)
    } else {
        None
    }
}

/// The kind of the word `text`: its reserved word, or else an identifier of
/// that name.
pub open spec fn word_kind(text: Seq<char>) -> TokenTypeView {
    match keyword(text) {
        Some(kind) => kind,
        None => TokenTypeView::Identifier(text),
    }
}

impl TokenType {
    /// Returns an identifier or reserved word.
    pub fn new_identifier(s: String) -> (kind: TokenType)
        ensures
            kind@ == word_kind(s@),
    {
        if crate::text::same_text(s.as_str(), "and") {
            TokenType::And
        } else if crate::text::same_text(s.as_str(), "class") {
            TokenType::Class
        } else if crate::text::same_text(s.as_str(), "else") {
            TokenType::Else
        } else if crate::text::same_text(s.as_str(), "false") {
            TokenType::False
        } else if crate::text::same_text(s.as_str(), "fun") {
            TokenType::Fun
        } else if crate::text::same_text(s.as_str(), "for") {
            TokenType::For
        } else if crate::text::same_text(s.as_str(), "if") {
            TokenType::If
        } else if crate::text::same_text(s.as_str(), "nil") {
            TokenType::Nil
        } else if crate::text::same_text(s.as_str(), "or") {
            TokenType::Or
        } else if crate::text::same_text(s.as_str(), "print") {
            TokenType::Print
        } else if crate::text::same_text(s.as_str(), "return") {
            TokenType::Return
        } else if crate::text::same_text(s.as_str(), "super") {
            TokenType::Super
        } else if crate::text::same_text(s.as_str(), "this") {
            TokenType::This
        } else if crate::text::same_text(s.as_str(), "true") {
            TokenType::True
        } else if crate::text::same_text(s.as_str(), "var") {
            TokenType::Var
        } else if crate::text::same_text(s.as_str(), "while") {
            TokenType::While
        } else {
            TokenType::Identifier(s)
        }
    }

    /// The text that stands for this kind.
    pub fn as_str(&self) -> (text: &str)
        ensures
            text@ == self@.text(),
    {
        match self {
            TokenType::LeftParen => "(",
            TokenType::RightParen => ")",
            TokenType::LeftBrace => "{",
            TokenType::RightBrace => "}",
            TokenType::Comma => ",",
            TokenType::Dot => ".",
            TokenType::Minus => "-",
            TokenType::Plus => "+",
            TokenType::Semicolon => ";",
            TokenType::Slash => "/",
            TokenType::Star => "*",
            TokenType::Bang => "!",
            TokenType::BangEqual => "!=",
            TokenType::Equal => "=",
            TokenType::EqualEqual => "==",
            TokenType::Greater => ">",
            TokenType::GreaterEqual => ">=",
            TokenType::Less => "<",
            TokenType::LessEqual => "<=",
            TokenType::Identifier(s) => s.as_str(),
            TokenType::String(s) => s.as_str(),
            TokenType::Number(s) => s.as_str(),
            TokenType::And => "and",
            TokenType::Class => "class",
            TokenType::Else => "else",
            TokenType::False => "false",
            TokenType::Fun => "fun",
            TokenType::For => "for",
            TokenType::If => "if",
            TokenType::Nil => "nil",
            TokenType::Or => "or",
            TokenType::Print => "print",
            TokenType::Return => "return",
            TokenType::Super => "super",
            TokenType::This => "this",
            TokenType::True => "true",
            TokenType::Var => "var",
            TokenType::While => "while",
            TokenType::EOF => "eof",
        }
    }

    /// Whether `self` and `other` are of the same category.
    pub fn kind_matches(&self, other: &TokenType) -> (same: bool)
        ensures
            same == self@.same_kind(other@),
            other@ == other.model(),
    {
        match (self, other) {
            (TokenType::LeftParen, TokenType::LeftParen) => true,
            (TokenType::RightParen, TokenType::RightParen) => true,
            (TokenType::LeftBrace, TokenType::LeftBrace) => true,
            (TokenType::RightBrace, TokenType::RightBrace) => true,
            (TokenType::Comma, TokenType::Comma) => true,
            (TokenType::Dot, TokenType::Dot) => true,
            (TokenType::Minus, TokenType::Minus) => true,
            (TokenType::Plus, TokenType::Plus) => true,
            (TokenType::Semicolon, TokenType::Semicolon) => true,
            (TokenType::Slash, TokenType::Slash) => true,
            (TokenType::Star, TokenType::Star) => true,
            (TokenType::Bang, TokenType::Bang) => true,
            (TokenType::BangEqual, TokenType::BangEqual) => true,
            (TokenType::Equal, TokenType::Equal) => true,
            (TokenType::EqualEqual, TokenType::EqualEqual) => true,
            (TokenType::Greater, TokenType::Greater) => true,
            (TokenType::GreaterEqual, TokenType::GreaterEqual) => true,
            (TokenType::Less, TokenType::Less) => true,
            (TokenType::LessEqual, TokenType::LessEqual) => true,
            (TokenType::Identifier(_), TokenType::Identifier(_)) => true,
            (TokenType::String(_), TokenType::String(_)) => true,
            (TokenType::Number(_), TokenType::Number(_)) => true,
            (TokenType::And, TokenType::And) => true,
            (TokenType::Class, TokenType::Class) => true,
            (TokenType::Else, TokenType::Else) => true,
            (TokenType::False, TokenType::False) => true,
            (TokenType::Fun, TokenType::Fun) => true,
            (TokenType::For, TokenType::For) => true,
            (TokenType::If, TokenType::If) => true,
            (TokenType::Nil, TokenType::Nil) => true,
            (TokenType::Or, TokenType::Or) => true,
            (TokenType::Print, TokenType::Print) => true,
            (TokenType::Return, TokenType::Return) => true,
            (TokenType::Super, TokenType::Super) => true,
            (TokenType::This, TokenType::This) => true,
            (TokenType::True, TokenType::True) => true,
            (TokenType::Var, TokenType::Var) => true,
            (TokenType::While, TokenType::While) => true,
            (TokenType::EOF, TokenType::EOF) => true,
            _ => false,
        }
    }

    /// A copy of this kind.
    pub fn duplicate(&self) -> (kind: TokenType)
        ensures
            kind == *self,
    {
        match self {
            TokenType::LeftParen => TokenType::LeftParen,
            TokenType::RightParen => TokenType::RightParen,
            TokenType::LeftBrace => TokenType::LeftBrace,
            TokenType::RightBrace => TokenType::RightBrace,
            TokenType::Comma => TokenType::Comma,
            TokenType::Dot => TokenType::Dot,
            TokenType::Minus => TokenType::Minus,
            TokenType::Plus => TokenType::Plus,
            TokenType::Semicolon => TokenType::Semicolon,
            TokenType::Slash => TokenType::Slash,
            TokenType::Star => TokenType::Star,
            TokenType::Bang => TokenType::Bang,
            TokenType::BangEqual => TokenType::BangEqual,
            TokenType::Equal => TokenType::Equal,
            TokenType::EqualEqual => TokenType::EqualEqual,
            TokenType::Greater => TokenType::Greater,
            TokenType::GreaterEqual => TokenType::GreaterEqual,
            TokenType::Less => TokenType::Less,
            TokenType::LessEqual => TokenType::LessEqual,
            TokenType::Identifier(s) => TokenType::Identifier(s.clone()),
            TokenType::String(s) => TokenType::String(s.clone()),
            TokenType::Number(s) => TokenType::Number(s.clone()),
            TokenType::And => TokenType::And,
            TokenType::Class => TokenType::Class,
            TokenType::Else => TokenType::Else,
            TokenType::False => TokenType::False,
            TokenType::Fun => TokenType::Fun,
            TokenType::For => TokenType::For,
            TokenType::If => TokenType::If,
            TokenType::Nil => TokenType::Nil,
            TokenType::Or => TokenType::Or,
            TokenType::Print => TokenType::Print,
            TokenType::Return => TokenType::Return,
            TokenType::Super => TokenType::Super,
            TokenType::This => TokenType::This,
            TokenType::True => TokenType::True,
            TokenType::Var => TokenType::Var,
            TokenType::While => TokenType::While,
            TokenType::EOF => TokenType::EOF,
        }
    }
}

/// A token: its kind and the line of the source on which it ended.
#[derive(Debug, Clone)]
pub struct Token {
    pub kind: TokenType,
    pub line: usize,
}

/// The mathematical model of a [`Token`].
pub struct TokenView {
    pub kind: TokenTypeView,
    pub line: nat,
}

impl View for Token {
    type V = TokenView;

    open spec fn view(&self) -> TokenView {
        TokenView { kind: self.kind@, line: self.line as nat }
    }
}

impl Token {
    /// A token of the kind `kind` on the line `line`.
    pub fn new(kind: TokenType, line: usize) -> (token: Token)
        ensures
            token.kind == kind,
            token.line == line,
    {
        Token { kind, line }
    }

    /// The text of the token as it stood in the source.
    pub fn lexeme(&self) -> (text: String)
        ensures
            text@ == self@.kind.lexeme(),
    {
        match &self.kind {
            TokenType::String(s) => {
                let mut text = String::from_str("\"");
                text.append(s.as_str());
                text.append("\"");
                proof {
                    reveal_strlit("\"");
                    assert(text@ =~= seq!['"'] + s@ + seq!['"']);
                }
                text
            },
            _ => String::from_str(self.kind.as_str()),
        }
    }

    /// Whether the token is of the same category as `other`.
    pub fn kind_matches(&self, other: &TokenType) -> (same: bool)
        ensures
            same == self@.kind.same_kind(other@),
            other@ == other.model(),
    {
        self.kind.kind_matches(other)
    }

    /// Whether the token is an identifier.
    pub fn is_identifier(&self) -> (yes: bool)
        ensures
            yes == (self@.kind is Identifier),
    {
        match self.kind {
            TokenType::Identifier(_) => true,
            _ => false,
        }
    }

    /// A copy of this token.
    pub fn duplicate(&self) -> (token: Token)
        ensures
            token == *self,
    {
        Token { kind: self.kind.duplicate(), line: self.line }
    }
}

/// The models of a sequence of tokens.
pub open spec fn token_views(tokens: Seq<Token>) -> Seq<TokenView> {
    tokens.map_values(|t: Token| t@)
}

} // verus!
