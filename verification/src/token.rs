//! The lexical vocabulary of the language.

use crate::text::{debug_quote, debug_quoted, str_eq};
use vstd::prelude::*;
use vstd::string::StringExecFns;

verus! {

/// A lexical unit. Only `Ident` and `Int` carry text.
#[derive(Debug, Clone)]
pub enum Token {
    Function,
    Let,
    True,
    False,
    If,
    Else,
    Return,
    Ident(String),
    Int(String),
    Comma,
    Semicolon,
    Lparen,
    Rparen,
    Lbrace,
    Rbrace,
    Assign,
    Plus,
    Minus,
    Bang,
    Asterisk,
    Slash,
    Lt,
    Gt,
    Eq,
    NotEq,
    Illegal,
    Eof,
}

/// The mathematical value of a [`Token`]: the same tags, with the text of
/// `Ident` and `Int` as a sequence of characters.
pub enum TokenView {
    Function,
    Let,
    True,
    False,
    If,
    Else,
    Return,
    Ident(Seq<char>),
    Int(Seq<char>),
    Comma,
    Semicolon,
    Lparen,
    Rparen,
    Lbrace,
    Rbrace,
    Assign,
    Plus,
    Minus,
    Bang,
    Asterisk,
    Slash,
    Lt,
    Gt,
    Eq,
    NotEq,
    Illegal,
    Eof,
}

impl View for Token {
    type V = TokenView;

    open spec fn view(&self) -> TokenView {
        match self {
            Token::Function => TokenView::Function,
            Token::Let => TokenView::Let,
            Token::True => TokenView::True,
            Token::False => TokenView::False,
            Token::If => TokenView::If,
            Token::Else => TokenView::Else,
            Token::Return => TokenView::Return,
            Token::Ident(text) => TokenView::Ident(text@),
            Token::Int(text) => TokenView::Int(text@),
            Token::Comma => TokenView::Comma,
            Token::Semicolon => TokenView::Semicolon,
            Token::Lparen => TokenView::Lparen,
            Token::Rparen => TokenView::Rparen,
            Token::Lbrace => TokenView::Lbrace,
            Token::Rbrace => TokenView::Rbrace,
            Token::Assign => TokenView::Assign,
            Token::Plus => TokenView::Plus,
            Token::Minus => TokenView::Minus,
            Token::Bang => TokenView::Bang,
            Token::Asterisk => TokenView::Asterisk,
            Token::Slash => TokenView::Slash,
            Token::Lt => TokenView::Lt,
            Token::Gt => TokenView::Gt,
            Token::Eq => TokenView::Eq,
            Token::NotEq => TokenView::NotEq,
            Token::Illegal => TokenView::Illegal,
            Token::Eof => TokenView::Eof,
        }
    }
}

/// A tag followed by its quoted text in parentheses.
pub open spec fn tagged_text(tag: Seq<char>, quoted: Seq<char>) -> Seq<char> {
    tag + "("@ + quoted + ")"@
}

/// A tag followed by its quoted text in parentheses.
pub fn tagged(tag: &str, quoted: &str) -> (text: String)
    ensures
        text@ == tagged_text(tag@, quoted@),
{
    String::from_str(tag).concat("(").concat(quoted).concat(")")
}

impl TokenView {
    /// The token as diagnostics show it: the name of its tag, followed for
    /// `Ident` and `Int` by the quoted text in parentheses.
    pub open spec fn debug_text(self) -> Seq<char> {
        match self {
            TokenView::Function => "Function"@,
            TokenView::Let => "Let"@,
            TokenView::True => "True"@,
            TokenView::False => "False"@,
            TokenView::If => "If"@,
            TokenView::Else => "Else"@,
            TokenView::Return => "Return"@,
            TokenView::Ident(text) => tagged_text("Ident"@, debug_quoted(text)),
            TokenView::Int(text) => tagged_text("Int"@, debug_quoted(text)),
            TokenView::Comma => "Comma"@,
            TokenView::Semicolon => "Semicolon"@,
            TokenView::Lparen => "Lparen"@,
            TokenView::Rparen => "Rparen"@,
            TokenView::Lbrace => "Lbrace"@,
            TokenView::Rbrace => "Rbrace"@,
            TokenView::Assign => "Assign"@,
            TokenView::Plus => "Plus"@,
            TokenView::Minus => "Minus"@,
            TokenView::Bang => "Bang"@,
            TokenView::Asterisk => "Asterisk"@,
            TokenView::Slash => "Slash"@,
            TokenView::Lt => "Lt"@,
            TokenView::Gt => "Gt"@,
            TokenView::Eq => "Eq"@,
            TokenView::NotEq => "NotEq"@,
            TokenView::Illegal => "Illegal"@,
            TokenView::Eof => "Eof"@,
        }
    }
}

/// The token at index `i` of a stream, and `Eof` past its end.
pub open spec fn nth_token(stream: Seq<TokenView>, i: int) -> TokenView {
    if 0 <= i < stream.len() {
        stream[i]
    } else {
        TokenView::Eof
    }
}

/// The stream after its first `n` tokens; it is empty when it holds no more
/// than `n`.
pub open spec fn skip_tokens(stream: Seq<TokenView>, n: nat) -> Seq<TokenView> {
    if n < stream.len() {
        stream.skip(n as int)
    } else {
        Seq::empty()
    }
}

/// Skipping `a` tokens and then `b` skips `a + b`.
pub proof fn lemma_skip_tokens_twice(stream: Seq<TokenView>, a: nat, b: nat)
    ensures
        skip_tokens(skip_tokens(stream, a), b) == skip_tokens(stream, a + b),
{
    assert(skip_tokens(skip_tokens(stream, a), b) =~= skip_tokens(stream, a + b));
}

/// The keyword that `text` spells, if it spells one.
pub open spec fn keyword(text: Seq<char>) -> Option<TokenView> {
    if text == "fn"@ {
        Some(TokenView::Function)
    } else if text == "let"@ {
        Some(TokenView::Let)
    } else if text == "true"@ {
        Some(TokenView::True)
    } else if text == "false"@ {
        Some(TokenView::False)
    } else if text == "if"@ {
        Some(TokenView::If)
    } else if text == "else"@ {
        Some(TokenView::Else)
    } else if text == "return"@ {
        Some(TokenView::Return)
    } else {
        None
    }
}

/// The token for a word: its keyword, or an identifier with that name.
pub open spec fn word_token(text: Seq<char>) -> TokenView {
    match keyword(text) {
        Some(token) => token,
        None => TokenView::Ident(text),
    }
}

impl Token {
    /// The token as diagnostics show it.
    pub fn debug_text(&self) -> (text: String)
        ensures
            text@ == self@.debug_text(),
    {
        match self {
            Token::Function => String::from_str("Function"),
            Token::Let => String::from_str("Let"),
            Token::True => String::from_str("True"),
            Token::False => String::from_str("False"),
            Token::If => String::from_str("If"),
            Token::Else => String::from_str("Else"),
            Token::Return => String::from_str("Return"),
            Token::Ident(text) => tagged("Ident", debug_quote(text.as_str()).as_str()),
            Token::Int(text) => tagged("Int", debug_quote(text.as_str()).as_str()),
            Token::Comma => String::from_str("Comma"),
            Token::Semicolon => String::from_str("Semicolon"),
            Token::Lparen => String::from_str("Lparen"),
            Token::Rparen => String::from_str("Rparen"),
            Token::Lbrace => String::from_str("Lbrace"),
            Token::Rbrace => String::from_str("Rbrace"),
            Token::Assign => String::from_str("Assign"),
            Token::Plus => String::from_str("Plus"),
            Token::Minus => String::from_str("Minus"),
            Token::Bang => String::from_str("Bang"),
            Token::Asterisk => String::from_str("Asterisk"),
            Token::Slash => String::from_str("Slash"),
            Token::Lt => String::from_str("Lt"),
            Token::Gt => String::from_str("Gt"),
            Token::Eq => String::from_str("Eq"),
            Token::NotEq => String::from_str("NotEq"),
            Token::Illegal => String::from_str("Illegal"),
            Token::Eof => String::from_str("Eof"),
        }
    }

    /// The token for a word: its keyword, or an identifier with that name.
    pub fn from_word(text: String) -> (token: Token)
        ensures
            token@ == word_token(text@),
    {
        let word = text.as_str();
        if str_eq(word, "fn") {
            Token::Function
        } else if str_eq(word, "let") {
            Token::Let
        } else if str_eq(word, "true") {
            Token::True
        } else if str_eq(word, "false") {
            Token::False
        } else if str_eq(word, "if") {
            Token::If
        } else if str_eq(word, "else") {
            Token::Else
        } else if str_eq(word, "return") {
            Token::Return
        } else {
            Token::Ident(text)
        }
    }
}

impl PartialEq for Token {
    /// Two tokens are equal when they have the same tag and the same text.
    fn eq(&self, other: &Token) -> (r: bool) {
        match (self, other) {
            (Token::Function, Token::Function) => true,
            (Token::Let, Token::Let) => true,
            (Token::True, Token::True) => true,
            (Token::False, Token::False) => true,
            (Token::If, Token::If) => true,
            (Token::Else, Token::Else) => true,
            (Token::Return, Token::Return) => true,
            (Token::Ident(a), Token::Ident(b)) => *a == *b,
            (Token::Int(a), Token::Int(b)) => *a == *b,
            (Token::Comma, Token::Comma) => true,
            (Token::Semicolon, Token::Semicolon) => true,
            (Token::Lparen, Token::Lparen) => true,
            (Token::Rparen, Token::Rparen) => true,
            (Token::Lbrace, Token::Lbrace) => true,
            (Token::Rbrace, Token::Rbrace) => true,
            (Token::Assign, Token::Assign) => true,
            (Token::Plus, Token::Plus) => true,
            (Token::Minus, Token::Minus) => true,
            (Token::Bang, Token::Bang) => true,
            (Token::Asterisk, Token::Asterisk) => true,
            (Token::Slash, Token::Slash) => true,
            (Token::Lt, Token::Lt) => true,
            (Token::Gt, Token::Gt) => true,
            (Token::Eq, Token::Eq) => true,
            (Token::NotEq, Token::NotEq) => true,
            (Token::Illegal, Token::Illegal) => true,
            (Token::Eof, Token::Eof) => true,
            _ => false,
        }
    }
}

impl vstd::std_specs::cmp::PartialEqSpecImpl for Token {
    open spec fn obeys_eq_spec() -> bool {
        true
    }

    open spec fn eq_spec(&self, other: &Token) -> bool {
        self@ == other@
    }
}

} // verus!
