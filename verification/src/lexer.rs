//! The lexer: a forward-only cursor over source bytes that yields one token
//! per call.
//!
//! The first part of the module says, over plain byte sequences, which token
//! starts at a position and where the next one begins. The second part is the
//! executable cursor, whose contract is stated over the first.

use crate::text::{ascii_text, is_ascii_bytes, string_of_bytes};
use crate::token::{nth_token, skip_tokens, word_token, Token, TokenView};
use vstd::prelude::*;
use vstd::slice::slice_subrange;
use vstd::string::StrSliceExecFns;
use vstd::utf8::encode_utf8;

verus! {

/// An ASCII letter or an underscore.
pub open spec fn is_letter(b: u8) -> bool {
    ('a' as u8 <= b && b <= 'z' as u8) || ('A' as u8 <= b && b <= 'Z' as u8) || b == '_' as u8
}

/// A decimal digit.
pub open spec fn is_digit(b: u8) -> bool {
    '0' as u8 <= b && b <= '9' as u8
}

/// Space, tab, newline or carriage return.
pub open spec fn is_whitespace(b: u8) -> bool {
    b == ' ' as u8 || b == '\t' as u8 || b == '\n' as u8 || b == '\r' as u8
}

/// The kinds of bytes that the lexer scans in runs.
#[derive(Clone, Copy)]
pub enum ByteClass {
    /// Bytes between tokens.
    Whitespace,
    /// Letters and underscores: the bytes that may start a word.
    Letter,
    /// Letters, digits and underscores: the bytes of a word.
    Word,
    /// Decimal digits: the bytes of an integer literal.
    Digit,
}

/// Whether byte `b` belongs to `class`. The zero byte belongs to none.
pub open spec fn in_class(class: ByteClass, b: u8) -> bool {
    match class {
        ByteClass::Whitespace => is_whitespace(b),
        ByteClass::Letter => is_letter(b),
        ByteClass::Word => is_letter(b) || is_digit(b),
        ByteClass::Digit => is_digit(b),
    }
}

/// The byte at index `i`, and zero outside the source.
pub open spec fn byte_at(source: Seq<u8>, i: int) -> u8 {
    if 0 <= i < source.len() {
        source[i]
    } else {
        0
    }
}

/// The end of the maximal run of bytes of `class` that starts at `start`.
pub open spec fn run_end(source: Seq<u8>, class: ByteClass, start: int) -> int
    decreases source.len() - start,
{
    if 0 <= start < source.len() && in_class(class, source[start]) {
        run_end(source, class, start + 1)
    } else {
        start
    }
}

/// `run_end` is the first index at or after `start` that is outside the
/// source or holds a byte that is not of the class.
pub proof fn lemma_run_end(source: Seq<u8>, class: ByteClass, start: int)
    requires
        0 <= start <= source.len(),
    ensures
        start <= run_end(source, class, start) <= source.len(),
        forall|i: int|
            start <= i < run_end(source, class, start) ==> in_class(class, #[trigger] source[i]),
        !in_class(class, byte_at(source, run_end(source, class, start))),
    decreases source.len() - start,
{
    if start < source.len() && in_class(class, source[start]) {
        lemma_run_end(source, class, start + 1);
    }
}

/// The token for a byte that stands alone. `=` and `!` are `Assign` and
/// `Bang` here; their two-byte forms are told apart in [`token_at`].
pub open spec fn symbol_token(b: u8) -> TokenView {
    if b == ',' as u8 {
        TokenView::Comma
    } else if b == ';' as u8 {
        TokenView::Semicolon
    } else if b == '(' as u8 {
        TokenView::Lparen
    } else if b == ')' as u8 {
        TokenView::Rparen
    } else if b == '{' as u8 {
        TokenView::Lbrace
    } else if b == '}' as u8 {
        TokenView::Rbrace
    } else if b == '=' as u8 {
        TokenView::Assign
    } else if b == '+' as u8 {
        TokenView::Plus
    } else if b == '-' as u8 {
        TokenView::Minus
    } else if b == '!' as u8 {
        TokenView::Bang
    } else if b == '*' as u8 {
        TokenView::Asterisk
    } else if b == '/' as u8 {
        TokenView::Slash
    } else if b == '<' as u8 {
        TokenView::Lt
    } else if b == '>' as u8 {
        TokenView::Gt
    } else {
        TokenView::Illegal
    }
}

/// Where the token at or after `pos` begins: past the whitespace at `pos`.
pub open spec fn token_start(source: Seq<u8>, pos: int) -> int {
    run_end(source, ByteClass::Whitespace, pos)
}

/// True when a byte and its successor spell `==` or `!=`.
pub open spec fn is_pair(b: u8, next: u8) -> bool {
    (b == '=' as u8 || b == '!' as u8) && next == '=' as u8
}

/// True when no token begins at or after `pos`: only whitespace is left.
pub open spec fn at_end(source: Seq<u8>, pos: int) -> bool {
    !(0 <= token_start(source, pos) < source.len())
}

/// The token that a lexer at `pos` yields.
///
/// `Eof` is yielded at the end of the source and nowhere else: a zero byte
/// inside the source is an unknown byte like any other, and gives `Illegal`.
pub open spec fn token_at(source: Seq<u8>, pos: int) -> TokenView {
    let start = token_start(source, pos);
    let b = byte_at(source, start);
    if at_end(source, pos) {
        TokenView::Eof
    } else if is_letter(b) {
        word_token(ascii_text(source.subrange(start, run_end(source, ByteClass::Word, start))))
    } else if is_digit(b) {
        TokenView::Int(
            ascii_text(source.subrange(start, run_end(source, ByteClass::Digit, start))),
        )
    } else if is_pair(b, byte_at(source, start + 1)) {
        if b == '=' as u8 {
            TokenView::Eq
        } else {
            TokenView::NotEq
        }
    } else {
        symbol_token(b)
    }
}

/// Where the cursor of a lexer at `pos` stands after it has yielded
/// `token_at(source, pos)`: past that token, and at the end of the source
/// once that is reached.
pub open spec fn cursor_after(source: Seq<u8>, pos: int) -> int {
    let start = token_start(source, pos);
    let b = byte_at(source, start);
    if at_end(source, pos) {
        start
    } else if is_letter(b) {
        run_end(source, ByteClass::Word, start)
    } else if is_digit(b) {
        run_end(source, ByteClass::Digit, start)
    } else if is_pair(b, byte_at(source, start + 1)) {
        start + 2
    } else {
        start + 1
    }
}

/// The cursor stays inside the source, never moves back, and moves forward
/// with every token but `Eof`, which is yielded at the end of the source only.
pub proof fn lemma_cursor_after(source: Seq<u8>, pos: int)
    requires
        0 <= pos <= source.len(),
    ensures
        pos <= cursor_after(source, pos) <= source.len(),
        token_at(source, pos) is Eof <==> at_end(source, pos),
        !at_end(source, pos) ==> pos < cursor_after(source, pos),
        at_end(source, pos) ==> cursor_after(source, pos) == source.len(),
{
    lemma_run_end(source, ByteClass::Whitespace, pos);
    let start = token_start(source, pos);
    lemma_run_end(source, ByteClass::Word, start);
    lemma_run_end(source, ByteClass::Digit, start);
}

/// The tokens from `pos` up to the end of input, `Eof` not included.
pub open spec fn tokens_from(source: Seq<u8>, pos: int) -> Seq<TokenView>
    decreases source.len() - pos,
    via tokens_from_decreases
{
    if 0 <= pos <= source.len() && !(token_at(source, pos) is Eof) {
        seq![token_at(source, pos)] + tokens_from(source, cursor_after(source, pos))
    } else {
        Seq::empty()
    }
}

#[via_fn]
proof fn tokens_from_decreases(source: Seq<u8>, pos: int) {
    if 0 <= pos <= source.len() {
        lemma_cursor_after(source, pos);
    }
}

/// `Eof` is never among the tokens still to come: it marks their end.
pub proof fn lemma_tokens_have_no_eof(source: Seq<u8>, pos: int)
    ensures
        forall|i: int|
            0 <= i < tokens_from(source, pos).len() ==> !(#[trigger] tokens_from(source, pos)[i]
                is Eof),
    decreases source.len() - pos,
{
    if 0 <= pos <= source.len() && !(token_at(source, pos) is Eof) {
        lemma_cursor_after(source, pos);
        lemma_tokens_have_no_eof(source, cursor_after(source, pos));
    }
}

/// All the tokens of a source, `Eof` not included.
pub open spec fn tokens(source: Seq<u8>) -> Seq<TokenView> {
    tokens_from(source, 0)
}

/// The first token past `pos`, or `Eof` when there is none, is what a lexer
/// at `pos` yields, and the rest are what it yields afterwards. Once `Eof` has
/// been yielded the cursor stands still, so `Eof` is yielded ever after.
pub proof fn lemma_tokens_from_step(source: Seq<u8>, pos: int)
    requires
        0 <= pos <= source.len(),
    ensures
        token_at(source, pos) == nth_token(tokens_from(source, pos), 0),
        tokens_from(source, cursor_after(source, pos)) == skip_tokens(tokens_from(source, pos), 1),
        token_at(source, pos) is Eof ==> cursor_after(source, cursor_after(source, pos))
            == cursor_after(source, pos),
{
    lemma_cursor_after(source, pos);
    let next = cursor_after(source, pos);
    if token_at(source, pos) is Eof {
        lemma_run_end(source, ByteClass::Whitespace, pos);
        assert(token_start(source, next) == next);
        assert(tokens_from(source, next) =~= skip_tokens(tokens_from(source, pos), 1));
    } else {
        assert(tokens_from(source, next) =~= skip_tokens(tokens_from(source, pos), 1));
    }
}

/// The token that call number `n`, counted from zero, yields on a lexer that
/// stands at `pos`: each call starts where the one before it left the cursor.
pub open spec fn yielded(source: Seq<u8>, pos: int, n: nat) -> TokenView
    decreases n,
{
    if n == 0 {
        token_at(source, pos)
    } else {
        yielded(source, cursor_after(source, pos), (n - 1) as nat)
    }
}

/// Call number `n` yields the token at index `n` of the stream, and `Eof`
/// past its end.
pub proof fn lemma_yielded_is_nth_token(source: Seq<u8>, pos: int, n: nat)
    ensures
        yielded(source, pos, n) == nth_token(tokens_from(source, pos), n as int),
    decreases n,
{
    if 0 <= pos <= source.len() {
        lemma_tokens_from_step(source, pos);
        lemma_cursor_after(source, pos);
    }
    if n > 0 {
        lemma_yielded_is_nth_token(source, cursor_after(source, pos), (n - 1) as nat);
    }
}

/// Once a call has yielded `Eof`, every later call yields `Eof`.
pub proof fn lemma_eof_is_final(source: Seq<u8>, pos: int, n: nat, m: nat)
    requires
        yielded(source, pos, n) is Eof,
        n <= m,
    ensures
        yielded(source, pos, m) is Eof,
{
    lemma_yielded_is_nth_token(source, pos, n);
    lemma_yielded_is_nth_token(source, pos, m);
    lemma_tokens_have_no_eof(source, pos);
}

/// What a lexer yields is decided by its source and its position alone: two
/// lexers that agree on both yield the same token at every call, and the same
/// stream in all.
pub proof fn lemma_same_source_same_tokens(a: Lexer, b: Lexer, n: nat)
    requires
        a.source() == b.source(),
        a.position() == b.position(),
    ensures
        yielded(a.source(), a.position(), n) == yielded(b.source(), b.position(), n),
        a.remaining() == b.remaining(),
{
}

/// The position, the position of the next unread byte, and the current byte.
struct Cursor {
    position: usize,
    read_position: usize,
    ch: u8,
}

/// A forward-only cursor over the bytes of a source text.
///
/// The buffer holds the source followed by one zero byte, which is the
/// current byte once the source is exhausted.
pub struct Lexer {
    input: Vec<u8>,
    cursor: Cursor,
}

impl Lexer {
    #[verifier::type_invariant]
    spec fn well_formed(&self) -> bool {
        &&& self.cursor.position < self.input.len()
        &&& self.cursor.read_position == self.cursor.position + 1
        &&& self.cursor.ch == self.input@[self.cursor.position as int]
        &&& self.input@[self.input.len() - 1] == 0
    }

    /// The source bytes.
    pub closed spec fn source(&self) -> Seq<u8> {
        self.input@.drop_last()
    }

    /// The index of the current byte.
    pub closed spec fn position(&self) -> int {
        self.cursor.position as int
    }

    /// The index of the next unread byte: always one past the current byte.
    pub closed spec fn read_position(&self) -> int {
        self.cursor.read_position as int
    }

    /// The current byte, and zero once the source is exhausted.
    pub open spec fn current(&self) -> u8 {
        byte_at(self.source(), self.position())
    }

    /// The tokens still to come, `Eof` not included.
    pub open spec fn remaining(&self) -> Seq<TokenView> {
        tokens_from(self.source(), self.position())
    }

    /// A lexer at the start of `input`.
    pub fn new(input: String) -> (lexer: Lexer)
        ensures
            lexer.source() == encode_utf8(input@),
            lexer.position() == 0,
            lexer.read_position() == 1,
            lexer.remaining() == tokens(encode_utf8(input@)),
    {
        let mut bytes = input.as_str().as_bytes_vec();
        bytes.push(0);
        let first = bytes[0];
        assert(bytes@.drop_last() == encode_utf8(input@));
        Lexer { input: bytes, cursor: Cursor { position: 0, read_position: 1, ch: first } }
    }

    /// Whether the source is exhausted.
    fn is_exhausted(&self) -> (yes: bool)
        ensures
            yes == (self.position() >= self.source().len()),
            0 <= self.position() <= self.source().len(),
    {
        proof {
            use_type_invariant(self);
        }
        self.cursor.read_position >= self.input.len()
    }

    /// Moves to the next byte, unless the source is exhausted.
    fn read_char(&mut self)
        ensures
            final(self).source() == old(self).source(),
            final(self).position() == if old(self).position() < old(self).source().len() {
                old(self).position() + 1
            } else {
                old(self).position()
            },
            0 <= final(self).position() <= final(self).source().len(),
    {
        proof {
            use_type_invariant(&*self);
        }
        if !self.is_exhausted() {
            let position = self.cursor.read_position;
            self.cursor = Cursor {
                position,
                read_position: position + 1,
                ch: self.input[position],
            };
        }
    }

    /// Whether the current byte may start a word.
    fn is_letter(&self) -> (yes: bool)
        ensures
            yes == is_letter(self.current()),
    {
        proof {
            use_type_invariant(self);
        }
        holds(ByteClass::Letter, self.cursor.ch)
    }

    /// Whether the current byte is a decimal digit.
    fn is_int(&self) -> (yes: bool)
        ensures
            yes == is_digit(self.current()),
    {
        proof {
            use_type_invariant(self);
        }
        holds(ByteClass::Digit, self.cursor.ch)
    }

    /// The byte after the current one, and zero when there is none.
    fn peek_char(&self) -> (next: u8)
        ensures
            next == byte_at(self.source(), self.position() + 1),
    {
        proof {
            use_type_invariant(self);
        }
        if self.cursor.read_position >= self.input.len() {
            0
        } else {
            self.input[self.cursor.read_position]
        }
    }

    /// Moves past the maximal run of bytes of `class` at the cursor.
    fn skip_run(&mut self, class: ByteClass)
        ensures
            final(self).source() == old(self).source(),
            final(self).position() == run_end(old(self).source(), class, old(self).position()),
            old(self).position() <= final(self).position() <= final(self).source().len(),
    {
        proof {
            use_type_invariant(&*self);
        }
        while holds(class, self.cursor.ch)
            invariant
                self.source() == old(self).source(),
                old(self).position() <= self.position() <= self.source().len(),
                self.cursor.ch == self.current(),
                run_end(self.source(), class, self.position()) == run_end(
                    old(self).source(),
                    class,
                    old(self).position(),
                ),
            decreases self.source().len() - self.position(),
        {
            self.read_char();
            proof {
                use_type_invariant(&*self);
            }
        }
    }

    /// Moves past the whitespace at the cursor.
    fn skip_whitespace(&mut self)
        ensures
            final(self).source() == old(self).source(),
            final(self).position() == token_start(old(self).source(), old(self).position()),
            old(self).position() <= final(self).position() <= final(self).source().len(),
    {
        self.skip_run(ByteClass::Whitespace)
    }

    /// The text of the source from `start` up to the cursor.
    fn text_since(&self, start: usize) -> (text: String)
        requires
            start <= self.position(),
            is_ascii_bytes(self.source().subrange(start as int, self.position())),
        ensures
            text@ == ascii_text(self.source().subrange(start as int, self.position())),
    {
        proof {
            use_type_invariant(self);
        }
        let bytes = slice_subrange(self.input.as_slice(), start, self.cursor.position);
        assert(bytes@ == self.source().subrange(start as int, self.position()));
        string_of_bytes(bytes)
    }

    /// Reads the word at the cursor and moves past it.
    fn read_identifier(&mut self) -> (text: String)
        ensures
            final(self).source() == old(self).source(),
            final(self).position() == run_end(
                old(self).source(),
                ByteClass::Word,
                old(self).position(),
            ),
            text@ == ascii_text(
                old(self).source().subrange(old(self).position(), final(self).position()),
            ),
    {
        proof {
            use_type_invariant(&*self);
            lemma_run_end(self.source(), ByteClass::Word, self.position());
        }
        let start = self.cursor.position;
        self.skip_run(ByteClass::Word);
        self.text_since(start)
    }

    /// Reads the integer literal at the cursor and moves past it.
    fn read_number(&mut self) -> (text: String)
        ensures
            final(self).source() == old(self).source(),
            final(self).position() == run_end(
                old(self).source(),
                ByteClass::Digit,
                old(self).position(),
            ),
            text@ == ascii_text(
                old(self).source().subrange(old(self).position(), final(self).position()),
            ),
    {
        proof {
            use_type_invariant(&*self);
            lemma_run_end(self.source(), ByteClass::Digit, self.position());
        }
        let start = self.cursor.position;
        self.skip_run(ByteClass::Digit);
        self.text_since(start)
    }

    /// The token for the current byte where it stands alone.
    fn symbol(&self) -> (token: Token)
        ensures
            token@ == symbol_token(self.current()),
    {
        proof {
            use_type_invariant(self);
        }
        let b = self.cursor.ch;
        if b == ',' as u8 {
            Token::Comma
        } else if b == ';' as u8 {
            Token::Semicolon
        } else if b == '(' as u8 {
            Token::Lparen
        } else if b == ')' as u8 {
            Token::Rparen
        } else if b == '{' as u8 {
            Token::Lbrace
        } else if b == '}' as u8 {
            Token::Rbrace
        } else if b == '=' as u8 {
            Token::Assign
        } else if b == '+' as u8 {
            Token::Plus
        } else if b == '-' as u8 {
            Token::Minus
        } else if b == '!' as u8 {
            Token::Bang
        } else if b == '*' as u8 {
            Token::Asterisk
        } else if b == '/' as u8 {
            Token::Slash
        } else if b == '<' as u8 {
            Token::Lt
        } else if b == '>' as u8 {
            Token::Gt
        } else {
            Token::Illegal
        }
    }

    /// Yields the next token and moves the cursor past it.
    ///
    /// At the end of the source the token is `Eof` and the cursor stays, so
    /// every later call yields `Eof` again.
    pub fn next_token(&mut self) -> (token: Token)
        ensures
            final(self).source() == old(self).source(),
            token@ == token_at(old(self).source(), old(self).position()),
            final(self).position() == cursor_after(old(self).source(), old(self).position()),
            token@ == nth_token(old(self).remaining(), 0),
            final(self).remaining() == skip_tokens(old(self).remaining(), 1),
            0 <= final(self).position() <= final(self).source().len(),
            final(self).read_position() == final(self).position() + 1,
    {
        proof {
            use_type_invariant(&*self);
            lemma_cursor_after(self.source(), self.position());
            lemma_tokens_from_step(self.source(), self.position());
        }
        self.skip_whitespace();
        proof {
            use_type_invariant(&*self);
        }
        let b = self.cursor.ch;
        let token = if self.is_exhausted() {
            Token::Eof
        } else if self.is_letter() {
            Token::from_word(self.read_identifier())
        } else if self.is_int() {
            Token::Int(self.read_number())
        } else if (b == '=' as u8 || b == '!' as u8) && self.peek_char() == '=' as u8 {
            self.read_char();
            self.read_char();
            if b == '=' as u8 {
                Token::Eq
            } else {
                Token::NotEq
            }
        } else {
            let symbol = self.symbol();
            self.read_char();
            symbol
        };
        proof {
            use_type_invariant(&*self);
        }
        token
    }
}

/// Whether byte `b` belongs to `class`.
fn holds(class: ByteClass, b: u8) -> (yes: bool)
    ensures
        yes == in_class(class, b),
{
    match class {
        ByteClass::Whitespace => b == ' ' as u8 || b == '\t' as u8 || b == '\n' as u8 || b
            == '\r' as u8,
        ByteClass::Letter => ('a' as u8 <= b && b <= 'z' as u8) || ('A' as u8 <= b && b
            <= 'Z' as u8) || b == '_' as u8,
        ByteClass::Word => ('a' as u8 <= b && b <= 'z' as u8) || ('A' as u8 <= b && b
            <= 'Z' as u8) || b == '_' as u8 || ('0' as u8 <= b && b <= '9' as u8),
        ByteClass::Digit => '0' as u8 <= b && b <= '9' as u8,
    }
}

} // verus!
