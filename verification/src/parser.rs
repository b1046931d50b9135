//! The parser: from a stream of tokens to a program and a list of
//! diagnostics.
//!
//! The first part of the module says, over plain token sequences, what each
//! statement form parses to. The second part is the executable parser, which
//! pulls its tokens from a lexer through a window of two; its contract is
//! stated over the first.

use crate::ast::{
    Expression, ExpressionView, Identifier, Procedence, Program, Statement, StatementView,
};
use crate::lexer::{lemma_tokens_have_no_eof, Lexer};
use crate::token::{lemma_skip_tokens_twice, nth_token, skip_tokens, Token, TokenView};
use vstd::prelude::*;
use vstd::string::StringExecFns;

verus! {

/// What parsing one statement at the head of a token stream comes to.
pub struct Parsed {
    /// The statement, where one was recognised.
    pub statement: Option<StatementView>,
    /// The diagnostics recorded on the way: none or one.
    pub errors: Seq<Seq<char>>,
    /// How many tokens the parser has moved forward.
    pub consumed: nat,
}

/// The number of tokens before the first `Semicolon`, and the length of the
/// stream where it holds none.
pub open spec fn tokens_before_semicolon(stream: Seq<TokenView>) -> nat
    decreases stream.len(),
{
    if stream.len() == 0 || stream[0] is Semicolon {
        0
    } else {
        1 + tokens_before_semicolon(stream.drop_first())
    }
}

/// `tokens_before_semicolon` is the index of the first `Semicolon`, or the
/// length of a stream without one.
pub proof fn lemma_tokens_before_semicolon(stream: Seq<TokenView>)
    ensures
        tokens_before_semicolon(stream) <= stream.len(),
        forall|i: int|
            0 <= i < tokens_before_semicolon(stream) ==> !(#[trigger] stream[i] is Semicolon),
        ({
            let end = tokens_before_semicolon(stream) as int;
            end < stream.len() ==> stream[end] is Semicolon
        }),
    decreases stream.len(),
{
    if stream.len() > 0 && !(stream[0] is Semicolon) {
        let tail = stream.drop_first();
        lemma_tokens_before_semicolon(tail);
        assert forall|i: int| 0 < i < tokens_before_semicolon(stream) implies !(#[trigger] stream[i]
            is Semicolon) by {
            assert(stream[i] == tail[i - 1]);
        }
    }
}

/// The text that stands for the value of a `let`, which is not parsed yet.
pub open spec fn unparsed_value() -> Seq<char> {
    "IDK YET"@
}

/// The diagnostic for a `let` that is followed by `found` and not by an
/// identifier.
pub open spec fn let_error_text(found: Seq<char>) -> Seq<char> {
    "Expected identifier after 'let', got "@ + found + " instead"@
}

/// The diagnostic for a `return` that is followed by `found` and not by a
/// value.
pub open spec fn return_error_text(found: Seq<char>) -> Seq<char> {
    "Expected identifier after 'return', got "@ + found + " instead"@
}

/// The diagnostic for a token `found` where `expected` should stand.
pub open spec fn peek_error_text(expected: Seq<char>, found: Seq<char>) -> Seq<char> {
    "Expected next token to be "@ + expected + ", got "@ + found + " instead"@
}

/// The diagnostic for a `let` that is not followed by an identifier.
pub open spec fn let_error(found: TokenView) -> Seq<char> {
    let_error_text(found.debug_text())
}

/// The diagnostic for a `return` that is not followed by a value.
pub open spec fn return_error(found: TokenView) -> Seq<char> {
    return_error_text(found.debug_text())
}

/// The diagnostic for a token that is not the expected one.
pub open spec fn peek_error(expected: TokenView, found: TokenView) -> Seq<char> {
    peek_error_text(expected.debug_text(), found.debug_text())
}

/// The diagnostic for a `let` that is followed by `found` and not by an
/// identifier.
pub fn let_error_message(found: &str) -> (message: String)
    ensures
        message@ == let_error_text(found@),
{
    String::from_str("Expected identifier after 'let', got ").concat(found).concat(" instead")
}

/// The diagnostic for a `return` that is followed by `found` and not by a
/// value.
pub fn return_error_message(found: &str) -> (message: String)
    ensures
        message@ == return_error_text(found@),
{
    String::from_str("Expected identifier after 'return', got ").concat(found).concat(" instead")
}

/// The diagnostic for a token `found` where `expected` should stand.
pub fn peek_error_message(expected: &str, found: &str) -> (message: String)
    ensures
        message@ == peek_error_text(expected@, found@),
{
    String::from_str("Expected next token to be ").concat(expected).concat(", got ").concat(
        found,
    ).concat(" instead")
}

/// The expression that a single token stands for: the text of an identifier
/// or of an integer literal. Other tokens stand for none.
pub open spec fn token_expression(token: TokenView) -> Option<ExpressionView> {
    match token {
        TokenView::Ident(text) => Some(ExpressionView::Identifier(text)),
        TokenView::Int(text) => Some(ExpressionView::Identifier(text)),
        _ => None,
    }
}

/// A `let` statement at the head of `stream`.
///
/// The name must follow at once, and `Assign` after it. The value is not
/// parsed: the tokens up to the next `Semicolon` are passed over.
pub open spec fn let_statement(stream: Seq<TokenView>) -> Parsed {
    match nth_token(stream, 1) {
        TokenView::Ident(name) => if nth_token(stream, 2) is Assign {
            Parsed {
                statement: Some(
                    StatementView::Let {
                        name,
                        value: ExpressionView::Identifier(unparsed_value()),
                    },
                ),
                errors: Seq::empty(),
                consumed: 2 + tokens_before_semicolon(skip_tokens(stream, 2)),
            }
        } else {
            Parsed {
                statement: None,
                errors: seq![peek_error(TokenView::Assign, nth_token(stream, 2))],
                consumed: 1,
            }
        },
        found => Parsed { statement: None, errors: seq![let_error(found)], consumed: 0 },
    }
}

/// A `return` statement at the head of `stream`.
///
/// The value is the text of the identifier or integer literal that follows;
/// the tokens after it up to the next `Semicolon` are passed over. A `return`
/// directly before a `Semicolon` gives no statement and no diagnostic.
pub open spec fn return_statement(stream: Seq<TokenView>) -> Parsed {
    match nth_token(stream, 1) {
        TokenView::Semicolon => Parsed { statement: None, errors: Seq::empty(), consumed: 0 },
        found => match token_expression(found) {
            Some(value) => Parsed {
                statement: Some(StatementView::Return { value }),
                errors: Seq::empty(),
                consumed: 1 + tokens_before_semicolon(skip_tokens(stream, 1)),
            },
            None => Parsed { statement: None, errors: seq![return_error(found)], consumed: 0 },
        },
    }
}

/// An expression statement at the head of `stream`: the expression that the
/// first token stands for, if any. A `Semicolon` directly after it is passed
/// over.
pub open spec fn expression_statement(stream: Seq<TokenView>) -> Parsed {
    Parsed {
        statement: match token_expression(nth_token(stream, 0)) {
            Some(value) => Some(StatementView::ExpressionStatement { value }),
            None => None,
        },
        errors: Seq::empty(),
        consumed: if nth_token(stream, 1) is Semicolon {
            1
        } else {
            0
        },
    }
}

/// The statement at the head of `stream`, chosen by its first token.
pub open spec fn statement(stream: Seq<TokenView>) -> Parsed {
    match nth_token(stream, 0) {
        TokenView::Let => let_statement(stream),
        TokenView::Return => return_statement(stream),
        _ => expression_statement(stream),
    }
}

/// The stream that is left once the statement at its head has been parsed
/// and the token on which the parser then stands has been left behind.
pub open spec fn after_statement(stream: Seq<TokenView>) -> Seq<TokenView> {
    skip_tokens(stream, statement(stream).consumed + 1)
}

/// The statements of a token stream, in source order.
pub open spec fn program_of(stream: Seq<TokenView>) -> Seq<StatementView>
    decreases stream.len(),
{
    if stream.len() == 0 {
        Seq::empty()
    } else {
        let rest = program_of(after_statement(stream));
        match statement(stream).statement {
            Some(first) => seq![first] + rest,
            None => rest,
        }
    }
}

/// The diagnostics of a token stream, in source order.
pub open spec fn errors_of(stream: Seq<TokenView>) -> Seq<Seq<char>>
    decreases stream.len(),
{
    if stream.len() == 0 {
        Seq::empty()
    } else {
        statement(stream).errors + errors_of(after_statement(stream))
    }
}

/// A statement records at most one diagnostic, and then it yields nothing.
pub proof fn lemma_one_error_per_statement(stream: Seq<TokenView>)
    ensures
        statement(stream).errors.len() <= 1,
        statement(stream).errors.len() == 1 ==> statement(stream).statement is None,
{
}

/// Every statement leaves the stream shorter, also one that fails: parsing
/// comes to the end of any input.
pub proof fn lemma_statement_makes_progress(stream: Seq<TokenView>)
    requires
        stream.len() > 0,
    ensures
        after_statement(stream).len() < stream.len(),
{
}

/// The mathematical value of a statement that may be absent.
pub open spec fn statement_view(statement: Option<Statement>) -> Option<StatementView> {
    match statement {
        Some(statement) => Some(statement@),
        None => None,
    }
}

/// The mathematical value of an expression that may be absent.
pub open spec fn expression_view(expression: Option<Expression>) -> Option<ExpressionView> {
    match expression {
        Some(expression) => Some(expression@),
        None => None,
    }
}

/// A parser over the tokens of one lexer.
///
/// It owns the lexer and looks at its tokens through a window of two: the
/// current token and the one after it.
pub struct Parser {
    lexer: Lexer,
    current_token: Token,
    peek_token: Token,
    errors: Vec<String>,
}

impl Parser {
    /// The window agrees with the lexer: past the end of input both of its
    /// tokens are `Eof`. This holds of every parser that `new` makes, and
    /// every method keeps it.
    pub closed spec fn well_formed(&self) -> bool {
        &&& self.current_token@ is Eof ==> self.peek_token@ is Eof
        &&& self.peek_token@ is Eof ==> self.lexer.remaining().len() == 0
    }

    /// The tokens that the parser has not left behind yet, from the current
    /// one on, `Eof` not included.
    pub closed spec fn tokens(&self) -> Seq<TokenView> {
        if self.current_token@ is Eof {
            Seq::empty()
        } else if self.peek_token@ is Eof {
            seq![self.current_token@]
        } else {
            seq![self.current_token@, self.peek_token@] + self.lexer.remaining()
        }
    }

    /// The diagnostics recorded so far, oldest first.
    pub closed spec fn diagnostics(&self) -> Seq<Seq<char>> {
        self.errors@.map_values(|message: String| message@)
    }

    /// The stream of a parser holds no `Eof`: the current token is `Eof`
    /// exactly when the stream is empty.
    pub proof fn lemma_tokens_have_no_eof(&self)
        requires
            self.well_formed(),
        ensures
            forall|i: int| 0 <= i < self.tokens().len() ==> !(#[trigger] self.tokens()[i] is Eof),
    {
        lemma_tokens_have_no_eof(self.lexer.source(), self.lexer.position());
    }

    /// The window shows the first two tokens of the stream.
    proof fn lemma_window(&self)
        requires
            self.well_formed(),
        ensures
            forall|i: int| 0 <= i < self.tokens().len() ==> !(#[trigger] self.tokens()[i] is Eof),
            self.current_token@ == nth_token(self.tokens(), 0),
            self.peek_token@ == nth_token(self.tokens(), 1),
    {
        self.lemma_tokens_have_no_eof();
    }

    /// A parser at the start of the tokens of `lexer`.
    pub fn new(lexer: Lexer) -> (parser: Parser)
        ensures
            parser.well_formed(),
            parser.tokens() == lexer.remaining(),
            parser.diagnostics() == Seq::<Seq<char>>::empty(),
    {
        let mut lexer = lexer;
        let ghost stream = lexer.remaining();
        proof {
            lemma_tokens_have_no_eof(lexer.source(), lexer.position());
        }
        let first_token = lexer.next_token();
        let second_token = lexer.next_token();
        let parser = Parser {
            lexer,
            current_token: first_token,
            peek_token: second_token,
            errors: Vec::new(),
        };
        assert(parser.tokens() =~= stream);
        assert(parser.diagnostics() =~= Seq::<Seq<char>>::empty());
        parser
    }

    /// The token on which the parser stands: `Eof` at the end of input.
    pub fn current_token(&self) -> (token: &Token)
        requires
            self.well_formed(),
        ensures
            token@ == nth_token(self.tokens(), 0),
    {
        proof {
            self.lemma_window();
        }
        &self.current_token
    }

    /// The token after the current one: `Eof` where there is none.
    pub fn peek_token(&self) -> (token: &Token)
        requires
            self.well_formed(),
        ensures
            token@ == nth_token(self.tokens(), 1),
    {
        proof {
            self.lemma_window();
        }
        &self.peek_token
    }

    /// The diagnostics recorded so far, oldest first.
    pub fn errors(&self) -> (errors: &Vec<String>)
        ensures
            errors@.map_values(|message: String| message@) == self.diagnostics(),
    {
        &self.errors
    }

    /// Moves the window one token forward.
    pub fn next_token(&mut self)
        requires
            old(self).well_formed(),
        ensures
            final(self).well_formed(),
            final(self).tokens() == skip_tokens(old(self).tokens(), 1),
            final(self).diagnostics() == old(self).diagnostics(),
    {
        proof {
            lemma_tokens_have_no_eof(self.lexer.source(), self.lexer.position());
        }
        let mut token = self.lexer.next_token();
        core::mem::swap(&mut self.peek_token, &mut token);
        self.current_token = token;
        assert(self.tokens() =~= skip_tokens(old(self).tokens(), 1));
    }

    /// Adds a diagnostic to the list.
    fn record(&mut self, message: String)
        requires
            old(self).well_formed(),
        ensures
            final(self).well_formed(),
            final(self).tokens() == old(self).tokens(),
            final(self).diagnostics() == old(self).diagnostics().push(message@),
    {
        self.errors.push(message);
        assert(self.diagnostics() =~= old(self).diagnostics().push(message@));
    }

    /// Records that the next token is not `expected`.
    fn peek_error(&mut self, expected: &Token)
        requires
            old(self).well_formed(),
        ensures
            final(self).well_formed(),
            final(self).tokens() == old(self).tokens(),
            final(self).diagnostics() == old(self).diagnostics().push(
                peek_error(expected@, nth_token(old(self).tokens(), 1)),
            ),
    {
        proof {
            self.lemma_window();
        }
        let message = peek_error_message(
            expected.debug_text().as_str(),
            self.peek_token.debug_text().as_str(),
        );
        self.record(message);
    }

    /// Moves forward if the next token is `expected`; records a diagnostic
    /// and stays if it is not.
    pub fn expect_peek(&mut self, expected: Token) -> (found: bool)
        requires
            old(self).well_formed(),
        ensures
            final(self).well_formed(),
            found == (nth_token(old(self).tokens(), 1) == expected@),
            found ==> final(self).tokens() == skip_tokens(old(self).tokens(), 1)
                && final(self).diagnostics() == old(self).diagnostics(),
            !found ==> final(self).tokens() == old(self).tokens() && final(self).diagnostics()
                == old(self).diagnostics().push(
                peek_error(expected@, nth_token(old(self).tokens(), 1)),
            ),
    {
        proof {
            self.lemma_window();
        }
        if self.peek_token == expected {
            self.next_token();
            true
        } else {
            self.peek_error(&expected);
            false
        }
    }

    /// Moves forward to the next `Semicolon`, or to the end of input where
    /// none is left.
    fn skip_to_semicolon(&mut self)
        requires
            old(self).well_formed(),
        ensures
            final(self).well_formed(),
            final(self).tokens() == skip_tokens(
                old(self).tokens(),
                tokens_before_semicolon(old(self).tokens()),
            ),
            final(self).diagnostics() == old(self).diagnostics(),
    {
        let ghost mut skipped: nat = 0;
        proof {
            self.lemma_window();
            assert(skip_tokens(self.tokens(), 0) =~= self.tokens());
        }
        while !matches!(self.current_token, Token::Semicolon | Token::Eof)
            invariant
                self.well_formed(),
                self.diagnostics() == old(self).diagnostics(),
                self.tokens() == skip_tokens(old(self).tokens(), skipped),
                skipped + tokens_before_semicolon(self.tokens()) == tokens_before_semicolon(
                    old(self).tokens(),
                ),
                self.current_token@ == nth_token(self.tokens(), 0),
            decreases self.tokens().len(),
        {
            proof {
                lemma_skip_tokens_twice(old(self).tokens(), skipped, 1);
                assert(skip_tokens(self.tokens(), 1) =~= self.tokens().drop_first());
                skipped = skipped + 1;
            }
            self.next_token();
            proof {
                self.lemma_window();
            }
        }
    }

    /// The expression that `token` stands for by itself.
    pub fn parse_prefix(token: &Token) -> (expression: Option<Expression>)
        ensures
            expression_view(expression) == token_expression(token@),
    {
        match token {
            Token::Ident(text) => Some(Expression::Identifier(text.clone())),
            Token::Int(text) => Some(Expression::Identifier(text.clone())),
            _ => None,
        }
    }

    /// The expression at the current token.
    ///
    /// `precedence` is the binding power of what stands to the left. No
    /// operator form is built yet, so every rank gives the same result.
    #[allow(unused_variables)]
    pub fn parse_expression(&self, precedence: Procedence) -> (expression: Option<Expression>)
        requires
            self.well_formed(),
        ensures
            expression_view(expression) == token_expression(nth_token(self.tokens(), 0)),
    {
        proof {
            self.lemma_window();
        }
        Parser::parse_prefix(&self.current_token)
    }

    /// Parses an expression statement at the current token.
    pub fn parse_expression_statement(&mut self) -> (statement: Option<Statement>)
        requires
            old(self).well_formed(),
        ensures
            final(self).well_formed(),
            statement_view(statement) == expression_statement(old(self).tokens()).statement,
            final(self).tokens() == skip_tokens(
                old(self).tokens(),
                expression_statement(old(self).tokens()).consumed,
            ),
            final(self).diagnostics() == old(self).diagnostics() + expression_statement(
                old(self).tokens(),
            ).errors,
    {
        proof {
            self.lemma_window();
            assert(skip_tokens(self.tokens(), 0) =~= self.tokens());
        }
        let expression = self.parse_expression(Procedence::Lowest);
        if matches!(self.peek_token, Token::Semicolon) {
            self.next_token();
        }
        match expression {
            Some(value) => Some(Statement::ExpressionStatement { value }),
            None => None,
        }
    }

    /// Parses a `let` statement; the current token is the `let`.
    pub fn parse_let_statement(&mut self) -> (statement: Option<Statement>)
        requires
            old(self).well_formed(),
        ensures
            final(self).well_formed(),
            statement_view(statement) == let_statement(old(self).tokens()).statement,
            final(self).tokens() == skip_tokens(
                old(self).tokens(),
                let_statement(old(self).tokens()).consumed,
            ),
            final(self).diagnostics() == old(self).diagnostics() + let_statement(
                old(self).tokens(),
            ).errors,
    {
        proof {
            self.lemma_window();
            assert(skip_tokens(self.tokens(), 0) =~= self.tokens());
        }
        let name = match &self.peek_token {
            Token::Ident(name) => name.clone(),
            found => {
                let message = let_error_message(found.debug_text().as_str());
                self.record(message);
                return None;
            },
        };
        self.next_token();
        proof {
            self.lemma_window();
        }
        if !self.expect_peek(Token::Assign) {
            return None;
        }
        self.skip_to_semicolon();
        proof {
            lemma_skip_tokens_twice(old(self).tokens(), 1, 1);
            lemma_skip_tokens_twice(
                old(self).tokens(),
                2,
                tokens_before_semicolon(skip_tokens(old(self).tokens(), 2)),
            );
        }
        Some(
            Statement::Let {
                name: Identifier(name),
                value: Expression::Identifier(String::from_str("IDK YET")),
            },
        )
    }

    /// Parses a `return` statement; the current token is the `return`.
    pub fn parse_return_statement(&mut self) -> (statement: Option<Statement>)
        requires
            old(self).well_formed(),
        ensures
            final(self).well_formed(),
            statement_view(statement) == return_statement(old(self).tokens()).statement,
            final(self).tokens() == skip_tokens(
                old(self).tokens(),
                return_statement(old(self).tokens()).consumed,
            ),
            final(self).diagnostics() == old(self).diagnostics() + return_statement(
                old(self).tokens(),
            ).errors,
    {
        proof {
            self.lemma_window();
            assert(skip_tokens(self.tokens(), 0) =~= self.tokens());
        }
        if matches!(self.peek_token, Token::Semicolon) {
            return None;
        }
        let value = match Parser::parse_prefix(&self.peek_token) {
            Some(value) => value,
            None => {
                let message = return_error_message(self.peek_token.debug_text().as_str());
                self.record(message);
                return None;
            },
        };
        self.next_token();
        self.skip_to_semicolon();
        proof {
            lemma_skip_tokens_twice(
                old(self).tokens(),
                1,
                tokens_before_semicolon(skip_tokens(old(self).tokens(), 1)),
            );
        }
        Some(Statement::Return { value })
    }

    /// Parses the statement at the current token, whose form that token
    /// decides.
    pub fn parse_statement(&mut self) -> (parsed: Option<Statement>)
        requires
            old(self).well_formed(),
        ensures
            final(self).well_formed(),
            statement_view(parsed) == statement(old(self).tokens()).statement,
            final(self).tokens() == skip_tokens(
                old(self).tokens(),
                statement(old(self).tokens()).consumed,
            ),
            final(self).diagnostics() == old(self).diagnostics() + statement(
                old(self).tokens(),
            ).errors,
    {
        proof {
            self.lemma_window();
        }
        match self.current_token {
            Token::Let => self.parse_let_statement(),
            Token::Return => self.parse_return_statement(),
            _ => self.parse_expression_statement(),
        }
    }

    /// Parses the rest of the input: every statement up to the end, with a
    /// diagnostic for each that is malformed.
    pub fn parse_program(&mut self) -> (program: Program)
        requires
            old(self).well_formed(),
        ensures
            final(self).well_formed(),
            program@ == program_of(old(self).tokens()),
            final(self).diagnostics() == old(self).diagnostics() + errors_of(old(self).tokens()),
            final(self).tokens().len() == 0,
    {
        let mut program = Program { statements: Vec::new() };
        proof {
            self.lemma_window();
            assert(program@ =~= Seq::<StatementView>::empty());
        }
        while !matches!(self.current_token, Token::Eof)
            invariant
                self.well_formed(),
                self.current_token@ == nth_token(self.tokens(), 0),
                program@ + program_of(self.tokens()) == program_of(old(self).tokens()),
                self.diagnostics() + errors_of(self.tokens()) == old(self).diagnostics()
                    + errors_of(old(self).tokens()),
            decreases self.tokens().len(),
        {
            let ghost stream = self.tokens();
            let ghost statements = program@;
            let ghost diagnostics = self.diagnostics();
            let parsed = self.parse_statement();
            if let Some(statement) = parsed {
                program.statements.push(statement);
            }
            self.next_token();
            proof {
                self.lemma_window();
                lemma_skip_tokens_twice(stream, statement(stream).consumed, 1);
                assert(self.tokens() == after_statement(stream));
                assert(program@ =~= statements + match statement(stream).statement {
                    Some(first) => seq![first],
                    None => Seq::empty(),
                });
                assert(program@ + program_of(self.tokens()) =~= statements + program_of(stream));
                assert(self.diagnostics() + errors_of(self.tokens()) =~= diagnostics + errors_of(
                    stream,
                ));
            }
        }
        proof {
            assert(program@ + Seq::<StatementView>::empty() =~= program@);
            assert(self.diagnostics() + Seq::<Seq<char>>::empty() =~= self.diagnostics());
        }
        program
    }
}

} // verus!
