//! The syntax tree that the parser builds.

use vstd::prelude::*;
use vstd::string::StringExecFns;

verus! {

/// A name bound by a `let`.
#[derive(Debug, PartialEq, Clone)]
pub struct Identifier(pub String);

/// An expression. Until the expression grammar is parsed, the one form is a
/// piece of source text: the name of an identifier, or the digits of an
/// integer literal.
#[derive(Debug, PartialEq, Clone)]
pub enum Expression {
    Identifier(String),
}

/// A statement of a program.
#[derive(Debug, PartialEq, Clone)]
pub enum Statement {
    Let { name: Identifier, value: Expression },
    Return { value: Expression },
    ExpressionStatement { value: Expression },
}

/// The binding power of operators, from the weakest to the strongest.
#[derive(Debug, Clone, Copy)]
pub enum Procedence {
    Lowest,
    Equals,
    LessGreater,
    Sum,
    Product,
    Prefix,
    Call,
}

/// A program: its statements in source order.
pub struct Program {
    pub statements: Vec<Statement>,
}

/// The mathematical value of an [`Expression`].
pub enum ExpressionView {
    Identifier(Seq<char>),
}

/// The mathematical value of a [`Statement`].
pub enum StatementView {
    Let { name: Seq<char>, value: ExpressionView },
    Return { value: ExpressionView },
    ExpressionStatement { value: ExpressionView },
}

impl View for Identifier {
    type V = Seq<char>;

    open spec fn view(&self) -> Seq<char> {
        self.0@
    }
}

impl View for Expression {
    type V = ExpressionView;

    open spec fn view(&self) -> ExpressionView {
        match self {
            Expression::Identifier(text) => ExpressionView::Identifier(text@),
        }
    }
}

impl View for Statement {
    type V = StatementView;

    open spec fn view(&self) -> StatementView {
        match self {
            Statement::Let { name, value } => StatementView::Let { name: name@, value: value@ },
            Statement::Return { value } => StatementView::Return { value: value@ },
            Statement::ExpressionStatement { value } => StatementView::ExpressionStatement {
                value: value@,
            },
        }
    }
}

impl View for Program {
    type V = Seq<StatementView>;

    open spec fn view(&self) -> Seq<StatementView> {
        self.statements@.map_values(|statement: Statement| statement@)
    }
}

impl ExpressionView {
    /// The source text that the expression stands for.
    pub open spec fn text(self) -> Seq<char> {
        match self {
            ExpressionView::Identifier(text) => text,
        }
    }
}

impl Expression {
    /// The source text that the expression stands for.
    pub fn text(&self) -> (text: &str)
        ensures
            text@ == self@.text(),
    {
        match self {
            Expression::Identifier(text) => text.as_str(),
        }
    }
}

impl Procedence {
    /// The rank as a number: a higher rank binds tighter.
    pub open spec fn rank_spec(self) -> nat {
        match self {
            Procedence::Lowest => 0,
            Procedence::Equals => 1,
            Procedence::LessGreater => 2,
            Procedence::Sum => 3,
            Procedence::Product => 4,
            Procedence::Prefix => 5,
            Procedence::Call => 6,
        }
    }

    /// The rank as a number: a higher rank binds tighter.
    pub fn rank(&self) -> (rank: u8)
        ensures
            rank == self.rank_spec(),
    {
        match self {
            Procedence::Lowest => 0,
            Procedence::Equals => 1,
            Procedence::LessGreater => 2,
            Procedence::Sum => 3,
            Procedence::Product => 4,
            Procedence::Prefix => 5,
            Procedence::Call => 6,
        }
    }
}

/// The source form of a statement. Only `let` statements have one so far;
/// the others render as nothing.
pub open spec fn statement_text(statement: StatementView) -> Seq<char> {
    match statement {
        StatementView::Let { name, value } => "let "@ + name + " = "@ + value.text() + ";"@,
        _ => Seq::empty(),
    }
}

/// The source form of a sequence of statements: their texts, one after the
/// other.
pub open spec fn program_text(statements: Seq<StatementView>) -> Seq<char>
    decreases statements.len(),
{
    if statements.len() == 0 {
        Seq::empty()
    } else {
        program_text(statements.drop_last()) + statement_text(statements.last())
    }
}

impl Program {
    /// The source form of the program.
    pub fn to_string(&self) -> (text: String)
        ensures
            text@ == program_text(self@),
    {
        let mut content = String::new();
        let mut i: usize = 0;
        while i < self.statements.len()
            invariant
                i <= self.statements.len(),
                content@ == program_text(self@.take(i as int)),
            decreases self.statements.len() - i,
        {
            let ghost before = content@;
            match &self.statements[i] {
                Statement::Let { name, value } => {
                    content.append("let ");
                    content.append(name.0.as_str());
                    content.append(" = ");
                    content.append(value.text());
                    content.append(";");
                },
                _ => {},
            }
            proof {
                let prefix = self@.take(i + 1);
                assert(prefix.drop_last() == self@.take(i as int));
                assert(prefix.last() == self.statements@[i as int]@);
                assert(content@ == before + statement_text(prefix.last()));
            }
            i += 1;
        }
        assert(self@.take(i as int) == self@);
        content
    }
}

} // verus!
