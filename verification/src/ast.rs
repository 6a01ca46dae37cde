//! The syntax tree: a program is a list of statements, in source order.
use vstd::prelude::*;

verus! {

/// A name.
#[derive(Debug)]
pub struct Identifier {
    pub value: String,
}

impl View for Identifier {
    type V = Seq<char>;

    open spec fn view(&self) -> Seq<char> {
        self.value@
    }
}

/// `let <name> = <value>;`. The value is read over and not kept.
#[derive(Debug)]
pub struct LetStatement {
    pub name: Identifier,
}

/// `return <value>;`. The value is read over and not kept.
#[derive(Debug)]
pub struct ReturnStatement {}

/// An expression.
#[derive(Debug)]
pub enum Expression {
    Identifier(Identifier),
}

/// A statement.
#[derive(Debug)]
pub enum Statement {
    LetStatement(LetStatement),
    ReturnStatement(ReturnStatement),
}

/// What a statement says: a `let` with the name it binds, or a `return`.
pub enum StatementView {
    Let { name: Seq<char> },
    Return,
}

impl View for Statement {
    type V = StatementView;

    open spec fn view(&self) -> StatementView {
        match self {
            Statement::LetStatement(statement) => StatementView::Let { name: statement.name@ },
            Statement::ReturnStatement(_) => StatementView::Return,
        }
    }
}

/// What each of a list of statements says, in the same order.
pub open spec fn statement_views(statements: Seq<Statement>) -> Seq<StatementView> {
    statements.map_values(|statement: Statement| statement@)
}

/// A program: its statements, in the order in which they stand in the
/// source.
#[derive(Debug)]
pub struct Program {
    statements: Vec<Statement>,
}

impl View for Program {
    type V = Seq<StatementView>;

    closed spec fn view(&self) -> Seq<StatementView> {
        statement_views(self.statements@)
    }
}

impl Program {
    /// A program without statements.
    pub fn new() -> (program: Self)
        ensures
            program@ == Seq::<StatementView>::empty(),
    {
        let program = Self { statements: Vec::new() };
        assert(program@ =~= Seq::<StatementView>::empty());
        program
    }

    /// Puts `statement` behind the statements that are there.
    pub fn add_statement(&mut self, statement: Statement)
        ensures
            final(self)@ == old(self)@.push(statement@),
    {
        self.statements.push(statement);
        assert(self@ =~= old(self)@.push(statement@));
    }

    /// The statements, first to last.
    pub fn get_statements(&self) -> (statements: &Vec<Statement>)
        ensures
            statement_views(statements@) == self@,
    {
        &self.statements
    }
}

} // verus!
