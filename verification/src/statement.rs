//! Program statements: the closed set of statement kinds the semantic
//! passes walk, each carrying its source span.

use vstd::prelude::*;
use crate::span::{Span, Symbol};

verus! {

/// A return statement `return expr;`.
#[derive(Debug, PartialEq, Eq)]
pub struct ReturnStatement {
    pub span: Span,
}

/// A binding or set of bindings to declare.
#[derive(Debug, PartialEq, Eq)]
pub struct DefinitionStatement {
    /// The names the statement binds.
    pub variable_names: Vec<Symbol>,
    pub span: Span,
}

/// An assignment statement.
#[derive(Debug, PartialEq, Eq)]
pub struct AssignStatement {
    /// The name assigned to.
    pub assignee: Symbol,
    pub span: Span,
}

/// A block statement: a brace-enclosed list of statements.
#[derive(Debug, PartialEq, Eq)]
pub struct Block {
    pub statements: Vec<Statement>,
    pub span: Span,
}

/// An `if` statement.
#[derive(Debug, PartialEq, Eq)]
pub struct ConditionalStatement {
    pub block: Block,
    pub next: Option<Box<Statement>>,
    pub span: Span,
}

/// A `for` statement.
#[derive(Debug, PartialEq, Eq)]
pub struct IterationStatement {
    /// The loop variable.
    pub variable: Symbol,
    pub span: Span,
}

/// A console logging statement.
#[derive(Debug, PartialEq, Eq)]
pub struct ConsoleStatement {
    pub span: Span,
}

/// A program statement: some action or expression to be carried out.
#[derive(Debug, PartialEq, Eq)]
pub enum Statement {
    Return(ReturnStatement),
    Definition(DefinitionStatement),
    Assign(Box<AssignStatement>),
    Conditional(ConditionalStatement),
    Iteration(Box<IterationStatement>),
    Console(ConsoleStatement),
    Block(Block),
}

impl Statement {
    /// The span carried at the top of each statement kind.
    pub open spec fn span_spec(self) -> Span {
        match self {
            Statement::Return(n) => n.span,
            Statement::Definition(n) => n.span,
            Statement::Assign(n) => n.span,
            Statement::Conditional(n) => n.span,
            Statement::Iteration(n) => n.span,
            Statement::Console(n) => n.span,
            Statement::Block(n) => n.span,
        }
    }

    /// This statement with the given span at its top, everything else as it
    /// was.
    pub open spec fn with_span_spec(self, span: Span) -> Statement {
        match self {
            Statement::Return(_) => Statement::Return(ReturnStatement { span }),
            Statement::Definition(n) => Statement::Definition(
                (DefinitionStatement { span, ..n }),
            ),
            Statement::Assign(n) => Statement::Assign(Box::new((AssignStatement { span, ..*n }))),
            Statement::Conditional(n) => Statement::Conditional(
                (ConditionalStatement { span, ..n }),
            ),
            Statement::Iteration(n) => Statement::Iteration(
                Box::new((IterationStatement { span, ..*n })),
            ),
            Statement::Console(_) => Statement::Console(ConsoleStatement { span }),
            Statement::Block(n) => Statement::Block((Block { span, ..n })),
        }
    }

    /// A dummy statement made from an empty block `{}`.
    pub fn dummy(span: Span) -> (r: Self)
        ensures
            r is Block,
            r->Block_0.statements@ == Seq::<Statement>::empty(),
            r.span_spec() == span,
    {
        Self::Block(Block { statements: Vec::new(), span })
    }

    /// The span of this statement.
    pub fn span(&self) -> (r: Span)
        ensures
            r == self.span_spec(),
    {
        match self {
            Statement::Return(n) => n.span,
            Statement::Definition(n) => n.span,
            Statement::Assign(n) => n.span,
            Statement::Conditional(n) => n.span,
            Statement::Iteration(n) => n.span,
            Statement::Console(n) => n.span,
            Statement::Block(n) => n.span,
        }
    }

    /// Replaces the span at the top of this statement.
    pub fn set_span(&mut self, span: Span)
        ensures
            *final(self) == old(self).with_span_spec(span),
    {
        match self {
            Statement::Return(n) => n.span = span,
            Statement::Definition(n) => n.span = span,
            Statement::Assign(n) => n.span = span,
            Statement::Conditional(n) => n.span = span,
            Statement::Iteration(n) => n.span = span,
            Statement::Console(n) => n.span = span,
            Statement::Block(n) => n.span = span,
        }
    }
}

} // verus!
