//! The ways in which compiling a document fails.

use vstd::prelude::*;
use crate::parser::tree::{NodeView, Rule, Span};

verus! {

/// Why a document could not be compiled. Every error ends the compilation:
/// nothing of the output is handed out beside it.
#[derive(Clone, Debug, PartialEq, Eq)]
pub enum Error {
    /// A name was used that no visible scope defines. The span is that of the
    /// node that used it.
    UndefinedReference { name: String, span: Span },
    /// A template was used while it was itself being expanded. The span is
    /// that of the node that used it.
    CyclicDefinition { name: String, span: Span },
    /// A node of a kind that its place does not allow, or one that lacks a
    /// part that its kind calls for.
    UnexpectedNode { rule: Rule, span: Span },
    /// The text could not be parsed; the message is the parser's own.
    GrammarError { message: String },
}

/// The mathematical model of an [`Error`].
pub enum ErrorView {
    UndefinedReference { name: Seq<char>, span: Span },
    CyclicDefinition { name: Seq<char>, span: Span },
    UnexpectedNode { rule: Rule, span: Span },
    GrammarError { message: Seq<char> },
}

impl View for Error {
    type V = ErrorView;

    open spec fn view(&self) -> ErrorView {
        match *self {
            Error::UndefinedReference { name, span } => ErrorView::UndefinedReference {
                name: name@,
                span,
            },
            Error::CyclicDefinition { name, span } => ErrorView::CyclicDefinition {
                name: name@,
                span,
            },
            Error::UnexpectedNode { rule, span } => ErrorView::UnexpectedNode { rule, span },
            Error::GrammarError { message } => ErrorView::GrammarError { message: message@ },
        }
    }
}

/// The error for a node that its place does not allow.
pub open spec fn unexpected(node: NodeView) -> ErrorView {
    ErrorView::UnexpectedNode { rule: node.rule, span: node.span }
}

/// The error for a name that nothing defines, used at `node`.
pub open spec fn undefined(name: Seq<char>, node: NodeView) -> ErrorView {
    ErrorView::UndefinedReference { name, span: node.span }
}

/// The error for a template that is used while it is being expanded, at `node`.
pub open spec fn cyclic(name: Seq<char>, node: NodeView) -> ErrorView {
    ErrorView::CyclicDefinition { name, span: node.span }
}

} // verus!
