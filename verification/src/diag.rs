//! Errors that realization reports.

use vstd::prelude::*;
use vstd::string::*;

use crate::content::{Kind, Span};

verus! {

/// What went wrong.
#[derive(Clone, Copy, Debug, PartialEq, Eq, Structural)]
pub enum ErrorKind {
    /// Show rules were applied in each other's output more often than
    /// [`crate::engine::MAX_SHOW_RULE_DEPTH`] times.
    ShowRuleDepth,
    /// The content is nested more deeply than the walk's budget allows.
    Nesting,
    /// A pagebreak inside a container.
    PagebreakInContainer,
    /// An element that no builder accepts.
    NotAllowed(Kind),
    /// A set rule for the document inside a container.
    DocumentRuleInContainer,
    /// A set rule for the document after content.
    DocumentRuleAfterContent,
    /// A set rule for the page inside a container.
    PageRuleInContainer,
    /// A show rule's callable raised an error.
    Raised,
}

/// An error at a place in the source.
#[derive(Clone, Copy, Debug, PartialEq, Eq, Structural)]
pub struct Error {
    pub kind: ErrorKind,
    pub span: Span,
}

impl Error {
    /// An error of the kind at the span.
    pub fn new(kind: ErrorKind, span: Span) -> (r: Error)
        ensures
            r == (Error { kind, span }),
    {
        Error { kind, span }
    }

    pub open spec fn message_spec(self) -> Seq<char> {
        match self.kind {
            ErrorKind::ShowRuleDepth => "maximum show rule depth exceeded"@,
            ErrorKind::Nesting => "maximum nesting depth exceeded"@,
            ErrorKind::PagebreakInContainer => "pagebreaks are not allowed inside of containers"@,
            ErrorKind::NotAllowed(kind) => kind.name_spec() + " is not allowed here"@,
            ErrorKind::DocumentRuleInContainer =>
                "document set rules are not allowed inside of containers"@,
            ErrorKind::DocumentRuleAfterContent =>
                "document set rules must appear before any content"@,
            ErrorKind::PageRuleInContainer =>
                "page configuration is not allowed inside of containers"@,
            ErrorKind::Raised => "the show rule raised an error"@,
        }
    }

    /// The message of the error.
    pub fn message(&self) -> (r: String)
        ensures
            r@ == self.message_spec(),
    {
        match self.kind {
            ErrorKind::ShowRuleDepth => "maximum show rule depth exceeded".to_owned(),
            ErrorKind::Nesting => "maximum nesting depth exceeded".to_owned(),
            ErrorKind::PagebreakInContainer =>
                "pagebreaks are not allowed inside of containers".to_owned(),
            ErrorKind::NotAllowed(kind) => kind.name().to_owned().concat(" is not allowed here"),
            ErrorKind::DocumentRuleInContainer =>
                "document set rules are not allowed inside of containers".to_owned(),
            ErrorKind::DocumentRuleAfterContent =>
                "document set rules must appear before any content".to_owned(),
            ErrorKind::PageRuleInContainer =>
                "page configuration is not allowed inside of containers".to_owned(),
            ErrorKind::Raised => "the show rule raised an error".to_owned(),
        }
    }

    pub open spec fn hints_spec(self) -> Seq<Seq<char>> {
        match self.kind {
            ErrorKind::ShowRuleDepth => seq![
                "check whether the show rule matches its own output"@,
                "this is a current compiler limitation that will be resolved in the future"@,
            ],
            _ => Seq::empty(),
        }
    }

    /// Hints on how to mend the error.
    pub fn hints(&self) -> (r: Vec<String>)
        ensures
            r@.len() == self.hints_spec().len(),
            forall|i: int| 0 <= i < r@.len() ==> r@[i]@ == #[trigger] self.hints_spec()[i],
    {
        let mut r: Vec<String> = Vec::new();
        match self.kind {
            ErrorKind::ShowRuleDepth => {
                r.push("check whether the show rule matches its own output".to_owned());
                let second =
                    "this is a current compiler limitation that will be resolved in the future";
                r.push(second.to_owned());
            },
            _ => {},
        }
        r
    }
}

} // verus!
