//! Realization of content: show rules, preparation and structural grouping.
//!
//! A tree of [`Content`] is rewritten step by step ([`realize`]) and its
//! leaves are clustered into citation groups, lists, paragraphs, flows,
//! pages and a document ([`realize_root`], [`realize_block`]).
//!
//! Every type has a mathematical model (its view), and every function
//! states over these models what it returns. The walk itself is modelled
//! in [`builder`]; [`laws`] and [`cascade`] hold what is proved of all
//! inputs.
//!
//! The walk nests as deeply as the content and its show rules make it. It
//! carries a budget for that nesting, which a walk that is started by
//! [`realize_root`] or [`realize_block`] cannot use up before the machine's
//! stack is used up; a walk that does, fails with [`ErrorKind::Nesting`].

pub mod behave;
pub mod builder;
pub mod cascade;
pub mod content;
pub mod diag;
pub mod element;
pub mod engine;
pub mod entry;
pub mod group;
pub mod laws;
pub mod pattern;
pub mod rules;
pub mod scratch;
pub mod style;

pub use content::{
    Behaviour, Capability, Content, Fields, Guard, Kind, Label, Location, Parity, Span,
};
pub use style::{
    Field, Func, Property, Recipe, Selector, Style, StyleChain, Styles, Transform, Value,
};
pub use diag::{Error, ErrorKind};
pub use engine::{Engine, Locator, Route, MAX_SHOW_RULE_DEPTH};
pub use rules::{applicable, realize, try_apply};
pub use behave::{first_span, BehavedBuilder, StyleVec, StyleVecBuilder};
pub use group::{CiteGroupBuilder, DocBuilder, FlowBuilder, ListBuilder, ParBuilder};
pub use scratch::Scratch;
pub use builder::Builder;
pub use entry::{realize_block, realize_root};
