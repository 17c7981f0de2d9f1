//! The two ways into realization: at the root, into a document, and inside
//! a container, into a flow.

use vstd::prelude::*;

use crate::behave::trunk_of;
use crate::builder::{accept_spec, interrupt_page_spec, interrupt_par_spec, Builder, StateV};
use crate::content::{Capability, Content, ContentV, Kind};
use crate::diag::Error;
use crate::engine::{Engine, EngineV};
use crate::group::{wrap, wrap_items};
use crate::rules::{applicable, applicable_spec};
use crate::scratch::Scratch;
use crate::style::{StyleChain, StyleV};

verus! {

/// The state at the end of the walk at the root: the content is accepted
/// and then everything up to the last page is closed.
pub open spec fn root_state(
    engine: EngineV,
    content: ContentV,
    styles: Seq<Seq<StyleV>>,
) -> Result<StateV, Error> {
    match accept_spec(
        usize::MAX as nat,
        StateV::new(true, engine.depth, engine.seen),
        content,
        styles,
    ) {
        Err(e) => Err(e),
        Ok(s) => interrupt_page_spec(usize::MAX as nat, s, Some(styles), true),
    }
}

/// The pages that the walk collected.
pub open spec fn pages_of(s: StateV) -> Seq<(ContentV, Seq<Seq<StyleV>>)> {
    match s.doc {
        Some(doc) => doc.pages,
        None => Seq::empty(),
    }
}

/// The document that the content is realized into, and the styles that
/// its pages share.
pub open spec fn realize_root_spec(
    engine: EngineV,
    content: ContentV,
    styles: Seq<Seq<StyleV>>,
) -> Result<(ContentV, Seq<Seq<StyleV>>), Error> {
    match root_state(engine, content, styles) {
        Err(e) => Err(e),
        Ok(s) => Ok((wrap(Kind::Document, pages_of(s)), trunk_of(pages_of(s)))),
    }
}

/// The state at the end of the walk in a container: the content is
/// accepted and then everything up to the paragraph is closed.
pub open spec fn block_state(
    engine: EngineV,
    content: ContentV,
    styles: Seq<Seq<StyleV>>,
) -> Result<StateV, Error> {
    match accept_spec(
        usize::MAX as nat,
        StateV::new(false, engine.depth, engine.seen),
        content,
        styles,
    ) {
        Err(e) => Err(e),
        Ok(s) => interrupt_par_spec(usize::MAX as nat, s),
    }
}

/// Whether the content is left as it is: it is laid out as blocks and no
/// show rule or preparation applies to it.
pub open spec fn stays(content: ContentV, styles: Seq<Seq<StyleV>>) -> bool {
    content.can(Capability::LayoutMultiple) && !applicable_spec(content, styles)
}

/// The content that a container's body is realized into, and the styles
/// that go with it: the content itself under its styles if it stays, else
/// the flow of what the walk collected, under the styles that the flow's
/// children share.
pub open spec fn realize_block_spec(
    engine: EngineV,
    content: ContentV,
    styles: Seq<Seq<StyleV>>,
) -> Result<(ContentV, Seq<Seq<StyleV>>), Error> {
    if stays(content, styles) {
        Ok((content, styles))
    } else {
        match block_state(engine, content, styles) {
            Err(e) => Err(e),
            Ok(s) => Ok(
                (wrap(Kind::Flow, s.flow.builder.finish()), trunk_of(s.flow.builder.finish())),
            ),
        }
    }
}

/// The engine after realization at the root.
pub open spec fn root_engine(
    engine: EngineV,
    content: ContentV,
    styles: Seq<Seq<StyleV>>,
) -> EngineV {
    match root_state(engine, content, styles) {
        Ok(s) => EngineV { depth: s.depth, seen: s.seen },
        Err(_) => engine,
    }
}

/// The engine after realization in a container.
pub open spec fn block_engine(
    engine: EngineV,
    content: ContentV,
    styles: Seq<Seq<StyleV>>,
) -> EngineV {
    if stays(content, styles) {
        engine
    } else {
        match block_state(engine, content, styles) {
            Ok(s) => EngineV { depth: s.depth, seen: s.seen },
            Err(_) => engine,
        }
    }
}

/// The model of what realization at the root returns.
pub open spec fn root_outcome(r: Result<(Content, StyleChain<'_>), Error>) -> Result<
    (ContentV, Seq<Seq<StyleV>>),
    Error,
> {
    match r {
        Ok(p) => Ok((p.0@, p.1@)),
        Err(e) => Err(e),
    }
}

/// The model of what realization in a container returns.
pub open spec fn block_outcome(r: Result<(&Content, StyleChain<'_>), Error>) -> Result<
    (ContentV, Seq<Seq<StyleV>>),
    Error,
> {
    match r {
        Ok(p) => Ok((p.0@, p.1@)),
        Err(e) => Err(e),
    }
}

/// Realize into an element that is capable of root-level layout.
pub fn realize_root<'a>(
    engine: &mut Engine,
    scratch: &'a Scratch<'a>,
    content: &'a Content,
    styles: StyleChain<'a>,
) -> (r: Result<(Content, StyleChain<'a>), Error>)
    ensures
        root_outcome(r) == realize_root_spec(old(engine)@, content@, styles@),
        r is Ok ==> final(engine)@ == root_engine(old(engine)@, content@, styles@),
        r is Ok ==> final(engine)@.depth == old(engine)@.depth,
{
    let mut builder = Builder::new(scratch, true);
    match builder.accept(engine, content, styles) {
        Err(e) => {
            return Err(e);
        },
        Ok(()) => {},
    }
    match builder.interrupt_page(engine, Some(styles), true) {
        Err(e) => {
            return Err(e);
        },
        Ok(()) => {},
    }
    match builder.doc {
        Some(doc) => Ok(wrap_items(Kind::Document, doc.pages)),
        None => unreached(),
    }
}

/// Realize into an element that is capable of block-level layout.
pub fn realize_block<'a>(
    engine: &mut Engine,
    scratch: &'a Scratch<'a>,
    content: &'a Content,
    styles: StyleChain<'a>,
) -> (r: Result<(&'a Content, StyleChain<'a>), Error>)
    ensures
        block_outcome(r) == realize_block_spec(old(engine)@, content@, styles@),
        r is Ok ==> final(engine)@ == block_engine(old(engine)@, content@, styles@),
        r is Ok ==> final(engine)@.depth == old(engine)@.depth,
        stays(content@, styles@) ==> r == Ok::<(&Content, StyleChain<'_>), Error>(
            (content, styles),
        ),
{
    // These elements are laid out as blocks but would only be wrapped in a
    // flow of their own.
    if content.can(Capability::LayoutMultiple) && !applicable(content, styles) {
        return Ok((content, styles));
    }
    let mut builder = Builder::new(scratch, false);
    match builder.accept(engine, content, styles) {
        Err(e) => {
            return Err(e);
        },
        Ok(()) => {},
    }
    match builder.interrupt_par(engine) {
        Err(e) => {
            return Err(e);
        },
        Ok(()) => {},
    }
    let (flow, shared) = wrap_items(Kind::Flow, builder.flow.0.finish_items());
    Ok((scratch.keep(flow), shared))
}

} // verus!
