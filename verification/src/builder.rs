//! The walk: every piece of content is rewritten as far as show rules
//! apply, and what is left is handed to the innermost builder that takes
//! it, after the builders further in were closed.

use vstd::prelude::*;

use crate::behave::{first_span, first_span_of, pair_models, trunk_of, with_locals, BehavedV};
use crate::content::{models, Capability, Content, ContentV, Kind};
use crate::diag::{Error, ErrorKind};
use crate::engine::{Engine, MAX_SHOW_RULE_DEPTH};
use crate::group::{
    par_accept, par_takes, wrap, CiteGroupBuilder, CitesV, DocBuilder, DocV,
    FlowBuilder, FlowV, ListBuilder, ListV, ParBuilder,
};
use crate::rules::{realize, realize_seen, realize_spec};
use crate::scratch::Scratch;
use crate::style::{chained, interruption_of, StyleChain, StyleV, Styles};

verus! {

/// The model of a walk's state: what the builders hold, how deeply show
/// rules are nested, and what the locator has seen.
pub ghost struct StateV {
    pub doc: Option<DocV>,
    pub flow: FlowV,
    pub par: BehavedV,
    pub list: ListV,
    pub cites: CitesV,
    pub depth: usize,
    pub seen: Seq<u128>,
}

impl StateV {
    /// The state before the walk: empty builders, with a document builder
    /// only at the top.
    pub open spec fn new(top: bool, depth: usize, seen: Seq<u128>) -> StateV {
        StateV {
            doc: if top {
                Some(DocV::new())
            } else {
                None
            },
            flow: FlowV::new(),
            par: BehavedV::new(),
            list: ListV::new(),
            cites: CitesV::new(),
            depth,
            seen,
        }
    }
}

/// Math outside an equation is put into one, which gets its span.
pub open spec fn wrap_math(content: ContentV) -> ContentV {
    if content.can(Capability::LayoutMath) && content.kind != Kind::Equation {
        ContentV::container(Kind::Equation, seq![content]).spanned(content.span)
    } else {
        content
    }
}

/// The error for content that no builder takes.
pub open spec fn refusal(content: ContentV) -> Error {
    if content.kind == Kind::Pagebreak {
        Error { kind: ErrorKind::PagebreakInContainer, span: content.span }
    } else {
        Error { kind: ErrorKind::NotAllowed(content.kind), span: content.span }
    }
}

/// The state after the content was accepted under the styles: the content
/// is rewritten and accepted again as long as a show rule or preparation
/// applies; a styled node and a sequence are taken apart; anything else is
/// handed to the builders. `fuel` bounds how deeply the walk may nest.
pub open spec fn accept_spec(
    fuel: nat,
    s: StateV,
    content: ContentV,
    styles: Seq<Seq<StyleV>>,
) -> Result<StateV, Error>
    decreases fuel, 0nat, 0nat,
{
    if fuel == 0 {
        Err(Error { kind: ErrorKind::Nesting, span: content.span })
    } else {
        let f = (fuel - 1) as nat;
        let c = wrap_math(content);
        match realize_spec(c, styles, s.seen) {
            Err(e) => Err(e),
            Ok(Some(realized)) => {
                if s.depth >= MAX_SHOW_RULE_DEPTH {
                    Err(Error { kind: ErrorKind::ShowRuleDepth, span: c.span })
                } else {
                    match accept_spec(
                        f,
                        StateV {
                            depth: (s.depth + 1) as usize,
                            seen: realize_seen(c, styles, s.seen),
                            ..s
                        },
                        realized,
                        styles,
                    ) {
                        Ok(after) => Ok(StateV { depth: s.depth, ..after }),
                        Err(e) => Err(e),
                    }
                }
            },
            Ok(None) => {
                if c.is_styled() {
                    styled_spec(f, s, c.children[0], c.styles, styles)
                } else if c.kind == Kind::Sequence {
                    accept_all(f, s, c.children, styles, 0)
                } else {
                    dispatch(f, s, c, styles)
                }
            },
        }
    }
}

/// The state after the items from position `i` on were accepted in order.
pub open spec fn accept_all(
    fuel: nat,
    s: StateV,
    items: Seq<ContentV>,
    styles: Seq<Seq<StyleV>>,
    i: int,
) -> Result<StateV, Error>
    decreases fuel, 1nat, items.len() - i,
{
    if i < 0 || i >= items.len() {
        Ok(s)
    } else {
        match accept_spec(fuel, s, items[i], styles) {
            Ok(after) => accept_all(fuel, after, items, styles, i + 1),
            Err(e) => Err(e),
        }
    }
}

/// The state after the staged entries from position `i` on were accepted
/// in order, each under its own styles.
pub open spec fn replay(
    fuel: nat,
    s: StateV,
    staged: Seq<(ContentV, Seq<Seq<StyleV>>)>,
    i: int,
) -> Result<StateV, Error>
    decreases fuel, 1nat, staged.len() - i,
{
    if i < 0 || i >= staged.len() {
        Ok(s)
    } else {
        match accept_spec(fuel, s, staged[i].0, staged[i].1) {
            Ok(after) => replay(fuel, after, staged, i + 1),
            Err(e) => Err(e),
        }
    }
}

/// Closes the citation group if it holds a citation: the group is reset,
/// its product is accepted, and then the staged entries are replayed.
pub open spec fn interrupt_cites_spec(fuel: nat, s: StateV) -> Result<StateV, Error>
    decreases fuel, 2nat, 0nat,
{
    if s.cites.items.len() == 0 {
        Ok(s)
    } else {
        match accept_spec(
            fuel,
            StateV { cites: CitesV::new(), ..s },
            s.cites.product(),
            s.cites.styles,
        ) {
            Ok(after) => replay(fuel, after, s.cites.staged, 0),
            Err(e) => Err(e),
        }
    }
}

/// Closes the citation group and then the list, if it holds an item: the
/// list is reset, its product is accepted, and then the staged entries
/// are replayed.
pub open spec fn interrupt_list_spec(fuel: nat, s: StateV) -> Result<StateV, Error>
    decreases fuel, 3nat, 0nat,
{
    match interrupt_cites_spec(fuel, s) {
        Err(e) => Err(e),
        Ok(s1) => if s1.list.items.len() == 0 {
            Ok(s1)
        } else {
            match accept_spec(
                fuel,
                StateV { list: ListV::new(), ..s1 },
                s1.list.product(),
                trunk_of(s1.list.items),
            ) {
                Ok(after) => replay(fuel, after, s1.list.staged, 0),
                Err(e) => Err(e),
            }
        },
    }
}

/// Closes the list and then the paragraph, if it holds anything: the
/// paragraph is reset and its product is accepted.
pub open spec fn interrupt_par_spec(fuel: nat, s: StateV) -> Result<StateV, Error>
    decreases fuel, 4nat, 0nat,
{
    match interrupt_list_spec(fuel, s) {
        Err(e) => Err(e),
        Ok(s1) => if s1.par.is_empty() {
            Ok(s1)
        } else {
            accept_spec(
                fuel,
                StateV { par: BehavedV::new(), ..s1 },
                wrap(Kind::Par, s1.par.finish()),
                trunk_of(s1.par.finish()),
            )
        },
    }
}

/// Whether the flow is closed into a page: the next page is kept and
/// styles are given, or the flow holds content that counts.
pub open spec fn closes_page(
    doc: DocV,
    flow: FlowV,
    styles: Option<Seq<Seq<StyleV>>>,
    last: bool,
) -> bool {
    (doc.keep_next && styles is Some) || flow.builder.has_strong_elements(last)
}

/// The page around a flow of the items.
pub open spec fn page_of(items: Seq<(ContentV, Seq<Seq<StyleV>>)>) -> ContentV {
    ContentV::container(Kind::Page, seq![wrap(Kind::Flow, items)]).spanned(
        first_span_of(with_locals(items)),
    )
}

/// The styles of a page: those that the flow's children share, or, if
/// they share none, the styles given.
pub open spec fn page_styles(
    items: Seq<(ContentV, Seq<Seq<StyleV>>)>,
    styles: Option<Seq<Seq<StyleV>>>,
) -> Seq<Seq<StyleV>> {
    if trunk_of(items).len() == 0 {
        match styles {
            Some(given) => given,
            None => Seq::empty(),
        }
    } else {
        trunk_of(items)
    }
}

/// Closes the paragraph and then, at the top, the flow, if it is to be
/// closed: the flow is reset and the page around it is accepted.
pub open spec fn interrupt_page_spec(
    fuel: nat,
    s: StateV,
    styles: Option<Seq<Seq<StyleV>>>,
    last: bool,
) -> Result<StateV, Error>
    decreases fuel, 5nat, 0nat,
{
    match interrupt_par_spec(fuel, s) {
        Err(e) => Err(e),
        Ok(s1) => match s1.doc {
            None => Ok(s1),
            Some(doc) => if closes_page(doc, s1.flow, styles, last) {
                let items = s1.flow.builder.finish();
                accept_spec(
                    fuel,
                    StateV { flow: FlowV::new(), ..s1 },
                    page_of(items),
                    page_styles(items, styles),
                )
            } else {
                Ok(s1)
            },
        },
    }
}

/// Whether any content waits in the flow, the paragraph or the list.
pub open spec fn has_content(s: StateV) -> bool {
    !s.flow.builder.is_empty() || !s.par.is_empty() || s.list.items.len() > 0
}

/// Closes what the local styles of a styled node end. Set rules for the
/// document are only allowed at the top, and on entry only before any
/// content; set rules for the page close the page, at the top only; set
/// rules for paragraphs or alignment close the paragraph; set rules for
/// lists close the list. `outer` is nothing on entry, and the chain with
/// the local styles on exit.
pub open spec fn interrupt_style_spec(
    fuel: nat,
    s: StateV,
    local: Seq<StyleV>,
    outer: Option<Seq<Seq<StyleV>>>,
) -> Result<StateV, Error>
    decreases fuel, 6nat, 0nat,
{
    if let Some(Some(span)) = interruption_of(local, Kind::Document) {
        if s.doc is None {
            Err(Error { kind: ErrorKind::DocumentRuleInContainer, span })
        } else if outer is None && has_content(s) {
            Err(Error { kind: ErrorKind::DocumentRuleAfterContent, span })
        } else {
            Ok(s)
        }
    } else if let Some(Some(span)) = interruption_of(local, Kind::Page) {
        if s.doc is None {
            Err(Error { kind: ErrorKind::PageRuleInContainer, span })
        } else {
            interrupt_page_spec(fuel, s, outer, false)
        }
    } else if interruption_of(local, Kind::Par) is Some || interruption_of(local, Kind::Align)
        is Some {
        interrupt_par_spec(fuel, s)
    } else if interruption_of(local, Kind::List) is Some || interruption_of(local, Kind::Enum)
        is Some || interruption_of(local, Kind::Terms) is Some {
        interrupt_list_spec(fuel, s)
    } else {
        Ok(s)
    }
}

/// The state after a styled node was accepted: what its local styles end
/// is closed, the child is accepted under the extended chain, and what
/// the local styles end is closed again.
pub open spec fn styled_spec(
    fuel: nat,
    s: StateV,
    elem: ContentV,
    local: Seq<StyleV>,
    styles: Seq<Seq<StyleV>>,
) -> Result<StateV, Error>
    decreases fuel, 7nat, 0nat,
{
    let extended = chained(styles, local);
    match interrupt_style_spec(fuel, s, local, None) {
        Err(e) => Err(e),
        Ok(s1) => match accept_spec(fuel, s1, elem, extended) {
            Err(e) => Err(e),
            Ok(s2) => interrupt_style_spec(fuel, s2, local, Some(extended)),
        },
    }
}

/// The styles with which the page is closed before the content is offered
/// to the document: those of a pagebreak that is not weak.
pub open spec fn kept_styles(content: ContentV, styles: Seq<Seq<StyleV>>) -> Option<
    Seq<Seq<StyleV>>,
> {
    if content.kind == Kind::Pagebreak && !content.weak(styles) {
        Some(styles)
    } else {
        None
    }
}

/// Hands the content to the document, after everything further in was
/// closed.
pub open spec fn dispatch_outer(
    fuel: nat,
    s: StateV,
    content: ContentV,
    styles: Seq<Seq<StyleV>>,
) -> Result<StateV, Error>
    decreases fuel, 8nat, 0nat,
{
    match interrupt_page_spec(fuel, s, kept_styles(content, styles), false) {
        Err(e) => Err(e),
        Ok(s1) => match s1.doc {
            Some(doc) => match doc.accept(content, styles) {
                Some(taken) => Ok(StateV { doc: Some(taken), ..s1 }),
                None => Err(refusal(content)),
            },
            None => Err(refusal(content)),
        },
    }
}

/// Hands the content to the paragraph or, after the paragraph was closed,
/// to the flow, or further out.
pub open spec fn dispatch_block(
    fuel: nat,
    s: StateV,
    content: ContentV,
    styles: Seq<Seq<StyleV>>,
) -> Result<StateV, Error>
    decreases fuel, 9nat, 0nat,
{
    if par_takes(s.par, content, styles) {
        Ok(StateV { par: par_accept(s.par, content, styles), ..s })
    } else {
        match interrupt_par_spec(fuel, s) {
            Err(e) => Err(e),
            Ok(s1) => {
                let offered = StateV { flow: s1.flow.accept(content, styles), ..s1 };
                if FlowV::takes(content) {
                    Ok(offered)
                } else {
                    dispatch_outer(fuel, offered, content, styles)
                }
            },
        }
    }
}

/// Hands the content to the innermost builder that takes it: the citation
/// group; after it was closed, the list; after the list was closed, the
/// list once more, which may now start anew; and then further out.
pub open spec fn dispatch(
    fuel: nat,
    s: StateV,
    content: ContentV,
    styles: Seq<Seq<StyleV>>,
) -> Result<StateV, Error>
    decreases fuel, 10nat, 0nat,
{
    match s.cites.accept(content, styles) {
        Some(taken) => Ok(StateV { cites: taken, ..s }),
        None => match interrupt_cites_spec(fuel, s) {
            Err(e) => Err(e),
            Ok(s1) => match s1.list.accept(content, styles) {
                Some(taken) => Ok(StateV { list: taken, ..s1 }),
                None => match interrupt_list_spec(fuel, s1) {
                    Err(e) => Err(e),
                    Ok(s2) => match s2.list.accept(content, styles) {
                        Some(taken) => Ok(StateV { list: taken, ..s2 }),
                        None => dispatch_block(fuel, s2, content, styles),
                    },
                },
            },
        },
    }
}

/// Whether a step of the walk ended as its model says: with the error, or
/// in the state.
pub open spec fn agrees(
    r: Result<(), Error>,
    expected: Result<StateV, Error>,
    after: StateV,
) -> bool {
    match expected {
        Ok(s) => r is Ok && after == s,
        Err(e) => r == Err::<(), Error>(e),
    }
}

/// Builds a document or a flow element from content.
pub struct Builder<'a> {
    /// Scratch arenas for building.
    pub scratch: &'a Scratch<'a>,
    /// The current document building state.
    pub doc: Option<DocBuilder<'a>>,
    /// The current flow building state.
    pub flow: FlowBuilder<'a>,
    /// The current paragraph building state.
    pub par: ParBuilder<'a>,
    /// The current list building state.
    pub list: ListBuilder<'a>,
    /// The current citation grouping state.
    pub cites: CiteGroupBuilder<'a>,
    /// How much deeper the walk may nest.
    pub budget: usize,
}

impl<'a> Builder<'a> {
    /// The model of the walk's state.
    pub open spec fn state(&self, engine: &Engine) -> StateV {
        StateV {
            doc: match self.doc {
                Some(doc) => Some(doc@),
                None => None,
            },
            flow: self.flow@,
            par: self.par@,
            list: self.list@,
            cites: self.cites@,
            depth: engine.route.depth,
            seen: engine.locator.seen@,
        }
    }

    /// What every step of the walk keeps when it succeeds: the budget, the
    /// depth of the route, that the list holds items of one kind, and
    /// whether there is a document builder.
    pub open spec fn kept(
        &self,
        engine: &Engine,
        before: &Builder<'a>,
        engine_before: &Engine,
    ) -> bool {
        &&& self.budget == before.budget
        &&& engine.route.depth == engine_before.route.depth
        &&& self.list@.wf()
        &&& self.doc is Some == before.doc is Some
    }

    /// A builder with empty sub-builders, with a document builder only at
    /// the top.
    pub fn new(scratch: &'a Scratch<'a>, top: bool) -> (r: Builder<'a>)
        ensures
            forall|engine: &Engine|
                #[trigger] r.state(engine) == StateV::new(
                    top,
                    engine.route.depth,
                    engine.locator.seen@,
                ),
            r.budget == usize::MAX,
            r.list@.wf(),
            r.doc is Some == top,
    {
        Builder {
            scratch,
            doc: if top {
                Some(DocBuilder::new())
            } else {
                None
            },
            flow: FlowBuilder::new(),
            par: ParBuilder::new(),
            list: ListBuilder::new(),
            cites: CiteGroupBuilder::new(),
            budget: usize::MAX,
        }
    }

    /// Accepts the content under the styles.
    pub fn accept(
        &mut self,
        engine: &mut Engine,
        content: &'a Content,
        styles: StyleChain<'a>,
    ) -> (r: Result<(), Error>)
        requires
            old(self).list@.wf(),
        ensures
            agrees(
                r,
                accept_spec(
                    old(self).budget as nat,
                    old(self).state(old(engine)),
                    content@,
                    styles@,
                ),
                final(self).state(final(engine)),
            ),
            r is Ok ==> final(self).kept(final(engine), old(self), old(engine)),
        decreases old(self).budget, 0nat, 0nat,
    {
        if self.budget == 0 {
            return Err(Error::new(ErrorKind::Nesting, content.span));
        }
        self.budget = self.budget - 1;
        let content: &'a Content = if content.can(Capability::LayoutMath) && !content.is(
            Kind::Equation,
        ) {
            let mut children: Vec<Content> = Vec::new();
            children.push(content.dup());
            proof {
                assert(models(children@) =~= seq![content@]);
            }
            self.scratch.keep(Content::container(Kind::Equation, children).spanned(content.span))
        } else {
            content
        };
        match realize(engine, content, styles) {
            Err(e) => {
                return Err(e);
            },
            Ok(Some(realized)) => {
                if engine.route.depth >= MAX_SHOW_RULE_DEPTH {
                    return Err(Error::new(ErrorKind::ShowRuleDepth, content.span));
                }
                engine.route.increase();
                let stored = self.scratch.keep(realized);
                let v = self.accept(engine, stored, styles);
                engine.route.decrease();
                if v.is_ok() {
                    self.budget = self.budget + 1;
                }
                return v;
            },
            Ok(None) => {},
        }
        let r = if let Some(p) = content.to_styled() {
            self.styled(engine, p.0, p.1, styles)
        } else if let Some(children) = content.to_sequence() {
            self.accept_from(engine, children, styles, 0)
        } else {
            self.dispatch(engine, content, styles)
        };
        if r.is_ok() {
            self.budget = self.budget + 1;
        }
        r
    }

    /// Accepts the children of a sequence from position `i` on, in order.
    fn accept_from(
        &mut self,
        engine: &mut Engine,
        children: &'a Vec<Content>,
        styles: StyleChain<'a>,
        i: usize,
    ) -> (r: Result<(), Error>)
        requires
            old(self).list@.wf(),
        ensures
            agrees(
                r,
                accept_all(
                    old(self).budget as nat,
                    old(self).state(old(engine)),
                    models(children@),
                    styles@,
                    i as int,
                ),
                final(self).state(final(engine)),
            ),
            r is Ok ==> final(self).kept(final(engine), old(self), old(engine)),
        decreases old(self).budget, 1nat, children.len() - i,
    {
        if i >= children.len() {
            return Ok(());
        }
        assert(models(children@)[i as int] == children@[i as int]@);
        match self.accept(engine, &children[i], styles) {
            Ok(()) => {},
            Err(e) => {
                return Err(e);
            },
        }
        self.accept_from(engine, children, styles, i + 1)
    }

    /// Accepts a styled node: its child under the chain extended by its
    /// local styles, between two interruptions by those styles.
    fn styled(
        &mut self,
        engine: &mut Engine,
        elem: &'a Content,
        map: &'a Styles,
        styles: StyleChain<'a>,
    ) -> (r: Result<(), Error>)
        requires
            old(self).list@.wf(),
        ensures
            agrees(
                r,
                styled_spec(
                    old(self).budget as nat,
                    old(self).state(old(engine)),
                    elem@,
                    map@,
                    styles@,
                ),
                final(self).state(final(engine)),
            ),
            r is Ok ==> final(self).kept(final(engine), old(self), old(engine)),
        decreases old(self).budget, 7nat, 0nat,
    {
        let stored = self.scratch.keep_chain(styles);
        let extended = stored.chain(map);
        match self.interrupt_style(engine, map, None) {
            Err(e) => {
                return Err(e);
            },
            Ok(()) => {},
        }
        match self.accept(engine, elem, extended) {
            Err(e) => {
                return Err(e);
            },
            Ok(()) => {},
        }
        self.interrupt_style(engine, map, Some(extended))
    }

    /// Closes what the local styles of a styled node end.
    fn interrupt_style(
        &mut self,
        engine: &mut Engine,
        local: &Styles,
        outer: Option<StyleChain<'a>>,
    ) -> (r: Result<(), Error>)
        requires
            old(self).list@.wf(),
        ensures
            agrees(
                r,
                interrupt_style_spec(
                    old(self).budget as nat,
                    old(self).state(old(engine)),
                    local@,
                    chain_model(outer),
                ),
                final(self).state(final(engine)),
            ),
            r is Ok ==> final(self).kept(final(engine), old(self), old(engine)),
        decreases old(self).budget, 6nat, 0nat,
    {
        if let Some(Some(span)) = local.interruption(Kind::Document) {
            if self.doc.is_none() {
                return Err(Error::new(ErrorKind::DocumentRuleInContainer, span));
            }
            if outer.is_none() && (!self.flow.0.is_empty() || !self.par.0.is_empty()
                || !self.list.items.is_empty()) {
                return Err(Error::new(ErrorKind::DocumentRuleAfterContent, span));
            }
            Ok(())
        } else if let Some(Some(span)) = local.interruption(Kind::Page) {
            if self.doc.is_none() {
                return Err(Error::new(ErrorKind::PageRuleInContainer, span));
            }
            self.interrupt_page(engine, outer, false)
        } else if local.interruption(Kind::Par).is_some() || local.interruption(
            Kind::Align,
        ).is_some() {
            self.interrupt_par(engine)
        } else if local.interruption(Kind::List).is_some() || local.interruption(
            Kind::Enum,
        ).is_some() || local.interruption(Kind::Terms).is_some() {
            self.interrupt_list(engine)
        } else {
            Ok(())
        }
    }

    /// Accepts the staged entries from position `i` on, each under its own
    /// styles.
    fn replay_from(
        &mut self,
        engine: &mut Engine,
        staged: &Vec<(&'a Content, StyleChain<'a>)>,
        i: usize,
    ) -> (r: Result<(), Error>)
        requires
            old(self).list@.wf(),
        ensures
            agrees(
                r,
                replay(
                    old(self).budget as nat,
                    old(self).state(old(engine)),
                    pair_models(staged@),
                    i as int,
                ),
                final(self).state(final(engine)),
            ),
            r is Ok ==> final(self).kept(final(engine), old(self), old(engine)),
        decreases old(self).budget, 1nat, staged.len() - i,
    {
        if i >= staged.len() {
            return Ok(());
        }
        assert(pair_models(staged@)[i as int] == (staged@[i as int].0@, staged@[i as int].1@));
        match self.accept(engine, staged[i].0, staged[i].1) {
            Ok(()) => {},
            Err(e) => {
                return Err(e);
            },
        }
        self.replay_from(engine, staged, i + 1)
    }

    /// Closes the citation group.
    fn interrupt_cites(&mut self, engine: &mut Engine) -> (r: Result<(), Error>)
        requires
            old(self).list@.wf(),
        ensures
            agrees(
                r,
                interrupt_cites_spec(old(self).budget as nat, old(self).state(old(engine))),
                final(self).state(final(engine)),
            ),
            r is Ok ==> final(self).kept(final(engine), old(self), old(engine)),
        decreases old(self).budget, 2nat, 0nat,
    {
        if self.cites.items.len() > 0 {
            let mut cites = CiteGroupBuilder::new();
            core::mem::swap(&mut cites, &mut self.cites);
            let mut staged: Vec<(&'a Content, StyleChain<'a>)> = Vec::new();
            core::mem::swap(&mut staged, &mut cites.staged);
            let (group, styles) = cites.finish();
            let stored = self.scratch.keep(group);
            match self.accept(engine, stored, styles) {
                Err(e) => {
                    return Err(e);
                },
                Ok(()) => {},
            }
            return self.replay_from(engine, &staged, 0);
        }
        Ok(())
    }

    /// Closes the citation group and the list.
    fn interrupt_list(&mut self, engine: &mut Engine) -> (r: Result<(), Error>)
        requires
            old(self).list@.wf(),
        ensures
            agrees(
                r,
                interrupt_list_spec(old(self).budget as nat, old(self).state(old(engine))),
                final(self).state(final(engine)),
            ),
            r is Ok ==> final(self).kept(final(engine), old(self), old(engine)),
        decreases old(self).budget, 3nat, 0nat,
    {
        match self.interrupt_cites(engine) {
            Err(e) => {
                return Err(e);
            },
            Ok(()) => {},
        }
        if !self.list.items.is_empty() {
            let mut list = ListBuilder::new();
            core::mem::swap(&mut list, &mut self.list);
            let mut staged: Vec<(&'a Content, StyleChain<'a>)> = Vec::new();
            core::mem::swap(&mut staged, &mut list.staged);
            let (product, styles) = list.finish();
            let stored = self.scratch.keep(product);
            match self.accept(engine, stored, styles) {
                Err(e) => {
                    return Err(e);
                },
                Ok(()) => {},
            }
            return self.replay_from(engine, &staged, 0);
        }
        Ok(())
    }

    /// Closes the citation group, the list and the paragraph.
    pub fn interrupt_par(&mut self, engine: &mut Engine) -> (r: Result<(), Error>)
        requires
            old(self).list@.wf(),
        ensures
            agrees(
                r,
                interrupt_par_spec(old(self).budget as nat, old(self).state(old(engine))),
                final(self).state(final(engine)),
            ),
            r is Ok ==> final(self).kept(final(engine), old(self), old(engine)),
        decreases old(self).budget, 4nat, 0nat,
    {
        match self.interrupt_list(engine) {
            Err(e) => {
                return Err(e);
            },
            Ok(()) => {},
        }
        if !self.par.0.is_empty() {
            let mut par = ParBuilder::new();
            core::mem::swap(&mut par, &mut self.par);
            let (product, styles) = par.finish();
            let stored = self.scratch.keep(product);
            return self.accept(engine, stored, styles);
        }
        Ok(())
    }

    /// Closes everything up to the page.
    pub fn interrupt_page(
        &mut self,
        engine: &mut Engine,
        styles: Option<StyleChain<'a>>,
        last: bool,
    ) -> (r: Result<(), Error>)
        requires
            old(self).list@.wf(),
        ensures
            agrees(
                r,
                interrupt_page_spec(
                    old(self).budget as nat,
                    old(self).state(old(engine)),
                    chain_model(styles),
                    last,
                ),
                final(self).state(final(engine)),
            ),
            r is Ok ==> final(self).kept(final(engine), old(self), old(engine)),
        decreases old(self).budget, 5nat, 0nat,
    {
        match self.interrupt_par(engine) {
            Err(e) => {
                return Err(e);
            },
            Ok(()) => {},
        }
        let keep_next = match &self.doc {
            Some(doc) => doc.keep_next,
            None => {
                return Ok(());
            },
        };
        if (keep_next && styles.is_some()) || self.flow.0.has_strong_elements(last) {
            let mut flow = FlowBuilder::new();
            core::mem::swap(&mut flow, &mut self.flow);
            let ghost items = flow.0@.finish();
            let (children, shared) = flow.0.finish();
            let chosen = if shared.is_empty() {
                match styles {
                    Some(given) => given,
                    None => StyleChain::empty(),
                }
            } else {
                shared
            };
            let span = first_span(&children);
            let body = Content::container(Kind::Flow, children.to_vec()).spanned(span);
            let mut inner: Vec<Content> = Vec::new();
            inner.push(body);
            proof {
                assert(models(inner@) =~= seq![wrap(Kind::Flow, items)]);
            }
            let page = Content::container(Kind::Page, inner).spanned(span);
            let stored = self.scratch.keep(page);
            return self.accept(engine, stored, chosen);
        }
        Ok(())
    }

    /// Hands the content to the innermost builder that takes it.
    fn dispatch(
        &mut self,
        engine: &mut Engine,
        content: &'a Content,
        styles: StyleChain<'a>,
    ) -> (r: Result<(), Error>)
        requires
            old(self).list@.wf(),
        ensures
            agrees(
                r,
                dispatch(
                    old(self).budget as nat,
                    old(self).state(old(engine)),
                    content@,
                    styles@,
                ),
                final(self).state(final(engine)),
            ),
            r is Ok ==> final(self).kept(final(engine), old(self), old(engine)),
        decreases old(self).budget, 10nat, 0nat,
    {
        if self.cites.accept(content, styles) {
            return Ok(());
        }
        match self.interrupt_cites(engine) {
            Err(e) => {
                return Err(e);
            },
            Ok(()) => {},
        }
        if self.list.accept(content, styles) {
            return Ok(());
        }
        match self.interrupt_list(engine) {
            Err(e) => {
                return Err(e);
            },
            Ok(()) => {},
        }
        if self.list.accept(content, styles) {
            return Ok(());
        }
        self.dispatch_block(engine, content, styles)
    }

    /// Hands the content to the paragraph, the flow, or further out.
    fn dispatch_block(
        &mut self,
        engine: &mut Engine,
        content: &'a Content,
        styles: StyleChain<'a>,
    ) -> (r: Result<(), Error>)
        requires
            old(self).list@.wf(),
        ensures
            agrees(
                r,
                dispatch_block(
                    old(self).budget as nat,
                    old(self).state(old(engine)),
                    content@,
                    styles@,
                ),
                final(self).state(final(engine)),
            ),
            r is Ok ==> final(self).kept(final(engine), old(self), old(engine)),
        decreases old(self).budget, 9nat, 0nat,
    {
        if self.par.accept(content, styles) {
            return Ok(());
        }
        match self.interrupt_par(engine) {
            Err(e) => {
                return Err(e);
            },
            Ok(()) => {},
        }
        if self.flow.accept(self.scratch, content, styles) {
            return Ok(());
        }
        self.dispatch_outer(engine, content, styles)
    }

    /// Hands the content to the document.
    fn dispatch_outer(
        &mut self,
        engine: &mut Engine,
        content: &'a Content,
        styles: StyleChain<'a>,
    ) -> (r: Result<(), Error>)
        requires
            old(self).list@.wf(),
        ensures
            agrees(
                r,
                dispatch_outer(
                    old(self).budget as nat,
                    old(self).state(old(engine)),
                    content@,
                    styles@,
                ),
                final(self).state(final(engine)),
            ),
            r is Ok ==> final(self).kept(final(engine), old(self), old(engine)),
        decreases old(self).budget, 8nat, 0nat,
    {
        let keep = content.is(Kind::Pagebreak) && !content.weak(&styles);
        let kept = if keep {
            Some(styles)
        } else {
            None
        };
        match self.interrupt_page(engine, kept, false) {
            Err(e) => {
                return Err(e);
            },
            Ok(()) => {},
        }
        let scratch = self.scratch;
        let taken = match &mut self.doc {
            Some(doc) => doc.accept(scratch, content, styles),
            None => false,
        };
        if taken {
            return Ok(());
        }
        if content.is(Kind::Pagebreak) {
            Err(Error::new(ErrorKind::PagebreakInContainer, content.span))
        } else {
            Err(Error::new(ErrorKind::NotAllowed(content.kind), content.span))
        }
    }
}

/// The model of a chain that may be absent.
pub open spec fn chain_model(styles: Option<StyleChain<'_>>) -> Option<Seq<Seq<StyleV>>> {
    match styles {
        Some(chain) => Some(chain@),
        None => None,
    }
}

} // verus!
