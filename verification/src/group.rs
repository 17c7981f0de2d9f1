//! The builders that cluster a stream of elements: citations into groups,
//! items into lists, inline content into paragraphs, blocks into a flow,
//! and pages into a document.

use vstd::prelude::*;

use crate::behave::{
    first_span, first_span_of, pair_models, styled_children, trunk_of, with_locals, BehavedBuilder,
    BehavedV, StyleVecBuilder,
};
use crate::content::{
    lemma_children_model, models, Capability, Content, ContentV, Fields, Kind, Parity, Span,
};
use crate::element::{leading, leading_in, make_spacing, spacing, LIST_ATTACH_WEAKNESS};
use crate::scratch::Scratch;
use crate::style::{StyleChain, StyleV, Styles};

verus! {

/// A container of the kind around the items: each item under its local
/// styles, with the span of the first visible item that has one.
pub open spec fn wrap(kind: Kind, items: Seq<(ContentV, Seq<Seq<StyleV>>)>) -> ContentV {
    ContentV::container(kind, styled_children(with_locals(items))).spanned(
        first_span_of(with_locals(items)),
    )
}

/// Builds the container of the kind around the items, and gives the chain
/// that they share.
pub fn wrap_items<'a>(kind: Kind, items: StyleVecBuilder<'a>) -> (r: (Content, StyleChain<'a>))
    ensures
        r.0@ == wrap(kind, items@),
        r.1@ == trunk_of(items@),
{
    let (children, shared) = items.finish();
    let span = first_span(&children);
    (Content::container(kind, children.to_vec()).spanned(span), shared)
}

/// The model of a [`DocBuilder`].
pub ghost struct DocV {
    pub pages: Seq<(ContentV, Seq<Seq<StyleV>>)>,
    pub keep_next: bool,
    pub clear_next: Option<Parity>,
}

impl DocV {
    /// The builder before anything is accepted. The very first page is
    /// kept even if it is empty.
    pub open spec fn new() -> DocV {
        DocV { pages: Seq::empty(), keep_next: true, clear_next: None }
    }

    /// The builder after it accepted the content, or nothing if it refuses
    /// it. A pagebreak says whether the next page is kept and to which
    /// parity it is cleared; a page takes the pending parity and is added.
    pub open spec fn accept(self, content: ContentV, styles: Seq<Seq<StyleV>>) -> Option<DocV> {
        if content.kind == Kind::Pagebreak {
            Some(
                DocV {
                    keep_next: !content.weak(styles),
                    clear_next: content.to(styles),
                    ..self
                },
            )
        } else if content.kind == Kind::Page {
            let page = match self.clear_next {
                Some(parity) => ContentV {
                    fields: Fields { parity: Some(parity), ..content.fields },
                    ..content
                },
                None => content,
            };
            Some(
                DocV { pages: self.pages.push((page, styles)), keep_next: false, clear_next: None },
            )
        } else {
            None
        }
    }
}

/// Accepts pagebreaks and pages.
pub struct DocBuilder<'a> {
    /// The page runs built so far.
    pub pages: StyleVecBuilder<'a>,
    /// Whether to keep a following page even if it is empty.
    pub keep_next: bool,
    /// Whether the next page should be cleared to an even or odd number.
    pub clear_next: Option<Parity>,
}

impl<'a> View for DocBuilder<'a> {
    type V = DocV;

    open spec fn view(&self) -> DocV {
        DocV { pages: self.pages@, keep_next: self.keep_next, clear_next: self.clear_next }
    }
}

impl<'a> DocBuilder<'a> {
    /// A builder without pages.
    pub fn new() -> (r: DocBuilder<'a>)
        ensures
            r@ == DocV::new(),
    {
        DocBuilder { pages: StyleVecBuilder::new(), keep_next: true, clear_next: None }
    }

    /// Takes the content if it is a pagebreak or a page, and says whether
    /// it did.
    pub fn accept(
        &mut self,
        scratch: &'a Scratch<'a>,
        content: &'a Content,
        styles: StyleChain<'a>,
    ) -> (r: bool)
        ensures
            r == old(self)@.accept(content@, styles@) is Some,
            r ==> Some(final(self)@) == old(self)@.accept(content@, styles@),
            !r ==> final(self)@ == old(self)@,
    {
        if content.is(Kind::Pagebreak) {
            self.keep_next = !content.weak(&styles);
            self.clear_next = content.to(&styles);
            return true;
        }
        if content.is(Kind::Page) {
            let elem: &'a Content = match self.clear_next {
                Some(parity) => {
                    let mut fields = content.fields;
                    fields.parity = Some(parity);
                    scratch.keep(content.dup().with_fields(fields))
                },
                None => content,
            };
            self.clear_next = None;
            self.pages.push(elem, styles);
            self.keep_next = false;
            return true;
        }
        false
    }
}

impl<'a> Default for DocBuilder<'a> {
    fn default() -> (r: DocBuilder<'a>)
        ensures
            r@ == DocV::new(),
    {
        DocBuilder::new()
    }
}

/// The model of a [`FlowBuilder`].
pub ghost struct FlowV {
    pub builder: BehavedV,
    pub last_was_parbreak: bool,
}

impl FlowV {
    pub open spec fn new() -> FlowV {
        FlowV { builder: BehavedV::new(), last_was_parbreak: false }
    }

    /// Whether a flow takes the content.
    pub open spec fn takes(content: ContentV) -> bool {
        ||| content.kind == Kind::Parbreak
        ||| FlowV::takes_verbatim(content)
        ||| FlowV::takes_block(content)
    }

    /// Spacing, column breaks, metadata and placed elements go into the
    /// flow as they are.
    pub open spec fn takes_verbatim(content: ContentV) -> bool {
        content.kind == Kind::V || content.kind == Kind::Colbreak || content.kind == Kind::Meta
            || content.kind == Kind::Place
    }

    /// Elements that are laid out as blocks, and paragraphs, go into the
    /// flow between spacing.
    pub open spec fn takes_block(content: ContentV) -> bool {
        content.can(Capability::LayoutSingle) || content.can(Capability::LayoutMultiple)
            || content.kind == Kind::Par
    }

    /// The builder after the content was offered. A paragraph break is only
    /// remembered. Anything else clears that memory, also if it is refused.
    /// A block goes in between the spacing above and below it, and a tight
    /// list that follows no paragraph break is attached by a spacing of the
    /// paragraph's leading.
    pub open spec fn accept(self, content: ContentV, styles: Seq<Seq<StyleV>>) -> FlowV {
        if content.kind == Kind::Parbreak {
            FlowV { last_was_parbreak: true, ..self }
        } else if FlowV::takes_verbatim(content) {
            FlowV { builder: self.builder.push(content, styles), last_was_parbreak: false }
        } else if FlowV::takes_block(content) {
            let attached = if !self.last_was_parbreak && content.is_tight_list(styles) {
                self.builder.push(spacing(leading_in(styles), LIST_ATTACH_WEAKNESS), styles)
            } else {
                self.builder
            };
            FlowV {
                builder: attached.push(content.above(styles), styles).push(content, styles).push(
                    content.below(styles),
                    styles,
                ),
                last_was_parbreak: false,
            }
        } else {
            FlowV { last_was_parbreak: false, ..self }
        }
    }
}

/// Accepts flow content.
pub struct FlowBuilder<'a>(pub BehavedBuilder<'a>, pub bool);

impl<'a> View for FlowBuilder<'a> {
    type V = FlowV;

    open spec fn view(&self) -> FlowV {
        FlowV { builder: self.0@, last_was_parbreak: self.1 }
    }
}

impl<'a> FlowBuilder<'a> {
    /// An empty flow.
    pub fn new() -> (r: FlowBuilder<'a>)
        ensures
            r@ == FlowV::new(),
    {
        FlowBuilder(BehavedBuilder::new(), false)
    }

    /// Offers the content to the flow, and says whether the flow took it.
    pub fn accept(
        &mut self,
        scratch: &'a Scratch<'a>,
        content: &'a Content,
        styles: StyleChain<'a>,
    ) -> (r: bool)
        ensures
            r == FlowV::takes(content@),
            final(self)@ == old(self)@.accept(content@, styles@),
    {
        if content.is(Kind::Parbreak) {
            self.1 = true;
            return true;
        }
        let last_was_parbreak = self.1;
        self.1 = false;

        if content.is(Kind::V) || content.is(Kind::Colbreak) || content.is(Kind::Meta)
            || content.is(Kind::Place) {
            self.0.push(content, styles);
            return true;
        }
        if content.can(Capability::LayoutSingle) || content.can(Capability::LayoutMultiple)
            || content.is(Kind::Par) {
            if !last_was_parbreak && content.is_tight_list(&styles) {
                let attach = scratch.keep(make_spacing(leading(&styles), LIST_ATTACH_WEAKNESS));
                self.0.push(attach, styles);
            }
            let above = scratch.keep(content.above(&styles));
            let below = scratch.keep(content.below(&styles));
            self.0.push(above, styles);
            self.0.push(content, styles);
            self.0.push(below, styles);
            return true;
        }
        false
    }
}

impl<'a> Default for FlowBuilder<'a> {
    fn default() -> (r: FlowBuilder<'a>)
        ensures
            r@ == FlowV::new(),
    {
        FlowBuilder::new()
    }
}

/// Whether a paragraph that holds this takes the content: inline content
/// always, metadata only once the paragraph has content that counts.
pub open spec fn par_takes(par: BehavedV, content: ContentV, styles: Seq<Seq<StyleV>>) -> bool {
    if content.kind == Kind::Meta {
        par.has_strong_elements(false)
    } else {
        ||| content.kind == Kind::Space
        ||| content.kind == Kind::Text
        ||| content.kind == Kind::H
        ||| content.kind == Kind::Linebreak
        ||| content.kind == Kind::SmartQuote
        ||| (content.kind == Kind::Equation && !content.block(styles))
        ||| content.kind == Kind::Boxed
    }
}

/// The paragraph after the content was offered.
pub open spec fn par_accept(
    par: BehavedV,
    content: ContentV,
    styles: Seq<Seq<StyleV>>,
) -> BehavedV {
    if par_takes(par, content, styles) {
        par.push(content, styles)
    } else {
        par
    }
}

/// Accepts paragraph content.
pub struct ParBuilder<'a>(pub BehavedBuilder<'a>);

impl<'a> View for ParBuilder<'a> {
    type V = BehavedV;

    open spec fn view(&self) -> BehavedV {
        self.0@
    }
}

impl<'a> ParBuilder<'a> {
    /// An empty paragraph.
    pub fn new() -> (r: ParBuilder<'a>)
        ensures
            r@ == BehavedV::new(),
    {
        ParBuilder(BehavedBuilder::new())
    }

    /// Offers the content to the paragraph, and says whether the paragraph
    /// took it.
    pub fn accept(&mut self, content: &'a Content, styles: StyleChain<'a>) -> (r: bool)
        ensures
            r == par_takes(old(self)@, content@, styles@),
            final(self)@ == par_accept(old(self)@, content@, styles@),
    {
        if content.is(Kind::Meta) {
            if self.0.has_strong_elements(false) {
                self.0.push(content, styles);
                return true;
            }
        } else if content.is(Kind::Space) || content.is(Kind::Text) || content.is(Kind::H)
            || content.is(Kind::Linebreak) || content.is(Kind::SmartQuote) || (content.is(
            Kind::Equation,
        ) && !content.block(&styles)) || content.is(Kind::Boxed) {
            self.0.push(content, styles);
            return true;
        }
        false
    }

    /// The paragraph, and the chain that its children share.
    pub fn finish(self) -> (r: (Content, StyleChain<'a>))
        ensures
            r.0@ == wrap(Kind::Par, self@.finish()),
            r.1@ == trunk_of(self@.finish()),
    {
        let (children, shared) = self.0.finish();
        let span = first_span(&children);
        (Content::container(Kind::Par, children.to_vec()).spanned(span), shared)
    }
}

impl<'a> Default for ParBuilder<'a> {
    fn default() -> (r: ParBuilder<'a>)
        ensures
            r@ == BehavedV::new(),
    {
        ParBuilder::new()
    }
}

/// Whether the kind is that of a list item, an enumeration item or a term
/// item.
pub open spec fn is_item_kind(kind: Kind) -> bool {
    kind == Kind::ListItem || kind == Kind::EnumItem || kind == Kind::TermItem
}

/// The kind of the list that holds items of the kind.
pub open spec fn list_kind(item: Kind) -> Kind {
    if item == Kind::ListItem {
        Kind::List
    } else if item == Kind::EnumItem {
        Kind::Enum
    } else {
        Kind::Terms
    }
}

/// Whether none of the staged entries is a paragraph break.
pub open spec fn no_parbreak(staged: Seq<(ContentV, Seq<Seq<StyleV>>)>) -> bool {
    forall|i: int| 0 <= i < staged.len() ==> (#[trigger] staged[i]).0.kind != Kind::Parbreak
}

/// The item with the local styles pushed down: each of its children stands
/// under them.
pub open spec fn pushed_down(item: ContentV, local: Seq<StyleV>) -> ContentV {
    ContentV {
        children: Seq::new(item.children.len(), |i: int| item.children[i].styled_with_map(local)),
        ..item
    }
}

/// The items of a finished list: each with its local styles pushed down.
pub open spec fn list_items(items: Seq<(ContentV, Seq<StyleV>)>) -> Seq<ContentV> {
    Seq::new(items.len(), |i: int| pushed_down(items[i].0, items[i].1))
}

/// The model of a [`ListBuilder`].
pub ghost struct ListV {
    pub items: Seq<(ContentV, Seq<Seq<StyleV>>)>,
    pub tight: bool,
    pub staged: Seq<(ContentV, Seq<Seq<StyleV>>)>,
}

impl ListV {
    pub open spec fn new() -> ListV {
        ListV { items: Seq::empty(), tight: true, staged: Seq::empty() }
    }

    /// All items are items of one kind.
    pub open spec fn wf(self) -> bool {
        forall|i: int|
            0 <= i < self.items.len() ==> is_item_kind((#[trigger] self.items[i]).0.kind)
                && self.items[i].0.kind == self.items[0].0.kind
    }

    /// Whether the list stages the content: a space or a paragraph break
    /// after an item.
    pub open spec fn stages(self, content: ContentV) -> bool {
        self.items.len() > 0 && (content.kind == Kind::Space || content.kind == Kind::Parbreak)
    }

    /// Whether the list takes the content as an item: it is an item of
    /// the kind of the items that are there.
    pub open spec fn fits(self, content: ContentV) -> bool {
        is_item_kind(content.kind) && (self.items.len() == 0 || self.items[0].0.kind
            == content.kind)
    }

    /// The builder after it accepted the content, or nothing if it refuses
    /// it. With an item the staged entries go, and the list is no longer
    /// tight if one of them was a paragraph break.
    pub open spec fn accept(self, content: ContentV, styles: Seq<Seq<StyleV>>) -> Option<ListV> {
        if self.stages(content) {
            Some(ListV { staged: self.staged.push((content, styles)), ..self })
        } else if self.fits(content) {
            Some(
                ListV {
                    items: self.items.push((content, styles)),
                    tight: self.tight && no_parbreak(self.staged),
                    staged: Seq::empty(),
                },
            )
        } else {
            None
        }
    }

    /// The finished list: a list, enumeration or term list by the kind of
    /// its items, tight or not, with the span of the first item that has
    /// one.
    pub open spec fn product(self) -> ContentV {
        let finished = with_locals(self.items);
        let bare = ContentV::container(list_kind(self.items[0].0.kind), list_items(finished));
        ContentV { fields: Fields { tight: Some(self.tight), ..bare.fields }, ..bare }.spanned(
            first_span_of(finished),
        )
    }
}

/// Accepts list / enum items, spaces, paragraph breaks.
pub struct ListBuilder<'a> {
    /// The list items collected so far.
    pub items: StyleVecBuilder<'a>,
    /// Whether the list contains no paragraph breaks.
    pub tight: bool,
    /// Trailing content for which it is unclear whether it is part of the list.
    pub staged: Vec<(&'a Content, StyleChain<'a>)>,
}

impl<'a> View for ListBuilder<'a> {
    type V = ListV;

    open spec fn view(&self) -> ListV {
        ListV { items: self.items@, tight: self.tight, staged: pair_models(self.staged@) }
    }
}

fn push_down(item: &Content, local: &Styles) -> (r: Content)
    ensures
        r@ == pushed_down(item@, local@),
{
    proof {
        lemma_children_model(item);
    }
    let mut children: Vec<Content> = Vec::new();
    let mut i: usize = 0;
    while i < item.children.len()
        invariant
            i <= item.children.len(),
            children.len() == i,
            item@.children.len() == item.children.len(),
            forall|j: int|
                0 <= j < item.children.len() ==> #[trigger] item@.children[j]
                    == item.children[j]@,
            forall|j: int|
                0 <= j < i ==> children@[j]@ == item.children@[j]@.styled_with_map(local@),
        decreases item.children.len() - i,
    {
        let child = item.children[i].dup().styled_with_map(local.dup());
        children.push(child);
        i += 1;
    }
    let mut r = item.dup();
    r.children = children;
    proof {
        lemma_children_model(&r);
        assert(r@.children =~= pushed_down(item@, local@).children);
    }
    r
}

impl<'a> ListBuilder<'a> {
    /// A builder without items.
    pub fn new() -> (r: ListBuilder<'a>)
        ensures
            r@ == ListV::new(),
            r@.wf(),
    {
        let r = ListBuilder { items: StyleVecBuilder::new(), tight: true, staged: Vec::new() };
        proof {
            assert(pair_models(r.staged@) =~= Seq::empty());
        }
        r
    }

    /// Takes the content if it belongs to the list, and says whether it
    /// did.
    pub fn accept(&mut self, content: &'a Content, styles: StyleChain<'a>) -> (r: bool)
        ensures
            r == old(self)@.accept(content@, styles@) is Some,
            r ==> Some(final(self)@) == old(self)@.accept(content@, styles@),
            !r ==> final(self)@ == old(self)@,
            old(self)@.wf() ==> final(self)@.wf(),
    {
        if !self.items.is_empty() && (content.is(Kind::Space) || content.is(Kind::Parbreak)) {
            self.staged.push((content, styles));
            proof {
                assert(pair_models(self.staged@) =~= pair_models(old(self).staged@).push(
                    (content@, styles@),
                ));
            }
            return true;
        }
        let fits = (content.is(Kind::ListItem) || content.is(Kind::EnumItem) || content.is(
            Kind::TermItem,
        )) && (match self.items.first() {
            Some(first) => first.kind == content.kind,
            None => true,
        });
        if fits {
            let ghost staged = pair_models(self.staged@);
            let mut calm = true;
            let mut i: usize = 0;
            while i < self.staged.len()
                invariant
                    i <= self.staged.len(),
                    staged == pair_models(self.staged@),
                    calm == no_parbreak(staged.take(i as int)),
                decreases self.staged.len() - i,
            {
                assert(staged[i as int].0 == self.staged@[i as int].0@);
                let is_break = self.staged[i].0.is(Kind::Parbreak);
                proof {
                    if is_break {
                        assert(staged.take(i + 1)[i as int].0.kind == Kind::Parbreak);
                    } else if calm {
                        assert forall|j: int| 0 <= j < i + 1 implies (#[trigger] staged.take(
                            i + 1,
                        )[j]).0.kind != Kind::Parbreak by {
                            if j < i {
                                assert(staged.take(i as int)[j] == staged.take(i + 1)[j]);
                            }
                        }
                    } else {
                        let k = choose|k: int|
                            0 <= k < i && (#[trigger] staged.take(i as int)[k]).0.kind
                                == Kind::Parbreak;
                        assert(staged.take(i + 1)[k].0.kind == Kind::Parbreak);
                    }
                }
                calm = calm && !is_break;
                i += 1;
            }
            proof {
                assert(staged.take(self.staged.len() as int) =~= staged);
            }
            self.items.push(content, styles);
            self.tight = self.tight && calm;
            self.staged = Vec::new();
            proof {
                assert(pair_models(self.staged@) =~= Seq::empty());
            }
            return true;
        }
        false
    }

    /// The list, and the chain that its items share.
    pub fn finish(self) -> (r: (Content, StyleChain<'a>))
        requires
            self@.items.len() > 0,
            self@.wf(),
        ensures
            r.0@ == self@.product(),
            r.1@ == trunk_of(self@.items),
    {
        let first_kind = self.items.items[0].0.kind;
        assert(self@.items[0].0.kind == first_kind);
        let (items, shared) = self.items.finish();
        let span = first_span(&items);
        let mut children: Vec<Content> = Vec::new();
        let mut i: usize = 0;
        while i < items.items.len()
            invariant
                i <= items.items.len(),
                children.len() == i,
                forall|j: int|
                    0 <= j < i ==> children@[j]@ == pushed_down(
                        items.items@[j].0@,
                        items.items@[j].1@,
                    ),
            decreases items.items.len() - i,
        {
            let child = push_down(items.items[i].0, &items.items[i].1);
            children.push(child);
            i += 1;
        }
        proof {
            assert(models(children@) =~= list_items(items@));
        }
        let kind = if first_kind == Kind::ListItem {
            Kind::List
        } else if first_kind == Kind::EnumItem {
            Kind::Enum
        } else {
            Kind::Terms
        };
        let bare = Content::container(kind, children);
        let mut fields = bare.fields;
        fields.tight = Some(self.tight);
        (bare.with_fields(fields).spanned(span), shared)
    }
}

impl<'a> Default for ListBuilder<'a> {
    fn default() -> (r: ListBuilder<'a>)
        ensures
            r@ == ListV::new(),
    {
        ListBuilder::new()
    }
}

/// The staged entries that are no spaces, in order.
pub open spec fn without_spaces(staged: Seq<(ContentV, Seq<Seq<StyleV>>)>) -> Seq<
    (ContentV, Seq<Seq<StyleV>>),
>
    decreases staged.len(),
{
    if staged.len() == 0 {
        Seq::empty()
    } else {
        let before = without_spaces(staged.drop_last());
        if staged.last().0.kind == Kind::Space {
            before
        } else {
            before.push(staged.last())
        }
    }
}

/// The model of a [`CiteGroupBuilder`].
pub ghost struct CitesV {
    pub styles: Seq<Seq<StyleV>>,
    pub items: Seq<ContentV>,
    pub staged: Seq<(ContentV, Seq<Seq<StyleV>>)>,
}

impl CitesV {
    pub open spec fn new() -> CitesV {
        CitesV { styles: Seq::empty(), items: Seq::empty(), staged: Seq::empty() }
    }

    /// Whether the group stages the content: a space or metadata after a
    /// citation.
    pub open spec fn stages(self, content: ContentV) -> bool {
        self.items.len() > 0 && (content.kind == Kind::Space || content.kind == Kind::Meta)
    }

    /// The builder after it accepted the content, or nothing if it refuses
    /// it. The first citation brings the styles of the group, and every
    /// citation absorbs the staged spaces.
    pub open spec fn accept(self, content: ContentV, styles: Seq<Seq<StyleV>>) -> Option<CitesV> {
        if self.stages(content) {
            Some(CitesV { staged: self.staged.push((content, styles)), ..self })
        } else if content.kind == Kind::Cite {
            Some(
                CitesV {
                    styles: if self.items.len() == 0 {
                        styles
                    } else {
                        self.styles
                    },
                    items: self.items.push(content),
                    staged: without_spaces(self.staged),
                },
            )
        } else {
            None
        }
    }

    /// The finished group: the citations in order, with the span of the
    /// first.
    pub open spec fn product(self) -> ContentV {
        ContentV::container(Kind::CiteGroup, self.items).spanned(
            if self.items.len() > 0 {
                self.items[0].span
            } else {
                Span(0)
            },
        )
    }
}

/// The models of borrowed content.
pub open spec fn ref_models(items: Seq<&Content>) -> Seq<ContentV> {
    Seq::new(items.len(), |i: int| items[i]@)
}

/// Accepts citations.
pub struct CiteGroupBuilder<'a> {
    /// The styles.
    pub styles: StyleChain<'a>,
    /// The citations.
    pub items: Vec<&'a Content>,
    /// Trailing content for which it is unclear whether it is part of the list.
    pub staged: Vec<(&'a Content, StyleChain<'a>)>,
}

impl<'a> View for CiteGroupBuilder<'a> {
    type V = CitesV;

    open spec fn view(&self) -> CitesV {
        CitesV {
            styles: self.styles@,
            items: ref_models(self.items@),
            staged: pair_models(self.staged@),
        }
    }
}

impl<'a> CiteGroupBuilder<'a> {
    /// A builder without citations.
    pub fn new() -> (r: CiteGroupBuilder<'a>)
        ensures
            r@ == CitesV::new(),
    {
        let r = CiteGroupBuilder {
            styles: StyleChain::empty(),
            items: Vec::new(),
            staged: Vec::new(),
        };
        proof {
            assert(pair_models(r.staged@) =~= Seq::empty());
            assert(ref_models(r.items@) =~= Seq::empty());
        }
        r
    }

    /// Takes the content if it belongs to the group, and says whether it
    /// did.
    pub fn accept(&mut self, content: &'a Content, styles: StyleChain<'a>) -> (r: bool)
        ensures
            r == old(self)@.accept(content@, styles@) is Some,
            r ==> Some(final(self)@) == old(self)@.accept(content@, styles@),
            !r ==> final(self)@ == old(self)@,
    {
        if self.items.len() > 0 && (content.is(Kind::Space) || content.is(Kind::Meta)) {
            self.staged.push((content, styles));
            proof {
                assert(pair_models(self.staged@) =~= pair_models(old(self).staged@).push(
                    (content@, styles@),
                ));
            }
            return true;
        }
        if content.is(Kind::Cite) {
            if self.items.len() == 0 {
                self.styles = styles;
            }
            let ghost staged = pair_models(self.staged@);
            let mut kept: Vec<(&'a Content, StyleChain<'a>)> = Vec::new();
            let mut i: usize = 0;
            proof {
                assert(pair_models(kept@) =~= without_spaces(staged.take(0)));
            }
            while i < self.staged.len()
                invariant
                    i <= self.staged.len(),
                    staged == pair_models(self.staged@),
                    pair_models(kept@) == without_spaces(staged.take(i as int)),
                decreases self.staged.len() - i,
            {
                proof {
                    assert(staged.take(i + 1).drop_last() =~= staged.take(i as int));
                    assert(staged.take(i + 1).last() == staged[i as int]);
                    assert(staged[i as int] == (
                        self.staged@[i as int].0@,
                        self.staged@[i as int].1@,
                    ));
                }
                if !self.staged[i].0.is(Kind::Space) {
                    let ghost before = pair_models(kept@);
                    kept.push(self.staged[i]);
                    proof {
                        assert(pair_models(kept@) =~= before.push(staged[i as int]));
                    }
                }
                i += 1;
            }
            proof {
                assert(staged.take(self.staged.len() as int) =~= staged);
            }
            self.staged = kept;
            let ghost items = ref_models(self.items@);
            self.items.push(content);
            proof {
                assert(ref_models(self.items@) =~= items.push(content@));
            }
            return true;
        }
        false
    }

    /// The citation group, and the styles of its first citation.
    pub fn finish(self) -> (r: (Content, StyleChain<'a>))
        ensures
            r.0@ == self@.product(),
            r.1@ == self@.styles,
    {
        let span = if self.items.len() > 0 {
            self.items[0].span
        } else {
            Span::detached()
        };
        let mut children: Vec<Content> = Vec::new();
        let mut i: usize = 0;
        while i < self.items.len()
            invariant
                i <= self.items.len(),
                children.len() == i,
                forall|j: int| 0 <= j < i ==> children@[j]@ == self.items@[j]@,
            decreases self.items.len() - i,
        {
            children.push(self.items[i].dup());
            i += 1;
        }
        proof {
            assert(models(children@) =~= ref_models(self.items@));
        }
        (Content::container(Kind::CiteGroup, children).spanned(span), self.styles)
    }
}

impl<'a> Default for CiteGroupBuilder<'a> {
    fn default() -> (r: CiteGroupBuilder<'a>)
        ensures
            r@ == CitesV::new(),
    {
        CiteGroupBuilder::new()
    }
}

} // verus!
