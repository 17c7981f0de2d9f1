//! Sequences of styled content whose elements interact: weak elements
//! collapse, and each element keeps the styles it does not share with the
//! others.

use vstd::prelude::*;

use crate::content::{models, Behaviour, Content, ContentV, Span};
use crate::style::{common, local_of, StyleChain, StyleV, Styles};

verus! {

/// The models of content with the chains it stands under.
pub open spec fn pair_models<'a>(items: Seq<(&'a Content, StyleChain<'a>)>) -> Seq<
    (ContentV, Seq<Seq<StyleV>>),
> {
    Seq::new(items.len(), |i: int| (items[i].0@, items[i].1@))
}

/// The models of staged content with its behaviour and chain.
pub open spec fn staged_models<'a>(items: Seq<(&'a Content, Behaviour, StyleChain<'a>)>) -> Seq<
    (ContentV, Behaviour, Seq<Seq<StyleV>>),
> {
    Seq::new(items.len(), |i: int| (items[i].0@, items[i].1, items[i].2@))
}

/// The models of content with its local styles.
pub open spec fn local_models<'a>(items: Seq<(&'a Content, Styles)>) -> Seq<
    (ContentV, Seq<StyleV>),
> {
    Seq::new(items.len(), |i: int| (items[i].0@, items[i].1@))
}

/// The chain that all the items share: what is common to the chains of all
/// of them.
pub open spec fn trunk_of(items: Seq<(ContentV, Seq<Seq<StyleV>>)>) -> Seq<Seq<StyleV>>
    decreases items.len(),
{
    if items.len() == 0 {
        Seq::empty()
    } else if items.len() == 1 {
        items[0].1
    } else {
        common(trunk_of(items.drop_last()), items.last().1)
    }
}

/// Each item with the styles that it has beyond the shared chain.
pub open spec fn with_locals(items: Seq<(ContentV, Seq<Seq<StyleV>>)>) -> Seq<
    (ContentV, Seq<StyleV>),
> {
    Seq::new(items.len(), |i: int| (items[i].0, local_of(items[i].1, trunk_of(items))))
}

/// Each item under its local styles.
pub open spec fn styled_children(items: Seq<(ContentV, Seq<StyleV>)>) -> Seq<ContentV> {
    Seq::new(items.len(), |i: int| items[i].0.styled_with_map(items[i].1))
}

/// Whether the element shows in the output.
pub open spec fn is_visible(c: ContentV) -> bool {
    c.behaviour() != Behaviour::Invisible
}

/// The span of the first visible item from position `i` on that has one.
pub open spec fn first_span_from(items: Seq<(ContentV, Seq<StyleV>)>, i: int) -> Span
    decreases items.len() - i,
{
    if i < 0 || i >= items.len() {
        Span(0)
    } else if is_visible(items[i].0) && !items[i].0.span.is_detached_spec() {
        items[i].0.span
    } else {
        first_span_from(items, i + 1)
    }
}

/// The span of the first visible item that has one, else the detached span.
pub open spec fn first_span_of(items: Seq<(ContentV, Seq<StyleV>)>) -> Span {
    first_span_from(items, 0)
}

/// A sequence of content in which each item has the styles that it does not
/// share with the others.
#[derive(Debug)]
pub struct StyleVec<'a> {
    pub items: Vec<(&'a Content, Styles)>,
}

impl<'a> View for StyleVec<'a> {
    type V = Seq<(ContentV, Seq<StyleV>)>;

    open spec fn view(&self) -> Seq<(ContentV, Seq<StyleV>)> {
        local_models(self.items@)
    }
}

impl<'a> StyleVec<'a> {
    /// Whether there is no item.
    pub fn is_empty(&self) -> (r: bool)
        ensures
            r == (self@.len() == 0),
    {
        self.items.len() == 0
    }

    /// The items, each under its local styles.
    pub fn to_vec(&self) -> (r: Vec<Content>)
        ensures
            models(r@) == styled_children(self@),
    {
        let mut out: Vec<Content> = Vec::new();
        let mut i: usize = 0;
        while i < self.items.len()
            invariant
                i <= self.items.len(),
                out.len() == i,
                forall|j: int|
                    0 <= j < i ==> out@[j]@ == self.items@[j].0@.styled_with_map(self.items@[j].1@),
            decreases self.items.len() - i,
        {
            let child = self.items[i].0.dup().styled_with_map(self.items[i].1.dup());
            out.push(child);
            i += 1;
        }
        proof {
            assert(models(out@) =~= styled_children(self@));
        }
        out
    }
}

/// Find the first span that isn't detached.
pub fn first_span(children: &StyleVec<'_>) -> (r: Span)
    ensures
        r == first_span_of(children@),
{
    let mut i: usize = 0;
    while i < children.items.len()
        invariant
            i <= children.items.len(),
            first_span_of(children@) == first_span_from(children@, i as int),
        decreases children.items.len() - i,
    {
        let elem = children.items[i].0;
        assert(children@[i as int].0 == elem@);
        if elem.behaviour() != Behaviour::Invisible && !elem.span.is_detached() {
            return elem.span;
        }
        i += 1;
    }
    Span::detached()
}

/// Collects content with the chains it stands under.
#[derive(Debug)]
pub struct StyleVecBuilder<'a> {
    pub items: Vec<(&'a Content, StyleChain<'a>)>,
}

impl<'a> View for StyleVecBuilder<'a> {
    type V = Seq<(ContentV, Seq<Seq<StyleV>>)>;

    open spec fn view(&self) -> Seq<(ContentV, Seq<Seq<StyleV>>)> {
        pair_models(self.items@)
    }
}

impl<'a> StyleVecBuilder<'a> {
    /// A builder without items.
    pub fn new() -> (r: StyleVecBuilder<'a>)
        ensures
            r@ == Seq::<(ContentV, Seq<Seq<StyleV>>)>::empty(),
    {
        let r = StyleVecBuilder { items: Vec::new() };
        proof {
            assert(r@ =~= Seq::empty());
        }
        r
    }

    /// Whether there is no item.
    pub fn is_empty(&self) -> (r: bool)
        ensures
            r == (self@.len() == 0),
    {
        self.items.len() == 0
    }

    /// Adds an item under its chain.
    pub fn push(&mut self, content: &'a Content, styles: StyleChain<'a>)
        ensures
            final(self)@ == old(self)@.push((content@, styles@)),
    {
        self.items.push((content, styles));
        proof {
            assert(self@ =~= old(self)@.push((content@, styles@)));
        }
    }

    /// The first item.
    pub fn first(&self) -> (r: Option<&'a Content>)
        ensures
            r is Some == (self@.len() > 0),
            r matches Some(c) ==> c@ == self@[0].0,
    {
        if self.items.len() > 0 {
            Some(self.items[0].0)
        } else {
            None
        }
    }

    /// The chain that all the items share.
    pub fn trunk(&self) -> (r: StyleChain<'a>)
        ensures
            r@ == trunk_of(self@),
    {
        if self.items.len() == 0 {
            return StyleChain::empty();
        }
        let mut trunk: StyleChain<'a> = self.items[0].1;
        let mut i: usize = 1;
        proof {
            assert(self@.take(1).len() == 1);
        }
        while i < self.items.len()
            invariant
                1 <= i <= self.items.len(),
                trunk@ == trunk_of(self@.take(i as int)),
            decreases self.items.len() - i,
        {
            proof {
                assert(self@.take(i + 1).drop_last() =~= self@.take(i as int));
                assert(self@.take(i + 1).last() == self@[i as int]);
            }
            trunk = trunk.common(&self.items[i].1);
            i += 1;
        }
        proof {
            assert(self@.take(self.items.len() as int) =~= self@);
        }
        trunk
    }

    /// The items with their local styles, and the chain that they share.
    pub fn finish(self) -> (r: (StyleVec<'a>, StyleChain<'a>))
        ensures
            r.0@ == with_locals(self@),
            r.1@ == trunk_of(self@),
    {
        let trunk = self.trunk();
        let mut out: Vec<(&'a Content, Styles)> = Vec::new();
        let mut i: usize = 0;
        while i < self.items.len()
            invariant
                i <= self.items.len(),
                out.len() == i,
                trunk@ == trunk_of(self@),
                forall|j: int|
                    0 <= j < i ==> out@[j].0@ == self.items@[j].0@ && out@[j].1@ == local_of(
                        self.items@[j].1@,
                        trunk@,
                    ),
            decreases self.items.len() - i,
        {
            let local = self.items[i].1.local(&trunk);
            out.push((self.items[i].0, local));
            i += 1;
        }
        let vec = StyleVec { items: out };
        proof {
            assert(vec@ =~= with_locals(self@));
        }
        (vec, trunk)
    }
}

/// The model of a [`BehavedBuilder`].
pub ghost struct BehavedV {
    /// The items that are settled.
    pub items: Seq<(ContentV, Seq<Seq<StyleV>>)>,
    /// The weak and non-interacting items that are not settled yet.
    pub staged: Seq<(ContentV, Behaviour, Seq<Seq<StyleV>>)>,
    /// The behaviour of the last item that interacts.
    pub last: Behaviour,
}

/// Whether a new weak element of the level replaces the staged entry: the
/// entry is weak, and its level is higher, or the same while the new
/// element is larger.
pub open spec fn outweighs(
    elem: ContentV,
    level: usize,
    entry: (ContentV, Behaviour, Seq<Seq<StyleV>>),
) -> bool {
    match entry.1 {
        Behaviour::Weak(prev) => level < prev || (level == prev && elem.larger(entry.0)),
        _ => false,
    }
}

/// The position of the first staged entry from `i` on that the new weak
/// element replaces.
pub open spec fn first_outweighed(
    staged: Seq<(ContentV, Behaviour, Seq<Seq<StyleV>>)>,
    elem: ContentV,
    level: usize,
    i: int,
) -> Option<int>
    decreases staged.len() - i,
{
    if i < 0 || i >= staged.len() {
        None
    } else if outweighs(elem, level, staged[i]) {
        Some(i)
    } else {
        first_outweighed(staged, elem, level, i + 1)
    }
}

/// Whether a staged entry is kept when the staged entries are settled:
/// weak entries only next to a supportive element.
pub open spec fn is_kept(behaviour: Behaviour, supportive: bool) -> bool {
    supportive || behaviour == Behaviour::Strong || behaviour == Behaviour::Invisible
}

/// The staged entries that are kept, in order.
pub open spec fn kept(
    staged: Seq<(ContentV, Behaviour, Seq<Seq<StyleV>>)>,
    supportive: bool,
) -> Seq<(ContentV, Seq<Seq<StyleV>>)>
    decreases staged.len(),
{
    if staged.len() == 0 {
        Seq::empty()
    } else {
        let before = kept(staged.drop_last(), supportive);
        if is_kept(staged.last().1, supportive) {
            before.push((staged.last().0, staged.last().2))
        } else {
            before
        }
    }
}

/// Whether a staged entry counts as content: it is neither weak nor
/// invisible, or it is invisible and stands at the very end.
pub open spec fn counts(behaviour: Behaviour, last: bool) -> bool {
    !(behaviour is Weak || behaviour == Behaviour::Invisible) || (last && behaviour
        == Behaviour::Invisible)
}

/// Whether any staged entry up to position `n` counts as content.
pub open spec fn any_counts(
    staged: Seq<(ContentV, Behaviour, Seq<Seq<StyleV>>)>,
    last: bool,
    n: int,
) -> bool {
    exists|i: int| 0 <= i < n && i < staged.len() && counts(#[trigger] staged[i].1, last)
}

impl BehavedV {
    /// The builder before anything is pushed. It starts as if after a
    /// destructive element, so that weak elements at the start are dropped.
    pub open spec fn new() -> BehavedV {
        BehavedV { items: Seq::empty(), staged: Seq::empty(), last: Behaviour::Destructive }
    }

    pub open spec fn is_empty(self) -> bool {
        self.items.len() == 0 && self.staged.len() == 0
    }

    /// Whether the builder holds more than weak elements that will
    /// probably collapse.
    pub open spec fn has_strong_elements(self, last: bool) -> bool {
        self.items.len() > 0 || any_counts(self.staged, last, self.staged.len() as int)
    }

    /// The builder with its staged entries settled.
    pub open spec fn flushed(self, supportive: bool) -> BehavedV {
        BehavedV { items: self.items + kept(self.staged, supportive), staged: Seq::empty(), ..self }
    }

    /// The builder after a weak element of the level arrived.
    pub open spec fn push_weak(
        self,
        elem: ContentV,
        level: usize,
        styles: Seq<Seq<StyleV>>,
    ) -> BehavedV {
        if self.last is Weak && first_outweighed(self.staged, elem, level, 0) is None {
            self
        } else {
            let staged = if self.last is Weak {
                self.staged.remove(first_outweighed(self.staged, elem, level, 0).unwrap())
            } else {
                self.staged
            };
            if self.last != Behaviour::Destructive {
                BehavedV {
                    staged: staged.push((elem, Behaviour::Weak(level), styles)),
                    last: Behaviour::Weak(level),
                    ..self
                }
            } else {
                BehavedV { staged, ..self }
            }
        }
    }

    /// The builder after the element arrived.
    pub open spec fn push(self, elem: ContentV, styles: Seq<Seq<StyleV>>) -> BehavedV {
        match elem.behaviour() {
            Behaviour::Weak(level) => self.push_weak(elem, level, styles),
            Behaviour::Supportive => {
                let settled = self.flushed(true);
                BehavedV {
                    items: settled.items.push((elem, styles)),
                    last: Behaviour::Supportive,
                    ..settled
                }
            },
            Behaviour::Destructive => {
                let settled = self.flushed(false);
                BehavedV {
                    items: settled.items.push((elem, styles)),
                    last: Behaviour::Destructive,
                    ..settled
                }
            },
            other => BehavedV { staged: self.staged.push((elem, other, styles)), ..self },
        }
    }

    /// The items when the builder is finished: weak elements at the end
    /// are dropped.
    pub open spec fn finish(self) -> Seq<(ContentV, Seq<Seq<StyleV>>)> {
        self.flushed(false).items
    }
}

/// Builds a sequence in which the elements interact by their behaviour.
#[derive(Debug)]
pub struct BehavedBuilder<'a> {
    /// The items that are settled.
    pub builder: StyleVecBuilder<'a>,
    /// The weak and non-interacting items that are not settled yet.
    pub staged: Vec<(&'a Content, Behaviour, StyleChain<'a>)>,
    /// The behaviour of the last item that interacts.
    pub last: Behaviour,
}

impl<'a> View for BehavedBuilder<'a> {
    type V = BehavedV;

    open spec fn view(&self) -> BehavedV {
        BehavedV { items: self.builder@, staged: staged_models(self.staged@), last: self.last }
    }
}

impl<'a> BehavedBuilder<'a> {
    /// Create a new builder.
    pub fn new() -> (r: BehavedBuilder<'a>)
        ensures
            r@ == BehavedV::new(),
    {
        let r = BehavedBuilder {
            builder: StyleVecBuilder::new(),
            staged: Vec::new(),
            last: Behaviour::Destructive,
        };
        proof {
            assert(staged_models(r.staged@) =~= Seq::empty());
        }
        r
    }

    /// Whether the builder is totally empty.
    pub fn is_empty(&self) -> (r: bool)
        ensures
            r == self@.is_empty(),
    {
        self.builder.is_empty() && self.staged.len() == 0
    }

    /// Whether the builder holds more than weak elements that will
    /// probably collapse.
    pub fn has_strong_elements(&self, last: bool) -> (r: bool)
        ensures
            r == self@.has_strong_elements(last),
    {
        if !self.builder.is_empty() {
            return true;
        }
        let ghost staged = staged_models(self.staged@);
        let mut i: usize = 0;
        while i < self.staged.len()
            invariant
                i <= self.staged.len(),
                staged == staged_models(self.staged@),
                !any_counts(staged, last, i as int),
            decreases self.staged.len() - i,
        {
            let behaviour = self.staged[i].1;
            assert(staged[i as int].1 == behaviour);
            let weak = match behaviour {
                Behaviour::Weak(_) => true,
                _ => false,
            };
            let invisible = behaviour == Behaviour::Invisible;
            if !(weak || invisible) || (last && invisible) {
                assert(any_counts(staged, last, staged.len() as int));
                return true;
            }
            i += 1;
        }
        false
    }

    /// Settles the staged entries, dropping the weak ones unless
    /// `supportive` is set.
    fn flush(&mut self, supportive: bool)
        ensures
            final(self)@ == old(self)@.flushed(supportive),
    {
        let ghost staged = staged_models(self.staged@);
        let ghost before = self.builder@;
        let mut i: usize = 0;
        proof {
            assert(before + kept(staged.take(0), supportive) =~= before);
        }
        while i < self.staged.len()
            invariant
                i <= self.staged.len(),
                self.staged == old(self).staged,
                self.last == old(self).last,
                staged == staged_models(self.staged@),
                self.builder@ == before + kept(staged.take(i as int), supportive),
            decreases self.staged.len() - i,
        {
            let entry = self.staged[i];
            proof {
                assert(staged.take(i + 1).drop_last() =~= staged.take(i as int));
                assert(staged.take(i + 1).last() == staged[i as int]);
                assert(staged[i as int] == (entry.0@, entry.1, entry.2@));
            }
            if supportive || entry.1 == Behaviour::Strong || entry.1 == Behaviour::Invisible {
                self.builder.push(entry.0, entry.2);
                proof {
                    assert(self.builder@ =~= before + kept(staged.take(i + 1), supportive));
                }
            }
            i += 1;
        }
        proof {
            assert(staged.take(self.staged.len() as int) =~= staged);
        }
        self.staged = Vec::new();
        proof {
            assert(staged_models(self.staged@) =~= Seq::empty());
        }
    }

    /// Push an item into the sequence.
    pub fn push(&mut self, elem: &'a Content, styles: StyleChain<'a>)
        ensures
            final(self)@ == old(self)@.push(elem@, styles@),
    {
        let interaction = elem.behaviour();
        match interaction {
            Behaviour::Weak(level) => {
                let last_weak = match self.last {
                    Behaviour::Weak(_) => true,
                    _ => false,
                };
                if last_weak {
                    let ghost staged = staged_models(self.staged@);
                    let mut found: Option<usize> = None;
                    let mut i: usize = 0;
                    while i < self.staged.len() && found.is_none()
                        invariant
                            i <= self.staged.len(),
                            *self == *old(self),
                            staged == staged_models(self.staged@),
                            found is None ==> first_outweighed(staged, elem@, level, 0)
                                == first_outweighed(staged, elem@, level, i as int),
                            found matches Some(k) ==> k < self.staged.len() && first_outweighed(
                                staged,
                                elem@,
                                level,
                                0,
                            ) == Some(k as int),
                        decreases self.staged.len() - i + (if found is None { 1int } else { 0int }),
                    {
                        assert(staged[i as int] == (
                            self.staged@[i as int].0@,
                            self.staged@[i as int].1,
                            self.staged@[i as int].2@,
                        ));
                        let hit = match self.staged[i].1 {
                            Behaviour::Weak(prev) => level < prev || (level == prev && elem.larger(
                                self.staged[i].0,
                            )),
                            _ => false,
                        };
                        if hit {
                            found = Some(i);
                        } else {
                            i += 1;
                        }
                    }
                    match found {
                        None => {
                            return ;
                        },
                        Some(k) => {
                            self.staged.remove(k);
                            proof {
                                assert(staged_models(self.staged@) =~= staged.remove(k as int));
                            }
                        },
                    }
                }
                if self.last != Behaviour::Destructive {
                    let ghost staged = staged_models(self.staged@);
                    self.staged.push((elem, interaction, styles));
                    self.last = interaction;
                    proof {
                        assert(staged_models(self.staged@) =~= staged.push(
                            (elem@, interaction, styles@),
                        ));
                    }
                }
            },
            Behaviour::Supportive => {
                self.flush(true);
                self.builder.push(elem, styles);
                self.last = interaction;
            },
            Behaviour::Destructive => {
                self.flush(false);
                self.builder.push(elem, styles);
                self.last = interaction;
            },
            _ => {
                let ghost staged = staged_models(self.staged@);
                self.staged.push((elem, interaction, styles));
                proof {
                    assert(staged_models(self.staged@) =~= staged.push(
                        (elem@, interaction, styles@),
                    ));
                }
            },
        }
    }

    /// The finished items under their chains.
    pub fn finish_items(self) -> (r: StyleVecBuilder<'a>)
        ensures
            r@ == self@.finish(),
    {
        let mut this = self;
        this.flush(false);
        this.builder
    }

    /// Return the finished items and the chain that they share.
    pub fn finish(self) -> (r: (StyleVec<'a>, StyleChain<'a>))
        ensures
            r.0@ == with_locals(self@.finish()),
            r.1@ == trunk_of(self@.finish()),
    {
        let mut this = self;
        this.flush(false);
        this.builder.finish()
    }
}

} // verus!
