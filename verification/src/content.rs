//! The content tree: element kinds, their capabilities and the node type.

use vstd::prelude::*;

use crate::style::{lemma_styles_model, StyleV, Styles};

verus! {

/// The kind of a content node: one per element, plus sequences and styled
/// nodes.
#[derive(Clone, Copy, Debug, PartialEq, Eq, Hash, Structural)]
pub enum Kind {
    Text,
    Space,
    Linebreak,
    SmartQuote,
    H,
    V,
    Parbreak,
    Colbreak,
    Pagebreak,
    Meta,
    Place,
    Boxed,
    Block,
    Align,
    Par,
    Flow,
    Page,
    Document,
    Heading,
    List,
    Enum,
    Terms,
    ListItem,
    EnumItem,
    TermItem,
    Equation,
    Math,
    Cite,
    CiteGroup,
    Sequence,
    Styled,
}

/// What an element kind can take part in.
#[derive(Clone, Copy, Debug, PartialEq, Eq, Hash, Structural)]
pub enum Capability {
    Show,
    ShowSet,
    Synthesize,
    Locatable,
    Behave,
    LayoutSingle,
    LayoutMultiple,
    LayoutMath,
}

impl Kind {
    /// The static capability table.
    pub open spec fn can_spec(self, cap: Capability) -> bool {
        match cap {
            Capability::Show => self == Kind::Heading || self == Kind::CiteGroup,
            Capability::ShowSet => self == Kind::Heading,
            Capability::Synthesize => self == Kind::Heading || self == Kind::Equation,
            Capability::Locatable => self == Kind::Heading || self == Kind::Equation
                || self == Kind::Cite || self == Kind::CiteGroup,
            Capability::Behave => self == Kind::Space || self == Kind::Linebreak
                || self == Kind::H || self == Kind::V || self == Kind::Colbreak
                || self == Kind::Meta || self == Kind::Place,
            Capability::LayoutSingle => self == Kind::Equation,
            Capability::LayoutMultiple => self == Kind::Block || self == Kind::List
                || self == Kind::Enum || self == Kind::Terms || self == Kind::Flow,
            Capability::LayoutMath => self == Kind::Equation || self == Kind::Math,
        }
    }

    /// Whether elements of this kind have the capability.
    #[verifier::when_used_as_spec(can_spec)]
    pub fn can(self, cap: Capability) -> (r: bool)
        ensures
            r == self.can_spec(cap),
    {
        match cap {
            Capability::Show => self == Kind::Heading || self == Kind::CiteGroup,
            Capability::ShowSet => self == Kind::Heading,
            Capability::Synthesize => self == Kind::Heading || self == Kind::Equation,
            Capability::Locatable => self == Kind::Heading || self == Kind::Equation
                || self == Kind::Cite || self == Kind::CiteGroup,
            Capability::Behave => self == Kind::Space || self == Kind::Linebreak
                || self == Kind::H || self == Kind::V || self == Kind::Colbreak
                || self == Kind::Meta || self == Kind::Place,
            Capability::LayoutSingle => self == Kind::Equation,
            Capability::LayoutMultiple => self == Kind::Block || self == Kind::List
                || self == Kind::Enum || self == Kind::Terms || self == Kind::Flow,
            Capability::LayoutMath => self == Kind::Equation || self == Kind::Math,
        }
    }

    pub open spec fn name_spec(self) -> Seq<char> {
        match self {
            Kind::Text => "text"@,
            Kind::Space => "space"@,
            Kind::Linebreak => "linebreak"@,
            Kind::SmartQuote => "smartquote"@,
            Kind::H => "h"@,
            Kind::V => "v"@,
            Kind::Parbreak => "parbreak"@,
            Kind::Colbreak => "colbreak"@,
            Kind::Pagebreak => "pagebreak"@,
            Kind::Meta => "meta"@,
            Kind::Place => "place"@,
            Kind::Boxed => "box"@,
            Kind::Block => "block"@,
            Kind::Align => "align"@,
            Kind::Par => "par"@,
            Kind::Flow => "flow"@,
            Kind::Page => "page"@,
            Kind::Document => "document"@,
            Kind::Heading => "heading"@,
            Kind::List => "list"@,
            Kind::Enum => "enum"@,
            Kind::Terms => "terms"@,
            Kind::ListItem => "item"@,
            Kind::EnumItem => "item"@,
            Kind::TermItem => "item"@,
            Kind::Equation => "equation"@,
            Kind::Math => "math"@,
            Kind::Cite => "cite"@,
            Kind::CiteGroup => "cite-group"@,
            Kind::Sequence => "sequence"@,
            Kind::Styled => "styled"@,
        }
    }

    /// The name under which the kind appears in messages.
    pub fn name(self) -> (r: &'static str)
        ensures
            r@ == self.name_spec(),
    {
        match self {
            Kind::Text => "text",
            Kind::Space => "space",
            Kind::Linebreak => "linebreak",
            Kind::SmartQuote => "smartquote",
            Kind::H => "h",
            Kind::V => "v",
            Kind::Parbreak => "parbreak",
            Kind::Colbreak => "colbreak",
            Kind::Pagebreak => "pagebreak",
            Kind::Meta => "meta",
            Kind::Place => "place",
            Kind::Boxed => "box",
            Kind::Block => "block",
            Kind::Align => "align",
            Kind::Par => "par",
            Kind::Flow => "flow",
            Kind::Page => "page",
            Kind::Document => "document",
            Kind::Heading => "heading",
            Kind::List => "list",
            Kind::Enum => "enum",
            Kind::Terms => "terms",
            Kind::ListItem => "item",
            Kind::EnumItem => "item",
            Kind::TermItem => "item",
            Kind::Equation => "equation",
            Kind::Math => "math",
            Kind::Cite => "cite",
            Kind::CiteGroup => "cite-group",
            Kind::Sequence => "sequence",
            Kind::Styled => "styled",
        }
    }
}

/// A place in the source. The number 0 stands for no place at all.
#[derive(Clone, Copy, Debug, PartialEq, Eq, Hash, Structural)]
pub struct Span(pub u64);

impl Span {
    pub open spec fn detached_spec() -> Span {
        Span(0)
    }

    /// The span that points nowhere.
    #[verifier::when_used_as_spec(detached_spec)]
    pub fn detached() -> (r: Span)
        ensures
            r == Span(0),
    {
        Span(0)
    }

    pub open spec fn is_detached_spec(self) -> bool {
        self.0 == 0
    }

    /// Whether the span points nowhere.
    #[verifier::when_used_as_spec(is_detached_spec)]
    pub fn is_detached(self) -> (r: bool)
        ensures
            r == (self.0 == 0),
    {
        self.0 == 0
    }
}

/// A label attached to an element.
#[derive(Clone, Copy, Debug, PartialEq, Eq, Hash, Structural)]
pub struct Label(pub u64);

/// Marks an element as already rewritten by the recipe with this depth index.
#[derive(Clone, Copy, Debug, PartialEq, Eq, Hash, Structural)]
pub struct Guard(pub usize);

/// Identifies an element in the document: the hash of its state when it was
/// located, and how many elements with that hash were located before it.
#[derive(Clone, Copy, Debug, PartialEq, Eq, Hash, Structural)]
pub struct Location {
    pub hash: u128,
    pub disambiguator: usize,
}

/// Whether a page number is even or odd.
#[derive(Clone, Copy, Debug, PartialEq, Eq, Hash, Structural)]
pub enum Parity {
    Even,
    Odd,
}

/// The fields that elements set on themselves. A field that is `None` is
/// resolved through the style chain. Lengths are in thousandths of an em.
#[derive(Clone, Copy, Debug, PartialEq, Eq, Hash, Structural)]
pub struct Fields {
    /// Pagebreak, horizontal spacing, column break: whether it is weak.
    pub weak: Option<bool>,
    /// Pagebreak: the parity to skip to. Page: the parity to clear to.
    pub parity: Option<Parity>,
    /// List, enum, terms: whether the items stand close together.
    pub tight: Option<bool>,
    /// Equation: whether it is set as a block.
    pub block: Option<bool>,
    /// Block: the spacing above it.
    pub above: Option<i64>,
    /// Block: the spacing below it.
    pub below: Option<i64>,
    /// Paragraph: the spacing between lines.
    pub leading: Option<i64>,
    /// Spacing: its amount.
    pub amount: i64,
    /// Vertical spacing: how weak it is; 0 is not weak at all.
    pub weakness: usize,
    /// Heading: its level.
    pub level: Option<usize>,
}

impl Fields {
    pub open spec fn unset_spec() -> Fields {
        Fields {
            weak: None,
            parity: None,
            tight: None,
            block: None,
            above: None,
            below: None,
            leading: None,
            amount: 0,
            weakness: 0,
            level: None,
        }
    }

    /// No field set.
    #[verifier::when_used_as_spec(unset_spec)]
    pub fn unset() -> (r: Fields)
        ensures
            r == Fields::unset_spec(),
    {
        Fields {
            weak: None,
            parity: None,
            tight: None,
            block: None,
            above: None,
            below: None,
            leading: None,
            amount: 0,
            weakness: 0,
            level: None,
        }
    }
}

/// A node of the content tree.
///
/// Every node has a kind, a span, an optional label and location, the
/// preparation flag and its guards. Text and citations carry `text`;
/// containers carry `children` (a term item: the term, then the
/// description); a styled node carries one child and its local `styles`.
#[derive(Debug)]
pub struct Content {
    pub kind: Kind,
    pub span: Span,
    pub label: Option<Label>,
    pub location: Option<Location>,
    pub prepared: bool,
    pub guards: Vec<Guard>,
    pub fields: Fields,
    pub text: String,
    pub children: Vec<Content>,
    pub styles: Styles,
}

/// The mathematical model of a [`Content`].
pub ghost struct ContentV {
    pub kind: Kind,
    pub span: Span,
    pub label: Option<Label>,
    pub location: Option<Location>,
    pub prepared: bool,
    pub guards: Seq<Guard>,
    pub fields: Fields,
    pub text: Seq<char>,
    pub children: Seq<ContentV>,
    pub styles: Seq<StyleV>,
}

impl Content {
    /// The model of this node and of everything below it.
    pub open spec fn model(&self) -> ContentV
        decreases self,
    {
        ContentV {
            kind: self.kind,
            span: self.span,
            label: self.label,
            location: self.location,
            prepared: self.prepared,
            guards: self.guards@,
            fields: self.fields,
            text: self.text@,
            children: Seq::new(
                self.children.len() as nat,
                |i: int|
                    if 0 <= i < self.children.len() {
                        self.children[i].model()
                    } else {
                        arbitrary()
                    },
            ),
            styles: self.styles.model(),
        }
    }
}

impl View for Content {
    type V = ContentV;

    open spec fn view(&self) -> ContentV {
        self.model()
    }
}

impl ContentV {
    /// A bare node of the kind: detached, unlabelled, unprepared, empty.
    pub open spec fn new(kind: Kind) -> ContentV {
        ContentV {
            kind,
            span: Span(0),
            label: None,
            location: None,
            prepared: false,
            guards: Seq::empty(),
            fields: Fields::unset_spec(),
            text: Seq::empty(),
            children: Seq::empty(),
            styles: Seq::empty(),
        }
    }

    pub open spec fn text(text: Seq<char>) -> ContentV {
        ContentV { text, ..ContentV::new(Kind::Text) }
    }

    /// No node for no items, the item itself for one, a sequence for more.
    pub open spec fn sequence(items: Seq<ContentV>) -> ContentV {
        if items.len() == 1 {
            items[0]
        } else {
            ContentV { children: items, ..ContentV::new(Kind::Sequence) }
        }
    }

    /// A bare node of the kind with these children.
    pub open spec fn container(kind: Kind, children: Seq<ContentV>) -> ContentV {
        ContentV { children, ..ContentV::new(kind) }
    }

    pub open spec fn can(self, cap: Capability) -> bool {
        self.kind.can_spec(cap)
    }

    pub open spec fn is_guarded(self, guard: Guard) -> bool {
        self.guards.contains(guard)
    }

    pub open spec fn guarded(self, guard: Guard) -> ContentV {
        if self.guards.contains(guard) {
            self
        } else {
            ContentV { guards: self.guards.push(guard), ..self }
        }
    }

    /// An unprepared element needs preparation if it can be located or
    /// synthesized, or has a label.
    pub open spec fn needs_preparation(self) -> bool {
        !self.prepared && (self.can(Capability::Locatable) || self.can(Capability::Synthesize)
            || self.label is Some)
    }

    pub open spec fn marked_prepared(self) -> ContentV {
        ContentV { prepared: true, ..self }
    }

    pub open spec fn located(self, location: Location) -> ContentV {
        ContentV { location: Some(location), ..self }
    }

    /// Gives the node a span unless it has one.
    pub open spec fn spanned(self, span: Span) -> ContentV {
        if self.span.is_detached_spec() {
            ContentV { span, ..self }
        } else {
            self
        }
    }

    pub open spec fn is_styled(self) -> bool {
        self.kind == Kind::Styled && self.children.len() >= 1
    }

    /// The node under a style map. An empty map changes nothing, and a
    /// styled node takes the map in front of its own.
    pub open spec fn styled_with_map(self, map: Seq<StyleV>) -> ContentV {
        if map.len() == 0 {
            self
        } else if self.kind == Kind::Styled {
            ContentV { styles: map + self.styles, ..self }
        } else {
            ContentV { children: seq![self], styles: map, ..ContentV::new(Kind::Styled) }
        }
    }

    /// The node followed by an item: a sequence takes the item at its end,
    /// any other node becomes the first of a sequence of two.
    pub open spec fn followed_by(self, item: ContentV) -> ContentV {
        if self.kind == Kind::Sequence {
            ContentV { children: self.children.push(item), ..self }
        } else {
            ContentV { children: seq![self, item], ..ContentV::new(Kind::Sequence) }
        }
    }

    /// How the element behaves among its neighbours.
    pub open spec fn behaviour(self) -> Behaviour {
        match self.kind {
            Kind::Space => Behaviour::Weak(2),
            Kind::Linebreak => Behaviour::Destructive,
            Kind::H => if self.fields.weak == Some(true) {
                Behaviour::Weak(1)
            } else {
                Behaviour::Invisible
            },
            Kind::V => if self.fields.weakness > 0 {
                Behaviour::Weak(self.fields.weakness)
            } else {
                Behaviour::Strong
            },
            Kind::Colbreak => if self.fields.weak == Some(true) {
                Behaviour::Weak(1)
            } else {
                Behaviour::Destructive
            },
            Kind::Meta => Behaviour::Invisible,
            Kind::Place => Behaviour::Strong,
            _ => Behaviour::Supportive,
        }
    }

    /// Whether this weak element outweighs an earlier one of the same level.
    pub open spec fn larger(self, prev: ContentV) -> bool {
        (self.kind == Kind::V || self.kind == Kind::H) && self.kind == prev.kind
            && self.fields.amount > prev.fields.amount
    }
}

/// How an element behaves among its neighbours when a sequence is built.
#[derive(Clone, Copy, Debug, PartialEq, Eq, Hash, Structural)]
pub enum Behaviour {
    /// Stays only between supportive elements; of two adjacent weak
    /// elements the one with the lower level stays.
    Weak(usize),
    /// Keeps the weak elements before and after it.
    Supportive,
    /// Removes the weak elements before and after it.
    Destructive,
    /// Does not interact with its neighbours, and counts as content.
    Strong,
    /// Does not interact with its neighbours, and does not count as content.
    Invisible,
}

/// The models of a list of nodes.
pub open spec fn models(items: Seq<Content>) -> Seq<ContentV> {
    Seq::new(items.len(), |i: int| items[i]@)
}

pub proof fn lemma_children_model(c: &Content)
    ensures
        c@.children == models(c.children@),
        c@.children.len() == c.children.len(),
        forall|i: int| 0 <= i < c.children.len() ==> #[trigger] c@.children[i] == c.children[i]@,
{
    assert(c@.children =~= models(c.children@));
}

/// Copies a list of guards.
pub fn dup_guards(guards: &Vec<Guard>) -> (r: Vec<Guard>)
    ensures
        r@ == guards@,
{
    let mut r: Vec<Guard> = Vec::new();
    let mut i: usize = 0;
    while i < guards.len()
        invariant
            i <= guards.len(),
            r@ == guards@.take(i as int),
        decreases guards.len() - i,
    {
        r.push(guards[i]);
        assert(guards@.take(i + 1) =~= guards@.take(i as int).push(guards@[i as int]));
        i += 1;
    }
    assert(guards@.take(guards.len() as int) =~= guards@);
    r
}

/// Whether two lists of guards hold the same guards in the same order.
pub fn same_guards(a: &Vec<Guard>, b: &Vec<Guard>) -> (r: bool)
    ensures
        r == (a@ == b@),
{
    if a.len() != b.len() {
        return false;
    }
    let mut i: usize = 0;
    while i < a.len()
        invariant
            i <= a.len(),
            a.len() == b.len(),
            forall|j: int| 0 <= j < i ==> a@[j] == b@[j],
        decreases a.len() - i,
    {
        if a[i].0 != b[i].0 {
            return false;
        }
        i += 1;
    }
    assert(a@ =~= b@);
    true
}

/// Copies a list of nodes, each with everything below it.
pub fn dup_all(items: &Vec<Content>) -> (r: Vec<Content>)
    ensures
        models(r@) == models(items@),
    decreases items,
{
    let mut r: Vec<Content> = Vec::new();
    let mut i: usize = 0;
    while i < items.len()
        invariant
            i <= items.len(),
            r.len() == i,
            forall|j: int| 0 <= j < i ==> r@[j]@ == items@[j]@,
        decreases items.len() - i,
    {
        let d = items[i].dup();
        r.push(d);
        i += 1;
    }
    assert(models(r@) =~= models(items@));
    r
}

/// Whether two lists of nodes have the same model.
pub fn same_all(a: &Vec<Content>, b: &Vec<Content>) -> (r: bool)
    ensures
        r == (models(a@) == models(b@)),
    decreases a,
{
    if a.len() != b.len() {
        assert(models(a@).len() != models(b@).len());
        return false;
    }
    let mut i: usize = 0;
    while i < a.len()
        invariant
            i <= a.len(),
            a.len() == b.len(),
            forall|j: int| 0 <= j < i ==> a@[j]@ == b@[j]@,
        decreases a.len() - i,
    {
        if !a[i].same(&b[i]) {
            assert(models(a@)[i as int] != models(b@)[i as int]);
            return false;
        }
        i += 1;
    }
    assert(models(a@) =~= models(b@));
    true
}

impl Content {
    /// A bare node of the kind: detached, unlabelled, unprepared, empty.
    pub fn new(kind: Kind) -> (r: Content)
        ensures
            r@ == ContentV::new(kind),
    {
        let r = Content {
            kind,
            span: Span(0),
            label: None,
            location: None,
            prepared: false,
            guards: Vec::new(),
            fields: Fields::unset(),
            text: String::new(),
            children: Vec::new(),
            styles: Styles::new(),
        };
        proof {
            lemma_children_model(&r);
            assert(r@.children =~= Seq::empty());
        }
        r
    }

    /// A text element.
    pub fn text(text: &str) -> (r: Content)
        ensures
            r@ == ContentV::text(text@),
    {
        let mut r = Content::new(Kind::Text);
        r.text = text.to_owned();
        proof {
            lemma_children_model(&r);
            assert(r@.children =~= Seq::empty());
        }
        r
    }

    /// No node for no items, the item itself for one, a sequence for more.
    pub fn sequence(items: Vec<Content>) -> (r: Content)
        ensures
            r@ == ContentV::sequence(models(items@)),
    {
        let mut items = items;
        if items.len() == 1 {
            let ghost before = items@;
            let only = items.pop();
            match only {
                Some(c) => {
                    assert(c == before[0]);
                    c
                },
                None => Content::new(Kind::Sequence),
            }
        } else {
            Content::container(Kind::Sequence, items)
        }
    }

    /// A bare node of the kind with these children.
    pub fn container(kind: Kind, children: Vec<Content>) -> (r: Content)
        ensures
            r@ == ContentV::container(kind, models(children@)),
    {
        let mut r = Content::new(kind);
        r.children = children;
        proof {
            lemma_children_model(&r);
        }
        r
    }

    /// The node with this span, whatever span it had.
    pub fn with_span(self, span: Span) -> (r: Content)
        ensures
            r@ == (ContentV { span, ..self@ }),
    {
        let mut r = self;
        r.span = span;
        proof {
            lemma_children_model(&r);
            lemma_children_model(&self);
        }
        r
    }

    /// The node with this label.
    pub fn labelled(self, label: Label) -> (r: Content)
        ensures
            r@ == (ContentV { label: Some(label), ..self@ }),
    {
        let mut r = self;
        r.label = Some(label);
        proof {
            lemma_children_model(&r);
            lemma_children_model(&self);
        }
        r
    }

    /// The node with these fields.
    pub fn with_fields(self, fields: Fields) -> (r: Content)
        ensures
            r@ == (ContentV { fields, ..self@ }),
    {
        let mut r = self;
        r.fields = fields;
        proof {
            lemma_children_model(&r);
            lemma_children_model(&self);
        }
        r
    }

    /// Whether the node is of the kind.
    pub fn is(&self, kind: Kind) -> (r: bool)
        ensures
            r == (self@.kind == kind),
    {
        self.kind == kind
    }

    /// Whether the node's kind has the capability.
    pub fn can(&self, cap: Capability) -> (r: bool)
        ensures
            r == self@.can(cap),
    {
        self.kind.can(cap)
    }

    /// Whether the recipe with this depth index has fired on the node.
    pub fn is_guarded(&self, guard: Guard) -> (r: bool)
        ensures
            r == self@.is_guarded(guard),
    {
        let mut i: usize = 0;
        while i < self.guards.len()
            invariant
                i <= self.guards.len(),
                forall|j: int| 0 <= j < i ==> self.guards@[j] != guard,
            decreases self.guards.len() - i,
        {
            if self.guards[i].0 == guard.0 {
                return true;
            }
            i += 1;
        }
        false
    }

    /// The node, guarded against the recipe with this depth index.
    pub fn guarded(self, guard: Guard) -> (r: Content)
        ensures
            r@ == self@.guarded(guard),
    {
        if self.is_guarded(guard) {
            self
        } else {
            let mut r = self;
            r.guards.push(guard);
            proof {
                lemma_children_model(&r);
                lemma_children_model(&self);
            }
            r
        }
    }

    /// Whether the element has yet to be prepared.
    pub fn needs_preparation(&self) -> (r: bool)
        ensures
            r == self@.needs_preparation(),
    {
        !self.prepared && (self.kind.can(Capability::Locatable) || self.kind.can(
            Capability::Synthesize,
        ) || self.label.is_some())
    }

    /// Whether the element has been prepared.
    pub fn is_prepared(&self) -> (r: bool)
        ensures
            r == self@.prepared,
    {
        self.prepared
    }

    /// The node, marked as prepared.
    pub fn marked_prepared(self) -> (r: Content)
        ensures
            r@ == self@.marked_prepared(),
    {
        let mut r = self;
        r.prepared = true;
        proof {
            lemma_children_model(&r);
            lemma_children_model(&self);
        }
        r
    }

    /// The node at this location.
    pub fn located(self, location: Location) -> (r: Content)
        ensures
            r@ == self@.located(location),
    {
        let mut r = self;
        r.location = Some(location);
        proof {
            lemma_children_model(&r);
            lemma_children_model(&self);
        }
        r
    }

    /// Gives the node a span unless it has one.
    pub fn spanned(self, span: Span) -> (r: Content)
        ensures
            r@ == self@.spanned(span),
    {
        if self.span.is_detached() {
            self.with_span(span)
        } else {
            self
        }
    }

    /// The child and the local styles of a styled node.
    pub fn to_styled(&self) -> (r: Option<(&Content, &Styles)>)
        ensures
            r is Some == self@.is_styled(),
            r matches Some(p) ==> p.0@ == self@.children[0] && p.1@ == self@.styles
                && *p.0 == self.children@[0] && *p.1 == self.styles,
    {
        proof {
            lemma_children_model(self);
        }
        if self.kind == Kind::Styled && self.children.len() >= 1 {
            Some((&self.children[0], &self.styles))
        } else {
            None
        }
    }

    /// The children of a sequence.
    pub fn to_sequence(&self) -> (r: Option<&Vec<Content>>)
        ensures
            r is Some == (self@.kind == Kind::Sequence),
            r matches Some(v) ==> models(v@) == self@.children && *v == self.children,
    {
        proof {
            lemma_children_model(self);
        }
        if self.kind == Kind::Sequence {
            Some(&self.children)
        } else {
            None
        }
    }

    /// The node under a style map. An empty map changes nothing, and a
    /// styled node takes the map in front of its own.
    pub fn styled_with_map(self, map: Styles) -> (r: Content)
        ensures
            r@ == self@.styled_with_map(map@),
    {
        proof {
            lemma_styles_model(&map);
        }
        if map.is_empty() {
            self
        } else if self.kind == Kind::Styled {
            let mut r = self;
            r.styles.apply(map);
            proof {
                lemma_children_model(&r);
                lemma_children_model(&self);
            }
            r
        } else {
            let mut r = Content::new(Kind::Styled);
            proof {
                lemma_children_model(&r);
            }
            r.children.push(self);
            r.styles = map;
            proof {
                lemma_children_model(&r);
                assert(r@.children =~= seq![self@]);
            }
            r
        }
    }

    /// The node followed by an item: a sequence takes the item at its end,
    /// any other node becomes the first of a sequence of two.
    pub fn followed_by(self, item: Content) -> (r: Content)
        ensures
            r@ == self@.followed_by(item@),
    {
        if self.kind == Kind::Sequence {
            let mut r = self;
            r.children.push(item);
            proof {
                lemma_children_model(&r);
                lemma_children_model(&self);
                assert(r@.children =~= self@.children.push(item@));
            }
            r
        } else {
            let mut r = Content::new(Kind::Sequence);
            proof {
                lemma_children_model(&r);
            }
            r.children.push(self);
            r.children.push(item);
            proof {
                lemma_children_model(&r);
                assert(r.children@.len() == 2);
                assert(r.children@[0] == self && r.children@[1] == item);
                assert(r@.children[0] == self@ && r@.children[1] == item@);
                assert(r@.children =~= seq![self@, item@]);
            }
            r
        }
    }

    /// How the element behaves among its neighbours.
    pub fn behaviour(&self) -> (r: Behaviour)
        ensures
            r == self@.behaviour(),
    {
        match self.kind {
            Kind::Space => Behaviour::Weak(2),
            Kind::Linebreak => Behaviour::Destructive,
            Kind::H => match self.fields.weak {
                Some(true) => Behaviour::Weak(1),
                _ => Behaviour::Invisible,
            },
            Kind::V => if self.fields.weakness > 0 {
                Behaviour::Weak(self.fields.weakness)
            } else {
                Behaviour::Strong
            },
            Kind::Colbreak => match self.fields.weak {
                Some(true) => Behaviour::Weak(1),
                _ => Behaviour::Destructive,
            },
            Kind::Meta => Behaviour::Invisible,
            Kind::Place => Behaviour::Strong,
            _ => Behaviour::Supportive,
        }
    }

    /// Whether this weak element outweighs an earlier one of the same level.
    pub fn larger(&self, prev: &Content) -> (r: bool)
        ensures
            r == self@.larger(prev@),
    {
        (self.kind == Kind::V || self.kind == Kind::H) && self.kind == prev.kind
            && self.fields.amount > prev.fields.amount
    }

    /// A deep copy.
    pub fn dup(&self) -> (r: Content)
        ensures
            r@ == self@,
        decreases self,
    {
        let children = dup_all(&self.children);
        let r = Content {
            kind: self.kind,
            span: self.span,
            label: self.label,
            location: self.location,
            prepared: self.prepared,
            guards: dup_guards(&self.guards),
            fields: self.fields,
            text: self.text.clone(),
            children,
            styles: self.styles.dup(),
        };
        proof {
            lemma_children_model(&r);
            lemma_children_model(self);
        }
        r
    }

    /// Whether the two nodes, with everything below them, have the same
    /// model.
    pub fn same(&self, other: &Content) -> (r: bool)
        ensures
            r == (self@ == other@),
        decreases self,
    {
        proof {
            lemma_children_model(self);
            lemma_children_model(other);
        }
        self.kind == other.kind && self.span == other.span && self.label == other.label
            && self.location == other.location && self.prepared == other.prepared
            && same_guards(&self.guards, &other.guards) && self.fields == other.fields
            && self.text == other.text && same_all(&self.children, &other.children)
            && self.styles.same(&other.styles)
    }
}

} // verus!
