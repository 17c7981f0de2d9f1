//! Styles: properties and recipes, style maps and the chain that scopes them.

use vstd::prelude::*;

use crate::content::{models, Capability, Content, ContentV, Kind, Label, Location, Parity, Span};
use crate::diag::{Error, ErrorKind};
use crate::pattern::{find_matches, regex_matches};

verus! {

/// The fields that a style property can set.
#[derive(Clone, Copy, Debug, PartialEq, Eq, Hash, Structural)]
pub enum Field {
    Weak,
    To,
    Tight,
    Block,
    Above,
    Below,
    Leading,
    Level,
    /// The metadata that identifies the element a subtree belongs to.
    Data,
    /// A field that realization does not read.
    Other(u64),
}

/// The value of a style property.
#[derive(Clone, Copy, Debug, PartialEq, Eq, Hash, Structural)]
pub enum Value {
    Bool(bool),
    Length(i64),
    Parity(Option<Parity>),
    Meta(Location),
    Level(usize),
}

/// Sets one field of the elements of one kind.
#[derive(Clone, Copy, Debug, PartialEq, Eq, Hash, Structural)]
pub struct Property {
    pub kind: Kind,
    pub field: Field,
    pub value: Value,
    pub span: Option<Span>,
}

/// Tells which content a recipe applies to.
#[derive(Debug)]
pub enum Selector {
    /// Elements of one kind.
    Elem(Kind),
    /// Elements with this label.
    Label(Label),
    /// Text that the regular expression matches somewhere.
    Regex(String),
    /// Elements with this capability.
    Can(Capability),
    /// Content that any of the selectors matches.
    Or(Vec<Selector>),
    /// Content that all of the selectors match.
    And(Vec<Selector>),
    /// The element at this location.
    Location(Location),
    /// Positional selectors; they match nothing during realization.
    Before,
    After,
}

pub ghost enum SelectorV {
    Elem(Kind),
    Label(Label),
    Regex(Seq<char>),
    Can(Capability),
    Or(Seq<SelectorV>),
    And(Seq<SelectorV>),
    Location(Location),
    Before,
    After,
}

/// A callable of a show rule. It is given the matched content.
#[derive(Debug)]
pub enum Func {
    /// Returns what it is given.
    Identity,
    /// Returns this content whatever it is given.
    Constant(Content),
    /// Returns a new element of this kind with what it is given as its only
    /// child.
    Wrap(Kind),
    /// Raises an error.
    Fail,
}

pub ghost enum FuncV {
    Identity,
    Constant(ContentV),
    Wrap(Kind),
    Fail,
}

/// What a recipe does to the content it applies to.
#[derive(Debug)]
pub enum Transform {
    /// A show-set rule: styles the content.
    Style(Styles),
    /// A show rule: replaces the content by what the callable returns.
    Func(Func),
}

pub ghost enum TransformV {
    Style(Seq<StyleV>),
    Func(FuncV),
}

/// A show rule: a selector and a transform.
#[derive(Debug)]
pub struct Recipe {
    pub span: Span,
    pub selector: Option<Selector>,
    pub transform: Transform,
}

pub ghost struct RecipeV {
    pub span: Span,
    pub selector: Option<SelectorV>,
    pub transform: TransformV,
}

/// One entry of a style map.
#[derive(Debug)]
pub enum Style {
    Property(Property),
    Recipe(Recipe),
}

pub ghost enum StyleV {
    Property(Property),
    Recipe(RecipeV),
}

/// A style map: an ordered list of entries. Later entries take precedence.
#[derive(Debug)]
pub struct Styles {
    pub entries: Vec<Style>,
}

impl Selector {
    pub open spec fn model(&self) -> SelectorV
        decreases self,
    {
        match self {
            Selector::Elem(k) => SelectorV::Elem(*k),
            Selector::Label(l) => SelectorV::Label(*l),
            Selector::Regex(p) => SelectorV::Regex(p@),
            Selector::Can(c) => SelectorV::Can(*c),
            Selector::Or(v) => SelectorV::Or(
                Seq::new(
                    v.len() as nat,
                    |i: int| if 0 <= i < v.len() { v[i].model() } else { arbitrary() },
                ),
            ),
            Selector::And(v) => SelectorV::And(
                Seq::new(
                    v.len() as nat,
                    |i: int| if 0 <= i < v.len() { v[i].model() } else { arbitrary() },
                ),
            ),
            Selector::Location(l) => SelectorV::Location(*l),
            Selector::Before => SelectorV::Before,
            Selector::After => SelectorV::After,
        }
    }
}

impl View for Selector {
    type V = SelectorV;

    open spec fn view(&self) -> SelectorV {
        self.model()
    }
}

impl Func {
    pub open spec fn model(&self) -> FuncV
        decreases self,
    {
        match self {
            Func::Identity => FuncV::Identity,
            Func::Constant(c) => FuncV::Constant(c.model()),
            Func::Wrap(k) => FuncV::Wrap(*k),
            Func::Fail => FuncV::Fail,
        }
    }
}

impl View for Func {
    type V = FuncV;

    open spec fn view(&self) -> FuncV {
        self.model()
    }
}

impl Transform {
    pub open spec fn model(&self) -> TransformV
        decreases self,
    {
        match self {
            Transform::Style(s) => TransformV::Style(s.model()),
            Transform::Func(f) => TransformV::Func(f.model()),
        }
    }
}

impl View for Transform {
    type V = TransformV;

    open spec fn view(&self) -> TransformV {
        self.model()
    }
}

impl Recipe {
    pub open spec fn model(&self) -> RecipeV
        decreases self,
    {
        RecipeV {
            span: self.span,
            selector: match self.selector {
                Some(s) => Some(s.model()),
                None => None,
            },
            transform: self.transform.model(),
        }
    }
}

impl View for Recipe {
    type V = RecipeV;

    open spec fn view(&self) -> RecipeV {
        self.model()
    }
}

impl Style {
    pub open spec fn model(&self) -> StyleV
        decreases self,
    {
        match self {
            Style::Property(p) => StyleV::Property(*p),
            Style::Recipe(r) => StyleV::Recipe(r.model()),
        }
    }
}

impl View for Style {
    type V = StyleV;

    open spec fn view(&self) -> StyleV {
        self.model()
    }
}

impl Styles {
    pub open spec fn model(&self) -> Seq<StyleV>
        decreases self,
    {
        Seq::new(
            self.entries.len() as nat,
            |i: int|
                if 0 <= i < self.entries.len() {
                    self.entries[i].model()
                } else {
                    arbitrary()
                },
        )
    }
}

impl View for Styles {
    type V = Seq<StyleV>;

    open spec fn view(&self) -> Seq<StyleV> {
        self.model()
    }
}

/// The models of a list of selectors.
pub open spec fn selector_models(items: Seq<Selector>) -> Seq<SelectorV> {
    Seq::new(items.len(), |i: int| items[i]@)
}

/// The models of a list of style entries.
pub open spec fn style_models(items: Seq<Style>) -> Seq<StyleV> {
    Seq::new(items.len(), |i: int| items[i]@)
}

pub proof fn lemma_selector_model(s: &Selector)
    ensures
        s matches Selector::Or(v) ==> s@ == SelectorV::Or(selector_models(v@)),
        s matches Selector::And(v) ==> s@ == SelectorV::And(selector_models(v@)),
{
    match s {
        Selector::Or(v) => {
            assert(s@->Or_0 =~= selector_models(v@));
        },
        Selector::And(v) => {
            assert(s@->And_0 =~= selector_models(v@));
        },
        _ => {},
    }
}

pub proof fn lemma_styles_model(s: &Styles)
    ensures
        s@ == style_models(s.entries@),
        s@.len() == s.entries.len(),
        forall|i: int| 0 <= i < s.entries.len() ==> #[trigger] s@[i] == s.entries[i]@,
{
    assert(s@ =~= style_models(s.entries@));
}

/// Copies a list of selectors.
pub fn dup_selectors(items: &Vec<Selector>) -> (r: Vec<Selector>)
    ensures
        selector_models(r@) == selector_models(items@),
    decreases items,
{
    let mut r: Vec<Selector> = Vec::new();
    let mut i: usize = 0;
    while i < items.len()
        invariant
            i <= items.len(),
            r.len() == i,
            forall|j: int| 0 <= j < i ==> r@[j]@ == items@[j]@,
        decreases items.len() - i,
    {
        let d = items[i].dup();
        r.push(d);
        i += 1;
    }
    assert(selector_models(r@) =~= selector_models(items@));
    r
}

/// Whether two lists of selectors have the same model.
pub fn same_selectors(a: &Vec<Selector>, b: &Vec<Selector>) -> (r: bool)
    ensures
        r == (selector_models(a@) == selector_models(b@)),
    decreases a,
{
    if a.len() != b.len() {
        assert(selector_models(a@).len() != selector_models(b@).len());
        return false;
    }
    let mut i: usize = 0;
    while i < a.len()
        invariant
            i <= a.len(),
            a.len() == b.len(),
            forall|j: int| 0 <= j < i ==> a@[j]@ == b@[j]@,
        decreases a.len() - i,
    {
        if !a[i].same(&b[i]) {
            assert(selector_models(a@)[i as int] != selector_models(b@)[i as int]);
            return false;
        }
        i += 1;
    }
    assert(selector_models(a@) =~= selector_models(b@));
    true
}

impl Selector {
    /// A deep copy.
    pub fn dup(&self) -> (r: Selector)
        ensures
            r@ == self@,
        decreases self,
    {
        match self {
            Selector::Elem(k) => Selector::Elem(*k),
            Selector::Label(l) => Selector::Label(*l),
            Selector::Regex(p) => Selector::Regex(p.clone()),
            Selector::Can(c) => Selector::Can(*c),
            Selector::Or(v) => {
                let r = Selector::Or(dup_selectors(v));
                proof {
                    lemma_selector_model(&r);
                    lemma_selector_model(self);
                }
                r
            },
            Selector::And(v) => {
                let r = Selector::And(dup_selectors(v));
                proof {
                    lemma_selector_model(&r);
                    lemma_selector_model(self);
                }
                r
            },
            Selector::Location(l) => Selector::Location(*l),
            Selector::Before => Selector::Before,
            Selector::After => Selector::After,
        }
    }

    /// Whether the two selectors have the same model.
    pub fn same(&self, other: &Selector) -> (r: bool)
        ensures
            r == (self@ == other@),
        decreases self,
    {
        proof {
            lemma_selector_model(self);
            lemma_selector_model(other);
        }
        match (self, other) {
            (Selector::Elem(a), Selector::Elem(b)) => *a == *b,
            (Selector::Label(a), Selector::Label(b)) => *a == *b,
            (Selector::Regex(a), Selector::Regex(b)) => *a == *b,
            (Selector::Can(a), Selector::Can(b)) => *a == *b,
            (Selector::Or(a), Selector::Or(b)) => same_selectors(a, b),
            (Selector::And(a), Selector::And(b)) => same_selectors(a, b),
            (Selector::Location(a), Selector::Location(b)) => *a == *b,
            (Selector::Before, Selector::Before) => true,
            (Selector::After, Selector::After) => true,
            _ => false,
        }
    }
}

impl Func {
    /// A deep copy.
    pub fn dup(&self) -> (r: Func)
        ensures
            r@ == self@,
        decreases self,
    {
        match self {
            Func::Identity => Func::Identity,
            Func::Constant(c) => Func::Constant(c.dup()),
            Func::Wrap(k) => Func::Wrap(*k),
            Func::Fail => Func::Fail,
        }
    }

    /// Whether the two callables have the same model.
    pub fn same(&self, other: &Func) -> (r: bool)
        ensures
            r == (self@ == other@),
        decreases self,
    {
        match (self, other) {
            (Func::Identity, Func::Identity) => true,
            (Func::Constant(a), Func::Constant(b)) => a.same(b),
            (Func::Wrap(a), Func::Wrap(b)) => *a == *b,
            (Func::Fail, Func::Fail) => true,
            _ => false,
        }
    }
}

impl Transform {
    /// A deep copy.
    pub fn dup(&self) -> (r: Transform)
        ensures
            r@ == self@,
        decreases self,
    {
        match self {
            Transform::Style(s) => Transform::Style(s.dup()),
            Transform::Func(f) => Transform::Func(f.dup()),
        }
    }

    /// Whether the two transforms have the same model.
    pub fn same(&self, other: &Transform) -> (r: bool)
        ensures
            r == (self@ == other@),
        decreases self,
    {
        match (self, other) {
            (Transform::Style(a), Transform::Style(b)) => a.same(b),
            (Transform::Func(a), Transform::Func(b)) => a.same(b),
            _ => false,
        }
    }

    /// Whether this is a show-set rule.
    pub fn is_style(&self) -> (r: bool)
        ensures
            r == (self@ is Style),
    {
        match self {
            Transform::Style(_) => true,
            Transform::Func(_) => false,
        }
    }
}

impl Recipe {
    /// A deep copy.
    pub fn dup(&self) -> (r: Recipe)
        ensures
            r@ == self@,
        decreases self,
    {
        let selector = match &self.selector {
            Some(s) => Some(s.dup()),
            None => None,
        };
        Recipe { span: self.span, selector, transform: self.transform.dup() }
    }

    /// Whether the two recipes have the same model.
    pub fn same(&self, other: &Recipe) -> (r: bool)
        ensures
            r == (self@ == other@),
        decreases self,
    {
        let selectors = match (&self.selector, &other.selector) {
            (Some(a), Some(b)) => a.same(b),
            (None, None) => true,
            _ => false,
        };
        self.span == other.span && selectors && self.transform.same(&other.transform)
    }
}

impl Style {
    /// A deep copy.
    pub fn dup(&self) -> (r: Style)
        ensures
            r@ == self@,
        decreases self,
    {
        match self {
            Style::Property(p) => Style::Property(*p),
            Style::Recipe(r) => Style::Recipe(r.dup()),
        }
    }

    /// Whether the two entries have the same model.
    pub fn same(&self, other: &Style) -> (r: bool)
        ensures
            r == (self@ == other@),
        decreases self,
    {
        match (self, other) {
            (Style::Property(a), Style::Property(b)) => *a == *b,
            (Style::Recipe(a), Style::Recipe(b)) => a.same(b),
            _ => false,
        }
    }
}

impl Styles {
    /// The empty map.
    pub fn new() -> (r: Styles)
        ensures
            r@ == Seq::<StyleV>::empty(),
    {
        let r = Styles { entries: Vec::new() };
        proof {
            lemma_styles_model(&r);
            assert(r@ =~= Seq::<StyleV>::empty());
        }
        r
    }

    /// Whether the map has no entry.
    pub fn is_empty(&self) -> (r: bool)
        ensures
            r == (self@.len() == 0),
    {
        proof {
            lemma_styles_model(self);
        }
        self.entries.len() == 0
    }

    /// Adds an entry at the end, where it takes precedence.
    pub fn set(&mut self, style: Style)
        ensures
            final(self)@ == old(self)@.push(style@),
    {
        proof {
            lemma_styles_model(self);
        }
        self.entries.push(style);
        proof {
            lemma_styles_model(self);
            assert(self@ =~= old(self)@.push(style@));
        }
    }

    /// Puts the entries of an outer map in front of this map's own.
    pub fn apply(&mut self, outer: Styles)
        ensures
            final(self)@ == outer@ + old(self)@,
    {
        proof {
            lemma_styles_model(self);
            lemma_styles_model(&outer);
        }
        let mut entries = outer.entries;
        entries.append(&mut self.entries);
        self.entries = entries;
        proof {
            lemma_styles_model(self);
            assert(self@ =~= outer@ + old(self)@);
        }
    }

    /// A deep copy.
    pub fn dup(&self) -> (r: Styles)
        ensures
            r@ == self@,
        decreases self,
    {
        let mut entries: Vec<Style> = Vec::new();
        let mut i: usize = 0;
        while i < self.entries.len()
            invariant
                i <= self.entries.len(),
                entries.len() == i,
                forall|j: int| 0 <= j < i ==> entries@[j]@ == self.entries@[j]@,
            decreases self.entries.len() - i,
        {
            let d = self.entries[i].dup();
            entries.push(d);
            i += 1;
        }
        let r = Styles { entries };
        proof {
            lemma_styles_model(&r);
            lemma_styles_model(self);
            assert(r@ =~= self@);
        }
        r
    }

    /// Whether the two maps have the same model.
    pub fn same(&self, other: &Styles) -> (r: bool)
        ensures
            r == (self@ == other@),
        decreases self,
    {
        proof {
            lemma_styles_model(self);
            lemma_styles_model(other);
        }
        if self.entries.len() != other.entries.len() {
            return false;
        }
        let mut i: usize = 0;
        while i < self.entries.len()
            invariant
                i <= self.entries.len(),
                self.entries.len() == other.entries.len(),
                self@.len() == self.entries.len(),
                other@.len() == other.entries.len(),
                forall|j: int|
                    0 <= j < self.entries.len() ==> #[trigger] self@[j] == self.entries[j]@,
                forall|j: int|
                    0 <= j < other.entries.len() ==> #[trigger] other@[j] == other.entries[j]@,
                forall|j: int| 0 <= j < i ==> self.entries@[j]@ == other.entries@[j]@,
            decreases self.entries.len() - i,
        {
            if !self.entries[i].same(&other.entries[i]) {
                assert(self@[i as int] != other@[i as int]);
                return false;
            }
            i += 1;
        }
        assert(self@ =~= other@);
        true
    }
}

/// Whether any of the selectors matches the target.
pub open spec fn any_matches(selectors: Seq<SelectorV>, target: ContentV) -> bool
    decreases selectors,
{
    if selectors.len() == 0 {
        false
    } else {
        any_matches(selectors.drop_last(), target) || selectors.last().matches(target)
    }
}

/// Whether all of the selectors match the target.
pub open spec fn all_match(selectors: Seq<SelectorV>, target: ContentV) -> bool
    decreases selectors,
{
    if selectors.len() == 0 {
        true
    } else {
        all_match(selectors.drop_last(), target) && selectors.last().matches(target)
    }
}

impl SelectorV {
    /// Whether the selector matches the target.
    pub open spec fn matches(self, target: ContentV) -> bool
        decreases self,
    {
        match self {
            SelectorV::Elem(kind) => target.kind == kind,
            SelectorV::Label(label) => target.label == Some(label),
            SelectorV::Regex(pattern) => target.kind == Kind::Text && (match regex_matches(
                pattern,
                target.text,
            ) {
                Some(found) => found.len() > 0,
                None => false,
            }),
            SelectorV::Can(cap) => target.kind.can_spec(cap),
            SelectorV::Or(selectors) => any_matches(selectors, target),
            SelectorV::And(selectors) => all_match(selectors, target),
            SelectorV::Location(location) => target.location == Some(location),
            SelectorV::Before => false,
            SelectorV::After => false,
        }
    }

    /// Whether a show rule with this selector can rewrite content: by kind,
    /// by label, or by regular expression.
    pub open spec fn is_plain(self) -> bool {
        self is Elem || self is Label || self is Regex
    }
}

/// Whether any of the selectors matches the target.
pub fn any_of(selectors: &Vec<Selector>, target: &Content) -> (r: bool)
    ensures
        r == any_matches(selector_models(selectors@), target@),
    decreases selectors,
{
    let mut found = false;
    let mut i: usize = 0;
    while i < selectors.len()
        invariant
            i <= selectors.len(),
            found == any_matches(selector_models(selectors@).take(i as int), target@),
        decreases selectors.len() - i,
    {
        let m = selectors[i].matches(target);
        proof {
            let all = selector_models(selectors@);
            assert(all.take(i + 1).drop_last() =~= all.take(i as int));
            assert(all.take(i + 1).last() == selectors@[i as int]@);
        }
        found = found || m;
        i += 1;
    }
    proof {
        let all = selector_models(selectors@);
        assert(all.take(selectors.len() as int) =~= all);
    }
    found
}

/// Whether all of the selectors match the target.
pub fn all_of(selectors: &Vec<Selector>, target: &Content) -> (r: bool)
    ensures
        r == all_match(selector_models(selectors@), target@),
    decreases selectors,
{
    let mut every = true;
    let mut i: usize = 0;
    while i < selectors.len()
        invariant
            i <= selectors.len(),
            every == all_match(selector_models(selectors@).take(i as int), target@),
        decreases selectors.len() - i,
    {
        let m = selectors[i].matches(target);
        proof {
            let all = selector_models(selectors@);
            assert(all.take(i + 1).drop_last() =~= all.take(i as int));
            assert(all.take(i + 1).last() == selectors@[i as int]@);
        }
        every = every && m;
        i += 1;
    }
    proof {
        let all = selector_models(selectors@);
        assert(all.take(selectors.len() as int) =~= all);
    }
    every
}

impl Selector {
    /// Whether the selector matches the target.
    pub fn matches(&self, target: &Content) -> (r: bool)
        ensures
            r == self@.matches(target@),
        decreases self,
    {
        proof {
            lemma_selector_model(self);
        }
        match self {
            Selector::Elem(kind) => target.kind == *kind,
            Selector::Label(label) => target.label == Some(*label),
            Selector::Regex(pattern) => {
                if target.kind == Kind::Text {
                    match find_matches(pattern.as_str(), target.text.as_str()) {
                        Some(found) => found.len() > 0,
                        None => false,
                    }
                } else {
                    false
                }
            },
            Selector::Can(cap) => target.kind.can(*cap),
            Selector::Or(selectors) => any_of(selectors, target),
            Selector::And(selectors) => all_of(selectors, target),
            Selector::Location(location) => target.location == Some(*location),
            Selector::Before => false,
            Selector::After => false,
        }
    }
}

impl FuncV {
    /// What the callable returns for the content, or the error it raises.
    pub open spec fn call(self, content: ContentV, span: Span) -> Result<ContentV, Error> {
        match self {
            FuncV::Identity => Ok(content),
            FuncV::Constant(fixed) => Ok(fixed),
            FuncV::Wrap(kind) => Ok(ContentV::container(kind, seq![content])),
            FuncV::Fail => Err(Error { kind: ErrorKind::Raised, span }),
        }
    }
}

impl Func {
    /// Calls the callable on the content. An error it raises is reported at
    /// the span.
    pub fn call(&self, content: Content, span: Span) -> (r: Result<Content, Error>)
        ensures
            r is Ok == self@.call(content@, span) is Ok,
            r matches Ok(c) ==> self@.call(content@, span) == Ok::<ContentV, Error>(c@),
            r matches Err(e) ==> self@.call(content@, span) == Err::<ContentV, Error>(e),
    {
        match self {
            Func::Identity => Ok(content),
            Func::Constant(fixed) => Ok(fixed.dup()),
            Func::Wrap(kind) => {
                let mut children: Vec<Content> = Vec::new();
                children.push(content);
                proof {
                    assert(models(children@) =~= seq![content@]);
                }
                Ok(Content::container(*kind, children))
            },
            Func::Fail => Err(Error::new(ErrorKind::Raised, span)),
        }
    }
}

impl RecipeV {
    /// Whether the recipe's selector matches the target.
    pub open spec fn applicable(self, target: ContentV) -> bool {
        match self.selector {
            Some(selector) => selector.matches(target),
            None => false,
        }
    }

    /// Whether the recipe selects the elements of the kind.
    pub open spec fn is_of(self, kind: Kind) -> bool {
        self.selector == Some(SelectorV::Elem(kind))
    }

    /// What the recipe makes of the content. A result without a span gets
    /// the recipe's.
    pub open spec fn apply(self, content: ContentV) -> Result<ContentV, Error> {
        match self.transform {
            TransformV::Style(map) => Ok(content.styled_with_map(map).spanned(self.span)),
            TransformV::Func(func) => match func.call(content, self.span) {
                Ok(made) => Ok(made.spanned(self.span)),
                Err(e) => Err(e),
            },
        }
    }
}

impl Recipe {
    /// Whether the recipe's selector matches the target.
    pub fn applicable(&self, target: &Content) -> (r: bool)
        ensures
            r == self@.applicable(target@),
    {
        match &self.selector {
            Some(selector) => selector.matches(target),
            None => false,
        }
    }

    /// Whether the recipe selects the elements of the kind.
    pub fn is_of(&self, kind: Kind) -> (r: bool)
        ensures
            r == self@.is_of(kind),
    {
        match &self.selector {
            Some(Selector::Elem(own)) => *own == kind,
            _ => false,
        }
    }

    /// Applies the recipe to the content.
    pub fn apply(&self, content: Content) -> (r: Result<Content, Error>)
        ensures
            r is Ok == self@.apply(content@) is Ok,
            r matches Ok(c) ==> self@.apply(content@) == Ok::<ContentV, Error>(c@),
            r matches Err(e) ==> self@.apply(content@) == Err::<ContentV, Error>(e),
    {
        match &self.transform {
            Transform::Style(map) => Ok(content.styled_with_map(map.dup()).spanned(self.span)),
            Transform::Func(func) => match func.call(content, self.span) {
                Ok(made) => Ok(made.spanned(self.span)),
                Err(e) => Err(e),
            },
        }
    }
}

/// Where a style map first sets something for the kind: nothing, or the
/// span of that entry, if it has one.
pub open spec fn interruption_of(map: Seq<StyleV>, kind: Kind) -> Option<Option<Span>>
    decreases map.len(),
{
    if map.len() == 0 {
        None
    } else {
        match map[0] {
            StyleV::Property(p) => if p.kind == kind {
                Some(p.span)
            } else {
                interruption_of(map.drop_first(), kind)
            },
            StyleV::Recipe(r) => if r.is_of(kind) {
                Some(Some(r.span))
            } else {
                interruption_of(map.drop_first(), kind)
            },
        }
    }
}

impl Styles {
    /// Where the map first sets something for the kind.
    pub fn interruption(&self, kind: Kind) -> (r: Option<Option<Span>>)
        ensures
            r == interruption_of(self@, kind),
    {
        proof {
            lemma_styles_model(self);
            assert(self@.skip(0) =~= self@);
        }
        let mut i: usize = 0;
        while i < self.entries.len()
            invariant
                i <= self.entries.len(),
                self@.len() == self.entries.len(),
                forall|j: int|
                    0 <= j < self.entries.len() ==> #[trigger] self@[j] == self.entries[j]@,
                interruption_of(self@, kind) == interruption_of(self@.skip(i as int), kind),
            decreases self.entries.len() - i,
        {
            proof {
                assert(self@.skip(i as int).drop_first() =~= self@.skip(i + 1));
                assert(self@.skip(i as int)[0] == self@[i as int]);
            }
            match &self.entries[i] {
                Style::Property(p) => {
                    if p.kind == kind {
                        return Some(p.span);
                    }
                },
                Style::Recipe(r) => {
                    if r.is_of(kind) {
                        return Some(Some(r.span));
                    }
                },
            }
            i += 1;
        }
        None
    }
}

/// The entries of a sequence from the last to the first.
pub open spec fn reversed<A>(s: Seq<A>) -> Seq<A> {
    Seq::new(s.len(), |i: int| s[s.len() - 1 - i])
}

/// All entries of a chain's links, those that take precedence first: the
/// innermost link before the outer ones, and within a link the last entry
/// before the earlier ones.
pub open spec fn entries_of(links: Seq<Seq<StyleV>>) -> Seq<StyleV>
    decreases links.len(),
{
    if links.len() == 0 {
        Seq::empty()
    } else {
        reversed(links[0]) + entries_of(links.drop_first())
    }
}

/// The recipes among the entries, in the same order.
pub open spec fn recipes_among(entries: Seq<StyleV>) -> Seq<RecipeV>
    decreases entries.len(),
{
    if entries.len() == 0 {
        Seq::empty()
    } else {
        let before = recipes_among(entries.drop_last());
        match entries.last() {
            StyleV::Recipe(r) => before.push(r),
            StyleV::Property(_) => before,
        }
    }
}

/// The recipes of a chain, innermost first.
pub open spec fn recipes_of(links: Seq<Seq<StyleV>>) -> Seq<RecipeV> {
    recipes_among(entries_of(links))
}

/// The value of the first entry that sets the field for the kind.
pub open spec fn lookup(entries: Seq<StyleV>, kind: Kind, field: Field) -> Option<Value>
    decreases entries.len(),
{
    if entries.len() == 0 {
        None
    } else {
        match entries[0] {
            StyleV::Property(p) => if p.kind == kind && p.field == field {
                Some(p.value)
            } else {
                lookup(entries.drop_first(), kind, field)
            },
            StyleV::Recipe(_) => lookup(entries.drop_first(), kind, field),
        }
    }
}

/// The value that a chain gives the field of the kind.
pub open spec fn chain_get(links: Seq<Seq<StyleV>>, kind: Kind, field: Field) -> Option<Value> {
    lookup(entries_of(links), kind, field)
}

/// A chain extended by a local map. An empty map adds no link.
pub open spec fn chained(links: Seq<Seq<StyleV>>, local: Seq<StyleV>) -> Seq<Seq<StyleV>> {
    if local.len() == 0 {
        links
    } else {
        seq![local] + links
    }
}

/// Whether the chain `inner` is what is left of the chain `of` after some
/// of its innermost links are taken away.
pub open spec fn is_suffix_of(inner: Seq<Seq<StyleV>>, of: Seq<Seq<StyleV>>) -> bool
    decreases of.len(),
{
    inner == of || (of.len() > 0 && is_suffix_of(inner, of.drop_first()))
}

/// The longest chain that is left both of `a` and of `b` after some of
/// their innermost links are taken away.
pub open spec fn common(a: Seq<Seq<StyleV>>, b: Seq<Seq<StyleV>>) -> Seq<Seq<StyleV>>
    decreases a.len(),
{
    if a.len() == 0 || is_suffix_of(a, b) {
        a
    } else {
        common(a.drop_first(), b)
    }
}

/// The entries of the links that the chain has in front of the trunk, as
/// one map: the entries of an inner link behind those of the links around
/// it. If the chain does not end in the trunk, these are all its entries.
pub open spec fn local_of(chain: Seq<Seq<StyleV>>, trunk: Seq<Seq<StyleV>>) -> Seq<StyleV>
    decreases chain.len(),
{
    if chain.len() == 0 || chain == trunk {
        Seq::empty()
    } else {
        local_of(chain.drop_first(), trunk) + chain[0]
    }
}

/// The models of borrowed style entries.
pub open spec fn style_ref_models(items: Seq<&Style>) -> Seq<StyleV> {
    Seq::new(items.len(), |i: int| items[i]@)
}

/// The models of borrowed recipes.
pub open spec fn recipe_ref_models(items: Seq<&Recipe>) -> Seq<RecipeV> {
    Seq::new(items.len(), |i: int| items[i]@)
}

/// A chain of style maps: the innermost map first, then the maps around it.
/// Empty maps do not count as links.
#[derive(Clone, Copy, Debug)]
pub struct StyleChain<'a> {
    head: Option<&'a Styles>,
    tail: Option<&'a StyleChain<'a>>,
}

impl<'a> StyleChain<'a> {
    /// The links of the chain, innermost first.
    pub closed spec fn links(self) -> Seq<Seq<StyleV>>
        decreases self,
    {
        let rest = match self.tail {
            Some(t) => t.links(),
            None => Seq::empty(),
        };
        match self.head {
            Some(h) => if h@.len() > 0 {
                seq![h@] + rest
            } else {
                rest
            },
            None => rest,
        }
    }

    /// How many nodes the chain is made of.
    pub closed spec fn nodes(self) -> nat
        decreases self,
    {
        (if self.head is Some { 1nat } else { 0nat }) + (match self.tail {
            Some(t) => 1 + t.nodes(),
            None => 0,
        })
    }

    /// The chain without links.
    pub fn empty() -> (r: StyleChain<'a>)
        ensures
            r@ == Seq::<Seq<StyleV>>::empty(),
            r.nodes() == 0,
    {
        StyleChain { head: None, tail: None }
    }

    /// The chain whose only link is the map.
    pub fn new(root: &'a Styles) -> (r: StyleChain<'a>)
        ensures
            r@ == chained(Seq::empty(), root@),
    {
        let r = StyleChain { head: Some(root), tail: None };
        proof {
            assert(r.links() =~= chained(Seq::empty(), root@));
        }
        r
    }

    /// This chain extended by a local map.
    pub fn chain<'b>(&'b self, local: &'b Styles) -> (r: StyleChain<'b>)
        ensures
            r@ == chained(self@, local@),
    {
        if local.is_empty() {
            *self
        } else {
            StyleChain { head: Some(local), tail: Some(self) }
        }
    }

    /// The innermost link and the chain around it, if the chain has a link.
    pub fn top(&self) -> (r: Option<(&'a Styles, StyleChain<'a>)>)
        ensures
            r is None ==> self@.len() == 0,
            r matches Some(p) ==> p.0@.len() > 0 && self@ == seq![p.0@] + p.1@ && p.1.nodes()
                < self.nodes(),
    {
        let mut cur: StyleChain<'a> = *self;
        loop
            invariant
                cur.links() == self.links(),
                cur.nodes() <= self.nodes(),
            decreases cur.nodes(),
        {
            if let Some(h) = cur.head {
                if !h.is_empty() {
                    let rest = match cur.tail {
                        Some(t) => *t,
                        None => StyleChain::empty(),
                    };
                    return Some((h, rest));
                }
            }
            match cur.tail {
                Some(t) => {
                    cur = *t;
                },
                None => {
                    return None;
                },
            }
        }
    }

    /// Whether the chain has no link.
    pub fn is_empty(&self) -> (r: bool)
        ensures
            r == (self@.len() == 0),
    {
        self.top().is_none()
    }

    /// Whether the two chains have the same links.
    pub fn same(&self, other: &StyleChain<'_>) -> (r: bool)
        ensures
            r == (self@ == other@),
    {
        let mut a: StyleChain<'_> = *self;
        let mut b: StyleChain<'_> = *other;
        loop
            invariant
                (self@ == other@) == (a@ == b@),
            decreases a.nodes(),
        {
            match (a.top(), b.top()) {
                (None, None) => {
                    assert(a@ =~= b@);
                    return true;
                },
                (Some(p), Some(q)) => {
                    if !p.0.same(q.0) {
                        assert(a@[0] == p.0@ && b@[0] == q.0@);
                        return false;
                    }
                    proof {
                        assert(a@.drop_first() =~= p.1@);
                        assert(b@.drop_first() =~= q.1@);
                    }
                    a = p.1;
                    b = q.1;
                },
                _ => {
                    assert(a@.len() != b@.len());
                    return false;
                },
            }
        }
    }

    /// Whether this chain is what is left of the other after some of its
    /// innermost links are taken away.
    pub fn is_suffix_of(&self, of: &StyleChain<'_>) -> (r: bool)
        ensures
            r == is_suffix_of(self@, of@),
    {
        let mut cur: StyleChain<'_> = *of;
        loop
            invariant
                is_suffix_of(self@, of@) == is_suffix_of(self@, cur@),
            decreases cur.nodes(),
        {
            if self.same(&cur) {
                return true;
            }
            match cur.top() {
                None => {
                    return false;
                },
                Some(p) => {
                    proof {
                        assert(cur@.drop_first() =~= p.1@);
                    }
                    cur = p.1;
                },
            }
        }
    }

    /// The longest chain that is left both of this chain and of the other
    /// after some of their innermost links are taken away.
    pub fn common(&self, other: &StyleChain<'_>) -> (r: StyleChain<'a>)
        ensures
            r@ == common(self@, other@),
    {
        let mut cur: StyleChain<'a> = *self;
        loop
            invariant
                common(self@, other@) == common(cur@, other@),
            decreases cur.nodes(),
        {
            if cur.is_suffix_of(other) {
                return cur;
            }
            match cur.top() {
                None => {
                    return cur;
                },
                Some(p) => {
                    proof {
                        assert(cur@.drop_first() =~= p.1@);
                    }
                    cur = p.1;
                },
            }
        }
    }

    /// The entries of the links that this chain has in front of the trunk,
    /// as one map.
    pub fn local(&self, trunk: &StyleChain<'_>) -> (r: Styles)
        ensures
            r@ == local_of(self@, trunk@),
    {
        let mut acc = Styles::new();
        let mut cur: StyleChain<'a> = *self;
        proof {
            assert(local_of(cur@, trunk@) + acc@ =~= local_of(self@, trunk@));
        }
        loop
            invariant
                local_of(self@, trunk@) == local_of(cur@, trunk@) + acc@,
            decreases cur.nodes(),
        {
            if cur.same(trunk) {
                proof {
                    assert(local_of(cur@, trunk@) + acc@ =~= acc@);
                }
                return acc;
            }
            match cur.top() {
                None => {
                    proof {
                        assert(local_of(cur@, trunk@) + acc@ =~= acc@);
                    }
                    return acc;
                },
                Some(p) => {
                    let ghost before = acc@;
                    acc.apply(p.0.dup());
                    proof {
                        assert(cur@.drop_first() =~= p.1@);
                        assert(cur@[0] == p.0@);
                        assert((local_of(p.1@, trunk@) + p.0@) + before =~= local_of(p.1@, trunk@)
                            + (p.0@ + before));
                    }
                    cur = p.1;
                },
            }
        }
    }

    /// All entries of the chain, those that take precedence first.
    pub fn entries(&self) -> (r: Vec<&'a Style>)
        ensures
            style_ref_models(r@) == entries_of(self@),
    {
        let mut out: Vec<&'a Style> = Vec::new();
        let mut cur: StyleChain<'a> = *self;
        loop
            invariant
                style_ref_models(out@) + entries_of(cur@) == entries_of(self@),
            decreases cur.nodes(),
        {
            match cur.top() {
                None => {
                    proof {
                        assert(style_ref_models(out@) + entries_of(cur@) =~= style_ref_models(
                            out@,
                        ));
                    }
                    return out;
                },
                Some(p) => {
                    let link = p.0;
                    let ghost before = style_ref_models(out@);
                    proof {
                        lemma_styles_model(link);
                        assert(cur@.drop_first() =~= p.1@);
                        assert(cur@[0] == link@);
                    }
                    let mut i: usize = link.entries.len();
                    while i > 0
                        invariant
                            i <= link.entries.len(),
                            link@.len() == link.entries.len(),
                            forall|j: int|
                                0 <= j < link.entries.len() ==> #[trigger] link@[j]
                                    == link.entries[j]@,
                            style_ref_models(out@) == before + reversed(link@).take(
                                link.entries.len() - i,
                            ),
                        decreases i,
                    {
                        let ghost prev = style_ref_models(out@);
                        i -= 1;
                        out.push(&link.entries[i]);
                        proof {
                            let n = link.entries.len() as int;
                            assert(style_ref_models(out@) =~= prev.push(link@[i as int]));
                            assert(reversed(link@).take(n - i) =~= reversed(link@).take(
                                n - i - 1,
                            ).push(link@[i as int]));
                            assert(style_ref_models(out@) =~= before + reversed(link@).take(
                                n - i,
                            ));
                        }
                    }
                    proof {
                        assert(reversed(link@).take(link.entries.len() as int) =~= reversed(
                            link@,
                        ));
                        assert((before + reversed(link@)) + entries_of(p.1@) =~= before + (
                        reversed(link@) + entries_of(p.1@)));
                    }
                    cur = p.1;
                },
            }
        }
    }

    /// The recipes of the chain, innermost first.
    pub fn recipes(&self) -> (r: Vec<&'a Recipe>)
        ensures
            recipe_ref_models(r@) == recipes_of(self@),
    {
        let entries = self.entries();
        let ghost all = style_ref_models(entries@);
        let mut out: Vec<&'a Recipe> = Vec::new();
        let mut i: usize = 0;
        while i < entries.len()
            invariant
                i <= entries.len(),
                all == style_ref_models(entries@),
                recipe_ref_models(out@) == recipes_among(all.take(i as int)),
            decreases entries.len() - i,
        {
            proof {
                assert(all.take(i + 1).drop_last() =~= all.take(i as int));
                assert(all.take(i + 1).last() == entries@[i as int]@);
            }
            match entries[i] {
                Style::Recipe(r) => {
                    out.push(r);
                    proof {
                        assert(recipe_ref_models(out@) =~= recipes_among(all.take(i as int)).push(
                            r@,
                        ));
                    }
                },
                Style::Property(_) => {},
            }
            i += 1;
        }
        proof {
            assert(all.take(entries.len() as int) =~= all);
        }
        out
    }

    /// The value that the chain gives the field of the kind.
    pub fn get(&self, kind: Kind, field: Field) -> (r: Option<Value>)
        ensures
            r == chain_get(self@, kind, field),
    {
        let entries = self.entries();
        let ghost all = style_ref_models(entries@);
        proof {
            assert(all.skip(0) =~= all);
        }
        let mut i: usize = 0;
        while i < entries.len()
            invariant
                i <= entries.len(),
                all == style_ref_models(entries@),
                all == entries_of(self@),
                lookup(all, kind, field) == lookup(all.skip(i as int), kind, field),
            decreases entries.len() - i,
        {
            proof {
                assert(all.skip(i as int).drop_first() =~= all.skip(i + 1));
                assert(all.skip(i as int)[0] == entries@[i as int]@);
            }
            match entries[i] {
                Style::Property(p) => {
                    if p.kind == kind && p.field == field {
                        return Some(p.value);
                    }
                },
                Style::Recipe(_) => {},
            }
            i += 1;
        }
        None
    }
}

impl<'a> View for StyleChain<'a> {
    type V = Seq<Seq<StyleV>>;

    closed spec fn view(&self) -> Seq<Seq<StyleV>> {
        self.links()
    }
}

} // verus!
