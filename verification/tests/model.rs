use realize::pattern::slice;
use realize::{
    Behaviour, Capability, Content, Engine, Field, Fields, Func, Guard, Kind, Label, Locator,
    Location, Parity, Property, Recipe, Route, Selector, Span, Style, StyleChain, Styles,
    Transform, Value,
};

fn set(kind: Kind, field: Field, value: Value) -> Style {
    Style::Property(Property { kind, field, value, span: None })
}

fn recipe(span: u64, kind: Kind) -> Style {
    Style::Recipe(Recipe {
        span: Span(span),
        selector: Some(Selector::Elem(kind)),
        transform: Transform::Func(Func::Identity),
    })
}

#[test]
fn sequence_of_none_one_and_many() {
    let none = Content::sequence(vec![]);
    assert_eq!(none.kind, Kind::Sequence);
    assert!(none.children.is_empty());
    let one = Content::sequence(vec![Content::text("a")]);
    assert_eq!(one.kind, Kind::Text);
    assert_eq!(one.text, "a");
    let many = Content::sequence(vec![Content::text("a"), Content::text("b")]);
    assert_eq!(many.kind, Kind::Sequence);
    assert_eq!(many.children.len(), 2);
    assert!(many.to_sequence().is_some());
    assert!(one.to_sequence().is_none());
}

#[test]
fn spanned_keeps_a_span_that_is_there() {
    let c = Content::text("a");
    assert!(c.span.is_detached());
    let c = c.spanned(Span(3));
    assert_eq!(c.span, Span(3));
    let c = c.spanned(Span(4));
    assert_eq!(c.span, Span(3));
    let c = c.with_span(Span(5));
    assert_eq!(c.span, Span(5));
}

#[test]
fn guards_are_kept_once() {
    let c = Content::text("a");
    assert!(!c.is_guarded(Guard(2)));
    let c = c.guarded(Guard(2));
    assert!(c.is_guarded(Guard(2)));
    assert!(!c.is_guarded(Guard(1)));
    let c = c.guarded(Guard(2)).guarded(Guard(1));
    assert_eq!(c.guards, vec![Guard(2), Guard(1)]);
}

#[test]
fn preparation_is_needed_by_locatable_synthesized_and_labelled() {
    assert!(!Content::text("a").needs_preparation());
    assert!(Content::text("a").labelled(Label(1)).needs_preparation());
    assert!(Content::new(Kind::Heading).needs_preparation());
    assert!(Content::new(Kind::Equation).needs_preparation());
    assert!(Content::new(Kind::Cite).needs_preparation());
    assert!(Content::new(Kind::CiteGroup).needs_preparation());
    assert!(!Content::new(Kind::Heading).marked_prepared().needs_preparation());
    assert!(Content::new(Kind::Heading).marked_prepared().is_prepared());
}

#[test]
fn capabilities_by_kind() {
    assert!(Kind::Heading.can(Capability::Show));
    assert!(Kind::Heading.can(Capability::ShowSet));
    assert!(Kind::CiteGroup.can(Capability::Show));
    assert!(!Kind::Text.can(Capability::Show));
    assert!(Kind::Equation.can(Capability::Synthesize));
    assert!(Kind::Heading.can(Capability::Synthesize));
    assert!(!Kind::Cite.can(Capability::Synthesize));
    assert!(Kind::Equation.can(Capability::LayoutSingle));
    assert!(Kind::Equation.can(Capability::LayoutMath));
    assert!(Kind::Math.can(Capability::LayoutMath));
    assert!(!Kind::Math.can(Capability::LayoutSingle));
    for kind in [Kind::Block, Kind::List, Kind::Enum, Kind::Terms, Kind::Flow] {
        assert!(kind.can(Capability::LayoutMultiple));
    }
    assert!(!Kind::Par.can(Capability::LayoutMultiple));
    assert!(Kind::Space.can(Capability::Behave));
    assert!(!Kind::Text.can(Capability::Behave));
}

#[test]
fn behaviour_by_kind_and_fields() {
    let mut weak = Fields::unset();
    weak.weak = Some(true);
    let mut weakness = Fields::unset();
    weakness.weakness = 3;
    assert_eq!(Content::text("a").behaviour(), Behaviour::Supportive);
    assert_eq!(Content::new(Kind::Space).behaviour(), Behaviour::Weak(2));
    assert_eq!(Content::new(Kind::Linebreak).behaviour(), Behaviour::Destructive);
    assert_eq!(Content::new(Kind::H).behaviour(), Behaviour::Invisible);
    assert_eq!(Content::new(Kind::H).with_fields(weak).behaviour(), Behaviour::Weak(1));
    assert_eq!(Content::new(Kind::V).behaviour(), Behaviour::Strong);
    assert_eq!(Content::new(Kind::V).with_fields(weakness).behaviour(), Behaviour::Weak(3));
    assert_eq!(Content::new(Kind::Colbreak).behaviour(), Behaviour::Destructive);
    assert_eq!(Content::new(Kind::Colbreak).with_fields(weak).behaviour(), Behaviour::Weak(1));
    assert_eq!(Content::new(Kind::Meta).behaviour(), Behaviour::Invisible);
    assert_eq!(Content::new(Kind::Place).behaviour(), Behaviour::Strong);
}

#[test]
fn styled_with_map_wraps_or_merges() {
    let c = Content::text("a");
    let same = c.dup().styled_with_map(Styles::new());
    assert!(same.same(&c));
    let mut first = Styles::new();
    first.set(set(Kind::Text, Field::Other(1), Value::Length(1)));
    let styled = c.dup().styled_with_map(first.dup());
    assert_eq!(styled.kind, Kind::Styled);
    assert!(styled.span.is_detached());
    let (child, local) = styled.to_styled().unwrap();
    assert!(child.same(&c));
    assert!(local.same(&first));
    let mut second = Styles::new();
    second.set(set(Kind::Text, Field::Other(2), Value::Length(2)));
    let merged = styled.styled_with_map(second);
    assert_eq!(merged.kind, Kind::Styled);
    assert_eq!(merged.children.len(), 1);
    let values: Vec<Value> = merged
        .styles
        .entries
        .iter()
        .map(|e| match e {
            Style::Property(p) => p.value,
            Style::Recipe(_) => panic!("expected a property"),
        })
        .collect();
    assert_eq!(values, vec![Value::Length(2), Value::Length(1)]);
    assert!(c.to_styled().is_none());
}

#[test]
fn followed_by_extends_or_pairs() {
    let pair = Content::text("a").followed_by(Content::text("b"));
    assert_eq!(pair.kind, Kind::Sequence);
    assert_eq!(pair.children.len(), 2);
    let three = pair.followed_by(Content::text("c"));
    assert_eq!(three.children.len(), 3);
    assert_eq!(three.children[2].text, "c");
}

#[test]
fn deep_copy_and_comparison() {
    let mut local = Styles::new();
    local.set(recipe(3, Kind::Text));
    local.set(set(Kind::Text, Field::Weak, Value::Bool(true)));
    let c = Content::container(
        Kind::Block,
        vec![Content::text("a").labelled(Label(1)), Content::text("b").styled_with_map(local)],
    )
    .with_span(Span(9));
    let d = c.dup();
    assert!(c.same(&d));
    assert!(!c.same(&d.dup().with_span(Span(8))));
    let mut e = c.dup();
    e.children[1].styles.entries.pop();
    assert!(!c.same(&e));
    let mut f = c.dup();
    f.children[0].text.push('x');
    assert!(!c.same(&f));
    assert_eq!(c.fingerprint(), d.fingerprint());
    assert_ne!(c.fingerprint(), f.fingerprint());
}

#[test]
fn fingerprint_of_a_bare_text() {
    let seed: u128 = 0x6c62272e07bb014262b821756295c58d;
    let prime: u128 = 0x0000000001000000000000000000013b;
    let mix = |h: u128, x: u128| (h ^ x).wrapping_mul(prime);
    let expected = mix(mix(mix(mix(seed, 1), 3), 0), 97);
    assert_eq!(Content::text("a").with_span(Span(3)).fingerprint(), expected);
    let labelled = mix(mix(mix(mix(mix(seed, 1), 3), 1), 8), 97);
    assert_eq!(
        Content::text("a").with_span(Span(3)).labelled(Label(8)).fingerprint(),
        labelled
    );
    let parent = mix(mix(mix(mix(seed, 13), 0), 0), expected);
    assert_eq!(
        Content::container(Kind::Block, vec![Content::text("a").with_span(Span(3))]).fingerprint(),
        parent
    );
}

#[test]
fn chain_lookup_prefers_inner_and_later_entries() {
    let mut outer = Styles::new();
    outer.set(set(Kind::Text, Field::Weak, Value::Bool(false)));
    outer.set(set(Kind::Par, Field::Leading, Value::Length(1)));
    let mut inner = Styles::new();
    inner.set(set(Kind::Text, Field::Weak, Value::Bool(true)));
    inner.set(set(Kind::Par, Field::Leading, Value::Length(2)));
    inner.set(set(Kind::Par, Field::Leading, Value::Length(3)));
    let root = StyleChain::new(&outer);
    assert_eq!(root.get(Kind::Par, Field::Leading), Some(Value::Length(1)));
    let chain = root.chain(&inner);
    assert_eq!(chain.get(Kind::Par, Field::Leading), Some(Value::Length(3)));
    assert_eq!(chain.get(Kind::Text, Field::Weak), Some(Value::Bool(true)));
    assert_eq!(chain.get(Kind::Text, Field::Tight), None);
    assert_eq!(StyleChain::empty().get(Kind::Text, Field::Weak), None);
}

#[test]
fn chain_lists_recipes_innermost_first() {
    let mut outer = Styles::new();
    outer.set(recipe(1, Kind::Text));
    outer.set(set(Kind::Par, Field::Leading, Value::Length(1)));
    outer.set(recipe(2, Kind::Text));
    let mut inner = Styles::new();
    inner.set(recipe(3, Kind::Text));
    inner.set(recipe(4, Kind::Text));
    let root = StyleChain::new(&outer);
    let chain = root.chain(&inner);
    let spans: Vec<Span> = chain.recipes().iter().map(|r| r.span).collect();
    assert_eq!(spans, vec![Span(4), Span(3), Span(2), Span(1)]);
    assert_eq!(chain.entries().len(), 5);
}

#[test]
fn empty_maps_add_no_link() {
    let empty = Styles::new();
    let mut one = Styles::new();
    one.set(set(Kind::Text, Field::Weak, Value::Bool(true)));
    let root = StyleChain::new(&empty);
    assert!(root.is_empty());
    assert!(root.same(&StyleChain::empty()));
    let chain = root.chain(&one);
    assert!(!chain.is_empty());
    let again = chain.chain(&empty);
    assert!(again.same(&chain));
    let (top, rest) = chain.top().unwrap();
    assert!(top.same(&one));
    assert!(rest.is_empty());
    assert!(StyleChain::empty().top().is_none());
}

#[test]
fn chains_share_what_is_around_them() {
    let mut a = Styles::new();
    a.set(set(Kind::Text, Field::Other(1), Value::Length(1)));
    let mut b = Styles::new();
    b.set(set(Kind::Text, Field::Other(2), Value::Length(2)));
    let mut c = Styles::new();
    c.set(set(Kind::Text, Field::Other(3), Value::Length(3)));
    let root = StyleChain::new(&a);
    let left = root.chain(&b);
    let right = root.chain(&c);
    assert!(root.is_suffix_of(&left));
    assert!(!left.is_suffix_of(&root));
    assert!(left.common(&right).same(&root));
    assert!(left.common(&left).same(&left));
    assert!(left.common(&StyleChain::empty()).is_empty());
    assert!(left.local(&root).same(&b));
    assert!(left.local(&left).is_empty());
    let deep = left.chain(&c);
    let local = deep.local(&root);
    let values: Vec<Value> = local
        .entries
        .iter()
        .map(|e| match e {
            Style::Property(p) => p.value,
            Style::Recipe(_) => panic!("expected a property"),
        })
        .collect();
    assert_eq!(values, vec![Value::Length(2), Value::Length(3)]);
}

#[test]
fn interruption_gives_the_first_entry_for_the_kind() {
    let mut map = Styles::new();
    map.set(set(Kind::Text, Field::Weak, Value::Bool(true)));
    map.set(Style::Property(Property {
        kind: Kind::Par,
        field: Field::Leading,
        value: Value::Length(1),
        span: Some(Span(5)),
    }));
    map.set(recipe(6, Kind::List));
    map.set(Style::Property(Property {
        kind: Kind::Par,
        field: Field::Leading,
        value: Value::Length(2),
        span: Some(Span(7)),
    }));
    assert_eq!(map.interruption(Kind::Text), Some(None));
    assert_eq!(map.interruption(Kind::Par), Some(Some(Span(5))));
    assert_eq!(map.interruption(Kind::List), Some(Some(Span(6))));
    assert_eq!(map.interruption(Kind::Page), None);
}

#[test]
fn fields_resolve_through_the_chain() {
    let mut map = Styles::new();
    map.set(set(Kind::Pagebreak, Field::Weak, Value::Bool(true)));
    map.set(set(Kind::List, Field::Tight, Value::Bool(false)));
    map.set(set(Kind::Pagebreak, Field::To, Value::Parity(Some(Parity::Even))));
    map.set(set(Kind::Block, Field::Above, Value::Length(77)));
    let chain = StyleChain::new(&map);
    let none = StyleChain::empty();
    let pagebreak = Content::new(Kind::Pagebreak);
    assert!(!pagebreak.weak(&none));
    assert!(pagebreak.weak(&chain));
    assert_eq!(pagebreak.to(&none), None);
    assert_eq!(pagebreak.to(&chain), Some(Parity::Even));
    let mut own = Fields::unset();
    own.weak = Some(false);
    own.parity = Some(Parity::Odd);
    let pagebreak = pagebreak.with_fields(own);
    assert!(!pagebreak.weak(&chain));
    assert_eq!(pagebreak.to(&chain), Some(Parity::Odd));
    let list = Content::new(Kind::List);
    assert!(list.tight(&none));
    assert!(!list.tight(&chain));
    assert!(list.is_tight_list(&none));
    assert!(!Content::new(Kind::Block).is_tight_list(&none));
    let block = Content::new(Kind::Block);
    assert_eq!(block.above(&chain).fields.amount, 77);
    assert_eq!(block.above(&chain).fields.weakness, 3);
    assert_eq!(block.below(&chain).fields.amount, 1200);
    assert_eq!(block.below(&chain).fields.weakness, 4);
    let mut own = Fields::unset();
    own.above = Some(5);
    assert_eq!(block.with_fields(own).above(&chain).fields.amount, 5);
    assert_eq!(Content::new(Kind::Par).with_fields(own).above(&chain).fields.amount, 77);
    assert_eq!(realize::element::leading(&none), 650);
}

#[test]
fn synthesis_fills_in_the_equation() {
    let mut map = Styles::new();
    map.set(set(Kind::Equation, Field::Block, Value::Bool(true)));
    let chain = StyleChain::new(&map);
    let equation = Content::new(Kind::Equation).synthesized(&chain);
    assert_eq!(equation.fields.block, Some(true));
    let text = Content::text("a").synthesized(&chain);
    assert_eq!(text.fields.block, None);
    let heading = Content::new(Kind::Heading).synthesized(&chain);
    assert_eq!(heading.fields.level, Some(1));
    assert_eq!(heading.fields.block, None);
}

#[test]
fn built_in_show_rules() {
    let heading =
        Content::container(Kind::Heading, vec![Content::text("x")]).with_span(Span(5));
    let block = heading.show();
    assert_eq!(block.kind, Kind::Block);
    assert_eq!(block.span, Span(5));
    assert_eq!(block.children[0].text, "x");
    let mut a = Content::text("a").with_span(Span(1));
    a.kind = Kind::Cite;
    let mut b = Content::text("b").with_span(Span(2));
    b.kind = Kind::Cite;
    let one = Content::container(Kind::CiteGroup, vec![a.dup()]).with_span(Span(9)).show();
    assert_eq!(one.kind, Kind::Text);
    assert_eq!(one.text, "a");
    assert_eq!(one.span, Span(1));
    let two = Content::container(Kind::CiteGroup, vec![a, b]).with_span(Span(9)).show();
    assert_eq!(two.kind, Kind::Sequence);
    assert_eq!(two.span, Span(9));
    assert_eq!(two.children[1].text, "b");
    assert_eq!(two.children[1].span, Span(2));
    assert!(Content::text("a").show_set(&StyleChain::empty()).is_empty());
    assert_eq!(heading.show_set(&StyleChain::empty()).entries.len(), 2);
}

#[test]
fn locator_counts_equal_hashes() {
    let mut locator = Locator::new();
    assert_eq!(locator.locate(7), Location { hash: 7, disambiguator: 0 });
    assert_eq!(locator.locate(8), Location { hash: 8, disambiguator: 0 });
    assert_eq!(locator.locate(7), Location { hash: 7, disambiguator: 1 });
    assert_eq!(locator.locate(7), Location { hash: 7, disambiguator: 2 });
    assert_eq!(locator.seen, vec![7, 8, 7, 7]);
}

#[test]
fn route_counts_depth() {
    let mut route = Route::new();
    assert_eq!(route.depth, 0);
    route.decrease();
    assert_eq!(route.depth, 0);
    route.increase();
    route.increase();
    assert_eq!(route.depth, 2);
    assert!(route.within(2));
    assert!(!route.within(1));
    route.decrease();
    assert_eq!(route.depth, 1);
    assert_eq!(realize::MAX_SHOW_RULE_DEPTH, 64);
    let engine = Engine::new();
    assert_eq!(engine.route.depth, 0);
}

#[test]
fn slice_by_byte_offsets() {
    assert_eq!(slice("hello", 1, 3), Some("el".to_string()));
    assert_eq!(slice("hello", 0, 5), Some("hello".to_string()));
    assert_eq!(slice("hello", 2, 2), Some("".to_string()));
    assert_eq!(slice("hello", 3, 2), None);
    assert_eq!(slice("hello", 2, 6), None);
    assert_eq!(slice("h\u{e9}llo", 1, 3), Some("\u{e9}".to_string()));
    assert_eq!(slice("h\u{e9}llo", 1, 2), None);
    assert_eq!(slice("h\u{e9}llo", 2, 3), None);
}

#[test]
fn kind_names() {
    assert_eq!(Kind::Text.name(), "text");
    assert_eq!(Kind::Boxed.name(), "box");
    assert_eq!(Kind::CiteGroup.name(), "cite-group");
    assert_eq!(Kind::EnumItem.name(), "item");
}
