use realize::{
    first_span, BehavedBuilder, Behaviour, CiteGroupBuilder, Content, DocBuilder, Field, Fields,
    FlowBuilder, Kind, ListBuilder, ParBuilder, Parity, Property, Scratch, Span, Style,
    StyleChain, StyleVecBuilder, Styles, Value,
};

fn text(s: &str) -> Content {
    Content::text(s)
}

fn cite(key: &str, span: u64) -> Content {
    let mut c = Content::text(key).with_span(Span(span));
    c.kind = Kind::Cite;
    c
}

fn v(amount: i64, weakness: usize) -> Content {
    let mut fields = Fields::unset();
    fields.amount = amount;
    fields.weakness = weakness;
    Content::new(Kind::V).with_fields(fields)
}

fn set(kind: Kind, field: Field, value: Value) -> Styles {
    let mut map = Styles::new();
    map.set(Style::Property(Property { kind, field, value, span: None }));
    map
}

fn kinds(content: &Content) -> Vec<Kind> {
    content.children.iter().map(|c| c.kind).collect()
}

#[test]
fn cite_builder_groups_citations_and_absorbs_spaces() {
    let a = cite("a", 1);
    let b = cite("b", 2);
    let space = Content::new(Kind::Space);
    let meta = Content::new(Kind::Meta);
    let other = text("x");
    let local = set(Kind::Text, Field::Other(1), Value::Bool(true));
    let styles = StyleChain::new(&local);

    let mut builder = CiteGroupBuilder::new();
    assert!(!builder.accept(&space, StyleChain::empty()));
    assert!(!builder.accept(&meta, StyleChain::empty()));
    assert!(!builder.accept(&other, StyleChain::empty()));
    assert!(builder.accept(&a, styles));
    assert!(builder.accept(&space, StyleChain::empty()));
    assert!(builder.accept(&meta, StyleChain::empty()));
    assert_eq!(builder.staged.len(), 2);
    assert!(builder.accept(&b, StyleChain::empty()));
    assert_eq!(builder.staged.len(), 1);
    assert_eq!(builder.staged[0].0.kind, Kind::Meta);
    assert!(!builder.accept(&other, StyleChain::empty()));

    let (group, shared) = builder.finish();
    assert_eq!(group.kind, Kind::CiteGroup);
    assert_eq!(group.span, Span(1));
    assert_eq!(kinds(&group), vec![Kind::Cite, Kind::Cite]);
    assert_eq!(group.children[0].text, "a");
    assert_eq!(group.children[1].text, "b");
    assert!(shared.same(&styles));
}

#[test]
fn empty_cite_builder_gives_an_empty_group() {
    let (group, shared) = CiteGroupBuilder::new().finish();
    assert_eq!(group.kind, Kind::CiteGroup);
    assert!(group.children.is_empty());
    assert!(group.span.is_detached());
    assert!(shared.is_empty());
}

#[test]
fn list_builder_takes_items_of_one_kind() {
    let a = Content::container(Kind::EnumItem, vec![text("a")]).with_span(Span(3));
    let b = Content::container(Kind::EnumItem, vec![text("b")]);
    let c = Content::container(Kind::ListItem, vec![text("c")]);
    let space = Content::new(Kind::Space);
    let parbreak = Content::new(Kind::Parbreak);

    let x = text("x");
    let mut builder = ListBuilder::new();
    assert!(!builder.accept(&space, StyleChain::empty()));
    assert!(!builder.accept(&parbreak, StyleChain::empty()));
    assert!(!builder.accept(&x, StyleChain::empty()));
    assert!(builder.accept(&a, StyleChain::empty()));
    assert!(builder.accept(&space, StyleChain::empty()));
    assert_eq!(builder.staged.len(), 1);
    assert!(!builder.accept(&c, StyleChain::empty()));
    assert_eq!(builder.staged.len(), 1);
    assert!(builder.accept(&b, StyleChain::empty()));
    assert!(builder.staged.is_empty());
    assert!(builder.tight);

    let (list, _) = builder.finish();
    assert_eq!(list.kind, Kind::Enum);
    assert_eq!(list.span, Span(3));
    assert_eq!(list.fields.tight, Some(true));
    assert_eq!(kinds(&list), vec![Kind::EnumItem, Kind::EnumItem]);
}

#[test]
fn list_builder_loosens_after_a_paragraph_break() {
    let a = Content::container(Kind::TermItem, vec![text("t"), text("d")]);
    let b = Content::container(Kind::TermItem, vec![text("u"), text("e")]);
    let space = Content::new(Kind::Space);
    let parbreak = Content::new(Kind::Parbreak);
    let mut builder = ListBuilder::new();
    assert!(builder.accept(&a, StyleChain::empty()));
    assert!(builder.accept(&space, StyleChain::empty()));
    assert!(builder.accept(&parbreak, StyleChain::empty()));
    assert!(builder.accept(&b, StyleChain::empty()));
    assert!(!builder.tight);
    let (list, _) = builder.finish();
    assert_eq!(list.kind, Kind::Terms);
    assert_eq!(list.fields.tight, Some(false));
    assert_eq!(list.children[1].children[0].text, "u");
    assert_eq!(list.children[1].children[1].text, "e");
}

#[test]
fn list_builder_pushes_local_styles_into_the_items() {
    let a = Content::container(Kind::ListItem, vec![text("a")]);
    let b = Content::container(Kind::ListItem, vec![text("b")]);
    let local = set(Kind::Text, Field::Other(1), Value::Length(5));
    let mut builder = ListBuilder::new();
    assert!(builder.accept(&a, StyleChain::empty()));
    assert!(builder.accept(&b, StyleChain::new(&local)));
    let (list, shared) = builder.finish();
    assert!(shared.is_empty());
    assert_eq!(list.children[0].children[0].kind, Kind::Text);
    let styled = &list.children[1].children[0];
    assert_eq!(styled.kind, Kind::Styled);
    assert_eq!(styled.styles.entries.len(), 1);
    assert_eq!(styled.children[0].text, "b");
}

#[test]
fn par_builder_takes_inline_content() {
    let mut block = Fields::unset();
    block.block = Some(true);
    let accepted = [
        Content::new(Kind::Space),
        text("x"),
        Content::new(Kind::H),
        Content::new(Kind::Linebreak),
        Content::new(Kind::SmartQuote),
        Content::new(Kind::Equation),
        Content::new(Kind::Boxed),
    ];
    let refused = [
        Content::new(Kind::Equation).with_fields(block),
        Content::new(Kind::Parbreak),
        Content::new(Kind::Block),
        Content::new(Kind::V),
        Content::new(Kind::Pagebreak),
        Content::new(Kind::ListItem),
        Content::new(Kind::Cite),
    ];
    for content in &accepted {
        let mut builder = ParBuilder::new();
        assert!(builder.accept(content, StyleChain::empty()), "{:?}", content.kind);
    }
    for content in &refused {
        let mut builder = ParBuilder::new();
        assert!(!builder.accept(content, StyleChain::empty()), "{:?}", content.kind);
        assert!(builder.0.is_empty());
    }
}

#[test]
fn par_builder_reads_the_equation_block_from_the_styles() {
    let local = set(Kind::Equation, Field::Block, Value::Bool(true));
    let equation = Content::new(Kind::Equation);
    let mut builder = ParBuilder::new();
    assert!(!builder.accept(&equation, StyleChain::new(&local)));
    assert!(builder.accept(&equation, StyleChain::empty()));
}

#[test]
fn par_builder_takes_metadata_only_after_content() {
    let meta = Content::new(Kind::Meta);
    let space = Content::new(Kind::Space);
    let x = text("x").with_span(Span(4));
    let mut builder = ParBuilder::new();
    assert!(!builder.accept(&meta, StyleChain::empty()));
    assert!(builder.accept(&space, StyleChain::empty()));
    assert!(!builder.accept(&meta, StyleChain::empty()));
    assert!(builder.accept(&x, StyleChain::empty()));
    assert!(builder.accept(&meta, StyleChain::empty()));
    let (par, _) = builder.finish();
    assert_eq!(par.kind, Kind::Par);
    assert_eq!(par.span, Span(4));
    assert_eq!(kinds(&par), vec![Kind::Text, Kind::Meta]);
}

#[test]
fn flow_builder_puts_blocks_between_spacing() {
    let scratch = Scratch::new();
    let mut own = Fields::unset();
    own.above = Some(100);
    let first = Content::new(Kind::Block).with_fields(own);
    let second = Content::new(Kind::Block);
    let local = set(Kind::Block, Field::Below, Value::Length(300));
    let styles = StyleChain::new(&local);
    let mut builder = FlowBuilder::new();
    assert!(builder.accept(&scratch, &first, styles));
    assert!(builder.accept(&scratch, &second, styles));
    let items = builder.0.finish_items();
    let shape: Vec<(Kind, i64, usize)> =
        items.items.iter().map(|p| (p.0.kind, p.0.fields.amount, p.0.fields.weakness)).collect();
    assert_eq!(
        shape,
        vec![(Kind::Block, 0, 0), (Kind::V, 300, 3), (Kind::Block, 0, 0)]
    );
}

#[test]
fn flow_builder_uses_the_default_spacing() {
    let scratch = Scratch::new();
    let first = Content::new(Kind::Par);
    let second = Content::new(Kind::Par);
    let mut builder = FlowBuilder::new();
    assert!(builder.accept(&scratch, &first, StyleChain::empty()));
    assert!(builder.accept(&scratch, &second, StyleChain::empty()));
    let items = builder.0.finish_items();
    let shape: Vec<(Kind, i64, usize)> =
        items.items.iter().map(|p| (p.0.kind, p.0.fields.amount, p.0.fields.weakness)).collect();
    assert_eq!(shape, vec![(Kind::Par, 0, 0), (Kind::V, 1200, 4), (Kind::Par, 0, 0)]);
}

#[test]
fn flow_builder_attaches_a_tight_list() {
    let scratch = Scratch::new();
    let par = Content::new(Kind::Par);
    let list = Content::new(Kind::List);
    let local = set(Kind::Par, Field::Leading, Value::Length(500));
    let styles = StyleChain::new(&local);

    let mut builder = FlowBuilder::new();
    assert!(builder.accept(&scratch, &par, styles));
    assert!(builder.accept(&scratch, &list, styles));
    let items = builder.0.finish_items();
    let shape: Vec<(Kind, i64, usize)> =
        items.items.iter().map(|p| (p.0.kind, p.0.fields.amount, p.0.fields.weakness)).collect();
    assert_eq!(shape, vec![(Kind::Par, 0, 0), (Kind::V, 500, 2), (Kind::List, 0, 0)]);

    let parbreak = Content::new(Kind::Parbreak);
    let mut builder = FlowBuilder::new();
    assert!(builder.accept(&scratch, &par, styles));
    assert!(builder.accept(&scratch, &parbreak, styles));
    assert!(builder.1);
    assert!(builder.accept(&scratch, &list, styles));
    assert!(!builder.1);
    let items = builder.0.finish_items();
    let shape: Vec<(Kind, i64, usize)> =
        items.items.iter().map(|p| (p.0.kind, p.0.fields.amount, p.0.fields.weakness)).collect();
    assert_eq!(shape, vec![(Kind::Par, 0, 0), (Kind::V, 1200, 4), (Kind::List, 0, 0)]);

    let mut loose = Fields::unset();
    loose.tight = Some(false);
    let list = Content::new(Kind::List).with_fields(loose);
    let mut builder = FlowBuilder::new();
    assert!(builder.accept(&scratch, &par, styles));
    assert!(builder.accept(&scratch, &list, styles));
    let items = builder.0.finish_items();
    let shape: Vec<(Kind, i64, usize)> =
        items.items.iter().map(|p| (p.0.kind, p.0.fields.amount, p.0.fields.weakness)).collect();
    assert_eq!(shape, vec![(Kind::Par, 0, 0), (Kind::V, 1200, 4), (Kind::List, 0, 0)]);
}

#[test]
fn flow_builder_refuses_inline_content_and_forgets_the_break() {
    let scratch = Scratch::new();
    let parbreak = Content::new(Kind::Parbreak);
    let x = text("x");
    let verbatim = [
        Content::new(Kind::V),
        Content::new(Kind::Colbreak),
        Content::new(Kind::Meta),
        Content::new(Kind::Place),
    ];
    let pagebreak = Content::new(Kind::Pagebreak);
    let page = Content::new(Kind::Page);
    let mut builder = FlowBuilder::new();
    assert!(builder.accept(&scratch, &parbreak, StyleChain::empty()));
    assert!(builder.1);
    assert!(!builder.accept(&scratch, &x, StyleChain::empty()));
    assert!(!builder.1);
    assert!(builder.0.is_empty());
    for content in &verbatim {
        assert!(builder.accept(&scratch, content, StyleChain::empty()));
    }
    assert!(!builder.accept(&scratch, &pagebreak, StyleChain::empty()));
    assert!(!builder.accept(&scratch, &page, StyleChain::empty()));
}

#[test]
fn doc_builder_takes_pages_and_pagebreaks() {
    let scratch = Scratch::new();
    let page = Content::new(Kind::Page).with_span(Span(1));
    let mut to_even = Fields::unset();
    to_even.parity = Some(Parity::Even);
    to_even.weak = Some(true);
    let weak_break = Content::new(Kind::Pagebreak).with_fields(to_even);
    let strong_break = Content::new(Kind::Pagebreak);

    let x = text("x");
    let mut builder = DocBuilder::new();
    assert!(builder.keep_next);
    assert!(!builder.accept(&scratch, &x, StyleChain::empty()));
    assert!(builder.accept(&scratch, &page, StyleChain::empty()));
    assert!(!builder.keep_next);
    assert!(builder.accept(&scratch, &strong_break, StyleChain::empty()));
    assert!(builder.keep_next);
    assert_eq!(builder.clear_next, None);
    assert!(builder.accept(&scratch, &weak_break, StyleChain::empty()));
    assert!(!builder.keep_next);
    assert_eq!(builder.clear_next, Some(Parity::Even));
    assert!(builder.accept(&scratch, &page, StyleChain::empty()));
    assert_eq!(builder.clear_next, None);
    assert!(builder.accept(&scratch, &page, StyleChain::empty()));
    let parities: Vec<Option<Parity>> =
        builder.pages.items.iter().map(|p| p.0.fields.parity).collect();
    assert_eq!(parities, vec![None, Some(Parity::Even), None]);
}

#[test]
fn doc_builder_reads_the_pagebreak_from_the_styles() {
    let scratch = Scratch::new();
    let mut local = set(Kind::Pagebreak, Field::Weak, Value::Bool(true));
    local.set(Style::Property(Property {
        kind: Kind::Pagebreak,
        field: Field::To,
        value: Value::Parity(Some(Parity::Odd)),
        span: None,
    }));
    let pagebreak = Content::new(Kind::Pagebreak);
    let mut builder = DocBuilder::new();
    assert!(builder.accept(&scratch, &pagebreak, StyleChain::new(&local)));
    assert!(!builder.keep_next);
    assert_eq!(builder.clear_next, Some(Parity::Odd));
}

#[test]
fn behaved_builder_collapses_weak_elements() {
    let a = text("a");
    let b = text("b");
    let space = Content::new(Kind::Space);
    let mut builder = BehavedBuilder::new();
    assert!(builder.is_empty());
    builder.push(&space, StyleChain::empty());
    assert!(builder.is_empty());
    builder.push(&a, StyleChain::empty());
    builder.push(&space, StyleChain::empty());
    builder.push(&space, StyleChain::empty());
    assert!(!builder.is_empty());
    builder.push(&b, StyleChain::empty());
    builder.push(&space, StyleChain::empty());
    let (items, _) = builder.finish();
    let found: Vec<Kind> = items.items.iter().map(|p| p.0.kind).collect();
    assert_eq!(found, vec![Kind::Text, Kind::Space, Kind::Text]);
}

#[test]
fn behaved_builder_keeps_the_stronger_of_two_weak_elements() {
    let a = text("a");
    let b = text("b");
    let run = |first: &Content, second: &Content| -> Vec<(i64, usize)> {
        let mut builder = BehavedBuilder::new();
        builder.push(&a, StyleChain::empty());
        builder.push(first, StyleChain::empty());
        builder.push(second, StyleChain::empty());
        builder.push(&b, StyleChain::empty());
        let (items, _) = builder.finish();
        items
            .items
            .iter()
            .filter(|p| p.0.kind == Kind::V)
            .map(|p| (p.0.fields.amount, p.0.fields.weakness))
            .collect()
    };
    assert_eq!(run(&v(10, 3), &v(5, 2)), vec![(5, 2)]);
    assert_eq!(run(&v(10, 2), &v(5, 3)), vec![(10, 2)]);
    assert_eq!(run(&v(10, 2), &v(20, 2)), vec![(20, 2)]);
    assert_eq!(run(&v(20, 2), &v(10, 2)), vec![(20, 2)]);
}

#[test]
fn behaved_builder_drops_weak_elements_next_to_destructive_ones() {
    let a = text("a");
    let space = Content::new(Kind::Space);
    let linebreak = Content::new(Kind::Linebreak);
    let mut builder = BehavedBuilder::new();
    builder.push(&a, StyleChain::empty());
    builder.push(&space, StyleChain::empty());
    builder.push(&linebreak, StyleChain::empty());
    builder.push(&space, StyleChain::empty());
    builder.push(&a, StyleChain::empty());
    let (items, _) = builder.finish();
    let found: Vec<Kind> = items.items.iter().map(|p| p.0.kind).collect();
    assert_eq!(found, vec![Kind::Text, Kind::Linebreak, Kind::Text]);
}

#[test]
fn behaved_builder_counts_content() {
    let meta = Content::new(Kind::Meta);
    let space = Content::new(Kind::Space);
    let place = Content::new(Kind::Place);
    let mut builder = BehavedBuilder::new();
    assert!(!builder.has_strong_elements(true));
    builder.push(&meta, StyleChain::empty());
    assert!(!builder.is_empty());
    assert!(!builder.has_strong_elements(false));
    assert!(builder.has_strong_elements(true));
    builder.push(&place, StyleChain::empty());
    assert!(builder.has_strong_elements(false));
    let a = text("a");
    let mut builder = BehavedBuilder::new();
    builder.push(&a, StyleChain::empty());
    builder.push(&space, StyleChain::empty());
    assert!(builder.has_strong_elements(false));
    assert_eq!(builder.last, Behaviour::Weak(2));
}

#[test]
fn first_span_skips_invisible_and_detached_items() {
    let meta = Content::new(Kind::Meta).with_span(Span(1));
    let a = text("a");
    let b = text("b").with_span(Span(2));
    let c = text("c").with_span(Span(3));
    let mut builder = StyleVecBuilder::new();
    builder.push(&meta, StyleChain::empty());
    builder.push(&a, StyleChain::empty());
    let (items, _) = builder.finish();
    assert_eq!(first_span(&items), Span::detached());
    let mut builder = StyleVecBuilder::new();
    builder.push(&meta, StyleChain::empty());
    builder.push(&a, StyleChain::empty());
    builder.push(&b, StyleChain::empty());
    builder.push(&c, StyleChain::empty());
    let (items, _) = builder.finish();
    assert_eq!(first_span(&items), Span(2));
    let (items, shared) = StyleVecBuilder::new().finish();
    assert_eq!(first_span(&items), Span::detached());
    assert!(shared.is_empty());
}

#[test]
fn style_vec_builder_splits_shared_and_local_styles() {
    let outer = set(Kind::Text, Field::Other(1), Value::Length(1));
    let middle = set(Kind::Text, Field::Other(2), Value::Length(2));
    let inner = set(Kind::Text, Field::Other(3), Value::Length(3));
    let root = StyleChain::new(&outer);
    let second = root.chain(&middle);
    let third = second.chain(&inner);
    let a = text("a");
    let b = text("b");
    let c = text("c");
    let mut builder = StyleVecBuilder::new();
    builder.push(&a, third);
    builder.push(&b, second);
    builder.push(&c, third);
    let (items, shared) = builder.finish();
    assert!(shared.same(&second));
    let locals: Vec<usize> = items.items.iter().map(|p| p.1.entries.len()).collect();
    assert_eq!(locals, vec![1, 0, 1]);
    let children = items.to_vec();
    assert_eq!(kinds(&Content::container(Kind::Par, children)), vec![
        Kind::Styled,
        Kind::Text,
        Kind::Styled
    ]);

    let mut builder = StyleVecBuilder::new();
    builder.push(&a, third);
    builder.push(&b, StyleChain::empty());
    let (items, shared) = builder.finish();
    assert!(shared.is_empty());
    let values: Vec<Vec<Value>> = items
        .items
        .iter()
        .map(|p| {
            p.1.entries
                .iter()
                .map(|e| match e {
                    Style::Property(p) => p.value,
                    Style::Recipe(_) => panic!("expected a property"),
                })
                .collect()
        })
        .collect();
    assert_eq!(
        values,
        vec![vec![Value::Length(1), Value::Length(2), Value::Length(3)], vec![]]
    );
}
