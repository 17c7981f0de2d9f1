use realize::{
    applicable, realize, realize_block, Builder, Content, Engine, Func, Kind, Recipe, Scratch,
    Selector, Span, Style, StyleChain, Styles, Transform,
};

fn cite(key: &str, span: u64) -> Content {
    let mut c = Content::text(key).with_span(Span(span));
    c.kind = Kind::Cite;
    c
}

fn unstyled(content: &Content) -> &Content {
    if content.kind == Kind::Styled {
        &content.children[0]
    } else {
        content
    }
}

#[test]
fn text_reaches_the_paragraph_when_the_citations_are_closed() {
    let scratch = Scratch::new();
    let mut engine = Engine::new();
    let mut builder = Builder::new(&scratch, false);
    let a = cite("a", 1);
    let space = Content::new(Kind::Space);
    let x = Content::text("x");
    builder.accept(&mut engine, &a, StyleChain::empty()).unwrap();
    builder.accept(&mut engine, &space, StyleChain::empty()).unwrap();
    assert_eq!(builder.cites.items.len(), 1);
    assert!(builder.par.0.is_empty());
    builder.accept(&mut engine, &x, StyleChain::empty()).unwrap();
    assert!(builder.cites.items.is_empty());
    assert!(builder.cites.staged.is_empty());
    assert!(builder.list.items.is_empty());
    assert!(!builder.par.0.is_empty());
    assert_eq!(engine.route.depth, 0);
}

#[test]
fn block_reaches_the_flow_when_list_and_paragraph_are_closed() {
    let scratch = Scratch::new();
    let mut engine = Engine::new();
    let mut builder = Builder::new(&scratch, false);
    let item = Content::container(Kind::ListItem, vec![Content::text("a")]);
    let x = Content::text("x");
    let block = Content::new(Kind::Block);
    builder.accept(&mut engine, &x, StyleChain::empty()).unwrap();
    builder.accept(&mut engine, &item, StyleChain::empty()).unwrap();
    assert!(!builder.par.0.is_empty());
    assert_eq!(builder.list.items.items.len(), 1);
    builder.accept(&mut engine, &block, StyleChain::empty()).unwrap();
    assert!(builder.cites.items.is_empty());
    assert!(builder.list.items.is_empty());
    assert!(builder.par.0.is_empty());
    let found: Vec<Kind> = builder.flow.0.builder.items.iter().map(|p| p.0.kind).collect();
    assert_eq!(found, vec![Kind::Par, Kind::V, Kind::List, Kind::V, Kind::Block]);
}

#[test]
fn show_rule_that_makes_citations_refills_the_group() {
    let mut root = Styles::new();
    root.set(Style::Recipe(Recipe {
        span: Span(7),
        selector: Some(Selector::Elem(Kind::CiteGroup)),
        transform: Transform::Func(Func::Constant(cite("b", 2))),
    }));
    let styles = StyleChain::new(&root);
    let scratch = Scratch::new();
    let mut engine = Engine::new();
    let mut builder = Builder::new(&scratch, false);
    let a = cite("a", 1);
    let x = Content::text("x");
    builder.accept(&mut engine, &a, styles).unwrap();
    builder.accept(&mut engine, &x, styles).unwrap();
    assert!(!builder.par.0.is_empty());
    assert_eq!(builder.cites.items.len(), 1);
    assert_eq!(builder.cites.items[0].text, "b");
}

#[test]
fn staged_content_is_replayed_in_order_after_the_group() {
    let input = Content::sequence(vec![
        cite("a", 1),
        Content::new(Kind::Meta).with_span(Span(11)),
        Content::new(Kind::Space),
        Content::new(Kind::Meta).with_span(Span(12)),
        Content::text("x"),
    ]);
    let scratch = Scratch::new();
    let mut engine = Engine::new();
    let (flow, _) = realize_block(&mut engine, &scratch, &input, StyleChain::empty()).unwrap();
    let par = &flow.children[0];
    assert_eq!(par.kind, Kind::Par);
    let seen: Vec<(Kind, String, Span)> = par
        .children
        .iter()
        .map(unstyled)
        .filter(|c| {
            let staged = c.span == Span(11) || c.span == Span(12);
            c.kind == Kind::Text || c.kind == Kind::Space || staged
        })
        .map(|c| (c.kind, c.text.clone(), c.span))
        .collect();
    assert_eq!(
        seen,
        vec![
            (Kind::Text, "a".to_string(), Span(1)),
            (Kind::Meta, "".to_string(), Span(11)),
            (Kind::Space, "".to_string(), Span(0)),
            (Kind::Meta, "".to_string(), Span(12)),
            (Kind::Text, "x".to_string(), Span(0)),
        ]
    );
}

#[test]
fn staged_list_content_is_replayed_after_the_list() {
    let input = Content::sequence(vec![
        Content::container(Kind::ListItem, vec![Content::text("a")]),
        Content::new(Kind::Parbreak),
        Content::text("x"),
    ]);
    let scratch = Scratch::new();
    let mut engine = Engine::new();
    let (flow, _) = realize_block(&mut engine, &scratch, &input, StyleChain::empty()).unwrap();
    let found: Vec<(Kind, usize)> =
        flow.children.iter().map(|c| (c.kind, c.fields.weakness)).collect();
    assert_eq!(found, vec![(Kind::List, 0), (Kind::V, 4), (Kind::Par, 0)]);
    assert_eq!(flow.children[0].fields.tight, Some(true));
}

#[test]
fn prepared_document_without_rules_is_left_as_it_is() {
    let document = Content::container(
        Kind::Document,
        vec![Content::container(Kind::Page, vec![Content::new(Kind::Flow)])],
    )
    .marked_prepared();
    let mut root = Styles::new();
    root.set(Style::Recipe(Recipe {
        span: Span(7),
        selector: Some(Selector::Elem(Kind::Page)),
        transform: Transform::Func(Func::Identity),
    }));
    let styles = StyleChain::new(&root);
    let mut engine = Engine::new();
    assert!(!applicable(&document, styles));
    assert!(realize(&mut engine, &document, styles).unwrap().is_none());
    assert!(engine.locator.seen.is_empty());
    assert_eq!(engine.route.depth, 0);
}

#[test]
fn depth_is_restored_after_nested_show_rules() {
    let mut root = Styles::new();
    root.set(Style::Recipe(Recipe {
        span: Span(7),
        selector: Some(Selector::Elem(Kind::Text)),
        transform: Transform::Func(Func::Wrap(Kind::Boxed)),
    }));
    let input = Content::sequence(vec![Content::text("a"), Content::text("b")]);
    let scratch = Scratch::new();
    let mut engine = Engine::new();
    engine.route.depth = 5;
    let (flow, _) = realize_block(&mut engine, &scratch, &input, StyleChain::new(&root)).unwrap();
    assert_eq!(engine.route.depth, 5);
    let kinds: Vec<Kind> = flow.children[0].children.iter().map(|c| c.kind).collect();
    assert_eq!(kinds, vec![Kind::Boxed, Kind::Boxed]);
}

#[test]
fn long_document_under_nested_styles() {
    let mut input = Content::sequence(
        (0..400)
            .map(|i| {
                if i % 50 == 49 {
                    Content::new(Kind::Parbreak)
                } else if i % 2 == 1 {
                    Content::new(Kind::Space)
                } else {
                    Content::text("word").with_span(Span(i + 1))
                }
            })
            .collect(),
    );
    for level in 0..20 {
        let mut local = Styles::new();
        local.set(Style::Property(realize::Property {
            kind: Kind::Text,
            field: realize::Field::Other(level),
            value: realize::Value::Length(level as i64),
            span: None,
        }));
        input = Content::sequence(vec![Content::text("head"), input.styled_with_map(local)]);
    }
    let scratch = Scratch::new();
    let mut engine = Engine::new();
    let (flow, shared) = realize_block(&mut engine, &scratch, &input, StyleChain::empty()).unwrap();
    assert!(shared.is_empty());
    let pars: Vec<&Content> =
        flow.children.iter().map(unstyled).filter(|c| c.kind == Kind::Par).collect();
    assert_eq!(pars.len(), 8);
    let styled = flow.children.iter().filter(|c| c.kind == Kind::Styled).count();
    assert!(styled >= 7);
    let words: usize = pars
        .iter()
        .map(|p| p.children.iter().map(unstyled).filter(|c| c.kind == Kind::Text).count())
        .sum();
    assert_eq!(words, 200 + 20);
    assert_eq!(engine.route.depth, 0);
}
