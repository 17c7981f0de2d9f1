use realize::{
    realize_block, realize_root, Builder, Content, Engine, Error, ErrorKind, Field, Func, Kind,
    Property, Recipe, Scratch, Selector, Span, Style, StyleChain, Styles, Transform, Value,
};

fn set(kind: Kind, span: u64) -> Styles {
    let mut local = Styles::new();
    local.set(Style::Property(Property {
        kind,
        field: Field::Other(1),
        value: Value::Bool(true),
        span: Some(Span(span)),
    }));
    local
}

#[test]
fn pagebreak_in_a_container_is_an_error() {
    let input = Content::new(Kind::Pagebreak).with_span(Span(4));
    let scratch = Scratch::new();
    let mut engine = Engine::new();
    let err = realize_block(&mut engine, &scratch, &input, StyleChain::empty()).unwrap_err();
    assert_eq!(err, Error { kind: ErrorKind::PagebreakInContainer, span: Span(4) });
    assert_eq!(err.message(), "pagebreaks are not allowed inside of containers");
    assert!(err.hints().is_empty());
}

#[test]
fn element_that_no_builder_takes_is_an_error() {
    let input = Content::new(Kind::Align).with_span(Span(6));
    let scratch = Scratch::new();
    let mut engine = Engine::new();
    let err = realize_root(&mut engine, &scratch, &input, StyleChain::empty()).unwrap_err();
    assert_eq!(err, Error { kind: ErrorKind::NotAllowed(Kind::Align), span: Span(6) });
    assert_eq!(err.message(), "align is not allowed here");
}

#[test]
fn page_in_a_container_is_not_allowed() {
    let input = Content::new(Kind::Page).with_span(Span(8));
    let scratch = Scratch::new();
    let mut engine = Engine::new();
    let err = realize_block(&mut engine, &scratch, &input, StyleChain::empty()).unwrap_err();
    assert_eq!(err, Error { kind: ErrorKind::NotAllowed(Kind::Page), span: Span(8) });
    assert_eq!(err.message(), "page is not allowed here");
}

#[test]
fn document_set_rule_in_a_container_is_an_error() {
    let input = Content::text("x").styled_with_map(set(Kind::Document, 21));
    let scratch = Scratch::new();
    let mut engine = Engine::new();
    let err = realize_block(&mut engine, &scratch, &input, StyleChain::empty()).unwrap_err();
    assert_eq!(err, Error { kind: ErrorKind::DocumentRuleInContainer, span: Span(21) });
    assert_eq!(err.message(), "document set rules are not allowed inside of containers");
}

#[test]
fn page_set_rule_in_a_container_is_an_error() {
    let input = Content::text("x").styled_with_map(set(Kind::Page, 22));
    let scratch = Scratch::new();
    let mut engine = Engine::new();
    let err = realize_block(&mut engine, &scratch, &input, StyleChain::empty()).unwrap_err();
    assert_eq!(err, Error { kind: ErrorKind::PageRuleInContainer, span: Span(22) });
    assert_eq!(err.message(), "page configuration is not allowed inside of containers");
}

#[test]
fn page_set_rule_at_the_root_closes_the_page() {
    let input = Content::sequence(vec![
        Content::text("a"),
        Content::text("b").styled_with_map(set(Kind::Page, 22)),
    ]);
    let scratch = Scratch::new();
    let mut engine = Engine::new();
    let (doc, _) = realize_root(&mut engine, &scratch, &input, StyleChain::empty()).unwrap();
    assert_eq!(doc.children.len(), 2);
}

#[test]
fn failing_callable_is_reported_at_the_rule() {
    let mut root = Styles::new();
    root.set(Style::Recipe(Recipe {
        span: Span(33),
        selector: Some(Selector::Elem(Kind::Text)),
        transform: Transform::Func(Func::Fail),
    }));
    let input = Content::text("x");
    let scratch = Scratch::new();
    let mut engine = Engine::new();
    let err = realize_block(&mut engine, &scratch, &input, StyleChain::new(&root)).unwrap_err();
    assert_eq!(err, Error { kind: ErrorKind::Raised, span: Span(33) });
    assert_eq!(err.message(), "the show rule raised an error");
}

#[test]
fn failing_callable_on_a_regex_match_is_reported() {
    let mut root = Styles::new();
    root.set(Style::Recipe(Recipe {
        span: Span(34),
        selector: Some(Selector::Regex("b+".to_string())),
        transform: Transform::Func(Func::Fail),
    }));
    let scratch = Scratch::new();
    let mut engine = Engine::new();
    let hit = Content::text("abba");
    let err = realize_block(&mut engine, &scratch, &hit, StyleChain::new(&root)).unwrap_err();
    assert_eq!(err, Error { kind: ErrorKind::Raised, span: Span(34) });
    let miss = Content::text("aaa");
    assert!(realize_block(&mut engine, &scratch, &miss, StyleChain::new(&root)).is_ok());
}

#[test]
fn walk_without_budget_reports_nesting() {
    let scratch = Scratch::new();
    let mut engine = Engine::new();
    let mut builder = Builder::new(&scratch, false);
    builder.budget = 1;
    let input = Content::container(Kind::Sequence, vec![Content::text("x").with_span(Span(2))]);
    let err = builder.accept(&mut engine, &input, StyleChain::empty()).unwrap_err();
    assert_eq!(err, Error { kind: ErrorKind::Nesting, span: Span(2) });
    assert_eq!(err.message(), "maximum nesting depth exceeded");

    let mut builder = Builder::new(&scratch, false);
    builder.budget = 2;
    assert!(builder.accept(&mut engine, &input, StyleChain::empty()).is_ok());
    assert_eq!(builder.budget, 2);
}

#[test]
fn show_rules_nest_up_to_the_limit() {
    let scratch = Scratch::new();
    let mut root = Styles::new();
    root.set(Style::Recipe(Recipe {
        span: Span(1),
        selector: Some(Selector::Elem(Kind::Text)),
        transform: Transform::Func(Func::Constant(Content::new(Kind::Space))),
    }));
    let input = Content::text("x").with_span(Span(3));

    let mut engine = Engine::new();
    engine.route.depth = realize::MAX_SHOW_RULE_DEPTH - 1;
    let mut builder = Builder::new(&scratch, false);
    assert!(builder.accept(&mut engine, &input, StyleChain::new(&root)).is_ok());
    assert_eq!(engine.route.depth, realize::MAX_SHOW_RULE_DEPTH - 1);

    let mut engine = Engine::new();
    engine.route.depth = realize::MAX_SHOW_RULE_DEPTH;
    let mut builder = Builder::new(&scratch, false);
    let err = builder.accept(&mut engine, &input, StyleChain::new(&root)).unwrap_err();
    assert_eq!(err, Error { kind: ErrorKind::ShowRuleDepth, span: Span(3) });
}
