use realize::{
    realize_block, realize_root, Content, Engine, ErrorKind, Field, Fields, Func, Kind, Property,
    Recipe, Scratch, Selector, Span, Style, StyleChain, Styles, Transform, Value,
};

fn text(s: &str) -> Content {
    Content::text(s)
}

fn item(kind: Kind, body: &str) -> Content {
    Content::container(kind, vec![text(body)])
}

fn texts(content: &Content) -> Vec<String> {
    content.children.iter().map(|c| c.text.clone()).collect()
}

fn kinds(content: &Content) -> Vec<Kind> {
    content.children.iter().map(|c| c.kind).collect()
}

fn unstyled(content: &Content) -> &Content {
    if content.kind == Kind::Styled {
        &content.children[0]
    } else {
        content
    }
}

fn show(selector: Selector, func: Func) -> Style {
    Style::Recipe(Recipe {
        span: Span(7),
        selector: Some(selector),
        transform: Transform::Func(func),
    })
}

#[test]
fn plain_text_becomes_a_paragraph_in_a_flow() {
    let input = Content::sequence(vec![text("hi"), Content::new(Kind::Space), text("world")]);
    let scratch = Scratch::new();
    let mut engine = Engine::new();
    let (flow, _) = realize_block(&mut engine, &scratch, &input, StyleChain::empty()).unwrap();
    assert_eq!(flow.kind, Kind::Flow);
    assert_eq!(flow.children.len(), 1);
    let par = &flow.children[0];
    assert_eq!(par.kind, Kind::Par);
    assert_eq!(kinds(par), vec![Kind::Text, Kind::Space, Kind::Text]);
    assert_eq!(texts(par), vec!["hi".to_string(), "".to_string(), "world".to_string()]);
}

#[test]
fn regex_show_rule_rewrites_the_matches() {
    let input = text("a-b-c");
    let mut root = Styles::new();
    root.set(show(Selector::Regex("-".to_string()), Func::Constant(text("\u{b7}"))));
    let scratch = Scratch::new();
    let mut engine = Engine::new();
    let (flow, _) = realize_block(&mut engine, &scratch, &input, StyleChain::new(&root)).unwrap();
    assert_eq!(flow.kind, Kind::Flow);
    let par = &flow.children[0];
    assert_eq!(par.kind, Kind::Par);
    assert_eq!(
        texts(par),
        vec![
            "a".to_string(),
            "\u{b7}".to_string(),
            "b".to_string(),
            "\u{b7}".to_string(),
            "c".to_string()
        ]
    );
}

#[test]
fn tight_list_from_items_around_a_space() {
    let input = Content::sequence(vec![
        item(Kind::ListItem, "a"),
        Content::new(Kind::Space),
        item(Kind::ListItem, "b"),
    ]);
    let scratch = Scratch::new();
    let mut engine = Engine::new();
    let (flow, _) = realize_block(&mut engine, &scratch, &input, StyleChain::empty()).unwrap();
    assert_eq!(kinds(flow), vec![Kind::List]);
    let list = &flow.children[0];
    assert_eq!(list.fields.tight, Some(true));
    assert_eq!(kinds(list), vec![Kind::ListItem, Kind::ListItem]);
    assert_eq!(list.children[0].children[0].text, "a");
    assert_eq!(list.children[1].children[0].text, "b");
}

#[test]
fn loose_list_from_items_around_a_paragraph_break() {
    let input = Content::sequence(vec![
        item(Kind::ListItem, "a"),
        Content::new(Kind::Parbreak),
        item(Kind::ListItem, "b"),
    ]);
    let scratch = Scratch::new();
    let mut engine = Engine::new();
    let (flow, _) = realize_block(&mut engine, &scratch, &input, StyleChain::empty()).unwrap();
    assert_eq!(kinds(flow), vec![Kind::List]);
    let list = &flow.children[0];
    assert_eq!(list.fields.tight, Some(false));
    assert_eq!(kinds(list), vec![Kind::ListItem, Kind::ListItem]);
    assert_eq!(list.children[0].children[0].text, "a");
    assert_eq!(list.children[1].children[0].text, "b");
}

#[test]
fn items_of_another_kind_start_a_new_list() {
    let input = Content::sequence(vec![
        item(Kind::ListItem, "a"),
        item(Kind::EnumItem, "b"),
        item(Kind::EnumItem, "c"),
    ]);
    let scratch = Scratch::new();
    let mut engine = Engine::new();
    let (flow, _) = realize_block(&mut engine, &scratch, &input, StyleChain::empty()).unwrap();
    let blocks: Vec<Kind> = kinds(flow).into_iter().filter(|k| *k != Kind::V).collect();
    assert_eq!(blocks, vec![Kind::List, Kind::Enum]);
    let lists: Vec<&Content> = flow.children.iter().filter(|c| c.kind != Kind::V).collect();
    assert_eq!(kinds(lists[0]), vec![Kind::ListItem]);
    assert_eq!(kinds(lists[1]), vec![Kind::EnumItem, Kind::EnumItem]);
}

#[test]
fn pagebreak_closes_the_page() {
    let mut fields = Fields::unset();
    fields.weak = Some(false);
    let input = Content::sequence(vec![
        text("A"),
        Content::new(Kind::Pagebreak).with_fields(fields),
        text("B"),
    ]);
    let scratch = Scratch::new();
    let mut engine = Engine::new();
    let (doc, _) = realize_root(&mut engine, &scratch, &input, StyleChain::empty()).unwrap();
    assert_eq!(doc.kind, Kind::Document);
    assert_eq!(doc.children.len(), 2);
    for (page, expected) in doc.children.iter().zip(["A", "B"]) {
        assert_eq!(page.kind, Kind::Page);
        assert_eq!(page.children.len(), 1);
        let flow = &page.children[0];
        assert_eq!(flow.kind, Kind::Flow);
        assert_eq!(flow.children.len(), 1);
        let par = &flow.children[0];
        assert_eq!(par.kind, Kind::Par);
        assert_eq!(texts(par), vec![expected.to_string()]);
    }
}

#[test]
fn empty_input_at_the_root_gives_one_empty_page() {
    let input = Content::sequence(vec![]);
    let scratch = Scratch::new();
    let mut engine = Engine::new();
    let (doc, _) = realize_root(&mut engine, &scratch, &input, StyleChain::empty()).unwrap();
    assert_eq!(doc.kind, Kind::Document);
    assert_eq!(kinds(&doc), vec![Kind::Page]);
    assert_eq!(kinds(&doc.children[0]), vec![Kind::Flow]);
    assert_eq!(doc.children[0].children[0].children.len(), 0);
}

#[test]
fn pagebreak_to_a_parity_clears_the_next_page() {
    let mut fields = Fields::unset();
    fields.parity = Some(realize::Parity::Odd);
    let input = Content::sequence(vec![
        text("A"),
        Content::new(Kind::Pagebreak).with_fields(fields),
        text("B"),
    ]);
    let scratch = Scratch::new();
    let mut engine = Engine::new();
    let (doc, _) = realize_root(&mut engine, &scratch, &input, StyleChain::empty()).unwrap();
    assert_eq!(doc.children.len(), 2);
    assert_eq!(doc.children[0].fields.parity, None);
    assert_eq!(doc.children[1].fields.parity, Some(realize::Parity::Odd));
}

#[test]
fn document_set_rule_after_content_is_an_error() {
    let mut local = Styles::new();
    local.set(Style::Property(Property {
        kind: Kind::Document,
        field: Field::Other(1),
        value: Value::Bool(true),
        span: Some(Span(42)),
    }));
    let input =
        Content::sequence(vec![text("x"), text("y").with_span(Span(9)).styled_with_map(local)]);
    let scratch = Scratch::new();
    let mut engine = Engine::new();
    let err = realize_root(&mut engine, &scratch, &input, StyleChain::empty()).unwrap_err();
    assert_eq!(err.kind, ErrorKind::DocumentRuleAfterContent);
    assert_eq!(err.span, Span(42));
    assert_eq!(err.message(), "document set rules must appear before any content");
}

#[test]
fn document_set_rule_before_content_is_accepted() {
    let mut local = Styles::new();
    local.set(Style::Property(Property {
        kind: Kind::Document,
        field: Field::Other(1),
        value: Value::Bool(true),
        span: Some(Span(42)),
    }));
    let input = text("y").styled_with_map(local);
    let scratch = Scratch::new();
    let mut engine = Engine::new();
    let (doc, _) = realize_root(&mut engine, &scratch, &input, StyleChain::empty()).unwrap();
    assert_eq!(kinds(&doc), vec![Kind::Page]);
}

#[test]
fn citations_around_a_space_form_one_group() {
    let input = Content::sequence(vec![
        text("a").with_span(Span(1)),
        Content::new(Kind::Space),
        text("b").with_span(Span(2)),
    ]);
    let mut cites = input;
    for c in cites.children.iter_mut() {
        if c.kind == Kind::Text {
            c.kind = Kind::Cite;
        }
    }
    let mut root = Styles::new();
    root.set(show(Selector::Elem(Kind::CiteGroup), Func::Wrap(Kind::Boxed)));
    let scratch = Scratch::new();
    let mut engine = Engine::new();
    let (flow, _) = realize_block(&mut engine, &scratch, &cites, StyleChain::new(&root)).unwrap();
    let par = &flow.children[0];
    assert_eq!(par.kind, Kind::Par);
    let boxes: Vec<&Content> =
        par.children.iter().map(unstyled).filter(|c| c.kind == Kind::Boxed).collect();
    assert_eq!(boxes.len(), 1);
    let group = &boxes[0].children[0];
    assert_eq!(group.kind, Kind::CiteGroup);
    assert_eq!(kinds(group), vec![Kind::Cite, Kind::Cite]);
    assert_eq!(texts(group), vec!["a".to_string(), "b".to_string()]);
    assert_eq!(group.span, Span(1));
    assert!(group.guards.contains(&realize::Guard(1)));
    assert!(par.children.iter().map(unstyled).all(|c| c.kind != Kind::Space));
}

#[test]
fn citation_group_is_shown_as_its_keys() {
    let mut a = text("a");
    a.kind = Kind::Cite;
    let mut b = text("b");
    b.kind = Kind::Cite;
    let input = Content::sequence(vec![a, b]);
    let scratch = Scratch::new();
    let mut engine = Engine::new();
    let (flow, _) = realize_block(&mut engine, &scratch, &input, StyleChain::empty()).unwrap();
    let par = &flow.children[0];
    let shown: Vec<String> = par
        .children
        .iter()
        .map(unstyled)
        .filter(|c| c.kind == Kind::Text)
        .map(|c| c.text.clone())
        .collect();
    assert_eq!(shown, vec!["a".to_string(), "b".to_string()]);
}

#[test]
fn rule_that_rewraps_its_own_output_overflows() {
    let input = Content::container(Kind::Heading, vec![text("x")]).with_span(Span(5));
    let mut root = Styles::new();
    root.set(show(Selector::Elem(Kind::Heading), Func::Wrap(Kind::Heading)));
    let scratch = Scratch::new();
    let mut engine = Engine::new();
    let err = realize_block(&mut engine, &scratch, &input, StyleChain::new(&root)).unwrap_err();
    assert_eq!(err.kind, ErrorKind::ShowRuleDepth);
    assert_eq!(err.message(), "maximum show rule depth exceeded");
    assert_eq!(err.hints().len(), 2);
    assert_eq!(err.hints()[0], "check whether the show rule matches its own output");
}

#[test]
fn heading_is_shown_as_a_block_between_its_spacing() {
    let input = Content::sequence(vec![
        text("before"),
        Content::container(Kind::Heading, vec![text("x")]).with_span(Span(5)),
        text("after"),
    ]);
    let scratch = Scratch::new();
    let mut engine = Engine::new();
    let (flow, _) = realize_block(&mut engine, &scratch, &input, StyleChain::empty()).unwrap();
    let found: Vec<Kind> = flow
        .children
        .iter()
        .map(|c| if c.kind == Kind::Styled { c.children[0].kind } else { c.kind })
        .collect();
    assert_eq!(
        found,
        vec![Kind::Par, Kind::V, Kind::Block, Kind::V, Kind::Meta, Kind::Par]
    );
    let block = flow.children.iter().map(unstyled).find(|c| c.kind == Kind::Block).unwrap();
    assert_eq!(block.span, Span(5));
    assert_eq!(texts(block), vec!["x".to_string()]);
    let spacings: Vec<i64> = flow
        .children
        .iter()
        .map(|c| if c.kind == Kind::Styled { &c.children[0] } else { c })
        .filter(|c| c.kind == Kind::V)
        .map(|c| c.fields.amount)
        .collect();
    assert_eq!(spacings, vec![1800, 750]);
}

#[test]
fn math_outside_an_equation_is_wrapped() {
    let input = Content::new(Kind::Math).with_span(Span(3));
    let scratch = Scratch::new();
    let mut engine = Engine::new();
    let (flow, _) = realize_block(&mut engine, &scratch, &input, StyleChain::empty()).unwrap();
    let par = &flow.children[0];
    assert_eq!(par.kind, Kind::Par);
    let equation = par
        .children
        .iter()
        .map(|c| if c.kind == Kind::Styled { &c.children[0] } else { c })
        .find(|c| c.kind == Kind::Equation)
        .unwrap();
    assert_eq!(equation.span, Span(3));
    assert!(equation.prepared);
    assert_eq!(equation.fields.block, Some(false));
    assert_eq!(kinds(equation), vec![Kind::Math]);
    assert!(equation.location.is_some());
}

#[test]
fn block_equation_goes_into_the_flow() {
    let mut fields = Fields::unset();
    fields.block = Some(true);
    let input = Content::new(Kind::Equation).with_fields(fields);
    let scratch = Scratch::new();
    let mut engine = Engine::new();
    let (flow, _) = realize_block(&mut engine, &scratch, &input, StyleChain::empty()).unwrap();
    let found: Vec<Kind> = flow
        .children
        .iter()
        .map(|c| if c.kind == Kind::Styled { c.children[0].kind } else { c.kind })
        .collect();
    assert_eq!(found, vec![Kind::Equation, Kind::Meta]);
}

#[test]
fn layoutable_block_without_rules_is_returned_as_it_is() {
    let input = Content::container(Kind::Block, vec![text("x")]).with_span(Span(11));
    let scratch = Scratch::new();
    let mut engine = Engine::new();
    let mut root = Styles::new();
    root.set(show(Selector::Elem(Kind::Heading), Func::Identity));
    let styles = StyleChain::new(&root);
    let (out, shared) = realize_block(&mut engine, &scratch, &input, styles).unwrap();
    assert!(std::ptr::eq(out, &input));
    assert!(shared.same(&styles));
    assert_eq!(engine.route.depth, 0);
    assert!(engine.locator.seen.is_empty());
}

#[test]
fn layoutable_block_with_a_rule_is_realized() {
    let input = Content::container(Kind::Block, vec![text("x")]);
    let scratch = Scratch::new();
    let mut engine = Engine::new();
    let mut root = Styles::new();
    root.set(show(Selector::Elem(Kind::Block), Func::Constant(text("y"))));
    let (out, _) = realize_block(&mut engine, &scratch, &input, StyleChain::new(&root)).unwrap();
    assert_eq!(out.kind, Kind::Flow);
    assert_eq!(kinds(out), vec![Kind::Par]);
    assert_eq!(texts(&out.children[0]), vec!["y".to_string()]);
}

#[test]
fn wrappers_take_the_span_of_the_first_visible_child() {
    let input = Content::sequence(vec![
        Content::new(Kind::Meta).with_span(Span(1)),
        text("a"),
        text("b").with_span(Span(2)),
        text("c").with_span(Span(3)),
    ]);
    let scratch = Scratch::new();
    let mut engine = Engine::new();
    let (doc, _) = realize_root(&mut engine, &scratch, &input, StyleChain::empty()).unwrap();

    assert_eq!(doc.span, Span(2));
    assert_eq!(doc.children[0].span, Span(2));
    let flow = &doc.children[0].children[0];
    assert_eq!(flow.span, Span(2));
    assert_eq!(kinds(flow), vec![Kind::Meta, Kind::Par]);
    assert_eq!(flow.children[0].span, Span(1));
    assert_eq!(flow.children[1].span, Span(2));
}

#[test]
fn local_styles_stay_on_the_child_that_has_them() {
    let mut local = Styles::new();
    local.set(Style::Property(Property {
        kind: Kind::Text,
        field: Field::Other(3),
        value: Value::Length(12),
        span: None,
    }));
    let input = Content::sequence(vec![text("a"), text("b").styled_with_map(local)]);
    let scratch = Scratch::new();
    let mut engine = Engine::new();
    let (flow, shared) = realize_block(&mut engine, &scratch, &input, StyleChain::empty()).unwrap();
    assert!(shared.is_empty());
    let par = &flow.children[0];
    assert_eq!(kinds(par), vec![Kind::Text, Kind::Styled]);
    assert_eq!(par.children[1].children[0].text, "b");
    assert_eq!(par.children[1].styles.entries.len(), 1);
}

#[test]
fn shared_styles_are_lifted_out_of_the_children() {
    let mut local = Styles::new();
    local.set(Style::Property(Property {
        kind: Kind::Text,
        field: Field::Other(3),
        value: Value::Length(12),
        span: None,
    }));
    let input = Content::sequence(vec![text("a"), text("b")]).styled_with_map(local);
    let scratch = Scratch::new();
    let mut engine = Engine::new();
    let (flow, shared) = realize_block(&mut engine, &scratch, &input, StyleChain::empty()).unwrap();
    assert!(!shared.is_empty());
    assert_eq!(shared.get(Kind::Text, Field::Other(3)), Some(Value::Length(12)));
    assert_eq!(kinds(flow), vec![Kind::Par]);
    assert_eq!(kinds(&flow.children[0]), vec![Kind::Text, Kind::Text]);
}
