//! What holds of the walk. The depth of show rules is restored by every
//! step. And the interrupt cascade: while no show rule is in force,
//! closing a builder leaves it and every builder further in empty, so that
//! content reaches an outer builder only when the inner ones hold nothing.

use vstd::prelude::*;

use crate::behave::{first_outweighed, kept, outweighs, trunk_of, BehavedV};
use crate::builder::{
    accept_all, accept_spec, closes_page, dispatch, dispatch_block, dispatch_outer,
    interrupt_cites_spec, interrupt_list_spec, interrupt_page_spec, interrupt_par_spec,
    interrupt_style_spec, kept_styles, page_of, page_styles, replay, styled_spec, wrap_math,
    StateV,
};
use crate::content::{Behaviour, Capability, ContentV, Fields, Kind};
use crate::diag::Error;
use crate::element::{cited_keys, leading_in, spacing, LIST_ATTACH_WEAKNESS};
use crate::engine::MAX_SHOW_RULE_DEPTH;
use crate::group::{par_takes, without_spaces, wrap, CitesV, FlowV, ListV};
use crate::rules::{
    extra_styles, fire_from, meta_entry, prepared, prepared_elem, prepares, realize_seen,
    realize_spec, show_set_map,
};
use crate::style::{
    chained, common, entries_of, is_suffix_of, recipes_among, recipes_of, reversed, StyleV,
};

verus! {

/// Whether the map holds no show rule.
pub open spec fn plain_map(map: Seq<StyleV>) -> bool {
    forall|j: int| 0 <= j < map.len() ==> #[trigger] map[j] is Property
}

/// Whether no show rule is in force under the chain.
pub open spec fn plain_chain(links: Seq<Seq<StyleV>>) -> bool {
    forall|i: int| 0 <= i < links.len() ==> plain_map(#[trigger] links[i])
}

/// Whether no show rule is in force for any of the entries.
pub open spec fn plain_pairs(items: Seq<(ContentV, Seq<Seq<StyleV>>)>) -> bool {
    forall|i: int| 0 <= i < items.len() ==> plain_chain((#[trigger] items[i]).1)
}

/// Whether no show rule is in force for anything that the builder holds.
pub open spec fn plain_behaved(b: BehavedV) -> bool {
    &&& plain_pairs(b.items)
    &&& forall|i: int| 0 <= i < b.staged.len() ==> plain_chain((#[trigger] b.staged[i]).2)
}

/// Whether the content is of the kind that builders make or stage, or is
/// made of such content: spaces, breaks, metadata, text, paragraphs,
/// lists, pages and citation groups, in sequences and under styles without
/// show rules. Realizing it yields no citation and no list item.
pub open spec fn inert(c: ContentV) -> bool
    decreases c,
{
    match c.kind {
        Kind::Sequence => forall|i: int|
            0 <= i < c.children.len() ==> inert(#[trigger] c.children[i]),
        Kind::Styled => c.children.len() >= 1 && inert(c.children[0]) && plain_map(c.styles),
        Kind::Space
        | Kind::Parbreak
        | Kind::Meta
        | Kind::Text
        | Kind::Par
        | Kind::List
        | Kind::Enum
        | Kind::Terms
        | Kind::Page
        | Kind::CiteGroup => true,
        _ => false,
    }
}

/// Whether all the entries are inert.
pub open spec fn inert_pairs(items: Seq<(ContentV, Seq<Seq<StyleV>>)>) -> bool {
    forall|i: int| 0 <= i < items.len() ==> inert((#[trigger] items[i]).0)
}

proof fn lemma_entries_plain(links: Seq<Seq<StyleV>>)
    requires
        plain_chain(links),
    ensures
        plain_map(entries_of(links)),
    decreases links.len(),
{
    if links.len() > 0 {
        assert(plain_map(links[0]));
        assert forall|i: int| 0 <= i < links.drop_first().len() implies plain_map(
            #[trigger] links.drop_first()[i],
        ) by {
            assert(links.drop_first()[i] == links[i + 1]);
        }
        lemma_entries_plain(links.drop_first());
        let head = reversed(links[0]);
        let rest = entries_of(links.drop_first());
        assert forall|j: int| 0 <= j < (head + rest).len() implies #[trigger] (head + rest)[j]
            is Property by {
            if j < head.len() {
                assert(head[j] == links[0][links[0].len() - 1 - j]);
            } else {
                assert((head + rest)[j] == rest[j - head.len()]);
            }
        }
    }
}

proof fn lemma_no_recipes_among(entries: Seq<StyleV>)
    requires
        plain_map(entries),
    ensures
        recipes_among(entries).len() == 0,
    decreases entries.len(),
{
    if entries.len() > 0 {
        assert(entries.last() is Property);
        let before = entries.drop_last();
        assert forall|j: int| 0 <= j < before.len() implies #[trigger] before[j] is Property by {
            assert(before[j] == entries[j]);
        }
        lemma_no_recipes_among(before);
    }
}

/// A chain without show rules has no recipes.
pub proof fn lemma_plain_has_no_recipes(links: Seq<Seq<StyleV>>)
    requires
        plain_chain(links),
    ensures
        recipes_of(links).len() == 0,
{
    lemma_entries_plain(links);
    lemma_no_recipes_among(entries_of(links));
}

proof fn lemma_chained_plain(links: Seq<Seq<StyleV>>, local: Seq<StyleV>)
    requires
        plain_chain(links),
        plain_map(local),
    ensures
        plain_chain(chained(links, local)),
{
    let out = chained(links, local);
    assert forall|i: int| 0 <= i < out.len() implies plain_map(#[trigger] out[i]) by {
        if local.len() > 0 && i > 0 {
            assert(out[i] == links[i - 1]);
        } else if local.len() == 0 {
            assert(out[i] == links[i]);
        }
    }
}

proof fn lemma_drop_first_plain(links: Seq<Seq<StyleV>>)
    requires
        plain_chain(links),
        links.len() > 0,
    ensures
        plain_chain(links.drop_first()),
{
    assert forall|i: int| 0 <= i < links.drop_first().len() implies plain_map(
        #[trigger] links.drop_first()[i],
    ) by {
        assert(links.drop_first()[i] == links[i + 1]);
    }
}

proof fn lemma_common_plain(a: Seq<Seq<StyleV>>, b: Seq<Seq<StyleV>>)
    requires
        plain_chain(a),
    ensures
        plain_chain(common(a, b)),
    decreases a.len(),
{
    if a.len() == 0 || is_suffix_of(a, b) {
    } else {
        lemma_drop_first_plain(a);
        lemma_common_plain(a.drop_first(), b);
    }
}

/// What entries without show rules share has no show rule.
pub proof fn lemma_trunk_plain(items: Seq<(ContentV, Seq<Seq<StyleV>>)>)
    requires
        plain_pairs(items),
    ensures
        plain_chain(trunk_of(items)),
    decreases items.len(),
{
    if items.len() == 0 {
    } else if items.len() == 1 {
        assert(plain_chain(items[0].1));
    } else {
        assert forall|i: int| 0 <= i < items.drop_last().len() implies plain_chain(
            (#[trigger] items.drop_last()[i]).1,
        ) by {
            assert(items.drop_last()[i] == items[i]);
        }
        lemma_trunk_plain(items.drop_last());
        lemma_common_plain(trunk_of(items.drop_last()), items.last().1);
    }
}

proof fn lemma_kept_plain(
    staged: Seq<(ContentV, Behaviour, Seq<Seq<StyleV>>)>,
    supportive: bool,
)
    requires
        forall|i: int| 0 <= i < staged.len() ==> plain_chain((#[trigger] staged[i]).2),
    ensures
        plain_pairs(kept(staged, supportive)),
    decreases staged.len(),
{
    if staged.len() > 0 {
        assert forall|i: int| 0 <= i < staged.drop_last().len() implies plain_chain(
            (#[trigger] staged.drop_last()[i]).2,
        ) by {
            assert(staged.drop_last()[i] == staged[i]);
        }
        lemma_kept_plain(staged.drop_last(), supportive);
        assert(plain_chain(staged.last().2));
        let before = kept(staged.drop_last(), supportive);
        let out = kept(staged, supportive);
        assert forall|i: int| 0 <= i < out.len() implies plain_chain((#[trigger] out[i]).1) by {
            if i < before.len() {
                assert(out[i] == before[i]);
            }
        }
    }
}

proof fn lemma_flushed_plain(b: BehavedV, supportive: bool)
    requires
        plain_behaved(b),
    ensures
        plain_behaved(b.flushed(supportive)),
{
    lemma_kept_plain(b.staged, supportive);
    let out = b.flushed(supportive);
    let tail = kept(b.staged, supportive);
    assert forall|i: int| 0 <= i < out.items.len() implies plain_chain(
        (#[trigger] out.items[i]).1,
    ) by {
        if i < b.items.len() {
            assert(out.items[i] == b.items[i]);
        } else {
            assert(out.items[i] == tail[i - b.items.len()]);
        }
    }
}

/// A builder without show rules stays so when it is pushed an element
/// under a chain without show rules.
pub proof fn lemma_push_plain(b: BehavedV, elem: ContentV, styles: Seq<Seq<StyleV>>)
    requires
        plain_behaved(b),
        plain_chain(styles),
    ensures
        plain_behaved(b.push(elem, styles)),
{
    let out = b.push(elem, styles);
    match elem.behaviour() {
        Behaviour::Weak(level) => {
            let found = first_outweighed(b.staged, elem, level, 0);
            if b.last is Weak && found is None {
            } else {
                let staged = if b.last is Weak {
                    b.staged.remove(found.unwrap())
                } else {
                    b.staged
                };
                if b.last is Weak {
                    lemma_first_outweighed_in_range(b.staged, elem, level, 0);
                }
                assert forall|i: int| 0 <= i < staged.len() implies plain_chain(
                    (#[trigger] staged[i]).2,
                ) by {
                    if b.last is Weak {
                        let k = found.unwrap();
                        if i < k {
                            assert(staged[i] == b.staged[i]);
                        } else {
                            assert(staged[i] == b.staged[i + 1]);
                        }
                    }
                }
                assert forall|i: int| 0 <= i < out.staged.len() implies plain_chain(
                    (#[trigger] out.staged[i]).2,
                ) by {
                    if i < staged.len() {
                        assert(out.staged[i] == staged[i]);
                    }
                }
            }
        },
        Behaviour::Supportive => {
            lemma_flushed_plain(b, true);
            let settled = b.flushed(true);
            assert forall|i: int| 0 <= i < out.items.len() implies plain_chain(
                (#[trigger] out.items[i]).1,
            ) by {
                if i < settled.items.len() {
                    assert(out.items[i] == settled.items[i]);
                }
            }
        },
        Behaviour::Destructive => {
            lemma_flushed_plain(b, false);
            let settled = b.flushed(false);
            assert forall|i: int| 0 <= i < out.items.len() implies plain_chain(
                (#[trigger] out.items[i]).1,
            ) by {
                if i < settled.items.len() {
                    assert(out.items[i] == settled.items[i]);
                }
            }
        },
        _ => {
            assert forall|i: int| 0 <= i < out.staged.len() implies plain_chain(
                (#[trigger] out.staged[i]).2,
            ) by {
                if i < b.staged.len() {
                    assert(out.staged[i] == b.staged[i]);
                }
            }
        },
    }
}

proof fn lemma_first_outweighed_in_range(
    staged: Seq<(ContentV, Behaviour, Seq<Seq<StyleV>>)>,
    elem: ContentV,
    level: usize,
    from: int,
)
    requires
        0 <= from,
    ensures
        first_outweighed(staged, elem, level, from) matches Some(k) ==> from <= k
            < staged.len(),
    decreases staged.len() - from,
{
    if from < staged.len() && !outweighs(elem, level, staged[from]) {
        lemma_first_outweighed_in_range(staged, elem, level, from + 1);
    }
}

/// A flow without show rules stays so when it is offered content under a
/// chain without show rules.
pub proof fn lemma_flow_accept_plain(flow: FlowV, content: ContentV, styles: Seq<Seq<StyleV>>)
    requires
        plain_behaved(flow.builder),
        plain_chain(styles),
    ensures
        plain_behaved(flow.accept(content, styles).builder),
{
    if content.kind == Kind::Parbreak {
    } else if FlowV::takes_verbatim(content) {
        lemma_push_plain(flow.builder, content, styles);
    } else if FlowV::takes_block(content) {
        let attach = spacing(
            leading_in(styles),
            LIST_ATTACH_WEAKNESS,
        );
        let attached = if !flow.last_was_parbreak && content.is_tight_list(styles) {
            flow.builder.push(attach, styles)
        } else {
            flow.builder
        };
        if !flow.last_was_parbreak && content.is_tight_list(styles) {
            lemma_push_plain(flow.builder, attach, styles);
        }
        lemma_push_plain(attached, content.above(styles), styles);
        lemma_push_plain(attached.push(content.above(styles), styles), content, styles);
        lemma_push_plain(
            attached.push(content.above(styles), styles).push(content, styles),
            content.below(styles),
            styles,
        );
    }
}

/// Under a chain without show rules, inert content is not wrapped as math,
/// is rewritten only by preparation or by the built-in show rule of a
/// citation group, and what it is rewritten into is inert again.
pub proof fn lemma_realize_inert(c: ContentV, styles: Seq<Seq<StyleV>>, seen: Seq<u128>)
    requires
        inert(c),
        plain_chain(styles),
    ensures
        !c.can(Capability::LayoutMath),
        realize_spec(c, styles, seen) is Ok,
        realize_spec(c, styles, seen) matches Ok(Some(made)) ==> inert(made),
        realize_spec(c, styles, seen) matches Ok(None) ==> c.kind != Kind::CiteGroup && !prepares(
            c,
            styles,
        ),
{
    lemma_plain_has_no_recipes(styles);
    let recipes = recipes_of(styles);
    assert(show_set_map(c, recipes) =~= Seq::empty());
    assert(extra_styles(c, styles) =~= Seq::empty());
    assert(fire_from(c, recipes, 0) == Ok::<Option<ContentV>, Error>(None));
    if prepares(c, styles) {
        let elem = prepared_elem(c, styles, seen);
        assert(c.needs_preparation());
        assert(elem.kind == c.kind && elem.children == c.children && elem.styles == c.styles);
        assert(inert(elem));
        assert(elem.location is Some);
        let meta = ContentV::new(Kind::Meta).spanned(elem.span);
        assert(inert(meta));
        let joined = elem.followed_by(meta);
        assert(joined.kind == Kind::Sequence);
        assert forall|i: int| 0 <= i < joined.children.len() implies inert(
            #[trigger] joined.children[i],
        ) by {
            if elem.kind == Kind::Sequence {
                if i < elem.children.len() {
                    assert(joined.children[i] == elem.children[i]);
                }
            }
        }
        assert(inert(joined));
        let map = extra_styles(c, styles).push(meta_entry(elem.location.unwrap()));
        assert(plain_map(map));
        let made = joined.styled_with_map(map);
        assert(made.children =~= seq![joined]);
        assert(inert(made));
        assert(prepared(c, styles, seen) == made);
    } else if c.can(Capability::Show) {
        assert(c.kind == Kind::CiteGroup);
        let keys = cited_keys(c.children);
        let made = ContentV::sequence(keys).spanned(c.span);
        if keys.len() == 1 {
            assert(inert(keys[0]));
        } else {
            assert forall|i: int| 0 <= i < made.children.len() implies inert(
                #[trigger] made.children[i],
            ) by {
                assert(made.children[i] == keys[i]);
            }
        }
        assert(inert(made));
    }
}

/// Whether no show rule is in force for anything that the builders hold,
/// and what the citation group and the list have staged is inert.
pub open spec fn calm(s: StateV) -> bool {
    &&& plain_chain(s.cites.styles)
    &&& plain_pairs(s.cites.staged)
    &&& inert_pairs(s.cites.staged)
    &&& plain_pairs(s.list.items)
    &&& plain_pairs(s.list.staged)
    &&& inert_pairs(s.list.staged)
    &&& plain_behaved(s.par)
    &&& plain_behaved(s.flow.builder)
    &&& (s.doc matches Some(doc) ==> plain_pairs(doc.pages))
}

/// Whether a step that started in `s` and ended as `r` kept the state
/// calm and the citation group empty, and the list empty if it was.
pub open spec fn settles(s: StateV, r: Result<StateV, Error>) -> bool {
    r matches Ok(after) ==> calm(after) && after.cites.items.len() == 0 && (s.list.items.len() == 0
        ==> after.list.items.len() == 0)
}

/// Whether the citation group, the list and the paragraph are empty.
pub open spec fn inner_empty(s: StateV) -> bool {
    s.cites.items.len() == 0 && s.list.items.len() == 0 && s.par.is_empty()
}

/// Whether the content is a leaf that a builder made and that needs no
/// preparation: a paragraph, a list or a page without a label.
pub open spec fn is_block_leaf(c: ContentV) -> bool {
    (c.kind == Kind::Par || c.kind == Kind::List || c.kind == Kind::Enum || c.kind == Kind::Terms
        || c.kind == Kind::Page) && c.label is None
}

proof fn lemma_with_pair(
    items: Seq<(ContentV, Seq<Seq<StyleV>>)>,
    content: ContentV,
    styles: Seq<Seq<StyleV>>,
)
    requires
        plain_pairs(items),
        plain_chain(styles),
    ensures
        plain_pairs(items.push((content, styles))),
        inert_pairs(items) && inert(content) ==> inert_pairs(items.push((content, styles))),
{
    let out = items.push((content, styles));
    assert forall|i: int| 0 <= i < out.len() implies plain_chain((#[trigger] out[i]).1) by {
        if i < items.len() {
            assert(out[i] == items[i]);
        }
    }
    if inert_pairs(items) && inert(content) {
        assert forall|i: int| 0 <= i < out.len() implies inert((#[trigger] out[i]).0) by {
            if i < items.len() {
                assert(out[i] == items[i]);
            }
        }
    }
}

proof fn lemma_closed_cites(fuel: nat, s: StateV)
    requires
        s.cites.items.len() == 0,
    ensures
        interrupt_cites_spec(fuel, s) == Ok::<StateV, Error>(s),
{
}

proof fn lemma_closed_list(fuel: nat, s: StateV)
    requires
        s.cites.items.len() == 0,
        s.list.items.len() == 0,
    ensures
        interrupt_list_spec(fuel, s) == Ok::<StateV, Error>(s),
{
    lemma_closed_cites(fuel, s);
}

proof fn lemma_closed_par(fuel: nat, s: StateV)
    requires
        inner_empty(s),
    ensures
        interrupt_par_spec(fuel, s) == Ok::<StateV, Error>(s),
{
    lemma_closed_list(fuel, s);
}

proof fn lemma_leaf_reaches_block(fuel: nat, s: StateV, c: ContentV, styles: Seq<Seq<StyleV>>)
    requires
        inner_empty(s),
        is_block_leaf(c),
    ensures
        dispatch(fuel, s, c, styles) == dispatch_block(fuel, s, c, styles),
{
    lemma_closed_cites(fuel, s);
    lemma_closed_list(fuel, s);
}

proof fn lemma_leaf_placed(fuel: nat, s: StateV, c: ContentV, styles: Seq<Seq<StyleV>>)
    requires
        calm(s),
        inner_empty(s),
        is_block_leaf(c),
        plain_chain(styles),
        c.kind == Kind::Page ==> s.flow.builder.is_empty(),
    ensures
        dispatch_block(fuel, s, c, styles) matches Ok(after) ==> calm(after) && inner_empty(after),
{
    lemma_closed_par(fuel, s);
    lemma_flow_accept_plain(s.flow, c, styles);
    let offered = StateV { flow: s.flow.accept(c, styles), ..s };
    if !FlowV::takes(c) {
        assert(c.kind == Kind::Page);
        assert(offered.flow.builder == s.flow.builder);
        lemma_closed_par(fuel, offered);
        assert(kept_styles(c, styles) is None);
        assert(!offered.flow.builder.has_strong_elements(false));
        assert(interrupt_page_spec(fuel, offered, None, false) == Ok::<StateV, Error>(offered));
        if let Some(doc) = offered.doc {
            lemma_with_pair(doc.pages, c, styles);
            if let Some(parity) = doc.clear_next {
                lemma_with_pair(
                    doc.pages,
                    ContentV {
                        fields: Fields { parity: Some(parity), ..c.fields },
                        ..c
                    },
                    styles,
                );
            }
        }
    }
}

/// A paragraph, a list or a page that a builder made goes into the flow
/// or the document and leaves the citation group, the list and the
/// paragraph empty.
proof fn lemma_block_leaf(fuel: nat, s: StateV, c: ContentV, styles: Seq<Seq<StyleV>>)
    requires
        calm(s),
        inner_empty(s),
        is_block_leaf(c),
        plain_chain(styles),
        c.kind == Kind::Page ==> s.flow.builder.is_empty(),
    ensures
        accept_spec(fuel, s, c, styles) matches Ok(after) ==> calm(after) && inner_empty(after),
{
    if fuel > 0 {
        let f = (fuel - 1) as nat;
        lemma_plain_has_no_recipes(styles);
        let recipes = recipes_of(styles);
        assert(show_set_map(c, recipes) =~= Seq::empty());
        assert(extra_styles(c, styles) =~= Seq::empty());
        assert(fire_from(c, recipes, 0) == Ok::<Option<ContentV>, Error>(None));
        assert(realize_spec(c, styles, s.seen) == Ok::<Option<ContentV>, Error>(None));
        assert(wrap_math(c) == c);
        lemma_leaf_reaches_block(f, s, c, styles);
        lemma_leaf_placed(f, s, c, styles);
    }
}

proof fn lemma_accept(fuel: nat, s: StateV, c: ContentV, styles: Seq<Seq<StyleV>>)
    requires
        calm(s),
        s.cites.items.len() == 0,
        inert(c),
        plain_chain(styles),
    ensures
        settles(s, accept_spec(fuel, s, c, styles)),
    decreases fuel, 0nat, 0nat,
{
    if fuel > 0 {
        let f = (fuel - 1) as nat;
        lemma_realize_inert(c, styles, s.seen);
        assert(wrap_math(c) == c);
        match realize_spec(c, styles, s.seen) {
            Ok(Some(made)) => {
                if s.depth < MAX_SHOW_RULE_DEPTH {
                    let s1 = StateV {
                        depth: (s.depth + 1) as usize,
                        seen: realize_seen(c, styles, s.seen),
                        ..s
                    };
                    lemma_accept(f, s1, made, styles);
                }
            },
            Ok(None) => {
                if c.is_styled() {
                    lemma_styled(f, s, c.children[0], c.styles, styles);
                } else if c.kind == Kind::Sequence {
                    lemma_accept_all(f, s, c.children, styles, 0);
                } else {
                    lemma_dispatch(f, s, c, styles);
                }
            },
            Err(_) => {},
        }
    }
}

proof fn lemma_accept_all(
    fuel: nat,
    s: StateV,
    items: Seq<ContentV>,
    styles: Seq<Seq<StyleV>>,
    i: int,
)
    requires
        calm(s),
        s.cites.items.len() == 0,
        forall|j: int| 0 <= j < items.len() ==> inert(#[trigger] items[j]),
        plain_chain(styles),
    ensures
        settles(s, accept_all(fuel, s, items, styles, i)),
    decreases fuel, 1nat, items.len() - i,
{
    if 0 <= i < items.len() {
        lemma_accept(fuel, s, items[i], styles);
        if let Ok(after) = accept_spec(fuel, s, items[i], styles) {
            lemma_accept_all(fuel, after, items, styles, i + 1);
        }
    }
}

proof fn lemma_replay(
    fuel: nat,
    s: StateV,
    staged: Seq<(ContentV, Seq<Seq<StyleV>>)>,
    i: int,
)
    requires
        calm(s),
        s.cites.items.len() == 0,
        inert_pairs(staged),
        plain_pairs(staged),
    ensures
        settles(s, replay(fuel, s, staged, i)),
    decreases fuel, 1nat, staged.len() - i,
{
    if 0 <= i < staged.len() {
        assert(inert(staged[i].0) && plain_chain(staged[i].1));
        lemma_accept(fuel, s, staged[i].0, staged[i].1);
        if let Ok(after) = accept_spec(fuel, s, staged[i].0, staged[i].1) {
            lemma_replay(fuel, after, staged, i + 1);
        }
    }
}

proof fn lemma_cites(fuel: nat, s: StateV)
    requires
        calm(s),
    ensures
        settles(s, interrupt_cites_spec(fuel, s)),
    decreases fuel, 2nat, 0nat,
{
    if s.cites.items.len() > 0 {
        let reset = StateV { cites: CitesV::new(), ..s };
        assert(calm(reset));
        assert(inert(s.cites.product()));
        lemma_accept(fuel, reset, s.cites.product(), s.cites.styles);
        if let Ok(after) = accept_spec(fuel, reset, s.cites.product(), s.cites.styles) {
            lemma_replay(fuel, after, s.cites.staged, 0);
        }
    }
}

proof fn lemma_list(fuel: nat, s: StateV)
    requires
        calm(s),
    ensures
        settles(s, interrupt_list_spec(fuel, s)),
        interrupt_list_spec(fuel, s) matches Ok(after) ==> after.list.items.len() == 0,
    decreases fuel, 3nat, 0nat,
{
    lemma_cites(fuel, s);
    if let Ok(s1) = interrupt_cites_spec(fuel, s) {
        if s1.list.items.len() > 0 {
            let reset = StateV { list: ListV::new(), ..s1 };
            assert(calm(reset));
            assert(inert(s1.list.product()));
            lemma_trunk_plain(s1.list.items);
            lemma_accept(fuel, reset, s1.list.product(), trunk_of(s1.list.items));
            if let Ok(after) = accept_spec(
                fuel,
                reset,
                s1.list.product(),
                trunk_of(s1.list.items),
            ) {
                lemma_replay(fuel, after, s1.list.staged, 0);
            }
        }
    }
}

proof fn lemma_par(fuel: nat, s: StateV)
    requires
        calm(s),
    ensures
        settles(s, interrupt_par_spec(fuel, s)),
        interrupt_par_spec(fuel, s) matches Ok(after) ==> inner_empty(after),
    decreases fuel, 4nat, 0nat,
{
    lemma_list(fuel, s);
    if let Ok(s1) = interrupt_list_spec(fuel, s) {
        if !s1.par.is_empty() {
            let reset = StateV { par: BehavedV::new(), ..s1 };
            assert(calm(reset));
            lemma_flushed_plain(s1.par, false);
            lemma_trunk_plain(s1.par.finish());
            lemma_block_leaf(
                fuel,
                reset,
                wrap(Kind::Par, s1.par.finish()),
                trunk_of(s1.par.finish()),
            );
        }
    }
}

proof fn lemma_page(fuel: nat, s: StateV, styles: Option<Seq<Seq<StyleV>>>, last: bool)
    requires
        calm(s),
        styles matches Some(given) ==> plain_chain(given),
    ensures
        settles(s, interrupt_page_spec(fuel, s, styles, last)),
        interrupt_page_spec(fuel, s, styles, last) matches Ok(after) ==> inner_empty(after),
    decreases fuel, 5nat, 0nat,
{
    lemma_par(fuel, s);
    if let Ok(s1) = interrupt_par_spec(fuel, s) {
        if let Some(doc) = s1.doc {
            if closes_page(doc, s1.flow, styles, last) {
                let items = s1.flow.builder.finish();
                let reset = StateV { flow: FlowV::new(), ..s1 };
                assert(calm(reset));
                lemma_flushed_plain(s1.flow.builder, false);
                lemma_trunk_plain(items);
                lemma_block_leaf(fuel, reset, page_of(items), page_styles(items, styles));
            }
        }
    }
}

proof fn lemma_style(
    fuel: nat,
    s: StateV,
    local: Seq<StyleV>,
    outer: Option<Seq<Seq<StyleV>>>,
)
    requires
        calm(s),
        s.cites.items.len() == 0,
        outer matches Some(given) ==> plain_chain(given),
    ensures
        settles(s, interrupt_style_spec(fuel, s, local, outer)),
    decreases fuel, 6nat, 0nat,
{
    lemma_page(fuel, s, outer, false);
    lemma_par(fuel, s);
    lemma_list(fuel, s);
}

proof fn lemma_styled(
    fuel: nat,
    s: StateV,
    elem: ContentV,
    local: Seq<StyleV>,
    styles: Seq<Seq<StyleV>>,
)
    requires
        calm(s),
        s.cites.items.len() == 0,
        inert(elem),
        plain_map(local),
        plain_chain(styles),
    ensures
        settles(s, styled_spec(fuel, s, elem, local, styles)),
    decreases fuel, 7nat, 0nat,
{
    let extended = chained(styles, local);
    lemma_chained_plain(styles, local);
    lemma_style(fuel, s, local, None);
    if let Ok(s1) = interrupt_style_spec(fuel, s, local, None) {
        lemma_accept(fuel, s1, elem, extended);
        if let Ok(s2) = accept_spec(fuel, s1, elem, extended) {
            lemma_style(fuel, s2, local, Some(extended));
        }
    }
}

proof fn lemma_dispatch_outer(fuel: nat, s: StateV, c: ContentV, styles: Seq<Seq<StyleV>>)
    requires
        calm(s),
        plain_chain(styles),
    ensures
        settles(s, dispatch_outer(fuel, s, c, styles)),
    decreases fuel, 8nat, 0nat,
{
    lemma_page(fuel, s, kept_styles(c, styles), false);
    if let Ok(s1) = interrupt_page_spec(fuel, s, kept_styles(c, styles), false) {
        if let Some(doc) = s1.doc {
            lemma_with_pair(doc.pages, c, styles);
            if let Some(parity) = doc.clear_next {
                lemma_with_pair(
                    doc.pages,
                    ContentV {
                        fields: Fields { parity: Some(parity), ..c.fields },
                        ..c
                    },
                    styles,
                );
            }
        }
    }
}

proof fn lemma_dispatch_block(fuel: nat, s: StateV, c: ContentV, styles: Seq<Seq<StyleV>>)
    requires
        calm(s),
        s.cites.items.len() == 0,
        plain_chain(styles),
    ensures
        settles(s, dispatch_block(fuel, s, c, styles)),
    decreases fuel, 9nat, 0nat,
{
    if par_takes(s.par, c, styles) {
        lemma_push_plain(s.par, c, styles);
    } else {
        lemma_par(fuel, s);
        if let Ok(s1) = interrupt_par_spec(fuel, s) {
            lemma_flow_accept_plain(s1.flow, c, styles);
            let offered = StateV { flow: s1.flow.accept(c, styles), ..s1 };
            if !FlowV::takes(c) {
                lemma_dispatch_outer(fuel, offered, c, styles);
            }
        }
    }
}

proof fn lemma_dispatch(fuel: nat, s: StateV, c: ContentV, styles: Seq<Seq<StyleV>>)
    requires
        calm(s),
        s.cites.items.len() == 0,
        inert(c),
        c.kind != Kind::CiteGroup,
        plain_chain(styles),
    ensures
        settles(s, dispatch(fuel, s, c, styles)),
    decreases fuel, 10nat, 0nat,
{
    assert(s.cites.accept(c, styles) is None);
    lemma_cites(fuel, s);
    if let Ok(s1) = interrupt_cites_spec(fuel, s) {
        if let Some(taken) = s1.list.accept(c, styles) {
            assert(s1.list.stages(c));
            lemma_with_pair(s1.list.staged, c, styles);
        } else {
            lemma_list(fuel, s1);
            if let Ok(s2) = interrupt_list_spec(fuel, s1) {
                assert(s2.list.accept(c, styles) is None);
                lemma_dispatch_block(fuel, s2, c, styles);
            }
        }
    }
}

/// Whether the content brings no show rule: the styles of its styled
/// nodes hold none, as far as the walk takes the content apart.
pub open spec fn ruleless(c: ContentV) -> bool
    decreases c,
{
    match c.kind {
        Kind::Sequence => forall|i: int|
            0 <= i < c.children.len() ==> ruleless(#[trigger] c.children[i]),
        Kind::Styled => plain_map(c.styles) && (c.children.len() >= 1 ==> ruleless(c.children[0])),
        _ => true,
    }
}

proof fn lemma_without_spaces(staged: Seq<(ContentV, Seq<Seq<StyleV>>)>)
    requires
        plain_pairs(staged),
        inert_pairs(staged),
    ensures
        plain_pairs(without_spaces(staged)),
        inert_pairs(without_spaces(staged)),
    decreases staged.len(),
{
    if staged.len() > 0 {
        assert forall|i: int| 0 <= i < staged.drop_last().len() implies plain_chain(
            (#[trigger] staged.drop_last()[i]).1,
        ) && inert(staged.drop_last()[i].0) by {
            assert(staged.drop_last()[i] == staged[i]);
        }
        lemma_without_spaces(staged.drop_last());
        let before = without_spaces(staged.drop_last());
        let out = without_spaces(staged);
        assert(plain_chain(staged.last().1) && inert(staged.last().0));
        assert forall|i: int| 0 <= i < out.len() implies plain_chain((#[trigger] out[i]).1)
            && inert(out[i].0) by {
            if i < before.len() {
                assert(out[i] == before[i]);
            }
        }
    }
}

/// Under a chain without show rules, content without show rules is
/// rewritten only into content without show rules, and never fails.
proof fn lemma_realize_ruleless(c: ContentV, styles: Seq<Seq<StyleV>>, seen: Seq<u128>)
    requires
        ruleless(c),
        plain_chain(styles),
    ensures
        ruleless(wrap_math(c)),
        realize_spec(wrap_math(c), styles, seen) is Ok,
        realize_spec(wrap_math(c), styles, seen) matches Ok(Some(made)) ==> ruleless(made),
{
    let w = wrap_math(c);
    lemma_plain_has_no_recipes(styles);
    let recipes = recipes_of(styles);
    assert(show_set_map(w, recipes) =~= Seq::empty());
    assert(fire_from(w, recipes, 0) == Ok::<Option<ContentV>, Error>(None));
    let extra = extra_styles(w, styles);
    assert(plain_map(extra)) by {
        if !w.prepared && w.can(Capability::ShowSet) {
            assert(extra =~= w.show_set(chained(styles, show_set_map(w, recipes))));
        } else {
            assert(extra =~= Seq::empty());
        }
    }
    if prepares(w, styles) {
        let elem = prepared_elem(w, styles, seen);
        assert(elem.kind == w.kind && elem.children == w.children && elem.styles == w.styles);
        assert(ruleless(elem));
        match elem.location {
            Some(location) => {
                let meta = ContentV::new(Kind::Meta).spanned(elem.span);
                let joined = elem.followed_by(meta);
                assert(joined.kind == Kind::Sequence);
                assert forall|i: int| 0 <= i < joined.children.len() implies ruleless(
                    #[trigger] joined.children[i],
                ) by {
                    if elem.kind == Kind::Sequence {
                        if i < elem.children.len() {
                            assert(joined.children[i] == elem.children[i]);
                        }
                    }
                }
                assert(ruleless(joined));
                let map = extra.push(meta_entry(location));
                assert(plain_map(map)) by {
                    assert forall|j: int| 0 <= j < map.len() implies #[trigger] map[j]
                        is Property by {
                        if j < extra.len() {
                            assert(map[j] == extra[j]);
                        }
                    }
                }
                let made = joined.styled_with_map(map);
                assert(made.children =~= seq![joined]);
                assert(ruleless(made));
            },
            None => {
                let made = elem.styled_with_map(extra);
                if extra.len() == 0 {
                } else if elem.kind == Kind::Styled {
                    let merged = extra + elem.styles;
                    assert(plain_map(merged)) by {
                        assert forall|j: int| 0 <= j < merged.len() implies #[trigger] merged[j]
                            is Property by {
                            if j < extra.len() {
                                assert(merged[j] == extra[j]);
                            } else {
                                assert(merged[j] == elem.styles[j - extra.len()]);
                            }
                        }
                    }
                } else {
                    assert(made.children =~= seq![elem]);
                }
                assert(ruleless(made));
            },
        }
    } else if w.can(Capability::Show) {
        let made = w.show();
        if w.kind == Kind::CiteGroup {
            let keys = cited_keys(w.children);
            if keys.len() == 1 {
                assert(ruleless(keys[0]));
            } else {
                assert forall|i: int| 0 <= i < made.children.len() implies ruleless(
                    #[trigger] made.children[i],
                ) by {
                    assert(made.children[i] == keys[i]);
                }
            }
        }
        assert(ruleless(made));
    }
}

proof fn lemma_walk(fuel: nat, s: StateV, c: ContentV, styles: Seq<Seq<StyleV>>)
    requires
        calm(s),
        ruleless(c),
        plain_chain(styles),
    ensures
        accept_spec(fuel, s, c, styles) matches Ok(after) ==> calm(after),
    decreases fuel, 0nat, 0nat,
{
    if fuel > 0 {
        let f = (fuel - 1) as nat;
        let w = wrap_math(c);
        lemma_realize_ruleless(c, styles, s.seen);
        match realize_spec(w, styles, s.seen) {
            Ok(Some(made)) => {
                if s.depth < MAX_SHOW_RULE_DEPTH {
                    let s1 = StateV {
                        depth: (s.depth + 1) as usize,
                        seen: realize_seen(w, styles, s.seen),
                        ..s
                    };
                    lemma_walk(f, s1, made, styles);
                }
            },
            Ok(None) => {
                if w.is_styled() {
                    lemma_walk_styled(f, s, w.children[0], w.styles, styles);
                } else if w.kind == Kind::Sequence {
                    lemma_walk_all(f, s, w.children, styles, 0);
                } else {
                    lemma_walk_dispatch(f, s, w, styles);
                }
            },
            Err(_) => {},
        }
    }
}

proof fn lemma_walk_all(
    fuel: nat,
    s: StateV,
    items: Seq<ContentV>,
    styles: Seq<Seq<StyleV>>,
    i: int,
)
    requires
        calm(s),
        forall|j: int| 0 <= j < items.len() ==> ruleless(#[trigger] items[j]),
        plain_chain(styles),
    ensures
        accept_all(fuel, s, items, styles, i) matches Ok(after) ==> calm(after),
    decreases fuel, 1nat, items.len() - i,
{
    if 0 <= i < items.len() {
        lemma_walk(fuel, s, items[i], styles);
        if let Ok(after) = accept_spec(fuel, s, items[i], styles) {
            lemma_walk_all(fuel, after, items, styles, i + 1);
        }
    }
}

proof fn lemma_walk_style(
    fuel: nat,
    s: StateV,
    local: Seq<StyleV>,
    outer: Option<Seq<Seq<StyleV>>>,
)
    requires
        calm(s),
        outer matches Some(given) ==> plain_chain(given),
    ensures
        interrupt_style_spec(fuel, s, local, outer) matches Ok(after) ==> calm(after),
{
    lemma_page(fuel, s, outer, false);
    lemma_par(fuel, s);
    lemma_list(fuel, s);
}

proof fn lemma_walk_styled(
    fuel: nat,
    s: StateV,
    elem: ContentV,
    local: Seq<StyleV>,
    styles: Seq<Seq<StyleV>>,
)
    requires
        calm(s),
        ruleless(elem),
        plain_map(local),
        plain_chain(styles),
    ensures
        styled_spec(fuel, s, elem, local, styles) matches Ok(after) ==> calm(after),
    decreases fuel, 7nat, 0nat,
{
    let extended = chained(styles, local);
    lemma_chained_plain(styles, local);
    lemma_walk_style(fuel, s, local, None);
    if let Ok(s1) = interrupt_style_spec(fuel, s, local, None) {
        lemma_walk(fuel, s1, elem, extended);
        if let Ok(s2) = accept_spec(fuel, s1, elem, extended) {
            lemma_walk_style(fuel, s2, local, Some(extended));
        }
    }
}

proof fn lemma_walk_dispatch(fuel: nat, s: StateV, c: ContentV, styles: Seq<Seq<StyleV>>)
    requires
        calm(s),
        plain_chain(styles),
    ensures
        dispatch(fuel, s, c, styles) matches Ok(after) ==> calm(after),
{
    if let Some(taken) = s.cites.accept(c, styles) {
        if s.cites.stages(c) {
            assert(inert(c));
            lemma_with_pair(s.cites.staged, c, styles);
        } else {
            lemma_without_spaces(s.cites.staged);
        }
    } else {
        lemma_cites(fuel, s);
        if let Ok(s1) = interrupt_cites_spec(fuel, s) {
            if let Some(taken) = s1.list.accept(c, styles) {
                if s1.list.stages(c) {
                    assert(inert(c));
                    lemma_with_pair(s1.list.staged, c, styles);
                } else {
                    lemma_with_pair(s1.list.items, c, styles);
                    assert(plain_pairs(taken.staged) && inert_pairs(taken.staged));
                }
            } else {
                lemma_list(fuel, s1);
                if let Ok(s2) = interrupt_list_spec(fuel, s1) {
                    if let Some(taken) = s2.list.accept(c, styles) {
                        if s2.list.stages(c) {
                            assert(inert(c));
                            lemma_with_pair(s2.list.staged, c, styles);
                        } else {
                            lemma_with_pair(s2.list.items, c, styles);
                            assert(plain_pairs(taken.staged) && inert_pairs(taken.staged));
                        }
                    } else {
                        lemma_dispatch_block(fuel, s2, c, styles);
                    }
                }
            }
        }
    }
}

/// Whether a step that started in `s` and ended as `r` left the depth of
/// show rules where it was.
pub open spec fn restores_depth(s: StateV, r: Result<StateV, Error>) -> bool {
    r matches Ok(after) ==> after.depth == s.depth
}

proof fn lemma_depth_accept(fuel: nat, s: StateV, c: ContentV, styles: Seq<Seq<StyleV>>)
    ensures
        restores_depth(s, accept_spec(fuel, s, c, styles)),
    decreases fuel, 0nat, 0nat,
{
    if fuel > 0 {
        let f = (fuel - 1) as nat;
        let w = wrap_math(c);
        lemma_depth_styled(f, s, w.children[0], w.styles, styles);
        lemma_depth_all(f, s, w.children, styles, 0);
        lemma_depth_dispatch(f, s, w, styles);
    }
}

proof fn lemma_depth_all(
    fuel: nat,
    s: StateV,
    items: Seq<ContentV>,
    styles: Seq<Seq<StyleV>>,
    i: int,
)
    ensures
        restores_depth(s, accept_all(fuel, s, items, styles, i)),
    decreases fuel, 1nat, items.len() - i,
{
    if 0 <= i < items.len() {
        lemma_depth_accept(fuel, s, items[i], styles);
        if let Ok(after) = accept_spec(fuel, s, items[i], styles) {
            lemma_depth_all(fuel, after, items, styles, i + 1);
        }
    }
}

proof fn lemma_depth_replay(
    fuel: nat,
    s: StateV,
    staged: Seq<(ContentV, Seq<Seq<StyleV>>)>,
    i: int,
)
    ensures
        restores_depth(s, replay(fuel, s, staged, i)),
    decreases fuel, 1nat, staged.len() - i,
{
    if 0 <= i < staged.len() {
        lemma_depth_accept(fuel, s, staged[i].0, staged[i].1);
        if let Ok(after) = accept_spec(fuel, s, staged[i].0, staged[i].1) {
            lemma_depth_replay(fuel, after, staged, i + 1);
        }
    }
}

proof fn lemma_depth_cites(fuel: nat, s: StateV)
    ensures
        restores_depth(s, interrupt_cites_spec(fuel, s)),
    decreases fuel, 2nat, 0nat,
{
    if s.cites.items.len() > 0 {
        let reset = StateV { cites: CitesV::new(), ..s };
        lemma_depth_accept(fuel, reset, s.cites.product(), s.cites.styles);
        if let Ok(after) = accept_spec(fuel, reset, s.cites.product(), s.cites.styles) {
            lemma_depth_replay(fuel, after, s.cites.staged, 0);
        }
    }
}

proof fn lemma_depth_list(fuel: nat, s: StateV)
    ensures
        restores_depth(s, interrupt_list_spec(fuel, s)),
    decreases fuel, 3nat, 0nat,
{
    lemma_depth_cites(fuel, s);
    if let Ok(s1) = interrupt_cites_spec(fuel, s) {
        if s1.list.items.len() > 0 {
            let reset = StateV { list: ListV::new(), ..s1 };
            lemma_depth_accept(fuel, reset, s1.list.product(), trunk_of(s1.list.items));
            if let Ok(after) = accept_spec(
                fuel,
                reset,
                s1.list.product(),
                trunk_of(s1.list.items),
            ) {
                lemma_depth_replay(fuel, after, s1.list.staged, 0);
            }
        }
    }
}

proof fn lemma_depth_par(fuel: nat, s: StateV)
    ensures
        restores_depth(s, interrupt_par_spec(fuel, s)),
    decreases fuel, 4nat, 0nat,
{
    lemma_depth_list(fuel, s);
    if let Ok(s1) = interrupt_list_spec(fuel, s) {
        if !s1.par.is_empty() {
            lemma_depth_accept(
                fuel,
                StateV { par: BehavedV::new(), ..s1 },
                wrap(Kind::Par, s1.par.finish()),
                trunk_of(s1.par.finish()),
            );
        }
    }
}

proof fn lemma_depth_page(fuel: nat, s: StateV, styles: Option<Seq<Seq<StyleV>>>, last: bool)
    ensures
        restores_depth(s, interrupt_page_spec(fuel, s, styles, last)),
    decreases fuel, 5nat, 0nat,
{
    lemma_depth_par(fuel, s);
    if let Ok(s1) = interrupt_par_spec(fuel, s) {
        if let Some(doc) = s1.doc {
            if closes_page(doc, s1.flow, styles, last) {
                let items = s1.flow.builder.finish();
                lemma_depth_accept(
                    fuel,
                    StateV { flow: FlowV::new(), ..s1 },
                    page_of(items),
                    page_styles(items, styles),
                );
            }
        }
    }
}

proof fn lemma_depth_style(
    fuel: nat,
    s: StateV,
    local: Seq<StyleV>,
    outer: Option<Seq<Seq<StyleV>>>,
)
    ensures
        restores_depth(s, interrupt_style_spec(fuel, s, local, outer)),
    decreases fuel, 6nat, 0nat,
{
    lemma_depth_page(fuel, s, outer, false);
    lemma_depth_par(fuel, s);
    lemma_depth_list(fuel, s);
}

proof fn lemma_depth_styled(
    fuel: nat,
    s: StateV,
    elem: ContentV,
    local: Seq<StyleV>,
    styles: Seq<Seq<StyleV>>,
)
    ensures
        restores_depth(s, styled_spec(fuel, s, elem, local, styles)),
    decreases fuel, 7nat, 0nat,
{
    let extended = chained(styles, local);
    lemma_depth_style(fuel, s, local, None);
    if let Ok(s1) = interrupt_style_spec(fuel, s, local, None) {
        lemma_depth_accept(fuel, s1, elem, extended);
        if let Ok(s2) = accept_spec(fuel, s1, elem, extended) {
            lemma_depth_style(fuel, s2, local, Some(extended));
        }
    }
}

proof fn lemma_depth_outer(fuel: nat, s: StateV, c: ContentV, styles: Seq<Seq<StyleV>>)
    ensures
        restores_depth(s, dispatch_outer(fuel, s, c, styles)),
    decreases fuel, 8nat, 0nat,
{
    lemma_depth_page(fuel, s, kept_styles(c, styles), false);
}

proof fn lemma_depth_block(fuel: nat, s: StateV, c: ContentV, styles: Seq<Seq<StyleV>>)
    ensures
        restores_depth(s, dispatch_block(fuel, s, c, styles)),
    decreases fuel, 9nat, 0nat,
{
    lemma_depth_par(fuel, s);
    if let Ok(s1) = interrupt_par_spec(fuel, s) {
        lemma_depth_outer(fuel, StateV { flow: s1.flow.accept(c, styles), ..s1 }, c, styles);
    }
}

proof fn lemma_depth_dispatch(fuel: nat, s: StateV, c: ContentV, styles: Seq<Seq<StyleV>>)
    ensures
        restores_depth(s, dispatch(fuel, s, c, styles)),
    decreases fuel, 10nat, 0nat,
{
    lemma_depth_cites(fuel, s);
    if let Ok(s1) = interrupt_cites_spec(fuel, s) {
        lemma_depth_list(fuel, s1);
        if let Ok(s2) = interrupt_list_spec(fuel, s1) {
            lemma_depth_block(fuel, s2, c, styles);
        }
    }
}

/// The depth of show rules is the same after content was accepted as it
/// was before: every level that a rewriting goes down, it comes up again.
pub proof fn lemma_depth_is_restored(fuel: nat, s: StateV, c: ContentV, styles: Seq<Seq<StyleV>>)
    ensures
        accept_spec(fuel, s, c, styles) matches Ok(after) ==> after.depth == s.depth,
{
    lemma_depth_accept(fuel, s, c, styles);
}

/// A walk starts calm: the builders hold nothing.
pub proof fn lemma_new_state_is_calm(top: bool, depth: usize, seen: Seq<u128>)
    ensures
        calm(StateV::new(top, depth, seen)),
{
}

/// A walk stays calm: if no show rule is in force for what the builders
/// hold and under the styles, and the content brings none, then no show
/// rule is in force after the content was accepted.
pub proof fn lemma_walk_stays_calm(fuel: nat, s: StateV, c: ContentV, styles: Seq<Seq<StyleV>>)
    requires
        calm(s),
        ruleless(c),
        plain_chain(styles),
    ensures
        accept_spec(fuel, s, c, styles) matches Ok(after) ==> calm(after),
{
    lemma_walk(fuel, s, c, styles);
}

/// While no show rule is in force, every interrupt leaves empty what it
/// closes: closing the citation group leaves no citation; closing the
/// list leaves no citation and no item; closing the paragraph or the page
/// leaves no citation, no item and nothing in the paragraph. As content
/// is only handed to a builder after everything further in was closed, it
/// reaches the list, the paragraph, the flow and the document only when
/// all builders further in are empty. The state stays calm, so this holds
/// of every later interrupt too.
pub proof fn lemma_interrupts_leave_inner_builders_empty(
    fuel: nat,
    s: StateV,
    styles: Option<Seq<Seq<StyleV>>>,
    last: bool,
)
    requires
        calm(s),
        styles matches Some(given) ==> plain_chain(given),
    ensures
        interrupt_cites_spec(fuel, s) matches Ok(after) ==> calm(after) && after.cites.items.len()
            == 0,
        interrupt_list_spec(fuel, s) matches Ok(after) ==> calm(after) && after.cites.items.len()
            == 0 && after.list.items.len() == 0,
        interrupt_par_spec(fuel, s) matches Ok(after) ==> calm(after) && inner_empty(after),
        interrupt_page_spec(fuel, s, styles, last) matches Ok(after) ==> calm(after)
            && inner_empty(after),
{
    lemma_cites(fuel, s);
    lemma_list(fuel, s);
    lemma_par(fuel, s);
    lemma_page(fuel, s, styles, last);
}

} // verus!
