//! What holds of realization whatever the input.

use vstd::prelude::*;
use vstd::utf8::*;

use crate::behave::{first_span_from, first_span_of, is_visible, trunk_of, with_locals};
use crate::builder::{
    accept_spec, interrupt_cites_spec, interrupt_list_spec, page_of, replay, wrap_math, StateV,
};
use crate::content::{Capability, ContentV, Guard, Kind};
use crate::diag::{Error, ErrorKind};
use crate::engine::MAX_SHOW_RULE_DEPTH;
use crate::group::{is_item_kind, list_kind, wrap, CitesV, ListV};
use crate::pattern::{byte_slice, sliceable};
use crate::rules::{
    applicable_spec, fire_from, guard_at, is_tried, lift, pieces_from, prepared_elem, prepares,
    realize_seen, realize_spec, regex_rewrite, rule_applies, show_set_map, try_apply_spec,
    with_text,
};
use crate::style::{
    chained, common, entries_of, is_suffix_of, local_of, recipes_of, reversed, FuncV, RecipeV,
    StyleV, TransformV,
};

verus! {

/// Preparation runs once: only an unprepared target is prepared, what
/// preparation makes of it is marked as prepared, and that element is
/// never prepared again, under whatever styles.
pub proof fn lemma_preparation_runs_once(
    target: ContentV,
    links: Seq<Seq<StyleV>>,
    seen: Seq<u128>,
    later: Seq<Seq<StyleV>>,
)
    ensures
        prepares(target, links) ==> !target.prepared,
        prepared_elem(target, links, seen).prepared,
        !prepares(prepared_elem(target, links, seen), later),
{
}

/// A guard blocks its recipe: content that is guarded against the recipe
/// at a position is neither tried with that recipe nor counted as a
/// target of it.
pub proof fn lemma_guard_blocks_recipe(target: ContentV, recipes: Seq<RecipeV>, i: int)
    requires
        0 <= i < recipes.len(),
    ensures
        target.guarded(guard_at(recipes.len(), i)).is_guarded(guard_at(recipes.len(), i)),
        !is_tried(target.guarded(guard_at(recipes.len(), i)), recipes, i),
        !rule_applies(target.guarded(guard_at(recipes.len(), i)), recipes, i),
{
    let guard = guard_at(recipes.len(), i);
    let after = target.guarded(guard);
    if target.guards.contains(guard) {
    } else {
        assert(after.guards.last() == guard);
    }
}

/// A show rule by kind or by label hands its callable the target guarded
/// against the rule, and a callable that returns what it is given thereby
/// returns content on which the rule does not fire again.
pub proof fn lemma_fired_content_is_guarded(target: ContentV, recipe: RecipeV, guard: Guard)
    requires
        recipe.selector matches Some(selector) && (selector is Elem || selector is Label),
        recipe.applicable(target),
    ensures
        try_apply_spec(target, recipe, guard) == lift(recipe.apply(target.guarded(guard))),
        recipe.transform == TransformV::Func(FuncV::Identity) ==> (try_apply_spec(
            target,
            recipe,
            guard,
        ) matches Ok(Some(made)) && made.is_guarded(guard)),
{
    reveal(try_apply_spec);
    let after = target.guarded(guard);
    if target.guards.contains(guard) {
    } else {
        assert(after.guards.last() == guard);
    }
}

/// Whether the target is guarded against none of the show-set rules that
/// match it.
pub open spec fn open_to_show_set(target: ContentV, recipes: Seq<RecipeV>) -> bool {
    forall|i: int|
        0 <= i < recipes.len() && (#[trigger] recipes[i]).transform is Style
            && recipes[i].applicable(target) ==> !target.is_guarded(guard_at(recipes.len(), i))
}

proof fn lemma_show_set_map_witness(target: ContentV, recipes: Seq<RecipeV>) -> (i: int)
    requires
        show_set_map(target, recipes).len() > 0,
    ensures
        0 <= i < recipes.len(),
        recipes[i].transform is Style,
        recipes[i].applicable(target),
    decreases recipes.len(),
{
    if recipes.last().transform is Style && recipes.last().applicable(target) {
        recipes.len() - 1
    } else {
        lemma_show_set_map_witness(target, recipes.drop_last())
    }
}

proof fn lemma_fire_witness(target: ContentV, recipes: Seq<RecipeV>, from: int) -> (i: int)
    requires
        0 <= from,
        fire_from(target, recipes, from) != Ok::<Option<ContentV>, Error>(None),
    ensures
        from <= i < recipes.len(),
        is_tried(target, recipes, i),
    decreases recipes.len() - from,
{
    if is_tried(target, recipes, from) {
        from
    } else {
        lemma_fire_witness(target, recipes, from + 1)
    }
}

/// Realization changes only what is applicable: where a step rewrites the
/// target or fails, `applicable` holds of the target, provided the target
/// is guarded against none of the show-set rules that match it.
pub proof fn lemma_realized_is_applicable(
    target: ContentV,
    links: Seq<Seq<StyleV>>,
    seen: Seq<u128>,
)
    requires
        open_to_show_set(target, recipes_of(links)),
        realize_spec(target, links, seen) != Ok::<Option<ContentV>, Error>(None),
    ensures
        applicable_spec(target, links),
{
    let recipes = recipes_of(links);
    if target.needs_preparation() || target.can(Capability::Show) {
    } else if prepares(target, links) {
        assert(show_set_map(target, recipes).len() > 0);
        let i = lemma_show_set_map_witness(target, recipes);
        assert(rule_applies(target, recipes, i));
    } else {
        let i = lemma_fire_witness(target, recipes, 0);
        assert(rule_applies(target, recipes, i));
    }
}

/// Whether every show rule that is tried on the target selects by kind
/// or by label, and every show-set rule that matches it sets a style.
pub open spec fn rules_are_plain(target: ContentV, recipes: Seq<RecipeV>) -> bool {
    forall|i: int|
        0 <= i < recipes.len() && (#[trigger] recipes[i]).applicable(target) ==> (match recipes[i]
            .transform {
            TransformV::Style(map) => map.len() > 0,
            TransformV::Func(_) => recipes[i].selector matches Some(selector) && (selector is Elem
                || selector is Label),
        })
}

proof fn lemma_show_set_map_nonempty(target: ContentV, recipes: Seq<RecipeV>, i: int)
    requires
        0 <= i < recipes.len(),
        recipes[i].transform matches TransformV::Style(map) && map.len() > 0,
        recipes[i].applicable(target),
    ensures
        show_set_map(target, recipes).len() > 0,
    decreases recipes.len(),
{
    if i == recipes.len() - 1 {
    } else {
        lemma_show_set_map_nonempty(target, recipes.drop_last(), i);
    }
}

proof fn lemma_tried_fires(target: ContentV, recipes: Seq<RecipeV>, from: int, i: int)
    requires
        0 <= from <= i < recipes.len(),
        rules_are_plain(target, recipes),
        is_tried(target, recipes, i),
    ensures
        fire_from(target, recipes, from) != Ok::<Option<ContentV>, Error>(None),
    decreases recipes.len() - from,
{
    reveal(try_apply_spec);
    if is_tried(target, recipes, from) {
        assert(recipes[from].applicable(target));
    } else {
        lemma_tried_fires(target, recipes, from + 1, i);
    }
}

/// What is applicable is changed: where `applicable` holds of the target,
/// a step of realization rewrites it or fails, provided the show rules
/// that match select by kind or by label and the show-set rules that match
/// set a style.
pub proof fn lemma_applicable_is_realized(
    target: ContentV,
    links: Seq<Seq<StyleV>>,
    seen: Seq<u128>,
)
    requires
        rules_are_plain(target, recipes_of(links)),
        applicable_spec(target, links),
    ensures
        realize_spec(target, links, seen) != Ok::<Option<ContentV>, Error>(None),
{
    let recipes = recipes_of(links);
    if target.needs_preparation() || target.can(Capability::Show) {
    } else {
        let i = choose|i: int|
            0 <= i < recipes.len() && #[trigger] rule_applies(target, recipes, i);
        if recipes[i].transform is Style {
            lemma_show_set_map_nonempty(target, recipes, i);
        } else if !prepares(target, links) {
            assert(is_tried(target, recipes, i));
            lemma_tried_fires(target, recipes, 0, i);
        }
    }
}

/// Whether the matches from position `i` on, and the text between and
/// after them, fall between characters of the text.
pub open spec fn well_placed(
    text: Seq<char>,
    found: Seq<(usize, usize)>,
    i: int,
    cursor: usize,
) -> bool
    decreases found.len() - i,
{
    if i < 0 || i >= found.len() {
        let len = encode_utf8(text).len() as usize;
        cursor < len ==> sliceable(text, cursor as int, len as int)
    } else {
        &&& cursor < found[i].0 ==> sliceable(text, cursor as int, found[i].0 as int)
        &&& sliceable(text, found[i].0 as int, found[i].1 as int)
        &&& well_placed(text, found, i + 1, found[i].1)
    }
}

/// Whether there are at least `n` pieces, and the text after them falls
/// between characters.
pub open spec fn ends_well(text: Seq<char>, made: (Seq<ContentV>, usize), n: int) -> bool {
    let len = encode_utf8(text).len() as usize;
    made.0.len() >= n && (made.1 < len ==> sliceable(text, made.1 as int, len as int))
}

proof fn lemma_pieces_are_made(
    elem: ContentV,
    recipe: RecipeV,
    guard: Guard,
    found: Seq<(usize, usize)>,
    i: int,
    cursor: usize,
    acc: Seq<ContentV>,
)
    requires
        0 <= i <= found.len(),
        well_placed(elem.text, found, i, cursor),
    ensures
        pieces_from(elem, recipe, guard, found, i, cursor, acc) matches Ok(made) ==> made
            is Some && ends_well(elem.text, made.unwrap(), acc.len() + found.len() - i),
    decreases found.len() - i,
{
    if i < found.len() {
        let (start, end) = found[i];
        let acc1 = if cursor < start {
            acc.push(with_text(elem, byte_slice(elem.text, cursor as int, start as int)))
        } else {
            acc
        };
        let piece = with_text(elem, byte_slice(elem.text, start as int, end as int)).guarded(guard);
        if let Ok(made) = recipe.apply(piece) {
            lemma_pieces_are_made(elem, recipe, guard, found, i + 1, end, acc1.push(made));
        }
    }
}

/// A regex show rule rewrites a text in which the regex is found, or
/// fails: where there is a match and all matches fall between characters
/// of the text, the rule does not leave the text as it is.
pub proof fn lemma_found_regex_rewrites(
    elem: ContentV,
    recipe: RecipeV,
    guard: Guard,
    found: Seq<(usize, usize)>,
)
    requires
        found.len() > 0,
        well_placed(elem.text, found, 0, 0),
    ensures
        regex_rewrite(elem, recipe, guard, found) != Ok::<Option<ContentV>, Error>(None),
{
    lemma_pieces_are_made(elem, recipe, guard, found, 0, 0, Seq::empty());
}

/// A prepared element to which nothing applies is left as it is, and the
/// locator sees nothing new.
pub proof fn lemma_inapplicable_stays(target: ContentV, links: Seq<Seq<StyleV>>, seen: Seq<u128>)
    requires
        target.prepared,
        !applicable_spec(target, links),
    ensures
        realize_spec(target, links, seen) == Ok::<Option<ContentV>, Error>(None),
        realize_seen(target, links, seen) == seen,
{
    let recipes = recipes_of(links);
    if realize_spec(target, links, seen) != Ok::<Option<ContentV>, Error>(None) {
        let i = lemma_fire_witness(target, recipes, 0);
        assert(rule_applies(target, recipes, i));
    }
}

/// A finished list holds items of a single kind, and is the list of that
/// kind of item.
pub proof fn lemma_list_is_homogeneous(list: ListV)
    requires
        list.wf(),
        list.items.len() > 0,
    ensures
        is_item_kind(list.items[0].0.kind),
        list.product().kind == list_kind(list.items[0].0.kind),
        list.product().children.len() == list.items.len(),
        forall|i: int|
            0 <= i < list.items.len() ==> (#[trigger] list.product().children[i]).kind
                == list.items[0].0.kind,
{
    assert(is_item_kind(list.items[0].0.kind));
    let made = list.product();
    assert forall|i: int| 0 <= i < list.items.len() implies (#[trigger] made.children[i]).kind
        == list.items[0].0.kind by {
        assert(made.children[i].kind == list.items[i].0.kind);
    }
}

/// The list builder keeps its items of a single kind, whatever it is
/// offered.
pub proof fn lemma_list_stays_homogeneous(list: ListV, content: ContentV, styles: Seq<Seq<StyleV>>)
    requires
        list.wf(),
    ensures
        list.accept(content, styles) matches Some(after) ==> after.wf(),
{
    if let Some(after) = list.accept(content, styles) {
        assert forall|i: int| 0 <= i < after.items.len() implies is_item_kind(
            (#[trigger] after.items[i]).0.kind,
        ) && after.items[i].0.kind == after.items[0].0.kind by {
            if i < list.items.len() {
                assert(after.items[i] == list.items[i]);
            }
            if list.items.len() > 0 {
                assert(after.items[0] == list.items[0]);
            }
        }
    }
}

proof fn lemma_first_span_found(items: Seq<(ContentV, Seq<StyleV>)>, from: int, i: int)
    requires
        0 <= from <= i < items.len(),
        is_visible(items[i].0),
        !items[i].0.span.is_detached_spec(),
    ensures
        !first_span_from(items, from).is_detached_spec(),
    decreases items.len() - from,
{
    if is_visible(items[from].0) && !items[from].0.span.is_detached_spec() {
    } else {
        lemma_first_span_found(items, from + 1, i);
    }
}

proof fn lemma_first_span_source(items: Seq<(ContentV, Seq<StyleV>)>, from: int) -> (i: int)
    requires
        0 <= from,
        !first_span_from(items, from).is_detached_spec(),
    ensures
        from <= i < items.len(),
        is_visible(items[i].0),
        items[i].0.span == first_span_from(items, from),
    decreases items.len() - from,
{
    if is_visible(items[from].0) && !items[from].0.span.is_detached_spec() {
        from
    } else {
        lemma_first_span_source(items, from + 1)
    }
}

/// A wrapper that is made around children has a span exactly if one of its
/// visible children has one, and then it is the span of such a child.
pub proof fn lemma_wrapper_keeps_span(kind: Kind, items: Seq<(ContentV, Seq<Seq<StyleV>>)>)
    ensures
        !wrap(kind, items).span.is_detached_spec() <==> exists|i: int|
            0 <= i < items.len() && is_visible((#[trigger] items[i]).0)
                && !items[i].0.span.is_detached_spec(),
        !wrap(kind, items).span.is_detached_spec() ==> exists|i: int|
            0 <= i < items.len() && is_visible((#[trigger] items[i]).0) && items[i].0.span == wrap(
                kind,
                items,
            ).span,
{
    let finished = with_locals(items);
    assert(wrap(kind, items).span == first_span_of(finished));
    if !first_span_of(finished).is_detached_spec() {
        let i = lemma_first_span_source(finished, 0);
        assert(finished[i].0 == items[i].0);
        assert(is_visible(items[i].0) && !items[i].0.span.is_detached_spec());
    }
    if exists|i: int|
        0 <= i < items.len() && is_visible((#[trigger] items[i]).0)
            && !items[i].0.span.is_detached_spec() {
        let i = choose|i: int|
            0 <= i < items.len() && is_visible((#[trigger] items[i]).0)
                && !items[i].0.span.is_detached_spec();
        assert(finished[i].0 == items[i].0);
        lemma_first_span_found(finished, 0, i);
    }
}

/// A page has the span of the flow in it, which is that of the flow's
/// first visible child that has one.
pub proof fn lemma_page_keeps_span(items: Seq<(ContentV, Seq<Seq<StyleV>>)>)
    ensures
        page_of(items).kind == Kind::Page,
        page_of(items).children == seq![wrap(Kind::Flow, items)],
        page_of(items).span == wrap(Kind::Flow, items).span,
{
}

/// When the citation group is closed, its product is accepted first and
/// then the staged entries, in the order in which they were staged.
pub proof fn lemma_cites_replayed_in_order(fuel: nat, s: StateV)
    requires
        s.cites.items.len() > 0,
    ensures
        interrupt_cites_spec(fuel, s) == (match accept_spec(
            fuel,
            StateV { cites: CitesV::new(), ..s },
            s.cites.product(),
            s.cites.styles,
        ) {
            Ok(after) => replay(fuel, after, s.cites.staged, 0),
            Err(e) => Err(e),
        }),
{
}

/// When the list is closed, the citation group is closed first; then the
/// list's product is accepted, and then the staged entries, in the order
/// in which they were staged.
pub proof fn lemma_list_replayed_in_order(fuel: nat, s: StateV, closed: StateV)
    requires
        interrupt_cites_spec(fuel, s) == Ok::<StateV, Error>(closed),
        closed.list.items.len() > 0,
    ensures
        interrupt_list_spec(fuel, s) == (match accept_spec(
            fuel,
            StateV { list: ListV::new(), ..closed },
            closed.list.product(),
            trunk_of(closed.list.items),
        ) {
            Ok(after) => replay(fuel, after, closed.list.staged, 0),
            Err(e) => Err(e),
        }),
{
}

/// Staged entries are replayed one after the other: the entry at a
/// position is accepted in the state that the entries before it left, and
/// the entries after it follow.
pub proof fn lemma_replay_in_order(
    fuel: nat,
    s: StateV,
    staged: Seq<(ContentV, Seq<Seq<StyleV>>)>,
    i: int,
)
    requires
        0 <= i < staged.len(),
    ensures
        replay(fuel, s, staged, i) == (match accept_spec(fuel, s, staged[i].0, staged[i].1) {
            Ok(after) => replay(fuel, after, staged, i + 1),
            Err(e) => Err(e),
        }),
        replay(fuel, s, staged, staged.len() as int) == Ok::<StateV, Error>(s),
{
}

/// Show rules nest no deeper than the limit: content that a rule or
/// preparation rewrites at the limit is not accepted again, and the walk
/// fails.
pub proof fn lemma_depth_is_bounded(
    fuel: nat,
    s: StateV,
    content: ContentV,
    styles: Seq<Seq<StyleV>>,
)
    requires
        fuel > 0,
        s.depth >= MAX_SHOW_RULE_DEPTH,
        realize_spec(wrap_math(content), styles, s.seen) matches Ok(Some(_)),
    ensures
        accept_spec(fuel, s, content, styles) == Err::<StateV, Error>(
            Error { kind: ErrorKind::ShowRuleDepth, span: wrap_math(content).span },
        ),
{
}

proof fn lemma_empty_is_suffix(of: Seq<Seq<StyleV>>)
    ensures
        is_suffix_of(Seq::empty(), of),
    decreases of.len(),
{
    if of.len() > 0 {
        lemma_empty_is_suffix(of.drop_first());
    } else {
        assert(of =~= Seq::empty());
    }
}

/// What is left of what is left of a chain is left of the chain.
pub proof fn lemma_suffix_of_suffix(
    a: Seq<Seq<StyleV>>,
    b: Seq<Seq<StyleV>>,
    c: Seq<Seq<StyleV>>,
)
    requires
        is_suffix_of(a, b),
        is_suffix_of(b, c),
    ensures
        is_suffix_of(a, c),
    decreases c.len(),
{
    if b == c {
    } else {
        lemma_suffix_of_suffix(a, b, c.drop_first());
    }
}

/// What two chains have in common is shared by both: it is left of each
/// of them after some of its innermost links are taken away.
pub proof fn lemma_common_is_shared(a: Seq<Seq<StyleV>>, b: Seq<Seq<StyleV>>)
    ensures
        is_suffix_of(common(a, b), a),
        is_suffix_of(common(a, b), b),
    decreases a.len(),
{
    if a.len() == 0 {
        assert(a =~= Seq::empty());
        lemma_empty_is_suffix(b);
    } else if is_suffix_of(a, b) {
    } else {
        lemma_common_is_shared(a.drop_first(), b);
    }
}

/// What two chains have in common is all that they share: every chain
/// that is left of both is left of it.
pub proof fn lemma_common_is_longest(
    a: Seq<Seq<StyleV>>,
    b: Seq<Seq<StyleV>>,
    c: Seq<Seq<StyleV>>,
)
    requires
        is_suffix_of(c, a),
        is_suffix_of(c, b),
    ensures
        is_suffix_of(c, common(a, b)),
    decreases a.len(),
{
    if a.len() == 0 || is_suffix_of(a, b) {
    } else {
        lemma_common_is_longest(a.drop_first(), b, c);
    }
}

/// The chain that items share is left of the chain of each item.
pub proof fn lemma_trunk_is_shared(items: Seq<(ContentV, Seq<Seq<StyleV>>)>, i: int)
    requires
        0 <= i < items.len(),
    ensures
        is_suffix_of(trunk_of(items), items[i].1),
    decreases items.len(),
{
    if items.len() == 1 {
    } else {
        let before = trunk_of(items.drop_last());
        lemma_common_is_shared(before, items.last().1);
        if i < items.len() - 1 {
            lemma_trunk_is_shared(items.drop_last(), i);
            assert(items.drop_last()[i] == items[i]);
            lemma_suffix_of_suffix(trunk_of(items), before, items[i].1);
        }
    }
}

proof fn lemma_reversed_concat(a: Seq<StyleV>, b: Seq<StyleV>)
    ensures
        reversed(a + b) == reversed(b) + reversed(a),
{
    assert(reversed(a + b) =~= reversed(b) + reversed(a));
}

/// Nothing is lost when an item's styles are split: under the chain that
/// the items share, extended by the item's local styles, the same entries
/// are in force, in the same order, as under the item's own chain.
pub proof fn lemma_local_styles_restore(chain: Seq<Seq<StyleV>>, trunk: Seq<Seq<StyleV>>)
    requires
        is_suffix_of(trunk, chain),
    ensures
        entries_of(chained(trunk, local_of(chain, trunk))) == entries_of(chain),
    decreases chain.len(),
{
    let local = local_of(chain, trunk);
    if chain == trunk {
    } else {
        let rest = chain.drop_first();
        lemma_local_styles_restore(rest, trunk);
        let inner = local_of(rest, trunk);
        lemma_reversed_concat(inner, chain[0]);
        assert(entries_of(chain) == reversed(chain[0]) + entries_of(rest));
        if inner.len() == 0 {
            assert(inner + chain[0] =~= chain[0]);
            assert(entries_of(rest) == entries_of(trunk));
        } else {
            assert(chained(trunk, inner).drop_first() =~= trunk);
            assert(entries_of(rest) == reversed(inner) + entries_of(trunk));
        }
        if local.len() == 0 {
            assert(chain[0].len() == 0 && inner.len() == 0);
            assert(reversed(chain[0]) + entries_of(rest) =~= entries_of(rest));
        } else {
            assert(chained(trunk, local).drop_first() =~= trunk);
            assert(entries_of(chained(trunk, local)) == reversed(local) + entries_of(trunk));
            assert((reversed(chain[0]) + reversed(inner)) + entries_of(trunk) =~= reversed(
                chain[0],
            ) + (reversed(inner) + entries_of(trunk)));
        }
    }
}

} // verus!
