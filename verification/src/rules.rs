//! Show rules on one target: whether any applies, and one step of
//! rewriting.

use vstd::prelude::*;
use vstd::string::*;
use vstd::utf8::*;

use crate::content::{
    lemma_children_model, models, Capability, Content, ContentV, Guard, Kind, Location,
};
use crate::diag::Error;
use crate::engine::{location_after, Engine, EngineV};
use crate::pattern::{byte_slice, find_matches, regex_matches, slice, sliceable};
use crate::style::{
    chained, recipe_ref_models, recipes_of, Field, Property, Recipe, RecipeV, Selector, SelectorV,
    Style, StyleChain, StyleV, Styles, Transform, TransformV, Value,
};

verus! {

/// The guard of the recipe at position `i` among `n` recipes that are
/// listed innermost first: the recipe's depth index, `n - i`.
pub open spec fn guard_at(n: nat, i: int) -> Guard {
    Guard((n - i) as usize)
}

/// Whether the recipe at position `i` applies to the target: the target is
/// not guarded against it, its selector matches, and a show-set rule only
/// counts while the target is unprepared.
pub open spec fn rule_applies(target: ContentV, recipes: Seq<RecipeV>, i: int) -> bool {
    &&& !target.is_guarded(guard_at(recipes.len(), i))
    &&& recipes[i].applicable(target)
    &&& (!(recipes[i].transform is Style) || !target.prepared)
}

/// Whether realizing the target under the chain would change it.
pub open spec fn applicable_spec(target: ContentV, links: Seq<Seq<StyleV>>) -> bool {
    ||| target.needs_preparation()
    ||| target.can(Capability::Show)
    ||| exists|i: int|
        0 <= i < recipes_of(links).len() && #[trigger] rule_applies(target, recipes_of(links), i)
}

/// Whether the target is affected by show rules in the given style chain.
pub fn applicable(target: &Content, styles: StyleChain<'_>) -> (r: bool)
    ensures
        r == applicable_spec(target@, styles@),
{
    if target.needs_preparation() || target.can(Capability::Show) {
        return true;
    }
    let recipes = styles.recipes();
    let ghost all = recipe_ref_models(recipes@);
    let n = recipes.len();
    let mut i: usize = 0;
    while i < n
        invariant
            i <= n,
            n == recipes.len(),
            all == recipe_ref_models(recipes@),
            all == recipes_of(styles@),
            forall|j: int| 0 <= j < i ==> !rule_applies(target@, all, j),
        decreases n - i,
    {
        let recipe = recipes[i];
        assert(all[i as int] == recipe@);
        if !target.is_guarded(Guard(n - i)) && recipe.applicable(target) && (
        !recipe.transform.is_style() || !target.is_prepared()) {
            assert(rule_applies(target@, all, i as int));
            return true;
        }
        i += 1;
    }
    false
}

/// A copy of the text element with another text.
pub open spec fn with_text(elem: ContentV, text: Seq<char>) -> ContentV {
    ContentV { text, ..elem }
}

/// The pieces that a regex show rule makes of a text, from the match at
/// position `i` on: before each match the text since the last one, if
/// there is any, and then what the recipe makes of the guarded match.
/// Gives the pieces and where the last match ended; nothing where an
/// offset does not fall between characters; the error of the first
/// application that fails.
pub open spec fn pieces_from(
    elem: ContentV,
    recipe: RecipeV,
    guard: Guard,
    found: Seq<(usize, usize)>,
    i: int,
    cursor: usize,
    acc: Seq<ContentV>,
) -> Result<Option<(Seq<ContentV>, usize)>, Error>
    decreases found.len() - i,
{
    if i < 0 || i >= found.len() {
        Ok(Some((acc, cursor)))
    } else {
        let (start, end) = found[i];
        if cursor < start && !sliceable(elem.text, cursor as int, start as int) {
            Ok(None)
        } else if !sliceable(elem.text, start as int, end as int) {
            Ok(None)
        } else {
            let acc1 = if cursor < start {
                acc.push(with_text(elem, byte_slice(elem.text, cursor as int, start as int)))
            } else {
                acc
            };
            let piece = with_text(elem, byte_slice(elem.text, start as int, end as int)).guarded(
                guard,
            );
            match recipe.apply(piece) {
                Err(e) => Err(e),
                Ok(made) => pieces_from(elem, recipe, guard, found, i + 1, end, acc1.push(made)),
            }
        }
    }
}

/// What a regex show rule makes of a text element in which the regex was
/// found at these offsets: the pieces and the rest of the text in a
/// sequence, or nothing if there is no piece.
pub open spec fn regex_rewrite(
    elem: ContentV,
    recipe: RecipeV,
    guard: Guard,
    found: Seq<(usize, usize)>,
) -> Result<Option<ContentV>, Error> {
    match pieces_from(elem, recipe, guard, found, 0, 0, Seq::empty()) {
        Err(e) => Err(e),
        Ok(None) => Ok(None),
        Ok(Some((pieces, cursor))) => {
            let len = encode_utf8(elem.text).len() as usize;
            if pieces.len() == 0 {
                Ok(None)
            } else if cursor < len {
                if sliceable(elem.text, cursor as int, len as int) {
                    let rest = with_text(elem, byte_slice(elem.text, cursor as int, len as int));
                    Ok(Some(ContentV::sequence(pieces.push(rest))))
                } else {
                    Ok(None)
                }
            } else {
                Ok(Some(ContentV::sequence(pieces)))
            }
        },
    }
}

/// What one recipe makes of the target: for a selector by kind or by label
/// that fits, the recipe applied to the guarded target; for a regex that
/// is found in a text element, the text rewritten piece by piece; nothing
/// for any other selector.
pub open spec fn try_apply_spec(target: ContentV, recipe: RecipeV, guard: Guard) -> Result<
    Option<ContentV>,
    Error,
> {
    match recipe.selector {
        Some(SelectorV::Elem(kind)) => if target.kind != kind {
            Ok(None)
        } else {
            lift(recipe.apply(target.guarded(guard)))
        },
        Some(SelectorV::Label(label)) => if target.label != Some(label) {
            Ok(None)
        } else {
            lift(recipe.apply(target.guarded(guard)))
        },
        Some(SelectorV::Regex(pattern)) => if target.kind != Kind::Text {
            Ok(None)
        } else {
            match regex_matches(pattern, target.text) {
                Some(found) => regex_rewrite(target, recipe, guard, found),
                None => Ok(None),
            }
        },
        _ => Ok(None),
    }
}

/// A result as one that may also be nothing.
pub open spec fn lift(r: Result<ContentV, Error>) -> Result<Option<ContentV>, Error> {
    match r {
        Ok(c) => Ok(Some(c)),
        Err(e) => Err(e),
    }
}

/// The model of what a rewriting step returns.
pub open spec fn outcome(r: Result<Option<Content>, Error>) -> Result<Option<ContentV>, Error> {
    match r {
        Ok(Some(c)) => Ok(Some(c@)),
        Ok(None) => Ok(None),
        Err(e) => Err(e),
    }
}

fn make(elem: &Content, text: String) -> (r: Content)
    ensures
        r@ == with_text(elem@, text@),
{
    let mut fresh = elem.dup();
    fresh.text = text;
    proof {
        lemma_children_model(&fresh);
        lemma_children_model(elem);
        assert(fresh@.children =~= elem@.children);
    }
    fresh
}

/// What a regex show rule makes of a text element in which the regex was
/// found at these offsets.
pub fn rewrite_matches(
    elem: &Content,
    recipe: &Recipe,
    guard: Guard,
    found: &Vec<(usize, usize)>,
) -> (r: Result<Option<Content>, Error>)
    ensures
        outcome(r) == regex_rewrite(elem@, recipe@, guard, found@),
{
    let text = elem.text.as_str();
    let mut result: Vec<Content> = Vec::new();
    let mut cursor: usize = 0;
    let mut i: usize = 0;
    proof {
        assert(models(result@) =~= Seq::empty());
    }
    while i < found.len()
        invariant
            i <= found.len(),
            text@ == elem@.text,
            pieces_from(elem@, recipe@, guard, found@, 0, 0, Seq::empty()) == pieces_from(
                elem@,
                recipe@,
                guard,
                found@,
                i as int,
                cursor,
                models(result@),
            ),
        decreases found.len() - i,
    {
        let start = found[i].0;
        let end = found[i].1;
        if cursor < start {
            match slice(text, cursor, start) {
                Some(before) => {
                    let ghost prev = models(result@);
                    let fresh = make(elem, before);
                    result.push(fresh);
                    proof {
                        assert(models(result@) =~= prev.push(fresh@));
                    }
                },
                None => {
                    return Ok(None);
                },
            }
        }
        match slice(text, start, end) {
            Some(matched) => {
                let piece = make(elem, matched).guarded(guard);
                match recipe.apply(piece) {
                    Ok(made) => {
                        let ghost prev = models(result@);
                        result.push(made);
                        proof {
                            assert(models(result@) =~= prev.push(made@));
                        }
                    },
                    Err(e) => {
                        return Err(e);
                    },
                }
            },
            None => {
                return Ok(None);
            },
        }
        cursor = end;
        i += 1;
    }
    if result.len() == 0 {
        return Ok(None);
    }
    if cursor < text.len() {
        match slice(text, cursor, text.len()) {
            Some(rest) => {
                let ghost prev = models(result@);
                let fresh = make(elem, rest);
                result.push(fresh);
                proof {
                    assert(models(result@) =~= prev.push(fresh@));
                }
            },
            None => {
                return Ok(None);
            },
        }
    }
    Ok(Some(Content::sequence(result)))
}

/// Try to apply a recipe to the target.
pub fn try_apply(target: &Content, recipe: &Recipe, guard: Guard) -> (r: Result<
    Option<Content>,
    Error,
>)
    ensures
        outcome(r) == try_apply_spec(target@, recipe@, guard),
{
    reveal(try_apply_spec);
    match &recipe.selector {
        Some(Selector::Elem(kind)) => {
            if target.kind != *kind {
                return Ok(None);
            }
            match recipe.apply(target.dup().guarded(guard)) {
                Ok(c) => Ok(Some(c)),
                Err(e) => Err(e),
            }
        },
        Some(Selector::Label(label)) => {
            if target.label != Some(*label) {
                return Ok(None);
            }
            match recipe.apply(target.dup().guarded(guard)) {
                Ok(c) => Ok(Some(c)),
                Err(e) => Err(e),
            }
        },
        Some(Selector::Regex(pattern)) => {
            if target.kind != Kind::Text {
                return Ok(None);
            }
            match find_matches(pattern.as_str(), target.text.as_str()) {
                Some(found) => rewrite_matches(target, recipe, guard, &found),
                None => Ok(None),
            }
        },
        _ => Ok(None),
    }
}

/// The styles of the show-set rules among the recipes that match the
/// target. A rule further in is applied first, so its styles come last
/// and take precedence.
pub open spec fn show_set_map(target: ContentV, recipes: Seq<RecipeV>) -> Seq<StyleV>
    decreases recipes.len(),
{
    if recipes.len() == 0 {
        Seq::empty()
    } else {
        let inner = show_set_map(target, recipes.drop_last());
        match recipes.last().transform {
            TransformV::Style(map) => if recipes.last().applicable(target) {
                map + inner
            } else {
                inner
            },
            TransformV::Func(_) => inner,
        }
    }
}

/// The styles that realization puts around an unprepared target: those of
/// the matching show-set rules, behind those that the element sets for
/// itself under the chain with those rules' styles. A prepared target
/// gets none.
pub open spec fn extra_styles(target: ContentV, links: Seq<Seq<StyleV>>) -> Seq<StyleV> {
    if target.prepared {
        Seq::empty()
    } else {
        let user = show_set_map(target, recipes_of(links));
        if target.can(Capability::ShowSet) {
            target.show_set(chained(links, user)) + user
        } else {
            user
        }
    }
}

/// Whether realization prepares the target.
pub open spec fn prepares(target: ContentV, links: Seq<Seq<StyleV>>) -> bool {
    target.needs_preparation() || extra_styles(target, links).len() > 0
}

/// The style entry that marks a subtree as belonging to the element at the
/// location.
pub open spec fn meta_entry(location: Location) -> StyleV {
    StyleV::Property(
        Property { kind: Kind::Meta, field: Field::Data, value: Value::Meta(location), span: None },
    )
}

/// The target after location, synthesis and marking, before metadata is
/// attached.
pub open spec fn prepared_elem(
    target: ContentV,
    links: Seq<Seq<StyleV>>,
    seen: Seq<u128>,
) -> ContentV {
    let map = extra_styles(target, links);
    let located = if target.can(Capability::Locatable) || target.label is Some {
        target.located(location_after(seen, target.fingerprint()))
    } else {
        target
    };
    let synthesized = if located.can(Capability::Synthesize) {
        located.synthesized(chained(links, map))
    } else {
        located
    };
    synthesized.marked_prepared()
}

/// What preparation makes of the target: the prepared element under the
/// extra styles. An element with a location also gets the metadata entry
/// and is followed by a metadata element.
pub open spec fn prepared(target: ContentV, links: Seq<Seq<StyleV>>, seen: Seq<u128>) -> ContentV {
    let map = extra_styles(target, links);
    let elem = prepared_elem(target, links, seen);
    match elem.location {
        Some(location) => {
            let sentinel = ContentV::new(Kind::Meta).spanned(elem.span);
            elem.followed_by(sentinel).styled_with_map(map.push(meta_entry(location)))
        },
        None => elem.styled_with_map(map),
    }
}

/// The hashes that the locator has seen after preparing the target.
pub open spec fn seen_after(target: ContentV, seen: Seq<u128>) -> Seq<u128> {
    if target.can(Capability::Locatable) || target.label is Some {
        seen.push(target.fingerprint())
    } else {
        seen
    }
}

/// Whether the recipe at position `i` is tried as a show rule on the
/// target: it is no show-set rule, the target is not guarded against it,
/// and its selector matches.
pub open spec fn is_tried(target: ContentV, recipes: Seq<RecipeV>, i: int) -> bool {
    &&& !(recipes[i].transform is Style)
    &&& !target.is_guarded(guard_at(recipes.len(), i))
    &&& recipes[i].applicable(target)
}

/// What the show rules from position `i` on make of the target: the result
/// of the first that is no show-set rule, is not guarded against, matches
/// and yields content or an error.
pub open spec fn fire_from(target: ContentV, recipes: Seq<RecipeV>, i: int) -> Result<
    Option<ContentV>,
    Error,
>
    decreases recipes.len() - i,
{
    if i < 0 || i >= recipes.len() {
        Ok(None)
    } else {
        if is_tried(target, recipes, i) {
            match try_apply_spec(target, recipes[i], guard_at(recipes.len(), i)) {
                Ok(None) => fire_from(target, recipes, i + 1),
                fired => fired,
            }
        } else {
            fire_from(target, recipes, i + 1)
        }
    }
}

/// One step of rewriting: preparation if it is due; else the first show
/// rule that fires; else the built-in show rule; else nothing.
pub open spec fn realize_spec(target: ContentV, links: Seq<Seq<StyleV>>, seen: Seq<u128>) -> Result<
    Option<ContentV>,
    Error,
> {
    if prepares(target, links) {
        Ok(Some(prepared(target, links, seen)))
    } else {
        match fire_from(target, recipes_of(links), 0) {
            Ok(None) => if target.can(Capability::Show) {
                Ok(Some(target.show()))
            } else {
                Ok(None)
            },
            fired => fired,
        }
    }
}

/// The hashes that the locator has seen after the step.
pub open spec fn realize_seen(target: ContentV, links: Seq<Seq<StyleV>>, seen: Seq<u128>) -> Seq<
    u128,
> {
    if prepares(target, links) {
        seen_after(target, seen)
    } else {
        seen
    }
}

fn tried(target: &Content, recipe: &Recipe, guard: Guard) -> (r: bool)
    ensures
        r == (!(recipe@.transform is Style) && !target@.is_guarded(guard) && recipe@.applicable(
            target@,
        )),
{
    !recipe.transform.is_style() && !target.is_guarded(guard) && recipe.applicable(target)
}

/// What the show rules make of the target: the result of the first that
/// fires.
fn fire(target: &Content, recipes: &Vec<&Recipe>) -> (r: Result<Option<Content>, Error>)
    ensures
        outcome(r) == fire_from(target@, recipe_ref_models(recipes@), 0),
{
    let ghost all = recipe_ref_models(recipes@);
    let n = recipes.len();
    let mut i: usize = 0;
    while i < n
        invariant
            i <= n,
            n == recipes.len(),
            all == recipe_ref_models(recipes@),
            fire_from(target@, all, 0) == fire_from(target@, all, i as int),
        decreases n - i,
    {
        let recipe = recipes[i];
        let guard = Guard(n - i);
        assert(all[i as int] == recipe@);
        assert(guard == guard_at(all.len(), i as int));
        if tried(target, recipe, guard) {
            assert(is_tried(target@, all, i as int));
            let attempt = try_apply(target, recipe, guard);
            assert(outcome(attempt) == try_apply_spec(target@, all[i as int], guard));
            match attempt {
                Ok(Some(content)) => {
                    return Ok(Some(content));
                },
                Ok(None) => {},
                Err(e) => {
                    return Err(e);
                },
            }
        } else {
            assert(!is_tried(target@, all, i as int));
        }
        i += 1;
    }
    Ok(None)
}

/// Apply the show rules in the given style chain to a target.
pub fn realize(engine: &mut Engine, target: &Content, styles: StyleChain<'_>) -> (r: Result<
    Option<Content>,
    Error,
>)
    ensures
        outcome(r) == realize_spec(target@, styles@, old(engine)@.seen),
        final(engine)@ == (EngineV {
            seen: realize_seen(target@, styles@, old(engine)@.seen),
            ..old(engine)@
        }),
{
    let recipes = styles.recipes();
    let ghost all = recipe_ref_models(recipes@);
    let n = recipes.len();
    let mut map = Styles::new();
    if !target.is_prepared() {
        let mut i: usize = 0;
        while i < n
            invariant
                i <= n,
                n == recipes.len(),
                all == recipe_ref_models(recipes@),
                map@ == show_set_map(target@, all.take(i as int)),
            decreases n - i,
        {
            let recipe = recipes[i];
            proof {
                assert(all.take(i + 1).drop_last() =~= all.take(i as int));
                assert(all.take(i + 1).last() == recipe@);
            }
            match &recipe.transform {
                Transform::Style(transform) => {
                    if recipe.applicable(target) {
                        map.apply(transform.dup());
                    }
                },
                Transform::Func(_) => {},
            }
            i += 1;
        }
        proof {
            assert(all.take(n as int) =~= all);
        }
        if target.can(Capability::ShowSet) {
            let extended = styles.chain(&map);
            let own = target.show_set(&extended);
            map.apply(own);
        }
    }
    assert(map@ == extra_styles(target@, styles@));

    if target.needs_preparation() || !map.is_empty() {
        let mut elem = target.dup();
        if elem.can(Capability::Locatable) || elem.label.is_some() {
            let location = engine.locator.locate(elem.fingerprint());
            elem = elem.located(location);
        }
        if elem.can(Capability::Synthesize) {
            let extended = styles.chain(&map);
            elem = elem.synthesized(&extended);
        }
        elem = elem.marked_prepared();
        assert(elem@ == prepared_elem(target@, styles@, old(engine)@.seen));
        match elem.location {
            Some(location) => {
                map.set(
                    Style::Property(
                        Property {
                            kind: Kind::Meta,
                            field: Field::Data,
                            value: Value::Meta(location),
                            span: None,
                        },
                    ),
                );
                let span = elem.span;
                elem = elem.followed_by(Content::new(Kind::Meta).spanned(span));
            },
            None => {},
        }
        return Ok(Some(elem.styled_with_map(map)));
    }
    match fire(target, &recipes) {
        Ok(Some(content)) => {
            return Ok(Some(content));
        },
        Ok(None) => {},
        Err(e) => {
            return Err(e);
        },
    }
    if target.can(Capability::Show) {
        return Ok(Some(target.show()));
    }
    Ok(None)
}

} // verus!
