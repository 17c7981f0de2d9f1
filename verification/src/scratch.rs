//! Storage that outlives a walk.

use vstd::prelude::*;

use crate::content::Content;
use crate::style::StyleChain;

verus! {

/// `typed_arena::Arena`: an arena of values of one type. Nothing is said of
/// what is inside.
#[verifier::external_type_specification]
#[verifier::external_body]
#[verifier::reject_recursive_types(T)]
pub struct ExArena<T>(typed_arena::Arena<T>);

/// `typed_arena::Arena::new`: a new arena. Nothing is claimed of it.
pub assume_specification<T>[ typed_arena::Arena::<T>::new ]() -> (arena: typed_arena::Arena<T>);

/// `typed_arena::Arena::alloc`: moves the value into the arena and hands
/// back a reference to it that lives as long as the arena. Nothing is
/// proved of this function. Its contract claims that the reference points
/// to the value that was given.
#[verifier::external_body]
pub(crate) fn store<'a, T>(arena: &'a typed_arena::Arena<T>, value: T) -> (stored: &'a T)
    ensures
        *stored == value,
{
    arena.alloc(value)
}

/// Temporary storage arenas for building.
pub struct Scratch<'a> {
    /// An arena where intermediate style chains are stored.
    styles: typed_arena::Arena<StyleChain<'a>>,
    /// An arena where intermediate content resulting from show rules is stored.
    content: typed_arena::Arena<Content>,
}

impl<'a> Scratch<'a> {
    /// Empty arenas.
    pub fn new() -> (r: Scratch<'a>) {
        Scratch { styles: typed_arena::Arena::new(), content: typed_arena::Arena::new() }
    }

    /// Keeps the content for as long as the arenas live.
    pub fn keep(&'a self, content: Content) -> (stored: &'a Content)
        ensures
            *stored == content,
    {
        store(&self.content, content)
    }

    /// Keeps the chain for as long as the arenas live.
    pub fn keep_chain(&'a self, chain: StyleChain<'a>) -> (stored: &'a StyleChain<'a>)
        ensures
            *stored == chain,
    {
        store(&self.styles, chain)
    }
}

impl<'a> Default for Scratch<'a> {
    fn default() -> (r: Scratch<'a>) {
        Scratch::new()
    }
}

} // verus!
