use vstd::prelude::*;

verus! {

/// The generational arena that allocates entity slots. Its values are opaque
/// to this library: it is used purely as an allocator of unique handles.
#[verifier::external_type_specification]
#[verifier::external_body]
#[verifier::reject_recursive_types(T)]
pub struct ExArena<T>(generational_arena::Arena<T>);

/// A generational index: slot plus generation, handed out by the arena.
#[verifier::external_type_specification]
#[verifier::external_body]
pub struct ExIndex(generational_arena::Index);

/// Relies on generational_arena::Arena::new: creates an empty arena.
/// Nothing is assumed of the arena's contents.
#[verifier::external_body]
pub fn arena_new() -> generational_arena::Arena<()> {
    generational_arena::Arena::new()
}

/// Relies on generational_arena::Arena::insert: stores the value in a free
/// slot — growing the arena when full — and returns the slot's generational
/// index. Which index comes back is the allocator's own business; nothing is
/// assumed of it here, and the logic of this library never reads one back.
pub assume_specification<T>[ generational_arena::Arena::<T>::insert ](
    arena: &mut generational_arena::Arena<T>,
    value: T,
) -> generational_arena::Index;

/// An opaque handle identifying a logical object. An entity owns no
/// components directly — ownership is positional, through the alignment
/// position recorded when the entity was created.
#[derive(Clone, Copy, Debug, PartialEq, Eq, PartialOrd, Ord, Hash)]
pub struct Entity(pub generational_arena::Index);

impl From<generational_arena::Index> for Entity {
    fn from(index: generational_arena::Index) -> (r: Self) {
        Entity(index)
    }
}

impl vstd::std_specs::convert::FromSpecImpl<generational_arena::Index> for Entity {
    open spec fn obeys_from_spec() -> bool {
        true
    }

    open spec fn from_spec(index: generational_arena::Index) -> Self {
        Entity(index)
    }
}

} // verus!
