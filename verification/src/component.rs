use vstd::prelude::*;
use crate::store::{padded_to, StoreRegistry};

verus! {

/// The `Component` trait is a marker trait for anything that can act as a
/// component: a value type that is inspectable for debugging purposes, with
/// no other structural requirement. The stores of this library carry such
/// data behind the capability-tagged [`Value`], whose variants name the
/// component types the instance supports.
pub trait Component: 'static {

}

/// `Component` is automatically implemented for any object that has both a
/// static lifetime, and implements `Debug`.
impl<T: 'static + core::fmt::Debug> Component for T {

}

/// The identifier of a component type: the stable tag under which a columnar
/// store is registered and under which a query declares its accesses.
#[derive(Clone, Copy, Debug, PartialEq, Eq, Hash, Structural)]
pub enum ComponentKind {
    Int,
    Text,
    Flag,
}

/// A component value, tagged with its type so that a type-erased store can be
/// recovered safely and never reinterpreted.
#[derive(Debug, PartialEq, Eq)]
pub enum Value {
    Int(i64),
    Text(String),
    Flag(bool),
}

impl Value {
    /// The type identifier this value is stored under.
    pub open spec fn kind(self) -> ComponentKind {
        match self {
            Value::Int(_) => ComponentKind::Int,
            Value::Text(_) => ComponentKind::Text,
            Value::Flag(_) => ComponentKind::Flag,
        }
    }

    /// Runtime counterpart of [`Value::kind`].
    pub fn which_kind(&self) -> (k: ComponentKind)
        ensures
            k == self.kind(),
    {
        match self {
            Value::Int(_) => ComponentKind::Int,
            Value::Text(_) => ComponentKind::Text,
            Value::Flag(_) => ComponentKind::Flag,
        }
    }
}

impl Clone for Value {
    /// Cloning a component yields the very same value.
    fn clone(&self) -> (r: Self)
        ensures
            r == *self,
    {
        match self {
            Value::Int(i) => Value::Int(*i),
            Value::Text(s) => Value::Text(s.clone()),
            Value::Flag(b) => Value::Flag(*b),
        }
    }
}

/// Where the components of one entity were placed: the first alignment
/// position occupied, and over how many consecutive positions the entity's
/// most numerous component type extends.
pub struct StoreResult {
    pub position: usize,
    pub len: usize,
}

/// The slots that the components of type `k` within `comps` occupy, in
/// order: each component of type `k` wrapped as an occupied slot.
pub open spec fn kind_slots(comps: Seq<Value>, k: ComponentKind) -> Seq<Option<Value>>
    decreases comps.len(),
{
    if comps.len() == 0 {
        Seq::<Option<Value>>::empty()
    } else if comps.last().kind() == k {
        kind_slots(comps.drop_last(), k).push(Some(comps.last()))
    } else {
        kind_slots(comps.drop_last(), k)
    }
}

/// How many components of type `k` the collection holds.
pub open spec fn count_kind(comps: Seq<Value>, k: ComponentKind) -> int {
    kind_slots(comps, k).len() as int
}

/// The number of consecutive alignment positions a collection of components
/// occupies: the count of its most numerous component type.
pub open spec fn run_length(comps: Seq<Value>) -> int {
    let a = count_kind(comps, ComponentKind::Int);
    let b = count_kind(comps, ComponentKind::Text);
    let c = count_kind(comps, ComponentKind::Flag);
    if a >= b && a >= c {
        a
    } else if b >= c {
        b
    } else {
        c
    }
}

/// The column of component type `k` after a collection `comps` has been
/// stored starting at alignment position `cursor`: untouched when the
/// collection holds no component of type `k`, and otherwise gap-filled up to
/// `cursor` and extended with the type's components in collection order.
pub open spec fn stored_column(
    col: Seq<Option<Value>>,
    comps: Seq<Value>,
    k: ComponentKind,
    cursor: int,
) -> Seq<Option<Value>> {
    if count_kind(comps, k) == 0 {
        col
    } else {
        padded_to(col, cursor) + kind_slots(comps, k)
    }
}

/// Stores each component of a collection under its own type, all starting at
/// alignment position `cursor`, so that the components of one entity stay
/// aligned across their respective stores. Components of the same type stack
/// up at consecutive positions.
///
/// The returned record gives the first position the entity occupies and the
/// count of its most numerous component type — the number of positions the
/// entity spans.
pub fn store(components: Vec<Value>, stores: &mut StoreRegistry, cursor: usize) -> (result:
    StoreResult)
    requires
        old(stores).wf(),
        forall|k: ComponentKind| (#[trigger] old(stores).column(k)).len() <= cursor,
        cursor + components@.len() <= usize::MAX,
    ensures
        final(stores).wf(),
        forall|k: ComponentKind| #[trigger]
            final(stores).column(k) == stored_column(
                old(stores).column(k),
                components@,
                k,
                cursor as int,
            ),
        forall|k: ComponentKind| #[trigger]
            final(stores).has_kind(k) <==> (old(stores).has_kind(k) || count_kind(components@, k)
                > 0),
        result.position == cursor,
        result.len == run_length(components@),
        forall|k: ComponentKind| (#[trigger] final(stores).column(k)).len() <= cursor
            + result.len,
{
    let ghost all = components@;
    let ghost pre = *stores;
    let mut components = components;
    let mut idx: usize = 0;
    let n = components.len();
    // The highest store length any push has returned so far: one past the
    // last position this entity occupies.
    let mut max_return: usize = cursor;
    while idx < n
        invariant
            stores.wf(),
            n == all.len(),
            idx <= n,
            components@ == all.skip(idx as int),
            pre.wf(),
            forall|k: ComponentKind| (#[trigger] pre.column(k)).len() <= cursor,
            cursor + all.len() <= usize::MAX,
            forall|k: ComponentKind| #[trigger]
                stores.column(k) == stored_column(
                    pre.column(k),
                    all.take(idx as int),
                    k,
                    cursor as int,
                ),
            forall|k: ComponentKind| #[trigger]
                stores.has_kind(k) <==> (pre.has_kind(k) || count_kind(all.take(idx as int), k)
                    > 0),
            forall|k: ComponentKind| (#[trigger] stores.column(k)).len() == if count_kind(
                all.take(idx as int),
                k,
            ) == 0 {
                pre.column(k).len() as int
            } else {
                cursor + count_kind(all.take(idx as int), k)
            },
            max_return == cursor + run_length(all.take(idx as int)),
        decreases n - idx,
    {
        let c = components.remove(0);
        let ghost prefix = all.take(idx as int);
        let ghost kc = c.kind();
        proof {
            assert(components@ =~= all.skip(idx as int + 1));
            assert(c == all[idx as int]);
            assert(all.take(idx as int + 1).drop_last() =~= prefix);
            assert(all.take(idx as int + 1).last() == c);
            // how each kind's slots evolve when `c` is appended to the prefix
            assert forall|k: ComponentKind| #[trigger]
                kind_slots(all.take(idx as int + 1), k) == if k == kc {
                    kind_slots(prefix, k).push(Some(c))
                } else {
                    kind_slots(prefix, k)
                } by {
                assert(kind_slots(all.take(idx as int + 1), k) == if all.take(
                    idx as int + 1,
                ).last().kind() == k {
                    kind_slots(all.take(idx as int + 1).drop_last(), k).push(
                        Some(all.take(idx as int + 1).last()),
                    )
                } else {
                    kind_slots(all.take(idx as int + 1).drop_last(), k)
                });
            }
        }
        let r = stores.push_component(cursor, c);
        if r > max_return {
            max_return = r;
        }
        proof {
            let ghost post_prefix = all.take(idx as int + 1);
            assert(stores.column(kc) == padded_to(
                stored_column(pre.column(kc), prefix, kc, cursor as int),
                cursor as int,
            ).push(Some(c)));
            if count_kind(prefix, kc) == 0 {
                assert(stores.column(kc) =~= padded_to(pre.column(kc), cursor as int)
                    + kind_slots(post_prefix, kc));
            } else {
                assert(padded_to(
                    stored_column(pre.column(kc), prefix, kc, cursor as int),
                    cursor as int,
                ) == stored_column(pre.column(kc), prefix, kc, cursor as int));
                assert(stores.column(kc) =~= padded_to(pre.column(kc), cursor as int)
                    + kind_slots(post_prefix, kc));
            }
            assert forall|k: ComponentKind| #[trigger]
                stores.column(k) == stored_column(
                    pre.column(k),
                    post_prefix,
                    k,
                    cursor as int,
                ) by {
                if k != kc {
                    assert(stores.column(k) == stored_column(
                        pre.column(k),
                        prefix,
                        k,
                        cursor as int,
                    ));
                }
            }
        }
        idx = idx + 1;
    }
    proof {
        assert(all.take(n as int) =~= all);
        assert forall|k: ComponentKind| (#[trigger] stores.column(k)).len() <= cursor + run_length(
            all,
        ) by {
            lemma_count_le_run(all, k);
        }
    }
    StoreResult { position: cursor, len: max_return - cursor }
}

/// A collection of one or more components should implement this trait to be
/// able to store the individual components for later use, each under its
/// own type, aligned at a common starting position.
pub trait ComponentCollection: Sized {
    /// The components of the collection, in order.
    spec fn components(&self) -> Seq<Value>;

    /// Stores each component under its own type, all starting at alignment
    /// position `cursor`, and reports where the collection was placed: the
    /// first position it occupies and the count of its most numerous
    /// component type.
    fn store(self, stores: &mut StoreRegistry, cursor: usize) -> (result: StoreResult)
        requires
            old(stores).wf(),
            forall|k: ComponentKind| (#[trigger] old(stores).column(k)).len() <= cursor,
            cursor + self.components().len() <= usize::MAX,
        ensures
            final(stores).wf(),
            forall|k: ComponentKind| #[trigger]
                final(stores).column(k) == stored_column(
                    old(stores).column(k),
                    self.components(),
                    k,
                    cursor as int,
                ),
            forall|k: ComponentKind| #[trigger]
                final(stores).has_kind(k) <==> (old(stores).has_kind(k) || count_kind(
                    self.components(),
                    k,
                ) > 0),
            result.position == cursor,
            result.len == run_length(self.components()),
            forall|k: ComponentKind| (#[trigger] final(stores).column(k)).len() <= cursor
                + result.len,
    ;
}

impl ComponentCollection for Vec<Value> {
    open spec fn components(&self) -> Seq<Value> {
        self@
    }

    fn store(self, stores: &mut StoreRegistry, cursor: usize) -> (result: StoreResult) {
        store(self, stores, cursor)
    }
}

/// A collection holds at most `comps.len()` components of any one type.
pub proof fn lemma_kind_slots_le(comps: Seq<Value>, k: ComponentKind)
    ensures
        kind_slots(comps, k).len() <= comps.len(),
    decreases comps.len(),
{
    if comps.len() > 0 {
        lemma_kind_slots_le(comps.drop_last(), k);
    }
}

/// An entity spans no more positions than it has components.
pub proof fn lemma_run_le_len(comps: Seq<Value>)
    ensures
        run_length(comps) <= comps.len(),
{
    lemma_kind_slots_le(comps, ComponentKind::Int);
    lemma_kind_slots_le(comps, ComponentKind::Text);
    lemma_kind_slots_le(comps, ComponentKind::Flag);
}

/// No component type occurs more often than the most numerous one.
proof fn lemma_count_le_run(comps: Seq<Value>, k: ComponentKind)
    ensures
        count_kind(comps, k) <= run_length(comps),
{
    match k {
        ComponentKind::Int => {
        },
        ComponentKind::Text => {
        },
        ComponentKind::Flag => {
        },
    }
}

} // verus!
