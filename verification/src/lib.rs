//! A small entity–component library: typed columnar component stores with
//! positional alignment, a declarative query layer that joins co-located
//! components, and a runtime validator that rejects conflicting access
//! declarations before a query runs.

mod borrow;
mod component;
mod entity;
mod store;
mod system;

pub use crate::borrow::{
    internal_ok, ledger_ok, lemma_admission, lemma_cross_query_exclusivity,
    lemma_internal_exclusivity, pair_ok, reads_of, write_dup, writes_of, Borrow, BorrowError,
    KindSet, PushBorrow, RegisterBorrow, RuntimeBorrow,
};
pub use crate::component::{
    count_kind, kind_slots, run_length, store, stored_column, Component, ComponentCollection,
    ComponentKind, StoreResult, Value,
};
pub use crate::entity::Entity;
pub use crate::store::{padded_to, ComponentStore, DefaultStore, Store, StoreRegistry};
pub use crate::system::{
    joined, lemma_alignment, lemma_empty_column_joins_nothing, mode_stmts, present, row_values,
    run_row, Query, Read, Statement, System, Write,
};

use vstd::prelude::*;

verus! {

/// `Things` is the top-level object used to interact with an instance of
/// the entity–component machinery: it owns the component stores, the
/// alignment cursor, the entity allocator, and the ledger of outstanding
/// access sets.
pub struct Things {
    /// Entities are allocated by a generational arena, used purely as a
    /// supplier of unique, reusable handles.
    entities: generational_arena::Arena<()>,
    /// One store per component type, created on first use.
    component_stores: StoreRegistry,
    /// The next alignment position at which the components of the next
    /// created entity are stored. Keeping every column at or below the
    /// cursor keeps the components of one entity aligned across stores.
    component_cursor: usize,
    /// Where each entity's components were placed: the first position the
    /// entity occupies and the count of its most numerous component type.
    entity_component_references: Vec<(Entity, StoreResult)>,
    /// The ledger of access sets for the queries considered outstanding.
    runtime_borrow: RuntimeBorrow,
}

impl Things {
    /// The component stores, for specification purposes.
    pub closed spec fn stores(&self) -> StoreRegistry {
        self.component_stores
    }

    /// The alignment cursor, for specification purposes.
    pub closed spec fn cursor(&self) -> usize {
        self.component_cursor
    }

    /// The recorded entity locations, for specification purposes.
    pub closed spec fn references(&self) -> Seq<(Entity, StoreResult)> {
        self.entity_component_references@
    }

    /// The outstanding access sets, for specification purposes.
    pub closed spec fn ledger(&self) -> Seq<(Set<ComponentKind>, Set<ComponentKind>)> {
        self.runtime_borrow@
    }

    /// The stores are well-formed and no column has grown past the cursor,
    /// so the next entity's components land at one common position.
    pub open spec fn wf(&self) -> bool {
        &&& self.stores().wf()
        &&& forall|k: ComponentKind| (#[trigger] self.stores().column(k)).len() <= self.cursor()
    }

    /// A fresh instance: no stores, no entities, no outstanding access sets.
    pub fn new() -> (r: Self)
        ensures
            r.wf(),
            r.cursor() == 0,
            r.references() == Seq::<(Entity, StoreResult)>::empty(),
            r.ledger() == Seq::<(Set<ComponentKind>, Set<ComponentKind>)>::empty(),
            forall|k: ComponentKind| !(#[trigger] r.stores().has_kind(k)),
            forall|k: ComponentKind| #[trigger] r.stores().column(k) == Seq::<Option<Value>>::empty(),
    {
        Things {
            entities: crate::entity::arena_new(),
            component_stores: StoreRegistry::new(),
            component_cursor: 0,
            entity_component_references: Vec::new(),
            runtime_borrow: RuntimeBorrow::new(),
        }
    }

    /// Creates an entity from an ordered collection of components. Each
    /// component is stored under its own type starting at the current
    /// cursor, and the cursor advances past every position the new entity
    /// occupies.
    pub fn create_entity<CC: ComponentCollection>(&mut self, components: CC)
        requires
            old(self).wf(),
            old(self).cursor() + components.components().len() <= usize::MAX,
        ensures
            final(self).wf(),
            final(self).ledger() == old(self).ledger(),
            final(self).cursor() == old(self).cursor() + run_length(components.components()),
            forall|k: ComponentKind| #[trigger]
                final(self).stores().column(k) == stored_column(
                    old(self).stores().column(k),
                    components.components(),
                    k,
                    old(self).cursor() as int,
                ),
            forall|k: ComponentKind| #[trigger]
                final(self).stores().has_kind(k) <==> (old(self).stores().has_kind(k) || count_kind(
                    components.components(),
                    k,
                ) > 0),
            final(self).references().drop_last() == old(self).references(),
            final(self).references().len() == old(self).references().len() + 1,
            final(self).references().last().1.position == old(self).cursor(),
            final(self).references().last().1.len as int == run_length(components.components()),
    {
        proof {
            crate::component::lemma_run_le_len(components.components());
        }
        let entity = Entity::from(self.entities.insert(()));
        let result = components.store(&mut self.component_stores, self.component_cursor);
        self.component_cursor = self.component_cursor + result.len;
        let ghost prev_refs = self.entity_component_references@;
        self.entity_component_references.push((entity, result));
        proof {
            assert(self.entity_component_references@.drop_last() =~= prev_refs);
        }
    }

    /// Builds the access set that `query` declares, appends it to the
    /// ledger, and validates the whole ledger. The attempt fails — with the
    /// single borrow-conflict error — exactly when the query itself writes
    /// one component type twice, or the extended ledger holds a query that
    /// both reads and writes one type, or an earlier access set whose
    /// writes overlap a later one's reads or writes. The access set stays
    /// recorded even when validation fails; releasing it is the caller's
    /// explicit step.
    pub fn borrow_and_validate<R: RegisterBorrow>(&mut self, query: &R) -> (r: Result<
        (),
        BorrowError,
    >)
        ensures
            final(self).stores() == old(self).stores(),
            final(self).cursor() == old(self).cursor(),
            final(self).references() == old(self).references(),
            r is Ok <==> (!write_dup(query.declares()) && ledger_ok(
                old(self).ledger().push(
                    (reads_of(query.declares()), writes_of(query.declares())),
                ),
            )),
            !write_dup(query.declares()) ==> final(self).ledger() == old(self).ledger().push(
                (reads_of(query.declares()), writes_of(query.declares())),
            ),
            write_dup(query.declares()) ==> final(self).ledger() == old(self).ledger(),
    {
        match self.runtime_borrow.push_access(query) {
            Ok(()) => self.runtime_borrow.validate(),
            Err(e) => Err(e),
        }
    }

    /// Releases the most recently admitted access set: the explicit step
    /// that ends a query's outstanding borrow and lets later queries touch
    /// the same component types again.
    pub fn release_borrow(&mut self)
        ensures
            final(self).stores() == old(self).stores(),
            final(self).cursor() == old(self).cursor(),
            final(self).references() == old(self).references(),
            final(self).ledger() == if old(self).ledger().len() == 0 {
                old(self).ledger()
            } else {
                old(self).ledger().drop_last()
            },
    {
        self.runtime_borrow.release_access();
    }

    /// Runs a system over an explicit query: the validator first admits or
    /// rejects the query's access set against the outstanding ledger; an
    /// admitted query has each joined row handed to the system, and its
    /// access set is released again once the iteration has run to
    /// completion — as it is after a rejection, so a failed attempt leaves
    /// no trace. A rejected query touches no store at all. Whatever the
    /// system does, only slots of written component types at joined
    /// positions can change, and every slot keeps its occupancy.
    pub fn execute_query<S: System>(&mut self, query: &Query) -> (r: Result<(), BorrowError>)
        requires
            old(self).wf(),
        ensures
            final(self).wf(),
            final(self).ledger() == old(self).ledger(),
            final(self).cursor() == old(self).cursor(),
            final(self).references() == old(self).references(),
            r is Ok <==> (!write_dup(query@) && ledger_ok(
                old(self).ledger().push((reads_of(query@), writes_of(query@))),
            )),
            r is Err ==> final(self).stores() == old(self).stores(),
            forall|k: ComponentKind| #[trigger]
                final(self).stores().has_kind(k) <==> old(self).stores().has_kind(k),
            forall|k: ComponentKind|
                (#[trigger] final(self).stores().column(k)).len() == old(self).stores().column(
                    k,
                ).len(),
            forall|k: ComponentKind|
                !writes_of(query@).contains(k) ==> #[trigger] final(self).stores().column(k)
                    == old(self).stores().column(k),
            forall|k: ComponentKind, q2: int|
                0 <= q2 < old(self).stores().column(k).len() && !joined(
                    old(self).stores(),
                    query@,
                    q2,
                ) ==> #[trigger] final(self).stores().column(k)[q2] == old(self).stores().column(
                    k,
                )[q2],
            forall|k: ComponentKind, q2: int|
                0 <= q2 < old(self).stores().column(k).len() ==> ((
                #[trigger] final(self).stores().column(k)[q2]) is Some <==> old(
                    self,
                ).stores().column(k)[q2] is Some),
    {
        match self.runtime_borrow.push_access(query) {
            Ok(()) => {},
            Err(e) => {
                return Err(e);
            },
        }
        match self.runtime_borrow.validate() {
            Ok(()) => {},
            Err(e) => {
                self.runtime_borrow.release_access();
                return Err(e);
            },
        }
        let ghost pre = self.component_stores;
        let rows = query.join(&self.component_stores);
        let n = rows.len();
        let mut i: usize = 0;
        #[verifier::loop_isolation(false)]
        while i < n
            invariant
                i <= n,
                self.runtime_borrow@ == old(self).ledger().push(
                    (reads_of(query@), writes_of(query@)),
                ),
                self.component_cursor == old(self).cursor(),
                self.entity_component_references@ == old(self).references(),
                self.component_stores.wf(),
                forall|k: ComponentKind| #[trigger]
                    self.component_stores.has_kind(k) <==> pre.has_kind(k),
                forall|k: ComponentKind|
                    (#[trigger] self.component_stores.column(k)).len() == pre.column(k).len(),
                forall|k: ComponentKind|
                    !writes_of(query@).contains(k) ==> #[trigger] self.component_stores.column(k)
                        == pre.column(k),
                forall|k: ComponentKind, q2: int|
                    0 <= q2 < pre.column(k).len() && !joined(pre, query@, q2)
                        ==> #[trigger] self.component_stores.column(k)[q2] == pre.column(k)[q2],
                forall|k: ComponentKind, q2: int|
                    0 <= q2 < pre.column(k).len() ==> ((#[trigger] self.component_stores.column(
                        k,
                    )[q2]) is Some <==> pre.column(k)[q2] is Some),
            decreases n - i,
        {
            let p = rows[i];
            proof {
                assert(rows@.contains(rows@[i as int]));
                assert(joined(pre, query@, p as int));
                assert forall|s: int|
                    0 <= s < query@.len() implies crate::system::present(
                    self.component_stores,
                    (#[trigger] query@[s]).kind(),
                    p as int,
                ) by {
                    assert(crate::system::present(pre, query@[s].kind(), p as int));
                }
                assert(joined(self.component_stores, query@, p as int));
            }
            let ghost before = self.component_stores;
            crate::system::run_row::<S>(&mut self.component_stores, query, p);
            proof {
                assert forall|k: ComponentKind, q2: int|
                    0 <= q2 < pre.column(k).len() && !joined(pre, query@, q2)
                        implies #[trigger] self.component_stores.column(k)[q2] == pre.column(
                    k,
                )[q2] by {
                    if q2 != p {
                        assert(self.component_stores.column(k)[q2] == before.column(k)[q2]);
                    } else {
                        assert(joined(pre, query@, q2));
                    }
                }
            }
            i = i + 1;
        }
        self.runtime_borrow.release_access();
        proof {
            assert(old(self).ledger().push(
                (reads_of(query@), writes_of(query@)),
            ).drop_last() =~= old(self).ledger());
        }
        Ok(())
    }

    /// Runs a system against the query it declares. The exact admission
    /// condition and the effect on the stores are those of
    /// [`Things::execute_query`].
    pub fn execute_system<S: System>(&mut self) -> (r: Result<(), BorrowError>)
        requires
            old(self).wf(),
        ensures
            final(self).wf(),
            final(self).ledger() == old(self).ledger(),
            final(self).cursor() == old(self).cursor(),
            final(self).references() == old(self).references(),
            forall|k: ComponentKind| #[trigger]
                final(self).stores().has_kind(k) <==> old(self).stores().has_kind(k),
            forall|k: ComponentKind|
                (#[trigger] final(self).stores().column(k)).len() == old(self).stores().column(
                    k,
                ).len(),
    {
        let query = S::query();
        self.execute_query::<S>(&query)
    }

    /// The alignment position at which the next created entity's components
    /// will be stored.
    pub fn current_cursor(&self) -> (c: usize)
        ensures
            c == self.cursor(),
    {
        self.component_cursor
    }

    /// How many entities have been created.
    pub fn entity_count(&self) -> (n: usize)
        ensures
            n == self.references().len(),
    {
        self.entity_component_references.len()
    }
}

impl Default for Things {
    /// The default instance is a fresh one.
    fn default() -> (r: Self)
        ensures
            r.wf(),
            r.cursor() == 0,
            r.references() == Seq::<(Entity, StoreResult)>::empty(),
            r.ledger() == Seq::<(Set<ComponentKind>, Set<ComponentKind>)>::empty(),
    {
        Self::new()
    }
}

} // verus!
