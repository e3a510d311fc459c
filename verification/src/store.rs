use vstd::prelude::*;
use vstd::pervasive::VecAdditionalExecFns;
use crate::component::{ComponentKind, Value};

verus! {

/// The sequence `col` extended with absent markers until it reaches at least
/// length `p`. Padding keeps unrelated stores aligned on a common position.
pub open spec fn padded_to(col: Seq<Option<Value>>, p: int) -> Seq<Option<Value>> {
    if p <= col.len() {
        col
    } else {
        col + Seq::new((p - col.len()) as nat, |i: int| None)
    }
}

/// `Store` must be implemented by any object that wants to store
/// components.
///
/// With this trait implemented, the object can be registered as the storage
/// engine for a single component type. The implementation can abstract away
/// the internal details of how data is stored, as long as it keeps the
/// columnar contract: an ordered sequence of optional slots, gap-filled so
/// that unrelated stores stay aligned on a common position.
pub trait Store: Sized {
    /// The implementation's own well-formedness condition.
    spec fn inv(&self) -> bool;

    /// The slot sequence the store exposes.
    spec fn slots(&self) -> Seq<Option<Value>>;

    /// The component type the store was registered for.
    spec fn store_type(&self) -> ComponentKind;

    /// `new` initialises a new (empty) store.
    fn new(kind: ComponentKind) -> (s: Self)
        ensures
            s.inv(),
            s.slots() == Seq::<Option<Value>>::empty(),
            s.store_type() == kind,
    ;

    /// `push` takes a single component of the store's type and adds it to
    /// the store: at `position` when the store has not grown that far —
    /// gap-filling the slots in between with absent markers — and right
    /// after the last element otherwise. Returns the store's new length.
    fn push(&mut self, position: usize, component: Value) -> (new_len: usize)
        requires
            old(self).inv(),
            component.kind() == old(self).store_type(),
            position < usize::MAX,
        ensures
            final(self).inv(),
            final(self).store_type() == old(self).store_type(),
            final(self).slots() == padded_to(old(self).slots(), position as int).push(
                Some(component),
            ),
            new_len == final(self).slots().len(),
    ;

    /// Extracts a slice containing the entire slot sequence. An absent
    /// entry indicates that the entity stored at that position does not
    /// carry the component type of this store.
    fn as_slice(&self) -> (r: &[Option<Value>])
        requires
            self.inv(),
        ensures
            r@ == self.slots(),
    ;
}

/// An append-oriented columnar store for one component type: an ordered
/// sequence of optional slots, one slot per alignment position. An absent
/// slot means the entity at that position carries no component of this type.
pub struct DefaultStore {
    kind: ComponentKind,
    slots: Vec<Option<Value>>,
}

impl View for DefaultStore {
    type V = Seq<Option<Value>>;

    closed spec fn view(&self) -> Seq<Option<Value>> {
        self.slots@
    }
}

impl DefaultStore {
    /// The component type this store was registered for.
    pub closed spec fn kind(&self) -> ComponentKind {
        self.kind
    }

    /// Every occupied slot holds a value of the store's component type.
    pub open spec fn wf(&self) -> bool {
        forall|i: int|
            0 <= i < self@.len() && (#[trigger] self@[i]) is Some ==> self@[i]->0.kind()
                == self.kind()
    }

    /// `new` initialises a new (empty) store for the given component type.
    pub fn new(kind: ComponentKind) -> (s: Self)
        ensures
            s@ == Seq::<Option<Value>>::empty(),
            s.kind() == kind,
            s.wf(),
    {
        DefaultStore { kind, slots: Vec::new() }
    }

    /// Runtime counterpart of [`DefaultStore::kind`].
    pub fn store_kind(&self) -> (k: ComponentKind)
        ensures
            k == self.kind(),
    {
        self.kind
    }

    /// The number of alignment positions the store currently covers.
    pub fn len(&self) -> (n: usize)
        ensures
            n == self@.len(),
    {
        self.slots.len()
    }

    /// The slot at one alignment position.
    pub fn get(&self, i: usize) -> (r: &Option<Value>)
        requires
            i < self@.len(),
        ensures
            *r == self@[i as int],
    {
        &self.slots[i]
    }

    /// Extracts a slice containing the entire slot sequence. An absent entry
    /// indicates that the entity stored at that position does not carry the
    /// component type of this store.
    pub fn as_slice(&self) -> (r: &[Option<Value>])
        ensures
            r@ == self@,
    {
        self.slots.as_slice()
    }

    /// `push` takes a single component and adds it to the store.
    ///
    /// The component lands at `position` when the store has not grown that
    /// far yet — the positions in between are gap-filled with absent markers
    /// so that cross-store alignment is preserved — and right after the last
    /// element otherwise. The returned value is the store's new length.
    pub fn push(&mut self, position: usize, component: Value) -> (new_len: usize)
        requires
            old(self).wf(),
            component.kind() == old(self).kind(),
            position < usize::MAX,
        ensures
            final(self).wf(),
            final(self).kind() == old(self).kind(),
            final(self)@ == padded_to(old(self)@, position as int).push(Some(component)),
            forall|i: int| 0 <= i < old(self)@.len() ==> final(self)@[i] == old(self)@[i],
            forall|i: int| old(self)@.len() <= i < position ==> final(self)@[i] is None,
            new_len == final(self)@.len(),
            new_len == if old(self)@.len() < position {
                position + 1
            } else {
                old(self)@.len() as int + 1
            },
    {
        while self.slots.len() < position
            invariant
                self.kind == old(self).kind(),
                position < usize::MAX,
                self.slots@ == padded_to(old(self)@, self.slots@.len() as int),
                old(self)@.len() <= self.slots@.len(),
                self.slots@.len() <= position || self.slots@.len() == old(self)@.len(),
            decreases position - self.slots@.len(),
        {
            let ghost prev = self.slots@;
            self.slots.push(None);
            proof {
                assert(self.slots@ =~= padded_to(old(self)@, self.slots@.len() as int));
            }
        }
        self.slots.push(Some(component));
        proof {
            assert(padded_to(old(self)@, position as int) =~= self.slots@.drop_last());
            assert(self.slots@ =~= padded_to(old(self)@, position as int).push(Some(component)));
        }
        self.slots.len()
    }

    /// Replaces the slot at position `i` with the given component.
    pub fn replace_at(&mut self, i: usize, component: Value) -> (r: ())
        requires
            old(self).wf(),
            i < old(self)@.len(),
            component.kind() == old(self).kind(),
        ensures
            final(self).wf(),
            final(self).kind() == old(self).kind(),
            final(self)@ == old(self)@.update(i as int, Some(component)),
    {
        self.slots.set(i, Some(component));
    }
}

impl Store for DefaultStore {
    open spec fn inv(&self) -> bool {
        self.wf()
    }

    open spec fn slots(&self) -> Seq<Option<Value>> {
        self@
    }

    open spec fn store_type(&self) -> ComponentKind {
        self.kind()
    }

    fn new(kind: ComponentKind) -> (s: Self) {
        DefaultStore::new(kind)
    }

    fn push(&mut self, position: usize, component: Value) -> (new_len: usize) {
        DefaultStore::push(self, position, component)
    }

    fn as_slice(&self) -> (r: &[Option<Value>]) {
        DefaultStore::as_slice(self)
    }
}

/// A type-erased handle over a [`DefaultStore`]. Recovering the typed store
/// must fail safely — report "not this type" — rather than reinterpret the
/// underlying storage.
pub struct ComponentStore {
    store: DefaultStore,
}

impl View for ComponentStore {
    type V = Seq<Option<Value>>;

    closed spec fn view(&self) -> Seq<Option<Value>> {
        self.store@
    }
}

impl ComponentStore {
    /// The component type of the store behind this handle.
    pub closed spec fn kind(&self) -> ComponentKind {
        self.store.kind()
    }

    /// The handle is well-formed when the store behind it is.
    pub closed spec fn wf(&self) -> bool {
        self.store.wf()
    }

    /// Erases the concrete store into a handle.
    pub fn erase(store: DefaultStore) -> (r: Self)
        ensures
            r.kind() == store.kind(),
            r@ == store@,
            r.wf() == store.wf(),
    {
        ComponentStore { store }
    }

    /// Recovers an immutable view of the typed store, when — and only when —
    /// the requested component type is the one the handle was erased from.
    pub fn as_store(&self, kind: ComponentKind) -> (r: Option<&DefaultStore>)
        ensures
            match r {
                Some(s) => self.kind() == kind && s.kind() == kind && s@ == self@ && s.wf()
                    == self.wf(),
                None => self.kind() != kind,
            },
    {
        if self.store.store_kind() == kind {
            Some(&self.store)
        } else {
            None
        }
    }

    /// Recovers the typed store for mutation. The caller names the component
    /// type it expects; the handle only hands the store out when that type is
    /// the one it was erased from.
    pub fn as_mut_store(&mut self, kind: ComponentKind) -> (r: &mut DefaultStore)
        requires
            old(self).kind() == kind,
        ensures
            *r == old(self).store_inner(),
            final(self).store_inner() == *final(r),
    {
        &mut self.store
    }

    /// The concrete store behind the handle, for specification purposes.
    pub closed spec fn store_inner(&self) -> DefaultStore {
        self.store
    }
}

/// The registry of component stores: one type-erased store per component
/// type, created lazily the first time a component of that type is stored.
/// The absence of a component type means no component of that type has ever
/// been stored, and its column reads as empty.
pub struct StoreRegistry {
    entries: Vec<ComponentStore>,
}

impl StoreRegistry {
    /// The registered store handles, in registration order.
    pub closed spec fn entries_seq(&self) -> Seq<ComponentStore> {
        self.entries@
    }

    /// At most one store per component type, and every store well-formed.
    pub open spec fn wf(&self) -> bool {
        &&& forall|i: int, j: int|
            0 <= i < j < self.entries_seq().len() ==> (#[trigger] self.entries_seq()[i]).kind() != (
            #[trigger] self.entries_seq()[j]).kind()
        &&& forall|i: int|
            0 <= i < self.entries_seq().len() ==> (#[trigger] self.entries_seq()[i]).wf()
    }

    /// Whether a store for the component type `k` has been registered.
    pub open spec fn has_kind(&self, k: ComponentKind) -> bool {
        exists|i: int|
            0 <= i < self.entries_seq().len() && (#[trigger] self.entries_seq()[i]).kind() == k
    }

    /// The slot sequence stored for component type `k`; empty when no
    /// component of that type has ever been stored.
    pub closed spec fn column(&self, k: ComponentKind) -> Seq<Option<Value>> {
        if self.has_kind(k) {
            let i = choose|i: int|
                0 <= i < self.entries@.len() && (#[trigger] self.entries@[i]).kind() == k;
            self.entries@[i]@
        } else {
            Seq::<Option<Value>>::empty()
        }
    }

    /// In a well-formed registry the column of `k` is the slot sequence of
    /// the (unique) entry registered for `k`.
    pub proof fn lemma_column_at(&self, i: int, k: ComponentKind)
        requires
            self.wf(),
            0 <= i < self.entries_seq().len(),
            self.entries_seq()[i].kind() == k,
        ensures
            self.has_kind(k),
            self.column(k) == self.entries_seq()[i]@,
    {
        assert(self.has_kind(k));
        let j = choose|j: int|
            0 <= j < self.entries@.len() && (#[trigger] self.entries@[j]).kind() == k;
        if i != j {
            assert(false);
        }
    }

    /// The column of an unregistered component type is empty.
    pub proof fn lemma_absent_column(&self, k: ComponentKind)
        requires
            !self.has_kind(k),
        ensures
            self.column(k) == Seq::<Option<Value>>::empty(),
    {
    }

    /// Every occupied slot of the column of `k` holds a value of type `k`.
    pub proof fn lemma_column_wf(&self, k: ComponentKind)
        requires
            self.wf(),
        ensures
            forall|p: int|
                0 <= p < self.column(k).len() && (#[trigger] self.column(k)[p]) is Some
                    ==> self.column(k)[p]->0.kind() == k,
    {
        if self.has_kind(k) {
            let i = choose|i: int|
                0 <= i < self.entries@.len() && (#[trigger] self.entries@[i]).kind() == k;
            self.lemma_column_at(i, k);
            assert(self.entries_seq()[i].wf());
        }
    }

    /// A registry with no stores at all.
    pub fn new() -> (r: Self)
        ensures
            r.wf(),
            forall|k: ComponentKind| !(#[trigger] r.has_kind(k)),
            forall|k: ComponentKind| #[trigger] r.column(k) == Seq::<Option<Value>>::empty(),
    {
        StoreRegistry { entries: Vec::new() }
    }

    /// The position of the store registered for `kind`, if any.
    fn find_index(&self, kind: ComponentKind) -> (r: Option<usize>)
        ensures
            match r {
                Some(i) => i < self.entries_seq().len() && self.entries_seq()[i as int].kind()
                    == kind,
                None => !self.has_kind(kind),
            },
    {
        let n = self.entries.len();
        let mut i: usize = 0;
        while i < n
            invariant
                n == self.entries_seq().len(),
                i <= n,
                forall|j: int| 0 <= j < i ==> (#[trigger] self.entries_seq()[j]).kind() != kind,
            decreases n - i,
        {
            if self.entries[i].store.store_kind() == kind {
                return Some(i);
            }
            i = i + 1;
        }
        None
    }

    /// The registered handle for `kind`: present exactly when a component of
    /// that type has been stored before.
    pub fn get(&self, kind: ComponentKind) -> (r: Option<&ComponentStore>)
        requires
            self.wf(),
        ensures
            match r {
                Some(cs) => self.has_kind(kind) && cs.kind() == kind && cs@ == self.column(kind)
                    && cs.wf(),
                None => !self.has_kind(kind) && self.column(kind) == Seq::<Option<Value>>::empty(),
            },
    {
        match self.find_index(kind) {
            Some(i) => {
                proof {
                    self.lemma_column_at(i as int, kind);
                }
                Some(&self.entries[i])
            },
            None => None,
        }
    }

    /// A mutable reference to the entry at position `i`.
    fn entry_at(&mut self, i: usize) -> (r: &mut ComponentStore)
        requires
            i < old(self).entries_seq().len(),
        ensures
            *r == old(self).entries_seq()[i as int],
            final(self).entries_seq() == old(self).entries_seq().update(i as int, *final(r)),
    {
        &mut self.entries[i]
    }

    /// Stores one component under its own type, creating the store on first
    /// use. The component lands at `position`, or right after the store's
    /// last element when the store has already grown past `position`; the
    /// returned value is the new length of that store's column.
    pub fn push_component(&mut self, position: usize, component: Value) -> (new_len: usize)
        requires
            old(self).wf(),
            position < usize::MAX,
        ensures
            final(self).wf(),
            forall|k: ComponentKind|
                k != component.kind() ==> #[trigger] final(self).column(k) == old(self).column(k),
            forall|k: ComponentKind|
                #[trigger] final(self).has_kind(k) <==> (old(self).has_kind(k) || k
                    == component.kind()),
            final(self).column(component.kind()) == padded_to(
                old(self).column(component.kind()),
                position as int,
            ).push(Some(component)),
            new_len == final(self).column(component.kind()).len(),
    {
        let kind = component.which_kind();
        match self.find_index(kind) {
            Some(i) => {
                proof {
                    self.lemma_column_at(i as int, kind);
                }
                let ghost pre = *self;
                let new_len = {
                    let cs = self.entry_at(i);
                    let s = cs.as_mut_store(kind);
                    s.push(position, component)
                };
                proof {
                    assert(self.entries_seq()[i as int].kind() == kind);
                    assert(self.entries_seq()[i as int].wf());
                    assert forall|a: int, b: int|
                        0 <= a < b < self.entries_seq().len() implies (
                    #[trigger] self.entries_seq()[a]).kind() != (
                    #[trigger] self.entries_seq()[b]).kind() by {
                        assert(pre.entries_seq()[a].kind() != pre.entries_seq()[b].kind());
                    }
                    assert(self.wf());
                    self.lemma_column_at(i as int, kind);
                    assert forall|k: ComponentKind| k != kind implies #[trigger] self.column(k)
                        == pre.column(k) by {
                        Self::lemma_other_column(pre, *self, i as int, k);
                    }
                    assert forall|k: ComponentKind| #[trigger]
                        self.has_kind(k) <==> (pre.has_kind(k) || k == kind) by {
                        Self::lemma_same_kinds(pre, *self, i as int, kind, k);
                    }
                }
                new_len
            },
            None => {
                let ghost pre = *self;
                let mut ds = DefaultStore::new(kind);
                let new_len = ds.push(position, component);
                let handle = ComponentStore::erase(ds);
                self.entries.push(handle);
                proof {
                    let n = pre.entries_seq().len() as int;
                    assert(self.entries_seq() == pre.entries_seq().push(handle));
                    assert forall|a: int|
                        0 <= a < self.entries_seq().len() implies (
                    #[trigger] self.entries_seq()[a]).wf() by {
                        if a < n {
                            assert(pre.entries_seq()[a].wf());
                        }
                    }
                    assert forall|a: int, b: int|
                        0 <= a < b < self.entries_seq().len() implies (
                    #[trigger] self.entries_seq()[a]).kind() != (
                    #[trigger] self.entries_seq()[b]).kind() by {
                        if b < n {
                            assert(pre.entries_seq()[a].kind() != pre.entries_seq()[b].kind());
                        } else {
                            assert(pre.entries_seq()[a].kind() != kind);
                        }
                    }
                    self.lemma_column_at(n, kind);
                    assert(pre.column(kind) == Seq::<Option<Value>>::empty());
                    assert(self.column(kind) =~= padded_to(
                        pre.column(kind),
                        position as int,
                    ).push(Some(component)));
                    assert forall|k: ComponentKind| k != kind implies #[trigger] self.column(k)
                        == pre.column(k) by {
                        Self::lemma_other_column(pre, *self, n, k);
                    }
                    assert forall|k: ComponentKind| #[trigger]
                        self.has_kind(k) <==> (pre.has_kind(k) || k == kind) by {
                        Self::lemma_same_kinds(pre, *self, n, kind, k);
                    }
                }
                new_len
            },
        }
    }

    /// When two registries differ in at most the entry at position `i`, and
    /// that entry kept its kind, every other component type reads the same
    /// column in both.
    proof fn lemma_other_column(pre: Self, post: Self, i: int, k: ComponentKind)
        requires
            pre.wf(),
            post.wf(),
            0 <= i < post.entries_seq().len(),
            forall|j: int|
                0 <= j < post.entries_seq().len() && j != i ==> j < pre.entries_seq().len()
                    && #[trigger] post.entries_seq()[j] == pre.entries_seq()[j],
            pre.entries_seq().len() == post.entries_seq().len() || pre.entries_seq().len() + 1
                == post.entries_seq().len(),
            i < pre.entries_seq().len() ==> post.entries_seq()[i].kind()
                == pre.entries_seq()[i].kind(),
            k != post.entries_seq()[i].kind(),
        ensures
            post.column(k) == pre.column(k),
    {
        if pre.has_kind(k) {
            let j = choose|j: int|
                0 <= j < pre.entries_seq().len() && (#[trigger] pre.entries_seq()[j]).kind() == k;
            pre.lemma_column_at(j, k);
            post.lemma_column_at(j, k);
        } else {
            if post.has_kind(k) {
                let j = choose|j: int|
                    0 <= j < post.entries_seq().len() && (#[trigger] post.entries_seq()[j]).kind()
                        == k;
                assert(j == i || pre.entries_seq()[j].kind() == k);
                assert(false);
            }
        }
    }

    /// When two registries differ in at most the entry at position `i`, whose
    /// kind in the new registry is `kind`, the new registry knows exactly the
    /// old component types plus `kind`.
    proof fn lemma_same_kinds(pre: Self, post: Self, i: int, kind: ComponentKind, k: ComponentKind)
        requires
            0 <= i < post.entries_seq().len(),
            forall|j: int|
                0 <= j < post.entries_seq().len() && j != i ==> j < pre.entries_seq().len()
                    && #[trigger] post.entries_seq()[j] == pre.entries_seq()[j],
            pre.entries_seq().len() == post.entries_seq().len() || pre.entries_seq().len() + 1
                == post.entries_seq().len(),
            post.entries_seq()[i].kind() == kind,
            i < pre.entries_seq().len() ==> pre.entries_seq()[i].kind() == kind,
        ensures
            post.has_kind(k) <==> (pre.has_kind(k) || k == kind),
    {
        if post.has_kind(k) {
            let j = choose|j: int|
                0 <= j < post.entries_seq().len() && (#[trigger] post.entries_seq()[j]).kind() == k;
            if j != i {
                assert(pre.has_kind(k));
            }
        }
        if pre.has_kind(k) {
            let j = choose|j: int|
                0 <= j < pre.entries_seq().len() && (#[trigger] pre.entries_seq()[j]).kind() == k;
            if j != i {
                assert(post.entries_seq()[j].kind() == k);
                assert(post.has_kind(k));
            } else {
                assert(post.has_kind(k));
            }
        }
        if k == kind {
            assert(post.entries_seq()[i].kind() == k);
            assert(post.has_kind(k));
        }
    }

    /// Replaces the slot of column `k` at position `p` with the given
    /// component; every other slot of every column is untouched.
    pub fn set_slot(&mut self, k: ComponentKind, p: usize, component: Value)
        requires
            old(self).wf(),
            old(self).has_kind(k),
            p < old(self).column(k).len(),
            component.kind() == k,
        ensures
            final(self).wf(),
            final(self).column(k) == old(self).column(k).update(p as int, Some(component)),
            forall|u: ComponentKind|
                u != k ==> #[trigger] final(self).column(u) == old(self).column(u),
            forall|u: ComponentKind|
                #[trigger] final(self).has_kind(u) <==> old(self).has_kind(u),
    {
        let ghost pre = *self;
        let i = match self.find_index(k) {
            Some(i) => i,
            None => {
                proof {
                    assert(false);
                }
                0
            },
        };
        proof {
            self.lemma_column_at(i as int, k);
        }
        {
            let cs = self.entry_at(i);
            let s = cs.as_mut_store(k);
            s.replace_at(p, component);
        }
        proof {
            assert(self.entries_seq()[i as int].kind() == k);
            assert(self.entries_seq()[i as int].wf());
            assert forall|a: int, b: int|
                0 <= a < b < self.entries_seq().len() implies (
            #[trigger] self.entries_seq()[a]).kind() != (#[trigger] self.entries_seq()[b]).kind()
            by {
                assert(pre.entries_seq()[a].kind() != pre.entries_seq()[b].kind());
            }
            assert(self.wf());
            self.lemma_column_at(i as int, k);
            assert forall|u: ComponentKind| u != k implies #[trigger] self.column(u) == pre.column(
                u,
            ) by {
                Self::lemma_other_column(pre, *self, i as int, u);
            }
            assert forall|u: ComponentKind| #[trigger] self.has_kind(u) <==> pre.has_kind(u) by {
                Self::lemma_same_kinds(pre, *self, i as int, k, u);
            }
        }
    }
}

} // verus!
