use vstd::prelude::*;
use crate::component::ComponentKind;
use crate::system::{Query, Read, Statement, Write};

verus! {

/// A set of component type identifiers with set semantics: inserting a type
/// that is already present leaves the set unchanged and reports so.
pub struct KindSet {
    items: Vec<ComponentKind>,
}

impl View for KindSet {
    type V = Set<ComponentKind>;

    closed spec fn view(&self) -> Set<ComponentKind> {
        self.items@.to_set()
    }
}

impl KindSet {
    /// The empty set of component types.
    pub fn new() -> (r: Self)
        ensures
            r@ == Set::<ComponentKind>::empty(),
    {
        let r = KindSet { items: Vec::new() };
        proof {
            assert(r@ =~= Set::<ComponentKind>::empty());
        }
        r
    }

    /// Whether the set holds the component type `k`.
    pub fn contains(&self, k: ComponentKind) -> (r: bool)
        ensures
            r == self@.contains(k),
    {
        let n = self.items.len();
        let mut i: usize = 0;
        while i < n
            invariant
                n == self.items@.len(),
                i <= n,
                forall|j: int| 0 <= j < i ==> self.items@[j] != k,
            decreases n - i,
        {
            if self.items[i] == k {
                return true;
            }
            i = i + 1;
        }
        proof {
            assert(!self.items@.contains(k));
        }
        false
    }

    /// Adds the component type `k`; reports whether it was newly added.
    pub fn insert(&mut self, k: ComponentKind) -> (added: bool)
        ensures
            final(self)@ == old(self)@.insert(k),
            added == !old(self)@.contains(k),
            !added ==> *final(self) == *old(self),
    {
        if self.contains(k) {
            proof {
                assert(self@ =~= self@.insert(k));
            }
            false
        } else {
            let ghost prev = self.items@;
            self.items.push(k);
            proof {
                assert forall|x: ComponentKind| #[trigger]
                    self.items@.to_set().contains(x) <==> prev.to_set().insert(k).contains(x) by {
                    if self.items@.contains(x) {
                        let i = choose|i: int|
                            0 <= i < self.items@.len() && self.items@[i] == x;
                        if i < prev.len() {
                            assert(prev[i] == x);
                        }
                    }
                    if prev.contains(x) {
                        let i = choose|i: int| 0 <= i < prev.len() && prev[i] == x;
                        assert(self.items@[i] == x);
                    }
                    if x == k {
                        assert(self.items@[prev.len() as int] == x);
                    }
                }
                assert(self.items@.to_set() =~= prev.to_set().insert(k));
            }
            true
        }
    }

    /// Whether the set shares no component type with `other`.
    pub fn is_disjoint(&self, other: &KindSet) -> (r: bool)
        ensures
            r == self@.disjoint(other@),
    {
        let n = self.items.len();
        let mut i: usize = 0;
        while i < n
            invariant
                n == self.items@.len(),
                i <= n,
                forall|j: int| 0 <= j < i ==> !other@.contains(#[trigger] self.items@[j]),
            decreases n - i,
        {
            if other.contains(self.items[i]) {
                proof {
                    assert(self@.contains(self.items@[i as int]));
                }
                return false;
            }
            i = i + 1;
        }
        proof {
            assert forall|x: ComponentKind| self@.contains(x) implies !other@.contains(x) by {
                let j = choose|j: int| 0 <= j < self.items@.len() && self.items@[j] == x;
                assert(!other@.contains(self.items@[j]));
            }
        }
        true
    }
}

/// The declared access set of one query execution attempt: the component
/// types it reads, and the component types it writes.
pub struct Borrow {
    reads: KindSet,
    writes: KindSet,
}

impl Borrow {
    /// The component types the borrow reads.
    pub closed spec fn read_set(&self) -> Set<ComponentKind> {
        self.reads@
    }

    /// The component types the borrow writes.
    pub closed spec fn write_set(&self) -> Set<ComponentKind> {
        self.writes@
    }

    fn new() -> (r: Self)
        ensures
            r.read_set() == Set::<ComponentKind>::empty(),
            r.write_set() == Set::<ComponentKind>::empty(),
    {
        Borrow { reads: KindSet::new(), writes: KindSet::new() }
    }
}

/// The single error the library surfaces: a query's declared access set is
/// internally inconsistent or conflicts with another outstanding access set.
#[derive(Debug)]
pub enum BorrowError {
    InvalidBorrow,
}

impl Clone for BorrowError {
    /// Cloning the error yields the very same value.
    fn clone(&self) -> (r: Self)
        ensures
            r == *self,
    {
        match self {
            BorrowError::InvalidBorrow => BorrowError::InvalidBorrow,
        }
    }
}

impl BorrowError {
    /// A human-readable description of the conflict.
    pub fn message(&self) -> (s: String)
        ensures
            s@ == "unable to borrow component"@,
    {
        "unable to borrow component".to_owned()
    }
}

/// The component types that statements read.
pub open spec fn reads_of(stmts: Seq<Statement>) -> Set<ComponentKind>
    decreases stmts.len(),
{
    if stmts.len() == 0 {
        Set::<ComponentKind>::empty()
    } else if !stmts.last().is_write() {
        reads_of(stmts.drop_last()).insert(stmts.last().kind())
    } else {
        reads_of(stmts.drop_last())
    }
}

/// The component types that statements write.
pub open spec fn writes_of(stmts: Seq<Statement>) -> Set<ComponentKind>
    decreases stmts.len(),
{
    if stmts.len() == 0 {
        Set::<ComponentKind>::empty()
    } else if stmts.last().is_write() {
        writes_of(stmts.drop_last()).insert(stmts.last().kind())
    } else {
        writes_of(stmts.drop_last())
    }
}

/// Whether the statements declare write access to some component type twice.
pub open spec fn write_dup(stmts: Seq<Statement>) -> bool
    decreases stmts.len(),
{
    if stmts.len() == 0 {
        false
    } else {
        write_dup(stmts.drop_last()) || (stmts.last().is_write() && writes_of(
            stmts.drop_last(),
        ).contains(stmts.last().kind()))
    }
}

/// A duplicated write among the first `i` statements stays duplicated in the
/// whole sequence.
proof fn lemma_write_dup_prefix(stmts: Seq<Statement>, i: int)
    requires
        0 <= i <= stmts.len(),
        write_dup(stmts.take(i)),
    ensures
        write_dup(stmts),
    decreases stmts.len() - i,
{
    if i < stmts.len() {
        assert(stmts.take(i + 1).drop_last() =~= stmts.take(i));
        lemma_write_dup_prefix(stmts, i + 1);
    } else {
        assert(stmts.take(i) =~= stmts);
    }
}

/// A value that can build the access set of a whole query.
pub trait RegisterBorrow {
    /// The ordered access declarations the value registers.
    spec fn declares(&self) -> Seq<Statement>;

    /// Creates a new borrow holding the declared read and write sets —
    /// unless the declarations claim write access to one component type
    /// twice, which is rejected immediately.
    fn register_borrow(&self) -> (r: Result<Borrow, BorrowError>)
        ensures
            r is Ok <==> !write_dup(self.declares()),
            r is Ok ==> r->Ok_0.read_set() == reads_of(self.declares()) && r->Ok_0.write_set()
                == writes_of(self.declares()),
    ;
}

/// A single access declaration that knows how to record itself in a borrow.
pub trait PushBorrow {
    /// The component type the declaration binds.
    spec fn declared_kind(&self) -> ComponentKind;

    /// Whether the declaration asks for write access.
    spec fn is_write(&self) -> bool;

    /// Records the declaration in `borrow`. Claiming write access to a
    /// component type the borrow already writes is a conflict; every other
    /// declaration is accepted.
    fn push_borrow(&self, borrow: &mut Borrow) -> (r: Result<(), BorrowError>)
        ensures
            r is Ok <==> (!self.is_write() || !old(borrow).write_set().contains(
                self.declared_kind(),
            )),
            !self.is_write() ==> final(borrow).read_set() == old(borrow).read_set().insert(
                self.declared_kind(),
            ) && final(borrow).write_set() == old(borrow).write_set(),
            self.is_write() ==> final(borrow).read_set() == old(borrow).read_set(),
            self.is_write() && r is Ok ==> final(borrow).write_set() == old(
                borrow,
            ).write_set().insert(self.declared_kind()),
            r is Err ==> *final(borrow) == *old(borrow),
    ;
}

impl PushBorrow for Read {
    open spec fn declared_kind(&self) -> ComponentKind {
        self.0
    }

    open spec fn is_write(&self) -> bool {
        false
    }

    /// Multiple reads of one component type are always allowed.
    fn push_borrow(&self, borrow: &mut Borrow) -> (r: Result<(), BorrowError>) {
        borrow.reads.insert(self.0);
        Ok(())
    }
}

impl PushBorrow for Write {
    open spec fn declared_kind(&self) -> ComponentKind {
        self.0
    }

    open spec fn is_write(&self) -> bool {
        true
    }

    /// Only a single write borrow per component type is allowed: the set
    /// reports that the type is already present in the write set.
    fn push_borrow(&self, borrow: &mut Borrow) -> (r: Result<(), BorrowError>) {
        match borrow.writes.insert(self.0) {
            true => Ok(()),
            false => Err(BorrowError::InvalidBorrow),
        }
    }
}

impl RegisterBorrow for Query {
    open spec fn declares(&self) -> Seq<Statement> {
        self@
    }

    #[verifier::loop_isolation(false)]
    fn register_borrow(&self) -> (r: Result<Borrow, BorrowError>) {
        let mut borrow = Borrow::new();
        let n = self.statements.len();
        let mut i: usize = 0;
        while i < n
            invariant
                i <= n,
                !write_dup(self@.take(i as int)),
                borrow.read_set() == reads_of(self@.take(i as int)),
                borrow.write_set() == writes_of(self@.take(i as int)),
            decreases n - i,
        {
            let stmt = &self.statements[i];
            proof {
                assert(self@.take(i as int + 1).drop_last() =~= self@.take(i as int));
                assert(self@.take(i as int + 1).last() == self@[i as int]);
            }
            let pushed = match stmt {
                Statement::Read(k) => Read(*k).push_borrow(&mut borrow),
                Statement::Write(k) => Write(*k).push_borrow(&mut borrow),
            };
            match pushed {
                Ok(()) => {},
                Err(e) => {
                    proof {
                        assert(write_dup(self@.take(i as int + 1)));
                        lemma_write_dup_prefix(self@, i as int + 1);
                    }
                    return Err(e);
                },
            }
            i = i + 1;
        }
        proof {
            assert(self@.take(n as int) =~= self@);
        }
        Ok(borrow)
    }
}

/// One access set is internally consistent when no component type is both
/// read and written by the same query.
pub open spec fn internal_ok(a: (Set<ComponentKind>, Set<ComponentKind>)) -> bool {
    a.1.disjoint(a.0)
}

/// An earlier access set tolerates a later one when the earlier one's writes
/// overlap neither the later one's writes nor the later one's reads. The
/// rule is applied once per ordered pair: a later write against an earlier
/// read is not cross-checked a second time.
pub open spec fn pair_ok(
    earlier: (Set<ComponentKind>, Set<ComponentKind>),
    later: (Set<ComponentKind>, Set<ComponentKind>),
) -> bool {
    earlier.1.disjoint(later.1) && earlier.1.disjoint(later.0)
}

/// A whole ledger of access sets — each a pair of (reads, writes) — is
/// admissible when every access set is internally consistent and every
/// ordered pair is compatible.
pub open spec fn ledger_ok(s: Seq<(Set<ComponentKind>, Set<ComponentKind>)>) -> bool {
    &&& forall|i: int| 0 <= i < s.len() ==> internal_ok(#[trigger] s[i])
    &&& forall|i: int, j: int| 0 <= i < j < s.len() ==> #[trigger] pair_ok(s[i], s[j])
}

/// A read declaration puts its component type into the read set.
proof fn lemma_reads_of_at(stmts: Seq<Statement>, i: int)
    requires
        0 <= i < stmts.len(),
        !stmts[i].is_write(),
    ensures
        reads_of(stmts).contains(stmts[i].kind()),
    decreases stmts.len(),
{
    if i < stmts.len() - 1 {
        lemma_reads_of_at(stmts.drop_last(), i);
    }
}

/// A write declaration puts its component type into the write set.
proof fn lemma_writes_of_at(stmts: Seq<Statement>, i: int)
    requires
        0 <= i < stmts.len(),
        stmts[i].is_write(),
    ensures
        writes_of(stmts).contains(stmts[i].kind()),
    decreases stmts.len(),
{
    if i < stmts.len() - 1 {
        lemma_writes_of_at(stmts.drop_last(), i);
    }
}

/// Two write declarations of one component type are a duplicated write.
proof fn lemma_double_write(stmts: Seq<Statement>, i: int, j: int)
    requires
        0 <= i < j < stmts.len(),
        stmts[i].is_write(),
        stmts[j].is_write(),
        stmts[i].kind() == stmts[j].kind(),
    ensures
        write_dup(stmts),
    decreases stmts.len(),
{
    if j == stmts.len() - 1 {
        lemma_writes_of_at(stmts.drop_last(), i);
    } else {
        lemma_double_write(stmts.drop_last(), i, j);
    }
}

/// Law of internal exclusivity: a query that declares write access to one
/// component type twice, or declares both read and write access to the
/// same type, is rejected — whatever else the ledger holds. The admission
/// condition — no duplicated write, and the ledger extended with the
/// query's access sets admissible — is false for every ledger.
pub proof fn lemma_internal_exclusivity(
    stmts: Seq<Statement>,
    ledger: Seq<(Set<ComponentKind>, Set<ComponentKind>)>,
    i: int,
    j: int,
    t: ComponentKind,
)
    requires
        0 <= i < stmts.len(),
        0 <= j < stmts.len(),
        i != j,
        stmts[j] == Statement::Write(t),
        stmts[i] == Statement::Write(t) || stmts[i] == Statement::Read(t),
    ensures
        !(!write_dup(stmts) && ledger_ok(
            ledger.push((reads_of(stmts), writes_of(stmts))),
        )),
{
    if stmts[i] == Statement::Write(t) {
        if i < j {
            lemma_double_write(stmts, i, j);
        } else {
            lemma_double_write(stmts, j, i);
        }
    } else {
        lemma_reads_of_at(stmts, i);
        lemma_writes_of_at(stmts, j);
        let extended = ledger.push((reads_of(stmts), writes_of(stmts)));
        assert(extended[ledger.len() as int] == (reads_of(stmts), writes_of(stmts)));
        assert(!internal_ok(extended[ledger.len() as int]));
    }
}

/// Admitting one more access set succeeds exactly when the ledger so far is
/// admissible, the newcomer is internally consistent, and no outstanding
/// access set's writes overlap the newcomer's reads or writes.
pub proof fn lemma_admission(
    ledger: Seq<(Set<ComponentKind>, Set<ComponentKind>)>,
    b: (Set<ComponentKind>, Set<ComponentKind>),
)
    ensures
        ledger_ok(ledger.push(b)) <==> (ledger_ok(ledger) && internal_ok(b) && (forall|i: int|
            0 <= i < ledger.len() ==> pair_ok(#[trigger] ledger[i], b))),
{
    let extended = ledger.push(b);
    assert(extended[ledger.len() as int] == b);
    assert(forall|i: int| 0 <= i < ledger.len() ==> extended[i] == #[trigger] ledger[i]);
    if ledger_ok(extended) {
        assert forall|i: int, j: int| 0 <= i < j < ledger.len() implies #[trigger] pair_ok(
            ledger[i],
            ledger[j],
        ) by {
            assert(pair_ok(extended[i], extended[j]));
        }
        assert forall|i: int| 0 <= i < ledger.len() implies pair_ok(#[trigger] ledger[i], b) by {
            assert(pair_ok(extended[i], extended[ledger.len() as int]));
        }
    }
    if ledger_ok(ledger) && internal_ok(b) && (forall|i: int|
        0 <= i < ledger.len() ==> pair_ok(#[trigger] ledger[i], b)) {
        assert forall|i: int| 0 <= i < extended.len() implies internal_ok(#[trigger] extended[i])
        by {
            if i < ledger.len() {
                assert(internal_ok(ledger[i]));
            }
        }
        assert forall|i: int, j: int| 0 <= i < j < extended.len() implies #[trigger] pair_ok(
            extended[i],
            extended[j],
        ) by {
            if j < ledger.len() {
                assert(pair_ok(ledger[i], ledger[j]));
            } else {
                assert(pair_ok(ledger[i], b));
            }
        }
    }
}

/// Law of cross-query exclusivity: with one internally consistent access
/// set outstanding, admitting a second one fails exactly when the
/// outstanding set's writes overlap the newcomer's writes or the
/// newcomer's reads — and succeeds otherwise.
pub proof fn lemma_cross_query_exclusivity(
    a: (Set<ComponentKind>, Set<ComponentKind>),
    b: (Set<ComponentKind>, Set<ComponentKind>),
)
    requires
        internal_ok(a),
        internal_ok(b),
    ensures
        ledger_ok(seq![a].push(b)) <==> (a.1.disjoint(b.1) && a.1.disjoint(b.0)),
{
    assert(ledger_ok(seq![a])) by {
        assert(forall|i: int| 0 <= i < seq![a].len() ==> internal_ok(#[trigger] seq![a][i]));
    }
    lemma_admission(seq![a], b);
    assert(seq![a][0] == a);
}

/// The ordered ledger of access sets for the queries considered outstanding.
/// It grows by one access set per registered query and is validated as a
/// whole on each attempt.
pub struct RuntimeBorrow {
    borrows: Vec<Borrow>,
}

impl View for RuntimeBorrow {
    type V = Seq<(Set<ComponentKind>, Set<ComponentKind>)>;

    closed spec fn view(&self) -> Seq<(Set<ComponentKind>, Set<ComponentKind>)> {
        self.borrows@.map_values(|b: Borrow| (b.read_set(), b.write_set()))
    }
}

impl RuntimeBorrow {
    /// An empty ledger: no query is outstanding.
    pub fn new() -> (r: Self)
        ensures
            r@ == Seq::<(Set<ComponentKind>, Set<ComponentKind>)>::empty(),
    {
        let r = RuntimeBorrow { borrows: Vec::new() };
        proof {
            assert(r@ =~= Seq::<(Set<ComponentKind>, Set<ComponentKind>)>::empty());
        }
        r
    }

    /// Builds the access set that `query` declares and appends it to the
    /// ledger. A query that declares write access to one component type
    /// twice is rejected immediately and leaves the ledger unchanged.
    pub fn push_access<R: RegisterBorrow>(&mut self, query: &R) -> (r: Result<(), BorrowError>)
        ensures
            r is Ok <==> !write_dup(query.declares()),
            r is Ok ==> final(self)@ == old(self)@.push(
                (reads_of(query.declares()), writes_of(query.declares())),
            ),
            r is Err ==> *final(self) == *old(self),
    {
        match query.register_borrow() {
            Ok(borrow) => {
                let ghost prev = self.borrows@;
                let ghost sets = (borrow.read_set(), borrow.write_set());
                self.borrows.push(borrow);
                proof {
                    assert(self@ =~= prev.map_values(
                        |b: Borrow| (b.read_set(), b.write_set()),
                    ).push(sets));
                }
                Ok(())
            },
            Err(e) => Err(e),
        }
    }

    /// Removes the most recently admitted access set from the ledger: the
    /// explicit release step that ends a query's outstanding borrow.
    pub fn release_access(&mut self)
        ensures
            final(self)@ == if old(self)@.len() == 0 {
                old(self)@
            } else {
                old(self)@.drop_last()
            },
    {
        if self.borrows.len() > 0 {
            let ghost prev = self.borrows@;
            let _ = self.borrows.pop();
            proof {
                assert(self@ =~= prev.map_values(
                    |b: Borrow| (b.read_set(), b.write_set()),
                ).drop_last());
            }
        }
    }

    /// Scans the whole ledger and reports whether the outstanding access
    /// sets are admissible: no access set both reads and writes one
    /// component type, and no earlier access set writes a component type
    /// that a later one reads or writes.
    #[verifier::loop_isolation(false)]
    pub fn validate(&self) -> (r: Result<(), BorrowError>)
        ensures
            r is Ok <==> ledger_ok(self@),
    {
        let n = self.borrows.len();
        let mut i: usize = 0;
        while i < n
            invariant
                i <= n,
                forall|a: int| 0 <= a < i ==> internal_ok(#[trigger] self@[a]),
                forall|a: int, b: int| 0 <= a < i && a < b < n ==> #[trigger] pair_ok(
                    self@[a],
                    self@[b],
                ),
            decreases n - i,
        {
            let bi = &self.borrows[i];
            let non_exclusive_internal_write = !bi.writes.is_disjoint(&bi.reads);
            if non_exclusive_internal_write {
                proof {
                    assert(self@[i as int] == (
                        self.borrows@[i as int].read_set(),
                        self.borrows@[i as int].write_set(),
                    ));
                    assert(!internal_ok(self@[i as int]));
                }
                return Err(BorrowError::InvalidBorrow);
            }
            let mut j: usize = i + 1;
            while j < n
                invariant
                    i < j <= n,
                    forall|b: int| i < b < j ==> #[trigger] pair_ok(self@[i as int], self@[b]),
                decreases n - j,
            {
                let bj = &self.borrows[j];
                let cross_borrow_non_exclusive_write = !bi.writes.is_disjoint(&bj.writes)
                    || !bi.writes.is_disjoint(&bj.reads);
                if cross_borrow_non_exclusive_write {
                    proof {
                        assert(self@[i as int] == (
                            self.borrows@[i as int].read_set(),
                            self.borrows@[i as int].write_set(),
                        ));
                        assert(self@[j as int] == (
                            self.borrows@[j as int].read_set(),
                            self.borrows@[j as int].write_set(),
                        ));
                        assert(!pair_ok(self@[i as int], self@[j as int]));
                    }
                    return Err(BorrowError::InvalidBorrow);
                }
                j = j + 1;
            }
            i = i + 1;
        }
        Ok(())
    }
}

} // verus!
