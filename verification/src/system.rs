use vstd::prelude::*;
use crate::borrow::{write_dup, writes_of};
use crate::component::{ComponentKind, Value};
use crate::store::StoreRegistry;

verus! {

/// A component of type `k` is present at alignment position `p`: the column
/// of `k` reaches past `p` and its slot at `p` is occupied.
pub open spec fn present(stores: StoreRegistry, k: ComponentKind, p: int) -> bool {
    0 <= p < stores.column(k).len() && stores.column(k)[p] is Some
}

/// Alignment position `p` belongs to the join of the declared statements:
/// every declared component type is present at `p`. A query with no
/// statements joins nothing.
pub open spec fn joined(stores: StoreRegistry, stmts: Seq<Statement>, p: int) -> bool {
    stmts.len() > 0 && forall|i: int|
        0 <= i < stmts.len() ==> present(stores, (#[trigger] stmts[i]).kind(), p)
}

/// `Read` marks a component type within a query as read-only.
#[derive(Clone, Copy, Debug, PartialEq, Eq, Structural)]
pub struct Read(pub ComponentKind);

/// `Write` marks a component type within a query as read-and-write.
#[derive(Clone, Copy, Debug, PartialEq, Eq, Structural)]
pub struct Write(pub ComponentKind);

impl Read {
    /// Resolves the declaration against the registry: an immutable
    /// slot-sequence view of the declared type's store, or an empty view if
    /// that type was never stored.
    pub fn find<'a>(&self, stores: &'a StoreRegistry) -> (r: &'a [Option<Value>])
        requires
            stores.wf(),
        ensures
            r@ == stores.column(self.0),
    {
        let empty: &[Option<Value>] = &[];
        proof {
            assert(empty@ =~= Seq::<Option<Value>>::empty());
        }
        match stores.get(self.0) {
            Some(cs) => match cs.as_store(self.0) {
                Some(s) => s.as_slice(),
                None => {
                    proof {
                        assert(false);
                    }
                    empty
                },
            },
            None => empty,
        }
    }
}

/// One access declaration of a query: a component type bound to the access
/// mode the query intends for it.
#[derive(Clone, Copy, Debug, PartialEq, Eq, Structural)]
pub enum Statement {
    Read(ComponentKind),
    Write(ComponentKind),
}

impl Statement {
    /// The component type the declaration binds.
    pub open spec fn kind(self) -> ComponentKind {
        match self {
            Statement::Read(k) => k,
            Statement::Write(k) => k,
        }
    }

    /// Whether the declaration asks for write access.
    pub open spec fn is_write(self) -> bool {
        self is Write
    }

    /// Runtime counterpart of [`Statement::kind`].
    pub fn which_kind(&self) -> (k: ComponentKind)
        ensures
            k == self.kind(),
    {
        match self {
            Statement::Read(k) => *k,
            Statement::Write(k) => *k,
        }
    }

    /// Runtime counterpart of [`Statement::is_write`].
    pub fn writes(&self) -> (w: bool)
        ensures
            w == self.is_write(),
    {
        match self {
            Statement::Read(_) => false,
            Statement::Write(_) => true,
        }
    }
}

/// A query: the ordered collection of access declarations that determines
/// which components a system operates on, and in which mode.
pub struct Query {
    pub statements: Vec<Statement>,
}

impl View for Query {
    type V = Seq<Statement>;

    open spec fn view(&self) -> Seq<Statement> {
        self.statements@
    }
}

impl Query {
    /// A query over the given ordered declarations.
    pub fn new(statements: Vec<Statement>) -> (q: Query)
        ensures
            q@ == statements@,
    {
        Query { statements }
    }

    /// Resolves each declared component type against the registry and joins
    /// the stores positionally: the result lists, in ascending order,
    /// exactly the alignment positions where every declared component type
    /// is present. A declared type that was never stored resolves to an
    /// empty column, so the join is immediately empty.
    #[verifier::loop_isolation(false)]
    pub fn join(&self, stores: &StoreRegistry) -> (rows: Vec<usize>)
        requires
            stores.wf(),
        ensures
            forall|a: int, b: int| 0 <= a < b < rows@.len() ==> rows@[a] < rows@[b],
            forall|p: usize| rows@.contains(p) <==> joined(*stores, self@, p as int),
    {
        let mut rows: Vec<usize> = Vec::new();
        let n = self.statements.len();
        if n == 0 {
            return rows;
        }
        // the join can reach no further than the shortest declared column
        let mut m: usize = column_len(stores, self.statements[0].which_kind());
        let mut t: usize = 1;
        while t < n
            invariant
                1 <= t <= n,
                forall|a: int| 0 <= a < t ==> m <= stores.column((#[trigger] self@[a]).kind()).len(),
                exists|a: int| 0 <= a < t && m == stores.column((#[trigger] self@[a]).kind()).len(),
            decreases n - t,
        {
            let len = column_len(stores, self.statements[t].which_kind());
            if len < m {
                m = len;
            }
            t = t + 1;
        }
        let mut p: usize = 0;
        while p < m
            invariant
                p <= m,
                forall|a: int, b: int| 0 <= a < b < rows@.len() ==> rows@[a] < rows@[b],
                forall|a: int| 0 <= a < rows@.len() ==> rows@[a] < p,
                forall|q: usize|
                    rows@.contains(q) <==> (q < p && joined(*stores, self@, q as int)),
            decreases m - p,
        {
            let mut all = true;
            let mut t: usize = 0;
            while t < n
                invariant
                    t <= n,
                    all <==> (forall|a: int|
                        0 <= a < t ==> present(*stores, (#[trigger] self@[a]).kind(), p as int)),
                decreases n - t,
            {
                if !occupied(stores, self.statements[t].which_kind(), p) {
                    all = false;
                }
                t = t + 1;
            }
            let ghost prev = rows@;
            if all {
                rows.push(p);
            }
            proof {
                assert forall|q: usize|
                    rows@.contains(q) <==> (q < p + 1 && joined(*stores, self@, q as int)) by {
                    if rows@.contains(q) {
                        let idx = choose|idx: int| 0 <= idx < rows@.len() && rows@[idx] == q;
                        if idx < prev.len() {
                            assert(prev[idx] == q);
                            assert(prev.contains(q));
                        }
                    }
                    if q < p + 1 && joined(*stores, self@, q as int) {
                        if q < p {
                            assert(prev.contains(q));
                            let idx = choose|idx: int| 0 <= idx < prev.len() && prev[idx] == q;
                            assert(rows@[idx] == q);
                        } else {
                            assert(all);
                            assert(rows@[rows@.len() - 1] == q);
                        }
                    }
                }
            }
            p = p + 1;
        }
        proof {
            assert forall|q: usize| rows@.contains(q) <==> joined(*stores, self@, q as int) by {
                if joined(*stores, self@, q as int) {
                    let a = choose|a: int|
                        0 <= a < n && m == stores.column((#[trigger] self@[a]).kind()).len();
                    assert(present(*stores, self@[a].kind(), q as int));
                }
            }
        }
        rows
    }
}

/// Law of alignment: when a collection of components is stored at one
/// cursor on a registry whose columns all stay at or below that cursor,
/// every component type of the collection is present at the cursor itself —
/// so any query declaring only those types joins the new entity's row at
/// that single shared position.
pub proof fn lemma_alignment(
    pre: StoreRegistry,
    post: StoreRegistry,
    comps: Seq<Value>,
    cursor: int,
    stmts: Seq<Statement>,
)
    requires
        0 <= cursor,
        forall|k: ComponentKind| (#[trigger] pre.column(k)).len() <= cursor,
        forall|k: ComponentKind| #[trigger]
            post.column(k) == crate::component::stored_column(pre.column(k), comps, k, cursor),
        stmts.len() > 0,
        forall|i: int|
            0 <= i < stmts.len() ==> crate::component::count_kind(
                comps,
                (#[trigger] stmts[i]).kind(),
            ) > 0,
    ensures
        joined(post, stmts, cursor),
{
    assert forall|i: int| 0 <= i < stmts.len() implies present(
        post,
        (#[trigger] stmts[i]).kind(),
        cursor,
    ) by {
        let k = stmts[i].kind();
        lemma_kind_slots_occupied(comps, k);
        let col = crate::component::stored_column(pre.column(k), comps, k, cursor);
        assert(crate::store::padded_to(pre.column(k), cursor).len() == cursor);
        assert(col[cursor] == crate::component::kind_slots(comps, k)[0]);
    }
}

/// Every slot a component collection contributes to its type's column is
/// occupied.
proof fn lemma_kind_slots_occupied(comps: Seq<Value>, k: ComponentKind)
    ensures
        forall|j: int|
            0 <= j < crate::component::kind_slots(comps, k).len() ==> (
            #[trigger] crate::component::kind_slots(comps, k)[j]) is Some,
    decreases comps.len(),
{
    if comps.len() > 0 {
        lemma_kind_slots_occupied(comps.drop_last(), k);
    }
}

/// Law of idempotent emptiness: a query that declares a component type with
/// zero stored instances joins nothing — at no position is every declared
/// type present.
pub proof fn lemma_empty_column_joins_nothing(
    stores: StoreRegistry,
    stmts: Seq<Statement>,
    i: int,
)
    requires
        0 <= i < stmts.len(),
        stores.column(stmts[i].kind()).len() == 0,
    ensures
        forall|p: int| !joined(stores, stmts, p),
{
    assert forall|p: int| !joined(stores, stmts, p) by {
        assert(!present(stores, stmts[i].kind(), p));
    }
}

/// The declarations of `stmts` with the given access mode, in order.
pub open spec fn mode_stmts(stmts: Seq<Statement>, want_write: bool) -> Seq<Statement>
    decreases stmts.len(),
{
    if stmts.len() == 0 {
        Seq::<Statement>::empty()
    } else if stmts.last().is_write() == want_write {
        mode_stmts(stmts.drop_last(), want_write).push(stmts.last())
    } else {
        mode_stmts(stmts.drop_last(), want_write)
    }
}

/// The components that the declarations of the given mode see at position
/// `p`, in declaration order.
pub open spec fn row_values(
    stores: StoreRegistry,
    stmts: Seq<Statement>,
    p: int,
    want_write: bool,
) -> Seq<Value> {
    mode_stmts(stmts, want_write).map_values(|s: Statement| stores.column(s.kind())[p]->0)
}

/// Every declaration singled out by its mode occurs among the statements.
proof fn lemma_mode_sub(stmts: Seq<Statement>, want_write: bool)
    ensures
        forall|i: int|
            0 <= i < mode_stmts(stmts, want_write).len() ==> stmts.contains(
                #[trigger] mode_stmts(stmts, want_write)[i],
            ),
    decreases stmts.len(),
{
    if stmts.len() > 0 {
        let rest = stmts.drop_last();
        lemma_mode_sub(rest, want_write);
        assert forall|i: int|
            0 <= i < mode_stmts(stmts, want_write).len() implies stmts.contains(
            #[trigger] mode_stmts(stmts, want_write)[i],
        ) by {
            let m = mode_stmts(stmts, want_write);
            if stmts.last().is_write() == want_write && i == m.len() - 1 {
                assert(stmts[stmts.len() - 1] == m[i]);
            } else {
                assert(m[i] == mode_stmts(rest, want_write)[i]);
                assert(rest.contains(m[i]));
                let j = choose|j: int| 0 <= j < rest.len() && rest[j] == m[i];
                assert(stmts[j] == m[i]);
            }
        }
    }
}

/// The write set of the statements holds exactly the component types of
/// their write declarations.
proof fn lemma_writes_of_mode(stmts: Seq<Statement>)
    ensures
        forall|k: ComponentKind| #[trigger]
            writes_of(stmts).contains(k) <==> exists|i: int|
                0 <= i < mode_stmts(stmts, true).len() && (#[trigger] mode_stmts(
                    stmts,
                    true,
                )[i]).kind() == k,
    decreases stmts.len(),
{
    if stmts.len() > 0 {
        let rest = stmts.drop_last();
        lemma_writes_of_mode(rest);
        let m = mode_stmts(stmts, true);
        let mr = mode_stmts(rest, true);
        assert forall|k: ComponentKind| #[trigger]
            writes_of(stmts).contains(k) <==> exists|i: int|
                0 <= i < m.len() && (#[trigger] m[i]).kind() == k by {
            if stmts.last().is_write() {
                if writes_of(stmts).contains(k) {
                    if k == stmts.last().kind() {
                        assert(m[m.len() - 1].kind() == k);
                    } else {
                        assert(writes_of(rest).contains(k));
                        let i = choose|i: int| 0 <= i < mr.len() && (#[trigger] mr[i]).kind() == k;
                        assert(m[i].kind() == k);
                    }
                }
                if exists|i: int| 0 <= i < m.len() && (#[trigger] m[i]).kind() == k {
                    let i = choose|i: int| 0 <= i < m.len() && (#[trigger] m[i]).kind() == k;
                    if i < mr.len() {
                        assert(mr[i].kind() == k);
                        assert(writes_of(rest).contains(k));
                    } else {
                        assert(m[i] == stmts.last());
                    }
                }
            } else {
                if exists|i: int| 0 <= i < m.len() && (#[trigger] m[i]).kind() == k {
                    let i = choose|i: int| 0 <= i < m.len() && (#[trigger] m[i]).kind() == k;
                    assert(mr[i].kind() == k);
                }
                if writes_of(rest).contains(k) {
                    let i = choose|i: int| 0 <= i < mr.len() && (#[trigger] mr[i]).kind() == k;
                    assert(m[i].kind() == k);
                }
            }
        }
    }
}

/// A query that never writes one component type twice has pairwise distinct
/// write declarations.
proof fn lemma_write_kinds_distinct(stmts: Seq<Statement>)
    requires
        !write_dup(stmts),
    ensures
        forall|i: int, j: int|
            0 <= i < j < mode_stmts(stmts, true).len() ==> (#[trigger] mode_stmts(
                stmts,
                true,
            )[i]).kind() != (#[trigger] mode_stmts(stmts, true)[j]).kind(),
    decreases stmts.len(),
{
    if stmts.len() > 0 {
        let rest = stmts.drop_last();
        lemma_write_kinds_distinct(rest);
        let m = mode_stmts(stmts, true);
        let mr = mode_stmts(rest, true);
        if stmts.last().is_write() {
            lemma_writes_of_mode(rest);
            assert(!writes_of(rest).contains(stmts.last().kind()));
            assert forall|i: int, j: int|
                0 <= i < j < m.len() implies (#[trigger] m[i]).kind() != (#[trigger] m[j]).kind()
            by {
                if j == m.len() - 1 {
                    assert(m[i] == mr[i]);
                    if mr[i].kind() == stmts.last().kind() {
                        assert(exists|a: int|
                            0 <= a < mr.len() && (#[trigger] mr[a]).kind() == stmts.last().kind());
                        assert(false);
                    }
                } else {
                    assert(m[i] == mr[i] && m[j] == mr[j]);
                }
            }
        }
    }
}

/// The length of the column registered for `k`; zero when no component of
/// that type was ever stored.
fn column_len(stores: &StoreRegistry, k: ComponentKind) -> (r: usize)
    requires
        stores.wf(),
    ensures
        r == stores.column(k).len(),
{
    match stores.get(k) {
        Some(cs) => match cs.as_store(k) {
            Some(s) => s.len(),
            None => {
                proof {
                    assert(false);
                }
                0
            },
        },
        None => 0,
    }
}

/// Clones the component that one declared type holds at the joined position
/// `p` out of its store.
fn fetch(stores: &StoreRegistry, k: ComponentKind, p: usize) -> (v: Value)
    requires
        stores.wf(),
        present(*stores, k, p as int),
    ensures
        v == stores.column(k)[p as int]->0,
{
    match stores.get(k) {
        Some(cs) => match cs.as_store(k) {
            Some(s) => {
                match s.get(p) {
                    Some(v) => v.clone(),
                    None => {
                        proof {
                            assert(false);
                        }
                        Value::Flag(false)
                    },
                }
            },
            None => {
                proof {
                    assert(false);
                }
                Value::Flag(false)
            },
        },
        None => {
            proof {
                assert(false);
            }
            Value::Flag(false)
        },
    }
}

/// Collects the components that the query's declarations of one mode see at
/// the joined position `p`, in declaration order.
#[verifier::loop_isolation(false)]
fn gather(stores: &StoreRegistry, query: &Query, p: usize, want_write: bool) -> (vals: Vec<Value>)
    requires
        stores.wf(),
        joined(*stores, query@, p as int),
    ensures
        vals@ == row_values(*stores, query@, p as int, want_write),
{
    let mut vals: Vec<Value> = Vec::new();
    let n = query.statements.len();
    let mut t: usize = 0;
    while t < n
        invariant
            t <= n,
            vals@ == row_values(*stores, query@.take(t as int), p as int, want_write),
        decreases n - t,
    {
        let stmt = query.statements[t];
        proof {
            assert(query@.take(t as int + 1).drop_last() =~= query@.take(t as int));
            assert(query@.take(t as int + 1).last() == query@[t as int]);
        }
        if stmt.writes() == want_write {
            let v = fetch(stores, stmt.which_kind(), p);
            vals.push(v);
            proof {
                assert(vals@ =~= row_values(
                    *stores,
                    query@.take(t as int + 1),
                    p as int,
                    want_write,
                ));
            }
        } else {
            proof {
                assert(vals@ =~= row_values(
                    *stores,
                    query@.take(t as int + 1),
                    p as int,
                    want_write,
                ));
            }
        }
        t = t + 1;
    }
    proof {
        assert(query@.take(n as int) =~= query@);
    }
    vals
}

/// Writes the components of the query's write declarations back into their
/// stores at the joined position `p`. The write declarations must name
/// pairwise distinct component types; the validator has already rejected
/// any query that writes one type twice.
#[verifier::loop_isolation(false)]
fn write_row(stores: &mut StoreRegistry, query: &Query, p: usize, vals: Vec<Value>)
    requires
        old(stores).wf(),
        joined(*old(stores), query@, p as int),
        vals@.len() == mode_stmts(query@, true).len(),
        forall|i: int|
            0 <= i < vals@.len() ==> (#[trigger] vals@[i]).kind() == mode_stmts(
                query@,
                true,
            )[i].kind(),
        forall|i: int, j: int|
            0 <= i < j < mode_stmts(query@, true).len() ==> (#[trigger] mode_stmts(
                query@,
                true,
            )[i]).kind() != (#[trigger] mode_stmts(query@, true)[j]).kind(),
    ensures
        final(stores).wf(),
        forall|i: int|
            0 <= i < vals@.len() ==> #[trigger] final(stores).column(
                mode_stmts(query@, true)[i].kind(),
            ) == old(stores).column(mode_stmts(query@, true)[i].kind()).update(
                p as int,
                Some(vals@[i]),
            ),
        forall|k: ComponentKind|
            (forall|i: int|
                0 <= i < mode_stmts(query@, true).len() ==> (#[trigger] mode_stmts(
                    query@,
                    true,
                )[i]).kind() != k) ==> #[trigger] final(stores).column(k) == old(stores).column(k),
        forall|k: ComponentKind| #[trigger] final(stores).has_kind(k) <==> old(stores).has_kind(k),
{
    let ghost pre = *stores;
    let ghost all_vals = vals@;
    let ghost ws = mode_stmts(query@, true);
    proof {
        lemma_mode_sub(query@, true);
    }
    let mut vals = vals;
    let n = query.statements.len();
    let mut t: usize = 0;
    let mut widx: usize = 0;
    while t < n
        invariant
            t <= n,
            widx <= ws.len(),
            widx <= t,
            stores.wf(),
            vals@ == all_vals.skip(widx as int),
            mode_stmts(query@.take(t as int), true) == ws.take(widx as int),
            forall|i: int|
                0 <= i < widx ==> #[trigger] stores.column(ws[i].kind()) == pre.column(
                    ws[i].kind(),
                ).update(p as int, Some(all_vals[i])),
            forall|k: ComponentKind|
                (forall|i: int| 0 <= i < widx ==> (#[trigger] ws[i]).kind() != k)
                    ==> #[trigger] stores.column(k) == pre.column(k),
            forall|k: ComponentKind| #[trigger] stores.has_kind(k) <==> pre.has_kind(k),
        decreases n - t,
    {
        let stmt = query.statements[t];
        proof {
            assert(query@.take(t as int + 1).drop_last() =~= query@.take(t as int));
            assert(query@.take(t as int + 1).last() == query@[t as int]);
        }
        if stmt.writes() {
            proof {
                assert(mode_stmts(query@.take(t as int + 1), true) == ws.take(
                    widx as int,
                ).push(stmt));
                assert(mode_stmts(query@.take(t as int + 1), true).len() == widx + 1);
                lemma_mode_take(query@, t as int + 1, true);
                assert(widx + 1 <= ws.len());
                // the pushed declaration is the next write declaration
                assert(mode_stmts(query@.take(t as int + 1), true) == ws.take(widx as int + 1));
                assert(ws[widx as int] == ws.take(widx as int + 1)[widx as int]);
                assert(ws[widx as int] == stmt);
                assert(all_vals.skip(widx as int)[0] == all_vals[widx as int]);
            }
            let v = vals.remove(0);
            proof {
                assert(vals@ =~= all_vals.skip(widx as int + 1));
                assert(v.kind() == ws[widx as int].kind());
                let s = ws[widx as int];
                assert(query@.contains(s));
                let j = choose|j: int| 0 <= j < query@.len() && query@[j] == s;
                assert(present(pre, s.kind(), p as int));
                // the column still reaches past `p` and is registered
                assert(pre.column(s.kind()).len() > p);
                assert(pre.has_kind(s.kind())) by {
                    if !pre.has_kind(s.kind()) {
                        pre.lemma_absent_column(s.kind());
                    }
                }
                assert(stores.column(s.kind()).len() == pre.column(s.kind()).len()) by {
                    if forall|i: int| 0 <= i < widx ==> (#[trigger] ws[i]).kind() != s.kind() {
                        assert(stores.column(s.kind()) == pre.column(s.kind()));
                    } else {
                        let i = choose|i: int| 0 <= i < widx && (#[trigger] ws[i]).kind() == s.kind();
                        assert(false);
                    }
                }
            }
            let k = stmt.which_kind();
            stores.set_slot(k, p, v);
            proof {
                let s = ws[widx as int];
                assert forall|i: int|
                    0 <= i < widx + 1 implies #[trigger] stores.column(ws[i].kind()) == pre.column(
                    ws[i].kind(),
                ).update(p as int, Some(all_vals[i])) by {
                    if i < widx {
                        assert(ws[i].kind() != s.kind());
                    } else {
                        assert(stores.column(s.kind()) == pre.column(s.kind()).update(
                            p as int,
                            Some(all_vals[widx as int]),
                        ));
                    }
                }
            }
            widx = widx + 1;
        } else {
            proof {
                assert(mode_stmts(query@.take(t as int + 1), true) == ws.take(widx as int));
            }
        }
        t = t + 1;
    }
    proof {
        assert(query@.take(n as int) =~= query@);
        assert(ws.take(widx as int) == ws);
        assert(widx == ws.len());
    }
}

/// The write declarations of a prefix are a prefix of the write
/// declarations of the whole.
proof fn lemma_mode_take(stmts: Seq<Statement>, t: int, want_write: bool)
    requires
        0 <= t <= stmts.len(),
    ensures
        mode_stmts(stmts.take(t), want_write).len() <= mode_stmts(stmts, want_write).len(),
        mode_stmts(stmts.take(t), want_write) == mode_stmts(stmts, want_write).take(
            mode_stmts(stmts.take(t), want_write).len() as int,
        ),
    decreases stmts.len() - t,
{
    if t < stmts.len() {
        assert(stmts.take(t + 1).drop_last() =~= stmts.take(t));
        assert(stmts.take(t + 1).last() == stmts[t]);
        lemma_mode_take(stmts, t + 1, want_write);
        let a = mode_stmts(stmts.take(t), want_write);
        let b = mode_stmts(stmts.take(t + 1), want_write);
        let m = mode_stmts(stmts, want_write);
        if stmts[t].is_write() == want_write {
            assert(b == a.push(stmts[t]));
            assert(b == m.take(b.len() as int));
            assert(a =~= m.take(a.len() as int));
        } else {
            assert(b == a);
        }
    } else {
        assert(stmts.take(t) =~= stmts);
        assert(mode_stmts(stmts, want_write).take(mode_stmts(stmts, want_write).len() as int)
            =~= mode_stmts(stmts, want_write));
    }
}

/// `System` must be implemented by any object that wants to interact with
/// components. Objects implementing `System` are used to manipulate, and
/// act on, the data stored by components.
pub trait System {
    /// The query that determines on which set of components the system
    /// operates.
    fn query() -> (q: Query);

    /// Consumes one joined row: the components the query reads, and —
    /// mutably — the components it writes, each in declaration order. An
    /// implementation may replace a written component, but must keep every
    /// component's type.
    fn update(reads: &Vec<Value>, writes: &mut Vec<Value>)
        ensures
            final(writes)@.len() == old(writes)@.len(),
            forall|i: int|
                0 <= i < old(writes)@.len() ==> (#[trigger] final(writes)@[i]).kind() == old(
                    writes,
                )@[i].kind(),
    ;
}

/// Runs one joined row through a system: gathers what the query reads and
/// writes at position `p`, lets the system update the written components,
/// and stores the result back. Only the slots of written component types at
/// position `p` can change, and each keeps both its occupancy and its type.
pub fn run_row<S: System>(stores: &mut StoreRegistry, query: &Query, p: usize)
    requires
        old(stores).wf(),
        joined(*old(stores), query@, p as int),
        !write_dup(query@),
    ensures
        final(stores).wf(),
        forall|k: ComponentKind| #[trigger] final(stores).has_kind(k) <==> old(stores).has_kind(k),
        forall|k: ComponentKind|
            (#[trigger] final(stores).column(k)).len() == old(stores).column(k).len(),
        forall|k: ComponentKind|
            !writes_of(query@).contains(k) ==> #[trigger] final(stores).column(k) == old(
                stores,
            ).column(k),
        forall|k: ComponentKind, q2: int|
            0 <= q2 < old(stores).column(k).len() && q2 != p ==> #[trigger] final(stores).column(
                k,
            )[q2] == old(stores).column(k)[q2],
        forall|k: ComponentKind|
            0 <= (p as int) < old(stores).column(k).len() ==> ((#[trigger] final(stores).column(
                k,
            )[p as int]) is Some <==> old(stores).column(k)[p as int] is Some),
{
    let ghost pre = *stores;
    let ghost ws = mode_stmts(query@, true);
    let reads = gather(stores, query, p, false);
    let mut writes = gather(stores, query, p, true);
    proof {
        lemma_write_kinds_distinct(query@);
        lemma_mode_sub(query@, true);
        lemma_writes_of_mode(query@);
        assert forall|i: int| 0 <= i < writes@.len() implies (#[trigger] writes@[i]).kind()
            == ws[i].kind() by {
            let s = ws[i];
            assert(query@.contains(s));
            let j = choose|j: int| 0 <= j < query@.len() && query@[j] == s;
            assert(present(pre, s.kind(), p as int));
            pre.lemma_column_wf(s.kind());
            assert(writes@[i] == pre.column(s.kind())[p as int]->0);
        }
    }
    S::update(&reads, &mut writes);
    let ghost wvals = writes@;
    write_row(stores, query, p, writes);
    proof {
        assert forall|k: ComponentKind| #[trigger] stores.column(k).len() == pre.column(
            k,
        ).len() && (0 <= (p as int) < pre.column(k).len() ==> (stores.column(k)[p as int] is Some
            <==> pre.column(k)[p as int] is Some)) && (forall|q2: int|
            0 <= q2 < pre.column(k).len() && q2 != p ==> #[trigger] stores.column(k)[q2]
                == pre.column(k)[q2]) by {
            if exists|i: int| 0 <= i < ws.len() && (#[trigger] ws[i]).kind() == k {
                let i = choose|i: int| 0 <= i < ws.len() && (#[trigger] ws[i]).kind() == k;
                assert(stores.column(k) == pre.column(k).update(p as int, Some(wvals[i])));
                assert(query@.contains(ws[i]));
                let j = choose|j: int| 0 <= j < query@.len() && query@[j] == ws[i];
                assert(present(pre, k, p as int));
            } else {
                assert(stores.column(k) == pre.column(k));
            }
        }
        assert forall|k: ComponentKind|
            !writes_of(query@).contains(k) implies #[trigger] stores.column(k) == pre.column(
            k,
        ) by {
            assert(forall|i: int| 0 <= i < ws.len() ==> (#[trigger] ws[i]).kind() != k);
        }
    }
}

/// Whether a component of type `k` occupies the slot at position `p`.
fn occupied(stores: &StoreRegistry, k: ComponentKind, p: usize) -> (r: bool)
    requires
        stores.wf(),
    ensures
        r == present(*stores, k, p as int),
{
    match stores.get(k) {
        Some(cs) => match cs.as_store(k) {
            Some(s) => {
                if p < s.len() {
                    s.get(p).is_some()
                } else {
                    false
                }
            },
            None => {
                proof {
                    assert(false);
                }
                false
            },
        },
        None => false,
    }
}

} // verus!
