use vstd::prelude::*;
use crate::merkle::copy_bytes;
use crate::table::{keys_unique, table_view, table_get, table_set, table_remove};

verus! {

/// One mutation of the byte-keyed store: bind a key to value bytes, or drop it.
pub enum Change {
    Put(Vec<u8>),
    Remove,
}

/// The mathematical content of a `Change`.
pub enum ChangeView {
    Put(Seq<u8>),
    Remove,
}

impl View for Change {
    type V = ChangeView;

    open spec fn view(&self) -> ChangeView {
        match self {
            Change::Put(v) => ChangeView::Put(v@),
            Change::Remove => ChangeView::Remove,
        }
    }
}

/// The effect of a set of changes laid over a base mapping: a put wins over the
/// base, a removal hides it, and untouched keys read through.
pub open spec fn overlay(m: Map<Seq<u8>, Seq<u8>>, c: Map<Seq<u8>, ChangeView>) -> Map<
    Seq<u8>,
    Seq<u8>,
> {
    Map::new(
        |k: Seq<u8>|
            if c.contains_key(k) {
                c[k] is Put
            } else {
                m.contains_key(k)
            },
        |k: Seq<u8>|
            if c.contains_key(k) {
                c[k]->Put_0
            } else {
                m[k]
            },
    )
}

/// An atomic batch of store mutations, at most one per key.
pub struct Patch {
    pub changes: Vec<(Vec<u8>, Change)>,
}

impl View for Patch {
    type V = Map<Seq<u8>, ChangeView>;

    open spec fn view(&self) -> Map<Seq<u8>, ChangeView> {
        table_view(self.changes@)
    }
}

impl Patch {
    /// A well-formed patch holds at most one change per key.
    pub open spec fn wf(&self) -> bool {
        keys_unique(self.changes@)
    }
}

/// An immutable, point-in-time read view of the store: later merges into the
/// database it came from are never visible through it.
pub struct Snapshot {
    pub rows: Vec<(Vec<u8>, Vec<u8>)>,
}

impl View for Snapshot {
    type V = Map<Seq<u8>, Seq<u8>>;

    open spec fn view(&self) -> Map<Seq<u8>, Seq<u8>> {
        table_view(self.rows@)
    }
}

impl Snapshot {
    /// A well-formed snapshot binds each key once.
    pub open spec fn wf(&self) -> bool {
        keys_unique(self.rows@)
    }

    /// Look a key up in this view.
    pub fn get(&self, k: &Vec<u8>) -> (r: Option<&Vec<u8>>)
        requires
            self.wf(),
        ensures
            match r {
                Some(v) => self@.contains_key(k@) && v@ == self@[k@],
                None => !self@.contains_key(k@),
            },
    {
        table_get(&self.rows, k)
    }

    /// An empty read view.
    pub fn empty() -> (r: Snapshot)
        ensures
            r.wf(),
            r@ == Map::<Seq<u8>, Seq<u8>>::empty(),
    {
        Snapshot { rows: Vec::new() }
    }
}

/// A mutable overlay over a snapshot: accumulated changes are consulted first,
/// reads falling back to the base, and nothing touches the store until the
/// changes are merged as a patch.
pub struct Fork {
    pub base: Snapshot,
    pub pending: Vec<(Vec<u8>, Change)>,
}

impl View for Fork {
    type V = Map<Seq<u8>, Seq<u8>>;

    open spec fn view(&self) -> Map<Seq<u8>, Seq<u8>> {
        overlay(table_view(self.base.rows@), table_view(self.pending@))
    }
}

/// Read access shared by every store view: snapshots and forks answer the same
/// questions of their effective mapping.
pub trait StoreRead {
    /// The effective key-to-value mapping this view denotes.
    spec fn store_view(&self) -> Map<Seq<u8>, Seq<u8>>;

    /// Internal well-formedness of the view.
    spec fn store_wf(&self) -> bool;

    /// Look a key up in the effective mapping.
    fn store_get(&self, k: &Vec<u8>) -> (r: Option<&Vec<u8>>)
        requires
            self.store_wf(),
        ensures
            match r {
                Some(v) => self.store_view().contains_key(k@) && v@ == self.store_view()[k@],
                None => !self.store_view().contains_key(k@),
            },
    ;
}

impl StoreRead for Snapshot {
    open spec fn store_view(&self) -> Map<Seq<u8>, Seq<u8>> {
        self@
    }

    open spec fn store_wf(&self) -> bool {
        self.wf()
    }

    fn store_get(&self, k: &Vec<u8>) -> (r: Option<&Vec<u8>>) {
        table_get(&self.rows, k)
    }
}

impl StoreRead for Fork {
    open spec fn store_view(&self) -> Map<Seq<u8>, Seq<u8>> {
        self@
    }

    open spec fn store_wf(&self) -> bool {
        self.wf()
    }

    fn store_get(&self, k: &Vec<u8>) -> (r: Option<&Vec<u8>>) {
        match table_get(&self.pending, k) {
            Some(c) => match c {
                Change::Put(v) => Some(v),
                Change::Remove => None,
            },
            None => table_get(&self.base.rows, k),
        }
    }
}

impl Fork {
    /// A well-formed fork has a well-formed base and one pending change per key.
    pub open spec fn wf(&self) -> bool {
        self.base.wf() && keys_unique(self.pending@)
    }

    /// Open a writable overlay over a snapshot; nothing is pending yet.
    pub fn new(base: Snapshot) -> (r: Fork)
        requires
            base.wf(),
        ensures
            r.wf(),
            r@ == base@,
            r.pending@.len() == 0,
    {
        let r = Fork { base, pending: Vec::new() };
        proof {
            assert(r@ =~= r.base@);
        }
        r
    }

    /// Record that `k` maps to `v`; visible to this fork's reads at once.
    pub fn put(&mut self, k: Vec<u8>, v: Vec<u8>)
        requires
            old(self).wf(),
        ensures
            final(self).wf(),
            final(self)@ == old(self)@.insert(k@, v@),
            final(self).base == old(self).base,
    {
        table_set(&mut self.pending, k, Change::Put(v));
        proof {
            assert(final(self)@ =~= old(self)@.insert(k@, v@));
        }
    }

    /// Record that `k` is removed; this fork's reads no longer see it, even if
    /// the base snapshot binds it.
    pub fn delete(&mut self, k: Vec<u8>)
        requires
            old(self).wf(),
        ensures
            final(self).wf(),
            final(self)@ == old(self)@.remove(k@),
            final(self).base == old(self).base,
    {
        table_set(&mut self.pending, k, Change::Remove);
        proof {
            assert(final(self)@ =~= old(self)@.remove(k@));
        }
    }

    /// Look a key up, pending changes first, then the base snapshot.
    pub fn get(&self, k: &Vec<u8>) -> (r: Option<&Vec<u8>>)
        requires
            self.wf(),
        ensures
            match r {
                Some(v) => self@.contains_key(k@) && v@ == self@[k@],
                None => !self@.contains_key(k@),
            },
    {
        self.store_get(k)
    }


    /// The effective contents of this fork as a snapshot of its own: pending
    /// changes laid over the base, so ordered iteration over a fork-backed
    /// index sees overlay-then-snapshot precedence. The fork is untouched.
    pub fn materialize(&self) -> (r: Snapshot)
        requires
            self.wf(),
        ensures
            r.wf(),
            r@ == self@,
    {
        let mut rows: Vec<(Vec<u8>, Vec<u8>)> = Vec::new();
        let nb = self.base.rows.len();
        let mut i: usize = 0;
        while i < nb
            invariant
                self.wf(),
                nb == self.base.rows@.len(),
                0 <= i <= nb,
                rows@.len() == i,
                forall|j: int|
                    0 <= j < i ==> #[trigger] rows@[j].0@ == self.base.rows@[j].0@ && rows@[j].1@
                        == self.base.rows@[j].1@,
            decreases nb - i,
        {
            let row = &self.base.rows[i];
            let k = copy_bytes(&row.0);
            let v = copy_bytes(&row.1);
            rows.push((k, v));
            proof {
                assert forall|j: int| 0 <= j < i + 1 implies #[trigger] rows@[j].0@
                    == self.base.rows@[j].0@ && rows@[j].1@ == self.base.rows@[j].1@ by {
                    if j == i as int {
                        assert(rows@[j] == (k, v));
                    }
                }
            }
            i = i + 1;
        }
        proof {
            lemma_table_view_congruence(rows@, self.base.rows@);
        }
        let nc = self.pending.len();
        let mut c: usize = 0;
        while c < nc
            invariant
                self.wf(),
                nc == self.pending@.len(),
                0 <= c <= nc,
                keys_unique(rows@),
                table_view(rows@) == overlay(
                    table_view(self.base.rows@),
                    table_view(self.pending@.subrange(0, c as int)),
                ),
            decreases nc - c,
        {
            let ghost cpre = table_view(self.pending@.subrange(0, c as int));
            let row = &self.pending[c];
            let k = copy_bytes(&row.0);
            match &row.1 {
                Change::Put(v) => {
                    let v2 = copy_bytes(v);
                    table_set(&mut rows, k, v2);
                },
                Change::Remove => {
                    table_remove(&mut rows, &k);
                },
            }
            proof {
                assert(self.pending@.subrange(0, c + 1).drop_last() =~= self.pending@.subrange(
                    0,
                    c as int,
                ));
                assert(self.pending@.subrange(0, c + 1).last() == self.pending@[c as int]);
                assert(table_view(self.pending@.subrange(0, c + 1)) == cpre.insert(
                    self.pending@[c as int].0@,
                    self.pending@[c as int].1@,
                ));
                assert(table_view(rows@) =~= overlay(
                    table_view(self.base.rows@),
                    table_view(self.pending@.subrange(0, c + 1)),
                ));
            }
            c = c + 1;
        }
        proof {
            assert(self.pending@.subrange(0, nc as int) =~= self.pending@);
        }
        Snapshot { rows }
    }

    /// Give the accumulated changes up as an atomic patch.
    pub fn into_patch(self) -> (r: Patch)
        requires
            self.wf(),
        ensures
            r.wf(),
            overlay(self.base@, r@) == self@,
            r@ == table_view(self.pending@),
    {
        Patch { changes: self.pending }
    }
}

/// The volatile in-memory backend: the durable and in-memory backends share the
/// snapshot / fork / patch semantics, and this one owns its rows directly.
pub struct MemoryDb {
    pub rows: Vec<(Vec<u8>, Vec<u8>)>,
}

impl View for MemoryDb {
    type V = Map<Seq<u8>, Seq<u8>>;

    open spec fn view(&self) -> Map<Seq<u8>, Seq<u8>> {
        table_view(self.rows@)
    }
}

impl MemoryDb {
    /// A well-formed database binds each key once.
    pub open spec fn wf(&self) -> bool {
        keys_unique(self.rows@)
    }

    /// An empty store.
    pub fn new() -> (r: MemoryDb)
        ensures
            r.wf(),
            r@ == Map::<Seq<u8>, Seq<u8>>::empty(),
    {
        MemoryDb { rows: Vec::new() }
    }

    /// An isolated point-in-time view of the current committed state: merges
    /// performed afterwards never show through the returned snapshot.
    pub fn snapshot(&self) -> (r: Snapshot)
        requires
            self.wf(),
        ensures
            r.wf(),
            r@ == self@,
    {
        let mut rows: Vec<(Vec<u8>, Vec<u8>)> = Vec::new();
        let n = self.rows.len();
        let mut i: usize = 0;
        while i < n
            invariant
                self.wf(),
                n == self.rows@.len(),
                0 <= i <= n,
                rows@.len() == i,
                forall|j: int|
                    0 <= j < i ==> #[trigger] rows@[j].0@ == self.rows@[j].0@ && rows@[j].1@
                        == self.rows@[j].1@,
            decreases n - i,
        {
            let row = &self.rows[i];
            let k = copy_bytes(&row.0);
            let v = copy_bytes(&row.1);
            rows.push((k, v));
            proof {
                assert forall|j: int| 0 <= j < i + 1 implies #[trigger] rows@[j].0@
                    == self.rows@[j].0@ && rows@[j].1@ == self.rows@[j].1@ by {
                    if j == i as int {
                        assert(rows@[j] == (k, v));
                    }
                }
            }
            i = i + 1;
        }
        proof {
            lemma_table_view_congruence(rows@, self.rows@);
        }
        Snapshot { rows }
    }

    /// Atomically apply every change of a patch: afterwards the store's mapping
    /// is exactly the patch laid over the old mapping — no partial application.
    /// The in-memory backend cannot fail, so success is always reported.
    pub fn merge(&mut self, patch: Patch) -> (r: Result<(), StoreError>)
        requires
            old(self).wf(),
            patch.wf(),
        ensures
            r is Ok,
            final(self).wf(),
            final(self)@ == overlay(old(self)@, patch@),
    {
        let changes = patch.changes;
        let n = changes.len();
        let mut i: usize = 0;
        while i < n
            invariant
                n == changes@.len(),
                0 <= i <= n,
                keys_unique(changes@),
                keys_unique(self.rows@),
                table_view(self.rows@) == overlay(
                    table_view(old(self).rows@),
                    table_view(changes@.subrange(0, i as int)),
                ),
            decreases n - i,
        {
            let ghost pre = table_view(self.rows@);
            let ghost cpre = table_view(changes@.subrange(0, i as int));
            let row = &changes[i];
            let k = copy_bytes(&row.0);
            match &row.1 {
                Change::Put(v) => {
                    let v2 = copy_bytes(v);
                    table_set(&mut self.rows, k, v2);
                },
                Change::Remove => {
                    table_remove(&mut self.rows, &k);
                },
            }
            proof {
                assert(changes@.subrange(0, i + 1).drop_last() =~= changes@.subrange(0, i as int));
                assert(changes@.subrange(0, i + 1).last() == changes@[i as int]);
                assert(table_view(changes@.subrange(0, i + 1)) == cpre.insert(
                    changes@[i as int].0@,
                    changes@[i as int].1@,
                ));
                assert(table_view(self.rows@) =~= overlay(
                    table_view(old(self).rows@),
                    table_view(changes@.subrange(0, i + 1)),
                ));
            }
            i = i + 1;
        }
        proof {
            assert(changes@.subrange(0, n as int) =~= changes@);
        }
        Ok(())
    }
}

/// A failure of a store backend while opening or merging; the in-memory
/// backend never raises it, a durable backend may.
#[derive(Debug)]
pub enum StoreError {
    Backend,
}

/// Rows with pairwise equal key and value bytes denote the same mapping.
pub proof fn lemma_table_view_congruence(s: Seq<(Vec<u8>, Vec<u8>)>, t: Seq<(Vec<u8>, Vec<u8>)>)
    requires
        s.len() == t.len(),
        forall|j: int|
            0 <= j < s.len() ==> #[trigger] s[j].0@ == t[j].0@ && s[j].1@ == t[j].1@,
    ensures
        table_view(s) == table_view(t),
        keys_unique(t) ==> keys_unique(s),
    decreases s.len(),
{
    if s.len() == 0 {
    } else {
        assert(forall|j: int|
            0 <= j < s.drop_last().len() ==> #[trigger] s.drop_last()[j].0@ == t.drop_last()[j].0@
                && s.drop_last()[j].1@ == t.drop_last()[j].1@);
        lemma_table_view_congruence(s.drop_last(), t.drop_last());
    }
}

/// Law: reads of a fork see its own pending writes before any merge — a put is
/// read back as the put value, and a removal hides even a key the base binds.
pub proof fn lemma_fork_read_after_write(
    m: Map<Seq<u8>, Seq<u8>>,
    c: Map<Seq<u8>, ChangeView>,
    k: Seq<u8>,
    v: Seq<u8>,
)
    ensures
        overlay(m, c.insert(k, ChangeView::Put(v))).contains_key(k),
        overlay(m, c.insert(k, ChangeView::Put(v)))[k] == v,
        !overlay(m, c.insert(k, ChangeView::Remove)).contains_key(k),
{
}

/// Law: a merge is atomic — after it, every put of the patch is bound to its
/// value, every removal is absent, and every key the patch does not touch is
/// bound exactly as before.
pub proof fn lemma_patch_atomic(
    m: Map<Seq<u8>, Seq<u8>>,
    p: Map<Seq<u8>, ChangeView>,
    k: Seq<u8>,
)
    ensures
        p.contains_key(k) && p[k] is Put ==> overlay(m, p).contains_key(k) && overlay(m, p)[k]
            == p[k]->Put_0,
        p.contains_key(k) && p[k] is Remove ==> !overlay(m, p).contains_key(k),
        !p.contains_key(k) ==> (overlay(m, p).contains_key(k) == m.contains_key(k)) && (
        m.contains_key(k) ==> overlay(m, p)[k] == m[k]),
{
}

/// Law: snapshot isolation — a snapshot is a value of its own, so a later merge
/// rebinds only the database; the mapping the snapshot denoted is untouched, and
/// a key the patch adds is visible in the merged mapping but not in the old one.
pub proof fn lemma_snapshot_isolation(
    m: Map<Seq<u8>, Seq<u8>>,
    p: Map<Seq<u8>, ChangeView>,
    k: Seq<u8>,
    v: Seq<u8>,
)
    requires
        !m.contains_key(k),
        p.contains_key(k),
        p[k] == ChangeView::Put(v),
    ensures
        !m.contains_key(k),
        overlay(m, p).contains_key(k),
        overlay(m, p)[k] == v,
{
}

} // verus!
