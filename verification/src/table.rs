use vstd::prelude::*;
use vstd::pervasive::VecAdditionalExecFns;
use crate::bytes_eq;

verus! {

/// No two rows of the table share a key.
pub open spec fn keys_unique<V>(s: Seq<(Vec<u8>, V)>) -> bool {
    forall|i: int, j: int| 0 <= i < j < s.len() ==> #[trigger] s[i].0@ != #[trigger] s[j].0@
}

/// The mapping a table of rows denotes: later rows win, so with unique keys
/// every row is visible.
pub open spec fn table_view<V: View>(s: Seq<(Vec<u8>, V)>) -> Map<Seq<u8>, V::V>
    decreases s.len(),
{
    if s.len() == 0 {
        Map::empty()
    } else {
        table_view(s.drop_last()).insert(s.last().0@, s.last().1@)
    }
}

/// With unique keys, the row at any position is visible in the table's mapping.
pub proof fn lemma_table_view_mem<V: View>(s: Seq<(Vec<u8>, V)>, i: int)
    requires
        keys_unique(s),
        0 <= i < s.len(),
    ensures
        table_view(s).contains_key(s[i].0@),
        table_view(s)[s[i].0@] == s[i].1@,
    decreases s.len(),
{
    if i == s.len() - 1 {
    } else {
        assert(keys_unique(s.drop_last()));
        lemma_table_view_mem(s.drop_last(), i);
        assert(s.drop_last()[i] == s[i]);
        assert(s[i].0@ != s.last().0@);
    }
}

/// A key matching no row is absent from the table's mapping.
pub proof fn lemma_table_view_absent<V: View>(s: Seq<(Vec<u8>, V)>, k: Seq<u8>)
    requires
        forall|i: int| 0 <= i < s.len() ==> #[trigger] s[i].0@ != k,
    ensures
        !table_view(s).contains_key(k),
    decreases s.len(),
{
    if s.len() == 0 {
    } else {
        assert(forall|i: int|
            0 <= i < s.drop_last().len() ==> #[trigger] s.drop_last()[i].0@ != k);
        lemma_table_view_absent(s.drop_last(), k);
    }
}

/// Appending a row with a fresh key inserts its binding.
pub proof fn lemma_table_view_push<V: View>(s: Seq<(Vec<u8>, V)>, k: Vec<u8>, v: V)
    ensures
        table_view(s.push((k, v))) == table_view(s).insert(k@, v@),
{
    assert(s.push((k, v)).drop_last() =~= s);
    assert(s.push((k, v)).last() == (k, v));
}

/// Overwriting the row at position `i` with an equal key updates its binding.
pub proof fn lemma_table_view_update<V: View>(s: Seq<(Vec<u8>, V)>, i: int, k: Vec<u8>, v: V)
    requires
        keys_unique(s),
        0 <= i < s.len(),
        k@ == s[i].0@,
    ensures
        keys_unique(s.update(i, (k, v))),
        table_view(s.update(i, (k, v))) == table_view(s).insert(k@, v@),
    decreases s.len(),
{
    let t = s.update(i, (k, v));
    assert(forall|j: int| 0 <= j < s.len() ==> #[trigger] t[j].0@ == s[j].0@);
    assert(keys_unique(t));
    if i == s.len() - 1 {
        assert(t.drop_last() =~= s.drop_last());
        assert(table_view(t) == table_view(s.drop_last()).insert(k@, v@));
        assert(table_view(s).insert(k@, v@) =~= table_view(s.drop_last()).insert(k@, v@));
    } else {
        assert(keys_unique(s.drop_last()));
        assert(t.drop_last() =~= s.drop_last().update(i, (k, v)));
        assert(s.drop_last()[i] == s[i]);
        lemma_table_view_update(s.drop_last(), i, k, v);
        assert(table_view(t) == table_view(s.drop_last()).insert(k@, v@).insert(
            s.last().0@,
            s.last().1@,
        ));
        assert(k@ != s.last().0@);
        assert(table_view(s.drop_last()).insert(k@, v@).insert(s.last().0@, s.last().1@)
            =~= table_view(s.drop_last()).insert(s.last().0@, s.last().1@).insert(k@, v@));
    }
}

/// Removing the row at position `i` removes its binding.
pub proof fn lemma_table_view_remove<V: View>(s: Seq<(Vec<u8>, V)>, i: int)
    requires
        keys_unique(s),
        0 <= i < s.len(),
    ensures
        keys_unique(s.remove(i)),
        table_view(s.remove(i)) == table_view(s).remove(s[i].0@),
    decreases s.len(),
{
    let t = s.remove(i);
    assert(forall|j: int| 0 <= j < t.len() ==> #[trigger] t[j] == if j < i {
        s[j]
    } else {
        s[j + 1]
    });
    assert(keys_unique(t));
    if i == s.len() - 1 {
        assert(t =~= s.drop_last());
        lemma_table_view_absent_of_unique(s, i);
        assert(table_view(s).remove(s[i].0@) =~= table_view(s.drop_last()));
    } else {
        assert(keys_unique(s.drop_last()));
        assert(t.drop_last() =~= s.drop_last().remove(i));
        assert(s.drop_last()[i] == s[i]);
        lemma_table_view_remove(s.drop_last(), i);
        assert(table_view(t) == table_view(s.drop_last()).remove(s[i].0@).insert(
            s.last().0@,
            s.last().1@,
        ));
        assert(s[i].0@ != s.last().0@);
        assert(table_view(s.drop_last()).remove(s[i].0@).insert(s.last().0@, s.last().1@)
            =~= table_view(s.drop_last()).insert(s.last().0@, s.last().1@).remove(s[i].0@));
    }
}

/// With unique keys, the prefix before the last row does not bind the last key.
proof fn lemma_table_view_absent_of_unique<V: View>(s: Seq<(Vec<u8>, V)>, i: int)
    requires
        keys_unique(s),
        0 <= i < s.len(),
        i == s.len() - 1,
    ensures
        !table_view(s.drop_last()).contains_key(s[i].0@),
{
    assert(forall|j: int|
        0 <= j < s.drop_last().len() ==> #[trigger] s.drop_last()[j].0@ != s[i].0@);
    lemma_table_view_absent(s.drop_last(), s[i].0@);
}


/// A key the table's mapping binds is the key of some row.
pub proof fn lemma_table_view_elem<V: View>(s: Seq<(Vec<u8>, V)>, k: Seq<u8>)
    requires
        table_view(s).contains_key(k),
    ensures
        exists|i: int| 0 <= i < s.len() && #[trigger] s[i].0@ == k,
    decreases s.len(),
{
    if s.len() == 0 {
    } else if s.last().0@ == k {
        assert(s[s.len() - 1].0@ == k);
    } else {
        lemma_table_view_elem(s.drop_last(), k);
        let i = choose|i: int| 0 <= i < s.drop_last().len() && #[trigger] s.drop_last()[i].0@ == k;
        assert(s[i].0@ == k);
    }
}

/// Position of the row holding a key, if any.
pub fn table_find<V>(s: &Vec<(Vec<u8>, V)>, k: &Vec<u8>) -> (r: Option<usize>)
    ensures
        match r {
            Some(i) => i < s@.len() && s@[i as int].0@ == k@,
            None => forall|i: int| 0 <= i < s@.len() ==> #[trigger] s@[i].0@ != k@,
        },
{
    let n = s.len();
    let mut i: usize = 0;
    while i < n
        invariant
            n == s@.len(),
            0 <= i <= n,
            forall|j: int| 0 <= j < i ==> #[trigger] s@[j].0@ != k@,
        decreases n - i,
    {
        let row = &s[i];
        if bytes_eq(&row.0, k) {
            return Some(i);
        }
        i = i + 1;
    }
    None
}

/// Look a key up in a table.
pub fn table_get<'a, V: View>(s: &'a Vec<(Vec<u8>, V)>, k: &Vec<u8>) -> (r: Option<&'a V>)
    requires
        keys_unique(s@),
    ensures
        match r {
            Some(v) => table_view(s@).contains_key(k@) && v@ == table_view(s@)[k@],
            None => !table_view(s@).contains_key(k@),
        },
{
    match table_find(s, k) {
        Some(i) => {
            proof {
                lemma_table_view_mem(s@, i as int);
            }
            Some(&s[i].1)
        },
        None => {
            proof {
                lemma_table_view_absent(s@, k@);
            }
            None
        },
    }
}

/// Whether a table binds a key.
pub fn table_contains<V: View>(s: &Vec<(Vec<u8>, V)>, k: &Vec<u8>) -> (r: bool)
    requires
        keys_unique(s@),
    ensures
        r == table_view(s@).contains_key(k@),
{
    table_get(s, k).is_some()
}

/// Bind a key to a value, replacing any earlier binding.
pub fn table_set<V: View>(s: &mut Vec<(Vec<u8>, V)>, k: Vec<u8>, v: V)
    requires
        keys_unique(old(s)@),
    ensures
        keys_unique(final(s)@),
        table_view(final(s)@) == table_view(old(s)@).insert(k@, v@),
{
    match table_find(s, &k) {
        Some(i) => {
            proof {
                lemma_table_view_update(s@, i as int, k, v);
            }
            s.set(i, (k, v));
        },
        None => {
            proof {
                lemma_table_view_push(s@, k, v);
            }
            s.push((k, v));
        },
    }
}

/// Drop any binding of a key.
pub fn table_remove<V: View>(s: &mut Vec<(Vec<u8>, V)>, k: &Vec<u8>)
    requires
        keys_unique(old(s)@),
    ensures
        keys_unique(final(s)@),
        table_view(final(s)@) == table_view(old(s)@).remove(k@),
{
    match table_find(s, k) {
        Some(i) => {
            proof {
                lemma_table_view_remove(s@, i as int);
            }
            s.remove(i);
        },
        None => {
            proof {
                lemma_table_view_absent(s@, k@);
                assert(table_view(s@).remove(k@) =~= table_view(s@));
            }
        },
    }
}

} // verus!
