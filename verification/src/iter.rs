use vstd::prelude::*;
use crate::merkle::copy_bytes;
use crate::order::{lex_lt, lex_le, lex_less, lemma_lex_trichotomy, lemma_lex_trans, lemma_lex_irrefl};
use crate::store::Snapshot;
use crate::table::lemma_table_view_elem;
use crate::index::{index_key_spec, lemma_index_key_injective, map_index_view};

verus! {

/// Whether a key lies at or past the start of a seek.
pub open spec fn in_range(from: Option<Seq<u8>>, k: Seq<u8>) -> bool {
    match from {
        Option::None => true,
        Option::Some(f) => lex_le(f, k),
    }
}

/// Strip an index's prefix off a full store key: the entry key under that
/// index, if the full key belongs to it.
fn try_strip(name: &Vec<u8>, full: &Vec<u8>) -> (r: Option<Vec<u8>>)
    requires
        name@.len() <= 255,
    ensures
        match r {
            Some(suffix) => index_key_spec(name@, suffix@) == full@,
            None => forall|k: Seq<u8>| #[trigger] index_key_spec(name@, k) != full@,
        },
{
    let nl = name.len();
    if full.len() < 1 + nl {
        proof {
            assert forall|k: Seq<u8>| #[trigger] index_key_spec(name@, k) != full@ by {
                assert(index_key_spec(name@, k).len() == 1 + nl + k.len());
            }
        }
        return None;
    }
    if full[0] != name.len() as u8 {
        proof {
            assert forall|k: Seq<u8>| #[trigger] index_key_spec(name@, k) != full@ by {
                assert(index_key_spec(name@, k)[0] == name@.len() as u8);
            }
        }
        return None;
    }
    let mut j: usize = 0;
    while j < nl
        invariant
            nl == name@.len() <= 255,
            full@.len() >= 1 + nl,
            0 <= j <= nl,
            forall|t: int| 0 <= t < j ==> full@[1 + t] == name@[t],
        decreases nl - j,
    {
        if full[1 + j] != name[j] {
            proof {
                assert forall|k: Seq<u8>| #[trigger] index_key_spec(name@, k) != full@ by {
                    assert(index_key_spec(name@, k)[1 + j] == name@[j as int]);
                }
            }
            return None;
        }
        j = j + 1;
    }
    let mut suffix: Vec<u8> = Vec::new();
    let mut t: usize = 1 + nl;
    let fl = full.len();
    while t < fl
        invariant
            nl == name@.len(),
            fl == full@.len() >= 1 + nl,
            1 + nl <= t <= fl,
            suffix@.len() == t - 1 - nl,
            forall|u: int| 0 <= u < suffix@.len() ==> suffix@[u] == full@[1 + nl + u],
        decreases fl - t,
    {
        suffix.push(full[t]);
        t = t + 1;
    }
    proof {
        assert(index_key_spec(name@, suffix@) =~= full@);
    }
    Some(suffix)
}

/// Every entry of a named index in a snapshot, keys ascending in byte order,
/// each key once, optionally seeking from a start key. This is the ordered
/// iteration the typed indexes share.
pub fn index_entries_from(snap: &Snapshot, name: &Vec<u8>, from: Option<&Vec<u8>>) -> (r: Vec<
    (Vec<u8>, Vec<u8>),
>)
    requires
        snap.wf(),
        name@.len() <= 255,
    ensures
        forall|i: int|
            0 <= i < r@.len() ==> map_index_view(snap@, name@).contains_key(#[trigger] r@[i].0@)
                && r@[i].1@ == map_index_view(snap@, name@)[r@[i].0@] && in_range(
                match from {
                    Option::None => Option::None,
                    Option::Some(f) => Option::Some(f@),
                },
                r@[i].0@,
            ),
        forall|k: Seq<u8>|
            map_index_view(snap@, name@).contains_key(k) && in_range(
                match from {
                    Option::None => Option::None,
                    Option::Some(f) => Option::Some(f@),
                },
                k,
            ) ==> exists|i: int| 0 <= i < r@.len() && #[trigger] r@[i].0@ == k,
        forall|i: int, j: int| 0 <= i < j < r@.len() ==> lex_lt(r@[i].0@, r@[j].0@),
{
    let ghost fr: Option<Seq<u8>> = match from {
        Option::None => Option::None,
        Option::Some(f) => Option::Some(f@),
    };
    let rows = &snap.rows;
    let nrows = rows.len();
    let mut r: Vec<(Vec<u8>, Vec<u8>)> = Vec::new();
    let mut t: usize = 0;
    while t < nrows
        invariant
            snap.wf(),
            name@.len() <= 255,
            nrows == rows@.len(),
            rows == snap.rows,
            fr == (match from {
                Option::None => Option::<Seq<u8>>::None,
                Option::Some(f) => Option::Some(f@),
            }),
            0 <= t <= nrows,
            forall|i: int|
                0 <= i < r@.len() ==> snap@.contains_key(
                    #[trigger] index_key_spec(name@, r@[i].0@),
                ) && r@[i].1@ == snap@[index_key_spec(name@, r@[i].0@)] && in_range(fr, r@[i].0@),
            forall|i: int|
                0 <= i < r@.len() ==> exists|u: int|
                    0 <= u < t && rows@[u].0@ == #[trigger] index_key_spec(name@, r@[i].0@),
            forall|u: int, k: Seq<u8>|
                #![trigger rows@[u].0@, index_key_spec(name@, k)]
                0 <= u < t && rows@[u].0@ == index_key_spec(name@, k) && in_range(fr, k)
                    ==> exists|i: int| 0 <= i < r@.len() && #[trigger] r@[i].0@ == k,
            forall|i: int, j: int| 0 <= i < j < r@.len() ==> lex_lt(r@[i].0@, r@[j].0@),
        decreases nrows - t,
    {
        let row = &rows[t];
        let stripped = try_strip(name, &row.0);
        match stripped {
            Some(suffix) => {
                let admitted: bool = match from {
                    Option::None => true,
                    Option::Some(f) => !lex_less(&suffix, f),
                };
                proof {
                    if admitted {
                        match fr {
                            Option::None => {},
                            Option::Some(f) => {
                                lemma_lex_trichotomy(f, suffix@);
                            },
                        }
                        assert(in_range(fr, suffix@));
                    }
                }
                if !admitted {
                    proof {
                        assert forall|u: int, k: Seq<u8>|
                            #![trigger rows@[u].0@, index_key_spec(name@, k)]
                            0 <= u < t + 1 && rows@[u].0@ == index_key_spec(name@, k) && in_range(
                                fr,
                                k,
                            ) implies exists|i: int|
                            0 <= i < r@.len() && #[trigger] r@[i].0@ == k by {
                            if u == t {
                                lemma_index_key_injective(name@, k, name@, suffix@);
                                match fr {
                                    Option::None => {},
                                    Option::Some(f) => {
                                        lemma_lex_irrefl(suffix@);
                                        if lex_lt(f, suffix@) {
                                            lemma_lex_trans(suffix@, f, suffix@);
                                        }
                                        assert(false);
                                    },
                                }
                            }
                        }
                    }
                }
                if admitted {
                    let ghost pre = r@;
                    let value = copy_bytes(&row.1);
                    let mut pos: usize = 0;
                    while pos < r.len() && lex_less(&r[pos].0, &suffix)
                        invariant
                            0 <= pos <= r@.len(),
                            r@ == pre,
                            forall|j: int| 0 <= j < pos ==> lex_lt(r@[j].0@, suffix@),
                        decreases r@.len() - pos,
                    {
                        pos = pos + 1;
                    }
                    proof {
                        // the new key is fresh: its full key is this row's key,
                        // and every collected key came from an earlier row
                        assert forall|i: int| 0 <= i < pre.len() implies pre[i].0@ != suffix@ by {
                            if pre[i].0@ == suffix@ {
                                let u = choose|u: int|
                                    0 <= u < t && rows@[u].0@ == index_key_spec(name@, pre[i].0@);
                                assert(rows@[u].0@ == rows@[t as int].0@);
                                assert(false);
                            }
                        }
                        if pos < pre.len() {
                            lemma_lex_trichotomy(pre[pos as int].0@, suffix@);
                            assert(lex_lt(suffix@, pre[pos as int].0@));
                        }
                    }
                    r.insert(pos, (suffix, value));
                    proof {
                        let cur = r@;
                        let x = cur[pos as int];
                        assert(rows@[t as int].0@ == index_key_spec(name@, x.0@));
                        assert(snap@.contains_key(index_key_spec(name@, x.0@))) by {
                            crate::table::lemma_table_view_mem(rows@, t as int);
                        }
                        assert(x.1@ == snap@[index_key_spec(name@, x.0@)]) by {
                            crate::table::lemma_table_view_mem(rows@, t as int);
                        }
                        // indexing of the inserted sequence
                        assert(forall|i: int| 0 <= i < pos ==> cur[i] == pre[i]);
                        assert(forall|i: int|
                            pos < i < cur.len() ==> cur[i] == pre[i - 1]);
                        // soundness and witnesses
                        assert forall|i: int| 0 <= i < cur.len() implies snap@.contains_key(
                            #[trigger] index_key_spec(name@, cur[i].0@),
                        ) && cur[i].1@ == snap@[index_key_spec(name@, cur[i].0@)] && in_range(
                            fr,
                            cur[i].0@,
                        ) by {
                            if i != pos {
                            }
                        }
                        assert forall|i: int| 0 <= i < cur.len() implies exists|u: int|
                            0 <= u < t + 1 && rows@[u].0@ == #[trigger] index_key_spec(
                                name@,
                                cur[i].0@,
                            ) by {
                            if i == pos {
                                assert(rows@[t as int].0@ == index_key_spec(name@, cur[i].0@));
                            } else {
                                let iold: int = if i < pos {
                                    i
                                } else {
                                    i - 1
                                };
                                let u = choose|u: int|
                                    0 <= u < t && rows@[u].0@ == index_key_spec(
                                        name@,
                                        pre[iold].0@,
                                    );
                                assert(rows@[u].0@ == index_key_spec(name@, cur[i].0@));
                            }
                        }
                        // completeness over the scanned prefix of rows
                        assert forall|u: int, k: Seq<u8>|
                            #![trigger rows@[u].0@, index_key_spec(name@, k)]
                            0 <= u < t + 1 && rows@[u].0@ == index_key_spec(name@, k) && in_range(
                                fr,
                                k,
                            ) implies exists|i: int|
                            0 <= i < cur.len() && #[trigger] cur[i].0@ == k by {
                            if u == t {
                                lemma_index_key_injective(name@, k, name@, x.0@);
                                assert(cur[pos as int].0@ == k);
                            } else {
                                let i = choose|i: int|
                                    0 <= i < pre.len() && #[trigger] pre[i].0@ == k;
                                let inew: int = if i < pos {
                                    i
                                } else {
                                    i + 1
                                };
                                assert(cur[inew].0@ == k);
                            }
                        }
                        // sortedness
                        assert forall|i: int, j: int|
                            0 <= i < j < cur.len() implies lex_lt(cur[i].0@, cur[j].0@) by {
                            if i == pos {
                                assert(lex_lt(suffix@, pre[pos as int].0@));
                                if j > pos + 1 {
                                    lemma_lex_trans(suffix@, pre[pos as int].0@, pre[j - 1].0@);
                                }
                            } else if j == pos {
                            } else {
                            }
                        }
                    }
                }
            },
            None => {
                proof {
                    assert forall|u: int, k: Seq<u8>|
                        #![trigger rows@[u].0@, index_key_spec(name@, k)]
                        0 <= u < t + 1 && rows@[u].0@ == index_key_spec(name@, k) && in_range(
                            fr,
                            k,
                        ) implies exists|i: int|
                        0 <= i < r@.len() && #[trigger] r@[i].0@ == k by {
                        if u == t {
                            assert(index_key_spec(name@, k) != rows@[t as int].0@);
                            assert(false);
                        }
                    }
                }
            },
        }
        t = t + 1;
    }
    proof {
        assert forall|k: Seq<u8>|
            map_index_view(snap@, name@).contains_key(k) && in_range(fr, k) implies exists|i: int|
            0 <= i < r@.len() && #[trigger] r@[i].0@ == k by {
            assert(snap@.contains_key(index_key_spec(name@, k)));
            lemma_table_view_elem(rows@, index_key_spec(name@, k));
        }
    }
    r
}


impl crate::index::MapIndex {
    /// Every entry of the map, keys ascending in byte order, each once.
    pub fn iter(&self, snap: &Snapshot) -> (r: Vec<(Vec<u8>, Vec<u8>)>)
        requires
            snap.wf(),
            self.wf(),
        ensures
            forall|i: int|
                0 <= i < r@.len() ==> map_index_view(snap@, self.name@).contains_key(
                    #[trigger] r@[i].0@,
                ) && r@[i].1@ == map_index_view(snap@, self.name@)[r@[i].0@],
            forall|k: Seq<u8>|
                map_index_view(snap@, self.name@).contains_key(k) ==> exists|i: int|
                    0 <= i < r@.len() && #[trigger] r@[i].0@ == k,
            forall|i: int, j: int| 0 <= i < j < r@.len() ==> lex_lt(r@[i].0@, r@[j].0@),
    {
        index_entries_from(snap, &self.name, None)
    }

    /// The entries whose keys are at or past a start key, ascending, for
    /// seeking into the middle of the map.
    pub fn iter_from(&self, snap: &Snapshot, from: &Vec<u8>) -> (r: Vec<(Vec<u8>, Vec<u8>)>)
        requires
            snap.wf(),
            self.wf(),
        ensures
            forall|i: int|
                0 <= i < r@.len() ==> map_index_view(snap@, self.name@).contains_key(
                    #[trigger] r@[i].0@,
                ) && r@[i].1@ == map_index_view(snap@, self.name@)[r@[i].0@] && lex_le(
                    from@,
                    r@[i].0@,
                ),
            forall|k: Seq<u8>|
                map_index_view(snap@, self.name@).contains_key(k) && lex_le(from@, k)
                    ==> exists|i: int| 0 <= i < r@.len() && #[trigger] r@[i].0@ == k,
            forall|i: int, j: int| 0 <= i < j < r@.len() ==> lex_lt(r@[i].0@, r@[j].0@),
    {
        index_entries_from(snap, &self.name, Some(from))
    }
}

impl crate::index::KeySetIndex {
    /// Every member key, ascending in byte order, each once.
    pub fn iter(&self, snap: &Snapshot) -> (r: Vec<Vec<u8>>)
        requires
            snap.wf(),
            self.wf(),
        ensures
            forall|i: int|
                0 <= i < r@.len() ==> map_index_view(snap@, self.name@).contains_key(
                    #[trigger] r@[i]@,
                ),
            forall|k: Seq<u8>|
                map_index_view(snap@, self.name@).contains_key(k) ==> exists|i: int|
                    0 <= i < r@.len() && #[trigger] r@[i]@ == k,
            forall|i: int, j: int| 0 <= i < j < r@.len() ==> lex_lt(r@[i]@, r@[j]@),
    {
        let entries = index_entries_from(snap, &self.name, None);
        let mut r: Vec<Vec<u8>> = Vec::new();
        let n = entries.len();
        let mut i: usize = 0;
        while i < n
            invariant
                n == entries@.len(),
                0 <= i <= n,
                r@.len() == i,
                forall|j: int| 0 <= j < i ==> #[trigger] r@[j]@ == entries@[j].0@,
            decreases n - i,
        {
            r.push(copy_bytes(&entries[i].0));
            i = i + 1;
        }
        proof {
            assert forall|k: Seq<u8>|
                map_index_view(snap@, self.name@).contains_key(k) implies exists|i: int|
                0 <= i < r@.len() && #[trigger] r@[i]@ == k by {
                let i = choose|i: int| 0 <= i < entries@.len() && #[trigger] entries@[i].0@ == k;
                assert(r@[i]@ == k);
            }
        }
        r
    }
}

} // verus!
