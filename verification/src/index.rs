use vstd::prelude::*;
use crate::merkle::copy_bytes;
use crate::store::{Fork, StoreRead};
use crate::crypto::{sha256, sha256_of};

verus! {

/// Big-endian bytes of a 64-bit integer, most significant byte first.
pub open spec fn be64(x: u64) -> Seq<u8> {
    seq![
        ((x >> 56) & 0xff) as u8,
        ((x >> 48) & 0xff) as u8,
        ((x >> 40) & 0xff) as u8,
        ((x >> 32) & 0xff) as u8,
        ((x >> 24) & 0xff) as u8,
        ((x >> 16) & 0xff) as u8,
        ((x >> 8) & 0xff) as u8,
        (x & 0xff) as u8,
    ]
}

/// The integer eight big-endian bytes denote.
pub open spec fn from_be64(s: Seq<u8>) -> u64
    recommends
        s.len() == 8,
{
    (((s[0] as u64) << 56) | ((s[1] as u64) << 48) | ((s[2] as u64) << 40) | ((s[3] as u64) << 32)
        | ((s[4] as u64) << 24) | ((s[5] as u64) << 16) | ((s[6] as u64) << 8) | (s[7] as u64))
}

/// Decoding the encoding of an integer gives it back; so the encoding is
/// injective and list positions get distinct keys.
pub proof fn lemma_be64_roundtrip(x: u64)
    ensures
        from_be64(be64(x)) == x,
{
    assert(((((x >> 56) & 0xff) as u8) as u64) << 56 | ((((x >> 48) & 0xff) as u8) as u64) << 48
        | ((((x >> 40) & 0xff) as u8) as u64) << 40 | ((((x >> 32) & 0xff) as u8) as u64) << 32 | ((((
    x >> 24) & 0xff) as u8) as u64) << 24 | ((((x >> 16) & 0xff) as u8) as u64) << 16 | ((((x >> 8)
        & 0xff) as u8) as u64) << 8 | (((x & 0xff) as u8) as u64) == x) by (bit_vector);
}

/// Encode an integer as its eight big-endian bytes.
pub fn u64_to_be(x: u64) -> (r: Vec<u8>)
    ensures
        r@ == be64(x),
{
    proof {
        assert((x >> 56) & 0xff <= 0xff && (x >> 48) & 0xff <= 0xff && (x >> 40) & 0xff <= 0xff && (
        x >> 32) & 0xff <= 0xff && (x >> 24) & 0xff <= 0xff && (x >> 16) & 0xff <= 0xff && (x >> 8)
            & 0xff <= 0xff && x & 0xff <= 0xff) by (bit_vector);
    }
    let mut r: Vec<u8> = Vec::new();
    r.push(((x >> 56) & 0xff) as u8);
    r.push(((x >> 48) & 0xff) as u8);
    r.push(((x >> 40) & 0xff) as u8);
    r.push(((x >> 32) & 0xff) as u8);
    r.push(((x >> 24) & 0xff) as u8);
    r.push(((x >> 16) & 0xff) as u8);
    r.push(((x >> 8) & 0xff) as u8);
    r.push((x & 0xff) as u8);
    proof {
        assert(r@ =~= be64(x));
    }
    r
}

/// Decode eight big-endian bytes.
pub fn u64_from_be(v: &Vec<u8>) -> (r: u64)
    requires
        v@.len() == 8,
    ensures
        r == from_be64(v@),
{
    ((v[0] as u64) << 56) | ((v[1] as u64) << 48) | ((v[2] as u64) << 40) | ((v[3] as u64) << 32)
        | ((v[4] as u64) << 24) | ((v[5] as u64) << 16) | ((v[6] as u64) << 8) | (v[7] as u64)
}

/// The full store key of an index entry: the index name, length-prefixed, then
/// the entry's own key bytes. Names are at most 255 bytes long.
pub open spec fn index_key_spec(name: Seq<u8>, raw: Seq<u8>) -> Seq<u8>
    recommends
        name.len() <= 255,
{
    seq![name.len() as u8] + name + raw
}

/// Namespace discipline: full keys collide only when both the index name and
/// the entry key coincide, so two indexes with different names never observe
/// each other's keys.
pub proof fn lemma_index_key_injective(n1: Seq<u8>, r1: Seq<u8>, n2: Seq<u8>, r2: Seq<u8>)
    requires
        n1.len() <= 255,
        n2.len() <= 255,
        index_key_spec(n1, r1) == index_key_spec(n2, r2),
    ensures
        n1 == n2,
        r1 == r2,
{
    let k1 = index_key_spec(n1, r1);
    let k2 = index_key_spec(n2, r2);
    assert(k1[0] == n1.len() as u8);
    assert(k2[0] == n2.len() as u8);
    assert(n1.len() == n2.len());
    let ln = n1.len() as int;
    assert forall|i: int| 0 <= i < ln implies n1[i] == n2[i] by {
        assert(k1[1 + i] == n1[i]);
        assert(k2[1 + i] == n2[i]);
    }
    assert(n1 =~= n2);
    assert(k1.len() == 1 + ln + r1.len());
    assert(k2.len() == 1 + ln + r2.len());
    assert forall|i: int| 0 <= i < r1.len() implies r1[i] == r2[i] by {
        assert(k1[1 + ln + i] == r1[i]);
        assert(k2[1 + ln + i] == r2[i]);
    }
    assert(r1 =~= r2);
}

/// Build the full store key of an index entry.
pub fn index_key(name: &Vec<u8>, raw: &Vec<u8>) -> (r: Vec<u8>)
    requires
        name@.len() <= 255,
    ensures
        r@ == index_key_spec(name@, raw@),
{
    let mut r: Vec<u8> = Vec::new();
    r.push(name.len() as u8);
    let mut n = copy_bytes(name);
    let mut w = copy_bytes(raw);
    r.append(&mut n);
    r.append(&mut w);
    proof {
        assert(r@ =~= index_key_spec(name@, raw@));
    }
    r
}

/// Read the entry of an index, by its raw key, from any store view.
pub fn raw_get<'a, R: StoreRead>(view: &'a R, name: &Vec<u8>, raw: &Vec<u8>) -> (r: Option<
    &'a Vec<u8>,
>)
    requires
        view.store_wf(),
        name@.len() <= 255,
    ensures
        match r {
            Some(v) => view.store_view().contains_key(index_key_spec(name@, raw@)) && v@
                == view.store_view()[index_key_spec(name@, raw@)],
            None => !view.store_view().contains_key(index_key_spec(name@, raw@)),
        },
{
    let k = index_key(name, raw);
    view.store_get(&k)
}

/// Write an entry of an index into a fork.
pub fn raw_put(fork: &mut Fork, name: &Vec<u8>, raw: &Vec<u8>, v: Vec<u8>)
    requires
        old(fork).wf(),
        name@.len() <= 255,
    ensures
        final(fork).wf(),
        final(fork)@ == old(fork)@.insert(index_key_spec(name@, raw@), v@),
        final(fork).base == old(fork).base,
{
    let k = index_key(name, raw);
    fork.put(k, v);
}

/// Drop an entry of an index from a fork.
pub fn raw_remove(fork: &mut Fork, name: &Vec<u8>, raw: &Vec<u8>)
    requires
        old(fork).wf(),
        name@.len() <= 255,
    ensures
        final(fork).wf(),
        final(fork)@ == old(fork)@.remove(index_key_spec(name@, raw@)),
        final(fork).base == old(fork).base,
{
    let k = index_key(name, raw);
    fork.delete(k);
}

/// The mapping a named map index denotes over a store view.
pub open spec fn map_index_view(m: Map<Seq<u8>, Seq<u8>>, name: Seq<u8>) -> Map<Seq<u8>, Seq<u8>> {
    Map::new(
        |k: Seq<u8>| m.contains_key(index_key_spec(name, k)),
        |k: Seq<u8>| m[index_key_spec(name, k)],
    )
}

/// Law: an index observes only its own keys — a write under one name leaves the
/// mapping of every differently named index exactly as it was.
pub proof fn lemma_index_isolation(
    m: Map<Seq<u8>, Seq<u8>>,
    n1: Seq<u8>,
    n2: Seq<u8>,
    raw: Seq<u8>,
    v: Seq<u8>,
)
    requires
        n1.len() <= 255,
        n2.len() <= 255,
        n1 != n2,
    ensures
        map_index_view(m.insert(index_key_spec(n2, raw), v), n1) == map_index_view(m, n1),
        map_index_view(m.remove(index_key_spec(n2, raw)), n1) == map_index_view(m, n1),
{
    assert forall|k: Seq<u8>| #[trigger] index_key_spec(n1, k) != index_key_spec(n2, raw) by {
        if index_key_spec(n1, k) == index_key_spec(n2, raw) {
            lemma_index_key_injective(n1, k, n2, raw);
        }
    }
    assert(map_index_view(m.insert(index_key_spec(n2, raw), v), n1) =~= map_index_view(m, n1));
    assert(map_index_view(m.remove(index_key_spec(n2, raw)), n1) =~= map_index_view(m, n1));
}

/// A key-to-value table under a name of its own within the shared key space.
pub struct MapIndex {
    pub name: Vec<u8>,
}

impl MapIndex {
    /// The name fits the length prefix.
    pub open spec fn wf(&self) -> bool {
        self.name@.len() <= 255
    }

    /// A map index under the given name.
    pub fn new(name: Vec<u8>) -> (r: MapIndex)
        requires
            name@.len() <= 255,
        ensures
            r.wf(),
            r.name@ == name@,
    {
        MapIndex { name }
    }

    /// Look a key up.
    pub fn get<'a, R: StoreRead>(&self, view: &'a R, key: &Vec<u8>) -> (r: Option<&'a Vec<u8>>)
        requires
            view.store_wf(),
            self.wf(),
        ensures
            match r {
                Some(v) => map_index_view(view.store_view(), self.name@).contains_key(key@) && v@
                    == map_index_view(view.store_view(), self.name@)[key@],
                None => !map_index_view(view.store_view(), self.name@).contains_key(key@),
            },
    {
        raw_get(view, &self.name, key)
    }

    /// Whether a key is bound.
    pub fn contains<R: StoreRead>(&self, view: &R, key: &Vec<u8>) -> (r: bool)
        requires
            view.store_wf(),
            self.wf(),
        ensures
            r == map_index_view(view.store_view(), self.name@).contains_key(key@),
    {
        self.get(view, key).is_some()
    }

    /// Bind a key to a value.
    pub fn put(&self, fork: &mut Fork, key: &Vec<u8>, value: Vec<u8>)
        requires
            old(fork).wf(),
            self.wf(),
        ensures
            final(fork).wf(),
            final(fork)@ == old(fork)@.insert(index_key_spec(self.name@, key@), value@),
            map_index_view(final(fork)@, self.name@) == map_index_view(
                old(fork)@,
                self.name@,
            ).insert(key@, value@),
            final(fork).base == old(fork).base,
    {
        raw_put(fork, &self.name, key, value);
        proof {
            assert forall|k: Seq<u8>|
                #[trigger] index_key_spec(self.name@, k) == index_key_spec(self.name@, key@)
                implies k == key@ by {
                lemma_index_key_injective(self.name@, k, self.name@, key@);
            }
            assert(map_index_view(final(fork)@, self.name@) =~= map_index_view(
                old(fork)@,
                self.name@,
            ).insert(key@, value@));
        }
    }

    /// Drop any binding of a key.
    pub fn remove(&self, fork: &mut Fork, key: &Vec<u8>)
        requires
            old(fork).wf(),
            self.wf(),
        ensures
            final(fork).wf(),
            final(fork)@ == old(fork)@.remove(index_key_spec(self.name@, key@)),
            map_index_view(final(fork)@, self.name@) == map_index_view(
                old(fork)@,
                self.name@,
            ).remove(key@),
            final(fork).base == old(fork).base,
    {
        raw_remove(fork, &self.name, key);
        proof {
            assert forall|k: Seq<u8>|
                #[trigger] index_key_spec(self.name@, k) == index_key_spec(self.name@, key@)
                implies k == key@ by {
                lemma_index_key_injective(self.name@, k, self.name@, key@);
            }
            assert(map_index_view(final(fork)@, self.name@) =~= map_index_view(
                old(fork)@,
                self.name@,
            ).remove(key@));
        }
    }
}


/// The store key of a single-slot entry index.
pub open spec fn entry_key(name: Seq<u8>) -> Seq<u8> {
    index_key_spec(name, Seq::empty())
}

/// A single optional value under a name of its own.
pub struct Entry {
    pub name: Vec<u8>,
}

impl Entry {
    /// The name fits the length prefix.
    pub open spec fn wf(&self) -> bool {
        self.name@.len() <= 255
    }

    /// An entry index under the given name.
    pub fn new(name: Vec<u8>) -> (r: Entry)
        requires
            name@.len() <= 255,
        ensures
            r.wf(),
            r.name@ == name@,
    {
        Entry { name }
    }

    /// The value of the slot, if it is set.
    pub fn get<'a, R: StoreRead>(&self, view: &'a R) -> (r: Option<&'a Vec<u8>>)
        requires
            view.store_wf(),
            self.wf(),
        ensures
            match r {
                Some(v) => view.store_view().contains_key(entry_key(self.name@)) && v@
                    == view.store_view()[entry_key(self.name@)],
                None => !view.store_view().contains_key(entry_key(self.name@)),
            },
    {
        let empty: Vec<u8> = Vec::new();
        let r = raw_get(view, &self.name, &empty);
        proof {
            assert(index_key_spec(self.name@, empty@) == entry_key(self.name@));
        }
        r
    }

    /// Whether the slot is set.
    pub fn is_set<R: StoreRead>(&self, view: &R) -> (r: bool)
        requires
            view.store_wf(),
            self.wf(),
        ensures
            r == view.store_view().contains_key(entry_key(self.name@)),
    {
        self.get(view).is_some()
    }

    /// Set the slot.
    pub fn set(&self, fork: &mut Fork, value: Vec<u8>)
        requires
            old(fork).wf(),
            self.wf(),
        ensures
            final(fork).wf(),
            final(fork)@ == old(fork)@.insert(entry_key(self.name@), value@),
            final(fork).base == old(fork).base,
    {
        let empty: Vec<u8> = Vec::new();
        raw_put(fork, &self.name, &empty, value);
    }

    /// Clear the slot.
    pub fn remove(&self, fork: &mut Fork)
        requires
            old(fork).wf(),
            self.wf(),
        ensures
            final(fork).wf(),
            final(fork)@ == old(fork)@.remove(entry_key(self.name@)),
            final(fork).base == old(fork).base,
    {
        let empty: Vec<u8> = Vec::new();
        raw_remove(fork, &self.name, &empty);
    }
}

/// The store key holding a list's length.
pub open spec fn list_len_key(name: Seq<u8>) -> Seq<u8> {
    index_key_spec(name, seq![0u8])
}

/// The store key holding a list's element at a position.
pub open spec fn list_elem_key(name: Seq<u8>, i: u64) -> Seq<u8> {
    index_key_spec(name, seq![1u8] + be64(i))
}

/// The length a named list records in a store view; an absent or malformed
/// length entry counts as the empty list.
pub open spec fn list_len_of(m: Map<Seq<u8>, Seq<u8>>, name: Seq<u8>) -> u64 {
    if m.contains_key(list_len_key(name)) && m[list_len_key(name)].len() == 8 {
        from_be64(m[list_len_key(name)])
    } else {
        0
    }
}

/// A well-formed list stores every element below its recorded length.
pub open spec fn list_wf(m: Map<Seq<u8>, Seq<u8>>, name: Seq<u8>) -> bool {
    forall|i: u64| i < list_len_of(m, name) ==> m.contains_key(#[trigger] list_elem_key(name, i))
}

/// The dense, 0-based sequence of values a named list denotes.
pub open spec fn list_view_of(m: Map<Seq<u8>, Seq<u8>>, name: Seq<u8>) -> Seq<Seq<u8>> {
    Seq::new(list_len_of(m, name) as nat, |i: int| m[list_elem_key(name, i as u64)])
}

/// Element keys of one list are distinct from each other and from its length key.
pub proof fn lemma_list_keys_distinct(name: Seq<u8>, i: u64, j: u64)
    requires
        name.len() <= 255,
    ensures
        i != j ==> list_elem_key(name, i) != list_elem_key(name, j),
        list_elem_key(name, i) != list_len_key(name),
{
    if list_elem_key(name, i) == list_elem_key(name, j) {
        lemma_index_key_injective(name, seq![1u8] + be64(i), name, seq![1u8] + be64(j));
        assert forall|t: int| 0 <= t < 8 implies be64(i)[t] == be64(j)[t] by {
            assert((seq![1u8] + be64(i))[1 + t] == be64(i)[t]);
            assert((seq![1u8] + be64(j))[1 + t] == be64(j)[t]);
        }
        assert(be64(i) =~= be64(j));
        lemma_be64_roundtrip(i);
        lemma_be64_roundtrip(j);
        assert(i == j);
    }
    if list_elem_key(name, i) == list_len_key(name) {
        lemma_index_key_injective(name, seq![1u8] + be64(i), name, seq![0u8]);
        assert((seq![1u8] + be64(i)).len() == 9);
        assert(false);
    }
}

/// An append-only, densely indexed sequence under a name of its own.
pub struct ListIndex {
    pub name: Vec<u8>,
}

impl ListIndex {
    /// The name fits the length prefix.
    pub open spec fn wf(&self) -> bool {
        self.name@.len() <= 255
    }

    /// A list index under the given name.
    pub fn new(name: Vec<u8>) -> (r: ListIndex)
        requires
            name@.len() <= 255,
        ensures
            r.wf(),
            r.name@ == name@,
    {
        ListIndex { name }
    }

    fn len_raw(&self) -> (r: Vec<u8>)
        ensures
            r@ == seq![0u8],
    {
        let mut r: Vec<u8> = Vec::new();
        r.push(0u8);
        proof {
            assert(r@ =~= seq![0u8]);
        }
        r
    }

    fn elem_raw(&self, i: u64) -> (r: Vec<u8>)
        ensures
            r@ == seq![1u8] + be64(i),
    {
        let mut r: Vec<u8> = Vec::new();
        r.push(1u8);
        let mut e = u64_to_be(i);
        r.append(&mut e);
        proof {
            assert(r@ =~= seq![1u8] + be64(i));
        }
        r
    }

    /// The number of elements of the list.
    pub fn len<R: StoreRead>(&self, view: &R) -> (r: u64)
        requires
            view.store_wf(),
            self.wf(),
        ensures
            r == list_len_of(view.store_view(), self.name@),
    {
        let raw = self.len_raw();
        match raw_get(view, &self.name, &raw) {
            Some(v) => {
                if v.len() == 8 {
                    u64_from_be(v)
                } else {
                    0
                }
            },
            None => 0,
        }
    }

    /// The element at a position, when it is stored; a well-formed list stores
    /// every position below its length.
    pub fn get<'a, R: StoreRead>(&self, view: &'a R, i: u64) -> (r: Option<&'a Vec<u8>>)
        requires
            view.store_wf(),
            self.wf(),
        ensures
            match r {
                Some(v) => view.store_view().contains_key(list_elem_key(self.name@, i)) && v@
                    == view.store_view()[list_elem_key(self.name@, i)],
                None => !view.store_view().contains_key(list_elem_key(self.name@, i)),
            },
            list_wf(view.store_view(), self.name@) && i < list_len_of(view.store_view(), self.name@)
                ==> r is Some,
            r is Some && i < list_len_of(view.store_view(), self.name@) ==> r->Some_0@
                == list_view_of(view.store_view(), self.name@)[i as int],
    {
        let raw = self.elem_raw(i);
        let r = raw_get(view, &self.name, &raw);
        proof {
            if list_wf(view.store_view(), self.name@) && i < list_len_of(
                view.store_view(),
                self.name@,
            ) {
                assert(view.store_view().contains_key(list_elem_key(self.name@, i)));
            }
        }
        r
    }

    /// Append a value: it lands at position `len`, and the length grows by one.
    /// Nothing else of the store moves.
    pub fn push(&self, fork: &mut Fork, value: Vec<u8>)
        requires
            old(fork).wf(),
            self.wf(),
            list_len_of(old(fork)@, self.name@) < u64::MAX,
        ensures
            final(fork).wf(),
            final(fork)@ == old(fork)@.insert(
                list_elem_key(self.name@, list_len_of(old(fork)@, self.name@)),
                value@,
            ).insert(list_len_key(self.name@), be64((list_len_of(old(fork)@, self.name@) + 1) as u64)),
            list_len_of(final(fork)@, self.name@) == list_len_of(old(fork)@, self.name@) + 1,
            list_wf(old(fork)@, self.name@) ==> list_wf(final(fork)@, self.name@),
            list_wf(old(fork)@, self.name@) ==> list_view_of(final(fork)@, self.name@)
                == list_view_of(old(fork)@, self.name@).push(value@),
            final(fork).base == old(fork).base,
    {
        let n = self.len(fork);
        let eraw = self.elem_raw(n);
        raw_put(fork, &self.name, &eraw, value);
        let lraw = self.len_raw();
        raw_put(fork, &self.name, &lraw, u64_to_be(n + 1));
        proof {
            let name = self.name@;
            let m0 = old(fork)@;
            let m2 = fork@;
            lemma_list_keys_distinct(name, n, n);
            lemma_be64_roundtrip((n + 1) as u64);
            assert(m2.contains_key(list_len_key(name)));
            assert(m2[list_len_key(name)] == be64((n + 1) as u64));
            assert(be64((n + 1) as u64).len() == 8);
            assert(list_len_of(m2, name) == n + 1);
            assert forall|i: u64| i < n + 1 implies #[trigger] list_elem_key(name, i)
                == list_elem_key(name, i) && (list_wf(m0, name) ==> m2.contains_key(
                list_elem_key(name, i),
            )) by {
                lemma_list_keys_distinct(name, i, n);
                if i < n {
                } else {
                }
            }
            if list_wf(m0, name) {
                assert(list_wf(m2, name));
                assert forall|i: int| 0 <= i < n + 1 implies list_view_of(m2, name)[i]
                    == list_view_of(m0, name).push(value@)[i] by {
                    lemma_list_keys_distinct(name, i as u64, n);
                }
                assert(list_view_of(m2, name) =~= list_view_of(m0, name).push(value@));
            }
        }
    }

    /// Cut the list to at most `new_len` elements, dropping the tail.
    pub fn truncate(&self, fork: &mut Fork, new_len: u64)
        requires
            old(fork).wf(),
            self.wf(),
            list_wf(old(fork)@, self.name@),
        ensures
            final(fork).wf(),
            list_wf(final(fork)@, self.name@),
            new_len <= list_len_of(old(fork)@, self.name@) ==> list_view_of(
                final(fork)@,
                self.name@,
            ) == list_view_of(old(fork)@, self.name@).subrange(0, new_len as int),
            new_len >= list_len_of(old(fork)@, self.name@) ==> list_view_of(
                final(fork)@,
                self.name@,
            ) == list_view_of(old(fork)@, self.name@),
            final(fork).base == old(fork).base,
    {
        let n = self.len(fork);
        if new_len >= n {
            return ;
        }
        let lraw = self.len_raw();
        raw_put(fork, &self.name, &lraw, u64_to_be(new_len));
        proof {
            let name = self.name@;
            let m0 = old(fork)@;
            let m1 = fork@;
            lemma_be64_roundtrip(new_len);
            assert forall|i: u64| i < new_len implies m1.contains_key(
                #[trigger] list_elem_key(name, i),
            ) by {
                lemma_list_keys_distinct(name, i, i);
                assert(m0.contains_key(list_elem_key(name, i)));
            }
            assert(list_wf(m1, name));
            assert forall|i: int| 0 <= i < new_len implies list_view_of(m1, name)[i]
                == list_view_of(m0, name).subrange(0, new_len as int)[i] by {
                lemma_list_keys_distinct(name, i as u64, i as u64);
            }
            assert(list_view_of(m1, name) =~= list_view_of(m0, name).subrange(0, new_len as int));
        }
        let mut i = new_len;
        while i < n
            invariant
                fork.wf(),
                self.wf(),
                new_len <= i <= n,
                list_len_of(fork@, self.name@) == new_len,
                list_wf(fork@, self.name@),
                list_view_of(fork@, self.name@) == list_view_of(old(fork)@, self.name@).subrange(
                    0,
                    new_len as int,
                ),
                fork.base == old(fork).base,
            decreases n - i,
        {
            let ghost mpre = fork@;
            let eraw = self.elem_raw(i);
            raw_remove(fork, &self.name, &eraw);
            proof {
                let name = self.name@;
                lemma_list_keys_distinct(name, i, i);
                assert(list_len_of(fork@, name) == new_len);
                assert forall|j: u64| j < new_len implies fork@.contains_key(
                    #[trigger] list_elem_key(name, j),
                ) by {
                    lemma_list_keys_distinct(name, j, i);
                }
                assert forall|j: int| 0 <= j < new_len implies list_view_of(fork@, name)[j]
                    == list_view_of(mpre, name)[j] by {
                    lemma_list_keys_distinct(name, j as u64, i);
                }
                assert(list_view_of(fork@, name) =~= list_view_of(mpre, name));
            }
            i = i + 1;
        }
    }
}

/// A set of keys under a name of its own; membership is presence of the key.
pub struct KeySetIndex {
    pub name: Vec<u8>,
}

impl KeySetIndex {
    /// The name fits the length prefix.
    pub open spec fn wf(&self) -> bool {
        self.name@.len() <= 255
    }

    /// A key-set index under the given name.
    pub fn new(name: Vec<u8>) -> (r: KeySetIndex)
        requires
            name@.len() <= 255,
        ensures
            r.wf(),
            r.name@ == name@,
    {
        KeySetIndex { name }
    }

    /// Whether a key is a member.
    pub fn contains<R: StoreRead>(&self, view: &R, key: &Vec<u8>) -> (r: bool)
        requires
            view.store_wf(),
            self.wf(),
        ensures
            r == map_index_view(view.store_view(), self.name@).contains_key(key@),
    {
        raw_get(view, &self.name, key).is_some()
    }

    /// Add a key.
    pub fn insert(&self, fork: &mut Fork, key: &Vec<u8>)
        requires
            old(fork).wf(),
            self.wf(),
        ensures
            final(fork).wf(),
            final(fork)@ == old(fork)@.insert(index_key_spec(self.name@, key@), Seq::empty()),
            map_index_view(final(fork)@, self.name@).contains_key(key@),
            final(fork).base == old(fork).base,
    {
        let empty: Vec<u8> = Vec::new();
        raw_put(fork, &self.name, key, empty);
    }

    /// Drop a key.
    pub fn remove(&self, fork: &mut Fork, key: &Vec<u8>)
        requires
            old(fork).wf(),
            self.wf(),
        ensures
            final(fork).wf(),
            final(fork)@ == old(fork)@.remove(index_key_spec(self.name@, key@)),
            !map_index_view(final(fork)@, self.name@).contains_key(key@),
            final(fork).base == old(fork).base,
    {
        raw_remove(fork, &self.name, key);
    }
}

/// A set keyed by the SHA-256 of each value, storing the value as payload;
/// membership of a candidate value is tested by recomputing its hash.
pub struct ValueSetIndex {
    pub name: Vec<u8>,
}

impl ValueSetIndex {
    /// The name fits the length prefix.
    pub open spec fn wf(&self) -> bool {
        self.name@.len() <= 255
    }

    /// A value-set index under the given name.
    pub fn new(name: Vec<u8>) -> (r: ValueSetIndex)
        requires
            name@.len() <= 255,
        ensures
            r.wf(),
            r.name@ == name@,
    {
        ValueSetIndex { name }
    }

    /// Add a value, keyed by its hash.
    pub fn insert(&self, fork: &mut Fork, value: Vec<u8>)
        requires
            old(fork).wf(),
            self.wf(),
        ensures
            final(fork).wf(),
            final(fork)@ == old(fork)@.insert(
                index_key_spec(self.name@, sha256_of(value@)),
                value@,
            ),
            map_index_view(final(fork)@, self.name@).contains_key(sha256_of(value@)),
            final(fork).base == old(fork).base,
    {
        let h = sha256(&value);
        raw_put(fork, &self.name, &h, value);
    }

    /// Whether a value is a member, by its recomputed hash.
    pub fn contains_value<R: StoreRead>(&self, view: &R, value: &Vec<u8>) -> (r: bool)
        requires
            view.store_wf(),
            self.wf(),
        ensures
            r == map_index_view(view.store_view(), self.name@).contains_key(sha256_of(value@)),
    {
        let h = sha256(value);
        raw_get(view, &self.name, &h).is_some()
    }

    /// Whether a hash keys a member.
    pub fn contains_hash<R: StoreRead>(&self, view: &R, hash: &Vec<u8>) -> (r: bool)
        requires
            view.store_wf(),
            self.wf(),
        ensures
            r == map_index_view(view.store_view(), self.name@).contains_key(hash@),
    {
        raw_get(view, &self.name, hash).is_some()
    }
}

} // verus!
