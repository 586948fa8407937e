use vstd::prelude::*;
use vstd::arithmetic::power2::*;
use crate::crypto::{sha256, sha256_of};

verus! {

/// Width in bytes of every digest in the system.
pub const HASH_SIZE: usize = 32;

/// A fixed-size binary digest: content identity for blocks, transactions,
/// proposes and precommits. Equality is byte equality.
pub struct Hash {
    pub bytes: Vec<u8>,
}

impl View for Hash {
    type V = Seq<u8>;

    open spec fn view(&self) -> Seq<u8> {
        self.bytes@
    }
}

/// A well-formed digest holds exactly `HASH_SIZE` bytes.
pub open spec fn hash_wf(h: Hash) -> bool {
    h@.len() == HASH_SIZE
}

/// The all-zero digest: the commitment of the empty hash list.
pub open spec fn zero_hash_spec() -> Seq<u8> {
    Seq::new(HASH_SIZE as nat, |i: int| 0u8)
}

/// Copy a byte vector.
pub fn copy_bytes(v: &Vec<u8>) -> (r: Vec<u8>)
    ensures
        r@ == v@,
{
    let mut r: Vec<u8> = Vec::new();
    let n = v.len();
    let mut i: usize = 0;
    while i < n
        invariant
            n == v@.len(),
            0 <= i <= n,
            r@ == v@.subrange(0, i as int),
        decreases n - i,
    {
        r.push(v[i]);
        proof {
            assert(r@ =~= v@.subrange(0, i + 1));
        }
        i = i + 1;
    }
    proof {
        assert(r@ =~= v@);
    }
    r
}

impl Hash {
    /// Build a digest from its bytes.
    pub fn from_bytes(bytes: Vec<u8>) -> (r: Hash)
        ensures
            r@ == bytes@,
    {
        Hash { bytes }
    }

    /// The all-zero digest.
    pub fn zero() -> (r: Hash)
        ensures
            r@ == zero_hash_spec(),
            hash_wf(r),
    {
        let mut bytes: Vec<u8> = Vec::new();
        let mut i: usize = 0;
        while i < HASH_SIZE
            invariant
                0 <= i <= HASH_SIZE,
                bytes@.len() == i,
                forall|j: int| 0 <= j < i ==> bytes@[j] == 0u8,
            decreases HASH_SIZE - i,
        {
            bytes.push(0u8);
            i = i + 1;
        }
        proof {
            assert(bytes@ =~= zero_hash_spec());
        }
        Hash { bytes }
    }

    /// An independent copy of this digest.
    pub fn duplicate(&self) -> (r: Hash)
        ensures
            r@ == self@,
    {
        Hash { bytes: copy_bytes(&self.bytes) }
    }
}

/// The least power of two that is at least `n` (and 1 for `n <= 1`).
pub open spec fn next_pow2(n: nat) -> nat
    decreases n,
{
    if n <= 1 {
        1
    } else {
        2 * next_pow2(((n + 1) / 2) as nat)
    }
}

/// Whether `q` is a power of two.
pub open spec fn is_pow2(q: nat) -> bool {
    exists|k: nat| q == pow2(k)
}

/// `next_pow2` yields a power of two between `n` and `2 n - 1`, and an even
/// one as soon as `n > 1`.
pub proof fn lemma_next_pow2_bounds(n: nat)
    requires
        n >= 1,
    ensures
        n <= next_pow2(n) < 2 * n,
        is_pow2(next_pow2(n)),
        n >= 2 ==> next_pow2(n) % 2 == 0,
    decreases n,
{
    if n <= 1 {
        assert(next_pow2(n) == 1);
        assert(pow2(0) == 1) by {
            lemma2_to64();
        }
        assert(is_pow2(1));
    } else {
        let m = ((n + 1) / 2) as nat;
        lemma_next_pow2_bounds(m);
        let p = next_pow2(m);
        let k = choose|k: nat| p == pow2(k);
        assert(2 * p == pow2(k + 1)) by {
            lemma_pow2_unfold(k + 1);
        }
        assert(is_pow2(next_pow2(n)));
        // lower bound: 2 * p >= 2 * m >= n
        assert(2 * m >= n);
        // upper bound: p < 2 * m; if n is even, 2 * m == n so 2 * p < 2 * n.
        // If n is odd, 2 * m == n + 1, so 2 * p < 2 * n + 2; since p <= n and
        // p is even (or p == 1), p <= n - 1, hence 2 * p <= 2 * n - 2.
        if n % 2 == 0 {
            assert(2 * m == n);
        } else {
            assert(2 * m == n + 1);
            assert(p < n + 1);
            if m >= 2 {
                assert(p % 2 == 0);
                assert(p != n);
            } else {
                assert(m == 1 && p == 1);
            }
            assert(p <= n);
            assert(p != n);
        }
    }
}

/// Two powers of two in the window `[n, 2 n)` coincide, so the window pins
/// `next_pow2(n)` down.
pub proof fn lemma_next_pow2_unique(n: nat, q: nat)
    requires
        n >= 1,
        is_pow2(q),
        n <= q < 2 * n,
    ensures
        q == next_pow2(n),
{
    lemma_next_pow2_bounds(n);
    let p = next_pow2(n);
    let i = choose|i: nat| q == pow2(i);
    let j = choose|j: nat| p == pow2(j);
    if i < j {
        lemma_pow2_strictly_increases(i, j);
        assert(pow2(i + 1) <= pow2(j)) by {
            if i + 1 < j {
                lemma_pow2_strictly_increases(i + 1, j);
            }
        }
        assert(pow2(i + 1) == 2 * pow2(i)) by {
            lemma_pow2_unfold(i + 1);
        }
        assert(p >= 2 * q);
        assert(false);
    } else if j < i {
        lemma_pow2_strictly_increases(j, i);
        assert(pow2(j + 1) <= pow2(i)) by {
            if j + 1 < i {
                lemma_pow2_strictly_increases(j + 1, i);
            }
        }
        assert(pow2(j + 1) == 2 * pow2(j)) by {
            lemma_pow2_unfold(j + 1);
        }
        assert(q >= 2 * p);
        assert(false);
    }
}

/// The split point of the Merkle recursion for a list of length `n`.
pub open spec fn merkle_split(n: nat) -> nat {
    next_pow2(n) / 2
}

/// The split point lies strictly inside the list, so both halves are shorter.
pub proof fn lemma_merkle_split_bounds(n: nat)
    requires
        n >= 2,
    ensures
        1 <= merkle_split(n) < n,
{
    lemma_next_pow2_bounds(n);
}

/// The Merkle commitment of an ordered list of digests: the empty list maps to
/// the all-zero digest, a single digest to itself, and a longer list to the
/// SHA-256 of the two recursive commitments, split so that the left part has
/// `next_pow2(n) / 2` elements.
pub open spec fn merkle_hash_spec(s: Seq<Seq<u8>>) -> Seq<u8>
    decreases s.len(),
{
    if s.len() == 0 {
        zero_hash_spec()
    } else if s.len() == 1 {
        s[0]
    } else {
        let sp = merkle_split(s.len() as nat) as int;
        if 1 <= sp < s.len() {
            sha256_of(
                merkle_hash_spec(s.subrange(0, sp)) + merkle_hash_spec(
                    s.subrange(sp, s.len() as int),
                ),
            )
        } else {
            zero_hash_spec()
        }
    }
}

/// The views of a list of digests.
pub open spec fn views_of(s: Seq<Hash>) -> Seq<Seq<u8>> {
    s.map_values(|h: Hash| h@)
}

/// Largest power of two strictly below `n`, which equals `next_pow2(n) / 2`.
fn split_point(n: usize) -> (r: usize)
    requires
        n >= 2,
    ensures
        r == merkle_split(n as nat),
        1 <= r < n,
{
    let mut q: usize = 1;
    proof {
        lemma2_to64();
        assert(1nat == pow2(0));
    }
    while q < n - q
        invariant
            n >= 2,
            1 <= q < n,
            is_pow2(q as nat),
        decreases n - q,
    {
        proof {
            let k = choose|k: nat| q as nat == pow2(k);
            assert(2 * pow2(k) == pow2(k + 1)) by {
                lemma_pow2_unfold(k + 1);
            }
        }
        q = q * 2;
    }
    proof {
        let k = choose|k: nat| q as nat == pow2(k);
        assert(2 * pow2(k) == pow2(k + 1)) by {
            lemma_pow2_unfold(k + 1);
        }
        assert(is_pow2(2 * q as nat));
        lemma_next_pow2_unique(n as nat, 2 * q as nat);
        assert(2 * q as nat == next_pow2(n as nat));
    }
    q
}

fn merkle_range(hashes: &Vec<Hash>, lo: usize, hi: usize) -> (r: Hash)
    requires
        lo <= hi <= hashes@.len(),
        forall|i: int| 0 <= i < hashes@.len() ==> hash_wf(#[trigger] hashes@[i]),
    ensures
        r@ == merkle_hash_spec(views_of(hashes@.subrange(lo as int, hi as int))),
        hash_wf(r),
    decreases hi - lo,
{
    let ghost full = views_of(hashes@.subrange(lo as int, hi as int));
    if hi - lo == 0 {
        Hash::zero()
    } else if hi - lo == 1 {
        let r = hashes[lo].duplicate();
        proof {
            assert(full[0] == hashes@[lo as int]@);
        }
        r
    } else {
        let n = hi - lo;
        let sp = split_point(n);
        let left = merkle_range(hashes, lo, lo + sp);
        let right = merkle_range(hashes, lo + sp, hi);
        proof {
            lemma_merkle_split_bounds(n as nat);
            assert(views_of(hashes@.subrange(lo as int, lo + sp as int)) =~= full.subrange(
                0,
                sp as int,
            ));
            assert(views_of(hashes@.subrange(lo + sp as int, hi as int)) =~= full.subrange(
                sp as int,
                full.len() as int,
            ));
        }
        let mut buf = left.bytes;
        let mut rb = right.bytes;
        buf.append(&mut rb);
        let digest = sha256(&buf);
        Hash { bytes: digest }
    }
}

/// The Merkle commitment over an ordered hash list: empty input yields the
/// all-zero digest, a single element is returned unchanged, and a longer list
/// hashes the concatenation of the commitments of its two parts, the left part
/// `next_pow2(n) / 2` elements wide.
pub fn merkle_hash(hashes: &Vec<Hash>) -> (r: Hash)
    requires
        forall|i: int| 0 <= i < hashes@.len() ==> hash_wf(#[trigger] hashes@[i]),
    ensures
        r@ == merkle_hash_spec(views_of(hashes@)),
        hash_wf(r),
{
    let r = merkle_range(hashes, 0, hashes.len());
    proof {
        assert(hashes@.subrange(0, hashes@.len() as int) =~= hashes@);
    }
    r
}

/// Law: the Merkle commitment is deterministic — it is a function of the hash
/// sequence alone, the empty sequence commits to the all-zero digest, and a
/// one-element sequence commits to its element.
pub proof fn lemma_merkle_deterministic(s: Seq<Seq<u8>>, t: Seq<Seq<u8>>)
    requires
        s == t,
    ensures
        merkle_hash_spec(s) == merkle_hash_spec(t),
        merkle_hash_spec(Seq::<Seq<u8>>::empty()) == zero_hash_spec(),
        s.len() == 1 ==> merkle_hash_spec(s) == s[0],
{
}

/// Law: for a list of three digests the left partition holds
/// `next_pow2(3) / 2 == 2` elements, so the commitment is the hash of the
/// two-leaf left commitment followed by the third digest.
pub proof fn lemma_merkle_three(a: Seq<u8>, b: Seq<u8>, c: Seq<u8>)
    ensures
        merkle_hash_spec(seq![a, b, c]) == sha256_of(sha256_of(a + b) + c),
{
    let s = seq![a, b, c];
    assert(next_pow2(1) == 1);
    assert(next_pow2(2) == 2 * next_pow2(1));
    assert(next_pow2(3) == 2 * next_pow2(2));
    assert(merkle_split(3) == 2);
    let l = s.subrange(0, 2);
    let r = s.subrange(2, 3);
    assert(l =~= seq![a, b]);
    assert(r =~= seq![c]);
    assert(next_pow2(2) == 2);
    assert(merkle_split(2) == 1);
    assert(l.subrange(0, 1) =~= seq![a]);
    assert(l.subrange(1, 2) =~= seq![b]);
    assert(merkle_hash_spec(seq![a]) == a);
    assert(merkle_hash_spec(seq![b]) == b);
    assert(merkle_hash_spec(l) == sha256_of(a + b));
    assert(merkle_hash_spec(r) == c);
    assert(merkle_hash_spec(s) == sha256_of(sha256_of(a + b) + c));
}

} // verus!
