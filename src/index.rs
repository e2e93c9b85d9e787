//! A fixed-width table from every seed (a window of `part_size` codes) of a
//! sequence to the ascending offsets where it occurs.
use vstd::prelude::*;
use crate::encoding::{all_codes, is_code, BASE_OPTIONS};

verus! {

/// Five to the power `k`: the number of distinct seeds of length `k`.
pub open spec fn pow5(k: nat) -> nat
    decreases k,
{
    if k == 0 {
        1
    } else {
        5 * pow5((k - 1) as nat)
    }
}

/// The key of a seed: its codes read as a base-5 number, most significant first.
pub open spec fn key_of(s: Seq<u8>) -> nat
    decreases s.len(),
{
    if s.len() == 0 {
        0
    } else {
        key_of(s.drop_last()) * 5 + s.last() as nat
    }
}

/// The offsets `p < n`, ascending, whose seed of length `k` in `g` has key `h`.
pub open spec fn keyed_offsets(g: Seq<u8>, k: nat, h: nat, n: nat) -> Seq<u32>
    decreases n,
{
    if n == 0 {
        Seq::empty()
    } else {
        let prev = keyed_offsets(g, k, h, (n - 1) as nat);
        let p = n - 1;
        if key_of(g.subrange(p, p + k)) == h {
            prev.push(p as u32)
        } else {
            prev
        }
    }
}

/// The offsets `p < n`, ascending, at which the window `w` occurs in `g`.
pub open spec fn occurrences(g: Seq<u8>, w: Seq<u8>, n: nat) -> Seq<u32>
    decreases n,
{
    if n == 0 {
        Seq::empty()
    } else {
        let prev = occurrences(g, w, (n - 1) as nat);
        let p = n - 1;
        if g.subrange(p, p + w.len()) == w {
            prev.push(p as u32)
        } else {
            prev
        }
    }
}

pub proof fn lemma_pow5_grows(a: nat, b: nat)
    requires
        a <= b,
    ensures
        1 <= pow5(a) <= pow5(b),
    decreases b,
{
    if b > a {
        lemma_pow5_grows(a, (b - 1) as nat);
    } else if a > 0 {
        lemma_pow5_grows(0, (a - 1) as nat);
    }
}

/// A seed of codes has a key below `5^len`.
pub proof fn lemma_key_bound(s: Seq<u8>)
    requires
        all_codes(s),
    ensures
        key_of(s) < pow5(s.len()),
    decreases s.len(),
{
    if s.len() > 0 {
        let p = s.drop_last();
        assert(all_codes(p)) by {
            assert forall|i: int| 0 <= i < p.len() implies is_code(#[trigger] p[i]) by {
                assert(p[i] == s[i]);
            }
        }
        lemma_key_bound(p);
        assert(is_code(s[s.len() - 1]));
        let kp = key_of(p);
        let pp = pow5(p.len());
        let l = s.last() as nat;
        assert(kp * 5 + l < 5 * pp) by (nonlinear_arith)
            requires
                kp < pp,
                l < 5,
        ;
    }
}

/// Two seeds of codes of one length with one key are equal.
pub proof fn lemma_key_injective(a: Seq<u8>, b: Seq<u8>)
    requires
        all_codes(a),
        all_codes(b),
        a.len() == b.len(),
        key_of(a) == key_of(b),
    ensures
        a == b,
    decreases a.len(),
{
    if a.len() > 0 {
        let pa = a.drop_last();
        let pb = b.drop_last();
        assert(is_code(a[a.len() - 1]));
        assert(is_code(b[b.len() - 1]));
        let x = key_of(pa);
        let y = key_of(pb);
        let la = a.last() as nat;
        let lb = b.last() as nat;
        assert(x == y && la == lb) by (nonlinear_arith)
            requires
                x * 5 + la == y * 5 + lb,
                la < 5,
                lb < 5,
        ;
        assert(all_codes(pa)) by {
            assert forall|i: int| 0 <= i < pa.len() implies is_code(#[trigger] pa[i]) by {
                assert(pa[i] == a[i]);
            }
        }
        assert(all_codes(pb)) by {
            assert forall|i: int| 0 <= i < pb.len() implies is_code(#[trigger] pb[i]) by {
                assert(pb[i] == b[i]);
            }
        }
        lemma_key_injective(pa, pb);
        assert(a =~= pa.push(a.last()));
        assert(b =~= pb.push(b.last()));
    }
}

/// Seeds of a sequence of codes, bucketed by key, are its occurrence lists.
pub proof fn lemma_keyed_is_occurrences(g: Seq<u8>, w: Seq<u8>, n: nat)
    requires
        all_codes(g),
        all_codes(w),
        n + w.len() <= g.len() + 1,
    ensures
        keyed_offsets(g, w.len(), key_of(w), n) == occurrences(g, w, n),
    decreases n,
{
    if n > 0 {
        lemma_keyed_is_occurrences(g, w, (n - 1) as nat);
        let p = n - 1;
        let s = g.subrange(p, p + w.len());
        assert(all_codes(s)) by {
            assert forall|i: int| 0 <= i < s.len() implies is_code(#[trigger] s[i]) by {
                assert(s[i] == g[p + i]);
            }
        }
        if key_of(s) == key_of(w) {
            lemma_key_injective(s, w);
        }
    }
}

/// Seed index over one sequence: `index[key]` lists the offsets whose seed
/// of length `part_size` has that key.
pub struct GenomeIndex {
    pub index: Vec<Vec<u32>>,
    pub part_size: u32,
}

impl GenomeIndex {
    /// The table has one bucket for each possible seed.
    pub open spec fn wf(&self) -> bool {
        self.index@.len() == pow5(self.part_size as nat)
    }

    /// The offsets held under key `h`.
    pub open spec fn bucket(&self, h: nat) -> Seq<u32> {
        self.index@[h as int]@
    }

    /// This is the index of `g` for chunks of length `c`: each bucket holds the
    /// offsets in `[0, len(g) - c + 1)` whose seed has its key.
    pub open spec fn indexes(&self, g: Seq<u8>, c: nat) -> bool {
        &&& self.wf()
        &&& all_codes(g)
        &&& self.part_size <= c <= g.len()
        &&& forall|h: nat|
            h < pow5(self.part_size as nat) ==> #[trigger] self.bucket(h) == keyed_offsets(
                g,
                self.part_size as nat,
                h,
                (g.len() - c + 1) as nat,
            )
    }

    /// Builds the index of `genome` for seeds of length `part_size` and chunks
    /// of length `chunk_size`.
    pub fn new(genome: &[u8], part_size: u32, chunk_size: u32) -> (r: Self)
        requires
            all_codes(genome@),
            part_size <= chunk_size <= genome@.len() < u32::MAX,
            pow5(part_size as nat) <= usize::MAX,
        ensures
            r.part_size == part_size,
            r.indexes(genome@, chunk_size as nat),
    {
        let ghost g = genome@;
        let ghost k = part_size as nat;
        let mut index_size: usize = 1;
        let mut e: u32 = 0;
        while e < part_size
            invariant
                e <= part_size,
                index_size == pow5(e as nat),
                pow5(part_size as nat) <= usize::MAX,
            decreases part_size - e,
        {
            proof {
                lemma_pow5_grows((e + 1) as nat, part_size as nat);
            }
            index_size = index_size * BASE_OPTIONS;
            e += 1;
        }
        let mut index: Vec<Vec<u32>> = Vec::new();
        let mut j: usize = 0;
        while j < index_size
            invariant
                j <= index_size,
                index@.len() == j,
                forall|h: int| 0 <= h < j ==> (#[trigger] index@[h])@ == Seq::<u32>::empty(),
            decreases index_size - j,
        {
            index.push(Vec::new());
            j += 1;
        }
        let safe_end: u32 = (genome.len() as u32) - chunk_size + 1;
        let mut i: u32 = 0;
        while i < safe_end
            invariant
                g == genome@,
                k == part_size,
                all_codes(g),
                part_size <= chunk_size <= g.len() < u32::MAX,
                safe_end == g.len() - chunk_size + 1,
                i <= safe_end,
                index@.len() == pow5(k),
                pow5(k) <= usize::MAX,
                forall|h: nat|
                    h < pow5(k) ==> (#[trigger] index@[h as int])@ == keyed_offsets(g, k, h, i as nat),
            decreases safe_end - i,
        {
            let seed = vstd::slice::slice_subrange(genome, i as usize, (i + part_size) as usize);
            assert(all_codes(seed@)) by {
                assert forall|x: int| 0 <= x < seed@.len() implies is_code(#[trigger] seed@[x]) by {
                    assert(seed@[x] == g[i + x]);
                }
            }
            proof {
                lemma_key_bound(seed@);
            }
            let key = Self::hash(seed);
            index[key].push(i);
            assert forall|h: nat| h < pow5(k) implies (#[trigger] index@[h as int])@ == keyed_offsets(
                g,
                k,
                h,
                (i + 1) as nat,
            ) by {
                assert(g.subrange(i as int, i + k) == seed@);
            }
            i += 1;
        }
        GenomeIndex { index, part_size }
    }

    /// The key of a seed of codes.
    fn hash(key: &[u8]) -> (r: usize)
        requires
            all_codes(key@),
            pow5(key@.len()) <= usize::MAX,
        ensures
            r == key_of(key@),
    {
        let mut acc: usize = 0;
        let mut i: usize = 0;
        while i < key.len()
            invariant
                i <= key@.len(),
                all_codes(key@),
                pow5(key@.len()) <= usize::MAX,
                acc == key_of(key@.subrange(0, i as int)),
            decreases key@.len() - i,
        {
            let ghost pre = key@.subrange(0, i as int);
            proof {
                assert(key@.subrange(0, i + 1).drop_last() =~= pre);
                assert(all_codes(pre)) by {
                    assert forall|x: int| 0 <= x < pre.len() implies is_code(#[trigger] pre[x]) by {
                        assert(pre[x] == key@[x]);
                    }
                }
                lemma_key_bound(pre);
                lemma_pow5_grows((i + 1) as nat, key@.len());
                assert(is_code(key@[i as int]));
                let a = acc as nat;
                let p = pow5(i as nat);
                let b = key@[i as int] as nat;
                assert(a * 5 + b < 5 * p) by (nonlinear_arith)
                    requires
                        a < p,
                        b < 5,
                ;
            }
            acc = acc * BASE_OPTIONS + key[i] as usize;
            i += 1;
        }
        proof {
            assert(key@.subrange(0, key@.len() as int) =~= key@);
        }
        acc
    }

    /// The offsets at which the seed `key` occurs, or `None` when it occurs nowhere.
    pub fn get(&self, key: &[u8]) -> (r: Option<&Vec<u32>>)
        requires
            self.wf(),
            all_codes(key@),
            key@.len() == self.part_size,
        ensures
            r is Some <==> self.bucket(key_of(key@)).len() > 0,
            r is Some ==> r->Some_0@ == self.bucket(key_of(key@)),
    {
        let buckets = self.index.len();
        proof {
            lemma_key_bound(key@);
            assert(pow5(key@.len()) == buckets);
        }
        let h = Self::hash(key);
        let bucket = &self.index[h];
        if bucket.len() > 0 {
            Some(bucket)
        } else {
            None
        }
    }
}

/// A lookup in the index of `g` gives exactly the ascending offsets `i` in
/// `[0, len(g) - c + 1)` at which the window occurs, and no others.
pub proof fn lemma_lookup_exact(idx: &GenomeIndex, g: Seq<u8>, c: nat, w: Seq<u8>)
    requires
        idx.indexes(g, c),
        all_codes(w),
        w.len() == idx.part_size,
    ensures
        idx.bucket(key_of(w)) == occurrences(g, w, (g.len() - c + 1) as nat),
{
    lemma_key_bound(w);
    assert(idx.bucket(key_of(w)) == keyed_offsets(g, w.len(), key_of(w), (g.len() - c + 1) as nat));
    lemma_keyed_is_occurrences(g, w, (g.len() - c + 1) as nat);
}

} // verus!
