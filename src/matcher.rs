//! Pigeonhole seed-and-verify search for a query window in a target sequence,
//! within a budget of substitutions.
use vstd::prelude::*;
use crate::encoding::all_codes;
use crate::index::{key_of, lemma_lookup_exact, occurrences, GenomeIndex};

verus! {

/// The number of positions below `n` at which `a` and `b` differ.
pub open spec fn mismatches(a: Seq<u8>, b: Seq<u8>, n: nat) -> nat
    decreases n,
{
    if n == 0 {
        0
    } else {
        mismatches(a, b, (n - 1) as nat) + if a[n - 1] != b[n - 1] {
            1nat
        } else {
            0nat
        }
    }
}

/// Hamming distance of two sequences of one length.
pub open spec fn hamming(a: Seq<u8>, b: Seq<u8>) -> nat {
    mismatches(a, b, a.len())
}

/// Seed `j` of the query `q`, for seeds of length `s`.
pub open spec fn seed(q: Seq<u8>, j: nat, s: nat) -> Seq<u8> {
    q.subrange((j * s) as int, ((j + 1) * s) as int)
}

/// Where the chunk would start for an occurrence of seed `j` at `pos`: `pos - j*s`,
/// clamped at zero.
pub open spec fn candidate_start(pos: u32, j: nat, s: nat) -> nat {
    if pos >= j * s {
        (pos - j * s) as nat
    } else {
        0
    }
}

/// The candidate for seed `j` at `pos` fits in `t` and lies within `d` of `q`.
pub open spec fn accepts(q: Seq<u8>, t: Seq<u8>, j: nat, s: nat, pos: u32, d: nat) -> bool {
    let st = candidate_start(pos, j, s);
    &&& st + q.len() <= t.len()
    &&& hamming(q, t.subrange(st as int, (st + q.len()) as int)) <= d
}

/// Some offset listed for seed `j` of `q` gives an accepted candidate.
pub open spec fn seed_hit(idx: &GenomeIndex, q: Seq<u8>, t: Seq<u8>, d: nat, j: nat) -> bool {
    let s = idx.part_size as nat;
    let b = idx.bucket(key_of(seed(q, j, s)));
    exists|x: int| 0 <= x < b.len() && #[trigger] accepts(q, t, j, s, b[x], d)
}

/// What the matcher answers: one of the seeds `0..=d` has an accepted candidate.
pub open spec fn matcher_accepts(idx: &GenomeIndex, q: Seq<u8>, t: Seq<u8>, d: nat) -> bool {
    exists|j: nat| j <= d && #[trigger] seed_hit(idx, q, t, d, j)
}

/// Counts the positions at which two windows of one length differ.
pub fn hamming_distance(a: &[u8], b: &[u8]) -> (r: u32)
    requires
        a@.len() == b@.len(),
        a@.len() <= u32::MAX,
    ensures
        r == hamming(a@, b@),
{
    let mut count: u32 = 0;
    let mut i: usize = 0;
    while i < a.len()
        invariant
            i <= a@.len(),
            a@.len() == b@.len(),
            a@.len() <= u32::MAX,
            count == mismatches(a@, b@, i as nat),
            count <= i,
        decreases a@.len() - i,
    {
        if a[i] != b[i] {
            count += 1;
        }
        i += 1;
    }
    count
}

/// Whether the query window lies within `max_differences` substitutions of
/// some window of the target, found through one of its `max_differences + 1`
/// disjoint seeds. A candidate that would start before the target is tried at
/// offset zero instead.
pub fn find_matches(
    query_genome: &[u8],
    target_index: &GenomeIndex,
    target_genome: &[u8],
    chunk_size: u32,
    max_differences: u32,
) -> (r: bool)
    requires
        target_index.wf(),
        all_codes(query_genome@),
        query_genome@.len() == chunk_size,
        max_differences < u32::MAX,
        (max_differences + 1) * target_index.part_size <= chunk_size,
    ensures
        r == matcher_accepts(target_index, query_genome@, target_genome@, max_differences as nat),
{
    let ghost q = query_genome@;
    let ghost t = target_genome@;
    let ghost d = max_differences as nat;
    let num_parts: u32 = max_differences + 1;
    let part_size: u32 = target_index.part_size;
    let ghost s = part_size as nat;
    let mut j: u32 = 0;
    while j < num_parts
        invariant
            q == query_genome@,
            t == target_genome@,
            target_index.wf(),
            all_codes(q),
            q.len() == chunk_size,
            num_parts == max_differences + 1,
            part_size == target_index.part_size,
            s == part_size,
            d == max_differences,
            num_parts * s <= chunk_size,
            j <= num_parts,
            forall|jj: nat| jj < j ==> !#[trigger] seed_hit(target_index, q, t, d, jj),
        decreases num_parts - j,
    {
        assert((j + 1) * s <= num_parts * s && j * s <= (j + 1) * s) by (nonlinear_arith)
            requires
                j < num_parts,
        ;
        let lo: u32 = j * part_size;
        assert(lo + s == (j + 1) * s) by (nonlinear_arith)
            requires
                lo == j * s,
        ;
        let hi: u32 = lo + part_size;
        let part = vstd::slice::slice_subrange(query_genome, lo as usize, hi as usize);
        assert(part@ == seed(q, j as nat, s));
        assert(all_codes(part@)) by {
            assert forall|x: int| 0 <= x < part@.len() implies #[trigger] part@[x] < 5 by {
                assert(part@[x] == q[lo + x]);
            }
        }
        match target_index.get(part) {
            Some(positions) => {
                let mut x: usize = 0;
                while x < positions.len()
                    invariant
                        q == query_genome@,
                        t == target_genome@,
                        q.len() == chunk_size,
                        positions@ == target_index.bucket(key_of(seed(q, j as nat, s))),
                        s == part_size,
                        part_size == target_index.part_size,
                        lo == j * s,
                        j < num_parts,
                        num_parts == max_differences + 1,
                        d == max_differences,
                        x <= positions@.len(),
                        forall|xx: int|
                            0 <= xx < x ==> !#[trigger] accepts(q, t, j as nat, s, positions@[xx], d),
                    decreases positions@.len() - x,
                {
                    let pos = positions[x];
                    let start: u32 = if pos >= lo {
                        pos - lo
                    } else {
                        0
                    };
                    if (start as u64) + (chunk_size as u64) <= target_genome.len() as u64 {
                        let end: usize = start as usize + chunk_size as usize;
                        let chunk = vstd::slice::slice_subrange(target_genome, start as usize, end);
                        if hamming_distance(query_genome, chunk) <= max_differences {
                            assert(accepts(q, t, j as nat, s, positions@[x as int], d));
                            assert(seed_hit(target_index, q, t, d, j as nat));
                            return true;
                        }
                    }
                    x += 1;
                }
            },
            None => {},
        }
        j += 1;
    }
    false
}

proof fn lemma_mismatches_grow(a: Seq<u8>, b: Seq<u8>, i: nat, n: nat)
    requires
        i <= n,
    ensures
        mismatches(a, b, i) <= mismatches(a, b, n),
    decreases n,
{
    if n > i {
        lemma_mismatches_grow(a, b, i, (n - 1) as nat);
    }
}

/// A differing position in `[lo, n)` adds one to the count below `lo`.
proof fn lemma_mismatch_counted(a: Seq<u8>, b: Seq<u8>, lo: nat, i: nat, n: nat)
    requires
        lo <= i < n,
        a[i as int] != b[i as int],
    ensures
        mismatches(a, b, n) >= mismatches(a, b, lo) + 1,
{
    lemma_mismatches_grow(a, b, lo, i);
    lemma_mismatches_grow(a, b, i + 1, n);
    assert(mismatches(a, b, i + 1) == mismatches(a, b, i) + 1);
}

/// Two unequal seeds hold a differing position.
proof fn lemma_seed_differs(a: Seq<u8>, b: Seq<u8>, j: nat, s: nat)
    requires
        (j + 1) * s <= a.len(),
        (j + 1) * s <= b.len(),
        seed(a, j, s) != seed(b, j, s),
    ensures
        exists|i: nat| j * s <= i < (j + 1) * s && #[trigger] a[i as int] != b[i as int],
{
    assert(j * s <= (j + 1) * s) by (nonlinear_arith);
    if forall|i: nat| j * s <= i < (j + 1) * s ==> #[trigger] a[i as int] == b[i as int] {
        assert forall|k: int| 0 <= k < seed(a, j, s).len() implies seed(a, j, s)[k] == seed(b, j, s)[k] by {
            let i = (j * s + k) as nat;
            assert(a[i as int] == b[i as int]);
        }
        assert(seed(a, j, s) =~= seed(b, j, s));
    }
}

/// When each of the first `m` seeds differs, the sequences differ in at least `m`
/// positions.
proof fn lemma_seeds_count(a: Seq<u8>, b: Seq<u8>, s: nat, m: nat)
    requires
        m * s <= a.len(),
        m * s <= b.len(),
        forall|j: nat| j < m ==> #[trigger] seed(a, j, s) != seed(b, j, s),
    ensures
        mismatches(a, b, m * s) >= m,
    decreases m,
{
    if m > 0 {
        let j = (m - 1) as nat;
        assert(j * s <= m * s && (j + 1) * s == m * s) by (nonlinear_arith)
            requires
                j + 1 == m,
        ;
        lemma_seeds_count(a, b, s, j);
        assert(seed(a, j, s) != seed(b, j, s));
        lemma_seed_differs(a, b, j, s);
        let i = choose|i: nat| j * s <= i < (j + 1) * s && #[trigger] a[i as int] != b[i as int];
        lemma_mismatch_counted(a, b, j * s, i, m * s);
    }
}

/// An offset below `n` at which `w` occurs is listed among the occurrences.
proof fn lemma_occurrence_listed(g: Seq<u8>, w: Seq<u8>, n: nat, p: nat)
    requires
        p < n,
        g.subrange(p as int, (p + w.len()) as int) == w,
    ensures
        exists|x: int|
            0 <= x < occurrences(g, w, n).len() && #[trigger] occurrences(g, w, n)[x] == p as u32,
    decreases n,
{
    if p < n - 1 {
        lemma_occurrence_listed(g, w, (n - 1) as nat, p);
        let prev = occurrences(g, w, (n - 1) as nat);
        let x = choose|x: int| 0 <= x < prev.len() && #[trigger] prev[x] == p as u32;
        assert(occurrences(g, w, n)[x] == p as u32);
    } else {
        let occ = occurrences(g, w, n);
        assert(occ[occ.len() - 1] == p as u32);
    }
}

/// Pigeonhole correctness: when the query lies within `d` substitutions of the
/// target window at `start`, one of its `d + 1` disjoint seeds equals the
/// window's, and the matcher answers true, provided each seed of the window that
/// equals the query's starts at an offset the index covers.
pub proof fn lemma_pigeonhole(idx: &GenomeIndex, q: Seq<u8>, t: Seq<u8>, d: nat, start: nat)
    requires
        idx.indexes(t, q.len()),
        t.len() < u32::MAX,
        all_codes(q),
        (d + 1) * idx.part_size <= q.len(),
        start + q.len() <= t.len(),
        hamming(q, t.subrange(start as int, (start + q.len()) as int)) <= d,
        forall|j: nat|
            j <= d && #[trigger] seed(q, j, idx.part_size as nat) == seed(
                t.subrange(start as int, (start + q.len()) as int),
                j,
                idx.part_size as nat,
            ) ==> start + j * idx.part_size + q.len() <= t.len(),
    ensures
        matcher_accepts(idx, q, t, d),
{
    let c = q.len();
    let s = idx.part_size as nat;
    let w = t.subrange(start as int, (start + c) as int);
    if forall|j: nat| j < d + 1 ==> #[trigger] seed(q, j, s) != seed(w, j, s) {
        lemma_seeds_count(q, w, s, d + 1);
        lemma_mismatches_grow(q, w, (d + 1) * s, c);
        assert(false);
    }
    let j = choose|j: nat| j < d + 1 && !(#[trigger] seed(q, j, s) != seed(w, j, s));
    let sj = seed(q, j, s);
    let pos = start + j * s;
    assert(j * s <= (j + 1) * s <= (d + 1) * s) by (nonlinear_arith)
        requires
            j <= d,
    ;
    assert(pos + s == start + (j + 1) * s) by (nonlinear_arith)
        requires
            pos == start + j * s,
    ;
    assert(t.subrange(pos as int, (pos + sj.len()) as int) =~= sj) by {
        assert(seed(w, j, s) == sj);
    }
    assert(all_codes(sj)) by {
        assert forall|x: int| 0 <= x < sj.len() implies #[trigger] sj[x] < 5 by {
            assert(sj[x] == q[j * s + x]);
        }
    }
    lemma_lookup_exact(idx, t, c, sj);
    lemma_occurrence_listed(t, sj, (t.len() - c + 1) as nat, pos);
    let b = idx.bucket(key_of(sj));
    let x = choose|x: int| 0 <= x < b.len() && #[trigger] b[x] == pos as u32;
    assert(candidate_start(b[x], j, s) == start);
    assert(accepts(q, t, j, s, b[x], d));
    assert(seed_hit(idx, q, t, d, j));
}

} // verus!
