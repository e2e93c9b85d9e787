//! One query sequence bound to one indexed target sequence and the match
//! parameters.
use vstd::prelude::*;
use crate::encoding::all_codes;
use crate::index::{pow5, GenomeIndex};
use crate::matcher::{find_matches, hamming, lemma_pigeonhole, matcher_accepts, seed};

verus! {

/// A query, a target, the index of the target and the match parameters.
/// Never changed after construction.
pub struct GenomeComparison {
    query_genome: Vec<u8>,
    target_genome: Vec<u8>,
    target_index: GenomeIndex,
    chunk_size: u32,
    max_differences: u32,
}

impl GenomeComparison {
    pub closed spec fn query(&self) -> Seq<u8> {
        self.query_genome@
    }

    pub closed spec fn target(&self) -> Seq<u8> {
        self.target_genome@
    }

    pub closed spec fn index(&self) -> GenomeIndex {
        self.target_index
    }

    pub closed spec fn chunk(&self) -> u32 {
        self.chunk_size
    }

    pub closed spec fn max_diff(&self) -> u32 {
        self.max_differences
    }

    /// The parameters fit together: `max_differences + 1` seeds fit in one chunk.
    pub open spec fn wf(&self) -> bool {
        &&& self.index().wf()
        &&& all_codes(self.query())
        &&& self.max_diff() < u32::MAX
        &&& (self.max_diff() + 1) * self.index().part_size <= self.chunk()
    }

    /// The session's index is the index of its target for its chunk length,
    /// as `build` makes it.
    pub open spec fn indexed(&self) -> bool {
        self.index().indexes(self.target(), self.chunk() as nat)
    }

    /// Seed length for a chunk of `chunk_size` codes and a budget of
    /// `max_differences` substitutions: `max_differences + 1` seeds fit in a chunk.
    pub fn part_size_for(chunk_size: u32, max_differences: u32) -> (r: u32)
        requires
            max_differences < u32::MAX,
        ensures
            r == chunk_size as int / (max_differences + 1),
            (max_differences + 1) * r <= chunk_size,
            r <= chunk_size,
    {
        let part_size: u32 = chunk_size / (max_differences + 1);
        assert((max_differences + 1) * part_size <= chunk_size && part_size <= chunk_size)
            by (nonlinear_arith)
            requires
                part_size == chunk_size as int / (max_differences + 1),
                max_differences < u32::MAX,
        ;
        part_size
    }

    /// Whether both sessions hold the same query.
    pub fn same_query(&self, other: &GenomeComparison) -> (r: bool)
        ensures
            r == (self.query() == other.query()),
    {
        let a = &self.query_genome;
        let b = &other.query_genome;
        if a.len() != b.len() {
            return false;
        }
        let mut i: usize = 0;
        while i < a.len()
            invariant
                a@ == self.query(),
                b@ == other.query(),
                a@.len() == b@.len(),
                i <= a@.len(),
                forall|x: int| 0 <= x < i ==> a@[x] == b@[x],
            decreases a@.len() - i,
        {
            if a[i] != b[i] {
                assert(a@[i as int] != b@[i as int]);
                return false;
            }
            i += 1;
        }
        assert(a@ =~= b@);
        true
    }

    /// Binds a query and a target to an index already built for the target,
    /// such as one loaded from a cache.
    pub fn with_index(
        query_genome: Vec<u8>,
        target_genome: Vec<u8>,
        target_index: GenomeIndex,
        chunk_size: u32,
        max_differences: u32,
    ) -> (r: Self)
        requires
            target_index.wf(),
            all_codes(query_genome@),
            max_differences < u32::MAX,
            (max_differences + 1) * target_index.part_size <= chunk_size,
        ensures
            r.wf(),
            r.query() == query_genome@,
            r.target() == target_genome@,
            r.index() == target_index,
            r.chunk() == chunk_size,
            r.max_diff() == max_differences,
    {
        GenomeComparison { query_genome, target_genome, target_index, chunk_size, max_differences }
    }

    /// Binds a query and a target, building the index of the target with seeds
    /// of length `chunk_size / (max_differences + 1)`.
    pub fn build(
        query_genome: Vec<u8>,
        target_genome: Vec<u8>,
        chunk_size: u32,
        max_differences: u32,
    ) -> (r: Self)
        requires
            all_codes(query_genome@),
            all_codes(target_genome@),
            max_differences < u32::MAX,
            chunk_size <= target_genome@.len() < u32::MAX,
            pow5((chunk_size as int / (max_differences + 1)) as nat) <= usize::MAX,
        ensures
            r.wf(),
            r.query() == query_genome@,
            r.target() == target_genome@,
            r.index().part_size == chunk_size as int / (max_differences + 1),
            r.index().indexes(target_genome@, chunk_size as nat),
            r.indexed(),
            r.chunk() == chunk_size,
            r.max_diff() == max_differences,
    {
        let part_size = Self::part_size_for(chunk_size, max_differences);
        let target_index = GenomeIndex::new(target_genome.as_slice(), part_size, chunk_size);
        GenomeComparison { query_genome, target_genome, target_index, chunk_size, max_differences }
    }

    /// Whether the query window of `chunk_size` codes at `chunk_start` lies
    /// within `max_differences` substitutions of the target, as the matcher finds.
    pub fn compare(&self, chunk_start: usize) -> (r: bool)
        requires
            self.wf(),
            chunk_start + self.chunk() <= self.query().len(),
        ensures
            r == matcher_accepts(
                &self.index(),
                self.query().subrange(chunk_start as int, chunk_start + self.chunk()),
                self.target(),
                self.max_diff() as nat,
            ),
    {
        let query_len = self.query_genome.len();
        assert(chunk_start + self.chunk_size <= query_len);
        let chunk_end = chunk_start + self.chunk_size as usize;
        let chunk = vstd::slice::slice_subrange(self.query_genome.as_slice(), chunk_start, chunk_end);
        assert(all_codes(chunk@)) by {
            assert forall|x: int| 0 <= x < chunk@.len() implies #[trigger] chunk@[x] < 5 by {
                assert(chunk@[x] == self.query_genome@[chunk_start + x]);
            }
        }
        find_matches(
            chunk,
            &self.target_index,
            self.target_genome.as_slice(),
            self.chunk_size,
            self.max_differences,
        )
    }

    /// Length of the query sequence.
    pub fn get_query_genome_len(&self) -> (r: usize)
        ensures
            r == self.query().len(),
    {
        self.query_genome.len()
    }

    /// The window length compared.
    pub fn get_chunk_size(&self) -> (r: u32)
        ensures
            r == self.chunk(),
    {
        self.chunk_size
    }
}

/// A session whose index is that of its target finds a query window that lies
/// within the budget of the target window at `start`, provided each seed of
/// that target window that equals the query's starts at an offset the index
/// covers.
pub proof fn lemma_session_finds_close_window(g: GenomeComparison, chunk_start: nat, start: nat)
    requires
        g.wf(),
        g.indexed(),
        g.target().len() < u32::MAX,
        chunk_start + g.chunk() <= g.query().len(),
        start + g.chunk() <= g.target().len(),
        hamming(
            g.query().subrange(chunk_start as int, chunk_start + g.chunk()),
            g.target().subrange(start as int, start + g.chunk()),
        ) <= g.max_diff(),
        forall|j: nat|
            j <= g.max_diff() && #[trigger] seed(
                g.query().subrange(chunk_start as int, chunk_start + g.chunk()),
                j,
                g.index().part_size as nat,
            ) == seed(
                g.target().subrange(start as int, start + g.chunk()),
                j,
                g.index().part_size as nat,
            ) ==> start + j * g.index().part_size + g.chunk() <= g.target().len(),
    ensures
        matcher_accepts(
            &g.index(),
            g.query().subrange(chunk_start as int, chunk_start + g.chunk()),
            g.target(),
            g.max_diff() as nat,
        ),
{
    let q = g.query().subrange(chunk_start as int, chunk_start + g.chunk());
    assert(all_codes(q)) by {
        assert forall|x: int| 0 <= x < q.len() implies #[trigger] q[x] < 5 by {
            assert(q[x] == g.query()[chunk_start + x]);
        }
    }
    lemma_pigeonhole(&g.index(), q, g.target(), g.max_diff() as nat, start);
}

} // verus!
