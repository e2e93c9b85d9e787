//! Blobs that let an encoded sequence or a built index outlive the process:
//! what is stored for each artifact, and how a stored blob is read back.
use vstd::prelude::*;
use crate::encoding::{all_codes, encode_genome, encoded, is_encoded};
use crate::index::{lemma_pow5_grows, pow5, GenomeIndex};

verus! {

#[verifier::external_type_specification]
#[verifier::external_body]
pub struct ExErrorKind(bincode::ErrorKind);

/// Why a blob could not be written or read back.
#[derive(Debug, Clone, Copy, PartialEq, Eq)]
pub enum CacheError {
    /// The artifact could not be serialized.
    Encode,
    /// The blob is not a serialized artifact of the expected kind.
    Decode,
    /// A sequence blob holds a byte that is not an alphabet code.
    NotEncoded,
    /// An index blob has a bucket table of the wrong size for its seed length.
    WrongBucketCount,
}

/// The low `width` bytes of `n`, least significant first.
pub open spec fn le_bytes(n: nat, width: nat) -> Seq<u8>
    decreases width,
{
    if width == 0 {
        Seq::empty()
    } else {
        seq![(n % 256) as u8] + le_bytes(n / 256, (width - 1) as nat)
    }
}

/// The blob of an encoded sequence: its length in eight bytes, then its codes.
pub open spec fn codes_blob(s: Seq<u8>) -> Seq<u8> {
    le_bytes(s.len(), 8) + s
}

/// Offsets written one after the other, four bytes each.
pub open spec fn offsets_bytes(s: Seq<u32>) -> Seq<u8>
    decreases s.len(),
{
    if s.len() == 0 {
        Seq::empty()
    } else {
        offsets_bytes(s.drop_last()) + le_bytes(s.last() as nat, 4)
    }
}

/// Buckets written one after the other, each as its length in eight bytes
/// followed by its offsets.
pub open spec fn buckets_bytes(b: Seq<Seq<u32>>) -> Seq<u8>
    decreases b.len(),
{
    if b.len() == 0 {
        Seq::empty()
    } else {
        buckets_bytes(b.drop_last()) + le_bytes(b.last().len(), 8) + offsets_bytes(b.last())
    }
}

/// The blob of an index: the number of buckets in eight bytes, the buckets,
/// then the seed length in four bytes.
pub open spec fn index_blob(b: Seq<Seq<u32>>, part_size: u32) -> Seq<u8> {
    le_bytes(b.len(), 8) + buckets_bytes(b) + le_bytes(part_size as nat, 4)
}

/// The contents of a bucket table.
pub open spec fn buckets_view(t: Seq<Vec<u32>>) -> Seq<Seq<u32>> {
    t.map_values(|v: Vec<u32>| v@)
}

/// Relies on `bincode::serialize` (fixed-width little-endian integers): a byte
/// vector is written as its length in eight bytes followed by its bytes. It
/// cannot fail here: the default size limit is infinite, a vector always gives
/// its length, and writing into a vector does not fail.
#[verifier::external_body]
fn serialize_codes(seq: &Vec<u8>) -> (r: Result<Vec<u8>, Box<bincode::ErrorKind>>)
    ensures
        r is Ok,
        r matches Ok(b) ==> b@ == codes_blob(seq@),
{
    bincode::serialize(seq)
}

/// Relies on `bincode::deserialize`: what `bincode::serialize` wrote for a byte
/// vector reads back as that vector.
#[verifier::external_body]
fn deserialize_codes(blob: &[u8]) -> (r: Result<Vec<u8>, Box<bincode::ErrorKind>>)
    ensures
        forall|s: Seq<u8>| #[trigger] codes_blob(s) == blob@ ==> r is Ok && r->Ok_0@ == s,
{
    bincode::deserialize(blob)
}

/// Relies on `bincode::serialize` (fixed-width little-endian integers) of the
/// pair of bucket table and seed length: a vector is its length in eight bytes
/// followed by its elements, a `u32` is four bytes. It cannot fail here, for
/// the reasons given at `serialize_codes`.
#[verifier::external_body]
fn serialize_index(index: &Vec<Vec<u32>>, part_size: u32) -> (r: Result<
    Vec<u8>,
    Box<bincode::ErrorKind>,
>)
    ensures
        r is Ok,
        r matches Ok(b) ==> b@ == index_blob(buckets_view(index@), part_size),
{
    bincode::serialize(&(index, part_size))
}

/// Relies on `bincode::deserialize`: what `bincode::serialize` wrote for a pair
/// of bucket table and seed length reads back as that pair.
#[verifier::external_body]
fn deserialize_index(blob: &[u8]) -> (r: Result<(Vec<Vec<u32>>, u32), Box<bincode::ErrorKind>>)
    ensures
        forall|b: Seq<Seq<u32>>, k: u32|
            #[trigger] index_blob(b, k) == blob@ ==> r is Ok && buckets_view(r->Ok_0.0@) == b
                && r->Ok_0.1 == k,
{
    bincode::deserialize(blob)
}

/// Encodes the raw bytes of a sequence file and gives the blob to store for it.
pub fn build_sequence(raw: &[u8]) -> (r: Result<(Vec<u8>, Vec<u8>), CacheError>)
    ensures
        r is Ok,
        r matches Ok((s, b)) ==> s@ == encoded(raw@) && all_codes(s@) && b@ == codes_blob(s@),
{
    let seq = encode_genome(raw);
    match serialize_codes(&seq) {
        Ok(blob) => Ok((seq, blob)),
        Err(_) => Err(CacheError::Encode),
    }
}

/// Reads an encoded sequence back from its blob. A blob that a fresh build
/// stored reads back as the very sequence that was built.
pub fn sequence_from_blob(blob: &[u8]) -> (r: Result<Vec<u8>, CacheError>)
    ensures
        r matches Ok(s) ==> all_codes(s@),
        forall|s: Seq<u8>|
            all_codes(s) && #[trigger] codes_blob(s) == blob@ ==> (r matches Ok(v) && v@ == s),
{
    match deserialize_codes(blob) {
        Ok(seq) => {
            if is_encoded(seq.as_slice()) {
                Ok(seq)
            } else {
                Err(CacheError::NotEncoded)
            }
        },
        Err(_) => Err(CacheError::Decode),
    }
}

/// Whether `n` is five to the power `part_size`.
fn is_bucket_count(part_size: u32, n: usize) -> (r: bool)
    ensures
        r == (pow5(part_size as nat) == n),
{
    let mut p: usize = 1;
    let mut e: u32 = 0;
    while e < part_size
        invariant
            e <= part_size,
            p == pow5(e as nat),
        decreases part_size - e,
    {
        if p > n / 5 {
            proof {
                lemma_pow5_grows((e + 1) as nat, part_size as nat);
                assert(5 * p > n) by (nonlinear_arith)
                    requires
                        p > n / 5,
                ;
            }
            return false;
        }
        p = p * 5;
        e += 1;
    }
    p == n
}

/// Builds the index of a target for the given seed and chunk lengths and gives
/// the blob to store for it.
pub fn build_index(genome: &[u8], part_size: u32, chunk_size: u32) -> (r: Result<
    (GenomeIndex, Vec<u8>),
    CacheError,
>)
    requires
        all_codes(genome@),
        part_size <= chunk_size <= genome@.len() < u32::MAX,
        pow5(part_size as nat) <= usize::MAX,
    ensures
        r matches Ok((i, b)) ==> i.part_size == part_size && i.indexes(genome@, chunk_size as nat)
            && b@ == index_blob(buckets_view(i.index@), i.part_size),
        r is Ok,
{
    let index = GenomeIndex::new(genome, part_size, chunk_size);
    match serialize_index(&index.index, index.part_size) {
        Ok(blob) => Ok((index, blob)),
        Err(_) => Err(CacheError::Encode),
    }
}

/// Reads an index back from its blob. A blob that a fresh build stored reads
/// back as an index with the very buckets and seed length that were built.
pub fn index_from_blob(blob: &[u8]) -> (r: Result<GenomeIndex, CacheError>)
    ensures
        r matches Ok(i) ==> i.wf(),
        forall|b: Seq<Seq<u32>>, k: u32|
            b.len() == pow5(k as nat) && #[trigger] index_blob(b, k) == blob@ ==> (r matches Ok(i)
                && buckets_view(i.index@) == b && i.part_size == k),
{
    match deserialize_index(blob) {
        Ok((index, part_size)) => {
            if is_bucket_count(part_size, index.len()) {
                Ok(GenomeIndex { index, part_size })
            } else {
                Err(CacheError::WrongBucketCount)
            }
        },
        Err(_) => Err(CacheError::Decode),
    }
}

} // verus!
