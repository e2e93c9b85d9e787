//! Turning FASTA-like text into a dense sequence of nucleotide codes.
use vstd::prelude::*;

verus! {

/// Code of an adenine base.
pub const A: u8 = 0;
/// Code of a cytosine base.
pub const C: u8 = 1;
/// Code of a guanine base.
pub const G: u8 = 2;
/// Code of a thymine base.
pub const T: u8 = 3;
/// Code of an unknown base (`N`).
pub const N: u8 = 4;
/// Marker for a byte that is not a base; it never appears in an encoded sequence.
pub const UNKNOWN: u8 = 5;

/// Number of symbols in the alphabet.
pub const BASE_OPTIONS: usize = 5;

/// A byte that is one of the five alphabet codes.
pub open spec fn is_code(b: u8) -> bool {
    b < 5
}

/// Every element of `s` is an alphabet code.
pub open spec fn all_codes(s: Seq<u8>) -> bool {
    forall|i: int| 0 <= i < s.len() ==> is_code(#[trigger] s[i])
}

/// The code of a byte after case folding, or `UNKNOWN` (bytes are ASCII:
/// 65 is `A`, 97 is `a`, and so on).
pub open spec fn code_of(b: u8) -> u8 {
    if b == 65 || b == 97 {
        A
    } else if b == 67 || b == 99 {
        C
    } else if b == 71 || b == 103 {
        G
    } else if b == 84 || b == 116 {
        T
    } else if b == 78 || b == 110 {
        N
    } else {
        UNKNOWN
    }
}

/// Whether the scan is inside a header line after reading the bytes `s`:
/// a `>` (62) opens one and a line feed (10) closes it.
pub open spec fn in_header(s: Seq<u8>) -> bool
    decreases s.len(),
{
    if s.len() == 0 {
        false
    } else if s.last() == 62 {
        true
    } else if s.last() == 10 {
        false
    } else {
        in_header(s.drop_last())
    }
}

/// The codes that the bytes `s` encode to: header lines, `>` and line feeds,
/// carriage returns (13) and unrecognised bytes contribute nothing.
pub open spec fn encoded(s: Seq<u8>) -> Seq<u8>
    decreases s.len(),
{
    if s.len() == 0 {
        Seq::empty()
    } else {
        let b = s.last();
        let prev = encoded(s.drop_last());
        if b != 62 && b != 10 && b != 13 && !in_header(s.drop_last()) && is_code(code_of(b)) {
            prev.push(code_of(b))
        } else {
            prev
        }
    }
}

/// Two prefixes that leave the scan in the same state encode alike after any
/// common suffix.
proof fn lemma_same_state_suffix(x: Seq<u8>, y: Seq<u8>, b: Seq<u8>)
    requires
        encoded(x) == encoded(y),
        in_header(x) == in_header(y),
    ensures
        encoded(x + b) == encoded(y + b),
        in_header(x + b) == in_header(y + b),
    decreases b.len(),
{
    if b.len() > 0 {
        let b2 = b.drop_last();
        lemma_same_state_suffix(x, y, b2);
        assert((x + b).drop_last() =~= x + b2);
        assert((y + b).drop_last() =~= y + b2);
        assert((x + b).last() == b.last());
        assert((y + b).last() == b.last());
    }
}

/// A carriage return, wherever it stands, inside a header line or not,
/// changes nothing; so neither do any number of them.
pub proof fn lemma_carriage_return_ignored(a: Seq<u8>, b: Seq<u8>)
    ensures
        encoded(a + seq![13u8] + b) == encoded(a + b),
{
    let x = a.push(13);
    assert(x.drop_last() =~= a);
    lemma_same_state_suffix(x, a, b);
    assert(a + seq![13u8] + b =~= x + b);
}

proof fn lemma_inside_header(a: Seq<u8>, h: Seq<u8>)
    requires
        !in_header(a),
        forall|i: int| 0 <= i < h.len() ==> #[trigger] h[i] != 10,
    ensures
        in_header(a + seq![62u8] + h),
        encoded(a + seq![62u8] + h) == encoded(a),
    decreases h.len(),
{
    if h.len() == 0 {
        let x = a.push(62);
        assert(x.drop_last() =~= a);
        assert(a + seq![62u8] + h =~= x);
    } else {
        let h2 = h.drop_last();
        lemma_inside_header(a, h2);
        assert((a + seq![62u8] + h).drop_last() =~= a + seq![62u8] + h2);
        assert((a + seq![62u8] + h).last() == h[h.len() - 1]);
    }
}

/// A header line, from `>` to its line feed included, contributes nothing and
/// does not affect what follows, when it starts outside a header line.
pub proof fn lemma_header_line_ignored(a: Seq<u8>, h: Seq<u8>, b: Seq<u8>)
    requires
        !in_header(a),
        forall|i: int| 0 <= i < h.len() ==> #[trigger] h[i] != 10,
    ensures
        encoded(a + seq![62u8] + h + seq![10u8] + b) == encoded(a + b),
{
    lemma_inside_header(a, h);
    let x = a + seq![62u8] + h + seq![10u8];
    assert(x.drop_last() =~= a + seq![62u8] + h);
    assert(x.last() == 10);
    lemma_same_state_suffix(x, a, b);
}

/// `b` with ASCII lower-case letters made upper case.
pub open spec fn ascii_upper(b: u8) -> u8 {
    if 97 <= b <= 122 {
        (b - 32) as u8
    } else {
        b
    }
}

/// `b` with ASCII upper-case letters made lower case.
pub open spec fn ascii_lower(b: u8) -> u8 {
    if 65 <= b <= 90 {
        (b + 32) as u8
    } else {
        b
    }
}

/// The scan treats `x` and `y` alike.
pub open spec fn same_role(x: u8, y: u8) -> bool {
    &&& code_of(x) == code_of(y)
    &&& (x == 62 <==> y == 62)
    &&& (x == 10 <==> y == 10)
    &&& (x == 13 <==> y == 13)
}

proof fn lemma_same_roles(d1: Seq<u8>, d2: Seq<u8>)
    requires
        d1.len() == d2.len(),
        forall|i: int| 0 <= i < d1.len() ==> same_role(#[trigger] d1[i], d2[i]),
    ensures
        encoded(d1) == encoded(d2),
        in_header(d1) == in_header(d2),
    decreases d1.len(),
{
    if d1.len() > 0 {
        let p1 = d1.drop_last();
        let p2 = d2.drop_last();
        assert forall|i: int| 0 <= i < p1.len() implies same_role(#[trigger] p1[i], p2[i]) by {
            assert(p1[i] == d1[i] && p2[i] == d2[i]);
        }
        lemma_same_roles(p1, p2);
        assert(same_role(d1[d1.len() - 1], d2[d2.len() - 1]));
    }
}

/// Input is case folded before it is mapped to codes: making every letter
/// upper case, or every letter lower case, does not change the encoding.
pub proof fn lemma_case_folded(d: Seq<u8>)
    ensures
        encoded(d.map_values(|b: u8| ascii_upper(b))) == encoded(d),
        encoded(d.map_values(|b: u8| ascii_lower(b))) == encoded(d),
{
    let up = d.map_values(|b: u8| ascii_upper(b));
    let low = d.map_values(|b: u8| ascii_lower(b));
    assert forall|i: int| 0 <= i < up.len() implies same_role(#[trigger] up[i], d[i]) by {
        assert(up[i] == ascii_upper(d[i]));
    }
    assert forall|i: int| 0 <= i < low.len() implies same_role(#[trigger] low[i], d[i]) by {
        assert(low[i] == ascii_lower(d[i]));
    }
    lemma_same_roles(up, d);
    lemma_same_roles(low, d);
}

/// The alphabet code of one byte, case folded, or `UNKNOWN`.
pub fn encode_base(b: u8) -> (r: u8)
    ensures
        r == code_of(b),
{
    match b {
        // 'A' | 'a'
        65 | 97 => A,
        // 'C' | 'c'
        67 | 99 => C,
        // 'G' | 'g'
        71 | 103 => G,
        // 'T' | 't'
        84 | 116 => T,
        // 'N' | 'n'
        78 | 110 => N,
        _ => UNKNOWN,
    }
}

/// Encodes the raw bytes of a FASTA-like file. Lossy by design: header lines,
/// carriage returns and every byte outside the alphabet are dropped.
pub fn encode_genome(data: &[u8]) -> (r: Vec<u8>)
    ensures
        r@ == encoded(data@),
        all_codes(r@),
{
    let mut out: Vec<u8> = Vec::new();
    let mut skip = false;
    let mut i: usize = 0;
    while i < data.len()
        invariant
            i <= data.len(),
            skip == in_header(data@.subrange(0, i as int)),
            out@ == encoded(data@.subrange(0, i as int)),
            all_codes(out@),
        decreases data.len() - i,
    {
        let byte = data[i];
        proof {
            assert(data@.subrange(0, i + 1).drop_last() =~= data@.subrange(0, i as int));
        }
        if byte == 62 {
            // '>' opens a header line
            skip = true;
        } else if byte == 10 {
            // a line feed closes it
            skip = false;
        } else if byte == 13 {
            // carriage returns are always dropped
        } else if !skip {
            let code = encode_base(byte);
            if code != UNKNOWN {
                out.push(code);
            }
        }
        i += 1;
    }
    proof {
        assert(data@.subrange(0, data@.len() as int) =~= data@);
    }
    out
}

/// Whether every byte of `s` is an alphabet code.
pub fn is_encoded(s: &[u8]) -> (r: bool)
    ensures
        r == all_codes(s@),
{
    let mut i: usize = 0;
    while i < s.len()
        invariant
            i <= s@.len(),
            forall|x: int| 0 <= x < i ==> is_code(#[trigger] s@[x]),
        decreases s@.len() - i,
    {
        if s[i] >= 5 {
            return false;
        }
        i += 1;
    }
    true
}

} // verus!
