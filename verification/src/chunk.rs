//! Chunk descriptors: the per-chunk metadata a mounted container exposes,
//! and the compression-ratio arithmetic used by listing and reporting.

use vstd::prelude::*;

verus! {

/// One chunk of a mounted container: immutable metadata read from the
/// container's directory.  Within one snapshot chunks are uniquely keyed by
/// `path_hash`; two chunks of different snapshots are the same logical asset
/// iff their `path_hash` matches and byte-identical iff their `checksum`
/// matches.
#[derive(Clone, Copy, Debug, PartialEq, Eq, Structural)]
pub struct WadChunk {
    pub path_hash: u64,
    pub checksum: u64,
    pub compressed_size: u64,
    pub uncompressed_size: u64,
}

/// Percentage of space saved by compression, rounded down: the integer part
/// of `(1 - compressed/uncompressed) * 100`.  Defined as `0` when
/// `uncompressed` is `0`, and clamped at `0` when `compressed` exceeds
/// `uncompressed`.
pub open spec fn ratio_pct(compressed: u64, uncompressed: u64) -> int {
    if uncompressed == 0 || compressed >= uncompressed {
        0
    } else {
        (uncompressed - compressed) * 100 / (uncompressed as int)
    }
}

/// Computes the compression-ratio percentage of one chunk.
pub fn compression_ratio_pct(compressed: u64, uncompressed: u64) -> (r: u64)
    ensures
        r == ratio_pct(compressed, uncompressed),
{
    if uncompressed == 0 || compressed >= uncompressed {
        0
    } else {
        let num: u128 = (uncompressed - compressed) as u128 * 100;
        let q: u128 = num / (uncompressed as u128);
        proof {
            let n = (uncompressed - compressed) * 100int;
            let u = uncompressed as int;
            assert(q == n / u);
            assert(n / u <= 100) by (nonlinear_arith)
                requires
                    1 <= u,
                    0 <= n <= 100 * u,
            ;
        }
        q as u64
    }
}

/// The compression ratio is `0` when the uncompressed size is `0`; it never
/// goes below `0`; whenever anything was actually stored (`compressed > 0`)
/// and `compressed <= uncompressed` it lies in `[0, 100)`; and it is `0`
/// exactly when nothing was saved or less than one percent was saved.
pub proof fn lemma_ratio_bounds(compressed: u64, uncompressed: u64)
    requires
        compressed <= uncompressed,
    ensures
        uncompressed == 0 ==> ratio_pct(compressed, uncompressed) == 0,
        0 <= ratio_pct(compressed, uncompressed),
        compressed > 0 ==> ratio_pct(compressed, uncompressed) < 100,
        ratio_pct(compressed, uncompressed) == 0 <==> (compressed >= uncompressed || (uncompressed
            - compressed) * 100 < uncompressed),
{
    if uncompressed > 0 && compressed < uncompressed {
        let n = (uncompressed - compressed) * 100int;
        let u = uncompressed as int;
        assert(0 <= n / u && (compressed > 0 ==> n / u < 100) && (n / u == 0 <==> n < u))
            by (nonlinear_arith)
            requires
                1 <= u,
                0 <= n,
                n == (u - compressed) * 100,
                compressed >= 0,
                compressed > 0 ==> n <= 100 * u - 100,
        ;
    }
}

} // verus!
