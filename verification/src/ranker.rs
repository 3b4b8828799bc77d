//! The retrieval ranker: cosine similarity between embedding vectors and the
//! ordering of text segments by similarity to a query.
//!
//! Embedding components are fixed-point values: the real component `x` is
//! stored as the 32-bit integer nearest `x * 65536`. Similarity is computed
//! exactly over these integers — `dot(a,b) * 65536 / isqrt(|a|² * |b|²)`,
//! and `0` when either vector has zero norm (the documented zero-vector
//! policy, not an error) — so the similarity of a vector with itself is
//! exactly `SIMILARITY_ONE`, and by the Cauchy–Schwarz inequality no
//! similarity exceeds it.

use vstd::prelude::*;

use vstd::arithmetic::div_mod::{
    lemma_div_is_ordered, lemma_div_multiples_vanish, lemma_div_pos_is_pos,
};

verus! {

/// The fixed-point scale: the similarity of a nonzero vector with itself.
pub const SIMILARITY_ONE: i64 = 65536;

/// Largest magnitude an embedding component may have (the fixed-point
/// representation of 128.0); keeps every intermediate product in range.
pub const MAX_COMPONENT: i32 = 8388607;

/// Largest supported embedding dimensionality.
pub const MAX_DIM: usize = 131072;

/// `MAX_COMPONENT * MAX_COMPONENT`: largest magnitude of a single product.
pub const COMPONENT_SQ_BOUND: i128 = 70368727400449;

/// `MAX_DIM * COMPONENT_SQ_BOUND`: largest magnitude of a dot product.
pub const DOT_ABS_BOUND: i128 = 9223369837831651328;

/// A representable embedding: bounded dimensionality, bounded components.
pub open spec fn wf_embedding(a: Seq<i32>) -> bool {
    &&& a.len() <= MAX_DIM
    &&& forall|i: int| 0 <= i < a.len() ==> -MAX_COMPONENT <= #[trigger] a[i] <= MAX_COMPONENT
}

/// Dot product over the common prefix of the two vectors.
pub open spec fn spec_dot(a: Seq<i32>, b: Seq<i32>) -> int
    decreases a.len(),
{
    if a.len() == 0 || b.len() == 0 {
        0
    } else {
        a[0] * b[0] + spec_dot(a.drop_first(), b.drop_first())
    }
}

/// Squared Euclidean norm.
pub open spec fn spec_norm_sq(a: Seq<i32>) -> int {
    spec_dot(a, a)
}

pub proof fn lemma_norm_sq_nonneg(a: Seq<i32>)
    ensures
        spec_norm_sq(a) >= 0,
    decreases a.len(),
{
    if a.len() > 0 {
        lemma_norm_sq_nonneg(a.drop_first());
        assert(a[0] * a[0] >= 0) by (nonlinear_arith);
    }
}

/// The exact integer square root: the largest `r` with `r * r <= n`.
pub open spec fn spec_isqrt(n: int) -> int
    decreases n,
{
    if n <= 0 {
        0
    } else {
        let r = spec_isqrt(n - 1);
        if (r + 1) * (r + 1) <= n {
            r + 1
        } else {
            r
        }
    }
}

pub proof fn lemma_isqrt_bounds(n: int)
    requires
        n >= 0,
    ensures
        spec_isqrt(n) >= 0,
        spec_isqrt(n) * spec_isqrt(n) <= n,
        (spec_isqrt(n) + 1) * (spec_isqrt(n) + 1) > n,
    decreases n,
{
    if n > 0 {
        lemma_isqrt_bounds(n - 1);
        let r = spec_isqrt(n - 1);
        if (r + 1) * (r + 1) <= n {
            assert((r + 2) * (r + 2) > n) by (nonlinear_arith)
                requires
                    r >= 0,
                    (r + 1) * (r + 1) > n - 1,
            ;
        }
    }
}

pub proof fn lemma_isqrt_unique(n: int, r: int)
    requires
        n >= 0,
        r >= 0,
        r * r <= n,
        (r + 1) * (r + 1) > n,
    ensures
        r == spec_isqrt(n),
{
    lemma_isqrt_bounds(n);
    let s = spec_isqrt(n);
    if r < s {
        assert((r + 1) * (r + 1) <= s * s) by (nonlinear_arith)
            requires
                0 <= r + 1 <= s,
        ;
    }
    if s < r {
        assert((s + 1) * (s + 1) <= r * r) by (nonlinear_arith)
            requires
                0 <= s + 1 <= r,
        ;
    }
}

/// Computes the dot product of two embeddings; exact, and bounded by the
/// dimensionality times the largest component product.
pub fn dot_product(a: &Vec<i32>, b: &Vec<i32>) -> (r: i128)
    requires
        wf_embedding(a@),
        wf_embedding(b@),
    ensures
        r as int == spec_dot(a@, b@),
        -DOT_ABS_BOUND <= r <= DOT_ABS_BOUND,
{
    let la = a.len();
    let lb = b.len();
    let m = if la < lb {
        la
    } else {
        lb
    };
    let mut acc: i128 = 0;
    let mut i: usize = 0;
    assert(a@.skip(0) == a@);
    assert(b@.skip(0) == b@);
    while i < m
        invariant
            wf_embedding(a@),
            wf_embedding(b@),
            m <= a@.len(),
            m <= b@.len(),
            m == a@.len() || m == b@.len(),
            i <= m,
            acc as int + spec_dot(a@.skip(i as int), b@.skip(i as int)) == spec_dot(a@, b@),
            -(i as int) * COMPONENT_SQ_BOUND <= acc as int <= (i as int) * COMPONENT_SQ_BOUND,
        decreases m - i,
    {
        proof {
            assert(-70368727400449 <= (a@[i as int] as int) * (b@[i as int] as int)
                <= 70368727400449) by (nonlinear_arith)
                requires
                    -8388607 <= a@[i as int] as int <= 8388607,
                    -8388607 <= b@[i as int] as int <= 8388607,
            ;
            assert(a@.skip(i as int).drop_first() =~= a@.skip(i + 1));
            assert(b@.skip(i as int).drop_first() =~= b@.skip(i + 1));
            assert(a@.skip(i as int)[0] == a@[i as int]);
            assert(b@.skip(i as int)[0] == b@[i as int]);
            assert(spec_dot(a@.skip(i as int), b@.skip(i as int)) == a@[i as int] * b@[i as int]
                + spec_dot(a@.skip(i + 1), b@.skip(i + 1)));
        }
        let prod: i128 = (a[i] as i128) * (b[i] as i128);
        acc = acc + prod;
        i += 1;
    }
    proof {
        assert(spec_dot(a@.skip(m as int), b@.skip(m as int)) == 0);
        assert((m as int) * COMPONENT_SQ_BOUND <= (MAX_DIM as int) * COMPONENT_SQ_BOUND);
    }
    acc
}

/// Computes the exact integer square root of `n` by bisection.
pub fn isqrt_u128(n: u128) -> (r: u128)
    ensures
        r as int == spec_isqrt(n as int),
        (r as int) * (r as int) <= n as int,
        (r as int + 1) * (r as int + 1) > n as int,
{
    let mut lo: u128 = 0;
    let mut hi: u128 = 0x1_0000_0000_0000_0000;
    proof {
        assert((0x1_0000_0000_0000_0000 as int) * (0x1_0000_0000_0000_0000 as int) > u128::MAX
            as int) by (nonlinear_arith);
    }
    while lo + 1 < hi
        invariant
            lo < hi,
            hi <= 0x1_0000_0000_0000_0000,
            (lo as int) * (lo as int) <= n as int,
            (hi as int) * (hi as int) > n as int,
        decreases hi - lo,
    {
        let mid = lo + (hi - lo) / 2;
        proof {
            assert((mid as int) * (mid as int) <= (0xffff_ffff_ffff_ffff as int) * (
            0xffff_ffff_ffff_ffff as int)) by (nonlinear_arith)
                requires
                    0 <= mid as int <= 0xffff_ffff_ffff_ffff,
            ;
            assert((0xffff_ffff_ffff_ffff as int) * (0xffff_ffff_ffff_ffff as int) < u128::MAX
                as int) by (nonlinear_arith);
        }
        if mid * mid <= n {
            lo = mid;
        } else {
            hi = mid;
        }
    }
    proof {
        lemma_isqrt_unique(n as int, lo as int);
    }
    lo
}

proof fn lemma_cs_equal(a: Seq<i32>, b: Seq<i32>)
    requires
        a.len() == b.len(),
    ensures
        spec_dot(a, b) * spec_dot(a, b) <= spec_dot(a, a) * spec_dot(b, b),
    decreases a.len(),
{
    if a.len() == 0 {
    } else {
        let a1 = a.drop_first();
        let b1 = b.drop_first();
        lemma_cs_equal(a1, b1);
        lemma_norm_sq_nonneg(a1);
        lemma_norm_sq_nonneg(b1);
        let x = a[0] as int;
        let y = b[0] as int;
        let dd = spec_dot(a1, b1);
        let qa = spec_dot(a1, a1);
        let qb = spec_dot(b1, b1);
        // 2*x*y*dd <= x*x*qb + y*y*qa, from dd*dd <= qa*qb
        if qa > 0 {
            assert(qa * (x * x * qb + y * y * qa - 2 * x * y * dd) >= 0) by (nonlinear_arith)
                requires
                    qa >= 0,
                    dd * dd <= qa * qb,
            ;
            assert(x * x * qb + y * y * qa - 2 * x * y * dd >= 0) by (nonlinear_arith)
                requires
                    qa > 0,
                    qa * (x * x * qb + y * y * qa - 2 * x * y * dd) >= 0,
            ;
        } else {
            assert(x * x * qb + y * y * qa - 2 * x * y * dd >= 0) by (nonlinear_arith)
                requires
                    dd * dd <= qa * qb,
                    qa == 0,
                    qb >= 0,
            ;
        }
        assert((x * y + dd) * (x * y + dd) == x * x * y * y + 2 * x * y * dd + dd * dd)
            by (nonlinear_arith);
        assert((x * x + qa) * (y * y + qb) == x * x * y * y + x * x * qb + y * y * qa + qa * qb)
            by (nonlinear_arith);
        assert((x * y + dd) * (x * y + dd) <= (x * x + qa) * (y * y + qb));
    }
}

proof fn lemma_dot_truncate(a: Seq<i32>, b: Seq<i32>, m: int)
    requires
        m == if a.len() <= b.len() {
            a.len() as int
        } else {
            b.len() as int
        },
    ensures
        spec_dot(a, b) == spec_dot(a.take(m), b.take(m)),
        a.take(m).len() == b.take(m).len(),
    decreases a.len(),
{
    if a.len() == 0 || b.len() == 0 {
        assert(a.take(m).len() == 0 || b.take(m).len() == 0);
    } else {
        lemma_dot_truncate(a.drop_first(), b.drop_first(), m - 1);
        assert(a.take(m).drop_first() =~= a.drop_first().take(m - 1));
        assert(b.take(m).drop_first() =~= b.drop_first().take(m - 1));
        assert(a.take(m)[0] == a[0] && b.take(m)[0] == b[0]);
    }
}

proof fn lemma_norm_take(a: Seq<i32>, m: int)
    requires
        0 <= m <= a.len(),
    ensures
        spec_norm_sq(a.take(m)) <= spec_norm_sq(a),
    decreases a.len(),
{
    if m == 0 {
        assert(a.take(0).len() == 0);
        lemma_norm_sq_nonneg(a);
    } else {
        lemma_norm_take(a.drop_first(), m - 1);
        assert(a.take(m).drop_first() =~= a.drop_first().take(m - 1));
        assert(a.take(m)[0] == a[0]);
    }
}

/// The Cauchy–Schwarz inequality: the square of a dot product never exceeds
/// the product of the squared norms.
pub proof fn lemma_cauchy_schwarz(a: Seq<i32>, b: Seq<i32>)
    ensures
        spec_dot(a, b) * spec_dot(a, b) <= spec_norm_sq(a) * spec_norm_sq(b),
{
    let m = if a.len() <= b.len() {
        a.len() as int
    } else {
        b.len() as int
    };
    lemma_dot_truncate(a, b, m);
    lemma_cs_equal(a.take(m), b.take(m));
    lemma_norm_take(a, m);
    lemma_norm_take(b, m);
    lemma_norm_sq_nonneg(a.take(m));
    lemma_norm_sq_nonneg(b.take(m));
    let d = spec_dot(a, b);
    assert(spec_norm_sq(a.take(m)) * spec_norm_sq(b.take(m)) <= spec_norm_sq(a) * spec_norm_sq(b))
        by (nonlinear_arith)
        requires
            0 <= spec_norm_sq(a.take(m)) <= spec_norm_sq(a),
            0 <= spec_norm_sq(b.take(m)) <= spec_norm_sq(b),
    ;
}

/// Cosine similarity over fixed-point embeddings, scaled by
/// `SIMILARITY_ONE`: `dot(a,b) * SIMILARITY_ONE / isqrt(|a|²·|b|²)`, rounded
/// toward zero, and `0` when either norm is zero.
pub open spec fn spec_cosine(a: Seq<i32>, b: Seq<i32>) -> int {
    let qa = spec_norm_sq(a);
    let qb = spec_norm_sq(b);
    if qa == 0 || qb == 0 {
        0
    } else {
        let d = spec_dot(a, b);
        let r = spec_isqrt(qa * qb);
        if d >= 0 {
            (d * SIMILARITY_ONE) / r
        } else {
            -(((-d) * SIMILARITY_ONE) / r)
        }
    }
}

/// The zero-vector policy: similarity against a zero-norm vector is exactly
/// zero — no division is attempted.
pub proof fn lemma_cosine_zero_vector(a: Seq<i32>, z: Seq<i32>)
    requires
        spec_norm_sq(z) == 0,
    ensures
        spec_cosine(a, z) == 0,
        spec_cosine(z, a) == 0,
{
}

/// No similarity exceeds the similarity scale in magnitude.
pub proof fn lemma_cosine_bounds(a: Seq<i32>, b: Seq<i32>)
    ensures
        -(SIMILARITY_ONE as int) <= spec_cosine(a, b) <= SIMILARITY_ONE as int,
{
    let qa = spec_norm_sq(a);
    let qb = spec_norm_sq(b);
    if qa == 0 || qb == 0 {
    } else {
        lemma_norm_sq_nonneg(a);
        lemma_norm_sq_nonneg(b);
        lemma_cauchy_schwarz(a, b);
        let d = spec_dot(a, b);
        let p = qa * qb;
        assert(p > 0) by (nonlinear_arith)
            requires
                qa > 0,
                qb > 0,
                p == qa * qb,
        ;
        lemma_isqrt_bounds(p);
        let r = spec_isqrt(p);
        assert(r >= 1) by {
            if r == 0 {
                assert((r + 1) * (r + 1) == 1) by (nonlinear_arith)
                    requires
                        r == 0,
                ;
            }
        }
        let mag = if d >= 0 {
            d
        } else {
            -d
        };
        assert(mag * mag <= p) by (nonlinear_arith)
            requires
                d * d <= p,
                mag == if d >= 0 {
                    d
                } else {
                    -d
                },
        ;
        assert(mag <= r) by {
            if mag > r {
                assert(mag * mag >= (r + 1) * (r + 1)) by (nonlinear_arith)
                    requires
                        mag >= r + 1 >= 1,
                ;
            }
        }
        assert(mag * SIMILARITY_ONE <= r * SIMILARITY_ONE) by (nonlinear_arith)
            requires
                mag <= r,
        ;
        lemma_div_is_ordered(mag * SIMILARITY_ONE, r * SIMILARITY_ONE, r);
        lemma_div_multiples_vanish(SIMILARITY_ONE as int, r);
        lemma_div_pos_is_pos(mag * SIMILARITY_ONE, r);
        assert(mag * SIMILARITY_ONE >= 0) by (nonlinear_arith)
            requires
                mag >= 0,
        ;
        assert(0 <= (mag * SIMILARITY_ONE) / r <= SIMILARITY_ONE as int);
    }
}

/// A nonzero vector has similarity exactly `SIMILARITY_ONE` with itself.
pub proof fn lemma_cosine_self(a: Seq<i32>)
    requires
        spec_norm_sq(a) > 0,
    ensures
        spec_cosine(a, a) == SIMILARITY_ONE as int,
{
    let q = spec_norm_sq(a);
    assert(q * q > 0) by (nonlinear_arith)
        requires
            q > 0,
    ;
    assert((q + 1) * (q + 1) > q * q) by (nonlinear_arith)
        requires
            q > 0,
    ;
    assert(q * q <= q * q);
    lemma_isqrt_unique(q * q, q);
    lemma_div_multiples_vanish(SIMILARITY_ONE as int, q);
}

/// Computes the similarity of two embeddings; exact with respect to
/// `spec_cosine`, and always within the similarity scale.
pub fn cosine(a: &Vec<i32>, b: &Vec<i32>) -> (r: i64)
    requires
        wf_embedding(a@),
        wf_embedding(b@),
    ensures
        r as int == spec_cosine(a@, b@),
        -SIMILARITY_ONE <= r <= SIMILARITY_ONE,
{
    proof {
        lemma_norm_sq_nonneg(a@);
        lemma_norm_sq_nonneg(b@);
        lemma_cosine_bounds(a@, b@);
    }
    let qa = dot_product(a, a);
    let qb = dot_product(b, b);
    if qa == 0 || qb == 0 {
        return 0;
    }
    let d = dot_product(a, b);
    proof {
        assert((qa as int) * (qb as int) <= (DOT_ABS_BOUND as int) * (DOT_ABS_BOUND as int))
            by (nonlinear_arith)
            requires
                0 < qa as int <= DOT_ABS_BOUND as int,
                0 < qb as int <= DOT_ABS_BOUND as int,
        ;
        assert((DOT_ABS_BOUND as int) * (DOT_ABS_BOUND as int) < u128::MAX as int)
            by (nonlinear_arith);
        assert((qa as int) * (qb as int) > 0) by (nonlinear_arith)
            requires
                qa as int > 0,
                qb as int > 0,
        ;
    }
    let p: u128 = (qa as u128) * (qb as u128);
    let sq = isqrt_u128(p);
    proof {
        lemma_isqrt_bounds(p as int);
        assert(sq as int >= 1) by {
            if sq as int == 0 {
                assert((sq as int + 1) * (sq as int + 1) == 1) by (nonlinear_arith)
                    requires
                        sq as int == 0,
                ;
            }
        }
        lemma_cauchy_schwarz(a@, b@);
        let dd = d as int;
        let mag_s = if dd >= 0 {
            dd
        } else {
            -dd
        };
        assert(mag_s * mag_s <= p as int) by (nonlinear_arith)
            requires
                dd * dd <= p as int,
                mag_s == if dd >= 0 {
                    dd
                } else {
                    -dd
                },
        ;
        assert(mag_s <= sq as int) by {
            if mag_s > sq as int {
                assert(mag_s * mag_s >= (sq as int + 1) * (sq as int + 1)) by (nonlinear_arith)
                    requires
                        mag_s >= sq as int + 1 >= 1,
                ;
            }
        }
    }
    let mag: u128 = if d >= 0 {
        d as u128
    } else {
        (-d) as u128
    };
    let q: u128 = (mag * (SIMILARITY_ONE as u128)) / sq;
    proof {
        assert(mag as int * (SIMILARITY_ONE as int) <= sq as int * (SIMILARITY_ONE as int))
            by (nonlinear_arith)
            requires
                mag as int <= sq as int,
        ;
        lemma_div_is_ordered(
            mag as int * (SIMILARITY_ONE as int),
            sq as int * (SIMILARITY_ONE as int),
            sq as int,
        );
        lemma_div_multiples_vanish(SIMILARITY_ONE as int, sq as int);
        lemma_div_pos_is_pos(mag as int * (SIMILARITY_ONE as int), sq as int);
    }
    if d >= 0 {
        q as i64
    } else {
        -(q as i64)
    }
}

} // verus!

use vstd::seq_lib::group_to_multiset_ensures;
use vstd::seq_lib::to_multiset_insert;

verus! {

/// A text segment with its embedding, produced upstream by splitting a
/// document into fixed-size token chunks and embedding each chunk.
pub struct Segment {
    pub text: String,
    pub embedding: Vec<i32>,
}

/// Every segment's embedding is representable.
pub open spec fn wf_segments(segs: Seq<Segment>) -> bool {
    forall|i: int| 0 <= i < segs.len() ==> wf_embedding(#[trigger] segs[i].embedding@)
}

/// The similarity of segment `i` to the query.
pub open spec fn seg_cos(q: Seq<i32>, segs: Seq<Segment>, i: int) -> int {
    spec_cosine(q, segs[i].embedding@)
}

/// One more than the largest segment position, so that a sort key determines
/// both the similarity and the position.
pub const INDEX_SPAN: u128 = 0x1_0000_0000_0000_0000;

/// The sort key of segment `i`: ascending in key is descending in similarity,
/// with ties broken by the original position.
pub open spec fn spec_rank_key(q: Seq<i32>, segs: Seq<Segment>, i: int) -> int {
    (SIMILARITY_ONE - seg_cos(q, segs, i)) * (INDEX_SPAN as int) + i
}

/// Segment `i` is ranked ahead of segment `j`: strictly more similar to the
/// query, or equally similar and earlier in the original order.
pub open spec fn rank_before(q: Seq<i32>, segs: Seq<Segment>, i: int, j: int) -> bool {
    ||| seg_cos(q, segs, i) > seg_cos(q, segs, j)
    ||| (seg_cos(q, segs, i) == seg_cos(q, segs, j) && i < j)
}

proof fn lemma_key_lt_rank_before(q: Seq<i32>, segs: Seq<Segment>, i: int, j: int)
    requires
        0 <= i < segs.len(),
        0 <= j < segs.len(),
        i < INDEX_SPAN as int,
        j < INDEX_SPAN as int,
        spec_rank_key(q, segs, i) < spec_rank_key(q, segs, j),
    ensures
        rank_before(q, segs, i, j),
{
    let ci = seg_cos(q, segs, i);
    let cj = seg_cos(q, segs, j);
    if ci < cj {
        assert((SIMILARITY_ONE - ci) * (INDEX_SPAN as int) >= (SIMILARITY_ONE - cj + 1) * (
        INDEX_SPAN as int)) by (nonlinear_arith)
            requires
                SIMILARITY_ONE - ci >= SIMILARITY_ONE - cj + 1,
        ;
        assert((SIMILARITY_ONE - cj + 1) * (INDEX_SPAN as int) == (SIMILARITY_ONE - cj) * (
        INDEX_SPAN as int) + INDEX_SPAN as int) by (nonlinear_arith);
        assert(false);
    } else if ci == cj {
        assert(i < j);
    }
}

proof fn lemma_key_decomposes(q: Seq<i32>, segs: Seq<Segment>, i: int)
    requires
        0 <= i < segs.len(),
        i < INDEX_SPAN as int,
    ensures
        0 <= spec_rank_key(q, segs, i),
        spec_rank_key(q, segs, i) % (INDEX_SPAN as int) == i,
        spec_rank_key(q, segs, i) / (INDEX_SPAN as int) == SIMILARITY_ONE - seg_cos(q, segs, i),
{
    lemma_cosine_bounds(q, segs[i].embedding@);
    let hi = SIMILARITY_ONE - seg_cos(q, segs, i);
    assert(hi * (INDEX_SPAN as int) >= 0) by (nonlinear_arith)
        requires
            hi >= 0,
    ;
    vstd::arithmetic::div_mod::lemma_fundamental_div_mod_converse(
        spec_rank_key(q, segs, i),
        INDEX_SPAN as int,
        hi,
        i,
    );
}

/// The sort keys are pairwise distinct: a key determines its position.
proof fn lemma_keys_distinct(q: Seq<i32>, segs: Seq<Segment>, i: int, j: int)
    requires
        0 <= i < segs.len(),
        0 <= j < segs.len(),
        i != j,
        segs.len() <= INDEX_SPAN as int,
    ensures
        spec_rank_key(q, segs, i) != spec_rank_key(q, segs, j),
{
    lemma_key_decomposes(q, segs, i);
    lemma_key_decomposes(q, segs, j);
}

/// Computes the sort key of every segment.
fn rank_keys(query: &Vec<i32>, segments: &Vec<Segment>) -> (r: Vec<u128>)
    requires
        wf_embedding(query@),
        wf_segments(segments@),
    ensures
        r@.len() == segments@.len(),
        forall|i: int| 0 <= i < r@.len() ==> #[trigger] r@[i] as int == spec_rank_key(
            query@,
            segments@,
            i,
        ),
{
    let n = segments.len();
    let mut r: Vec<u128> = Vec::new();
    let mut i: usize = 0;
    while i < n
        invariant
            wf_embedding(query@),
            wf_segments(segments@),
            n == segments@.len(),
            i <= n,
            r@.len() == i,
            forall|k: int| 0 <= k < i ==> #[trigger] r@[k] as int == spec_rank_key(
                query@,
                segments@,
                k,
            ),
        decreases n - i,
    {
        let c = cosine(query, &segments[i].embedding);
        let key: u128 = ((SIMILARITY_ONE - c) as u128) * INDEX_SPAN + (i as u128);
        r.push(key);
        i += 1;
    }
    r
}

/// Ascending order.
pub open spec fn key_sorted(s: Seq<u128>) -> bool {
    forall|i: int, j: int| 0 <= i < j < s.len() ==> s[i] <= s[j]
}

/// Sorts the keys ascending; the result holds exactly the input keys.
fn sort_keys(input: &Vec<u128>) -> (r: Vec<u128>)
    ensures
        key_sorted(r@),
        r@.to_multiset() == input@.to_multiset(),
        r@.len() == input@.len(),
{
    broadcast use group_to_multiset_ensures;
    broadcast use to_multiset_insert;

    let n = input.len();
    let mut out: Vec<u128> = Vec::new();
    let mut idx: usize = 0;
    assert(input@.take(0) =~= Seq::<u128>::empty());
    while idx < n
        invariant
            n == input@.len(),
            idx <= n,
            out@.len() == idx,
            key_sorted(out@),
            out@.to_multiset() == input@.take(idx as int).to_multiset(),
        decreases n - idx,
    {
        let x = input[idx];
        let mut p: usize = 0;
        while p < out.len() && out[p] <= x
            invariant
                p <= out@.len(),
                forall|k: int| 0 <= k < p ==> out@[k] <= x,
            decreases out@.len() - p,
        {
            p += 1;
        }
        let ghost old_out = out@;
        out.insert(p, x);
        proof {
            old_out.insert_ensures(p as int, x);
            assert(key_sorted(out@)) by {
                assert forall|i: int, j: int| 0 <= i < j < out@.len() implies out@[i] <= out@[j] by {
                    if j < p {
                    } else if i > p {
                    } else if i == p && j > p {
                        assert(out@[j] == old_out[j - 1]);
                        assert(old_out[j - 1] > x || p as int == old_out.len());
                    } else if j == p {
                        assert(out@[i] == old_out[i]);
                    } else {
                        // i < p < j
                        assert(out@[i] == old_out[i] && out@[j] == old_out[j - 1]);
                        assert(old_out[i] <= x);
                        assert(old_out[j - 1] >= x || j - 1 < p);
                    }
                }
            }
            to_multiset_insert(old_out, p as int, x);
            assert(out@.to_multiset() == old_out.to_multiset().insert(x));
            input@.take(idx as int).to_multiset_ensures();
            assert(input@.take(idx as int).push(x).to_multiset() == input@.take(
                idx as int,
            ).to_multiset().insert(x));
            assert(input@.take(idx as int).push(x) =~= input@.take(idx + 1));
            assert(out@.to_multiset() == input@.take(idx + 1).to_multiset());
        }
        idx += 1;
    }
    proof {
        assert(input@.take(n as int) =~= input@);
    }
    out
}

/// `order` ranks the segments: it is a permutation of all segment positions,
/// arranged by descending similarity to the query, ties in original order.
pub open spec fn valid_rank_order(q: Seq<i32>, segs: Seq<Segment>, order: Seq<usize>) -> bool {
    &&& order.len() == segs.len()
    &&& forall|k: int| 0 <= k < order.len() ==> (#[trigger] order[k] as int) < segs.len()
    &&& forall|k1: int, k2: int|
        0 <= k1 < k2 < order.len() ==> rank_before(q, segs, #[trigger] order[k1] as int, #[trigger] order[k2] as int)
    &&& forall|i: usize| (i as int) < segs.len() ==> order.contains(i)
}

/// Orders the segments by descending similarity to the query; equal
/// similarities keep their original relative order (the sort is stable).
pub fn rank_order(query: &Vec<i32>, segments: &Vec<Segment>) -> (r: Vec<usize>)
    requires
        wf_embedding(query@),
        wf_segments(segments@),
    ensures
        valid_rank_order(query@, segments@, r@),
{
    broadcast use group_to_multiset_ensures;

    let n_seg = segments.len();
    let keys = rank_keys(query, segments);
    proof {
        assert(segments@.len() == n_seg as int && segments@.len() <= INDEX_SPAN as int);
        assert forall|i: int, j: int|
            0 <= i < keys@.len() && 0 <= j < keys@.len() && i != j implies keys@[i] != keys@[j] by {
            lemma_keys_distinct(query@, segments@, i, j);
        }
        assert(keys@.no_duplicates());
        keys@.lemma_multiset_has_no_duplicates();
    }
    let sorted_keys = sort_keys(&keys);
    proof {
        sorted_keys@.lemma_multiset_has_no_duplicates_conv();
    }
    let n = sorted_keys.len();
    let mut order: Vec<usize> = Vec::new();
    let mut k: usize = 0;
    while k < n
        invariant
            wf_embedding(query@),
            wf_segments(segments@),
            keys@.len() == segments@.len(),
            forall|i: int| 0 <= i < keys@.len() ==> #[trigger] keys@[i] as int == spec_rank_key(
                query@,
                segments@,
                i,
            ),
            key_sorted(sorted_keys@),
            sorted_keys@.to_multiset() == keys@.to_multiset(),
            sorted_keys@.no_duplicates(),
            n == sorted_keys@.len(),
            n == segments@.len(),
            k <= n,
            order@.len() == k,
            forall|k1: int| 0 <= k1 < k ==> (#[trigger] order@[k1] as int) < segs_len_sp(segments@)
                && spec_rank_key(query@, segments@, order@[k1] as int) == sorted_keys@[k1] as int,
        decreases n - k,
    {
        let key = sorted_keys[k];
        proof {
            sorted_keys@.to_multiset_ensures();
            keys@.to_multiset_ensures();
            assert(sorted_keys@.contains(key));
            assert(sorted_keys@.to_multiset().count(key) > 0);
            assert(keys@.to_multiset().count(key) > 0);
            assert(keys@.contains(key));
            let i = choose|i: int| 0 <= i < keys@.len() && keys@[i] == key;
            lemma_key_decomposes(query@, segments@, i);
            assert(key as int % (INDEX_SPAN as int) == i);
        }
        let idx128 = key % INDEX_SPAN;
        let idx = idx128 as usize;
        order.push(idx);
        k += 1;
    }
    proof {
        // pairwise order: strictly ascending keys give the ranking relation
        assert forall|k1: int, k2: int|
            0 <= k1 < k2 < order@.len() implies rank_before(
            query@,
            segments@,
            order@[k1] as int,
            order@[k2] as int,
        ) by {
            assert(sorted_keys@[k1] <= sorted_keys@[k2]);
            assert(sorted_keys@[k1] != sorted_keys@[k2]);
            lemma_key_lt_rank_before(query@, segments@, order@[k1] as int, order@[k2] as int);
        }
        // every position is ranked somewhere
        sorted_keys@.to_multiset_ensures();
        keys@.to_multiset_ensures();
        assert(segments@.len() == n_seg as int && segments@.len() <= INDEX_SPAN as int);
        assert forall|i: usize| (i as int) < segments@.len() implies order@.contains(i) by {
            assert(keys@[i as int] == spec_rank_key(query@, segments@, i as int));
            assert(keys@.contains(keys@[i as int]));
            assert(keys@.to_multiset().count(keys@[i as int]) > 0);
            assert(sorted_keys@.to_multiset().count(keys@[i as int]) > 0);
            assert(sorted_keys@.contains(keys@[i as int]));
            let k1 = choose|k1: int|
                0 <= k1 < sorted_keys@.len() && sorted_keys@[k1] == keys@[i as int];
            lemma_key_decomposes(query@, segments@, i as int);
            lemma_keys_distinct_all(query@, segments@, order@[k1] as int, i as int);
            assert(order@[k1] == i);
        }
    }
    order
}

/// Helper naming the segment count in spec position.
pub open spec fn segs_len_sp(segs: Seq<Segment>) -> int {
    segs.len() as int
}

proof fn lemma_keys_distinct_all(q: Seq<i32>, segs: Seq<Segment>, i: int, j: int)
    requires
        0 <= i < segs.len(),
        0 <= j < segs.len(),
        segs.len() <= INDEX_SPAN as int,
        spec_rank_key(q, segs, i) == spec_rank_key(q, segs, j),
    ensures
        i == j,
{
    if i != j {
        lemma_keys_distinct(q, segs, i, j);
    }
}

} // verus!

verus! {

/// Ranks the segments by descending similarity to the query and returns the
/// texts of the top `top_k`, in ranked order; all of them, still ranked, when
/// `top_k` exceeds the segment count.
pub fn rank(query: &Vec<i32>, segments: &Vec<Segment>, top_k: usize) -> (r: Vec<String>)
    requires
        wf_embedding(query@),
        wf_segments(segments@),
    ensures
        r@.len() == if top_k <= segments@.len() {
            top_k as int
        } else {
            segs_len_sp(segments@)
        },
        exists|order: Seq<usize>|
            #[trigger] valid_rank_order(query@, segments@, order) && (forall|k: int|
                0 <= k < r@.len() ==> r@[k] == segments@[order[k] as int].text),
{
    let order = rank_order(query, segments);
    let count = if top_k <= segments.len() {
        top_k
    } else {
        segments.len()
    };
    let mut r: Vec<String> = Vec::new();
    let mut k: usize = 0;
    while k < count
        invariant
            valid_rank_order(query@, segments@, order@),
            count <= order@.len(),
            count <= segments@.len(),
            k <= count,
            r@.len() == k,
            forall|k1: int| 0 <= k1 < k ==> r@[k1] == segments@[#[trigger] order@[k1] as int].text,
        decreases count - k,
    {
        let idx = order[k];
        r.push(segments[idx].text.clone());
        k += 1;
    }
    proof {
        assert(valid_rank_order(query@, segments@, order@) && (forall|k1: int|
            0 <= k1 < r@.len() ==> r@[k1] == segments@[order@[k1] as int].text));
    }
    r
}

/// Ranking correctness: along a valid ranking order, similarity to the query
/// never increases.
pub proof fn lemma_rank_nonincreasing(q: Seq<i32>, segs: Seq<Segment>, order: Seq<usize>)
    requires
        valid_rank_order(q, segs, order),
    ensures
        forall|k1: int, k2: int|
            0 <= k1 <= k2 < order.len() ==> seg_cos(q, segs, #[trigger] order[k1] as int)
                >= seg_cos(q, segs, #[trigger] order[k2] as int),
{
    assert forall|k1: int, k2: int| 0 <= k1 <= k2 < order.len() implies seg_cos(
        q,
        segs,
        order[k1] as int,
    ) >= seg_cos(q, segs, order[k2] as int) by {
        if k1 < k2 {
            assert(rank_before(q, segs, order[k1] as int, order[k2] as int));
        }
    }
}

/// When some segment attains the maximal similarity, the first ranked
/// segment attains it too.
pub proof fn lemma_max_similarity_ranks_first(
    q: Seq<i32>,
    segs: Seq<Segment>,
    order: Seq<usize>,
    j: int,
)
    requires
        valid_rank_order(q, segs, order),
        segs.len() <= usize::MAX,
        0 <= j < segs.len(),
        seg_cos(q, segs, j) == SIMILARITY_ONE as int,
    ensures
        order.len() > 0,
        seg_cos(q, segs, order[0] as int) == SIMILARITY_ONE as int,
{
    let ju = j as usize;
    assert(order.contains(ju));
    assert(exists|k: int| 0 <= k < order.len() && order[k] == ju);
    let k = choose|k: int| 0 <= k < order.len() && order[k] == ju;
    assert(order[k] as int == j);
    assert(seg_cos(q, segs, order[k] as int) == SIMILARITY_ONE as int);
    if k == 0 {
        assert(order[0] as int == j);
    } else {
        assert(rank_before(q, segs, order[0] as int, order[k] as int));
        lemma_cosine_bounds(q, segs[order[0] as int].embedding@);
    }
}

/// A segment whose embedding equals a nonzero query has similarity exactly
/// `SIMILARITY_ONE` — and so does whatever segment is ranked first: a segment
/// identical to the query always ranks at the maximal similarity.
pub proof fn lemma_identical_query_ranks_first(
    q: Seq<i32>,
    segs: Seq<Segment>,
    order: Seq<usize>,
    j: int,
)
    requires
        valid_rank_order(q, segs, order),
        segs.len() <= usize::MAX,
        0 <= j < segs.len(),
        segs[j].embedding@ == q,
        spec_norm_sq(q) > 0,
    ensures
        order.len() > 0,
        seg_cos(q, segs, j) == SIMILARITY_ONE as int,
        seg_cos(q, segs, order[0] as int) == SIMILARITY_ONE as int,
{
    lemma_cosine_self(q);
    lemma_max_similarity_ranks_first(q, segs, order, j);
}

proof fn lemma_dot_scaled(a: Seq<i32>, b: Seq<i32>, c: int)
    requires
        a.len() == b.len(),
        forall|i: int| 0 <= i < a.len() ==> (#[trigger] b[i]) as int == c * a[i],
    ensures
        spec_dot(a, b) == c * spec_dot(a, a),
        spec_dot(b, b) == c * c * spec_dot(a, a),
    decreases a.len(),
{
    if a.len() == 0 {
        assert(c * 0 == 0) by (nonlinear_arith);
        assert(c * c * 0 == 0) by (nonlinear_arith);
    } else {
        let a1 = a.drop_first();
        let b1 = b.drop_first();
        assert forall|i: int| 0 <= i < a1.len() implies (#[trigger] b1[i]) as int == c * a1[i] by {
            assert(b1[i] == b[i + 1]);
            assert(a1[i] == a[i + 1]);
        }
        lemma_dot_scaled(a1, b1, c);
        let x = a[0] as int;
        let da = spec_dot(a1, a1);
        assert(x * (c * x) + c * da == c * (x * x + da)) by (nonlinear_arith);
        assert((c * x) * (c * x) + c * c * da == c * c * (x * x + da)) by (nonlinear_arith);
    }
}

/// A vector that is a positive integer multiple of a nonzero vector has
/// similarity exactly `SIMILARITY_ONE` with it: similarity measures
/// direction, not magnitude.
pub proof fn lemma_cosine_parallel(a: Seq<i32>, b: Seq<i32>, c: int)
    requires
        a.len() == b.len(),
        c > 0,
        forall|i: int| 0 <= i < a.len() ==> (#[trigger] b[i]) as int == c * a[i],
        spec_norm_sq(a) > 0,
    ensures
        spec_cosine(a, b) == SIMILARITY_ONE as int,
{
    lemma_dot_scaled(a, b, c);
    let q = spec_norm_sq(a);
    assert(c * q > 0) by (nonlinear_arith)
        requires
            c > 0,
            q > 0,
    ;
    assert(c * c * q > 0) by (nonlinear_arith)
        requires
            c > 0,
            q > 0,
    ;
    assert(q * (c * c * q) == (c * q) * (c * q)) by (nonlinear_arith);
    assert((c * q + 1) * (c * q + 1) > (c * q) * (c * q)) by (nonlinear_arith)
        requires
            c * q > 0,
    ;
    lemma_isqrt_unique(q * (c * c * q), c * q);
    lemma_div_multiples_vanish(SIMILARITY_ONE as int, c * q);
}

/// A segment parallel to a nonzero query (a positive integer multiple of it)
/// attains the maximal similarity, and so does whatever segment ranks first.
pub proof fn lemma_parallel_query_ranks_first(
    q: Seq<i32>,
    segs: Seq<Segment>,
    order: Seq<usize>,
    j: int,
    c: int,
)
    requires
        valid_rank_order(q, segs, order),
        segs.len() <= usize::MAX,
        0 <= j < segs.len(),
        segs[j].embedding@.len() == q.len(),
        c > 0,
        forall|i: int| 0 <= i < q.len() ==> (#[trigger] segs[j].embedding@[i]) as int == c * q[i],
        spec_norm_sq(q) > 0,
    ensures
        order.len() > 0,
        seg_cos(q, segs, j) == SIMILARITY_ONE as int,
        seg_cos(q, segs, order[0] as int) == SIMILARITY_ONE as int,
{
    lemma_cosine_parallel(q, segs[j].embedding@, c);
    lemma_max_similarity_ranks_first(q, segs, order, j);
}

/// The texts joined with a blank-line separator.
pub open spec fn spec_join(ts: Seq<String>) -> Seq<char>
    decreases ts.len(),
{
    if ts.len() == 0 {
        Seq::empty()
    } else if ts.len() == 1 {
        ts[0]@
    } else {
        ts[0]@ + "\n\n"@ + spec_join(ts.drop_first())
    }
}

proof fn lemma_join_push(ts: Seq<String>, x: String)
    ensures
        spec_join(ts.push(x)) == if ts.len() == 0 {
            x@
        } else {
            spec_join(ts) + "\n\n"@ + x@
        },
    decreases ts.len(),
{
    if ts.len() == 0 {
        assert(ts.push(x)[0] == x);
        assert(ts.push(x).len() == 1);
    } else {
        lemma_join_push(ts.drop_first(), x);
        assert(ts.push(x).drop_first() =~= ts.drop_first().push(x));
        assert(ts.push(x)[0] == ts[0]);
        if ts.len() == 1 {
            assert(spec_join(ts.push(x)) == ts[0]@ + "\n\n"@ + spec_join(ts.drop_first().push(x)));
            assert(spec_join(ts.drop_first().push(x)) == x@);
        } else {
            assert(spec_join(ts.push(x)) == ts[0]@ + "\n\n"@ + (spec_join(ts.drop_first())
                + "\n\n"@ + x@));
            assert(ts[0]@ + "\n\n"@ + (spec_join(ts.drop_first()) + "\n\n"@ + x@) =~= (ts[0]@
                + "\n\n"@ + spec_join(ts.drop_first())) + "\n\n"@ + x@);
        }
    }
}

/// Concatenates the texts with a blank-line separator.
pub fn join_blank_line(texts: &Vec<String>) -> (r: String)
    ensures
        r@ == spec_join(texts@),
{
    let mut r = String::new();
    let n = texts.len();
    let mut i: usize = 0;
    while i < n
        invariant
            n == texts@.len(),
            i <= n,
            r@ == spec_join(texts@.take(i as int)),
        decreases n - i,
    {
        if i > 0 {
            r.append("\n\n");
        }
        r.append(texts[i].as_str());
        proof {
            lemma_join_push(texts@.take(i as int), texts@[i as int]);
            assert(texts@.take(i as int).push(texts@[i as int]) =~= texts@.take(i + 1));
            if i == 0 {
                assert(texts@.take(0 as int).len() == 0);
            }
        }
        i += 1;
    }
    proof {
        assert(texts@.take(n as int) =~= texts@);
    }
    r
}

/// Ranks the segments against the query and returns the top `top_n` texts as
/// one string, blank-line separated — the retrieval result handed back to a
/// caller (or to the model as a tool result).
pub fn retrieve_top(query: &Vec<i32>, segments: &Vec<Segment>, top_n: usize) -> (r: String)
    requires
        wf_embedding(query@),
        wf_segments(segments@),
    ensures
        exists|order: Seq<usize>|
            #[trigger] valid_rank_order(query@, segments@, order) && r@ == spec_join(
                order.take(
                    if top_n <= segments@.len() {
                        top_n as int
                    } else {
                        segs_len_sp(segments@)
                    },
                ).map_values(|u: usize| segments@[u as int].text),
            ),
{
    let ranked = rank(query, segments, top_n);
    let r = join_blank_line(&ranked);
    proof {
        let order = choose|order: Seq<usize>|
            #[trigger] valid_rank_order(query@, segments@, order) && (forall|k: int|
                0 <= k < ranked@.len() ==> ranked@[k] == segments@[order[k] as int].text);
        let cnt = if top_n <= segments@.len() {
            top_n as int
        } else {
            segs_len_sp(segments@)
        };
        assert(ranked@ =~= order.take(cnt).map_values(|u: usize| segments@[u as int].text));
    }
    r
}

/// Splits a token sequence into consecutive chunks of `segment_size` tokens
/// each; the last chunk holds the remainder. This is how a document is cut
/// into segments before each is decoded back to text and embedded.
pub fn chunk_tokens(tokens: &Vec<i32>, segment_size: usize) -> (r: Vec<Vec<i32>>)
    requires
        segment_size > 0,
    ensures
        forall|k: int|
            0 <= k < r@.len() ==> #[trigger] r@[k]@ == tokens@.subrange(
                k * (segment_size as int),
                if (k + 1) * (segment_size as int) <= tokens@.len() {
                    (k + 1) * (segment_size as int)
                } else {
                    tokens@.len() as int
                },
            ),
        tokens@.len() == 0 ==> r@.len() == 0,
        tokens@.len() > 0 ==> r@.len() >= 1 && (r@.len() - 1) * (segment_size as int)
            < tokens@.len() <= r@.len() * (segment_size as int),
{
    let n = tokens.len();
    let size = segment_size;
    let mut r: Vec<Vec<i32>> = Vec::new();
    let mut start: usize = 0;
    proof {
        assert(r@.len() * (size as int) == 0) by (nonlinear_arith)
            requires
                r@.len() == 0,
        ;
    }
    while start < n
        invariant
            n == tokens@.len(),
            size == segment_size,
            size > 0,
            start <= n,
            start < n ==> start == r@.len() * (size as int),
            start == n ==> (r@.len() == 0 && n == 0) || (r@.len() >= 1 && (r@.len() - 1) * (
            size as int) < n <= r@.len() * (size as int)),
            forall|k: int|
                0 <= k < r@.len() ==> #[trigger] r@[k]@ == tokens@.subrange(
                    k * (size as int),
                    if (k + 1) * (size as int) <= n {
                        (k + 1) * (size as int)
                    } else {
                        n as int
                    },
                ),
        decreases n - start,
    {
        let ghost big_l = r@.len() as int;
        let end = if size > n - start {
            n
        } else {
            start + size
        };
        let mut chunk: Vec<i32> = Vec::new();
        let mut j = start;
        while j < end
            invariant
                n == tokens@.len(),
                start <= j <= end <= n,
                chunk@ == tokens@.subrange(start as int, j as int),
            decreases end - j,
        {
            chunk.push(tokens[j]);
            proof {
                assert(tokens@.subrange(start as int, j as int).push(tokens@[j as int])
                    =~= tokens@.subrange(start as int, j + 1));
            }
            j += 1;
        }
        proof {
            assert((big_l + 1) * (size as int) == big_l * (size as int) + size as int)
                by (nonlinear_arith);
        }
        r.push(chunk);
        start = end;
    }
    proof {
        if n > 0 {
            assert(r@.len() >= 1);
        }
    }
    r
}

} // verus!

use vstd::arithmetic::power2::{lemma_pow2_pos, lemma_pow2_strictly_increases, pow2};

verus! {

/// The fixed-point value of an IEEE-754 single-precision bit pattern: the
/// float's value scaled by `SIMILARITY_ONE` and truncated toward zero, with
/// magnitudes beyond the representable range saturated at `MAX_COMPONENT`.
/// A payload of all ones in the exponent with a nonzero mantissa (not a
/// number) maps to zero; subnormals scale below one unit and also map to
/// zero.
pub open spec fn spec_fixed_of_bits(b: u32) -> int {
    let s = b >> 31;
    let e = (b >> 23) & 0xff;
    let m = b & 0x7fffff;
    let mag = if e == 0xff {
        if m == 0 {
            MAX_COMPONENT as int
        } else {
            0
        }
    } else if e == 0 {
        0
    } else {
        let mval = m as int + 0x800000;
        let full = if e >= 134 {
            mval * pow2((e - 134) as nat) as int
        } else {
            mval / pow2((134 - e) as nat) as int
        };
        if full > MAX_COMPONENT as int {
            MAX_COMPONENT as int
        } else {
            full
        }
    };
    if s == 1 {
        -mag
    } else {
        mag
    }
}

/// Decodes one stored 32-bit word into a fixed-point embedding component.
pub fn fixed_from_bits(b: u32) -> (r: i32)
    ensures
        r as int == spec_fixed_of_bits(b),
        -MAX_COMPONENT <= r <= MAX_COMPONENT,
{
    let s = b >> 31;
    let e = (b >> 23) & 0xff;
    let m = b & 0x7fffff;
    proof {
        assert((b >> 31) <= 1 && ((b >> 23) & 0xff) <= 0xff && (b & 0x7fffff) <= 0x7fffff)
            by (bit_vector);
    }
    let mag: i32 = if e == 0xff {
        if m == 0 {
            MAX_COMPONENT
        } else {
            0
        }
    } else if e == 0 {
        0
    } else if e >= 134 {
        // the significand alone already exceeds the representable range
        proof {
            let k = (e - 134) as nat;
            lemma_pow2_pos(k);
            assert((m as int + 0x800000) * pow2(k) as int >= (m as int + 0x800000) * 1)
                by (nonlinear_arith)
                requires
                    pow2(k) >= 1,
                    m as int + 0x800000 > 0,
            ;
        }
        MAX_COMPONENT
    } else {
        let shift = 134 - e;
        let mval = m + 0x800000;
        if shift >= 24 {
            proof {
                vstd::arithmetic::power2::lemma2_to64();
                if shift > 24 {
                    lemma_pow2_strictly_increases(24, shift as nat);
                }
                assert(pow2(shift as nat) >= 0x1000000);
                vstd::arithmetic::div_mod::lemma_basic_div(
                    mval as int,
                    pow2(shift as nat) as int,
                );
            }
            0
        } else {
            let mut divisor: u32 = 1;
            let mut j: u32 = 0;
            proof {
                vstd::arithmetic::power2::lemma2_to64();
            }
            while j < shift
                invariant
                    j <= shift,
                    shift < 24,
                    divisor == pow2(j as nat),
                decreases shift - j,
            {
                proof {
                    lemma_pow2_strictly_increases(j as nat, 24);
                    vstd::arithmetic::power2::lemma2_to64();
                    assert(pow2((j + 1) as nat) == 2 * pow2(j as nat)) by {
                        vstd::arithmetic::power2::lemma_pow2_unfold((j + 1) as nat);
                    }
                }
                divisor = divisor * 2;
                j += 1;
            }
            proof {
                lemma_pow2_pos(shift as nat);
                assert(shift >= 1);
                lemma_pow2_strictly_increases(0, shift as nat);
                vstd::arithmetic::power2::lemma2_to64();
                vstd::arithmetic::div_mod::lemma_div_is_ordered_by_denominator(
                    mval as int,
                    2,
                    divisor as int,
                );
            }
            (mval / divisor) as i32
        }
    };
    if s == 1 {
        -mag
    } else {
        mag
    }
}

/// Decodes a stored vector of 32-bit words into a representable embedding,
/// truncating it to the largest supported dimensionality.
pub fn embedding_from_bits(bits: &Vec<u32>) -> (r: Vec<i32>)
    ensures
        r@.len() == if bits@.len() <= MAX_DIM {
            bits@.len() as int
        } else {
            MAX_DIM as int
        },
        forall|i: int| 0 <= i < r@.len() ==> #[trigger] r@[i] as int == spec_fixed_of_bits(
            bits@[i],
        ),
        wf_embedding(r@),
{
    let count = if bits.len() <= MAX_DIM {
        bits.len()
    } else {
        MAX_DIM
    };
    let mut r: Vec<i32> = Vec::new();
    let mut i: usize = 0;
    while i < count
        invariant
            count <= bits@.len(),
            count <= MAX_DIM,
            i <= count,
            r@.len() == i,
            forall|k: int| 0 <= k < i ==> #[trigger] r@[k] as int == spec_fixed_of_bits(bits@[k]),
            forall|k: int| 0 <= k < i ==> -MAX_COMPONENT <= #[trigger] r@[k] <= MAX_COMPONENT,
        decreases count - i,
    {
        r.push(fixed_from_bits(bits[i]));
        i += 1;
    }
    r
}

} // verus!
