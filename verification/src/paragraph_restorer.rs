//! Paragraph restorer: inverts the per-chapter seeded shuffle the source
//! site applies to the tail of a chapter's non-empty text blocks. The first
//! `KEEP_ORDER_THRESHOLD` qualifying blocks are always left in place; image
//! and line-break blocks never move.

use vstd::arithmetic::div_mod::{lemma_mod_division_less_than_divisor, lemma_multiply_divide_lt};
use vstd::prelude::*;

use crate::model::{Content, ContentV};

verus! {

/// How many qualifying text blocks stay untouched at the head of a chapter.
pub const KEEP_ORDER_THRESHOLD: usize = 19;

/// The seed the site derives from a chapter id.
pub open spec fn seed_of(chapter_id: u64) -> int {
    chapter_id * 0x89 + 0xE9
}

/// One step of the site's linear congruential generator.
pub open spec fn next_seed(s: int) -> int {
    (s * 0x2455 + 0xC091) % 0x38F40
}

/// The identity permutation of size `n`.
pub open spec fn identity_perm(n: nat) -> Seq<int> {
    Seq::new(n, |i: int| i)
}

/// The elements of `s` as mathematical integers.
pub open spec fn as_ints(s: Seq<usize>) -> Seq<int> {
    Seq::new(s.len(), |i: int| s[i] as int)
}

/// Some position of `p` holds the value `v`.
pub open spec fn perm_covers(p: Seq<int>, v: int) -> bool {
    exists|i: int| 0 <= i < p.len() && #[trigger] p[i] == v
}

/// `p` maps `0..n` onto `0..n` bijectively.
pub open spec fn is_perm_of(p: Seq<int>, n: nat) -> bool {
    &&& p.len() == n
    &&& (forall|i: int| 0 <= i < n ==> 0 <= #[trigger] p[i] < n)
    &&& (forall|i: int, j: int| 0 <= i < j < n ==> p[i] != p[j])
    &&& (forall|v: int| 0 <= v < n ==> #[trigger] perm_covers(p, v))
}

/// Generator state after the shuffle's swaps have run for positions
/// `n-1` down to `k`: the permutation built so far and the current seed.
pub open spec fn fy_state(seed0: int, n: nat, k: nat) -> (Seq<int>, int)
    decreases n - k,
{
    if k >= n {
        (identity_perm(n), seed0)
    } else {
        let prev = fy_state(seed0, n, (k + 1) as nat);
        let p = prev.0;
        let s2 = next_seed(prev.1);
        let j = s2 * (k + 1) / 0x38F40;
        (p.update(k as int, p[j]).update(j, p[k as int]), s2)
    }
}

/// The forward permutation the site applies to `n` shuffled blocks:
/// the block at shuffled position `i` came from position `fy_perm(..)[i]`.
pub open spec fn fy_perm(seed0: int, n: nat) -> Seq<int> {
    if n == 0 {
        identity_perm(0)
    } else {
        fy_state(seed0, n, 1).0
    }
}

proof fn lemma_swap_is_perm(p: Seq<int>, n: nat, a: int, b: int)
    requires
        is_perm_of(p, n),
        0 <= a < n,
        0 <= b < n,
    ensures
        is_perm_of(p.update(a, p[b]).update(b, p[a]), n),
{
    let q = p.update(a, p[b]).update(b, p[a]);
    assert forall|v: int| 0 <= v < n implies #[trigger] perm_covers(q, v) by {
        assert(perm_covers(p, v));
        let i0 = choose|i: int| 0 <= i < p.len() && #[trigger] p[i] == v;
        if i0 == a {
            assert(q[b] == v);
        } else if i0 == b {
            assert(q[a] == v);
        } else {
            assert(q[i0] == v);
        }
    }
}

proof fn lemma_fy_state_ok(seed0: int, n: nat, k: nat)
    requires
        seed0 >= 0,
        1 <= k <= n,
    ensures
        is_perm_of(fy_state(seed0, n, k).0, n),
        fy_state(seed0, n, k).1 >= 0,
        k < n ==> fy_state(seed0, n, k).1 < 0x38F40,
    decreases n - k,
{
    if k == n {
        let idp = identity_perm(n);
        assert forall|v: int| 0 <= v < n implies #[trigger] perm_covers(idp, v) by {
            assert(idp[v] == v);
        }
    } else {
        lemma_fy_state_ok(seed0, n, (k + 1) as nat);
        let prev = fy_state(seed0, n, (k + 1) as nat);
        let p = prev.0;
        let s2 = next_seed(prev.1);
        lemma_mod_division_less_than_divisor(prev.1 * 0x2455 + 0xC091, 0x38F40);
        let j = s2 * (k + 1) / 0x38F40;
        assert(s2 * (k + 1) < 0x38F40 * (k + 1)) by (nonlinear_arith)
            requires
                0 <= s2 < 0x38F40,
                k + 1 > 0,
        ;
        lemma_multiply_divide_lt(s2 * (k + 1), 0x38F40, k + 1 as int);
        assert(j >= 0) by (nonlinear_arith)
            requires
                s2 >= 0,
                k + 1 > 0,
                j == s2 * (k + 1) / 0x38F40,
        ;
        lemma_swap_is_perm(p, n, k as int, j);
    }
}

/// The forward permutation is a bijection on `0..n`.
pub proof fn lemma_fy_perm_ok(seed0: int, n: nat)
    requires
        seed0 >= 0,
    ensures
        is_perm_of(fy_perm(seed0, n), n),
{
    if n == 0 {
    } else {
        lemma_fy_state_ok(seed0, n, 1);
    }
}

/// A block that takes part in the shuffle: a non-empty text run.
pub open spec fn qual(c: ContentV) -> bool {
    c matches ContentV::Text(t) && t.len() > 0
}

/// The positions of the qualifying blocks of `s`, in increasing order.
pub open spec fn qual_idx(s: Seq<ContentV>) -> Seq<int>
    decreases s.len(),
{
    if s.len() == 0 {
        Seq::empty()
    } else {
        let pre = qual_idx(s.drop_last());
        if qual(s.last()) {
            pre.push(s.len() - 1)
        } else {
            pre
        }
    }
}

/// What `qual_idx` yields: the increasing enumeration of exactly the
/// qualifying positions.
pub proof fn lemma_qual_idx(s: Seq<ContentV>)
    ensures
        forall|k: int|
            0 <= k < qual_idx(s).len() ==> 0 <= #[trigger] qual_idx(s)[k] < s.len() && qual(
                s[qual_idx(s)[k]],
            ),
        forall|k1: int, k2: int|
            0 <= k1 < k2 < qual_idx(s).len() ==> qual_idx(s)[k1] < qual_idx(s)[k2],
        forall|i: int|
            0 <= i < s.len() && qual(#[trigger] s[i]) ==> exists|k: int|
                0 <= k < qual_idx(s).len() && qual_idx(s)[k] == i,
    decreases s.len(),
{
    if s.len() > 0 {
        lemma_qual_idx(s.drop_last());
        let pre = qual_idx(s.drop_last());
        assert forall|i: int|
            0 <= i < s.len() && qual(#[trigger] s[i]) implies exists|k: int|
            0 <= k < qual_idx(s).len() && qual_idx(s)[k] == i by {
            if i < s.len() - 1 {
                assert(s.drop_last()[i] == s[i]);
                let k = choose|k: int| 0 <= k < pre.len() && pre[k] == i;
                assert(qual_idx(s)[k] == i);
            } else {
                assert(qual_idx(s)[qual_idx(s).len() - 1] == i);
            }
        }
    }
}

/// Two block sequences with pointwise equal qualifying status have the same
/// qualifying positions.
proof fn lemma_qual_idx_congruent(a: Seq<ContentV>, b: Seq<ContentV>)
    requires
        a.len() == b.len(),
        forall|i: int| 0 <= i < a.len() ==> (qual(#[trigger] a[i]) == qual(#[trigger] b[i])),
    ensures
        qual_idx(a) == qual_idx(b),
    decreases a.len(),
{
    if a.len() > 0 {
        lemma_qual_idx_congruent(a.drop_last(), b.drop_last());
        assert(forall|i: int|
            0 <= i < a.len() - 1 ==> #[trigger] a.drop_last()[i] == a[i] && #[trigger] b.drop_last()[i]
                == b[i]);
    }
}

/// Relation between a chapter's blocks `b` and the output `r` of `restore`:
/// with at most `KEEP_ORDER_THRESHOLD` qualifying blocks the input is
/// unchanged; otherwise non-qualifying blocks and the first
/// `KEEP_ORDER_THRESHOLD` qualifying blocks keep their places, and the
/// qualifying tail is moved back through the forward permutation.
pub open spec fn restore_rel(b: Seq<ContentV>, r: Seq<ContentV>, chapter_id: u64) -> bool {
    let qs = qual_idx(b);
    let n = qs.len();
    if n <= KEEP_ORDER_THRESHOLD {
        r == b
    } else {
        let m = (n - KEEP_ORDER_THRESHOLD) as nat;
        let perm = fy_perm(seed_of(chapter_id), m);
        &&& r.len() == b.len()
        &&& (forall|i: int| 0 <= i < b.len() && !qual(#[trigger] b[i]) ==> r[i] == b[i])
        &&& (forall|k: int|
            0 <= k < KEEP_ORDER_THRESHOLD ==> r[#[trigger] qs[k]] == b[qs[k]])
        &&& (forall|p: int|
            0 <= p < m ==> r[qs[KEEP_ORDER_THRESHOLD + #[trigger] perm[p]]] == b[qs[KEEP_ORDER_THRESHOLD + p]])
    }
}

/// Relation between a chapter's original blocks `b` and their shuffled form
/// `r`, replicating the site's forward shuffle: the block at shuffled
/// qualifying tail position `x` is the block from tail position `perm[x]`.
pub open spec fn shuffle_rel(b: Seq<ContentV>, r: Seq<ContentV>, chapter_id: u64) -> bool {
    let qs = qual_idx(b);
    let n = qs.len();
    if n <= KEEP_ORDER_THRESHOLD {
        r == b
    } else {
        let m = (n - KEEP_ORDER_THRESHOLD) as nat;
        let perm = fy_perm(seed_of(chapter_id), m);
        &&& r.len() == b.len()
        &&& (forall|i: int| 0 <= i < b.len() && !qual(#[trigger] b[i]) ==> r[i] == b[i])
        &&& (forall|k: int|
            0 <= k < KEEP_ORDER_THRESHOLD ==> r[#[trigger] qs[k]] == b[qs[k]])
        &&& (forall|x: int|
            0 <= x < m ==> r[qs[KEEP_ORDER_THRESHOLD + x]] == b[qs[KEEP_ORDER_THRESHOLD
                + #[trigger] perm[x]]])
    }
}

/// Restores the original order of a chapter whose text the source site
/// shuffled with the seed derived from `chapter_id`.
pub struct ParagraphRestorer {
    pub chapter_id: u64,
}

impl ParagraphRestorer {
    /// A restorer for the chapter with the given id.
    pub fn new(chapter_id: u64) -> (r: Self)
        ensures
            r.chapter_id == chapter_id,
    {
        Self { chapter_id }
    }

    /// The seed the site derives from a chapter id.
    pub fn generate_seed(chapter_id: u64) -> (r: u64)
        requires
            seed_of(chapter_id) <= u64::MAX,
        ensures
            r == seed_of(chapter_id),
    {
        chapter_id * 0x89 + 0xE9
    }

    /// The forward permutation of size `n` drawn from this chapter's seed:
    /// starting from the identity, for `i` from `n-1` down to `1` the seed
    /// advances and positions `i` and `seed*(i+1)/0x38F40` swap.
    #[verifier::rlimit(60)]
    fn fy_indices(&self, n: usize) -> (r: Vec<usize>)
        requires
            seed_of(self.chapter_id) <= u64::MAX,
        ensures
            as_ints(r@) == fy_perm(seed_of(self.chapter_id), n as nat),
    {
        let ghost seed0 = seed_of(self.chapter_id);
        let mut indices: Vec<usize> = Vec::new();
        let mut q: usize = 0;
        while q < n
            invariant
                q <= n,
                as_ints(indices@) == identity_perm(q as nat),
            decreases n - q,
        {
            let ghost pre = indices@;
            indices.push(q);
            proof {
                assert(indices@ == pre.push(q));
                assert(as_ints(pre).len() == identity_perm(q as nat).len());
                assert(pre.len() == q);
                assert forall|t: int| 0 <= t < q + 1 implies as_ints(indices@)[t] == t by {
                    if t < q {
                        assert(pre.push(q)[t] == pre[t]);
                        assert(as_ints(pre)[t] == identity_perm(q as nat)[t]);
                    } else {
                        assert(pre.push(q)[t] == q);
                    }
                }
                assert(as_ints(indices@) =~= identity_perm((q + 1) as nat));
            }
            q += 1;
        }
        if n == 0 {
            return indices;
        }
        let mut current_seed: u64 = Self::generate_seed(self.chapter_id);
        let mut i: usize = n - 1;
        assert(as_ints(indices@) =~= fy_state(seed0, n as nat, n as nat).0);
        while i >= 1
            invariant
                1 <= i + 1 <= n,
                n == indices@.len(),
                seed_of(self.chapter_id) == seed0,
                (as_ints(indices@), current_seed as int) == fy_state(
                    seed0,
                    n as nat,
                    (i + 1) as nat,
                ),
            decreases i,
        {
            proof {
                lemma_fy_state_ok(seed0, n as nat, (i + 1) as nat);
            }
            let wide: u128 = ((current_seed as u128) * 0x2455 + 0xC091) % 0x38F40;
            let s2: u64 = wide as u64;
            assert(s2 as int == next_seed(current_seed as int)) by {
                lemma_mod_division_less_than_divisor(
                    (current_seed as int) * 0x2455 + 0xC091,
                    0x38F40,
                );
            }
            assert(0 <= (s2 as int) && (s2 as int) < 0x38F40) by {
                lemma_mod_division_less_than_divisor(
                    (current_seed as int) * 0x2455 + 0xC091,
                    0x38F40,
                );
            }
            assert((s2 as int) * ((i as int) + 1) < 0x38F40 * 0x1_0000_0000_0000_0000) by (nonlinear_arith)
                requires
                    0 <= (s2 as int) && (s2 as int) < 0x38F40,
                    0 <= (i as int) && (i as int) < 0x1_0000_0000_0000_0000,
            ;
            let jw: u128 = (s2 as u128) * ((i as u128) + 1) / 0x38F40;
            proof {
                assert((s2 as int) * (i + 1) < 0x38F40 * (i + 1)) by (nonlinear_arith)
                    requires
                        0 <= (s2 as int) && (s2 as int) < 0x38F40,
                        i + 1 > 0,
                ;
                lemma_multiply_divide_lt((s2 as int) * (i + 1), 0x38F40, i + 1);
                assert(jw as int >= 0);
            }
            let j: usize = jw as usize;
            let tmp = indices[i];
            let vj = indices[j];
            indices[i] = vj;
            indices[j] = tmp;
            proof {
                let prev = fy_state(seed0, n as nat, (i + 1) as nat);
                let stepped = fy_state(seed0, n as nat, i as nat);
                assert(stepped == (
                    prev.0.update(i as int, prev.0[j as int]).update(j as int, prev.0[i as int]),
                    next_seed(prev.1),
                ));
                assert(as_ints(indices@) =~= stepped.0);
            }
            current_seed = s2;
            i -= 1;
        }
        indices
    }

    /// Restores the order of the shuffled tail: block `p` of the input is
    /// placed at position `perm[p]` of the output.
    fn restore_partial(&self, paragraphs: Vec<Content>) -> (r: Vec<Content>)
        requires
            seed_of(self.chapter_id) <= u64::MAX,
        ensures
            r@.len() == paragraphs@.len(),
            forall|p: int|
                0 <= p < paragraphs@.len() ==> r.deep_view()[fy_perm(
                    seed_of(self.chapter_id),
                    paragraphs@.len() as nat,
                )[p]] == paragraphs.deep_view()[p],
    {
        let n = paragraphs.len();
        let ghost perm = fy_perm(seed_of(self.chapter_id), n as nat);
        proof {
            lemma_fy_perm_ok(seed_of(self.chapter_id), n as nat);
        }
        let indices = self.fy_indices(n);
        let mut result: Vec<Content> = Vec::new();
        let mut q: usize = 0;
        while q < n
            invariant
                q <= n,
                result@.len() == q,
            decreases n - q,
        {
            result.push(Content::Text(String::new()));
            q += 1;
        }
        let mut p: usize = 0;
        while p < n
            invariant
                p <= n,
                n == paragraphs@.len(),
                n == indices@.len(),
                result@.len() == n,
                is_perm_of(perm, n as nat),
                perm == fy_perm(seed_of(self.chapter_id), n as nat),
                as_ints(indices@) == perm,
                forall|t: int|
                    0 <= t < p ==> result.deep_view()[#[trigger] perm[t]]
                        == paragraphs.deep_view()[t],
            decreases n - p,
        {
            assert(perm[p as int] == as_ints(indices@)[p as int]);
            let target = indices[p];
            let block = paragraphs[p].duplicate();
            result[target] = block;
            p += 1;
        }
        result
    }

    /// Restores a chapter's block order. With at most
    /// `KEEP_ORDER_THRESHOLD` qualifying (non-empty text) blocks the input
    /// is returned unchanged; otherwise the qualifying tail is moved back
    /// through the forward permutation while every other block keeps its
    /// place.
    pub fn restore(&self, paragraphs: Vec<Content>) -> (r: Vec<Content>)
        requires
            seed_of(self.chapter_id) <= u64::MAX,
        ensures
            restore_rel(paragraphs.deep_view(), r.deep_view(), self.chapter_id),
    {
        let ghost b = paragraphs.deep_view();
        proof {
            lemma_qual_idx(b);
        }
        let len = paragraphs.len();
        let mut qs: Vec<usize> = Vec::new();
        let mut i: usize = 0;
        while i < len
            invariant
                i <= len,
                len == b.len(),
                b == paragraphs.deep_view(),
                as_ints(qs@) == qual_idx(b.take(i as int)),
                forall|k: int| 0 <= k < qs@.len() ==> #[trigger] qs@[k] < i,
            decreases len - i,
        {
            proof {
                assert(b.take(i + 1).drop_last() =~= b.take(i as int));
                assert(b.take(i + 1).last() == b[i as int]);
            }
            let blk = &paragraphs[i];
            if blk.is_text() && !blk.is_empty() {
                qs.push(i);
                assert(as_ints(qs@) =~= qual_idx(b.take(i + 1)));
            } else {
                assert(as_ints(qs@) =~= qual_idx(b.take(i + 1)));
            }
            i += 1;
        }
        proof {
            assert(b.take(len as int) =~= b);
        }
        let n = qs.len();
        if n <= KEEP_ORDER_THRESHOLD {
            return paragraphs;
        }
        let ghost qsv = qual_idx(b);
        let ghost m = (n - KEEP_ORDER_THRESHOLD) as nat;
        let ghost perm = fy_perm(seed_of(self.chapter_id), m);
        proof {
            lemma_fy_perm_ok(seed_of(self.chapter_id), m);
        }
        let mut tail: Vec<Content> = Vec::new();
        let mut k: usize = KEEP_ORDER_THRESHOLD;
        while k < n
            invariant
                KEEP_ORDER_THRESHOLD <= k <= n,
                n == qs@.len(),
                len == b.len(),
                b == paragraphs.deep_view(),
                as_ints(qs@) == qsv,
                qsv == qual_idx(b),
                forall|t: int| 0 <= t < qsv.len() ==> 0 <= #[trigger] qsv[t] < len,
                tail@.len() == k - KEEP_ORDER_THRESHOLD,
                forall|t: int|
                    0 <= t < k - KEEP_ORDER_THRESHOLD ==> tail.deep_view()[t] == b[qsv[KEEP_ORDER_THRESHOLD + t]],
            decreases n - k,
        {
            assert(qsv[k as int] == as_ints(qs@)[k as int]);
            let pos = qs[k];
            let block = paragraphs[pos].duplicate();
            let ghost pre = tail.deep_view();
            tail.push(block);
            proof {
                assert(tail.deep_view() =~= pre.push(block@));
                assert(block@ == b[qsv[k as int]]);
            }
            k += 1;
        }
        let ghost tailv = tail.deep_view();
        let restored_tail = self.restore_partial(tail);
        proof {
            assert(tailv.len() == m);
            assert(restored_tail@.len() == m);
            assert forall|p: int|
                0 <= p < m implies restored_tail.deep_view()[#[trigger] perm[p]] == b[qsv[KEEP_ORDER_THRESHOLD + p]] by {
                assert(restored_tail.deep_view()[fy_perm(seed_of(self.chapter_id), tailv.len() as nat)[p]] == tailv[p]);
                assert(tailv[p] == b[qsv[KEEP_ORDER_THRESHOLD + p]]);
            }
        }
        let mut result = paragraphs;
        let mut t: usize = KEEP_ORDER_THRESHOLD;
        while t < n
            invariant
                KEEP_ORDER_THRESHOLD <= t <= n,
                n == qs@.len(),
                len == b.len(),
                result@.len() == len,
                restored_tail@.len() == m,
                m == n - KEEP_ORDER_THRESHOLD,
                as_ints(qs@) == qsv,
                qsv == qual_idx(b),
                perm == fy_perm(seed_of(self.chapter_id), m),
                is_perm_of(perm, m),
                forall|t2: int| 0 <= t2 < qsv.len() ==> 0 <= #[trigger] qsv[t2] < len,
                forall|k1: int, k2: int| 0 <= k1 < k2 < qsv.len() ==> qsv[k1] < qsv[k2],
                forall|p: int|
                    0 <= p < m ==> restored_tail.deep_view()[#[trigger] perm[p]] == b[qsv[KEEP_ORDER_THRESHOLD + p]],
                forall|i2: int|
                    0 <= i2 < len && (forall|u: int|
                        KEEP_ORDER_THRESHOLD <= u < t ==> qsv[u] != i2)
                        ==> result.deep_view()[i2] == b[i2],
                forall|u: int|
                    KEEP_ORDER_THRESHOLD <= u < t ==> result.deep_view()[#[trigger] qsv[u]]
                        == restored_tail.deep_view()[u - KEEP_ORDER_THRESHOLD],
            decreases n - t,
        {
            assert(qsv[t as int] == as_ints(qs@)[t as int]);
            let pos = qs[t];
            let block = restored_tail[t - KEEP_ORDER_THRESHOLD].duplicate();
            result[pos] = block;
            t += 1;
        }
        proof {
            let r = result.deep_view();
            assert forall|i2: int| 0 <= i2 < len && !qual(#[trigger] b[i2]) implies r[i2]
                == b[i2] by {
                assert forall|u: int| KEEP_ORDER_THRESHOLD <= u < n implies qsv[u] != i2 by {
                    assert(qual(b[qsv[u]]));
                }
            }
            assert forall|k2: int| 0 <= k2 < KEEP_ORDER_THRESHOLD implies r[#[trigger] qsv[k2]]
                == b[qsv[k2]] by {
                assert forall|u: int| KEEP_ORDER_THRESHOLD <= u < n implies qsv[u] != qsv[k2] by {
                    assert(qsv[k2] < qsv[u]);
                }
            }
            assert forall|p: int|
                0 <= p < m implies r[qsv[KEEP_ORDER_THRESHOLD + #[trigger] perm[p]]] == b[qsv[KEEP_ORDER_THRESHOLD + p]] by {
                let u = KEEP_ORDER_THRESHOLD + perm[p];
                assert(r[qsv[u]] == restored_tail.deep_view()[u - KEEP_ORDER_THRESHOLD]);
            }
        }
        result
    }

    /// Replicates the site's forward shuffle on a chapter's blocks: the
    /// exact inverse of `restore`, for checking the round trip.
    pub fn shuffle(&self, paragraphs: Vec<Content>) -> (r: Vec<Content>)
        requires
            seed_of(self.chapter_id) <= u64::MAX,
        ensures
            shuffle_rel(paragraphs.deep_view(), r.deep_view(), self.chapter_id),
    {
        let ghost b = paragraphs.deep_view();
        proof {
            lemma_qual_idx(b);
        }
        let len = paragraphs.len();
        let mut qs: Vec<usize> = Vec::new();
        let mut i: usize = 0;
        while i < len
            invariant
                i <= len,
                len == b.len(),
                b == paragraphs.deep_view(),
                as_ints(qs@) == qual_idx(b.take(i as int)),
                forall|k: int| 0 <= k < qs@.len() ==> #[trigger] qs@[k] < i,
            decreases len - i,
        {
            proof {
                assert(b.take(i + 1).drop_last() =~= b.take(i as int));
                assert(b.take(i + 1).last() == b[i as int]);
            }
            let blk = &paragraphs[i];
            if blk.is_text() && !blk.is_empty() {
                qs.push(i);
                assert(as_ints(qs@) =~= qual_idx(b.take(i + 1)));
            } else {
                assert(as_ints(qs@) =~= qual_idx(b.take(i + 1)));
            }
            i += 1;
        }
        proof {
            assert(b.take(len as int) =~= b);
        }
        let n = qs.len();
        if n <= KEEP_ORDER_THRESHOLD {
            return paragraphs;
        }
        let ghost qsv = qual_idx(b);
        let ghost m = (n - KEEP_ORDER_THRESHOLD) as nat;
        let ghost perm = fy_perm(seed_of(self.chapter_id), m);
        proof {
            lemma_fy_perm_ok(seed_of(self.chapter_id), m);
        }
        let indices = self.fy_indices(n - KEEP_ORDER_THRESHOLD);
        let mut result: Vec<Content> = Vec::new();
        let mut c: usize = 0;
        while c < len
            invariant
                c <= len,
                len == b.len(),
                b == paragraphs.deep_view(),
                result@.len() == c,
                forall|i2: int| 0 <= i2 < c ==> result.deep_view()[i2] == b[i2],
            decreases len - c,
        {
            let block = paragraphs[c].duplicate();
            result.push(block);
            c += 1;
        }
        let mut x: usize = 0;
        while x < n - KEEP_ORDER_THRESHOLD
            invariant
                x <= m,
                n == qs@.len(),
                len == b.len(),
                b == paragraphs.deep_view(),
                result@.len() == len,
                m == n - KEEP_ORDER_THRESHOLD,
                KEEP_ORDER_THRESHOLD < n,
                indices@.len() == m,
                as_ints(qs@) == qsv,
                qsv == qual_idx(b),
                perm == fy_perm(seed_of(self.chapter_id), m),
                is_perm_of(perm, m),
                as_ints(indices@) == perm,
                forall|t2: int| 0 <= t2 < qsv.len() ==> 0 <= #[trigger] qsv[t2] < len,
                forall|k1: int, k2: int| 0 <= k1 < k2 < qsv.len() ==> qsv[k1] < qsv[k2],
                forall|i2: int|
                    0 <= i2 < len && (forall|u: int|
                        KEEP_ORDER_THRESHOLD <= u < KEEP_ORDER_THRESHOLD + x ==> qsv[u] != i2)
                        ==> result.deep_view()[i2] == b[i2],
                forall|x2: int|
                    0 <= x2 < x ==> result.deep_view()[#[trigger] qsv[KEEP_ORDER_THRESHOLD + x2]]
                        == b[qsv[KEEP_ORDER_THRESHOLD + perm[x2]]],
            decreases m - x,
        {
            assert(qsv[(KEEP_ORDER_THRESHOLD + x) as int] == as_ints(qs@)[
                (KEEP_ORDER_THRESHOLD + x) as int]);
            assert(perm[x as int] == as_ints(indices@)[x as int]);
            let src_rank = indices[x];
            assert(qsv[(KEEP_ORDER_THRESHOLD + src_rank) as int] == as_ints(qs@)[(KEEP_ORDER_THRESHOLD + src_rank) as int]);
            let src_pos = qs[KEEP_ORDER_THRESHOLD + src_rank];
            let dst_pos = qs[KEEP_ORDER_THRESHOLD + x];
            let block = paragraphs[src_pos].duplicate();
            result[dst_pos] = block;
            x += 1;
        }
        result
    }

    /// Reorders `text` by an explicit index list: element `k` of the result
    /// is `text[index_list[k]]`.
    pub fn restore_with_index(text: Vec<Content>, index_list: Vec<usize>) -> (r: Vec<Content>)
        requires
            forall|k: int| 0 <= k < index_list@.len() ==> index_list@[k] < text@.len(),
        ensures
            r@.len() == index_list@.len(),
            forall|k: int|
                0 <= k < index_list@.len() ==> r.deep_view()[k] == text.deep_view()[index_list@[k] as int],
    {
        let mut restored: Vec<Content> = Vec::new();
        let mut k: usize = 0;
        let n = index_list.len();
        while k < n
            invariant
                k <= n,
                n == index_list@.len(),
                restored@.len() == k,
                forall|k2: int| 0 <= k2 < n ==> index_list@[k2] < text@.len(),
                forall|k2: int|
                    0 <= k2 < k ==> restored.deep_view()[k2] == text.deep_view()[index_list@[k2] as int],
            decreases n - k,
        {
            let i = index_list[k];
            let block = text[i].duplicate();
            let ghost pre = restored.deep_view();
            restored.push(block);
            proof {
                assert(restored.deep_view() =~= pre.push(block@));
            }
            k += 1;
        }
        restored
    }
}

/// Law: with at most `KEEP_ORDER_THRESHOLD` qualifying text blocks,
/// restoring leaves the chapter unchanged.
pub proof fn lemma_restore_identity_small(b: Seq<ContentV>, r: Seq<ContentV>, chapter_id: u64)
    requires
        qual_idx(b).len() <= KEEP_ORDER_THRESHOLD,
        restore_rel(b, r, chapter_id),
    ensures
        r == b,
{
}

/// Law: composing the site's forward shuffle with `restore` is the
/// identity: whatever the chapter id and the block sequence, restoring a
/// shuffled chapter reproduces the original blocks exactly.
pub proof fn lemma_restore_round_trip(
    b: Seq<ContentV>,
    sh: Seq<ContentV>,
    r: Seq<ContentV>,
    chapter_id: u64,
)
    requires
        shuffle_rel(b, sh, chapter_id),
        restore_rel(sh, r, chapter_id),
    ensures
        r == b,
{
    lemma_qual_idx(b);
    let qs = qual_idx(b);
    let n = qs.len();
    if n <= KEEP_ORDER_THRESHOLD {
        assert(sh == b);
        assert(r == sh);
    } else {
        let m = (n - KEEP_ORDER_THRESHOLD) as nat;
        let perm = fy_perm(seed_of(chapter_id), m);
        lemma_fy_perm_ok(seed_of(chapter_id), m);
        assert forall|i: int|
            0 <= i < b.len() implies (qual(#[trigger] sh[i]) == qual(#[trigger] b[i])) by {
            if qual(b[i]) {
                let k = choose|k: int| 0 <= k < qs.len() && qs[k] == i;
                if k < KEEP_ORDER_THRESHOLD {
                    assert(sh[i] == b[i]);
                } else {
                    let x = k - KEEP_ORDER_THRESHOLD;
                    assert(sh[qs[KEEP_ORDER_THRESHOLD + x]] == b[qs[KEEP_ORDER_THRESHOLD + perm[x]]]);
                    assert(qual(b[qs[KEEP_ORDER_THRESHOLD + perm[x]]]));
                }
            } else {
                assert(sh[i] == b[i]);
            }
        }
        lemma_qual_idx_congruent(sh, b);
        assert(qual_idx(sh) == qs);
        assert forall|i: int| 0 <= i < b.len() implies r[i] == b[i] by {
            if qual(b[i]) {
                let k = choose|k: int| 0 <= k < qs.len() && qs[k] == i;
                if k < KEEP_ORDER_THRESHOLD {
                    assert(r[qs[k]] == sh[qs[k]]);
                    assert(sh[i] == b[i]);
                } else {
                    let q0 = k - KEEP_ORDER_THRESHOLD;
                    assert(perm_covers(perm, q0));
                    let p = choose|p: int| 0 <= p < perm.len() && #[trigger] perm[p] == q0;
                    assert(r[qs[KEEP_ORDER_THRESHOLD + perm[p]]] == sh[qs[KEEP_ORDER_THRESHOLD
                        + p]]);
                    assert(sh[qs[KEEP_ORDER_THRESHOLD + p]] == b[qs[KEEP_ORDER_THRESHOLD + perm[p]]]);
                }
            } else {
                assert(r[i] == sh[i]);
                assert(sh[i] == b[i]);
            }
        }
        assert(r =~= b);
    }
}

} // verus!
