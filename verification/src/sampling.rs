//! Choosing the next token from the logits of a model.
//!
//! Logits and running sums are singles, carried as their bit patterns.
use vstd::prelude::*;

use crate::binary32::Binary32;
use crate::binary64::Binary64;

verus! {

/// The number of indices below `n` for which `p` holds.
pub open spec fn tally(n: nat, p: spec_fn(int) -> bool) -> nat
    decreases n,
{
    if n == 0 {
        0
    } else {
        tally((n - 1) as nat, p) + if p(n - 1) {
            1nat
        } else {
            0nat
        }
    }
}

/// The number of logits above the `i`-th.
pub open spec fn above(logits: Seq<Binary32>, i: int) -> nat {
    tally(logits.len(), |j: int| logits[i].less(logits[j]))
}

/// Whether the `i`-th token may be chosen: with `top_k` off, or as large as
/// the vocabulary, every token may; otherwise fewer than `top_k` logits must
/// be above its own.
pub open spec fn eligible(logits: Seq<Binary32>, top_k: nat, i: int) -> bool {
    top_k == 0 || top_k >= logits.len() || above(logits, i) < top_k
}

/// Whether a temperature asks for the most likely token: `temperature <= 0`.
pub fn is_greedy(temperature: Binary64) -> (r: bool)
    ensures
        r == temperature.at_most(Binary64 { bits: 0 }),
{
    temperature.is_at_most(Binary64 { bits: 0 })
}

/// The number of logits above the `i`-th, or `limit` if there are more.
fn count_above(logits: &Vec<Binary32>, i: usize, limit: usize) -> (n: usize)
    requires
        i < logits.len(),
    ensures
        n == if above(logits@, i as int) < limit {
            above(logits@, i as int)
        } else {
            limit as nat
        },
{
    let ghost p = |j: int| logits@[i as int].less(logits@[j]);
    let mut n: usize = 0;
    let mut j: usize = 0;
    while j < logits.len() && n < limit
        invariant
            i < logits.len(),
            j <= logits.len(),
            n <= limit,
            n <= j,
            p == (|j: int| logits@[i as int].less(logits@[j])),
            n == tally(j as nat, p),
        decreases logits.len() - j,
    {
        if logits[i].is_less(logits[j]) {
            n = n + 1;
        }
        j = j + 1;
    }
    proof {
        lemma_tally_grows(j as nat, logits@.len(), p);
    }
    n
}

/// Which tokens top-k filtering keeps.
pub fn top_k_mask(logits: &Vec<Binary32>, top_k: usize) -> (keep: Vec<bool>)
    ensures
        keep@.len() == logits@.len(),
        forall|i: int|
            0 <= i < keep@.len() ==> #[trigger] keep@[i] == eligible(logits@, top_k as nat, i),
{
    let mut keep: Vec<bool> = Vec::new();
    for i in 0..logits.len()
        invariant
            keep@.len() == i,
            forall|j: int|
                0 <= j < i ==> #[trigger] keep@[j] == eligible(logits@, top_k as nat, j),
    {
        if top_k == 0 || top_k >= logits.len() {
            keep.push(true);
        } else {
            let n = count_above(logits, i, top_k);
            keep.push(n < top_k);
        }
    }
    keep
}

/// The running sum at index `i` reaches the drawn number.
pub open spec fn reaches(sums: Seq<Binary32>, drawn: Binary32, i: int) -> bool {
    drawn.at_most(sums[i])
}

/// The running sum before index `i`.
pub open spec fn sum_before(sums: Seq<Binary32>, i: int) -> Binary32 {
    if i == 0 {
        Binary32 { bits: 0 }
    } else {
        sums[i - 1]
    }
}

/// The token `i` adds something to the running sum.
pub open spec fn has_share(sums: Seq<Binary32>, i: int) -> bool {
    sum_before(sums, i).less(sums[i])
}

/// Some token adds something to the running sum.
pub open spec fn any_share(sums: Seq<Binary32>) -> bool {
    exists|i: int| 0 <= i < sums.len() && #[trigger] has_share(sums, i)
}

/// `r` is the token that a drawn number picks: of the tokens with a share, the
/// first whose running sum reaches the number, and the last one if none does.
/// Where no token has a share it is the last token.
pub open spec fn picks(sums: Seq<Binary32>, drawn: Binary32, r: int) -> bool {
    &&& 0 <= r < sums.len()
    &&& any_share(sums) ==> has_share(sums, r)
    &&& !any_share(sums) ==> r == sums.len() - 1
    &&& forall|j: int|
        0 <= j < r && #[trigger] has_share(sums, j) ==> !reaches(sums, drawn, j)
    &&& !reaches(sums, drawn, r) ==> forall|j: int|
        r < j < sums.len() ==> !#[trigger] has_share(sums, j)
}

/// The token that a drawn number picks: of the tokens with a share, the first
/// whose running sum reaches it, and the last one if none does.
pub fn pick_index(sums: &Vec<Binary32>, drawn: Binary32) -> (r: u32)
    requires
        0 < sums@.len() <= u32::MAX,
    ensures
        picks(sums@, drawn, r as int),
{
    let mut found = false;
    let mut last: usize = sums.len() - 1;
    let mut before = Binary32 { bits: 0 };
    for i in 0..sums.len()
        invariant
            0 < sums@.len() <= u32::MAX,
            last < sums@.len(),
            i < sums@.len() ==> before == sum_before(sums@, i as int),
            found ==> last < i && has_share(sums@, last as int),
            !found ==> last == sums@.len() - 1,
            !found ==> forall|j: int| 0 <= j < i ==> !#[trigger] has_share(sums@, j),
            found ==> forall|j: int| last < j < i ==> !#[trigger] has_share(sums@, j),
            forall|j: int|
                0 <= j < i && #[trigger] has_share(sums@, j) ==> !reaches(sums@, drawn, j),
    {
        if before.is_less(sums[i]) {
            assert(has_share(sums@, i as int));
            found = true;
            last = i;
            if drawn.is_at_most(sums[i]) {
                return i as u32;
            }
        }
        before = sums[i];
    }
    last as u32
}

/// A token that top-k filtering drops is never picked: where the tokens that
/// are dropped have no share, and some token has one, the token that is picked
/// is one that is kept, whatever number is drawn.
pub proof fn law_dropped_token_is_not_picked(
    logits: Seq<Binary32>,
    top_k: nat,
    sums: Seq<Binary32>,
    drawn: Binary32,
    r: int,
)
    requires
        forall|i: int|
            0 <= i < sums.len() && !eligible(logits, top_k, i) ==> !#[trigger] has_share(sums, i),
        any_share(sums),
        picks(sums, drawn, r),
    ensures
        eligible(logits, top_k, r),
{
}

/// One token only is picked by a drawn number.
pub proof fn law_pick_is_unique(sums: Seq<Binary32>, drawn: Binary32, r1: int, r2: int)
    requires
        picks(sums, drawn, r1),
        picks(sums, drawn, r2),
    ensures
        r1 == r2,
{
    if any_share(sums) {
        assert(has_share(sums, r1) && has_share(sums, r2));
    }
}

/// Counting further never lowers the count.
proof fn lemma_tally_grows(m: nat, n: nat, p: spec_fn(int) -> bool)
    requires
        m <= n,
    ensures
        tally(m, p) <= tally(n, p) <= n,
    decreases n,
{
    if m < n {
        lemma_tally_grows(m, (n - 1) as nat, p);
    } else if n > 0 {
        lemma_tally_grows((n - 1) as nat, (n - 1) as nat, p);
    }
}

/// A weaker condition holds at least as often.
proof fn lemma_tally_implies(n: nat, p: spec_fn(int) -> bool, q: spec_fn(int) -> bool)
    requires
        forall|j: int| 0 <= j < n && #[trigger] p(j) ==> q(j),
    ensures
        tally(n, p) <= tally(n, q),
    decreases n,
{
    if n > 0 {
        lemma_tally_implies((n - 1) as nat, p, q);
        assert(p(n - 1) ==> q(n - 1));
    }
}

/// Top-k filtering keeps only the most likely tokens: the logit of a token that
/// is dropped lies below that of every token that is kept.
pub proof fn law_top_k_drops_the_least_likely(
    logits: Seq<Binary32>,
    top_k: nat,
    kept: int,
    dropped: int,
)
    requires
        forall|j: int| 0 <= j < logits.len() ==> !(#[trigger] logits[j]).is_nan(),
        0 <= kept < logits.len(),
        0 <= dropped < logits.len(),
        eligible(logits, top_k, kept),
        !eligible(logits, top_k, dropped),
    ensures
        logits[dropped].less(logits[kept]),
{
    if !logits[dropped].less(logits[kept]) {
        lemma_tally_implies(
            logits.len(),
            |j: int| logits[dropped].less(logits[j]),
            |j: int| logits[kept].less(logits[j]),
        );
    }
}

/// The largest logit among the first `n` tokens that are dropped.
proof fn lemma_largest_dropped(logits: Seq<Binary32>, top_k: nat, n: nat) -> (m: int)
    requires
        n <= logits.len(),
        forall|j: int| 0 <= j < logits.len() ==> !(#[trigger] logits[j]).is_nan(),
        exists|i: int| 0 <= i < n && !#[trigger] eligible(logits, top_k, i),
    ensures
        0 <= m < n,
        !eligible(logits, top_k, m),
        forall|i: int|
            0 <= i < n && !#[trigger] eligible(logits, top_k, i) ==> logits[i].at_most(logits[m]),
    decreases n,
{
    let k = (n - 1) as nat;
    if exists|i: int| 0 <= i < k && !#[trigger] eligible(logits, top_k, i) {
        let m = lemma_largest_dropped(logits, top_k, k);
        if !eligible(logits, top_k, k as int) && logits[m].less(logits[k as int]) {
            k as int
        } else {
            m
        }
    } else {
        k as int
    }
}

/// Top-k filtering keeps at least `top_k` tokens, or all if there are fewer.
pub proof fn law_top_k_keeps_enough(logits: Seq<Binary32>, top_k: nat)
    requires
        forall|j: int| 0 <= j < logits.len() ==> !(#[trigger] logits[j]).is_nan(),
    ensures
        tally(logits.len(), |j: int| eligible(logits, top_k, j)) >= top_k || tally(
            logits.len(),
            |j: int| eligible(logits, top_k, j),
        ) == logits.len(),
{
    let kept = |j: int| eligible(logits, top_k, j);
    if exists|i: int| 0 <= i < logits.len() && !#[trigger] eligible(logits, top_k, i) {
        let m = lemma_largest_dropped(logits, top_k, logits.len());
        let over = |j: int| logits[m].less(logits[j]);
        assert forall|j: int| 0 <= j < logits.len() && #[trigger] over(j) implies kept(j) by {
            if !eligible(logits, top_k, j) {
                assert(logits[j].at_most(logits[m]));
            }
        }
        lemma_tally_implies(logits.len(), over, kept);
    } else {
        lemma_tally_all(logits.len(), kept);
    }
}

/// A condition that always holds is counted every time.
proof fn lemma_tally_all(n: nat, p: spec_fn(int) -> bool)
    requires
        forall|j: int| 0 <= j < n ==> #[trigger] p(j),
    ensures
        tally(n, p) == n,
    decreases n,
{
    if n > 0 {
        lemma_tally_all((n - 1) as nat, p);
        assert(p(n - 1));
    }
}

/// The tokens whose logits lie above that of the `i`-th.
pub open spec fn tokens_above(logits: Seq<Binary32>, i: int) -> Set<int> {
    Set::new(|j: int| 0 <= j < logits.len() && logits[i].less(logits[j]))
}

/// Counting is counting: the tally is the number of indices.
proof fn lemma_tally_is_size(n: nat, p: spec_fn(int) -> bool)
    ensures
        Set::new(|j: int| 0 <= j < n && p(j)).finite(),
        tally(n, p) == Set::new(|j: int| 0 <= j < n && p(j)).len(),
    decreases n,
{
    let all = Set::new(|j: int| 0 <= j < n && p(j));
    if n == 0 {
        assert(all =~= Set::empty());
    } else {
        let fewer = Set::new(|j: int| 0 <= j < n - 1 && p(j));
        lemma_tally_is_size((n - 1) as nat, p);
        assert(fewer =~= Set::new(|j: int| 0 <= j < (n - 1) as nat && p(j)));
        assert(!fewer.contains(n - 1));
        if p(n - 1) {
            assert(all =~= fewer.insert(n - 1));
        } else {
            assert(all =~= fewer);
        }
    }
}

/// Top-k filtering keeps a token if and only if fewer than `top_k` logits lie
/// above its own. It is off at 0, and where `top_k` covers the vocabulary.
pub proof fn law_top_k_keeps_the_top_k(logits: Seq<Binary32>, top_k: nat, i: int)
    ensures
        top_k == 0 || top_k >= logits.len() ==> eligible(logits, top_k, i),
        0 < top_k < logits.len() ==> (eligible(logits, top_k, i) <==> tokens_above(
            logits,
            i,
        ).len() < top_k),
{
    let p = |j: int| logits[i].less(logits[j]);
    lemma_tally_is_size(logits.len(), p);
    assert(tokens_above(logits, i) =~= Set::new(|j: int| 0 <= j < logits.len() && p(j)));
}

/// Where the running sums never fall and a positive number is drawn that one of
/// them reaches, the token that is picked is the first whose sum reaches it.
pub proof fn law_pick_is_the_first_reached(
    sums: Seq<Binary32>,
    drawn: Binary32,
    r: int,
    reached: int,
)
    requires
        picks(sums, drawn, r),
        (Binary32 { bits: 0 }).less(drawn),
        forall|i: int| 0 < i < sums.len() ==> sums[i - 1].at_most(#[trigger] sums[i]),
        (Binary32 { bits: 0 }).at_most(sums[0]),
        0 <= reached < sums.len(),
        drawn.at_most(sums[reached]),
    ensures
        drawn.at_most(sums[r]),
        forall|j: int| 0 <= j < r ==> !drawn.at_most(#[trigger] sums[j]),
{
    let first = lemma_first_reached(sums, drawn, reached);
    assert(has_share(sums, first));
    assert(any_share(sums));
    if r < first {
        assert(!reaches(sums, drawn, r));
        assert(!has_share(sums, first));
    } else if first < r {
        assert(!reaches(sums, drawn, first));
    }
}

/// The first running sum that reaches a number has a share in it.
proof fn lemma_first_reached(sums: Seq<Binary32>, drawn: Binary32, reached: int) -> (first: int)
    requires
        (Binary32 { bits: 0 }).less(drawn),
        forall|i: int| 0 < i < sums.len() ==> sums[i - 1].at_most(#[trigger] sums[i]),
        (Binary32 { bits: 0 }).at_most(sums[0]),
        0 <= reached < sums.len(),
        drawn.at_most(sums[reached]),
    ensures
        0 <= first <= reached,
        drawn.at_most(sums[first]),
        has_share(sums, first),
        forall|j: int| 0 <= j < first ==> !drawn.at_most(#[trigger] sums[j]),
    decreases reached,
{
    if reached > 0 && drawn.at_most(sums[reached - 1]) {
        lemma_first_reached(sums, drawn, reached - 1)
    } else {
        if reached > 0 {
            lemma_below(sums, drawn, reached - 1);
            assert(sums[reached - 1].at_most(sums[reached]));
        }
        reached
    }
}

/// Where a running sum does not reach a number, none before it does.
proof fn lemma_below(sums: Seq<Binary32>, drawn: Binary32, n: int)
    requires
        forall|i: int| 0 < i < sums.len() ==> sums[i - 1].at_most(#[trigger] sums[i]),
        0 <= n < sums.len(),
        !drawn.at_most(sums[n]),
    ensures
        forall|j: int| 0 <= j <= n ==> !drawn.at_most(#[trigger] sums[j]),
    decreases n,
{
    if n > 0 {
        assert(sums[n - 1].at_most(sums[n]));
        lemma_below(sums, drawn, n - 1);
    }
}

/// Where the drawn number lies beyond every running sum, the last token with a
/// share is picked; where it lies below all of them, the first one.
pub proof fn law_pick_at_the_ends(sums: Seq<Binary32>, drawn: Binary32, r: int, j: int)
    requires
        picks(sums, drawn, r),
        0 <= j < sums.len(),
        (if j == 0 {
            Binary32 { bits: 0 }
        } else {
            sums[j - 1]
        }).less(sums[j]),
    ensures
        (forall|i: int| 0 <= i < sums.len() ==> !drawn.at_most(#[trigger] sums[i])) ==> j <= r,
        (forall|i: int| 0 <= i < sums.len() ==> drawn.at_most(#[trigger] sums[i])) ==> r <= j,
        (if r == 0 {
            Binary32 { bits: 0 }
        } else {
            sums[r - 1]
        }).less(sums[r]),
{
    assert(has_share(sums, j));
    assert(any_share(sums));
    assert(has_share(sums, r));
}

} // verus!
