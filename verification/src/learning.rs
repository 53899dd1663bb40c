//! The mathematics of learning merges from a corpus.
//!
//! Learning repeats one step: find the adjacent pair that occurs most often,
//! and if it occurs at least twice give it the next token id and replace it
//! throughout the corpus. Of several equally frequent pairs the one that
//! occurs first is taken, so learning depends on the corpus alone.
use vstd::prelude::*;

use crate::merging::{
    byte_ids, decoded, encoded, expandable, expansion, law_roundtrip, lemma_decoded_bytes,
    lemma_decoded_concat, lemma_decoded_one, Merge, MAX_MERGES,
};

verus! {

/// How often the pair `(a, b)` occurs in `ids`, overlapping occurrences included.
pub open spec fn pair_count(ids: Seq<u32>, a: u32, b: u32) -> nat
    decreases ids.len(),
{
    if ids.len() < 2 {
        0
    } else {
        let n = ids.len();
        pair_count(ids.drop_last(), a, b) + if ids[n - 2] == a && ids[n - 1] == b {
            1nat
        } else {
            0
        }
    }
}

/// How often the pair that starts at position `i` occurs.
pub open spec fn count_at(ids: Seq<u32>, i: int) -> nat {
    pair_count(ids, ids[i], ids[i + 1])
}

/// Among the pairs that start before `n`: the position of the most frequent
/// one, the first where several are equally frequent.
pub open spec fn commonest(ids: Seq<u32>, n: int) -> Option<int>
    decreases n,
{
    if n <= 0 {
        None
    } else {
        match commonest(ids, n - 1) {
            None => Some(n - 1),
            Some(p) => if count_at(ids, p) < count_at(ids, n - 1) {
                Some(n - 1)
            } else {
                Some(p)
            },
        }
    }
}

/// `ids` with every occurrence of the pair `(a, b)`, taken from the left and
/// without overlap, replaced by `id`.
pub open spec fn replaced(ids: Seq<u32>, a: u32, b: u32, id: u32) -> Seq<u32>
    decreases ids.len(),
{
    if ids.len() < 2 {
        ids
    } else if ids[0] == a && ids[1] == b {
        seq![id] + replaced(ids.skip(2), a, b, id)
    } else {
        seq![ids[0]] + replaced(ids.skip(1), a, b, id)
    }
}

/// The corpus after the first `n` merges have been applied to it.
pub open spec fn corpus_after(ids: Seq<u32>, merges: Seq<Merge>, n: int) -> Seq<u32>
    decreases n,
{
    if n <= 0 {
        ids
    } else {
        let m = merges[n - 1];
        replaced(corpus_after(ids, merges, n - 1), m.0, m.1, m.2)
    }
}

/// The merge that learning adds to `known` merges when the corpus is `ids`.
pub open spec fn next_merge(ids: Seq<u32>, known: nat) -> Option<Merge> {
    match commonest(ids, ids.len() - 1) {
        Some(p) => if count_at(ids, p) >= 2 {
            Some((ids[p], ids[p + 1], (256 + known) as u32))
        } else {
            None
        },
        None => None,
    }
}

/// Up to `budget` more merges, learned from the corpus `ids` after `known`.
pub open spec fn learned(ids: Seq<u32>, known: Seq<Merge>, budget: nat) -> Seq<Merge>
    decreases budget,
{
    if budget == 0 {
        known
    } else {
        match next_merge(ids, known.len()) {
            Some(m) => learned(
                replaced(ids, m.0, m.1, m.2),
                known.push(m),
                (budget - 1) as nat,
            ),
            None => known,
        }
    }
}

/// All tokens of `ids` are below `bound`.
pub open spec fn below(ids: Seq<u32>, bound: nat) -> bool {
    forall|i: int| 0 <= i < ids.len() ==> (#[trigger] ids[i]) < bound
}

/// The pair `(a, b)` occurs nowhere in `ids`.
pub open spec fn absent(ids: Seq<u32>, a: u32, b: u32) -> bool {
    forall|i: int, j: int|
        0 <= i && j == i + 1 && j < ids.len() ==> !(#[trigger] ids[i] == a && #[trigger] ids[j] == b)
}

/// No two merges join the same pair.
pub open spec fn distinct_pairs(merges: Seq<Merge>) -> bool {
    forall|i: int, j: int|
        0 <= i < j < merges.len() ==> (#[trigger] merges[i]).0 != (#[trigger] merges[j]).0
            || merges[i].1 != merges[j].1
}

/// Every merge carries the id that its place in the list gives it.
pub open spec fn numbered(merges: Seq<Merge>) -> bool {
    forall|i: int| 0 <= i < merges.len() ==> (#[trigger] merges[i]).2 == 256 + i
}

// ---------------------------------------------------------------------------
// Counting
// ---------------------------------------------------------------------------

/// A pair that occurs is counted, one that is counted occurs.
pub proof fn lemma_count_positive(ids: Seq<u32>, a: u32, b: u32)
    ensures
        absent(ids, a, b) <==> pair_count(ids, a, b) == 0,
    decreases ids.len(),
{
    if ids.len() >= 2 {
        let init = ids.drop_last();
        let n = ids.len();
        lemma_count_positive(init, a, b);
        if absent(ids, a, b) {
            assert(absent(init, a, b)) by {
                assert forall|i: int, j: int| 0 <= i && j == i + 1 && j < init.len() implies !(
                #[trigger] init[i] == a && #[trigger] init[j] == b) by {
                    assert(ids[i] == init[i] && ids[j] == init[j]);
                }
            }
            assert(!(ids[n - 2] == a && ids[n - 1] == b));
        }
        if pair_count(ids, a, b) == 0 {
            assert forall|i: int, j: int| 0 <= i && j == i + 1 && j < ids.len() implies !(
            #[trigger] ids[i] == a && #[trigger] ids[j] == b) by {
                if j < n - 1 {
                    assert(init[i] == ids[i] && init[j] == ids[j]);
                }
            }
        }
    }
}

pub proof fn lemma_count_bound(ids: Seq<u32>, a: u32, b: u32)
    ensures
        pair_count(ids, a, b) <= ids.len(),
    decreases ids.len(),
{
    if ids.len() >= 2 {
        lemma_count_bound(ids.drop_last(), a, b);
    }
}

/// The pair chosen is at least as frequent as any other that starts before `n`.
pub proof fn lemma_commonest(ids: Seq<u32>, n: int)
    requires
        n < ids.len(),
    ensures
        n > 0 <==> commonest(ids, n) is Some,
        commonest(ids, n) matches Some(p) ==> {
            &&& 0 <= p < n
            &&& forall|j: int|
                #![trigger count_at(ids, j)]
                0 <= j < n ==> count_at(ids, j) <= count_at(ids, p) && (j < p ==> count_at(ids, j)
                    < count_at(ids, p))
        },
    decreases n,
{
    if n > 0 {
        lemma_commonest(ids, n - 1);
    }
}

// ---------------------------------------------------------------------------
// Replacing
// ---------------------------------------------------------------------------

proof fn lemma_replaced_below(ids: Seq<u32>, a: u32, b: u32, id: u32, bound: nat)
    requires
        below(ids, bound),
        id < bound,
    ensures
        below(replaced(ids, a, b, id), bound),
    decreases ids.len(),
{
    if ids.len() >= 2 {
        if ids[0] == a && ids[1] == b {
            lemma_replaced_below(ids.skip(2), a, b, id, bound);
        } else {
            lemma_replaced_below(ids.skip(1), a, b, id, bound);
        }
    }
}

/// Replacing never lengthens the corpus, and shortens it where the pair occurs.
proof fn lemma_replaced_shrinks(ids: Seq<u32>, a: u32, b: u32, id: u32)
    ensures
        replaced(ids, a, b, id).len() <= ids.len(),
        !absent(ids, a, b) ==> replaced(ids, a, b, id).len() < ids.len(),
        ids.len() > 0 ==> replaced(ids, a, b, id).len() > 0,
    decreases ids.len(),
{
    if ids.len() >= 2 {
        if ids[0] == a && ids[1] == b {
            lemma_replaced_shrinks(ids.skip(2), a, b, id);
        } else {
            let rest = ids.skip(1);
            lemma_replaced_shrinks(rest, a, b, id);
            if absent(rest, a, b) {
                assert forall|i: int, j: int| 0 <= i && j == i + 1 && j < ids.len() implies !(
                #[trigger] ids[i] == a && #[trigger] ids[j] == b) by {
                    if i > 0 {
                        assert(rest[i - 1] == ids[i] && rest[j - 1] == ids[j]);
                    }
                }
            }
        }
    }
}

/// The first token of the replaced corpus is the new one or the old first one.
proof fn lemma_replaced_first(ids: Seq<u32>, a: u32, b: u32, id: u32)
    requires
        ids.len() > 0,
    ensures
        replaced(ids, a, b, id).len() > 0,
        replaced(ids, a, b, id)[0] == id || replaced(ids, a, b, id)[0] == ids[0],
        replaced(ids, a, b, id)[0] == ids[0] && ids[0] != id && ids.len() >= 2 ==> !(ids[0] == a
            && ids[1] == b),
{
}

proof fn lemma_absent_cons(x: u32, rest: Seq<u32>, c: u32, d: u32)
    requires
        absent(rest, c, d),
        rest.len() > 0 ==> !(x == c && rest[0] == d),
    ensures
        absent(seq![x] + rest, c, d),
{
    let s = seq![x] + rest;
    assert forall|i: int, j: int| 0 <= i && j == i + 1 && j < s.len() implies !(#[trigger] s[i] == c
        && #[trigger] s[j] == d) by {
        if i > 0 {
            assert(s[i] == rest[i - 1] && s[j] == rest[j - 1]);
        }
    }
}

proof fn lemma_absent_skip(ids: Seq<u32>, k: int, c: u32, d: u32)
    requires
        absent(ids, c, d),
        0 <= k <= ids.len(),
    ensures
        absent(ids.skip(k), c, d),
{
    let s = ids.skip(k);
    assert forall|i: int, j: int| 0 <= i && j == i + 1 && j < s.len() implies !(#[trigger] s[i] == c
        && #[trigger] s[j] == d) by {
        assert(s[i] == ids[i + k] && s[j] == ids[j + k]);
    }
}

/// After replacing a pair by a new token the pair is gone, and no pair of
/// tokens other than the new one appears that was not there before.
proof fn lemma_replaced_absent(ids: Seq<u32>, a: u32, b: u32, id: u32, c: u32, d: u32)
    requires
        id != c,
        id != d,
        absent(ids, c, d) || (c == a && d == b),
    ensures
        absent(replaced(ids, a, b, id), c, d),
    decreases ids.len(),
{
    if ids.len() >= 2 {
        if ids[0] == a && ids[1] == b {
            let rest = ids.skip(2);
            if absent(ids, c, d) {
                lemma_absent_skip(ids, 2, c, d);
            }
            lemma_replaced_absent(rest, a, b, id, c, d);
            lemma_absent_cons(id, replaced(rest, a, b, id), c, d);
        } else {
            let rest = ids.skip(1);
            if absent(ids, c, d) {
                lemma_absent_skip(ids, 1, c, d);
            }
            lemma_replaced_absent(rest, a, b, id, c, d);
            lemma_replaced_first(rest, a, b, id);
            lemma_absent_cons(ids[0], replaced(rest, a, b, id), c, d);
        }
    }
}

// ---------------------------------------------------------------------------
// One step of learning
// ---------------------------------------------------------------------------

/// What one step of learning does to a corpus of tokens below `256 + known`.
pub proof fn lemma_step(ids: Seq<u32>, known: nat)
    requires
        below(ids, 256 + known),
        known < MAX_MERGES,
    ensures
        next_merge(ids, known) matches Some(m) ==> {
            &&& m.0 < 256 + known
            &&& m.1 < 256 + known
            &&& m.2 == 256 + known
            &&& pair_count(ids, m.0, m.1) >= 2
            &&& !absent(ids, m.0, m.1)
            &&& below(replaced(ids, m.0, m.1, m.2), 256 + known + 1)
            &&& replaced(ids, m.0, m.1, m.2).len() < ids.len()
            &&& replaced(ids, m.0, m.1, m.2).len() > 0
        },
{
    if ids.len() > 0 {
        lemma_commonest(ids, ids.len() - 1);
    }
    if let Some(m) = next_merge(ids, known) {
        lemma_count_positive(ids, m.0, m.1);
        assert(below(ids, 256 + known + 1));
        lemma_replaced_below(ids, m.0, m.1, m.2, 256 + known + 1);
        lemma_replaced_shrinks(ids, m.0, m.1, m.2);
    }
}

/// The pair that a step takes is a most frequent one; where no step is taken
/// every pair occurs at most once.
pub proof fn lemma_step_most_frequent(ids: Seq<u32>, known: nat, a: u32, b: u32)
    ensures
        next_merge(ids, known) matches Some(m) ==> pair_count(ids, a, b) <= pair_count(ids, m.0, m.1),
        next_merge(ids, known) is None ==> pair_count(ids, a, b) < 2,
{
    lemma_count_positive(ids, a, b);
    if ids.len() > 0 {
        lemma_commonest(ids, ids.len() - 1);
    }
    if !absent(ids, a, b) {
        let (i, j) = choose|i: int, j: int|
            0 <= i && j == i + 1 && j < ids.len() && (#[trigger] ids[i] == a && #[trigger] ids[j] == b);
        assert(count_at(ids, i) == pair_count(ids, a, b));
        assert(0 <= i < ids.len() - 1);
    }
}

// ---------------------------------------------------------------------------
// Laws of learning
// ---------------------------------------------------------------------------

/// What holds of `known` merges and the corpus they have been applied to.
pub open spec fn consistent(start: Seq<u32>, ids: Seq<u32>, known: Seq<Merge>) -> bool {
    &&& ids == corpus_after(start, known, known.len() as int)
    &&& below(ids, 256 + known.len())
    &&& expandable(known)
    &&& numbered(known)
    &&& distinct_pairs(known)
    &&& forall|i: int|
        0 <= i < known.len() ==> absent(ids, (#[trigger] known[i]).0, known[i].1)
}

proof fn lemma_corpus_prefix(start: Seq<u32>, short: Seq<Merge>, long: Seq<Merge>, n: int)
    requires
        n <= short.len() <= long.len(),
        forall|i: int| 0 <= i < short.len() ==> short[i] == #[trigger] long[i],
    ensures
        corpus_after(start, short, n) == corpus_after(start, long, n),
    decreases n,
{
    if n > 0 {
        lemma_corpus_prefix(start, short, long, n - 1);
        assert(short[n - 1] == long[n - 1]);
    }
}

pub proof fn lemma_step_consistent(start: Seq<u32>, ids: Seq<u32>, known: Seq<Merge>)
    requires
        consistent(start, ids, known),
        known.len() < MAX_MERGES,
    ensures
        next_merge(ids, known.len()) matches Some(m) ==> consistent(
            start,
            replaced(ids, m.0, m.1, m.2),
            known.push(m),
        ),
{
    lemma_step(ids, known.len());
    if let Some(m) = next_merge(ids, known.len()) {
        let more = known.push(m);
        let next = replaced(ids, m.0, m.1, m.2);
        lemma_corpus_prefix(start, known, more, known.len() as int);
        assert forall|i: int| 0 <= i < more.len() implies absent(
            next,
            (#[trigger] more[i]).0,
            more[i].1,
        ) by {
            if i < known.len() {
                assert(more[i] == known[i]);
            }
            lemma_replaced_absent(ids, m.0, m.1, m.2, more[i].0, more[i].1);
        }
        assert forall|i: int, j: int| 0 <= i < j < more.len() implies (#[trigger] more[i]).0 != (
        #[trigger] more[j]).0 || more[i].1 != more[j].1 by {
            assert(more[i] == known[i]);
            if j < known.len() {
                assert(more[j] == known[j]);
            }
        }
    }
}

/// Merges that are already known stay, and at most `budget` more are learned,
/// each shortening the corpus by at least one token.
pub proof fn lemma_learned_prefix(ids: Seq<u32>, known: Seq<Merge>, budget: nat)
    requires
        below(ids, 256 + known.len()),
        known.len() + budget <= MAX_MERGES || known.len() + ids.len() <= MAX_MERGES,
    ensures
        known.len() <= learned(ids, known, budget).len() <= known.len() + budget,
        learned(ids, known, budget).len() <= known.len() + ids.len(),
        forall|i: int| 0 <= i < known.len() ==> #[trigger] learned(ids, known, budget)[i] == known[i],
    decreases budget,
{
    if budget > 0 {
        if known.len() < MAX_MERGES {
            lemma_step(ids, known.len());
        } else {
            assert(ids.len() == 0);
        }
        if let Some(m) = next_merge(ids, known.len()) {
            let more = known.push(m);
            let next = replaced(ids, m.0, m.1, m.2);
            lemma_learned_prefix(next, more, (budget - 1) as nat);
            assert forall|i: int| 0 <= i < known.len() implies #[trigger] learned(
                ids,
                known,
                budget,
            )[i] == known[i] by {
                assert(learned(next, more, (budget - 1) as nat)[i] == more[i]);
            }
        }
    }
}

/// Learned merges are well formed: they join earlier tokens, carry consecutive
/// ids, and never join the same pair twice.
pub proof fn lemma_learned_consistent(
    start: Seq<u32>,
    ids: Seq<u32>,
    known: Seq<Merge>,
    budget: nat,
)
    requires
        consistent(start, ids, known),
        known.len() + budget <= MAX_MERGES || known.len() + ids.len() <= MAX_MERGES,
    ensures
        ({
            let all = learned(ids, known, budget);
            consistent(start, corpus_after(start, all, all.len() as int), all)
        }),
    decreases budget,
{
    if budget > 0 {
        if known.len() < MAX_MERGES {
            lemma_step(ids, known.len());
            lemma_step_consistent(start, ids, known);
        } else {
            assert(ids.len() == 0);
        }
        if let Some(m) = next_merge(ids, known.len()) {
            lemma_learned_consistent(
                start,
                replaced(ids, m.0, m.1, m.2),
                known.push(m),
                (budget - 1) as nat,
            );
        }
    }
}

/// Learning from a corpus of bytes gives merges that join earlier tokens,
/// carry consecutive ids from 256 on, and never join the same pair twice.
pub proof fn law_learned_wellformed(ids: Seq<u32>, budget: nat)
    requires
        below(ids, 256),
        budget <= MAX_MERGES || ids.len() <= MAX_MERGES,
    ensures
        learned(ids, Seq::empty(), budget).len() <= budget,
        learned(ids, Seq::empty(), budget).len() <= ids.len(),
        expandable(learned(ids, Seq::empty(), budget)),
        numbered(learned(ids, Seq::empty(), budget)),
        distinct_pairs(learned(ids, Seq::empty(), budget)),
{
    lemma_learned_prefix(ids, Seq::empty(), budget);
    lemma_learned_consistent(ids, ids, Seq::empty(), budget);
}

/// A tokenizer that was learned from some bytes decodes what it encodes,
/// exactly, whatever the text.
pub proof fn law_learned_roundtrip(corpus: Seq<u8>, budget: nat, text: Seq<u8>)
    requires
        budget <= MAX_MERGES || corpus.len() <= MAX_MERGES,
    ensures
        ({
            let merges = learned(byte_ids(corpus), Seq::empty(), budget);
            decoded(merges, encoded(merges, text)) == text
        }),
{
    law_learned_wellformed(byte_ids(corpus), budget);
    law_roundtrip(learned(byte_ids(corpus), Seq::empty(), budget), text);
}

proof fn lemma_learned_most_frequent(
    start: Seq<u32>,
    ids: Seq<u32>,
    known: Seq<Merge>,
    budget: nat,
    i: int,
    a: u32,
    b: u32,
)
    requires
        consistent(start, ids, known),
        known.len() + budget <= MAX_MERGES || known.len() + ids.len() <= MAX_MERGES,
        known.len() <= i <= learned(ids, known, budget).len(),
    ensures
        ({
            let all = learned(ids, known, budget);
            let corpus = corpus_after(start, all, i);
            if i < all.len() {
                &&& pair_count(corpus, all[i].0, all[i].1) >= 2
                &&& pair_count(corpus, a, b) <= pair_count(corpus, all[i].0, all[i].1)
            } else {
                all.len() < known.len() + budget ==> pair_count(corpus, a, b) < 2
            }
        }),
    decreases budget,
{
    let all = learned(ids, known, budget);
    lemma_learned_prefix(ids, known, budget);
    if i == known.len() {
        lemma_corpus_prefix(start, known, all, i);
        lemma_step_most_frequent(ids, known.len(), a, b);
    }
    if budget > 0 {
        if known.len() < MAX_MERGES {
            lemma_step(ids, known.len());
            lemma_step_consistent(start, ids, known);
        } else {
            assert(ids.len() == 0);
        }
        if let Some(m) = next_merge(ids, known.len()) {
            let more = known.push(m);
            let next = replaced(ids, m.0, m.1, m.2);
            lemma_learned_prefix(next, more, (budget - 1) as nat);
            assert(all[known.len() as int] == more[known.len() as int]);
            if i > known.len() {
                lemma_learned_most_frequent(start, next, more, (budget - 1) as nat, i, a, b);
            }
        }
    }
}

/// Each learned merge joins a pair that, in the corpus as the earlier merges
/// left it, occurs at least twice and at least as often as any other pair.
pub proof fn law_learned_most_frequent(ids: Seq<u32>, budget: nat, i: int, a: u32, b: u32)
    requires
        below(ids, 256),
        budget <= MAX_MERGES || ids.len() <= MAX_MERGES,
        0 <= i < learned(ids, Seq::empty(), budget).len(),
    ensures
        ({
            let merges = learned(ids, Seq::empty(), budget);
            let corpus = corpus_after(ids, merges, i);
            &&& pair_count(corpus, merges[i].0, merges[i].1) >= 2
            &&& pair_count(corpus, a, b) <= pair_count(corpus, merges[i].0, merges[i].1)
        }),
{
    lemma_learned_most_frequent(ids, ids, Seq::empty(), budget, i, a, b);
}

/// Fewer merges than asked for are learned only when no pair of the remaining
/// corpus occurs twice.
pub proof fn law_learned_exhausts(ids: Seq<u32>, budget: nat, a: u32, b: u32)
    requires
        below(ids, 256),
        budget <= MAX_MERGES || ids.len() <= MAX_MERGES,
        learned(ids, Seq::empty(), budget).len() < budget,
    ensures
        ({
            let merges = learned(ids, Seq::empty(), budget);
            pair_count(corpus_after(ids, merges, merges.len() as int), a, b) < 2
        }),
{
    let merges = learned(ids, Seq::empty(), budget);
    lemma_learned_most_frequent(ids, ids, Seq::empty(), budget, merges.len() as int, a, b);
}

/// The places where the pair `(a, b)` occurs.
pub open spec fn places(ids: Seq<u32>, a: u32, b: u32) -> Set<int> {
    Set::new(|i: int| 0 <= i < ids.len() - 1 && ids[i] == a && ids[i + 1] == b)
}

/// A pair is counted once for each place where it occurs.
pub proof fn law_pairs_are_counted(ids: Seq<u32>, a: u32, b: u32)
    ensures
        places(ids, a, b).finite(),
        pair_count(ids, a, b) == places(ids, a, b).len(),
    decreases ids.len(),
{
    let all = places(ids, a, b);
    if ids.len() < 2 {
        assert(all =~= Set::<int>::empty());
    } else {
        let init = ids.drop_last();
        let last = ids.len() - 2;
        let fewer = places(init, a, b);
        law_pairs_are_counted(init, a, b);
        assert(!fewer.contains(last));
        if ids[last] == a && ids[last + 1] == b {
            assert(all =~= fewer.insert(last));
        } else {
            assert(all =~= fewer);
        }
    }
}

/// A corpus without the pair stays as it is.
pub proof fn law_absent_pair_is_not_replaced(ids: Seq<u32>, a: u32, b: u32, id: u32)
    requires
        forall|i: int| 0 <= i < ids.len() - 1 ==> !(#[trigger] ids[i] == a && ids[i + 1] == b),
    ensures
        replaced(ids, a, b, id) == ids,
    decreases ids.len(),
{
    if ids.len() >= 2 {
        let rest = ids.skip(1);
        assert(!(ids[0] == a && ids[1] == b));
        assert forall|i: int| 0 <= i < rest.len() - 1 implies !(#[trigger] rest[i] == a && rest[i + 1]
            == b) by {
            assert(rest[i] == ids[i + 1] && rest[i + 1] == ids[i + 1 + 1]);
        }
        law_absent_pair_is_not_replaced(rest, a, b, id);
        assert(seq![ids[0]] + rest =~= ids);
    }
}

/// The first occurrence of the pair becomes the new token, what stands before
/// it stays, and what stands behind it is replaced on its own.
pub proof fn law_first_occurrence_is_replaced(ids: Seq<u32>, a: u32, b: u32, id: u32, p: int)
    requires
        0 <= p < ids.len() - 1,
        ids[p] == a,
        ids[p + 1] == b,
        forall|i: int| 0 <= i < p ==> !(#[trigger] ids[i] == a && ids[i + 1] == b),
    ensures
        replaced(ids, a, b, id) == ids.subrange(0, p) + seq![id] + replaced(
            ids.subrange(p + 2, ids.len() as int),
            a,
            b,
            id,
        ),
    decreases p,
{
    let tail = ids.subrange(p + 2, ids.len() as int);
    if p == 0 {
        assert(ids.skip(2) =~= tail);
        assert(ids.subrange(0, 0) + seq![id] =~= seq![id]);
    } else {
        let rest = ids.skip(1);
        assert(!(ids[0] == a && ids[1] == b));
        assert forall|i: int| 0 <= i < p - 1 implies !(#[trigger] rest[i] == a && rest[i + 1] == b) by {
            assert(rest[i] == ids[i + 1] && rest[i + 1] == ids[i + 1 + 1]);
        }
        law_first_occurrence_is_replaced(rest, a, b, id, p - 1);
        assert(rest.subrange(p + 1, rest.len() as int) =~= tail);
        assert(seq![ids[0]] + (rest.subrange(0, p - 1) + seq![id] + replaced(tail, a, b, id))
            =~= ids.subrange(0, p) + seq![id] + replaced(tail, a, b, id));
    }
}

/// Replacing a pair by a token that stands for it loses no text.
pub proof fn law_replacing_keeps_the_text(
    merges: Seq<Merge>,
    ids: Seq<u32>,
    a: u32,
    b: u32,
    id: u32,
)
    requires
        decoded(merges, seq![id]) == decoded(merges, seq![a, b]),
    ensures
        decoded(merges, replaced(ids, a, b, id)) == decoded(merges, ids),
    decreases ids.len(),
{
    if ids.len() >= 2 {
        if ids[0] == a && ids[1] == b {
            let rest = ids.skip(2);
            law_replacing_keeps_the_text(merges, rest, a, b, id);
            lemma_decoded_concat(merges, seq![id], replaced(rest, a, b, id));
            lemma_decoded_concat(merges, seq![a, b], rest);
            assert(ids =~= seq![a, b] + rest);
        } else {
            let rest = ids.skip(1);
            law_replacing_keeps_the_text(merges, rest, a, b, id);
            lemma_decoded_concat(merges, seq![ids[0]], replaced(rest, a, b, id));
            lemma_decoded_concat(merges, seq![ids[0]], rest);
            assert(ids =~= seq![ids[0]] + rest);
        }
    }
}

/// Applying merges to a corpus begins with the corpus, and one merge more
/// replaces one pair more.
pub proof fn law_merges_are_applied_in_order(ids: Seq<u32>, merges: Seq<Merge>, n: int)
    requires
        0 <= n < merges.len(),
    ensures
        corpus_after(ids, merges, 0) == ids,
        corpus_after(ids, merges, n + 1) == replaced(
            corpus_after(ids, merges, n),
            merges[n].0,
            merges[n].1,
            merges[n].2,
        ),
{
}

proof fn lemma_corpus_decodes(merges: Seq<Merge>, ids: Seq<u32>, n: int)
    requires
        expandable(merges),
        numbered(merges),
        0 <= n <= merges.len(),
    ensures
        decoded(merges, corpus_after(ids, merges, n)) == decoded(merges, ids),
    decreases n,
{
    if n > 0 {
        let m = merges[n - 1];
        lemma_corpus_decodes(merges, ids, n - 1);
        assert(m.2 == 256 + (n - 1));
        assert(seq![m.0, m.1] =~= seq![m.0] + seq![m.1]);
        lemma_decoded_concat(merges, seq![m.0], seq![m.1]);
        lemma_decoded_one(merges, m.0);
        lemma_decoded_one(merges, m.1);
        lemma_decoded_one(merges, m.2);
        assert(expansion(merges, m.2 as int) == expansion(merges, m.0 as int) + expansion(
            merges,
            m.1 as int,
        ));
        law_replacing_keeps_the_text(
            merges,
            corpus_after(ids, merges, n - 1),
            m.0,
            m.1,
            m.2,
        );
    }
}

/// Learning loses no text: however many of the learned merges have been applied
/// to the corpus, it still stands for the bytes that it was made of.
pub proof fn law_learning_keeps_the_text(bytes: Seq<u8>, budget: nat, n: int)
    requires
        budget <= MAX_MERGES || bytes.len() <= MAX_MERGES,
        0 <= n <= learned(byte_ids(bytes), Seq::empty(), budget).len(),
    ensures
        ({
            let merges = learned(byte_ids(bytes), Seq::empty(), budget);
            decoded(merges, corpus_after(byte_ids(bytes), merges, n)) == bytes
        }),
{
    let merges = learned(byte_ids(bytes), Seq::empty(), budget);
    law_learned_wellformed(byte_ids(bytes), budget);
    lemma_corpus_decodes(merges, byte_ids(bytes), n);
    lemma_decoded_bytes(merges, bytes);
}

/// Of several equally frequent pairs the one that occurs first is joined: every
/// pair that begins before it occurs less often.
pub proof fn law_first_of_the_most_frequent(ids: Seq<u32>, known: nat) -> (p: int)
    requires
        next_merge(ids, known) is Some,
    ensures
        0 <= p < ids.len() - 1,
        next_merge(ids, known) == Some((ids[p], ids[p + 1], (256 + known) as u32)),
        forall|j: int|
            0 <= j < p ==> pair_count(ids, #[trigger] ids[j], ids[j + 1]) < pair_count(
                ids,
                ids[p],
                ids[p + 1],
            ),
{
    lemma_commonest(ids, ids.len() - 1);
    let p = commonest(ids, ids.len() - 1)->0;
    assert forall|j: int| 0 <= j < p implies pair_count(ids, #[trigger] ids[j], ids[j + 1])
        < pair_count(ids, ids[p], ids[p + 1]) by {
        assert(count_at(ids, j) < count_at(ids, p));
    }
    p
}

} // verus!
