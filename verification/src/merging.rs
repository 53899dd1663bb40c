//! The mathematics of byte-pair merging.
//!
//! A merge list is a sequence of triples `(left, right, id)`; the merge at
//! index `i` joins the tokens `left` and `right` into the token `256 + i`.
//! Tokens below 256 stand for single bytes. Everything the tokenizer does is
//! described here over sequences, together with the laws that hold of it.
use vstd::prelude::*;

verus! {

/// A learned merge: left token, right token, and the id it was given.
pub type Merge = (u32, u32, u32);

/// Largest number of merges whose ids still fit in a token.
pub const MAX_MERGES: u32 = 0xffff_ff00;

/// Whether `b` separates words: space, tab, line feed, carriage return,
/// vertical tab or form feed.
pub open spec fn separator(b: u8) -> bool {
    b == 0x20 || b == 0x09 || b == 0x0a || b == 0x0d || b == 0x0b || b == 0x0c
}

/// A merge list can be expanded: every merge joins tokens that exist before it.
pub open spec fn expandable(merges: Seq<Merge>) -> bool {
    &&& merges.len() <= MAX_MERGES
    &&& forall|i: int|
        0 <= i < merges.len() ==> (#[trigger] merges[i]).0 < 256 + i && merges[i].1 < 256 + i
}

/// The bytes that a token stands for.
pub open spec fn expansion(merges: Seq<Merge>, id: int) -> Seq<u8>
    decreases id,
{
    if id < 0 || id >= 256 + merges.len() {
        Seq::empty()
    } else if id < 256 {
        seq![id as u8]
    } else {
        let m = merges[id - 256];
        if m.0 < id && m.1 < id {
            expansion(merges, m.0 as int) + expansion(merges, m.1 as int)
        } else {
            Seq::empty()
        }
    }
}

/// The bytes that a token sequence stands for; unknown tokens stand for nothing.
pub open spec fn decoded(merges: Seq<Merge>, ids: Seq<u32>) -> Seq<u8>
    decreases ids.len(),
{
    if ids.len() == 0 {
        Seq::empty()
    } else {
        decoded(merges, ids.drop_last()) + expansion(merges, ids.last() as int)
    }
}

/// Rank of the pair `(a, b)`: the index of the last merge that joins it.
pub open spec fn rank_of(merges: Seq<Merge>, a: u32, b: u32) -> Option<int>
    decreases merges.len(),
{
    if merges.len() == 0 {
        None
    } else if merges.last().0 == a && merges.last().1 == b {
        Some(merges.len() - 1)
    } else {
        rank_of(merges.drop_last(), a, b)
    }
}

/// Rank of the pair that starts at position `i`.
pub open spec fn rank_at(merges: Seq<Merge>, ids: Seq<u32>, i: int) -> Option<int> {
    rank_of(merges, ids[i], ids[i + 1])
}

/// Among the pairs that start before `n`: the position of the pair of lowest
/// rank, the leftmost one where several share it.
pub open spec fn lowest(merges: Seq<Merge>, ids: Seq<u32>, n: int) -> Option<int>
    decreases n,
{
    if n <= 0 {
        None
    } else {
        match (lowest(merges, ids, n - 1), rank_at(merges, ids, n - 1)) {
            (None, Some(_)) => Some(n - 1),
            (Some(p), Some(r)) if r < rank_at(merges, ids, p)->0 => Some(n - 1),
            (p, _) => p,
        }
    }
}

/// `ids` with the two tokens at `pos` replaced by one.
pub open spec fn joined(ids: Seq<u32>, pos: int, id: u32) -> Seq<u32> {
    ids.take(pos).push(id) + ids.skip(pos + 2)
}

/// A token sequence after merging: as long as some pair has a rank, the
/// leftmost pair of lowest rank is joined.
pub open spec fn merged(merges: Seq<Merge>, ids: Seq<u32>) -> Seq<u32>
    decreases ids.len(),
{
    match lowest(merges, ids, ids.len() - 1) {
        Some(p) if 0 <= p < ids.len() - 1 => merged(
            merges,
            joined(ids, p, (256 + rank_at(merges, ids, p)->0) as u32),
        ),
        _ => ids,
    }
}

/// Bytes as the tokens that stand for them.
pub open spec fn byte_ids(bytes: Seq<u8>) -> Seq<u32> {
    bytes.map_values(|b: u8| b as u32)
}

/// Start of the word that ends `bytes`: everything from there on is no separator.
pub open spec fn word_start(bytes: Seq<u8>) -> int
    decreases bytes.len(),
{
    if bytes.len() == 0 || separator(bytes.last()) {
        bytes.len() as int
    } else {
        word_start(bytes.drop_last())
    }
}

/// Encoding of `bytes`: separators stand for themselves, each word between
/// them is merged on its own.
pub open spec fn encoded(merges: Seq<Merge>, bytes: Seq<u8>) -> Seq<u32>
    decreases bytes.len(),
{
    if bytes.len() == 0 {
        Seq::empty()
    } else if separator(bytes.last()) {
        encoded(merges, bytes.drop_last()).push(bytes.last() as u32)
    } else {
        let k = word_start(bytes);
        if 0 <= k < bytes.len() {
            encoded(merges, bytes.take(k)) + merged(merges, byte_ids(bytes.skip(k)))
        } else {
            Seq::empty()
        }
    }
}

// ---------------------------------------------------------------------------
// Ranks
// ---------------------------------------------------------------------------

/// A rank is the index of a merge that joins the pair, and of no earlier one
/// than any other such merge.
pub proof fn lemma_rank_of(merges: Seq<Merge>, a: u32, b: u32)
    ensures
        rank_of(merges, a, b) matches Some(r) ==> {
            &&& 0 <= r < merges.len()
            &&& merges[r].0 == a
            &&& merges[r].1 == b
            &&& forall|j: int| r < j < merges.len() ==> (#[trigger] merges[j]).0 != a || merges[j].1 != b
        },
        rank_of(merges, a, b) is None ==> forall|j: int|
            0 <= j < merges.len() ==> (#[trigger] merges[j]).0 != a || merges[j].1 != b,
    decreases merges.len(),
{
    if merges.len() > 0 && !(merges.last().0 == a && merges.last().1 == b) {
        let init = merges.drop_last();
        lemma_rank_of(init, a, b);
        assert forall|j: int|
            0 <= j < merges.len() && (rank_of(merges, a, b) matches Some(r) ==> r < j) implies (
        #[trigger] merges[j]).0 != a || merges[j].1 != b by {
            if j < init.len() {
                assert(init[j] == merges[j]);
            }
        }
    }
}

/// The pair chosen for merging has the lowest rank of all, and is the leftmost
/// of that rank.
pub proof fn lemma_lowest(merges: Seq<Merge>, ids: Seq<u32>, n: int)
    requires
        n < ids.len(),
    ensures
        lowest(merges, ids, n) matches Some(p) ==> {
            &&& 0 <= p < n
            &&& rank_at(merges, ids, p) is Some
            &&& forall|j: int|
                #![trigger rank_at(merges, ids, j)]
                0 <= j < n && rank_at(merges, ids, j) is Some ==> {
                    &&& rank_at(merges, ids, p)->0 <= rank_at(merges, ids, j)->0
                    &&& j < p ==> rank_at(merges, ids, p)->0 < rank_at(merges, ids, j)->0
                }
        },
        lowest(merges, ids, n) is None ==> forall|j: int|
            #![trigger rank_at(merges, ids, j)]
            0 <= j < n ==> rank_at(merges, ids, j) is None,
    decreases n,
{
    if n > 0 {
        lemma_lowest(merges, ids, n - 1);
    }
}

// ---------------------------------------------------------------------------
// Expansion and decoding
// ---------------------------------------------------------------------------

/// Every token of an expandable merge list stands for at least one byte.
pub proof fn lemma_expansion_nonempty(merges: Seq<Merge>, id: int)
    requires
        expandable(merges),
        0 <= id < 256 + merges.len(),
    ensures
        expansion(merges, id).len() > 0,
    decreases id,
{
    if id >= 256 {
        let m = merges[id - 256];
        lemma_expansion_nonempty(merges, m.0 as int);
        lemma_expansion_nonempty(merges, m.1 as int);
    }
}

/// Appending merges leaves the expansion of the tokens before them alone.
pub proof fn lemma_expansion_prefix(merges: Seq<Merge>, n: int, id: int)
    requires
        expandable(merges),
        0 <= n <= merges.len(),
        0 <= id < 256 + n,
    ensures
        expansion(merges.take(n), id) == expansion(merges, id),
    decreases id,
{
    if id >= 256 {
        let m = merges[id - 256];
        assert(merges.take(n)[id - 256] == m);
        lemma_expansion_prefix(merges, n, m.0 as int);
        lemma_expansion_prefix(merges, n, m.1 as int);
    }
}

/// Decoding is compositional: the bytes of two token sequences, one after the other.
pub proof fn lemma_decoded_concat(merges: Seq<Merge>, a: Seq<u32>, b: Seq<u32>)
    ensures
        decoded(merges, a + b) == decoded(merges, a) + decoded(merges, b),
    decreases b.len(),
{
    if b.len() == 0 {
        assert(a + b =~= a);
        assert(decoded(merges, a) + decoded(merges, b) =~= decoded(merges, a));
    } else {
        assert((a + b).drop_last() =~= a + b.drop_last());
        lemma_decoded_concat(merges, a, b.drop_last());
        assert(decoded(merges, a + b) =~= decoded(merges, a) + decoded(merges, b));
    }
}

/// One token decodes to the bytes that it stands for.
pub proof fn lemma_decoded_one(merges: Seq<Merge>, id: u32)
    ensures
        decoded(merges, seq![id]) == expansion(merges, id as int),
{
    assert(seq![id].drop_last() =~= Seq::<u32>::empty());
    assert(decoded(merges, Seq::<u32>::empty()) =~= Seq::<u8>::empty());
    assert(decoded(merges, seq![id]) =~= expansion(merges, id as int));
}

/// Tokens that stand for single bytes decode to those bytes.
pub proof fn lemma_decoded_bytes(merges: Seq<Merge>, bytes: Seq<u8>)
    ensures
        decoded(merges, byte_ids(bytes)) == bytes,
    decreases bytes.len(),
{
    let ids = byte_ids(bytes);
    if bytes.len() == 0 {
        assert(decoded(merges, ids) =~= bytes);
    } else {
        assert(ids.drop_last() =~= byte_ids(bytes.drop_last()));
        lemma_decoded_bytes(merges, bytes.drop_last());
        assert(expansion(merges, ids.last() as int) =~= seq![bytes.last()]);
        assert(decoded(merges, ids) =~= bytes);
    }
}

/// Joining a pair into the token of its rank leaves the decoded bytes alone.
proof fn lemma_joined_decodes(merges: Seq<Merge>, ids: Seq<u32>, p: int)
    requires
        expandable(merges),
        0 <= p < ids.len() - 1,
        rank_at(merges, ids, p) is Some,
    ensures
        decoded(merges, joined(ids, p, (256 + rank_at(merges, ids, p)->0) as u32)) == decoded(
            merges,
            ids,
        ),
{
    lemma_rank_of(merges, ids[p], ids[p + 1]);
    let r = rank_at(merges, ids, p)->0;
    let id = (256 + r) as u32;
    let head = ids.take(p);
    let tail = ids.skip(p + 2);
    let pair = seq![ids[p], ids[p + 1]];
    assert(joined(ids, p, id) =~= head + seq![id] + tail);
    assert(ids =~= head + pair + tail);
    lemma_decoded_concat(merges, head + seq![id], tail);
    lemma_decoded_concat(merges, head, seq![id]);
    lemma_decoded_concat(merges, head + pair, tail);
    lemma_decoded_concat(merges, head, pair);
    lemma_decoded_one(merges, id);
    assert(pair =~= seq![ids[p]] + seq![ids[p + 1]]);
    lemma_decoded_concat(merges, seq![ids[p]], seq![ids[p + 1]]);
    lemma_decoded_one(merges, ids[p]);
    lemma_decoded_one(merges, ids[p + 1]);
    assert(merges[r].0 < 256 + r && merges[r].1 < 256 + r);
}

// ---------------------------------------------------------------------------
// Words
// ---------------------------------------------------------------------------

/// Merging keeps the decoded bytes, never lengthens a word, never empties one,
/// and leaves no pair that could still be joined.
pub proof fn lemma_merged(merges: Seq<Merge>, ids: Seq<u32>)
    requires
        expandable(merges),
    ensures
        decoded(merges, merged(merges, ids)) == decoded(merges, ids),
        merged(merges, ids).len() <= ids.len(),
        ids.len() > 0 ==> merged(merges, ids).len() > 0,
        forall|j: int|
            #![trigger rank_at(merges, merged(merges, ids), j)]
            0 <= j < merged(merges, ids).len() - 1 ==> rank_at(merges, merged(merges, ids), j) is None,
        (forall|j: int| 0 <= j < ids.len() ==> #[trigger] ids[j] < 256 + merges.len()) ==> (forall|
            j: int,
        |
            0 <= j < merged(merges, ids).len() ==> #[trigger] merged(merges, ids)[j] < 256
                + merges.len()),
    decreases ids.len(),
{
    lemma_lowest(merges, ids, ids.len() - 1);
    match lowest(merges, ids, ids.len() - 1) {
        Some(p) if 0 <= p < ids.len() - 1 => {
            lemma_rank_of(merges, ids[p], ids[p + 1]);
            let next = joined(ids, p, (256 + rank_at(merges, ids, p)->0) as u32);
            lemma_joined_decodes(merges, ids, p);
            lemma_merged(merges, next);
            if forall|j: int| 0 <= j < ids.len() ==> #[trigger] ids[j] < 256 + merges.len() {
                assert forall|j: int| 0 <= j < next.len() implies #[trigger] next[j] < 256
                    + merges.len() by {
                    if j > p {
                        assert(next[j] == ids[j + 1]);
                    } else if j < p {
                        assert(next[j] == ids[j]);
                    }
                }
            }
        },
        _ => {},
    }
}

/// The word that ends `bytes` is the longest run without a separator there.
pub proof fn lemma_word_start(bytes: Seq<u8>)
    ensures
        0 <= word_start(bytes) <= bytes.len(),
        forall|i: int| word_start(bytes) <= i < bytes.len() ==> !separator(#[trigger] bytes[i]),
        word_start(bytes) > 0 ==> separator(bytes[word_start(bytes) - 1]),
    decreases bytes.len(),
{
    if bytes.len() > 0 && !separator(bytes.last()) {
        let init = bytes.drop_last();
        lemma_word_start(init);
        assert forall|i: int| word_start(bytes) <= i < bytes.len() implies !separator(
            #[trigger] bytes[i],
        ) by {
            if i < init.len() {
                assert(init[i] == bytes[i]);
            }
        }
        if word_start(bytes) > 0 {
            assert(init[word_start(bytes) - 1] == bytes[word_start(bytes) - 1]);
        }
    }
}

/// A run without separators that is preceded by a separator, or by nothing,
/// starts where the last word starts.
pub proof fn lemma_word_start_unique(bytes: Seq<u8>, k: int)
    requires
        0 <= k <= bytes.len(),
        forall|i: int| k <= i < bytes.len() ==> !separator(#[trigger] bytes[i]),
        k > 0 ==> separator(bytes[k - 1]),
    ensures
        word_start(bytes) == k,
{
    lemma_word_start(bytes);
    let w = word_start(bytes);
    if w < k {
        assert(!separator(bytes[k - 1]));
    } else if k < w {
        assert(!separator(bytes[w - 1]));
    }
}

// ---------------------------------------------------------------------------
// Laws of encoding
// ---------------------------------------------------------------------------

/// Decoding an encoding gives back the bytes, whatever they are.
pub proof fn law_roundtrip(merges: Seq<Merge>, bytes: Seq<u8>)
    requires
        expandable(merges),
    ensures
        decoded(merges, encoded(merges, bytes)) == bytes,
    decreases bytes.len(),
{
    if bytes.len() == 0 {
        assert(decoded(merges, encoded(merges, bytes)) =~= bytes);
    } else if separator(bytes.last()) {
        law_roundtrip(merges, bytes.drop_last());
        let ids = encoded(merges, bytes);
        assert(ids.drop_last() =~= encoded(merges, bytes.drop_last()));
        assert(expansion(merges, bytes.last() as int) =~= seq![bytes.last()]);
        assert(decoded(merges, ids) =~= bytes);
    } else {
        lemma_word_start(bytes);
        let k = word_start(bytes);
        law_roundtrip(merges, bytes.take(k));
        let word = byte_ids(bytes.skip(k));
        lemma_merged(merges, word);
        lemma_decoded_bytes(merges, bytes.skip(k));
        lemma_decoded_concat(merges, encoded(merges, bytes.take(k)), merged(merges, word));
        assert(bytes.take(k) + bytes.skip(k) =~= bytes);
    }
}

/// An encoding is never longer than the bytes, is empty only for no bytes,
/// and holds only tokens of the vocabulary.
pub proof fn law_encoding_bounds(merges: Seq<Merge>, bytes: Seq<u8>)
    requires
        expandable(merges),
    ensures
        encoded(merges, bytes).len() <= bytes.len(),
        bytes.len() > 0 ==> encoded(merges, bytes).len() > 0,
        forall|j: int|
            0 <= j < encoded(merges, bytes).len() ==> #[trigger] encoded(merges, bytes)[j] < 256
                + merges.len(),
    decreases bytes.len(),
{
    if bytes.len() == 0 {
    } else if separator(bytes.last()) {
        law_encoding_bounds(merges, bytes.drop_last());
    } else {
        lemma_word_start(bytes);
        let k = word_start(bytes);
        law_encoding_bounds(merges, bytes.take(k));
        let word = byte_ids(bytes.skip(k));
        lemma_merged(merges, word);
        assert forall|j: int| 0 <= j < word.len() implies #[trigger] word[j] < 256 + merges.len() by {}
        let front = encoded(merges, bytes.take(k));
        assert forall|j: int| 0 <= j < encoded(merges, bytes).len() implies #[trigger] encoded(
            merges,
            bytes,
        )[j] < 256 + merges.len() by {
            if j < front.len() {
                assert(encoded(merges, bytes)[j] == front[j]);
            } else {
                assert(encoded(merges, bytes)[j] == merged(merges, word)[j - front.len()]);
            }
        }
    }
}

/// Separators are never merged: what stands before one and what stands after
/// it are encoded independently, and the separator is its own token.
pub proof fn law_separators_split(merges: Seq<Merge>, before: Seq<u8>, sep: u8, after: Seq<u8>)
    requires
        separator(sep),
    ensures
        encoded(merges, before.push(sep) + after) == encoded(merges, before).push(sep as u32)
            + encoded(merges, after),
    decreases after.len(),
{
    let whole = before.push(sep) + after;
    let left = encoded(merges, before).push(sep as u32);
    if after.len() == 0 {
        assert(whole =~= before.push(sep));
        assert(before.push(sep).drop_last() =~= before);
        assert(left + encoded(merges, after) =~= left);
    } else if separator(after.last()) {
        assert(whole.drop_last() =~= before.push(sep) + after.drop_last());
        law_separators_split(merges, before, sep, after.drop_last());
        assert(left + encoded(merges, after) =~= (left + encoded(merges, after.drop_last())).push(
            after.last() as u32,
        ));
    } else {
        lemma_word_start(after);
        let k = word_start(after);
        let shift = before.len() + 1;
        assert forall|i: int| shift + k <= i < whole.len() implies !separator(#[trigger] whole[i]) by {
            assert(whole[i] == after[i - shift]);
        }
        assert(separator(whole[shift + k - 1])) by {
            if k > 0 {
                assert(whole[shift + k - 1] == after[k - 1]);
            }
        }
        lemma_word_start_unique(whole, shift + k);
        assert(whole.skip(shift + k) =~= after.skip(k));
        assert(whole.take(shift + k) =~= before.push(sep) + after.take(k));
        law_separators_split(merges, before, sep, after.take(k));
        let word = merged(merges, byte_ids(after.skip(k)));
        assert(whole.last() == after.last());
        assert(left + encoded(merges, after) =~= (left + encoded(merges, after.take(k))) + word);
    }
}

/// Six bytes separate words, and no others do: space, tab, line feed, carriage
/// return, vertical tab and form feed.
pub proof fn law_separators(b: u8)
    ensures
        separator(b) <==> seq![0x20u8, 0x09, 0x0a, 0x0d, 0x0b, 0x0c].contains(b),
{
    let list = seq![0x20u8, 0x09, 0x0a, 0x0d, 0x0b, 0x0c];
    assert(list[0] == 0x20 && list[1] == 0x09 && list[2] == 0x0a && list[3] == 0x0d && list[4]
        == 0x0b && list[5] == 0x0c);
}

/// The rank of a pair is the place of the last merge that joins it; a pair that
/// no merge joins has none.
pub proof fn law_rank_is_the_last_merge(merges: Seq<Merge>, a: u32, b: u32, r: int)
    ensures
        rank_of(merges, a, b) == Some(r) <==> {
            &&& 0 <= r < merges.len()
            &&& merges[r].0 == a && merges[r].1 == b
            &&& forall|j: int|
                r < j < merges.len() ==> !((#[trigger] merges[j]).0 == a && merges[j].1 == b)
        },
        rank_of(merges, a, b) is None <==> forall|j: int|
            0 <= j < merges.len() ==> !((#[trigger] merges[j]).0 == a && merges[j].1 == b),
{
    lemma_rank_of(merges, a, b);
}

/// One pair only is the leftmost of lowest rank.
proof fn lemma_lowest_unique(merges: Seq<Merge>, ids: Seq<u32>, p: int)
    requires
        0 <= p < ids.len() - 1,
        rank_at(merges, ids, p) is Some,
        forall|j: int|
            #![trigger rank_at(merges, ids, j)]
            0 <= j < ids.len() - 1 && rank_at(merges, ids, j) is Some ==> {
                &&& rank_at(merges, ids, p)->0 <= rank_at(merges, ids, j)->0
                &&& j < p ==> rank_at(merges, ids, p)->0 < rank_at(merges, ids, j)->0
            },
    ensures
        lowest(merges, ids, ids.len() - 1) == Some(p),
{
    lemma_lowest(merges, ids, ids.len() - 1);
    match lowest(merges, ids, ids.len() - 1) {
        Some(q) => {
            assert(rank_at(merges, ids, q) is Some);
        },
        None => {},
    }
}

/// Merging joins the pair of lowest rank in the whole word first, the leftmost
/// one where it occurs several times, and goes on with what comes out.
pub proof fn law_lowest_rank_is_joined_first(merges: Seq<Merge>, ids: Seq<u32>, p: int, r: int)
    requires
        merges.len() <= MAX_MERGES,
        0 <= p < ids.len() - 1,
        rank_of(merges, ids[p], ids[p + 1]) == Some(r),
        forall|j: int|
            0 <= j < ids.len() - 1 ==> match rank_of(merges, #[trigger] ids[j], ids[j + 1]) {
                Some(s) => r <= s && (j < p ==> r < s),
                None => true,
            },
    ensures
        merged(merges, ids) == merged(
            merges,
            ids.subrange(0, p) + seq![(256 + r) as u32] + ids.subrange(p + 2, ids.len() as int),
        ),
{
    assert forall|j: int|
        #![trigger rank_at(merges, ids, j)]
        0 <= j < ids.len() - 1 && rank_at(merges, ids, j) is Some implies {
        &&& rank_at(merges, ids, p)->0 <= rank_at(merges, ids, j)->0
        &&& j < p ==> rank_at(merges, ids, p)->0 < rank_at(merges, ids, j)->0
    } by {
        let s = rank_at(merges, ids, j)->0;
        assert(rank_of(merges, ids[j], ids[j + 1]) == Some(s));
    }
    lemma_lowest_unique(merges, ids, p);
    assert(joined(ids, p, (256 + r) as u32) =~= ids.subrange(0, p) + seq![(256 + r) as u32]
        + ids.subrange(p + 2, ids.len() as int));
}

/// A word in which no merge joins any pair stays as it is.
pub proof fn law_nothing_to_join(merges: Seq<Merge>, ids: Seq<u32>)
    requires
        forall|j: int|
            0 <= j < ids.len() - 1 ==> rank_of(merges, #[trigger] ids[j], ids[j + 1]) is None,
    ensures
        merged(merges, ids) == ids,
{
    lemma_lowest(merges, ids, ids.len() - 1);
    if let Some(p) = lowest(merges, ids, ids.len() - 1) {
        assert(rank_at(merges, ids, p) is Some);
        assert(rank_of(merges, ids[p], ids[p + 1]) is None);
    }
}

/// Bytes become tokens of the same values, one for each.
pub proof fn law_byte_tokens(bytes: Seq<u8>, i: int)
    requires
        0 <= i < bytes.len(),
    ensures
        byte_ids(bytes).len() == bytes.len(),
        byte_ids(bytes)[i] == bytes[i],
{
}

/// A word is encoded by merging the tokens of its bytes.
pub proof fn law_word_is_merged(merges: Seq<Merge>, word: Seq<u8>)
    requires
        forall|i: int| 0 <= i < word.len() ==> !separator(#[trigger] word[i]),
    ensures
        encoded(merges, word) == merged(merges, byte_ids(word)),
{
    if word.len() == 0 {
        assert(byte_ids(word) =~= Seq::<u32>::empty());
    } else {
        lemma_word_start_unique(word, 0);
        assert(!separator(word[word.len() - 1]));
        assert(word.skip(0) =~= word);
        assert(word.take(0) =~= Seq::<u8>::empty());
        assert(encoded(merges, word.take(0)) == Seq::<u32>::empty());
        assert(encoded(merges, word) =~= merged(merges, byte_ids(word)));
    }
}

/// What a token stands for: a byte token for that byte, the token of a merge
/// for what the two tokens stand for that it joins, and any other for nothing.
pub proof fn law_token_bytes(merges: Seq<Merge>, id: u32)
    requires
        expandable(merges),
    ensures
        id < 256 ==> decoded(merges, seq![id]) == seq![id as u8],
        256 <= id < 256 + merges.len() ==> decoded(merges, seq![id]) == decoded(
            merges,
            seq![merges[id - 256].0, merges[id - 256].1],
        ),
        id >= 256 + merges.len() ==> decoded(merges, seq![id]) == Seq::<u8>::empty(),
{
    lemma_decoded_one(merges, id);
    if 256 <= id < 256 + merges.len() {
        let m = merges[id - 256];
        assert(seq![m.0, m.1] =~= seq![m.0] + seq![m.1]);
        lemma_decoded_concat(merges, seq![m.0], seq![m.1]);
        lemma_decoded_one(merges, m.0);
        lemma_decoded_one(merges, m.1);
    }
}

/// Tokens are decoded one by one, in order.
pub proof fn law_decoding_is_piecewise(merges: Seq<Merge>, a: Seq<u32>, b: Seq<u32>)
    ensures
        decoded(merges, a + b) == decoded(merges, a) + decoded(merges, b),
        decoded(merges, Seq::empty()) == Seq::<u8>::empty(),
{
    lemma_decoded_concat(merges, a, b);
}

} // verus!
