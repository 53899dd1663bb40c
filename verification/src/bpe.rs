//! Byte-level BPE tokenizer.
//!
//! The base vocabulary is the 256 byte values. [`BpeTokenizer::train`] learns
//! merges of adjacent tokens, [`BpeTokenizer::encode`] maps bytes to token ids
//! by applying them, lowest rank first and word by word, and
//! [`BpeTokenizer::decode`] maps ids back to bytes.
use std::collections::HashMap;
use vstd::prelude::*;

use crate::learning::{
    commonest, consistent, corpus_after, count_at, distinct_pairs, law_learned_exhausts,
    law_learned_most_frequent, law_learned_wellformed, law_learning_keeps_the_text, learned,
    lemma_count_bound, lemma_step, lemma_step_consistent, next_merge,
    numbered, pair_count, replaced,
};
use crate::merging::{
    byte_ids, decoded, encoded, expandable, expansion, joined, law_encoding_bounds, lemma_expansion_prefix,
    lemma_lowest, lemma_rank_of, lemma_word_start_unique, lowest, merged, rank_at, rank_of,
    separator, Merge, MAX_MERGES,
};

verus! {

broadcast use vstd::std_specs::hash::group_hash_axioms;

/// The tokenizer: the ordered list of learned merges. The merge at index `i`
/// is `(left, right, new_id)`; learning gives it the id `256 + i`.
#[derive(Clone, Debug)]
pub struct BpeTokenizer {
    merges: Vec<Merge>,
}

impl View for BpeTokenizer {
    type V = Seq<Merge>;

    closed spec fn view(&self) -> Seq<Merge> {
        self.merges@
    }
}

/// One number for a pair of tokens.
spec fn key_of(a: u32, b: u32) -> u64 {
    (a * 0x1_0000_0000 + b) as u64
}

fn pair_key(a: u32, b: u32) -> (k: u64)
    ensures
        k == key_of(a, b),
{
    a as u64 * 0x1_0000_0000 + b as u64
}

proof fn lemma_key_injective(a: u32, b: u32, c: u32, d: u32)
    requires
        key_of(a, b) == key_of(c, d),
    ensures
        a == c && b == d,
{
}

/// Lookups derived from a tokenizer's merges: the rank of each pair, and the
/// bytes of each token.
pub struct BpeData {
    ranks: HashMap<u64, usize>,
    expand: Vec<Vec<u8>>,
    source: Ghost<Seq<Merge>>,
}

/// `ranks` maps the key of each pair to its rank.
spec fn ranks_match(ranks: Map<u64, usize>, merges: Seq<Merge>) -> bool {
    forall|a: u32, b: u32|
        #![trigger key_of(a, b)]
        match rank_of(merges, a, b) {
            Some(r) => ranks.contains_key(key_of(a, b)) && ranks[key_of(a, b)] == r,
            None => !ranks.contains_key(key_of(a, b)),
        }
}

/// `expand` lists the bytes of every token.
spec fn expand_matches(expand: Seq<Vec<u8>>, merges: Seq<Merge>) -> bool {
    &&& expand.len() == 256 + merges.len()
    &&& forall|id: int| 0 <= id < expand.len() ==> (#[trigger] expand[id])@ == expansion(merges, id)
}

impl View for BpeData {
    type V = Seq<Merge>;

    /// The merges that the lookups were derived from.
    closed spec fn view(&self) -> Seq<Merge> {
        self.source@
    }
}

impl BpeData {
    #[verifier::type_invariant]
    spec fn matches_source(self) -> bool {
        &&& expandable(self.source@)
        &&& ranks_match(self.ranks@, self.source@)
        &&& expand_matches(self.expand@, self.source@)
    }

    /// The rank of the pair `(a, b)`.
    fn rank(&self, a: u32, b: u32) -> (r: Option<usize>)
        ensures
            match r {
                Some(r) => rank_of(self@, a, b) == Some(r as int) && r < self@.len() && self@.len()
                    <= MAX_MERGES,
                None => rank_of(self@, a, b) is None,
            },
    {
        proof {
            use_type_invariant(self);
            lemma_rank_of(self.source@, a, b);
            assert(key_of(a, b) == key_of(a, b));
        }
        match self.ranks.get(&pair_key(a, b)) {
            Some(r) => Some(*r),
            None => None,
        }
    }
}

/// Whether `b` separates words; separators are never merged.
fn is_whitespace(b: u8) -> (r: bool)
    ensures
        r == separator(b),
{
    b == 0x20 || b == 0x09 || b == 0x0a || b == 0x0d || b == 0x0b || b == 0x0c
}

/// Appends the merged tokens of one word to `out`.
fn encode_word(word: &Vec<u8>, data: &BpeData, out: &mut Vec<u32>)
    ensures
        final(out)@ == old(out)@ + merged(data@, byte_ids(word@)),
{
    let mut seq: Vec<u32> = Vec::with_capacity(word.len());
    for i in 0..word.len()
        invariant
            seq@ == byte_ids(word@.take(i as int)),
    {
        seq.push(word[i] as u32);
        assert(byte_ids(word@.take(i + 1)) =~= byte_ids(word@.take(i as int)).push(
            word@[i as int] as u32,
        ));
    }
    assert(word@.take(word@.len() as int) =~= word@);
    let ghost target = merged(data@, seq@);
    while seq.len() >= 2
        invariant_except_break
            merged(data@, seq@) == target,
        ensures
            seq@ == target,
        decreases seq.len(),
    {
        let mut best: Option<(usize, usize)> = None;
        for i in 0..seq.len() - 1
            invariant
                seq.len() >= 2,
                match best {
                    Some((p, r)) => {
                        &&& lowest(data@, seq@, i as int) == Some(p as int)
                        &&& rank_at(data@, seq@, p as int) == Some(r as int)
                        &&& r < data@.len() <= MAX_MERGES
                    },
                    None => lowest(data@, seq@, i as int) is None,
                },
        {
            if let Some(rank) = data.rank(seq[i], seq[i + 1]) {
                match best {
                    Some((_, r)) if r <= rank => {},
                    _ => {
                        best = Some((i, rank));
                    },
                }
            }
        }
        proof {
            lemma_lowest(data@, seq@, seq@.len() - 1);
        }
        match best {
            None => {
                break;
            },
            Some((pos, rank)) => {
                let id = 256 + rank as u32;
                let ghost whole = seq@;
                let mut next: Vec<u32> = Vec::with_capacity(seq.len());
                for i in 0..pos
                    invariant
                        pos < seq.len(),
                        next@ == seq@.take(i as int),
                {
                    next.push(seq[i]);
                    assert(seq@.take(i + 1) =~= seq@.take(i as int).push(seq@[i as int]));
                }
                next.push(id);
                for i in pos + 2..seq.len()
                    invariant
                        pos + 2 <= seq.len(),
                        next@ == seq@.take(pos as int).push(id) + seq@.subrange(pos + 2, i as int),
                {
                    next.push(seq[i]);
                    assert(seq@.subrange(pos + 2, i + 1) =~= seq@.subrange(pos + 2, i as int).push(
                        seq@[i as int],
                    ));
                }
                assert(seq@.subrange(pos + 2, seq@.len() as int) =~= seq@.skip(pos + 2));
                assert(next@ =~= joined(whole, pos as int, id));
                seq = next;
            },
        }
    }
    let ghost before = out@;
    out.append(&mut seq);
    assert(out@ =~= before + target);
}

impl BpeTokenizer {
    /// Every merge joins tokens that exist before it, so that each token
    /// stands for some bytes.
    pub open spec fn wf(&self) -> bool {
        expandable(self@)
    }

    /// The tokenizer with the given merges.
    pub fn from_merges(merges: Vec<Merge>) -> (tok: Self)
        ensures
            tok@ == merges@,
    {
        BpeTokenizer { merges }
    }

    /// The merges, in the order in which they were learned.
    pub(crate) fn merges(&self) -> (merges: &Vec<Merge>)
        ensures
            merges@ == self@,
    {
        &self.merges
    }

    /// Whether every merge joins tokens that exist before it.
    pub fn is_well_formed(&self) -> (r: bool)
        ensures
            r == (self.wf() && 256 + self@.len() <= usize::MAX),
    {
        if self.merges.len() > MAX_MERGES as usize || self.merges.len() > usize::MAX - 256 {
            return false;
        }
        for i in 0..self.merges.len()
            invariant
                self.merges@.len() <= MAX_MERGES,
                self.merges@.len() <= usize::MAX - 256,
                forall|j: int|
                    0 <= j < i ==> (#[trigger] self.merges@[j]).0 < 256 + j && self.merges@[j].1
                        < 256 + j,
        {
            let (a, b, _) = self.merges[i];
            if a as usize >= 256 + i || b as usize >= 256 + i {
                assert(!(self.merges@[i as int].0 < 256 + i && self.merges@[i as int].1 < 256 + i));
                return false;
            }
        }
        true
    }

    /// Learn `num_merges` merges from `bytes`: again and again the most
    /// frequent adjacent pair becomes a token. Fewer are learned if no pair
    /// occurs twice any more.
    pub fn train(bytes: &[u8], num_merges: usize) -> (tok: Self)
        requires
            bytes@.len() <= MAX_MERGES || num_merges <= MAX_MERGES,
        ensures
            tok@ == learned(byte_ids(bytes@), Seq::empty(), num_merges as nat),
            tok@.len() <= num_merges,
            tok@.len() <= bytes@.len(),
            tok.wf(),
            numbered(tok@),
            distinct_pairs(tok@),
            forall|i: int, a: u32, b: u32|
                0 <= i < tok@.len() ==> #[trigger] pair_count(
                    corpus_after(byte_ids(bytes@), tok@, i),
                    a,
                    b,
                ) <= pair_count(
                    corpus_after(byte_ids(bytes@), tok@, i),
                    tok@[i].0,
                    tok@[i].1,
                ),
            forall|i: int|
                0 <= i < tok@.len() ==> pair_count(
                    #[trigger] corpus_after(byte_ids(bytes@), tok@, i),
                    tok@[i].0,
                    tok@[i].1,
                ) >= 2,
            forall|i: int|
                0 <= i <= tok@.len() ==> decoded(
                    tok@,
                    #[trigger] corpus_after(byte_ids(bytes@), tok@, i),
                ) == bytes@,
            tok@.len() < num_merges ==> forall|a: u32, b: u32|
                #[trigger] pair_count(
                    corpus_after(byte_ids(bytes@), tok@, tok@.len() as int),
                    a,
                    b,
                ) < 2,
    {
        let mut seq: Vec<u32> = Vec::with_capacity(bytes.len());
        for i in 0..bytes.len()
            invariant
                seq@ == byte_ids(bytes@.take(i as int)),
        {
            seq.push(bytes[i] as u32);
            assert(byte_ids(bytes@.take(i + 1)) =~= byte_ids(bytes@.take(i as int)).push(
                bytes@[i as int] as u32,
            ));
        }
        assert(bytes@.take(bytes@.len() as int) =~= bytes@);
        let ghost start = seq@;
        let ghost target = learned(start, Seq::empty(), num_merges as nat);
        proof {
            law_learned_wellformed(start, num_merges as nat);
        }
        let mut merges: Vec<Merge> = Vec::new();
        for n in 0..num_merges
            invariant_except_break
                bytes@.len() <= MAX_MERGES || num_merges <= MAX_MERGES,
                start.len() == bytes@.len(),
                merges@.len() == n,
                n + seq@.len() <= start.len(),
                consistent(start, seq@, merges@),
                learned(seq@, merges@, (num_merges - n) as nat) == target,
            ensures
                merges@ == target,
        {
            proof {
                if n < MAX_MERGES {
                    lemma_step(seq@, n as nat);
                    lemma_step_consistent(start, seq@, merges@);
                }
            }
            match best_pair(&seq) {
                Some((left, right)) => {
                    let new_id = 256 + merges.len() as u32;
                    seq = replace_pair(&seq, left, right, new_id);
                    merges.push((left, right, new_id));
                },
                None => {
                    break;
                },
            }
        }
        proof {
            assert forall|i: int, a: u32, b: u32| 0 <= i < target.len() implies #[trigger] pair_count(
                corpus_after(start, target, i),
                a,
                b,
            ) <= pair_count(corpus_after(start, target, i), target[i].0, target[i].1) by {
                law_learned_most_frequent(start, num_merges as nat, i, a, b);
            }
            assert forall|i: int| 0 <= i < target.len() implies pair_count(
                #[trigger] corpus_after(start, target, i),
                target[i].0,
                target[i].1,
            ) >= 2 by {
                law_learned_most_frequent(start, num_merges as nat, i, 0, 0);
            }
            assert forall|i: int| 0 <= i <= target.len() implies decoded(
                target,
                #[trigger] corpus_after(start, target, i),
            ) == bytes@ by {
                law_learning_keeps_the_text(bytes@, num_merges as nat, i);
            }
            if target.len() < num_merges {
                assert forall|a: u32, b: u32| #[trigger] pair_count(
                    corpus_after(start, target, target.len() as int),
                    a,
                    b,
                ) < 2 by {
                    law_learned_exhausts(start, num_merges as nat, a, b);
                }
            }
        }
        BpeTokenizer { merges }
    }

    /// The lookups that encoding and decoding use.
    pub fn data(&self) -> (data: BpeData)
        requires
            self.wf(),
            256 + self@.len() <= usize::MAX,
        ensures
            data@ == self@,
    {
        let mut ranks: HashMap<u64, usize> = HashMap::with_capacity(self.merges.len());
        let mut expand: Vec<Vec<u8>> = Vec::with_capacity(self.vocab_size());
        let ghost none = Seq::<Merge>::empty();
        for i in 0..256u32
            invariant
                expand@.len() == i,
                forall|id: int|
                    0 <= id < i ==> (#[trigger] expand@[id])@ == expansion(none, id),
        {
            let mut one: Vec<u8> = Vec::with_capacity(1);
            one.push(i as u8);
            assert(one@ =~= expansion(none, i as int));
            expand.push(one);
        }
        assert(self.merges@.take(0) =~= none);
        for i in 0..self.merges.len()
            invariant
                expandable(self.merges@),
                ranks_match(ranks@, self.merges@.take(i as int)),
                expand_matches(expand@, self.merges@.take(i as int)),
        {
            let (a, b, _) = self.merges[i];
            let ghost short = self.merges@.take(i as int);
            let ghost long = self.merges@.take(i + 1);
            let ghost before = ranks@;
            let ghost table = expand@;
            assert(long.drop_last() =~= short);
            assert(expandable(long));
            ranks.insert(pair_key(a, b), i);
            assert(ranks_match(ranks@, long)) by {
                assert forall|c: u32, d: u32|
                    #![trigger key_of(c, d)]
                    match rank_of(long, c, d) {
                        Some(r) => ranks@.contains_key(key_of(c, d)) && ranks@[key_of(c, d)] == r,
                        None => !ranks@.contains_key(key_of(c, d)),
                    } by {
                    if key_of(c, d) == key_of(a, b) {
                        lemma_key_injective(c, d, a, b);
                    }
                }
            }
            let mut e: Vec<u8> = Vec::new();
            e.extend_from_slice(expand[a as usize].as_slice());
            e.extend_from_slice(expand[b as usize].as_slice());
            proof {
                assert(long.take(i as int) =~= short);
                lemma_expansion_prefix(long, i as int, a as int);
                lemma_expansion_prefix(long, i as int, b as int);
                assert(long[i as int] == self.merges@[i as int]);
                assert(e@ =~= expansion(long, 256 + i));
            }
            expand.push(e);
            assert forall|id: int| 0 <= id < expand@.len() implies (#[trigger] expand@[id])@
                == expansion(long, id) by {
                if id < table.len() {
                    assert(expand@[id] == table[id]);
                    lemma_expansion_prefix(long, i as int, id);
                }
            }
        }
        assert(self.merges@.take(self.merges@.len() as int) =~= self.merges@);
        BpeData { ranks, expand, source: Ghost(self.merges@) }
    }

    /// Number of byte tokens plus learned merges.
    pub fn vocab_size(&self) -> (n: usize)
        requires
            256 + self@.len() <= usize::MAX,
        ensures
            n == 256 + self@.len(),
    {
        256 + self.merges.len()
    }

    /// Number of learned merges.
    pub fn num_merges(&self) -> (n: usize)
        ensures
            n == self@.len(),
    {
        self.merges.len()
    }

    /// Encode raw bytes into token ids.
    ///
    /// The bytes are split at whitespace and each word is merged on its own,
    /// lowest rank first. Whitespace bytes are their own tokens.
    pub fn encode(&self, bytes: &[u8], data: &BpeData) -> (ids: Vec<u32>)
        ensures
            ids@ == encoded(data@, bytes@),
            ids@.len() <= bytes@.len(),
            ids@.len() == 0 <==> bytes@.len() == 0,
    {
        proof {
            use_type_invariant(data);
            law_encoding_bounds(data@, bytes@);
        }
        let mut out: Vec<u32> = Vec::with_capacity(bytes.len());
        let mut word: Vec<u8> = Vec::new();
        for i in 0..bytes.len()
            invariant
                word@.len() <= i,
                word@ == bytes@.subrange(i - word@.len(), i as int),
                forall|j: int| 0 <= j < word@.len() ==> !separator(#[trigger] word@[j]),
                i - word@.len() > 0 ==> separator(bytes@[i - word@.len() - 1]),
                out@ == encoded(data@, bytes@.take(i - word@.len())),
        {
            let b = bytes[i];
            let ghost k = i - word@.len();
            let ghost prefix = bytes@.take(i as int);
            let ghost more = bytes@.take(i + 1);
            assert(more.drop_last() =~= prefix);
            if is_whitespace(b) {
                proof {
                    assert(word@ =~= prefix.subrange(k, i as int));
                    assert(prefix.take(k) =~= bytes@.take(k));
                    lemma_whole_word(data@, prefix, k, word@);
                }
                if word.len() > 0 {
                    encode_word(&word, data, &mut out);
                    word.clear();
                }
                out.push(b as u32);
                assert(out@ =~= encoded(data@, more));
                assert(word@ =~= bytes@.subrange(i + 1, i + 1));
            } else {
                word.push(b);
                assert(word@ =~= bytes@.subrange(k, i + 1));
            }
        }
        assert(bytes@.take(bytes@.len() as int) =~= bytes@);
        proof {
            lemma_whole_word(data@, bytes@, bytes@.len() - word@.len(), word@);
        }
        if word.len() > 0 {
            encode_word(&word, data, &mut out);
        }
        out
    }

    /// Decode token ids back into bytes; unknown ids are skipped.
    pub fn decode(&self, ids: &[u32], data: &BpeData) -> (bytes: Vec<u8>)
        ensures
            bytes@ == decoded(data@, ids@),
    {
        proof {
            use_type_invariant(data);
        }
        let mut out: Vec<u8> = Vec::new();
        for i in 0..ids.len()
            invariant
                expand_matches(data.expand@, data@),
                out@ == decoded(data@, ids@.take(i as int)),
        {
            assert(ids@.take(i + 1).drop_last() =~= ids@.take(i as int));
            if (ids[i] as usize) < data.expand.len() {
                out.extend_from_slice(data.expand[ids[i] as usize].as_slice());
            }
            assert(out@ =~= decoded(data@, ids@.take(i + 1)));
        }
        assert(ids@.take(ids@.len() as int) =~= ids@);
        out
    }
}

/// How often `counts` says that the pair `(a, b)` occurs.
spec fn tally(counts: Map<u64, usize>, a: u32, b: u32) -> nat {
    if counts.contains_key(key_of(a, b)) {
        counts[key_of(a, b)] as nat
    } else {
        0
    }
}

/// The most frequent adjacent pair, the first one where several are equally
/// frequent; nothing if no pair occurs twice.
fn best_pair(seq: &Vec<u32>) -> (pair: Option<(u32, u32)>)
    ensures
        match pair {
            Some((a, b)) => forall|n: nat|
                next_merge(seq@, n) == Some((a, b, #[trigger] ((256 + n) as u32))),
            None => forall|n: nat| #[trigger] next_merge(seq@, n) is None,
        },
{
    if seq.len() < 2 {
        return None;
    }
    let mut counts: HashMap<u64, usize> = HashMap::new();
    for i in 0..seq.len() - 1
        invariant
            seq@.len() >= 2,
            forall|a: u32, b: u32|
                #![trigger key_of(a, b)]
                tally(counts@, a, b) == pair_count(seq@.take(i + 1), a, b),
    {
        let key = pair_key(seq[i], seq[i + 1]);
        let ghost before = counts@;
        let ghost short = seq@.take(i + 1);
        let ghost long = seq@.take(i + 2);
        assert(long.drop_last() =~= short);
        assert(tally(before, seq@[i as int], seq@[i + 1]) == pair_count(short, seq@[i as int], seq@[i + 1]));
        proof {
            lemma_count_bound(short, seq@[i as int], seq@[i + 1]);
        }
        let seen: usize = match counts.get(&key) {
            Some(c) => *c,
            None => 0,
        };
        counts.insert(key, seen + 1);
        assert forall|a: u32, b: u32| #![trigger key_of(a, b)] tally(counts@, a, b) == pair_count(
            long,
            a,
            b,
        ) by {
            assert(tally(before, a, b) == pair_count(short, a, b));
            if key_of(a, b) == key {
                lemma_key_injective(a, b, seq@[i as int], seq@[i + 1]);
            }
        }
    }
    assert(seq@.take(seq@.len() as int) =~= seq@);
    let mut best_pos: usize = 0;
    let mut best_count: usize = 0;
    for i in 0..seq.len() - 1
        invariant
            seq@.len() >= 2,
            forall|a: u32, b: u32|
                #![trigger key_of(a, b)]
                tally(counts@, a, b) == pair_count(seq@, a, b),
            i == 0 ==> best_count == 0,
            i > 0 ==> {
                &&& best_pos < i
                &&& commonest(seq@, i as int) == Some(best_pos as int)
                &&& best_count == count_at(seq@, best_pos as int)
            },
    {
        let key = pair_key(seq[i], seq[i + 1]);
        assert(tally(counts@, seq@[i as int], seq@[i + 1]) == count_at(seq@, i as int));
        let count: usize = match counts.get(&key) {
            Some(c) => *c,
            None => 0,
        };
        if i == 0 || best_count < count {
            best_pos = i;
            best_count = count;
        }
    }
    if best_count < 2 {
        None
    } else {
        Some((seq[best_pos], seq[best_pos + 1]))
    }
}

/// `seq` with every occurrence of the pair `(a, b)` replaced by `id`.
fn replace_pair(seq: &Vec<u32>, a: u32, b: u32, id: u32) -> (out: Vec<u32>)
    ensures
        out@ == replaced(seq@, a, b, id),
{
    let mut out: Vec<u32> = Vec::with_capacity(seq.len());
    let mut i: usize = 0;
    assert(seq@.skip(0) =~= seq@);
    while i < seq.len()
        invariant
            i <= seq.len(),
            replaced(seq@, a, b, id) == out@ + replaced(seq@.skip(i as int), a, b, id),
        decreases seq.len() - i,
    {
        let ghost rest = seq@.skip(i as int);
        let ghost done = out@;
        if i + 1 < seq.len() && seq[i] == a && seq[i + 1] == b {
            out.push(id);
            assert(rest.skip(2) =~= seq@.skip(i + 2));
            assert(out@ + replaced(seq@.skip(i + 2), a, b, id) =~= done + replaced(rest, a, b, id));
            i = i + 2;
        } else {
            out.push(seq[i]);
            assert(rest.skip(1) =~= seq@.skip(i + 1));
            assert(out@ + replaced(seq@.skip(i + 1), a, b, id) =~= done + replaced(rest, a, b, id));
            i = i + 1;
        }
    }
    assert(out@ + replaced(seq@.skip(i as int), a, b, id) =~= out@);
    out
}

/// The tokens of a prefix that ends in the word `word`.
proof fn lemma_whole_word(merges: Seq<Merge>, bytes: Seq<u8>, k: int, word: Seq<u8>)
    requires
        0 <= k <= bytes.len(),
        word == bytes.subrange(k, bytes.len() as int),
        forall|j: int| 0 <= j < word.len() ==> !separator(#[trigger] word[j]),
        k > 0 ==> separator(bytes[k - 1]),
    ensures
        word.len() == 0 ==> encoded(merges, bytes) == encoded(merges, bytes.take(k)),
        word.len() > 0 ==> encoded(merges, bytes) == encoded(merges, bytes.take(k)) + merged(
            merges,
            byte_ids(word),
        ),
{
    if word.len() == 0 {
        assert(bytes.take(k) =~= bytes);
    } else {
        assert forall|i: int| k <= i < bytes.len() implies !separator(#[trigger] bytes[i]) by {
            assert(bytes[i] == word[i - k]);
        }
        lemma_word_start_unique(bytes, k);
        assert(bytes.skip(k) =~= word);
        assert(!separator(bytes.last()));
    }
}

} // verus!
