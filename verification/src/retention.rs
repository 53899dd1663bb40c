//! Retention: the plan of the sequence-mixing mechanism.
//!
//! Each head keeps a recurrent state and applies, at every step,
//!
//! ```text
//! S_t = g * S_{t-1} + k_t v_t      (write, with exponential forgetting)
//! y_t = q_t . S_t                  (read-out)
//! ```
//!
//! The same result can be had from scores of all pairs of positions, each
//! weighted by a power of `g` (the parallel form), or from chunks that are
//! parallel within and carry the state from one to the next (the chunkwise
//! form). This module holds the positions and exponents that the forms use,
//! and shows in exact arithmetic that the forms agree.
use vstd::arithmetic::power::{lemma_pow0, lemma_pow_adds, pow};
use vstd::prelude::*;

verus! {

/// How a whole sequence is processed.
#[derive(Clone, Copy, Debug, PartialEq, Eq, Structural)]
pub enum Form {
    /// All pairs of positions at once.
    Parallel,
    /// Chunks of this length.
    Chunkwise(usize),
}

/// The form for a sequence of `t` positions: a chunk length of 0, or one that
/// covers the sequence, uses the parallel form.
pub fn form_for(chunk_len: usize, t: usize) -> (f: Form)
    ensures
        f == if chunk_len == 0 || chunk_len >= t {
            Form::Parallel
        } else {
            Form::Chunkwise(chunk_len)
        },
{
    if chunk_len == 0 || chunk_len >= t {
        Form::Parallel
    } else {
        Form::Chunkwise(chunk_len)
    }
}

/// The chunk length that is used for `t` positions: at least 1, at most `t`.
pub open spec fn usable_chunk(chunk_len: nat, t: nat) -> nat {
    if chunk_len > t {
        t
    } else if chunk_len < 1 {
        1
    } else {
        chunk_len
    }
}

/// The length of the chunk that starts at `start`.
pub open spec fn chunk_size(t: nat, chunk: nat, start: nat) -> nat {
    if t - start < chunk {
        (t - start) as nat
    } else {
        chunk
    }
}

/// The chunks from `start` on, as `(start, length)`.
pub open spec fn chunks_from(t: nat, chunk: nat, start: nat) -> Seq<(nat, nat)>
    decreases t - start,
{
    if start >= t || chunk == 0 {
        Seq::empty()
    } else {
        seq![(start, chunk_size(t, chunk, start))] + chunks_from(
            t,
            chunk,
            start + chunk_size(t, chunk, start),
        )
    }
}

/// The chunks as numbers.
pub open spec fn as_nat_pairs(chunks: Seq<(usize, usize)>) -> Seq<(nat, nat)> {
    chunks.map_values(|c: (usize, usize)| (c.0 as nat, c.1 as nat))
}

/// The chunks of a sequence of `t` positions, as `(start, length)`.
pub fn chunks(t: usize, chunk_len: usize) -> (r: Vec<(usize, usize)>)
    requires
        t > 0,
    ensures
        as_nat_pairs(r@) == chunks_from(t as nat, usable_chunk(chunk_len as nat, t as nat), 0),
        r@.len() > 0,
        r@[0].0 == 0,
        forall|i: int, j: int|
            0 <= i && j == i + 1 && j < r@.len() ==> (#[trigger] r@[j]).0 == (#[trigger] r@[i]).0
                + r@[i].1 && (1 <= chunk_len <= t ==> r@[i].1 == chunk_len),
        r@.last().0 + r@.last().1 == t,
        r@.last().1 > 0,
        1 <= chunk_len <= t ==> r@.last().1 <= chunk_len,
{
    let chunk: usize = if chunk_len > t {
        t
    } else if chunk_len < 1 {
        1
    } else {
        chunk_len
    };
    let mut out: Vec<(usize, usize)> = Vec::new();
    let mut start: usize = 0;
    assert(as_nat_pairs(out@) =~= Seq::empty());
    while start < t
        invariant
            start <= t,
            0 < chunk <= t,
            as_nat_pairs(out@) + chunks_from(t as nat, chunk as nat, start as nat) == chunks_from(
                t as nat,
                chunk as nat,
                0,
            ),
        decreases t - start,
    {
        let c: usize = if t - start < chunk {
            t - start
        } else {
            chunk
        };
        let ghost before = out@;
        out.push((start, c));
        proof {
            let rest = chunks_from(t as nat, chunk as nat, (start + c) as nat);
            assert(as_nat_pairs(out@) =~= as_nat_pairs(before).push((start as nat, c as nat)));
            assert(as_nat_pairs(out@) + rest =~= as_nat_pairs(before) + (seq![
                (start as nat, c as nat),
            ] + rest));
        }
        start = start + c;
    }
    assert(as_nat_pairs(out@) =~= as_nat_pairs(out@) + Seq::<(nat, nat)>::empty());
    proof {
        let all = as_nat_pairs(out@);
        assert(all == chunks_from(t as nat, chunk as nat, 0));
        assert(all.len() > 0);
        assert forall|i: int| #![trigger out@[i]] 0 <= i < out@.len() implies all[i] == (
            out@[i].0 as nat,
            out@[i].1 as nat,
        ) && (i + 1 < out@.len() ==> all[i + 1].0 == all[i].0 + all[i].1 && all[i].1 == chunk) && (i
            + 1 == out@.len() ==> all[i].0 + all[i].1 == t) && 0 < all[i].1 <= chunk by {
            law_chunks_tile(t as nat, chunk as nat, 0, i);
            law_chunks_are_full(t as nat, chunk as nat, 0, i);
        }
        law_chunks_tile(t as nat, chunk as nat, 0, 0);
    }
    out
}

/// The exponent of the decay between positions `i` and `j`: their distance, or
/// 0 where `j` lies ahead.
pub open spec fn causal_exponent(i: int, j: int) -> int {
    if i >= j {
        i - j
    } else {
        0
    }
}

/// The exponents of the decay between `t` positions, row by row.
pub fn causal_exponents(t: u32) -> (r: Vec<Vec<u32>>)
    ensures
        r@.len() == t,
        forall|i: int| 0 <= i < t ==> (#[trigger] r@[i])@.len() == t,
        forall|i: int, j: int|
            0 <= i < t && 0 <= j < t ==> #[trigger] r@[i]@[j] == causal_exponent(i, j),
        forall|i: int, j: int|
            0 <= j <= i < t ==> #[trigger] r@[i]@[j] == i - j,
        forall|i: int, j: int|
            0 <= i < j < t ==> #[trigger] r@[i]@[j] == 0,
{
    let mut rows: Vec<Vec<u32>> = Vec::new();
    for i in 0..t
        invariant
            rows@.len() == i,
            forall|a: int| 0 <= a < i ==> (#[trigger] rows@[a])@.len() == t,
            forall|a: int, b: int|
                0 <= a < i && 0 <= b < t ==> #[trigger] rows@[a]@[b] == causal_exponent(a, b),
    {
        let mut row: Vec<u32> = Vec::new();
        for j in 0..t
            invariant
                i < t,
                row@.len() == j,
                forall|b: int| 0 <= b < j ==> #[trigger] row@[b] == causal_exponent(i as int, b),
        {
            row.push(
                if i >= j {
                    i - j
                } else {
                    0
                },
            );
        }
        rows.push(row);
    }
    rows
}

/// Whether position `i` may look at position `j`, row by row: the
/// lower-triangular mask.
pub fn causal_mask(t: u32) -> (r: Vec<Vec<bool>>)
    ensures
        r@.len() == t,
        forall|i: int| 0 <= i < t ==> (#[trigger] r@[i])@.len() == t,
        forall|i: int, j: int| 0 <= i < t && 0 <= j < t ==> #[trigger] r@[i]@[j] == (i >= j),
{
    let mut rows: Vec<Vec<bool>> = Vec::new();
    for i in 0..t
        invariant
            rows@.len() == i,
            forall|a: int| 0 <= a < i ==> (#[trigger] rows@[a])@.len() == t,
            forall|a: int, b: int|
                0 <= a < i && 0 <= b < t ==> #[trigger] rows@[a]@[b] == (a >= b),
    {
        let mut row: Vec<bool> = Vec::new();
        for j in 0..t
            invariant
                i < t,
                row@.len() == j,
                forall|b: int| 0 <= b < j ==> #[trigger] row@[b] == (i >= b),
        {
            row.push(i >= j);
        }
        rows.push(row);
    }
    rows
}

/// The exponents by which the rows of a chunk of length `c` see the state that
/// came in: `1, 2, ..., c`.
pub fn row_exponents(c: u32) -> (r: Vec<u32>)
    ensures
        r@.len() == c,
        forall|i: int| 0 <= i < c ==> #[trigger] r@[i] == i + 1,
{
    let mut out: Vec<u32> = Vec::new();
    for i in 0..c
        invariant
            out@.len() == i,
            forall|j: int| 0 <= j < i ==> #[trigger] out@[j] == j + 1,
    {
        out.push(i + 1);
    }
    out
}

/// The exponents by which the rows of a chunk of length `c` enter the state
/// that goes out: `c - 1, c - 2, ..., 0`.
pub fn reverse_exponents(c: u32) -> (r: Vec<u32>)
    ensures
        r@.len() == c,
        forall|i: int| 0 <= i < c ==> #[trigger] r@[i] == c - 1 - i,
{
    let mut out: Vec<u32> = Vec::new();
    for i in 0..c
        invariant
            out@.len() == i,
            forall|j: int| 0 <= j < i ==> #[trigger] out@[j] == c - 1 - j,
    {
        out.push(c - 1 - i);
    }
    out
}

/// The state after the first `t` writes, step by step. `w` holds what each step
/// writes into one entry of the state, and `g` is the decay.
pub open spec fn state_after(w: Seq<int>, g: int, t: nat) -> int
    decreases t,
{
    if t == 0 {
        0
    } else {
        g * state_after(w, g, (t - 1) as nat) + w[t - 1]
    }
}

/// The writes from `from` up to `to`, as seen from position `at`: each is
/// weighted by the decay to the power of its distance.
pub open spec fn weighted(w: Seq<int>, g: int, from: nat, to: nat, at: int) -> int
    decreases to - from,
{
    if to <= from {
        0
    } else {
        weighted(w, g, from, (to - 1) as nat, at) + pow(
            g,
            causal_exponent(at, to - 1) as nat,
        ) * w[to - 1]
    }
}

/// Seen from one position further on, everything weighs one power less.
proof fn lemma_weighted_shift(w: Seq<int>, g: int, from: nat, to: nat, at: int)
    requires
        to <= at + 1,
    ensures
        weighted(w, g, from, to, at + 1) == g * weighted(w, g, from, to, at),
    decreases to - from,
{
    if to > from {
        lemma_weighted_shift(w, g, from, (to - 1) as nat, at);
        let e = causal_exponent(at, to - 1) as nat;
        assert(causal_exponent(at + 1, to - 1) == e + 1);
        lemma_pow_adds(g, 1, e);
        vstd::arithmetic::power::lemma_pow1(g);
        let a = weighted(w, g, from, (to - 1) as nat, at);
        let p = pow(g, e);
        let x = w[to - 1];
        assert(g * a + (g * p) * x == g * (a + p * x)) by (nonlinear_arith);
    } else {
        assert(g * 0 == 0) by (nonlinear_arith);
    }
}

/// A row of a chunk that starts at `start`, and whose state came in as `s`: the
/// state weighted by the row's exponent, and the writes of the chunk so far.
pub open spec fn chunk_row(w: Seq<int>, g: int, start: nat, s: int, row: nat) -> int {
    pow(g, row + 1) * s + weighted(w, g, start, start + row + 1, (start + row) as int)
}

/// The state that a chunk of length `c` hands on.
pub open spec fn chunk_carry(w: Seq<int>, g: int, start: nat, s: int, c: nat) -> int {
    pow(g, c) * s + weighted(w, g, start, start + c, start + c - 1)
}

/// Chunkwise and recurrent retention agree: where a chunk gets the state that
/// stepping would have reached, each of its rows sees the state that stepping
/// would have reached there, and so does the next chunk.
pub proof fn law_chunk_matches_recurrent(w: Seq<int>, g: int, start: nat, row: nat)
    ensures
        chunk_row(w, g, start, state_after(w, g, start), row) == state_after(
            w,
            g,
            start + row + 1,
        ),
        chunk_carry(w, g, start, state_after(w, g, start), row + 1) == state_after(
            w,
            g,
            start + row + 1,
        ),
    decreases row,
{
    let s = state_after(w, g, start);
    let at = (start + row) as int;
    let x = w[at];
    lemma_pow0(g);
    assert(causal_exponent(at, at) == 0);
    if row == 0 {
        vstd::arithmetic::power::lemma_pow1(g);
        assert(weighted(w, g, start, start, at) == 0);
        assert(weighted(w, g, start, start + 1, at) == weighted(w, g, start, start, at) + pow(
            g,
            0,
        ) * x);
        assert(pow(g, 0) * x == x) by (nonlinear_arith)
            requires
                pow(g, 0) == 1,
        ;
    } else {
        law_chunk_matches_recurrent(w, g, start, (row - 1) as nat);
        lemma_weighted_shift(w, g, start, start + row, at - 1);
        lemma_pow_adds(g, 1, row);
        vstd::arithmetic::power::lemma_pow1(g);
        let a = weighted(w, g, start, start + row, at - 1);
        assert(weighted(w, g, start, start + row + 1, at) == weighted(w, g, start, start + row, at)
            + pow(g, 0) * x);
        assert((g * pow(g, row)) * s + (g * a + pow(g, 0) * x) == g * (pow(g, row) * s + a) + x)
            by (nonlinear_arith)
            requires
                pow(g, 0) == 1,
        ;
    }
}

/// Parallel and recurrent retention agree: the writes up to a position, each
/// weighted by its distance, add up to the state that stepping reaches there.
pub proof fn law_parallel_matches_recurrent(w: Seq<int>, g: int, at: nat)
    ensures
        weighted(w, g, 0, at + 1, at as int) == state_after(w, g, at + 1),
{
    law_chunk_matches_recurrent(w, g, 0, at);
    assert(pow(g, at + 1) * 0 == 0) by (nonlinear_arith);
}

/// The dot product of the first `d` entries.
pub open spec fn dot(q: Seq<int>, k: Seq<int>, d: nat) -> int
    decreases d,
{
    if d == 0 {
        0
    } else {
        dot(q, k, (d - 1) as nat) + q[d - 1] * k[d - 1]
    }
}

/// What the steps write into the entry of the state in row `a`: the products of
/// the keys' entries there with the values.
pub open spec fn writes(k: Seq<Seq<int>>, v: Seq<int>, a: int) -> Seq<int> {
    Seq::new(k.len(), |j: int| k[j][a] * v[j])
}

/// The read-out of a query from the state after `t` steps.
pub open spec fn read_out(
    q: Seq<int>,
    k: Seq<Seq<int>>,
    v: Seq<int>,
    g: int,
    t: nat,
    d: nat,
) -> int
    decreases d,
{
    if d == 0 {
        0
    } else {
        read_out(q, k, v, g, t, (d - 1) as nat) + q[d - 1] * state_after(writes(k, v, d - 1), g, t)
    }
}

/// The scores of a query against the keys from `from` up to `to`, weighted by
/// the decay as seen from `at`, times the values.
pub open spec fn scored(
    q: Seq<int>,
    k: Seq<Seq<int>>,
    v: Seq<int>,
    g: int,
    to: nat,
    at: int,
    d: nat,
) -> int
    decreases to,
{
    if to == 0 {
        0
    } else {
        scored(q, k, v, g, (to - 1) as nat, at, d) + pow(
            g,
            causal_exponent(at, to - 1) as nat,
        ) * dot(q, k[to - 1], d) * v[to - 1]
    }
}

/// One more entry of the query adds its share to the scores.
proof fn lemma_scored_entry(
    q: Seq<int>,
    k: Seq<Seq<int>>,
    v: Seq<int>,
    g: int,
    to: nat,
    at: int,
    d: nat,
)
    requires
        d > 0,
        to <= k.len(),
    ensures
        scored(q, k, v, g, to, at, d) == scored(q, k, v, g, to, at, (d - 1) as nat) + q[d - 1]
            * weighted(writes(k, v, d - 1), g, 0, to, at),
    decreases to,
{
    let x = q[d - 1];
    if to == 0 {
        assert(x * 0 == 0) by (nonlinear_arith);
    } else {
        lemma_scored_entry(q, k, v, g, (to - 1) as nat, at, d);
        let p = pow(g, causal_exponent(at, to - 1) as nat);
        let less = dot(q, k[to - 1], (d - 1) as nat);
        let y = k[to - 1][d - 1];
        let z = v[to - 1];
        let a = weighted(writes(k, v, d - 1), g, 0, (to - 1) as nat, at);
        let b = scored(q, k, v, g, (to - 1) as nat, at, (d - 1) as nat);
        assert(writes(k, v, d - 1)[to - 1] == y * z);
        let m = x * y;
        let c = p * (y * z);
        assert(p * (less + m) * z == p * less * z + p * m * z) by (nonlinear_arith);
        assert(p * m * z == x * c) by (nonlinear_arith)
            requires
                m == x * y,
                c == p * (y * z),
        ;
        assert(x * (a + c) == x * a + x * c) by (nonlinear_arith);
    }
}

/// The scores of a query, masked and weighted, times the values are the
/// read-out of the query from the recurrent state.
pub proof fn law_scores_match_read_out(
    q: Seq<int>,
    k: Seq<Seq<int>>,
    v: Seq<int>,
    g: int,
    at: nat,
    d: nat,
)
    requires
        at < k.len(),
    ensures
        scored(q, k, v, g, at + 1, at as int, d) == read_out(q, k, v, g, at + 1, d),
    decreases d,
{
    if d == 0 {
        lemma_scored_zero(q, k, v, g, at + 1, at as int);
    } else {
        law_scores_match_read_out(q, k, v, g, at, (d - 1) as nat);
        lemma_scored_entry(q, k, v, g, at + 1, at as int, d);
        law_parallel_matches_recurrent(writes(k, v, d - 1), g, at);
    }
}

/// A query without entries scores nothing.
proof fn lemma_scored_zero(
    q: Seq<int>,
    k: Seq<Seq<int>>,
    v: Seq<int>,
    g: int,
    to: nat,
    at: int,
)
    ensures
        scored(q, k, v, g, to, at, 0) == 0,
    decreases to,
{
    if to > 0 {
        lemma_scored_zero(q, k, v, g, (to - 1) as nat, at);
        let p = pow(g, causal_exponent(at, to - 1) as nat);
        let z = v[to - 1];
        assert(p * 0 * z == 0) by (nonlinear_arith);
    }
}

/// The state after `t` steps depends on the first `t` writes alone.
pub proof fn law_state_is_causal(w1: Seq<int>, w2: Seq<int>, g: int, t: nat)
    requires
        t <= w1.len(),
        t <= w2.len(),
        w1.take(t as int) == w2.take(t as int),
    ensures
        state_after(w1, g, t) == state_after(w2, g, t),
    decreases t,
{
    if t > 0 {
        assert(w1[t - 1] == w1.take(t as int)[t - 1]);
        assert(w2[t - 1] == w2.take(t as int)[t - 1]);
        assert(w1.take(t - 1) =~= w1.take(t as int).take(t - 1));
        assert(w2.take(t - 1) =~= w2.take(t as int).take(t - 1));
        law_state_is_causal(w1, w2, g, (t - 1) as nat);
    }
}

/// While nothing is written, the state shrinks by the decay at each step.
pub proof fn law_state_decays(w: Seq<int>, g: int, t: nat, n: nat)
    requires
        forall|j: int| t <= j < t + n ==> #[trigger] w[j] == 0,
    ensures
        state_after(w, g, t + n) == pow(g, n) * state_after(w, g, t),
    decreases n,
{
    let s = state_after(w, g, t);
    if n == 0 {
        lemma_pow0(g);
        assert(pow(g, 0) * s == s) by (nonlinear_arith)
            requires
                pow(g, 0) == 1,
        ;
    } else {
        law_state_decays(w, g, t, (n - 1) as nat);
        assert(w[t + n - 1] == 0);
        lemma_pow_adds(g, 1, (n - 1) as nat);
        vstd::arithmetic::power::lemma_pow1(g);
        let p = pow(g, (n - 1) as nat);
        assert(g * (p * s) == (g * p) * s) by (nonlinear_arith);
    }
}

/// The chunks follow one another without gaps, none is empty or longer than the
/// chunk length, and together they cover the sequence.
pub proof fn law_chunks_tile(t: nat, chunk: nat, start: nat, i: int)
    requires
        chunk > 0,
        start < t,
        0 <= i < chunks_from(t, chunk, start).len(),
    ensures
        ({
            let c = chunks_from(t, chunk, start);
            &&& c[0].0 == start
            &&& 0 < c[i].1 <= chunk
            &&& i + 1 < c.len() ==> c[i + 1].0 == c[i].0 + c[i].1
            &&& i + 1 == c.len() ==> c[i].0 + c[i].1 == t
        }),
    decreases t - start,
{
    let c = chunks_from(t, chunk, start);
    let size = chunk_size(t, chunk, start);
    let rest = chunks_from(t, chunk, start + size);
    assert(c == seq![(start, size)] + rest);
    if start + size < t {
        assert(rest.len() > 0);
        law_chunks_tile(t, chunk, start + size, 0);
        if i > 0 {
            law_chunks_tile(t, chunk, start + size, i - 1);
        }
    } else {
        assert(rest.len() == 0);
    }
}

/// Every chunk but the last is as long as was asked for.
pub proof fn law_chunks_are_full(t: nat, chunk: nat, start: nat, i: int)
    requires
        chunk > 0,
        start < t,
        0 <= i < chunks_from(t, chunk, start).len(),
    ensures
        i + 1 < chunks_from(t, chunk, start).len() ==> chunks_from(t, chunk, start)[i].1 == chunk,
    decreases t - start,
{
    let size = chunk_size(t, chunk, start);
    let rest = chunks_from(t, chunk, start + size);
    if start + size < t {
        if i > 0 {
            law_chunks_are_full(t, chunk, start + size, i - 1);
        }
    } else {
        assert(rest.len() == 0);
    }
}

/// The chunk length is the one asked for, unless it is 0 or covers more than the
/// sequence.
pub proof fn law_chunk_length(chunk_len: nat, t: nat)
    requires
        t > 0,
    ensures
        1 <= chunk_len <= t ==> usable_chunk(chunk_len, t) == chunk_len,
        chunk_len == 0 ==> usable_chunk(chunk_len, t) == 1,
        chunk_len > t ==> usable_chunk(chunk_len, t) == t,
{
}

/// The state begins empty; each step lets it decay and writes into it.
pub proof fn law_state_is_recurrent(w: Seq<int>, g: int, t: nat)
    ensures
        state_after(w, g, 0) == 0,
        state_after(w, g, t + 1) == g * state_after(w, g, t) + w[t as int],
{
}

/// The decay between two positions is as strong as they are apart, and none
/// where the one looked at lies ahead.
pub proof fn law_decay_grows_with_distance(i: int, j: int, d: int)
    ensures
        d >= 0 ==> causal_exponent(j + d, j) == d,
        i < j ==> causal_exponent(i, j) == 0,
{
}

} // verus!
