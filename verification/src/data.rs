//! Token datasets.
//!
//! In byte mode the ids of a dataset are raw bytes; in BPE mode they are the
//! byte tokens and the learned merges. Training samples windows of ids and
//! predicts, for each id, the one that follows it.
use rand::{Rng, SeedableRng};
use vstd::prelude::*;

use crate::binary64::{share, share_of, Binary64};
use crate::merging::byte_ids;
use crate::text::{concat2, decimal, number_text};

verus! {

/// The generator of random numbers that picks windows.
#[verifier::external_type_specification]
#[verifier::external_body]
pub struct ExStdRng(rand::rngs::StdRng);

/// A sequence of token ids.
pub struct ByteDataset {
    tokens: Vec<u32>,
}

impl View for ByteDataset {
    type V = Seq<u32>;

    closed spec fn view(&self) -> Seq<u32> {
        self.tokens@
    }
}

/// Datasets of at most this many tokens are refused.
pub const TOO_FEW: usize = 1024;

/// Why a dataset could not be made.
#[derive(Clone, Copy, Debug, PartialEq, Eq, Structural)]
pub enum DataError {
    /// There are only so many tokens.
    TooSmall(usize),
}

impl DataError {
    /// The error in words.
    pub fn message(&self) -> (s: String)
        ensures
            s@ == "dataset too small ("@ + decimal(self->TooSmall_0 as nat)
                + " tokens); need at least a few thousand"@,
    {
        match self {
            DataError::TooSmall(n) => concat2(
                concat2("dataset too small (", number_text(*n).as_str()).as_str(),
                " tokens); need at least a few thousand",
            ),
        }
    }
}

/// The length of the validation tail of `n` tokens.
pub open spec fn tail_len(n: nat, val_frac: Binary64, min_val_tokens: nat) -> nat {
    let wanted = share(n, val_frac, usize::MAX as nat);
    let val = if wanted < min_val_tokens {
        min_val_tokens
    } else {
        wanted
    };
    if val > n {
        n
    } else {
        val
    }
}

/// Windows of `len` tokens, one after the other: the window for `s` begins at
/// `s + shift`.
pub open spec fn windows(tokens: Seq<u32>, starts: Seq<usize>, len: int, shift: int) -> Seq<u32>
    decreases starts.len(),
{
    if starts.len() == 0 {
        Seq::empty()
    } else {
        windows(tokens, starts.drop_last(), len, shift) + tokens.subrange(
            starts.last() + shift,
            starts.last() + shift + len,
        )
    }
}

/// Every start leaves room for a window of `seq_len` tokens and the token after
/// it.
pub open spec fn starts_fit(starts: Seq<usize>, seq_len: int, n: int) -> bool {
    forall|i: int| 0 <= i < starts.len() ==> #[trigger] starts[i] + seq_len < n
}

/// `x` and `y` are the inputs and targets of some batch of `tokens`.
pub open spec fn is_batch(
    tokens: Seq<u32>,
    batch_size: nat,
    seq_len: int,
    x: Seq<u32>,
    y: Seq<u32>,
) -> bool {
    exists|starts: Seq<usize>|
        starts.len() == batch_size && starts_fit(starts, seq_len, tokens.len() as int) && x
            == windows(tokens, starts, seq_len, 0) && y == #[trigger] windows(
            tokens,
            starts,
            seq_len,
            1,
        )
}

/// The generator that `rand` makes from a seed.
pub uninterp spec fn generator_of(seed: u64) -> rand::rngs::StdRng;

/// `SeedableRng::seed_from_u64` of `rand`, for `StdRng`: the generator depends
/// on the seed alone. Nothing is claimed of the numbers that it gives.
#[verifier::external_body]
pub(crate) fn seeded(seed: u64) -> (rng: rand::rngs::StdRng)
    ensures
        rng == generator_of(seed),
{
    rand::rngs::StdRng::seed_from_u64(seed)
}

/// `Rng::gen_range` of `rand` on the range of numbers from 0 up to and with
/// `max`: the result lies in that range, which is never empty. Which number it
/// is depends on the state of the generator.
#[verifier::external_body]
fn draw(rng: &mut rand::rngs::StdRng, max: u64) -> (r: u64)
    ensures
        r <= max,
{
    rng.gen_range(0..=max)
}

/// Append `tokens[from..to]` to `out`.
fn append_range(out: &mut Vec<u32>, tokens: &Vec<u32>, from: usize, to: usize)
    requires
        from <= to <= tokens@.len(),
    ensures
        final(out)@ == old(out)@ + tokens@.subrange(from as int, to as int),
{
    let ghost before = out@;
    for i in from..to
        invariant
            from <= to <= tokens@.len(),
            out@ == before + tokens@.subrange(from as int, i as int),
    {
        out.push(tokens[i]);
        assert(tokens@.subrange(from as int, i + 1) =~= tokens@.subrange(
            from as int,
            i as int,
        ).push(tokens@[i as int]));
    }
}

impl ByteDataset {
    /// A dataset of the given tokens, if there are enough of them.
    pub fn from_tokens(tokens: Vec<u32>) -> (r: Result<Self, DataError>)
        ensures
            match r {
                Ok(ds) => tokens@.len() > TOO_FEW && ds@ == tokens@,
                Err(e) => tokens@.len() <= TOO_FEW && e == DataError::TooSmall(tokens.len()),
            },
            r is Ok <==> tokens@.len() > 1024,
    {
        if tokens.len() > TOO_FEW {
            Ok(ByteDataset { tokens })
        } else {
            Err(DataError::TooSmall(tokens.len()))
        }
    }

    /// Byte mode: the tokens are the bytes of a file.
    pub fn load(bytes: &Vec<u8>) -> (r: Result<Self, DataError>)
        ensures
            match r {
                Ok(ds) => bytes@.len() > TOO_FEW && ds@ == byte_ids(bytes@),
                Err(e) => bytes@.len() <= TOO_FEW && e == DataError::TooSmall(bytes.len()),
            },
    {
        Self::from_tokens(byte_tokens(bytes.as_slice()))
    }

    /// The number of tokens.
    pub fn len(&self) -> (n: usize)
        ensures
            n == self@.len(),
    {
        self.tokens.len()
    }

    /// Whether there are no tokens.
    pub fn is_empty(&self) -> (r: bool)
        ensures
            r == (self@.len() == 0),
    {
        self.tokens.len() == 0
    }

    /// Split off a contiguous tail for validation. Returns `(train, val)`; the
    /// two together are the dataset.
    pub fn split_tail(&self, val_frac: Binary64, min_val_tokens: usize) -> (r: (Self, Self))
        ensures
            r.0@ == self@.take(self@.len() - tail_len(self@.len(), val_frac, min_val_tokens as nat)),
            r.1@ == self@.skip(self@.len() - tail_len(self@.len(), val_frac, min_val_tokens as nat)),
            r.0@ + r.1@ == self@,
    {
        let n = self.tokens.len();
        let wanted = share_of(n, val_frac);
        let val_len: usize = if wanted < min_val_tokens {
            min_val_tokens
        } else {
            wanted
        };
        let cut: usize = if val_len > n {
            0
        } else {
            n - val_len
        };
        let mut train: Vec<u32> = Vec::new();
        let mut val: Vec<u32> = Vec::new();
        append_range(&mut train, &self.tokens, 0, cut);
        append_range(&mut val, &self.tokens, cut, n);
        (ByteDataset { tokens: train }, ByteDataset { tokens: val })
    }

    /// The windows at the given starts, as `(inputs, targets)`: row after row,
    /// `seq_len` tokens each, and for each token the one that follows it.
    pub fn batch_at(&self, starts: &Vec<usize>, seq_len: usize) -> (r: (Vec<u32>, Vec<u32>))
        requires
            starts_fit(starts@, seq_len as int, self@.len() as int),
        ensures
            r.0@ == windows(self@, starts@, seq_len as int, 0),
            r.1@ == windows(self@, starts@, seq_len as int, 1),
    {
        let mut xs: Vec<u32> = Vec::new();
        let mut ys: Vec<u32> = Vec::new();
        for i in 0..starts.len()
            invariant
                starts_fit(starts@, seq_len as int, self@.len() as int),
                self@ == self.tokens@,
                xs@ == windows(self@, starts@.take(i as int), seq_len as int, 0),
                ys@ == windows(self@, starts@.take(i as int), seq_len as int, 1),
        {
            let start = starts[i];
            assert(starts@[i as int] + seq_len < self.tokens.len());
            append_range(&mut xs, &self.tokens, start, start + seq_len);
            append_range(&mut ys, &self.tokens, start + 1, start + seq_len + 1);
            assert(starts@.take(i + 1).drop_last() =~= starts@.take(i as int));
        }
        assert(starts@.take(starts@.len() as int) =~= starts@);
        (xs, ys)
    }

    /// Sample a batch of random windows: token ids and their successors, each
    /// `batch_size` rows of `seq_len`.
    pub fn random_batch(
        &self,
        rng: &mut rand::rngs::StdRng,
        batch_size: usize,
        seq_len: usize,
    ) -> (r: (Vec<u32>, Vec<u32>))
        requires
            seq_len < self@.len(),
        ensures
            is_batch(self@, batch_size as nat, seq_len as int, r.0@, r.1@),
            r.0@.len() == batch_size * seq_len,
            r.1@.len() == batch_size * seq_len,
    {
        let max_start: u64 = (self.tokens.len() - seq_len - 1) as u64;
        let mut starts: Vec<usize> = Vec::new();
        for i in 0..batch_size
            invariant
                starts@.len() == i,
                seq_len < self@.len(),
                self@ == self.tokens@,
                max_start == self.tokens.len() - seq_len - 1,
                starts_fit(starts@, seq_len as int, self@.len() as int),
        {
            starts.push(draw(rng, max_start) as usize);
        }
        let r = self.batch_at(&starts, seq_len);
        proof {
            law_batch_shape(self@, starts@, seq_len as int, 0);
            law_batch_shape(self@, starts@, seq_len as int, 1);
        }
        r
    }
}

/// The ids of bytes are their values.
pub fn byte_tokens(bytes: &[u8]) -> (ids: Vec<u32>)
    ensures
        ids@ == byte_ids(bytes@),
{
    let mut ids: Vec<u32> = Vec::new();
    for i in 0..bytes.len()
        invariant
            ids@ == byte_ids(bytes@.take(i as int)),
    {
        ids.push(bytes[i] as u32);
        assert(bytes@.take(i + 1) =~= bytes@.take(i as int).push(bytes@[i as int]));
        assert(byte_ids(bytes@.take(i + 1)) =~= byte_ids(bytes@.take(i as int)).push(
            bytes@[i as int] as u32,
        ));
    }
    assert(bytes@.take(bytes@.len() as int) =~= bytes@);
    ids
}

/// A batch has one row of `len` tokens for each start.
pub proof fn law_batch_shape(tokens: Seq<u32>, starts: Seq<usize>, len: int, shift: int)
    requires
        len >= 0,
        0 <= shift <= 1,
        starts_fit(starts, len, tokens.len() as int),
    ensures
        windows(tokens, starts, len, shift).len() == starts.len() * len,
    decreases starts.len(),
{
    if starts.len() > 0 {
        let init = starts.drop_last();
        assert(starts_fit(init, len, tokens.len() as int)) by {
            assert forall|i: int| 0 <= i < init.len() implies #[trigger] init[i] + len
                < tokens.len() by {
                assert(init[i] == starts[i]);
            }
        }
        law_batch_shape(tokens, init, len, shift);
        assert(starts[starts.len() - 1] + len < tokens.len());
        assert((init.len() + 1) * len == init.len() * len + len) by (nonlinear_arith);
    } else {
        assert(0 * len == 0);
    }
}

/// Column `c` of row `r` of a batch is the token at the row's start, moved on
/// by `c`; in the targets it is the token after that one.
pub proof fn law_batch_rows(tokens: Seq<u32>, starts: Seq<usize>, len: int, r: int, c: int)
    requires
        starts_fit(starts, len, tokens.len() as int),
        0 <= r < starts.len(),
        0 <= c < len,
    ensures
        windows(tokens, starts, len, 0)[r * len + c] == tokens[starts[r] + c],
        windows(tokens, starts, len, 1)[r * len + c] == tokens[starts[r] + c + 1],
    decreases starts.len(),
{
    let init = starts.drop_last();
    assert(starts_fit(init, len, tokens.len() as int)) by {
        assert forall|i: int| 0 <= i < init.len() implies #[trigger] init[i] + len
            < tokens.len() by {
            assert(init[i] == starts[i]);
        }
    }
    assert(starts[starts.len() - 1] + len < tokens.len());
    law_batch_shape(tokens, init, len, 0);
    law_batch_shape(tokens, init, len, 1);
    if r < init.len() {
        law_batch_rows(tokens, init, len, r, c);
        assert(r * len + c < init.len() * len && r * len >= 0) by (nonlinear_arith)
            requires
                0 <= r < init.len(),
                0 <= c < len,
        ;
        assert(init[r] == starts[r]);
    }
}

/// The validation tail is the share of the tokens that was asked for, but not
/// shorter than the least length and not longer than all there are.
pub proof fn law_tail_is_the_share(n: nat, val_frac: Binary64, min_val_tokens: nat)
    ensures
        ({
            let wanted = share(n, val_frac, usize::MAX as nat);
            let tail = tail_len(n, val_frac, min_val_tokens);
            &&& min_val_tokens <= wanted <= n ==> tail == wanted
            &&& wanted < min_val_tokens <= n ==> tail == min_val_tokens
            &&& wanted > n || min_val_tokens > n ==> tail == n
        }),
{
}

/// A batch is made of rows: the windows at its starts, one after the other.
pub proof fn law_batch_is_its_rows(
    tokens: Seq<u32>,
    starts: Seq<usize>,
    last: usize,
    len: int,
    shift: int,
)
    ensures
        windows(tokens, Seq::empty(), len, shift) == Seq::<u32>::empty(),
        windows(tokens, starts.push(last), len, shift) == windows(tokens, starts, len, shift)
            + tokens.subrange(last + shift, last + shift + len),
{
    assert(starts.push(last).drop_last() =~= starts);
}

/// Whatever is drawn, each row of a sampled batch is a window of the data, and
/// the targets are that window moved on by one token.
pub proof fn law_sampled_rows(
    tokens: Seq<u32>,
    batch_size: nat,
    seq_len: int,
    x: Seq<u32>,
    y: Seq<u32>,
    r: int,
) -> (start: int)
    requires
        is_batch(tokens, batch_size, seq_len, x, y),
        0 <= r < batch_size,
        seq_len >= 0,
    ensures
        0 <= start,
        start + seq_len < tokens.len(),
        x.subrange(r * seq_len, r * seq_len + seq_len) == tokens.subrange(start, start + seq_len),
        y.subrange(r * seq_len, r * seq_len + seq_len) == tokens.subrange(
            start + 1,
            start + seq_len + 1,
        ),
{
    let starts = choose|starts: Seq<usize>|
        starts.len() == batch_size && starts_fit(starts, seq_len, tokens.len() as int) && x
            == windows(tokens, starts, seq_len, 0) && y == #[trigger] windows(
            tokens,
            starts,
            seq_len,
            1,
        );
    let start = starts[r] as int;
    assert(starts[r] + seq_len < tokens.len());
    law_batch_shape(tokens, starts, seq_len, 0);
    law_batch_shape(tokens, starts, seq_len, 1);
    let from = r * seq_len;
    assert(0 <= from && from + seq_len <= batch_size * seq_len) by (nonlinear_arith)
        requires
            from == r * seq_len,
            0 <= r < batch_size,
            seq_len >= 0,
    ;
    let (a, b) = (x.subrange(from, from + seq_len), y.subrange(from, from + seq_len));
    assert forall|c: int| 0 <= c < seq_len implies a[c] == tokens.subrange(start, start + seq_len)[c]
        && b[c] == tokens.subrange(start + 1, start + seq_len + 1)[c] by {
        law_batch_rows(tokens, starts, seq_len, r, c);
    }
    assert(a =~= tokens.subrange(start, start + seq_len));
    assert(b =~= tokens.subrange(start + 1, start + seq_len + 1));
    start
}

} // verus!
