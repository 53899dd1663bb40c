//! Deterministic evaluation: which windows of a corpus are scored.
//!
//! The corpus is cut into a training slice and a held-out tail, and each is
//! read in windows that do not overlap.
use vstd::arithmetic::div_mod::lemma_fundamental_div_mod_converse;
use vstd::prelude::*;
use vstd::string::StringExecFns;

use crate::binary64::{share, share_of, Binary64};
use crate::text::{decimal, number_text};

verus! {

/// What to evaluate.
#[derive(Clone, Debug)]
pub struct EvalArgs {
    /// Checkpoint directory, or the weights file itself.
    pub checkpoint: String,
    /// Corpus to evaluate (the same file used for training).
    pub data: String,
    /// Window length for the sequential pass.
    pub seq_len: usize,
    /// Fraction of the corpus held out as the validation slice.
    pub val_frac: Binary64,
    /// Backend preference (`auto`, `cpu`, `cuda`, `metal`).
    pub device: String,
}

/// The window length for `n` tokens: at least 1, and short enough to leave a
/// token to predict.
pub open spec fn window_len(n: nat, seq_len: nat) -> nat {
    let wanted = if seq_len < 1 {
        1
    } else {
        seq_len
    };
    let most = if n == 0 {
        0
    } else {
        (n - 1) as nat
    };
    if wanted > most {
        most
    } else {
        wanted
    }
}

/// Both slices can hold a window and the token after it.
pub open spec fn splittable(n: nat, seq_len: nat) -> bool {
    2 * (window_len(n, seq_len) + 1) <= n
}

/// The length of the held-out slice: the fraction asked for, and at least one
/// window in either slice.
pub open spec fn held_out(n: nat, seq_len: nat, val_frac: Binary64) -> nat {
    let least = window_len(n, seq_len) + 1;
    let most = (n - least) as nat;
    let wanted = share(n, val_frac, usize::MAX as nat);
    if wanted < least {
        least
    } else if wanted > most {
        most
    } else {
        wanted
    }
}

/// The number of windows in a slice: as many as leave a token behind each.
pub open spec fn window_count(from: nat, to: nat, window: nat) -> nat {
    if to > from {
        ((to - from - 1) as nat) / window
    } else {
        0
    }
}

/// Where the windows of a slice start.
pub open spec fn window_starts(from: nat, to: nat, window: nat) -> Seq<nat> {
    Seq::new(window_count(from, to, window), |i: int| (from + i * window) as nat)
}

/// The starts as numbers.
pub open spec fn as_nats(starts: Seq<usize>) -> Seq<nat> {
    starts.map_values(|s: usize| s as nat)
}

/// What an evaluation scores.
pub struct EvalPlan {
    /// The window length.
    pub window: usize,
    /// Where the held-out slice begins.
    pub cut: usize,
    /// The starts of the windows of the training slice.
    pub train: Vec<usize>,
    /// The starts of the windows of the held-out slice.
    pub val: Vec<usize>,
}

impl EvalPlan {
    /// The plan for `n` tokens.
    pub open spec fn scores(&self, n: nat, seq_len: nat, val_frac: Binary64) -> bool {
        &&& self.window == window_len(n, seq_len)
        &&& self.cut == n - held_out(n, seq_len, val_frac)
        &&& as_nats(self.train@) == window_starts(0, self.cut as nat, self.window as nat)
        &&& as_nats(self.val@) == window_starts(self.cut as nat, n, self.window as nat)
    }
}

/// The windows that start at `starts` are all those that a slice holds: the
/// first begins where the slice does, each of the others where the one before
/// it ends, each leaves a token behind it to predict, and no further window
/// would.
pub open spec fn covers(starts: Seq<usize>, from: int, to: int, window: int) -> bool {
    &&& starts.len() > 0 && starts[0] == from
    &&& forall|i: int, j: int|
        0 <= i && j == i + 1 && j < starts.len() ==> (#[trigger] starts[j]) == (#[trigger] starts[i])
            + window
    &&& forall|i: int| 0 <= i < starts.len() ==> (#[trigger] starts[i]) + window < to
    &&& starts.last() + 2 * window >= to
}

/// Evaluation is deterministic: two plans for as many tokens, with the same
/// window length and fraction, score the same windows.
pub proof fn law_plan_is_deterministic(
    p: EvalPlan,
    q: EvalPlan,
    n: nat,
    seq_len: nat,
    val_frac: Binary64,
)
    requires
        p.scores(n, seq_len, val_frac),
        q.scores(n, seq_len, val_frac),
    ensures
        p.window == q.window,
        p.cut == q.cut,
        p.train@ == q.train@,
        p.val@ == q.val@,
{
    lemma_same_starts(p.train@, q.train@);
    lemma_same_starts(p.val@, q.val@);
}

proof fn lemma_same_starts(a: Seq<usize>, b: Seq<usize>)
    requires
        as_nats(a) == as_nats(b),
    ensures
        a == b,
{
    assert(a.len() == as_nats(a).len() && b.len() == as_nats(b).len());
    assert forall|i: int| 0 <= i < a.len() implies a[i] == b[i] by {
        assert(as_nats(a)[i] == a[i] as nat && as_nats(b)[i] == b[i] as nat);
    }
}

/// Where the windows of the tokens from `from` up to `to` start.
fn starts_between(from: usize, to: usize, window: usize) -> (r: Vec<usize>)
    requires
        window > 0,
        from <= to,
    ensures
        as_nats(r@) == window_starts(from as nat, to as nat, window as nat),
{
    let mut out: Vec<usize> = Vec::new();
    let mut start: usize = from;
    assert(0 * window == 0) by (nonlinear_arith);
    while start < to && to - start > window
        invariant
            window > 0,
            from <= start <= to,
            start == from + out.len() * window,
            forall|i: int| 0 <= i < out.len() ==> #[trigger] out@[i] == from + i * window,
            start > from ==> start < to,
            to == from ==> out.len() == 0,
        decreases to - start,
    {
        out.push(start);
        start = start + window;
        proof {
            let n = out@.len() as int;
            assert((n - 1) * window + window == n * window) by (nonlinear_arith);
        }
    }
    proof {
        let n = out@.len() as int;
        if to > from {
            assert(start < to);
            let rest = to - from - 1 - n * window;
            lemma_fundamental_div_mod_converse(to - from - 1, window as int, n, rest);
        }
        assert(as_nats(out@) =~= window_starts(from as nat, to as nat, window as nat));
    }
    out
}

/// Whether `n` tokens are enough for an evaluation in windows of `seq_len`.
pub fn can_split(n: usize, seq_len: usize) -> (r: bool)
    ensures
        r == splittable(n as nat, seq_len as nat),
{
    let window = clamp_window(n, seq_len);
    window < n && window + 1 <= n - (window + 1)
}

fn clamp_window(n: usize, seq_len: usize) -> (r: usize)
    ensures
        r == window_len(n as nat, seq_len as nat),
{
    let wanted: usize = if seq_len < 1 {
        1
    } else {
        seq_len
    };
    let most: usize = if n == 0 {
        0
    } else {
        n - 1
    };
    if wanted > most {
        most
    } else {
        wanted
    }
}

/// Plan the evaluation of `n` tokens.
pub fn plan(n: usize, seq_len: usize, val_frac: Binary64) -> (p: EvalPlan)
    requires
        splittable(n as nat, seq_len as nat),
    ensures
        p.scores(n as nat, seq_len as nat, val_frac),
        p.window == if seq_len == 0 {
            1
        } else {
            seq_len
        },
        ({
            let wanted = share(n as nat, val_frac, usize::MAX as nat) as int;
            let val = n - p.cut;
            &&& p.window < p.cut && p.window < val
            &&& p.window < wanted < n - p.window ==> val == wanted
            &&& wanted <= p.window ==> val == p.window + 1
            &&& wanted >= n - p.window ==> p.cut == p.window + 1
        }),
        covers(p.train@, 0, p.cut as int, p.window as int),
        covers(p.val@, p.cut as int, n as int, p.window as int),
{
    let window = clamp_window(n, seq_len);
    let least: usize = window + 1;
    let most: usize = n - least;
    let wanted = share_of(n, val_frac);
    let val_len: usize = if wanted < least {
        least
    } else if wanted > most {
        most
    } else {
        wanted
    };
    let cut: usize = n - val_len;
    let train = starts_between(0, cut, window);
    let val = starts_between(cut, n, window);
    proof {
        lemma_covers(train@, 0, cut as nat, window as nat);
        lemma_covers(val@, cut as nat, n as nat, window as nat);
    }
    EvalPlan { window, cut, train, val }
}

/// The inputs and targets of the window at `start`.
pub fn window_at(tokens: &Vec<u32>, start: usize, window: usize) -> (r: (Vec<u32>, Vec<u32>))
    requires
        start + window < tokens@.len(),
    ensures
        r.0@ == tokens@.subrange(start as int, start + window),
        r.1@ == tokens@.subrange(start + 1, start + window + 1),
{
    let mut x: Vec<u32> = Vec::new();
    let mut y: Vec<u32> = Vec::new();
    for i in 0..window
        invariant
            start + window < tokens.len(),
            x@ == tokens@.subrange(start as int, start + i),
            y@ == tokens@.subrange(start + 1, start + i + 1),
    {
        x.push(tokens[start + i]);
        y.push(tokens[start + i + 1]);
        assert(x@ =~= tokens@.subrange(start as int, start + i + 1));
        assert(y@ =~= tokens@.subrange(start + 1, start + i + 2));
    }
    (x, y)
}

/// Whether enough tokens were scored to report a number.
pub fn worth_reporting(scored: usize) -> (r: bool)
    ensures
        r == (scored >= 2),
{
    scored >= 2
}

/// The line that says what was scored.
pub fn tokens_line(n: usize, train: usize, val: usize, window: usize) -> (s: String)
    ensures
        s@ == "tokens "@ + decimal(n as nat) + " (train slice "@ + decimal(train as nat)
            + " | val slice "@ + decimal(val as nat) + ") | window "@ + decimal(window as nat),
{
    let mut s = "tokens ".to_owned();
    s.append(number_text(n).as_str());
    s.append(" (train slice ");
    s.append(number_text(train).as_str());
    s.append(" | val slice ");
    s.append(number_text(val).as_str());
    s.append(") | window ");
    s.append(number_text(window).as_str());
    s
}

/// Each slice of an evaluation has at least one window.
pub proof fn law_slices_hold_a_window(n: nat, seq_len: nat, val_frac: Binary64)
    requires
        splittable(n, seq_len),
    ensures
        ({
            let window = window_len(n, seq_len);
            let cut = (n - held_out(n, seq_len, val_frac)) as nat;
            &&& window > 0
            &&& window_count(0, cut, window) >= 1
            &&& window_count(cut, n, window) >= 1
        }),
{
    let window = window_len(n, seq_len);
    let cut = (n - held_out(n, seq_len, val_frac)) as nat;
    lemma_count(0, cut, window);
    lemma_count(cut, n, window);
}

/// The count is the largest number of windows that leave a token behind.
proof fn lemma_count(from: nat, to: nat, window: nat)
    requires
        window > 0,
        to - from > window,
    ensures
        window_count(from, to, window) >= 1,
        window_count(from, to, window) * window < to - from <= (window_count(from, to, window) + 1)
            * window,
{
    let m = (to - from - 1) as nat;
    let q = m / window;
    vstd::arithmetic::div_mod::lemma_fundamental_div_mod(m as int, window as int);
    assert(q >= 1 && q * window <= m && m < (q + 1) * window) by (nonlinear_arith)
        requires
            m == window * q + m % window,
            0 <= m % window < window,
            m >= window,
            window > 0,
    ;
}

/// The windows of a slice lie in it, each with a token behind it; one begins
/// where the one before it ends; and no more than a window is left over behind
/// the last.
pub proof fn law_windows_tile(from: nat, to: nat, window: nat, i: int)
    requires
        window > 0,
        0 <= i < window_count(from, to, window),
    ensures
        from <= window_starts(from, to, window)[i],
        window_starts(from, to, window)[i] + window < to,
        window_starts(from, to, window)[0] == from,
        i + 1 < window_count(from, to, window) ==> window_starts(from, to, window)[i + 1]
            == window_starts(from, to, window)[i] + window,
        i + 1 == window_count(from, to, window) ==> to <= window_starts(from, to, window)[i] + 2
            * window,
{
    let q = window_count(from, to, window);
    if to - from <= window {
        assert(((to - from - 1) as nat) / window == 0) by (nonlinear_arith)
            requires
                0 <= to - from - 1 < window,
        ;
    }
    lemma_count(from, to, window);
    assert(0 <= i * window && (i + 1) * window <= q * window && (i + 1) * window == i * window
        + window) by (nonlinear_arith)
        requires
            0 <= i < q,
            window > 0,
    ;
    assert(0 * window == 0);
    assert((q + 1) * window == q * window + window) by (nonlinear_arith);
}

/// The windows of a slice that holds one cover it.
proof fn lemma_covers(starts: Seq<usize>, from: nat, to: nat, window: nat)
    requires
        window > 0,
        to - from > window,
        as_nats(starts) == window_starts(from, to, window),
    ensures
        covers(starts, from as int, to as int, window as int),
{
    lemma_count(from, to, window);
    let all = window_starts(from, to, window);
    assert(starts.len() == as_nats(starts).len());
    assert forall|i: int| 0 <= i < starts.len() implies starts[i] == all[i] && all[i] + window < to
        && (i + 1 < starts.len() ==> all[i + 1] == all[i] + window) && (i + 1 == starts.len() ==> to
        <= all[i] + 2 * window) by {
        assert(as_nats(starts)[i] == starts[i] as nat);
        law_windows_tile(from, to, window, i);
    }
    law_windows_tile(from, to, window, 0);
}

/// The window length is the one that was asked for wherever it leaves a token
/// to predict. Only 0 is raised to 1, and what is too long cut to all but the
/// last token.
pub proof fn law_window_is_the_one_asked_for(n: nat, seq_len: nat)
    ensures
        1 <= seq_len < n ==> window_len(n, seq_len) == seq_len,
        seq_len == 0 && n >= 2 ==> window_len(n, seq_len) == 1,
        seq_len >= n > 0 ==> window_len(n, seq_len) == n - 1,
        n == 0 ==> window_len(n, seq_len) == 0,
{
}

/// A corpus can be split where both slices hold a window and the token behind
/// it.
pub proof fn law_what_can_be_split(n: nat, seq_len: nat)
    requires
        seq_len >= 1,
    ensures
        splittable(n, seq_len) <==> n >= 2 * (seq_len + 1),
{
}

/// The held-out slice is the share that was asked for, wherever that leaves
/// both slices a window.
pub proof fn law_held_out_share(n: nat, seq_len: nat, val_frac: Binary64)
    requires
        seq_len >= 1,
        splittable(n, seq_len),
    ensures
        ({
            let wanted = share(n, val_frac, usize::MAX as nat);
            let held = held_out(n, seq_len, val_frac);
            &&& seq_len + 1 <= wanted <= n - (seq_len + 1) ==> held == wanted
            &&& wanted <= seq_len ==> held == seq_len + 1
            &&& wanted >= n - seq_len ==> held == n - (seq_len + 1)
        }),
{
}

} // verus!
