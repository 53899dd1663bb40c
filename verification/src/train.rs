//! The course of a training run: checks, data, schedule, and what each step
//! does besides learning.
use vstd::prelude::*;
use vstd::string::StringExecFns;

use crate::binary32::Binary32;
use crate::binary64::{Binary64, ONE};
use crate::bpe::BpeTokenizer;
use crate::bpe_json::{tokenizer_json, JsonError};
use crate::config::{config_error_text, Config, ConfigError};
use crate::data::{generator_of, is_batch, seeded, tail_len, ByteDataset, DataError, TOO_FEW};
use crate::generate::tokens_of;
use crate::learning::learned;
use crate::merging::{byte_ids, Merge, MAX_MERGES};
use crate::paths::{join_path, path_below, weights_name, Platform};
use crate::settings::Real;
use crate::text::{decimal, number_text, same};

pub use crate::paths::resolve_checkpoint_paths;

verus! {

/// Live progress of a training run.
#[derive(Clone, Debug)]
pub struct TrainProgress {
    pub step: usize,
    pub total: usize,
    pub loss: Binary32,
    pub tok_s: Binary64,
    pub done: bool,
    pub error: bool,
    pub error_msg: String,
}

impl Default for TrainProgress {
    fn default() -> (p: Self)
        ensures
            p.step == 0,
            p.total == 0,
            p.loss.bits == 0,
            p.tok_s.bits == 0,
            !p.done,
            !p.error,
            p.error_msg@.len() == 0,
    {
        TrainProgress {
            step: 0,
            total: 0,
            loss: Binary32 { bits: 0 },
            tok_s: Binary64 { bits: 0 },
            done: false,
            error: false,
            error_msg: String::new(),
        }
    }
}

/// What to train, and how.
#[derive(Clone, Debug)]
pub struct TrainArgs {
    pub data: String,
    pub out_dir: String,
    pub steps: usize,
    pub batch_size: usize,
    pub seq_len: usize,
    /// Peak learning rate.
    pub lr: Real,
    pub log_every: usize,
    pub val_every: usize,
    pub val_batches: usize,
    pub save_every: usize,
    pub val_frac: Binary64,
    pub seed: u64,
    /// Optional checkpoint (directory or weights file) to continue from.
    pub resume: Option<String>,
    /// Linear warmup steps before cosine decay starts.
    pub warmup_steps: usize,
    /// Global gradient-norm clip (0 disables).
    pub grad_clip: Binary64,
    /// Backend preference (`auto`, `cpu`, `cuda`, `metal`).
    pub device: String,
    pub config: Config,
}

/// 0.05: the fraction of the data that is held out, unless chosen otherwise.
pub const VAL_FRAC: u64 = 0x3fa9_9999_9999_999a;

impl TrainArgs {
    /// What the interactive front ends do not ask for.
    pub open spec fn usual(&self) -> bool {
        &&& self.log_every == 50
        &&& self.val_every == 500
        &&& self.val_batches == 4
        &&& self.save_every == 1000
        &&& self.val_frac.bits == VAL_FRAC
        &&& self.seed == 42
        &&& self.grad_clip.bits == ONE
    }
}

/// Why a run cannot begin.
#[derive(Clone, Copy, Debug, PartialEq, Eq, Structural)]
pub enum TrainError {
    /// The architecture is not usable.
    Config(ConfigError),
    /// The windows are longer than the context.
    SeqTooLong { seq_len: usize, max_seq_len: usize },
    /// There are too few tokens.
    Data(DataError),
    /// One of the two parts of the data is too short for a window.
    SplitTooSmall { train: usize, val: usize, seq_len: usize },
}

/// An error in words.
pub open spec fn train_error_text(e: TrainError) -> Seq<char> {
    match e {
        TrainError::Config(c) => config_error_text(c),
        TrainError::SeqTooLong { seq_len, max_seq_len } => "seq_len "@ + decimal(seq_len as nat)
            + " exceeds max_seq_len "@ + decimal(max_seq_len as nat),
        TrainError::Data(DataError::TooSmall(n)) => "dataset too small ("@ + decimal(n as nat)
            + " tokens); need at least a few thousand"@,
        TrainError::SplitTooSmall { train, val, seq_len } => "dataset too small: train "@ + decimal(
            train as nat,
        ) + " / val "@ + decimal(val as nat) + " tokens for seq_len "@ + decimal(seq_len as nat),
    }
}

impl TrainError {
    /// The error in words.
    pub fn message(&self) -> (s: String)
        ensures
            s@ == train_error_text(*self),
    {
        match self {
            TrainError::Config(c) => c.message(),
            TrainError::SeqTooLong { seq_len, max_seq_len } => {
                let mut s = "seq_len ".to_owned();
                s.append(number_text(*seq_len).as_str());
                s.append(" exceeds max_seq_len ");
                s.append(number_text(*max_seq_len).as_str());
                s
            },
            TrainError::Data(d) => d.message(),
            TrainError::SplitTooSmall { train, val, seq_len } => {
                let mut s = "dataset too small: train ".to_owned();
                s.append(number_text(*train).as_str());
                s.append(" / val ");
                s.append(number_text(*val).as_str());
                s.append(" tokens for seq_len ");
                s.append(number_text(*seq_len).as_str());
                s
            },
        }
    }
}

/// Checks the architecture, and that the windows fit the context.
pub fn check_args(config: &Config, seq_len: usize) -> (r: Result<(), TrainError>)
    ensures
        r == match config.first_error() {
            Some(e) => Err::<(), TrainError>(TrainError::Config(e)),
            None => if seq_len > config.max_seq_len {
                Err(TrainError::SeqTooLong { seq_len, max_seq_len: config.max_seq_len })
            } else {
                Ok(())
            },
        },
{
    match config.validate() {
        Err(e) => Err(TrainError::Config(e)),
        Ok(()) => if seq_len > config.max_seq_len {
            Err(TrainError::SeqTooLong { seq_len, max_seq_len: config.max_seq_len })
        } else {
            Ok(())
        },
    }
}

/// Tokens held out at least.
pub const MIN_VAL_TOKENS: usize = 4096;

/// The merges of a tokenizer, if there is one.
pub open spec fn merges_of(t: Option<BpeTokenizer>) -> Option<Seq<Merge>> {
    match t {
        Some(tok) => Some(tok@),
        None => None,
    }
}

/// The tokenizer of a run: none in byte mode, the one that was saved with the
/// checkpoint to continue from, and otherwise one learned from the data.
pub open spec fn chosen(
    config: Config,
    cached: Option<Seq<Merge>>,
    raw: Seq<u8>,
) -> Option<Seq<Merge>> {
    if config.tokenizer@ == "bpe"@ {
        match cached {
            Some(merges) => Some(merges),
            None => Some(learned(byte_ids(raw), Seq::empty(), config.num_merges as nat)),
        }
    } else {
        None
    }
}

/// Continuing a run in BPE mode keeps the tokenizer of the checkpoint, whatever
/// the data, so that the tokens stay consistent with the weights.
pub proof fn law_resuming_keeps_tokenizer(config: Config, merges: Seq<Merge>, raw: Seq<u8>)
    requires
        config.tokenizer@ == "bpe"@,
    ensures
        chosen(config, Some(merges), raw) == Some(merges),
{
}

/// A part of the data that is long enough for windows.
pub open spec fn long_enough(n: nat, seq_len: nat) -> bool {
    n > seq_len + 1
}

/// What a run works on.
pub struct Prepared {
    /// The architecture, with the vocabulary of the tokenizer.
    pub config: Config,
    pub tokenizer: Option<BpeTokenizer>,
    /// Whether the tokenizer came with the checkpoint.
    pub reused: bool,
    pub train: ByteDataset,
    pub val: ByteDataset,
}

impl Prepared {
    /// What a checkpoint of the run stores of its tokenizer.
    pub open spec fn stored(&self) -> Option<Seq<char>> {
        match self.tokenizer {
            Some(t) => Some(tokenizer_json(t@)),
            None => None,
        }
    }

    /// What a checkpoint of the run stores of its tokenizer: its JSON form, if
    /// there is one.
    pub fn stored_tokenizer(&self) -> (r: Result<Option<String>, JsonError>)
        ensures
            r is Ok,
            match r->Ok_0 {
                Some(text) => self.stored() == Some(text@),
                None => self.stored() is None,
            },
    {
        match &self.tokenizer {
            Some(t) => match t.to_json() {
                Ok(text) => Ok(Some(text)),
                Err(e) => Err(e),
            },
            None => Ok(None),
        }
    }

    /// The right outcome for a file of bytes `raw`.
    pub open spec fn fits(
        &self,
        config: Config,
        cached: Option<Seq<Merge>>,
        raw: Seq<u8>,
        val_frac: Binary64,
    ) -> bool {
        let merges = chosen(config, cached, raw);
        let tokens = tokens_of(merges, raw);
        let cut = tokens.len() - tail_len(tokens.len(), val_frac, MIN_VAL_TOKENS as nat);
        &&& merges_of(self.tokenizer) == merges
        &&& self.reused == (merges is Some && cached is Some)
        &&& self.config.same_but_vocab(config)
        &&& self.config.vocab_size == match merges {
            Some(m) => 256 + m.len(),
            None => config.vocab_size as nat,
        }
        &&& self.train@ == tokens.take(cut)
        &&& self.val@ == tokens.skip(cut)
    }
}

/// A run in BPE mode that continues from a checkpoint with a tokenizer works
/// with exactly the merges of that tokenizer, whatever the data: they are what
/// it stores, and its vocabulary is theirs.
pub proof fn law_resumed_run_stores_the_tokenizer(
    p: Prepared,
    config: Config,
    merges: Seq<Merge>,
    raw: Seq<u8>,
    val_frac: Binary64,
)
    requires
        config.tokenizer@ == "bpe"@,
        p.fits(config, Some(merges), raw, val_frac),
    ensures
        p.reused,
        p.tokenizer is Some,
        p.tokenizer->Some_0@ == merges,
        p.stored() == Some(tokenizer_json(merges)),
        p.config.vocab_size == 256 + merges.len(),
{
}

/// Whether a part of `n` tokens is long enough for windows.
fn is_long_enough(n: usize, seq_len: usize) -> (r: bool)
    ensures
        r == long_enough(n as nat, seq_len as nat),
{
    n > seq_len && n - seq_len > 1
}

/// Choose the tokenizer of a run, turn the file into tokens, and split them.
///
/// `cached` is the tokenizer that was saved with the checkpoint to continue
/// from, if any: reusing it keeps the tokens consistent with the weights.
pub fn prepare(
    config: &Config,
    seq_len: usize,
    val_frac: Binary64,
    cached: Option<BpeTokenizer>,
    raw: &Vec<u8>,
) -> (r: Result<Prepared, TrainError>)
    requires
        config.tokenizer@ == "bpe"@ && cached is None ==> raw@.len() <= MAX_MERGES
            || config.num_merges <= MAX_MERGES,
        config.tokenizer@ == "bpe"@ && cached is None ==> 256 + raw@.len() <= usize::MAX || 256
            + config.num_merges <= usize::MAX,
        cached matches Some(t) ==> t.wf() && 256 + t@.len() <= usize::MAX,
    ensures
        ({
            let tokens = tokens_of(chosen(*config, merges_of(cached), raw@), raw@);
            let val = tail_len(tokens.len(), val_frac, MIN_VAL_TOKENS as nat);
            let train = (tokens.len() - val) as nat;
            if tokens.len() <= TOO_FEW {
                r is Err && r->Err_0 == TrainError::Data(DataError::TooSmall(tokens.len() as usize))
            } else if !long_enough(train, seq_len as nat) || !long_enough(val, seq_len as nat) {
                r is Err && r->Err_0 == (TrainError::SplitTooSmall {
                    train: train as usize,
                    val: val as usize,
                    seq_len,
                })
            } else {
                r is Ok && r->Ok_0.fits(*config, merges_of(cached), raw@, val_frac)
            }
        }),
        r matches Ok(p) ==> {
            &&& p.train@.len() >= seq_len + 2 && p.val@.len() >= seq_len + 2
            &&& p.val@.len() >= 4096 && p.train@.len() + p.val@.len() > 1024
            &&& p.train@ + p.val@ == tokens_of(merges_of(p.tokenizer), raw@)
            &&& config.tokenizer@ != "bpe"@ ==> p.tokenizer is None && !p.reused
            &&& config.tokenizer@ == "bpe"@ && cached is Some ==> p.reused && merges_of(p.tokenizer)
                == merges_of(cached)
            &&& config.tokenizer@ == "bpe"@ && cached is None ==> !p.reused && p.tokenizer is Some
                && p.tokenizer->Some_0@ == learned(
                byte_ids(raw@),
                Seq::empty(),
                config.num_merges as nat,
            )
        },
        r matches Err(TrainError::SplitTooSmall { train, val, seq_len: s }) ==> s == seq_len && (
        train < seq_len + 2 || val < seq_len + 2),
{
    let bpe = same(config.tokenizer.as_str(), "bpe");
    let reused = bpe && cached.is_some();
    let tokenizer: Option<BpeTokenizer> = if bpe {
        match cached {
            Some(t) => Some(t),
            None => Some(BpeTokenizer::train(raw.as_slice(), config.num_merges)),
        }
    } else {
        None
    };
    let vocab_size: usize = match &tokenizer {
        Some(t) => t.vocab_size(),
        None => config.vocab_size,
    };
    let loaded = match &tokenizer {
        Some(t) => {
            let data = t.data();
            ByteDataset::from_tokens(t.encode(raw.as_slice(), &data))
        },
        None => ByteDataset::load(raw),
    };
    let dataset = match loaded {
        Ok(ds) => ds,
        Err(e) => {
            return Err(TrainError::Data(e));
        },
    };
    let (train, val) = dataset.split_tail(val_frac, MIN_VAL_TOKENS);
    assert(train@ + val@ == dataset@);
    if is_long_enough(train.len(), seq_len) && is_long_enough(val.len(), seq_len) {
        Ok(Prepared { config: config.with_vocab(vocab_size), tokenizer, reused, train, val })
    } else {
        Err(TrainError::SplitTooSmall { train: train.len(), val: val.len(), seq_len })
    }
}

/// The learning rate at a step.
#[derive(Clone, Copy, Debug, PartialEq, Eq, Structural)]
pub enum LrPhase {
    /// Linear warmup: the peak times `step / warmup`.
    Warmup { step: usize, warmup: usize },
    /// Cosine decay: `done / all` of the way from the peak to its tenth, which
    /// is at most all of it.
    Cosine { done: usize, all: usize },
}

/// The number of warmup steps of a run: at most all but the last, and at least
/// one.
pub open spec fn warmup_of(total: nat, warmup: nat) -> nat {
    let most = if total == 0 {
        0
    } else {
        (total - 1) as nat
    };
    let w = if warmup > most {
        most
    } else {
        warmup
    };
    if w < 1 {
        1
    } else {
        w
    }
}

/// Linear warmup, then cosine decay over the steps that are left.
pub open spec fn lr_phase(step: nat, total: nat, warmup: nat) -> LrPhase {
    let w = warmup_of(total, warmup);
    if step <= w {
        LrPhase::Warmup { step: step as usize, warmup: w as usize }
    } else {
        let all = if total - w < 1 {
            1
        } else {
            total - w
        };
        let done = if step - w > all {
            all
        } else {
            step - w
        };
        LrPhase::Cosine { done: done as usize, all: all as usize }
    }
}

/// Linear warmup, then cosine decay.
pub fn scheduled_lr(step: usize, total: usize, warmup: usize) -> (r: LrPhase)
    requires
        total >= 1 || step <= 1,
    ensures
        r == lr_phase(step as nat, total as nat, warmup as nat),
        1 <= warmup < total && step <= warmup ==> r == (LrPhase::Warmup { step, warmup }),
        1 <= warmup < total && warmup < step <= total ==> r == (LrPhase::Cosine {
            done: (step - warmup) as usize,
            all: (total - warmup) as usize,
        }),
        1 <= warmup < total && step > total ==> r == (LrPhase::Cosine {
            done: (total - warmup) as usize,
            all: (total - warmup) as usize,
        }),
{
    let most: usize = if total == 0 {
        0
    } else {
        total - 1
    };
    let w: usize = if warmup > most {
        most
    } else {
        warmup
    };
    let w: usize = if w < 1 {
        1
    } else {
        w
    };
    if step <= w {
        LrPhase::Warmup { step, warmup: w }
    } else {
        let all: usize = if total - w < 1 {
            1
        } else {
            total - w
        };
        let done: usize = if step - w > all {
            all
        } else {
            step - w
        };
        LrPhase::Cosine { done, all }
    }
}

/// The schedule reaches its peak at the end of the warmup, which is a step of
/// the run, and its floor at the last step of a run of more than one.
pub proof fn law_schedule_ends(total: nat, warmup: nat)
    requires
        1 <= total <= usize::MAX,
    ensures
        ({
            let w = warmup_of(total, warmup);
            &&& 1 <= w <= total
            &&& lr_phase(w, total, warmup) == (LrPhase::Warmup {
                step: w as usize,
                warmup: w as usize,
            })
            &&& total >= 2 ==> lr_phase(total, total, warmup) == (LrPhase::Cosine {
                done: (total - w) as usize,
                all: (total - w) as usize,
            })
        }),
{
}

/// Whether gradients are clipped.
pub fn clips(grad_clip: Binary64) -> (r: bool)
    ensures
        r == grad_clip.positive(),
{
    grad_clip.is_positive()
}

/// How far the cosine decay is at a step.
pub open spec fn decayed(phase: LrPhase) -> int {
    match phase {
        LrPhase::Warmup { .. } => 0,
        LrPhase::Cosine { done, .. } => done as int,
    }
}

/// Up to the end of the warmup a step's phase holds its share of the warmup.
/// Behind it the decay has one length, the part of it that is done never falls,
/// and from the last step on it is the whole.
pub proof fn law_decay_never_goes_back(total: nat, warmup: nat, s: nat, t: nat)
    requires
        1 <= total <= usize::MAX,
        s <= t <= usize::MAX,
    ensures
        ({
            let w = warmup_of(total, warmup);
            let all = if total > w {
                total - w
            } else {
                1
            };
            &&& s <= w ==> lr_phase(s, total, warmup) == (LrPhase::Warmup {
                step: s as usize,
                warmup: w as usize,
            })
            &&& s > w ==> (lr_phase(s, total, warmup) matches LrPhase::Cosine { done, all: a }
                && 0 < done <= a && a == all)
            &&& decayed(lr_phase(s, total, warmup)) <= decayed(lr_phase(t, total, warmup))
            &&& s > w && s >= total ==> decayed(lr_phase(s, total, warmup)) == all
        }),
{
}

/// When a run of `steps` steps does more than learn. Each count but `log_every`
/// may be 0, which switches its part off.
#[derive(Clone, Copy, Debug, PartialEq, Eq, Structural)]
pub struct Schedule {
    pub steps: usize,
    pub warmup_steps: usize,
    pub log_every: usize,
    pub val_every: usize,
    pub save_every: usize,
    /// Whether the run prints; one that is watched from elsewhere does not.
    pub verbose: bool,
}

impl Schedule {
    /// A run that prints logs at some interval.
    pub open spec fn wf(self) -> bool {
        self.verbose ==> self.log_every > 0
    }

    /// A step is logged: regularly, and at the end.
    pub open spec fn logs(self, step: nat) -> bool {
        self.verbose && (step % (self.log_every as nat) == 0 || step == self.steps)
    }

    /// A step is followed by a validation: regularly.
    pub open spec fn validates(self, step: nat) -> bool {
        self.val_every > 0 && step % (self.val_every as nat) == 0
    }

    /// A step is followed by a checkpoint: regularly, and at the end.
    pub open spec fn saves(self, step: nat) -> bool {
        self.save_every > 0 && (step % (self.save_every as nat) == 0 || step == self.steps)
    }
}

/// What to do next in a run.
#[derive(Clone, Copy, Debug, PartialEq, Eq, Structural)]
pub enum Action {
    /// Take this step: sample a batch, and learn from it at this rate.
    Learn { step: usize, lr: LrPhase },
    /// Print a line about the step.
    Log,
    /// Compute and print the validation loss.
    Validate,
    /// Write a checkpoint.
    Save,
    /// The run is over.
    Finish,
}

/// How far a run is within a step.
#[derive(Clone, Copy, Debug, PartialEq, Eq, Structural)]
pub enum Stage {
    /// Before the next step.
    Between,
    /// The step has been taken.
    Learned,
    /// Its line, if any, has been printed.
    Logged,
    /// Its validation, if any, has been done.
    Validated,
    /// There is no further step.
    Over,
}

/// What follows between two steps: the next one, unless the run is cancelled or
/// has taken all its steps.
pub open spec fn after_step(s: Schedule, current: nat, cancelled: bool) -> (Action, nat, Stage) {
    if cancelled || current >= s.steps {
        (Action::Finish, current, Stage::Over)
    } else {
        (
            Action::Learn {
                step: (current + 1) as usize,
                lr: lr_phase(current + 1, s.steps as nat, s.warmup_steps as nat),
            },
            current + 1,
            Stage::Learned,
        )
    }
}

/// What follows the validation of step `current`.
pub open spec fn after_validation(s: Schedule, current: nat, cancelled: bool) -> (
    Action,
    nat,
    Stage,
) {
    if s.saves(current) {
        (Action::Save, current, Stage::Between)
    } else {
        after_step(s, current, cancelled)
    }
}

/// What follows the log line of step `current`.
pub open spec fn after_log(s: Schedule, current: nat, cancelled: bool) -> (Action, nat, Stage) {
    if s.validates(current) {
        (Action::Validate, current, Stage::Validated)
    } else {
        after_validation(s, current, cancelled)
    }
}

/// What a run does next, and the step and stage it is at then.
pub open spec fn following(s: Schedule, current: nat, stage: Stage, cancelled: bool) -> (
    Action,
    nat,
    Stage,
) {
    match stage {
        Stage::Between => after_step(s, current, cancelled),
        Stage::Learned => if s.logs(current) {
            (Action::Log, current, Stage::Logged)
        } else {
            after_log(s, current, cancelled)
        },
        Stage::Logged => after_log(s, current, cancelled),
        Stage::Validated => after_validation(s, current, cancelled),
        Stage::Over => (Action::Finish, current, Stage::Over),
    }
}

/// A training run.
pub struct TrainRun {
    pub schedule: Schedule,
    /// The step that was begun last; 0 before the first.
    pub current: usize,
    pub stage: Stage,
    pub progress: TrainProgress,
    /// What picks the windows of the batches.
    pub rng: rand::rngs::StdRng,
}

impl TrainRun {
    /// No more steps are begun than there are, and the run is done when no
    /// step follows.
    pub open spec fn wf(&self) -> bool {
        &&& self.schedule.wf()
        &&& self.current <= self.schedule.steps
        &&& self.progress.step <= self.current
        &&& self.progress.total == 0 || self.progress.total == self.schedule.steps
        &&& self.progress.done == (self.stage is Over)
        &&& !self.progress.error
    }

    /// A run that has taken no step. `seed` fixes the batches that it samples.
    pub fn begin(schedule: Schedule, seed: u64) -> (t: Self)
        requires
            schedule.wf(),
        ensures
            t.wf(),
            t.schedule == schedule,
            t.current == 0,
            t.stage is Between,
            t.progress.total == 0,
            t.progress.step == 0,
            t.progress.loss.bits == 0,
            t.progress.tok_s.bits == 0,
            t.progress.error_msg@.len() == 0,
            t.rng == generator_of(seed),
    {
        TrainRun {
            schedule,
            current: 0,
            stage: Stage::Between,
            progress: TrainProgress::default(),
            rng: seeded(seed),
        }
    }

    /// Begin the next step, if there is one and the run is not cancelled.
    fn step_or_finish(&mut self, cancelled: bool) -> (a: Action)
        requires
            old(self).schedule.wf(),
            old(self).current <= old(self).schedule.steps,
        ensures
            (a, final(self).current as nat, final(self).stage) == after_step(
                old(self).schedule,
                old(self).current as nat,
                cancelled,
            ),
            final(self).schedule == old(self).schedule,
            final(self).progress == (TrainProgress {
                done: old(self).progress.done || a is Finish,
                ..old(self).progress
            }),
    {
        let s = self.schedule;
        if cancelled || self.current >= s.steps {
            self.stage = Stage::Over;
            self.progress.done = true;
            Action::Finish
        } else {
            self.current = self.current + 1;
            self.stage = Stage::Learned;
            Action::Learn {
                step: self.current,
                lr: scheduled_lr(self.current, s.steps, s.warmup_steps),
            }
        }
    }

    /// What to do next. `cancelled` is looked at between steps only.
    pub fn next(&mut self, cancelled: bool) -> (a: Action)
        requires
            old(self).wf(),
        ensures
            final(self).wf(),
            (a, final(self).current as nat, final(self).stage) == following(
                old(self).schedule,
                old(self).current as nat,
                old(self).stage,
                cancelled,
            ),
            final(self).schedule == old(self).schedule,
            final(self).progress == (TrainProgress {
                done: a is Finish,
                ..old(self).progress
            }),
    {
        let s = self.schedule;
        let step = self.current;
        let log_due = match self.stage {
            Stage::Learned => true,
            _ => false,
        };
        let validation_due = match self.stage {
            Stage::Learned | Stage::Logged => true,
            _ => false,
        };
        let save_due = match self.stage {
            Stage::Learned | Stage::Logged | Stage::Validated => true,
            _ => false,
        };
        let over = match self.stage {
            Stage::Over => true,
            _ => false,
        };
        if over {
            return Action::Finish;
        }
        if log_due && s.verbose && (step % s.log_every == 0 || step == s.steps) {
            self.stage = Stage::Logged;
            return Action::Log;
        }
        if validation_due && s.val_every > 0 && step % s.val_every == 0 {
            self.stage = Stage::Validated;
            return Action::Validate;
        }
        if save_due && s.save_every > 0 && (step % s.save_every == 0 || step == s.steps) {
            self.stage = Stage::Between;
            return Action::Save;
        }
        self.step_or_finish(cancelled)
    }

    /// Sample a batch of random windows: token ids and their successors, each
    /// `batch_size` rows of `seq_len`.
    pub fn sample(&mut self, ds: &ByteDataset, batch_size: usize, seq_len: usize) -> (r: (
        Vec<u32>,
        Vec<u32>,
    ))
        requires
            old(self).wf(),
            seq_len < ds@.len(),
        ensures
            final(self).wf(),
            final(self).schedule == old(self).schedule,
            final(self).current == old(self).current,
            final(self).stage == old(self).stage,
            final(self).progress == old(self).progress,
            is_batch(ds@, batch_size as nat, seq_len as int, r.0@, r.1@),
            r.0@.len() == batch_size * seq_len,
            r.1@.len() == batch_size * seq_len,
    {
        ds.random_batch(&mut self.rng, batch_size, seq_len)
    }

    /// Report the step that was taken last.
    pub fn report(&mut self, loss: Binary32, tok_s: Binary64)
        requires
            old(self).wf(),
            !(old(self).stage is Over),
        ensures
            final(self).wf(),
            final(self).schedule == old(self).schedule,
            final(self).current == old(self).current,
            final(self).stage == old(self).stage,
            final(self).progress == (TrainProgress {
                step: old(self).current,
                total: old(self).schedule.steps,
                loss,
                tok_s,
                ..old(self).progress
            }),
    {
        self.progress.step = self.current;
        self.progress.total = self.schedule.steps;
        self.progress.loss = loss;
        self.progress.tok_s = tok_s;
    }
}

/// The steps of a run come one after the other, from the first to the last, and
/// a run that is not cancelled takes all of them before it is over.
pub proof fn law_steps_in_order(
    s: Schedule,
    current: nat,
    stage: Stage,
    cancelled: bool,
)
    requires
        current <= s.steps,
    ensures
        ({
            let (action, next, then) = following(s, current, stage, cancelled);
            &&& action matches Action::Learn { step, .. } ==> step == current + 1 && next == step
                && next <= s.steps && !cancelled
            &&& !(action is Learn) ==> next == current
            &&& then is Over && !(stage is Over) ==> cancelled || current == s.steps
        }),
{
}

/// What is due after a step is done after that step and before the next: a line
/// first, then the validation, then the checkpoint, and each at most once.
pub proof fn law_what_follows_a_step(s: Schedule, current: nat, cancelled: bool)
    ensures
        following(s, current, Stage::Learned, cancelled).0 is Log <==> s.logs(current),
        !s.logs(current) ==> following(s, current, Stage::Learned, cancelled) == following(
            s,
            current,
            Stage::Logged,
            cancelled,
        ),
        following(s, current, Stage::Logged, cancelled).0 is Validate <==> s.validates(current),
        !s.validates(current) ==> following(s, current, Stage::Logged, cancelled) == following(
            s,
            current,
            Stage::Validated,
            cancelled,
        ),
        following(s, current, Stage::Validated, cancelled).0 is Save <==> s.saves(current),
        !s.saves(current) ==> following(s, current, Stage::Validated, cancelled) == following(
            s,
            current,
            Stage::Between,
            cancelled,
        ),
        following(s, current, Stage::Between, cancelled).0 is Learn || following(
            s,
            current,
            Stage::Between,
            cancelled,
        ).0 is Finish,
{
}

/// The last step is followed by a checkpoint, unless saving is switched off.
pub proof fn law_last_step_is_saved(s: Schedule)
    requires
        s.save_every > 0,
    ensures
        s.saves(s.steps as nat),
{
}

impl TrainProgress {
    /// The run failed.
    pub fn fail(&mut self, message: &str)
        ensures
            final(self).error,
            final(self).done,
            final(self).error_msg@ == message@,
            final(self).step == old(self).step,
            final(self).total == old(self).total,
            final(self).loss == old(self).loss,
            final(self).tok_s == old(self).tok_s,
    {
        self.error = true;
        self.done = true;
        self.error_msg = message.to_owned();
    }
}

/// The line that says which tokenizer a run uses.
pub fn tokenizer_line(tokenizer: &BpeTokenizer, reused: bool) -> (s: String)
    requires
        256 + tokenizer@.len() <= usize::MAX,
    ensures
        s@ == (if reused {
            "reusing BPE tokenizer: "@
        } else {
            "BPE tokenizer: "@
        }) + decimal(tokenizer@.len()) + " merges -> vocab "@ + decimal(256 + tokenizer@.len()),
{
    let mut s = if reused {
        "reusing BPE tokenizer: ".to_owned()
    } else {
        "BPE tokenizer: ".to_owned()
    };
    s.append(number_text(tokenizer.num_merges()).as_str());
    s.append(" merges -> vocab ");
    s.append(number_text(tokenizer.vocab_size()).as_str());
    s
}

/// The line that says how the data was split.
pub fn dataset_line(train: usize, val: usize, bpe: bool) -> (s: String)
    requires
        train + val <= usize::MAX,
    ensures
        s@ == "dataset: "@ + decimal((train + val) as nat) + " total | train "@ + decimal(
            train as nat,
        ) + " | val "@ + decimal(val as nat) + " tokens"@ + (if bpe {
            " (BPE)"@
        } else {
            " (bytes)"@
        }),
{
    let mut s = "dataset: ".to_owned();
    s.append(number_text(train + val).as_str());
    s.append(" total | train ");
    s.append(number_text(train).as_str());
    s.append(" | val ");
    s.append(number_text(val).as_str());
    s.append(" tokens");
    s.append(
        if bpe {
            " (BPE)"
        } else {
            " (bytes)"
        },
    );
    s
}

/// The line that says how the learning rate goes, and at which gradient norm
/// gradients are clipped, if they are.
pub fn schedule_line(warmup_steps: usize, clip: Option<&str>) -> (s: String)
    ensures
        s@ == "schedule: "@ + decimal(warmup_steps as nat)
            + " warmup steps, cosine decay to 10%, grad clip "@ + match clip {
            Some(text) => text@,
            None => "off"@,
        },
{
    let mut s = "schedule: ".to_owned();
    s.append(number_text(warmup_steps).as_str());
    s.append(" warmup steps, cosine decay to 10%, grad clip ");
    match clip {
        Some(text) => s.append(text),
        None => s.append("off"),
    }
    s
}

/// The line that says where the last checkpoint is.
pub fn done_line(on: Platform, out_dir: &str) -> (s: String)
    ensures
        s@ == "done. checkpoint saved to "@ + path_below(on, out_dir@, weights_name()),
{
    let mut s = "done. checkpoint saved to ".to_owned();
    s.append(join_path(on, out_dir, "model.safetensors").as_str());
    s
}

/// The warmup lasts as many steps as were asked for wherever the run is longer:
/// up to its end a step has its share of the peak, and from there on the decay
/// takes the steps that are left. No warmup at all counts as one step, and one
/// that is too long as all steps but the last.
pub proof fn law_warmup_is_the_one_asked_for(step: nat, total: nat, warmup: nat)
    requires
        step <= usize::MAX,
        total <= usize::MAX,
    ensures
        1 <= warmup < total ==> warmup_of(total, warmup) == warmup,
        warmup == 0 ==> warmup_of(total, warmup) == 1,
        warmup >= total >= 2 ==> warmup_of(total, warmup) == total - 1,
        1 <= warmup < total && step <= warmup ==> lr_phase(step, total, warmup) == (
        LrPhase::Warmup { step: step as usize, warmup: warmup as usize }),
        1 <= warmup < total && warmup < step <= total ==> lr_phase(step, total, warmup) == (
        LrPhase::Cosine { done: (step - warmup) as usize, all: (total - warmup) as usize }),
{
}

/// A multiple of a count leaves nothing over, and what lies between two
/// multiples does.
proof fn lemma_multiples(k: nat, every: nat, over: nat)
    requires
        over < every,
    ensures
        (k * every + over) % every == over,
{
    vstd::arithmetic::div_mod::lemma_fundamental_div_mod_converse(
        (k * every + over) as int,
        every as int,
        k as int,
        over as int,
    );
}

/// What is done regularly is done after every so many steps: after the step
/// `k * every`, and after no step that lies between two such steps, but for the
/// last step, which is always logged and always saved.
pub proof fn law_what_is_regular(s: Schedule, k: nat, over: nat)
    ensures
        s.verbose && s.log_every > 0 ==> s.logs(k * (s.log_every as nat)),
        s.verbose ==> s.logs(s.steps as nat),
        0 < over < s.log_every && k * (s.log_every as nat) + over != s.steps ==> !s.logs(
            k * (s.log_every as nat) + over,
        ),
        !s.verbose ==> !s.logs(k),
        s.val_every > 0 ==> s.validates(k * (s.val_every as nat)),
        0 < over < s.val_every ==> !s.validates(k * (s.val_every as nat) + over),
        s.val_every == 0 ==> !s.validates(k),
        s.save_every > 0 ==> s.saves(k * (s.save_every as nat)) && s.saves(s.steps as nat),
        0 < over < s.save_every && k * (s.save_every as nat) + over != s.steps ==> !s.saves(
            k * (s.save_every as nat) + over,
        ),
        s.save_every == 0 ==> !s.saves(k),
{
    if s.log_every > 0 {
        lemma_multiples(k, s.log_every as nat, 0);
        if over < s.log_every {
            lemma_multiples(k, s.log_every as nat, over);
        }
    }
    if s.val_every > 0 {
        lemma_multiples(k, s.val_every as nat, 0);
        if over < s.val_every {
            lemma_multiples(k, s.val_every as nat, over);
        }
    }
    if s.save_every > 0 {
        lemma_multiples(k, s.save_every as nat, 0);
        if over < s.save_every {
            lemma_multiples(k, s.save_every as nat, over);
        }
    }
}

/// Between two steps a run goes on with the next one at the rate of its
/// schedule, until it has taken all its steps or is cancelled.
pub proof fn law_next_step(s: Schedule, current: nat)
    ensures
        current < s.steps ==> following(s, current, Stage::Between, false) == (
            Action::Learn {
                step: (current + 1) as usize,
                lr: lr_phase(current + 1, s.steps as nat, s.warmup_steps as nat),
            },
            current + 1,
            Stage::Learned,
        ),
        current >= s.steps ==> following(s, current, Stage::Between, false) == (
            Action::Finish,
            current,
            Stage::Over,
        ),
        following(s, current, Stage::Between, true) == (Action::Finish, current, Stage::Over),
        following(s, current, Stage::Over, false) == (Action::Finish, current, Stage::Over),
        following(s, current, Stage::Over, true) == (Action::Finish, current, Stage::Over),
{
}

/// The tokenizer of a run: none unless the mode is BPE; that of the checkpoint
/// if it has one; and otherwise as many merges as the architecture asks for,
/// learned from the data.
pub proof fn law_chosen_tokenizer(config: Config, merges: Seq<Merge>, raw: Seq<u8>)
    ensures
        config.tokenizer@ != "bpe"@ ==> chosen(config, Some(merges), raw) is None && chosen(
            config,
            None,
            raw,
        ) is None,
        config.tokenizer@ == "bpe"@ ==> chosen(config, Some(merges), raw) == Some(merges)
            && chosen(config, None, raw) == Some(
            learned(byte_ids(raw), Seq::empty(), config.num_merges as nat),
        ),
{
}

/// What is prepared is the file: the two parts together are its tokens, the
/// second is the tail that is held out, and all but the vocabulary of the
/// architecture is as it was.
pub proof fn law_prepared_is_the_file(
    p: Prepared,
    config: Config,
    cached: Option<Seq<Merge>>,
    raw: Seq<u8>,
    val_frac: Binary64,
)
    requires
        p.fits(config, cached, raw, val_frac),
    ensures
        p.train@ + p.val@ == tokens_of(merges_of(p.tokenizer), raw),
        p.val@.len() == tail_len(
            tokens_of(merges_of(p.tokenizer), raw).len(),
            val_frac,
            MIN_VAL_TOKENS as nat,
        ),
        p.tokenizer matches Some(t) ==> p.config.vocab_size == 256 + t@.len(),
        p.tokenizer is None ==> p.config.vocab_size == config.vocab_size,
        p.config.d_model == config.d_model,
        p.config.num_layers == config.num_layers,
        p.config.num_heads == config.num_heads,
        p.config.head_dim == config.head_dim,
        p.config.ffn_dim == config.ffn_dim,
        p.config.max_seq_len == config.max_seq_len,
        p.config.decay_min == config.decay_min,
        p.config.decay_max == config.decay_max,
        p.config.chunk_len == config.chunk_len,
        p.config.num_merges == config.num_merges,
        p.config.tokenizer@ == config.tokenizer@,
{
    let tokens = tokens_of(merges_of(p.tokenizer), raw);
    let cut = tokens.len() - p.val@.len();
    assert(p.train@ + p.val@ =~= tokens);
}

/// Behind the warmup every step takes the decay one step further, until all of
/// it is done.
pub proof fn law_decay_goes_step_by_step(step: nat, total: nat, warmup: nat)
    requires
        1 <= total <= usize::MAX,
        warmup_of(total, warmup) < step <= usize::MAX,
    ensures
        ({
            let w = warmup_of(total, warmup);
            let phase = lr_phase(step, total, warmup);
            &&& phase is Cosine
            &&& step <= total ==> phase->done == step - w && phase->all == total - w
            &&& step > total > w ==> phase->done == total - w && phase->all == total - w
        }),
        total == 1 ==> warmup_of(total, warmup) == 1,
{
}

/// What is due after a step is done in order, and each thing leads to the next:
/// a line to the validation, the validation to the checkpoint, and that to the
/// next step.
pub proof fn law_one_thing_after_the_other(s: Schedule, current: nat, cancelled: bool)
    ensures
        s.logs(current) ==> following(s, current, Stage::Learned, cancelled) == (
            Action::Log,
            current,
            Stage::Logged,
        ),
        s.validates(current) ==> following(s, current, Stage::Logged, cancelled) == (
            Action::Validate,
            current,
            Stage::Validated,
        ),
        s.saves(current) ==> following(s, current, Stage::Validated, cancelled) == (
            Action::Save,
            current,
            Stage::Between,
        ),
{
}

/// What the interactive front ends do not ask for: a line every 50 steps, four
/// batches of validation every 500, a checkpoint every 1000, and gradients
/// clipped at one.
pub proof fn law_usual_arguments(args: TrainArgs)
    ensures
        args.usual() <==> {
            &&& args.log_every == 50 && args.val_every == 500 && args.val_batches == 4
            &&& args.save_every == 1000 && args.seed == 42
            &&& args.val_frac.bits == 0x3fa9_9999_9999_999a
            &&& args.grad_clip.bits == 0x3ff0_0000_0000_0000
        },
{
}

/// An error says what is wrong, with the numbers at fault in their places.
pub proof fn law_train_errors_in_words(a: usize, b: usize, c: usize, e: ConfigError)
    ensures
        train_error_text(TrainError::SeqTooLong { seq_len: a, max_seq_len: b }) == "seq_len "@
            + decimal(a as nat) + " exceeds max_seq_len "@ + decimal(b as nat),
        train_error_text(TrainError::SplitTooSmall { train: a, val: b, seq_len: c })
            == "dataset too small: train "@ + decimal(a as nat) + " / val "@ + decimal(b as nat)
            + " tokens for seq_len "@ + decimal(c as nat),
        train_error_text(TrainError::Data(DataError::TooSmall(a))) == "dataset too small ("@
            + decimal(a as nat) + " tokens); need at least a few thousand"@,
        train_error_text(TrainError::Config(e)) == config_error_text(e),
{
}

} // verus!
