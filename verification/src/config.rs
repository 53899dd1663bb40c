//! Architecture configuration.
use vstd::prelude::*;
use vstd::string::StringExecFns;

use crate::binary64::{Binary64, ONE};
use crate::text::{decimal, number_text, same};

verus! {

/// Architecture hyperparameters of the model.
#[derive(Clone, Debug)]
pub struct Config {
    pub vocab_size: usize,
    pub d_model: usize,
    pub num_layers: usize,
    pub num_heads: usize,
    pub head_dim: usize,
    pub ffn_dim: usize,
    /// Context length used during training.
    pub max_seq_len: usize,
    /// Per-step survival of the shortest-memory head.
    pub decay_min: Binary64,
    /// Per-step survival of the longest-memory head.
    pub decay_max: Binary64,
    /// Chunk size for chunkwise retention; 0 uses the parallel form.
    pub chunk_len: usize,
    /// Tokenization mode: `"bytes"` or `"bpe"`.
    pub tokenizer: String,
    /// Number of BPE merges to learn.
    pub num_merges: usize,
}

/// Why a configuration is not usable.
#[derive(Clone, Copy, Debug, PartialEq, Eq, Structural)]
pub enum ConfigError {
    /// The vocabulary does not hold the 256 byte tokens.
    VocabTooSmall(usize),
    /// Tokens beyond the bytes exist only with the BPE tokenizer.
    VocabNeedsBpe,
    NoLayers,
    NoHeads,
    /// `d_model` is not `num_heads * head_dim`.
    WidthMismatch { d_model: usize, num_heads: usize, head_dim: usize },
    /// `ffn_dim` or `max_seq_len` is too small.
    BadSizes,
    /// The decays do not satisfy `0 < decay_min <= decay_max < 1`.
    BadDecays,
}

/// An error in words.
pub open spec fn config_error_text(e: ConfigError) -> Seq<char> {
    match e {
        ConfigError::VocabTooSmall(got) => "vocab_size must be at least the 256 byte tokens (got "@
            + decimal(got as nat) + ")"@,
        ConfigError::VocabNeedsBpe => "vocab_size > 256 requires the BPE tokenizer"@,
        ConfigError::NoLayers => "need at least one layer"@,
        ConfigError::NoHeads => "need at least one head"@,
        ConfigError::WidthMismatch { d_model, num_heads, head_dim } => "d_model ("@ + decimal(
            d_model as nat,
        ) + ") must equal num_heads ("@ + decimal(num_heads as nat) + ") * head_dim ("@ + decimal(
            head_dim as nat,
        ) + ")"@,
        ConfigError::BadSizes => "ffn_dim and max_seq_len must be sane"@,
        ConfigError::BadDecays => "decays must satisfy 0 < decay_min <= decay_max < 1"@,
    }
}

impl ConfigError {
    /// The error in words.
    pub fn message(&self) -> (s: String)
        ensures
            s@ == config_error_text(*self),
    {
        match self {
            ConfigError::VocabTooSmall(got) => {
                let mut s = "vocab_size must be at least the 256 byte tokens (got ".to_owned();
                s.append(number_text(*got).as_str());
                s.append(")");
                s
            },
            ConfigError::VocabNeedsBpe => "vocab_size > 256 requires the BPE tokenizer".to_owned(),
            ConfigError::NoLayers => "need at least one layer".to_owned(),
            ConfigError::NoHeads => "need at least one head".to_owned(),
            ConfigError::WidthMismatch { d_model, num_heads, head_dim } => {
                let mut s = "d_model (".to_owned();
                s.append(number_text(*d_model).as_str());
                s.append(") must equal num_heads (");
                s.append(number_text(*num_heads).as_str());
                s.append(") * head_dim (");
                s.append(number_text(*head_dim).as_str());
                s.append(")");
                s
            },
            ConfigError::BadSizes => "ffn_dim and max_seq_len must be sane".to_owned(),
            ConfigError::BadDecays => "decays must satisfy 0 < decay_min <= decay_max < 1".to_owned(),
        }
    }
}

/// 0.969.
pub const DECAY_MIN: u64 = 0x3fef_020c_49ba_5e35;

/// 0.9995.
pub const DECAY_MAX: u64 = 0x3fef_fbe7_6c8b_4396;

/// Decay of the shortest-memory head, unless chosen otherwise.
pub fn default_decay_min() -> (d: Binary64)
    ensures
        d.bits == DECAY_MIN,
{
    Binary64 { bits: DECAY_MIN }
}

/// Decay of the longest-memory head, unless chosen otherwise.
pub fn default_decay_max() -> (d: Binary64)
    ensures
        d.bits == DECAY_MAX,
{
    Binary64 { bits: DECAY_MAX }
}

/// Chunk length, unless chosen otherwise.
pub fn default_chunk_len() -> (n: usize)
    ensures
        n == 64,
{
    64
}

/// Tokenization mode, unless chosen otherwise.
pub fn default_tokenizer() -> (s: String)
    ensures
        s@ == "bytes"@,
{
    "bytes".to_owned()
}

/// Number of merges to learn, unless chosen otherwise.
pub fn default_num_merges() -> (n: usize)
    ensures
        n == 512,
{
    512
}

impl Config {
    /// The first thing that is wrong with the configuration.
    pub open spec fn first_error(&self) -> Option<ConfigError> {
        if self.vocab_size < 256 {
            Some(ConfigError::VocabTooSmall(self.vocab_size))
        } else if self.vocab_size != 256 && self.tokenizer@ != "bpe"@ {
            Some(ConfigError::VocabNeedsBpe)
        } else if self.num_layers < 1 {
            Some(ConfigError::NoLayers)
        } else if self.num_heads < 1 {
            Some(ConfigError::NoHeads)
        } else if self.d_model != self.num_heads * self.head_dim {
            Some(
                ConfigError::WidthMismatch {
                    d_model: self.d_model,
                    num_heads: self.num_heads,
                    head_dim: self.head_dim,
                },
            )
        } else if self.ffn_dim < 1 || self.max_seq_len < 2 {
            Some(ConfigError::BadSizes)
        } else if !((Binary64 { bits: 0 }).less(self.decay_min) && self.decay_min.at_most(
            self.decay_max,
        ) && self.decay_max.less(Binary64 { bits: ONE })) {
            Some(ConfigError::BadDecays)
        } else {
            None
        }
    }

    /// Nothing is wrong with the configuration.
    pub open spec fn valid(&self) -> bool {
        self.first_error() is None
    }

    /// The shape of a preset: heads of 32, and the default for all the rest.
    pub open spec fn has_shape(&self, d_model: nat, num_layers: nat, num_heads: nat) -> bool {
        &&& self.vocab_size == 256
        &&& self.d_model == d_model
        &&& self.num_layers == num_layers
        &&& self.num_heads == num_heads
        &&& self.head_dim == 32
        &&& self.ffn_dim == 512
        &&& self.max_seq_len == 256
        &&& self.decay_min.bits == DECAY_MIN
        &&& self.decay_max.bits == DECAY_MAX
        &&& self.chunk_len == 64
        &&& self.num_merges == 512
    }

    /// A preset, with byte tokens.
    pub open spec fn is_preset(&self, d_model: nat, num_layers: nat, num_heads: nat) -> bool {
        self.has_shape(d_model, num_layers, num_heads) && self.tokenizer@ == "bytes"@
    }

    /// The recommended first configuration.
    pub fn tiny() -> (c: Self)
        ensures
            c.is_preset(128, 2, 4),
            c.valid(),
            c.vocab_size == 256 && c.d_model == 128 && c.num_layers == 2 && c.num_heads == 4,
            c.head_dim == 32 && c.ffn_dim == 512 && c.max_seq_len == 256 && c.chunk_len == 64,
            c.tokenizer@ == "bytes"@ && c.num_merges == 512,
    {
        Config {
            vocab_size: 256,
            d_model: 128,
            num_layers: 2,
            num_heads: 4,
            head_dim: 32,
            ffn_dim: 512,
            max_seq_len: 256,
            decay_min: default_decay_min(),
            decay_max: default_decay_max(),
            chunk_len: default_chunk_len(),
            tokenizer: default_tokenizer(),
            num_merges: default_num_merges(),
        }
    }

    /// A larger configuration that still fits a laptop.
    pub fn larger() -> (c: Self)
        ensures
            c.is_preset(256, 4, 8),
            c.valid(),
            c.vocab_size == 256 && c.d_model == 256 && c.num_layers == 4 && c.num_heads == 8,
            c.head_dim == 32 && c.ffn_dim == 512 && c.max_seq_len == 256 && c.chunk_len == 64,
            c.tokenizer@ == "bytes"@ && c.num_merges == 512,
    {
        Config {
            vocab_size: 256,
            d_model: 256,
            num_layers: 4,
            num_heads: 8,
            head_dim: 32,
            ffn_dim: 512,
            max_seq_len: 256,
            decay_min: default_decay_min(),
            decay_max: default_decay_max(),
            chunk_len: default_chunk_len(),
            tokenizer: default_tokenizer(),
            num_merges: default_num_merges(),
        }
    }

    /// The same configuration, but for the vocabulary.
    pub open spec fn same_but_vocab(&self, other: Config) -> bool {
        &&& self.d_model == other.d_model
        &&& self.num_layers == other.num_layers
        &&& self.num_heads == other.num_heads
        &&& self.head_dim == other.head_dim
        &&& self.ffn_dim == other.ffn_dim
        &&& self.max_seq_len == other.max_seq_len
        &&& self.decay_min == other.decay_min
        &&& self.decay_max == other.decay_max
        &&& self.chunk_len == other.chunk_len
        &&& self.tokenizer@ == other.tokenizer@
        &&& self.num_merges == other.num_merges
    }

    /// The configuration with another vocabulary.
    pub fn with_vocab(&self, vocab_size: usize) -> (c: Self)
        ensures
            c.same_but_vocab(*self),
            c.vocab_size == vocab_size,
            c.d_model == self.d_model,
            c.num_layers == self.num_layers,
            c.num_heads == self.num_heads,
            c.head_dim == self.head_dim,
            c.ffn_dim == self.ffn_dim,
            c.max_seq_len == self.max_seq_len,
            c.decay_min == self.decay_min,
            c.decay_max == self.decay_max,
            c.chunk_len == self.chunk_len,
            c.tokenizer@ == self.tokenizer@,
            c.num_merges == self.num_merges,
    {
        Config {
            vocab_size,
            d_model: self.d_model,
            num_layers: self.num_layers,
            num_heads: self.num_heads,
            head_dim: self.head_dim,
            ffn_dim: self.ffn_dim,
            max_seq_len: self.max_seq_len,
            decay_min: self.decay_min,
            decay_max: self.decay_max,
            chunk_len: self.chunk_len,
            tokenizer: self.tokenizer.clone(),
            num_merges: self.num_merges,
        }
    }

    /// A summary of the architecture.
    pub open spec fn summary(&self) -> Seq<char> {
        "Vortexa: "@ + decimal(self.num_layers as nat) + " layers x "@ + decimal(
            self.num_heads as nat,
        ) + " heads@"@ + decimal(self.head_dim as nat) + "d, d_model "@ + decimal(
            self.d_model as nat,
        ) + ", ffn "@ + decimal(self.ffn_dim as nat) + ", vocab "@ + decimal(self.vocab_size as nat)
    }

    /// A summary of the architecture, for display.
    pub fn summary_line(&self) -> (s: String)
        ensures
            s@ == self.summary(),
    {
        let mut s = "Vortexa: ".to_owned();
        s.append(number_text(self.num_layers).as_str());
        s.append(" layers x ");
        s.append(number_text(self.num_heads).as_str());
        s.append(" heads@");
        s.append(number_text(self.head_dim).as_str());
        s.append("d, d_model ");
        s.append(number_text(self.d_model).as_str());
        s.append(", ffn ");
        s.append(number_text(self.ffn_dim).as_str());
        s.append(", vocab ");
        s.append(number_text(self.vocab_size).as_str());
        s
    }

    /// Checks that the configuration is usable, and reports the first thing
    /// that is wrong with it.
    pub fn validate(&self) -> (r: Result<(), ConfigError>)
        ensures
            r == match self.first_error() {
                None => Ok::<(), ConfigError>(()),
                Some(e) => Err(e),
            },
            r is Ok <==> {
                &&& self.vocab_size >= 256
                &&& self.vocab_size == 256 || self.tokenizer@ == "bpe"@
                &&& self.num_layers >= 1 && self.num_heads >= 1
                &&& self.d_model == self.num_heads * self.head_dim
                &&& self.ffn_dim >= 1 && self.max_seq_len >= 2
                &&& (Binary64 { bits: 0 }).less(self.decay_min)
                &&& self.decay_min.at_most(self.decay_max)
                &&& self.decay_max.less(Binary64 { bits: ONE })
            },
    {
        if self.vocab_size < 256 {
            return Err(ConfigError::VocabTooSmall(self.vocab_size));
        }
        if self.vocab_size != 256 && !same(self.tokenizer.as_str(), "bpe") {
            return Err(ConfigError::VocabNeedsBpe);
        }
        if self.num_layers < 1 {
            return Err(ConfigError::NoLayers);
        }
        if self.num_heads < 1 {
            return Err(ConfigError::NoHeads);
        }
        match self.num_heads.checked_mul(self.head_dim) {
            Some(width) if width == self.d_model => {},
            _ => {
                return Err(
                    ConfigError::WidthMismatch {
                        d_model: self.d_model,
                        num_heads: self.num_heads,
                        head_dim: self.head_dim,
                    },
                );
            },
        }
        if self.ffn_dim < 1 || self.max_seq_len < 2 {
            return Err(ConfigError::BadSizes);
        }
        if self.decay_min.is_positive() && self.decay_min.is_at_most(self.decay_max)
            && self.decay_max.is_below_one() {
            Ok(())
        } else {
            Err(ConfigError::BadDecays)
        }
    }
}

impl Default for Config {
    fn default() -> (c: Self)
        ensures
            c.is_preset(128, 2, 4),
            c.valid(),
    {
        Self::tiny()
    }
}

/// A usable configuration gives every head the same share of the model's
/// width, and decays that lie strictly between 0 and 1.
pub proof fn law_valid_config(c: Config)
    requires
        c.valid(),
    ensures
        c.d_model == c.num_heads * c.head_dim,
        c.num_heads > 0,
        c.num_layers > 0,
        c.vocab_size >= 256,
        c.tokenizer@ != "bpe"@ ==> c.vocab_size == 256,
        c.decay_min.positive_finite(),
        c.decay_max.positive_finite(),
        c.decay_min.bits <= c.decay_max.bits < ONE,
{
}

/// A configuration is usable if and only if its vocabulary holds the bytes, and
/// nothing else without BPE; it has layers and heads that share its width; its
/// sizes are sane; and its decays lie in order between 0 and 1.
pub proof fn law_what_is_valid(c: Config)
    ensures
        c.valid() <==> {
            &&& c.vocab_size >= 256
            &&& c.vocab_size == 256 || c.tokenizer@ == "bpe"@
            &&& c.num_layers >= 1
            &&& c.num_heads >= 1
            &&& c.d_model == c.num_heads * c.head_dim
            &&& c.ffn_dim >= 1
            &&& c.max_seq_len >= 2
            &&& (Binary64 { bits: 0 }).less(c.decay_min)
            &&& c.decay_min.at_most(c.decay_max)
            &&& c.decay_max.less(Binary64 { bits: ONE })
        },
{
}

/// The error that is reported names something that is wrong, with the numbers
/// at fault, and everything that is checked before it is right.
pub proof fn law_first_error(c: Config)
    ensures
        match c.first_error() {
            Some(ConfigError::VocabTooSmall(got)) => got == c.vocab_size && got < 256,
            Some(ConfigError::VocabNeedsBpe) => c.vocab_size > 256 && c.tokenizer@ != "bpe"@,
            Some(ConfigError::NoLayers) => c.num_layers == 0 && c.vocab_size >= 256,
            Some(ConfigError::NoHeads) => c.num_heads == 0 && c.num_layers > 0,
            Some(ConfigError::WidthMismatch { d_model, num_heads, head_dim }) => {
                &&& d_model == c.d_model && num_heads == c.num_heads && head_dim == c.head_dim
                &&& d_model != num_heads * head_dim && num_heads > 0
            },
            Some(ConfigError::BadSizes) => (c.ffn_dim == 0 || c.max_seq_len < 2) && c.d_model
                == c.num_heads * c.head_dim,
            Some(ConfigError::BadDecays) => c.ffn_dim > 0 && c.max_seq_len >= 2 && !((Binary64 {
                bits: 0,
            }).less(c.decay_min) && c.decay_min.at_most(c.decay_max) && c.decay_max.less(
                Binary64 { bits: ONE },
            )),
            None => true,
        },
{
}

/// An error says what is wrong, with the numbers at fault in their places.
pub proof fn law_config_errors_in_words(a: usize, b: usize, c: usize)
    ensures
        config_error_text(ConfigError::VocabTooSmall(a))
            == "vocab_size must be at least the 256 byte tokens (got "@ + decimal(a as nat) + ")"@,
        config_error_text(
            ConfigError::WidthMismatch { d_model: a, num_heads: b, head_dim: c },
        ) == "d_model ("@ + decimal(a as nat) + ") must equal num_heads ("@ + decimal(b as nat)
            + ") * head_dim ("@ + decimal(c as nat) + ")"@,
        config_error_text(ConfigError::VocabNeedsBpe)
            == "vocab_size > 256 requires the BPE tokenizer"@,
        config_error_text(ConfigError::NoLayers) == "need at least one layer"@,
        config_error_text(ConfigError::NoHeads) == "need at least one head"@,
        config_error_text(ConfigError::BadSizes) == "ffn_dim and max_seq_len must be sane"@,
        config_error_text(ConfigError::BadDecays)
            == "decays must satisfy 0 < decay_min <= decay_max < 1"@,
{
}

/// The summary of an architecture names its sizes in order.
pub proof fn law_summary(c: Config)
    ensures
        c.summary() == "Vortexa: "@ + decimal(c.num_layers as nat) + " layers x "@ + decimal(
            c.num_heads as nat,
        ) + " heads@"@ + decimal(c.head_dim as nat) + "d, d_model "@ + decimal(c.d_model as nat)
            + ", ffn "@ + decimal(c.ffn_dim as nat) + ", vocab "@ + decimal(c.vocab_size as nat),
{
}

} // verus!
