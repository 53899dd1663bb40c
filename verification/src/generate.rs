//! Recurrent generation: the prompt is fed token by token, and then each token
//! that is sampled is fed in turn.
use vstd::prelude::*;
use vstd::slice::slice_to_vec;
use vstd::string::StringExecFns;
use vstd::utf8::{
    decode_utf8, encode_utf8, encode_utf8_decode_utf8, encode_utf8_valid_utf8, valid_utf8,
};

use crate::binary64::Binary64;
use crate::bpe::{BpeData, BpeTokenizer};
use crate::bpe_json::{stored_merges, tokenizer_json};
use crate::config::Config;
use crate::data::byte_tokens;
use crate::merging::{
    byte_ids, decoded, encoded, expandable, law_encoding_bounds, law_roundtrip, Merge,
};
use crate::text::{
    decimal, from_utf8_lossy, law_first_match_is_substituted, law_nothing_to_substitute, lossy,
    number_text, substitute, substituted,
};

verus! {

/// What to generate.
#[derive(Clone, Debug)]
pub struct GenerateArgs {
    /// Checkpoint directory, or the weights file itself.
    pub checkpoint: String,
    pub prompt: String,
    /// A template to wrap the prompt in; `{prompt}` is the placeholder. Empty
    /// uses the prompt verbatim.
    pub template: String,
    pub tokens: usize,
    /// Sampling temperature; `<= 0` means the most likely token.
    pub temperature: Binary64,
    /// Keep only the k most likely tokens (0 = off).
    pub top_k: usize,
    /// Backend preference (`auto`, `cpu`, `cuda`, `metal`).
    pub device: String,
    pub seed: u64,
}

/// A prompt in a template. An empty template gives the prompt verbatim.
pub open spec fn templated(template: Seq<char>, prompt: Seq<char>) -> Seq<char> {
    if template.len() == 0 {
        prompt
    } else {
        substituted(template, "{prompt}"@, prompt)
    }
}

/// Substitute a prompt into a template, such as `"Q: {prompt}\nA:"`.
pub fn apply_template(template: &str, prompt: &str) -> (r: String)
    ensures
        r@ == templated(template@, prompt@),
{
    if template.is_empty() {
        return prompt.to_owned();
    }
    proof {
        reveal_strlit("{prompt}");
    }
    substitute(template, "{prompt}", prompt)
}

/// The line that says which model was loaded.
pub fn loaded_line(config: &Config) -> (s: String)
    ensures
        s@ == "loaded Vortexa ("@ + decimal(config.num_layers as nat) + " layers, "@ + decimal(
            config.num_heads as nat,
        ) + " heads@"@ + decimal(config.head_dim as nat) + "d, d_model "@ + decimal(
            config.d_model as nat,
        ) + ")"@,
{
    let mut s = "loaded Vortexa (".to_owned();
    s.append(number_text(config.num_layers).as_str());
    s.append(" layers, ");
    s.append(number_text(config.num_heads).as_str());
    s.append(" heads@");
    s.append(number_text(config.head_dim).as_str());
    s.append("d, d_model ");
    s.append(number_text(config.d_model).as_str());
    s.append(")");
    s
}

/// How a model's tokens stand for bytes.
pub struct Codec {
    bpe: Option<(BpeTokenizer, BpeData)>,
}

impl View for Codec {
    /// The merges of the tokenizer, if there is one.
    type V = Option<Seq<Merge>>;

    closed spec fn view(&self) -> Option<Seq<Merge>> {
        match self.bpe {
            Some(pair) => Some(pair.1@),
            None => None,
        }
    }
}

/// The tokens of bytes: raw bytes where there is no tokenizer.
pub open spec fn tokens_of(codec: Option<Seq<Merge>>, bytes: Seq<u8>) -> Seq<u32> {
    match codec {
        Some(merges) => encoded(merges, bytes),
        None => byte_ids(bytes),
    }
}

/// The low byte of a token.
pub open spec fn low_byte(id: u32) -> u8 {
    (id % 256) as u8
}

/// The bytes of tokens.
pub open spec fn bytes_of(codec: Option<Seq<Merge>>, ids: Seq<u32>) -> Seq<u8> {
    match codec {
        Some(merges) => decoded(merges, ids),
        None => ids.map_values(|id: u32| low_byte(id)),
    }
}

/// The merges of a tokenizer stand for bytes.
pub open spec fn codec_wf(codec: Option<Seq<Merge>>) -> bool {
    codec matches Some(merges) ==> expandable(merges)
}

impl Codec {
    /// The codec of a checkpoint, with the tokenizer that it holds, if any.
    pub fn new(tokenizer: Option<BpeTokenizer>) -> (c: Self)
        requires
            tokenizer matches Some(t) ==> t.wf() && 256 + t@.len() <= usize::MAX,
        ensures
            c@ == match tokenizer {
                Some(t) => Some(t@),
                None => None,
            },
            codec_wf(c@),
    {
        match tokenizer {
            Some(t) => {
                let data = t.data();
                Codec { bpe: Some((t, data)) }
            },
            None => Codec { bpe: None },
        }
    }

    /// The codec of a checkpoint, with the tokenizer whose JSON form it stores,
    /// if it stores one that can be read. There is none where a merge joins a
    /// token that does not exist.
    pub fn from_stored(stored: Option<&str>) -> (r: Option<Self>)
        ensures
            match stored {
                None => r is Some && r->Some_0@ is None,
                Some(text) => match stored_merges(text@) {
                    None => r is Some && r->Some_0@ is None,
                    Some(m) => if expandable(m) && 256 + m.len() <= usize::MAX {
                        r is Some && r->Some_0@ == Some(m)
                    } else {
                        r is None
                    },
                },
            },
            r matches Some(c) ==> codec_wf(c@),
            forall|m: Seq<Merge>|
                stored is Some && stored->Some_0@ == #[trigger] tokenizer_json(m) && expandable(m)
                    && 256 + m.len() <= usize::MAX ==> r is Some && r->Some_0@ == Some(m),
    {
        let read = match stored {
            Some(text) => match BpeTokenizer::from_json(text) {
                Ok(t) => Some(t),
                Err(_) => None,
            },
            None => None,
        };
        match read {
            Some(t) => if t.is_well_formed() {
                Some(Codec::new(Some(t)))
            } else {
                None
            },
            None => Some(Codec::new(None)),
        }
    }

    /// Whether there is a tokenizer.
    pub fn is_bpe(&self) -> (r: bool)
        ensures
            r == (self@ is Some),
    {
        self.bpe.is_some()
    }

    /// Encode bytes into token ids, falling back to raw bytes.
    pub fn encode_prompt(&self, bytes: &Vec<u8>) -> (ids: Vec<u32>)
        ensures
            ids@ == tokens_of(self@, bytes@),
            ids@.len() <= bytes@.len(),
            ids@.len() == 0 <==> bytes@.len() == 0,
    {
        match &self.bpe {
            Some(pair) => pair.0.encode(bytes.as_slice(), &pair.1),
            None => byte_tokens(bytes.as_slice()),
        }
    }

    /// Decode token ids back to bytes.
    pub fn decode_ids(&self, ids: &Vec<u32>) -> (bytes: Vec<u8>)
        ensures
            bytes@ == bytes_of(self@, ids@),
    {
        match &self.bpe {
            Some(pair) => pair.0.decode(ids.as_slice(), &pair.1),
            None => {
                let mut out: Vec<u8> = Vec::new();
                for i in 0..ids.len()
                    invariant
                        out@ == ids@.take(i as int).map_values(|id: u32| low_byte(id)),
                {
                    out.push((ids[i] % 256) as u8);
                    assert(out@ =~= ids@.take(i + 1).map_values(|id: u32| low_byte(id)));
                }
                assert(ids@.take(ids@.len() as int) =~= ids@);
                out
            },
        }
    }
}

/// What bytes the tokens of bytes stand for: the same bytes, with and without
/// a tokenizer.
pub proof fn law_codec_roundtrip(codec: Option<Seq<Merge>>, bytes: Seq<u8>)
    requires
        codec_wf(codec),
    ensures
        bytes_of(codec, tokens_of(codec, bytes)) == bytes,
{
    match codec {
        Some(merges) => {
            law_roundtrip(merges, bytes);
        },
        None => {
            assert(bytes_of(codec, tokens_of(codec, bytes)) =~= bytes);
        },
    }
}

/// A codec with the merges of a tokenizer, such as the one that a checkpoint
/// stores, encodes and decodes as that tokenizer does.
pub proof fn law_checkpoint_tokenizer_is_used(
    codec: Codec,
    tokenizer: BpeTokenizer,
    bytes: Seq<u8>,
    ids: Seq<u32>,
)
    requires
        codec@ == Some(tokenizer@),
    ensures
        tokens_of(codec@, bytes) == encoded(tokenizer@, bytes),
        bytes_of(codec@, ids) == decoded(tokenizer@, ids),
{
}

/// The number of tokens of a codec: the bytes, and the merges.
pub open spec fn vocabulary(codec: Option<Seq<Merge>>) -> nat {
    match codec {
        Some(merges) => 256 + merges.len(),
        None => 256,
    }
}

/// Bytes are encoded as tokens of the vocabulary.
pub proof fn law_tokens_in_vocabulary(codec: Option<Seq<Merge>>, bytes: Seq<u8>, j: int)
    requires
        codec_wf(codec),
        0 <= j < tokens_of(codec, bytes).len(),
    ensures
        tokens_of(codec, bytes)[j] < vocabulary(codec),
{
    if let Some(merges) = codec {
        law_encoding_bounds(merges, bytes);
    }
}

/// What the prompt is taken to be: an empty one seeds with a newline.
pub open spec fn seed_text(prompt: Seq<char>) -> Seq<char> {
    if prompt.len() == 0 {
        seq!['\n']
    } else {
        prompt
    }
}

/// What to do next in a completion.
#[derive(Clone, Copy, Debug, PartialEq, Eq, Structural)]
pub enum Step {
    /// Feed this token to the model.
    Feed(u32),
    /// Sample a token from the logits of the token fed last.
    Sample,
    /// The completion is complete.
    Done,
}

/// The state of a completion.
pub ghost struct CompletionState {
    /// The bytes of the prompt.
    pub prompt: Seq<u8>,
    /// The tokens of the prompt.
    pub ids: Seq<u32>,
    /// The tokens sampled so far.
    pub out: Seq<u32>,
    /// How many tokens were fed.
    pub fed: nat,
    /// How many tokens to sample.
    pub tokens: nat,
}

impl CompletionState {
    /// All tokens there are to feed so far.
    pub open spec fn inputs(self) -> Seq<u32> {
        self.ids + self.out
    }

    /// A token is sampled only when all others have been fed.
    pub open spec fn wf(self) -> bool {
        &&& self.ids.len() > 0
        &&& self.out.len() <= self.tokens
        &&& self.fed <= self.inputs().len()
        &&& self.out.len() > 0 ==> self.fed + 1 >= self.inputs().len()
    }

    /// What to do next.
    pub open spec fn step(self) -> Step {
        if self.fed < self.inputs().len() {
            Step::Feed(self.inputs()[self.fed as int])
        } else if self.out.len() < self.tokens {
            Step::Sample
        } else {
            Step::Done
        }
    }

    /// How many steps are left.
    pub open spec fn left(self) -> int {
        self.ids.len() + self.tokens - self.fed + self.tokens - self.out.len()
    }
}

/// A completion of a prompt: which tokens to feed and when to sample.
pub struct Completion {
    prompt: Vec<u8>,
    ids: Vec<u32>,
    out: Vec<u32>,
    fed_ids: usize,
    fed_out: usize,
    tokens: usize,
}

impl View for Completion {
    type V = CompletionState;

    closed spec fn view(&self) -> CompletionState {
        CompletionState {
            prompt: self.prompt@,
            ids: self.ids@,
            out: self.out@,
            fed: (self.fed_ids + self.fed_out) as nat,
            tokens: self.tokens as nat,
        }
    }
}

impl Completion {
    /// The sampled tokens are fed after those of the prompt.
    pub closed spec fn fed_in_order(&self) -> bool {
        &&& self.fed_ids <= self.ids@.len()
        &&& self.fed_out <= self.out@.len()
        &&& self.fed_out > 0 ==> self.fed_ids == self.ids@.len()
    }

    /// A completion in progress.
    pub open spec fn wf(&self) -> bool {
        self@.wf() && self.fed_in_order()
    }

    /// Begin to complete `prompt` with `tokens` new tokens.
    pub fn begin(codec: &Codec, prompt: &str, tokens: usize) -> (c: Self)
        ensures
            c@.prompt == encode_utf8(seed_text(prompt@)),
            prompt@.len() > 0 ==> c@.prompt == encode_utf8(prompt@),
            prompt@.len() == 0 ==> c@.prompt == encode_utf8(seq!['\n']),
            c@.ids == tokens_of(codec@, c@.prompt),
            c@.out.len() == 0,
            c@.fed == 0,
            c@.tokens == tokens,
            c.wf(),
    {
        let seed = if prompt.is_empty() {
            proof {
                reveal_strlit("\n");
                assert("\n"@ =~= seed_text(prompt@));
            }
            "\n"
        } else {
            prompt
        };
        let bytes = slice_to_vec(seed.as_bytes());
        proof {
            encode_utf8_decode_utf8(seed@);
            if bytes@.len() == 0 {
                assert(decode_utf8(bytes@).len() == 0);
            }
        }
        let ids = codec.encode_prompt(&bytes);
        Completion { prompt: bytes, ids, out: Vec::new(), fed_ids: 0, fed_out: 0, tokens }
    }

    /// What to do next.
    pub fn next(&self) -> (s: Step)
        requires
            self.wf(),
        ensures
            s == self@.step(),
    {
        if self.fed_ids < self.ids.len() {
            Step::Feed(self.ids[self.fed_ids])
        } else if self.fed_out < self.out.len() {
            Step::Feed(self.out[self.fed_out])
        } else if self.out.len() < self.tokens {
            Step::Sample
        } else {
            Step::Done
        }
    }

    /// The token that was to be fed has been fed.
    pub fn fed(&mut self)
        requires
            old(self).wf(),
            old(self)@.step() is Feed,
        ensures
            final(self)@ == (CompletionState { fed: old(self)@.fed + 1, ..old(self)@ }),
            final(self).wf(),
            final(self)@.left() == old(self)@.left() - 1,
    {
        if self.fed_ids < self.ids.len() {
            self.fed_ids = self.fed_ids + 1;
        } else {
            self.fed_out = self.fed_out + 1;
        }
    }

    /// A token was sampled.
    pub fn sampled(&mut self, id: u32)
        requires
            old(self).wf(),
            old(self)@.step() is Sample,
        ensures
            final(self)@ == (CompletionState { out: old(self)@.out.push(id), ..old(self)@ }),
            final(self).wf(),
            final(self)@.step() == Step::Feed(id),
            final(self)@.left() == old(self)@.left() - 1,
    {
        self.out.push(id);
    }

    /// The prompt and what was sampled, as text.
    pub fn text(&self, codec: &Codec) -> (r: String)
        ensures
            r@ == lossy(self@.prompt + bytes_of(codec@, self@.out)),
            valid_utf8(self@.prompt + bytes_of(codec@, self@.out)) ==> r@ == decode_utf8(
                self@.prompt + bytes_of(codec@, self@.out),
            ),
            forall|seed: Seq<char>|
                self@.prompt == #[trigger] encode_utf8(seed) ==> seed.is_prefix_of(r@),
    {
        let mut produced: Vec<u8> = self.prompt.clone();
        let mut more = codec.decode_ids(&self.out);
        produced.append(&mut more);
        assert(produced@ =~= self@.prompt + bytes_of(codec@, self@.out));
        let r = from_utf8_lossy(&produced);
        proof {
            assert forall|seed: Seq<char>| self@.prompt == #[trigger] encode_utf8(
                seed,
            ) implies seed.is_prefix_of(r@) by {
                encode_utf8_valid_utf8(seed);
                encode_utf8_decode_utf8(seed);
                assert(self@.prompt.is_prefix_of(produced@));
            }
        }
        r
    }
}

/// A completion that is done has sampled all the tokens that were asked for,
/// and has fed the prompt and every one of them.
pub proof fn law_completion_done(c: CompletionState)
    requires
        c.wf(),
        c.step() is Done,
    ensures
        c.out.len() == c.tokens,
        c.fed == c.ids.len() + c.tokens,
        c.left() == 0,
{
}

/// The first tokens to be fed are those of the prompt, in order, before any is
/// sampled.
pub proof fn law_prompt_comes_first(c: CompletionState)
    requires
        c.wf(),
        c.fed < c.ids.len(),
    ensures
        c.step() == Step::Feed(c.ids[c.fed as int]),
        c.out.len() == 0,
{
}

/// A prompt is taken verbatim; only an empty one is replaced, by a line feed.
pub proof fn law_prompt_is_verbatim(prompt: Seq<char>)
    ensures
        prompt.len() > 0 ==> seed_text(prompt) == prompt,
        prompt.len() == 0 ==> seed_text(prompt) == seq!['\n'],
{
}

/// What is fed: the tokens of the prompt in order, then the tokens that were
/// sampled in order. A token is sampled when all those have been fed and fewer
/// were sampled than asked for, and then only.
pub proof fn law_steps_of_a_completion(c: CompletionState)
    requires
        c.wf(),
    ensures
        c.fed < c.ids.len() <==> c.step() == Step::Feed(c.ids[c.fed as int]) && c.fed
            < c.ids.len(),
        c.ids.len() <= c.fed < c.ids.len() + c.out.len() ==> c.step() == Step::Feed(
            c.out[c.fed - c.ids.len()],
        ),
        c.step() is Sample <==> c.fed == c.ids.len() + c.out.len() && c.out.len() < c.tokens,
        c.step() is Done <==> c.fed == c.ids.len() + c.out.len() && c.out.len() == c.tokens,
{
}

/// Without a tokenizer a byte is the token of its value, and a token stands for
/// its low byte.
pub proof fn law_bytes_without_tokenizer(bytes: Seq<u8>, ids: Seq<u32>, i: int)
    ensures
        tokens_of(None, bytes).len() == bytes.len(),
        0 <= i < bytes.len() ==> tokens_of(None, bytes)[i] == bytes[i],
        bytes_of(None, ids).len() == ids.len(),
        0 <= i < ids.len() ==> bytes_of(None, ids)[i] as int == ids[i] as int % 256,
{
}

/// The prompt stands where the template has its placeholder; what stands before
/// the placeholder stays, and what stands behind it is a template again.
pub proof fn law_prompt_replaces_the_placeholder(
    before: Seq<char>,
    after: Seq<char>,
    prompt: Seq<char>,
)
    requires
        forall|i: int|
            #![trigger (before + "{prompt}"@ + after).skip(i)]
            0 <= i < before.len() ==> !"{prompt}"@.is_prefix_of(
                (before + "{prompt}"@ + after).skip(i),
            ),
    ensures
        templated(before + "{prompt}"@ + after, prompt) == before + prompt + (if after.len() == 0 {
            after
        } else {
            templated(after, prompt)
        }),
{
    reveal_strlit("{prompt}");
    let p = "{prompt}"@;
    let s = before + p + after;
    let at = before.len() as int;
    assert(s.skip(at) =~= p + after);
    assert(p.is_prefix_of(s.skip(at)));
    law_first_match_is_substituted(s, p, prompt, at);
    assert(s.subrange(0, at) =~= before);
    assert(s.subrange(at + p.len(), s.len() as int) =~= after);
}

/// A template without the placeholder is used as it is, and an empty one gives
/// the prompt.
pub proof fn law_template_without_placeholder(template: Seq<char>, prompt: Seq<char>)
    requires
        forall|i: int|
            #![trigger template.skip(i)]
            0 <= i < template.len() ==> !"{prompt}"@.is_prefix_of(template.skip(i)),
    ensures
        templated(template, prompt) == if template.len() == 0 {
            prompt
        } else {
            template
        },
{
    reveal_strlit("{prompt}");
    if template.len() > 0 {
        law_nothing_to_substitute(template, "{prompt}"@, prompt);
    }
}

} // verus!
