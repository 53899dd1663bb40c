//! Persistent user settings for the model and training, the rows of the panel
//! that edits them, and the model-size templates.
use vstd::prelude::*;

use crate::binary64::Binary64;
use crate::config::{Config, DECAY_MAX, DECAY_MIN};
use crate::text::{
    decimal, law_number_roundtrip, number_in, number_text, parse_or, same,
};

verus! {

/// A real number, with the text that shows it.
#[derive(Clone, Debug)]
pub struct Real {
    pub value: Binary64,
    pub text: String,
}

/// What a [`Real`] stands for.
pub ghost struct RealView {
    pub value: Binary64,
    pub text: Seq<char>,
}

impl View for Real {
    type V = RealView;

    open spec fn view(&self) -> RealView {
        RealView { value: self.value, text: self.text@ }
    }
}

impl Real {
    /// A copy of the number and its text.
    pub fn copy(&self) -> (r: Self)
        ensures
            r@ == self@,
    {
        Real { value: self.value, text: self.text.clone() }
    }
}

/// 6e-4.
pub const DEFAULT_LR: u64 = 0x3f43_a92a_3055_3261;

/// 0.4.
pub const DEFAULT_TEMPERATURE: u64 = 0x3fd9_9999_9999_999a;

/// What a user has chosen.
#[derive(Clone, Debug)]
pub struct Settings {
    /// Named size preset: tiny / small / medium / large / custom.
    pub model_template: String,
    pub device: String,
    pub data_file: String,
    pub steps: usize,
    pub batch_size: usize,
    pub seq_len: usize,
    pub lr: Real,
    pub tokenizer: String,
    pub num_merges: usize,
    pub chunk_len: usize,
    pub d_model: usize,
    pub layers: usize,
    pub heads: usize,
    pub head_dim: usize,
    pub ffn: usize,
    pub decay_min: Real,
    pub decay_max: Real,
    pub chat_template: String,
    pub temperature: Real,
    pub top_k: usize,
    pub tokens: usize,
}

/// What [`Settings`] stand for.
pub ghost struct SettingsView {
    pub model_template: Seq<char>,
    pub device: Seq<char>,
    pub data_file: Seq<char>,
    pub steps: usize,
    pub batch_size: usize,
    pub seq_len: usize,
    pub lr: RealView,
    pub tokenizer: Seq<char>,
    pub num_merges: usize,
    pub chunk_len: usize,
    pub d_model: usize,
    pub layers: usize,
    pub heads: usize,
    pub head_dim: usize,
    pub ffn: usize,
    pub decay_min: RealView,
    pub decay_max: RealView,
    pub chat_template: Seq<char>,
    pub temperature: RealView,
    pub top_k: usize,
    pub tokens: usize,
}

impl View for Settings {
    type V = SettingsView;

    open spec fn view(&self) -> SettingsView {
        SettingsView {
            model_template: self.model_template@,
            device: self.device@,
            data_file: self.data_file@,
            steps: self.steps,
            batch_size: self.batch_size,
            seq_len: self.seq_len,
            lr: self.lr@,
            tokenizer: self.tokenizer@,
            num_merges: self.num_merges,
            chunk_len: self.chunk_len,
            d_model: self.d_model,
            layers: self.layers,
            heads: self.heads,
            head_dim: self.head_dim,
            ffn: self.ffn,
            decay_min: self.decay_min@,
            decay_max: self.decay_max@,
            chat_template: self.chat_template@,
            temperature: self.temperature@,
            top_k: self.top_k,
            tokens: self.tokens,
        }
    }
}

/// The template that a first run starts with.
pub fn default_model_template() -> (s: String)
    ensures
        s@ == "small"@,
{
    "small".to_owned()
}

/// The settings of a first run.
pub open spec fn default_settings() -> SettingsView {
    SettingsView {
        model_template: "small"@,
        device: "auto"@,
        data_file: "data/input.txt"@,
        steps: 20000,
        batch_size: 16,
        seq_len: 256,
        lr: RealView { value: Binary64 { bits: DEFAULT_LR }, text: "0.0006"@ },
        tokenizer: "bpe"@,
        num_merges: 512,
        chunk_len: 64,
        d_model: 256,
        layers: 4,
        heads: 8,
        head_dim: 32,
        ffn: 512,
        decay_min: RealView { value: Binary64 { bits: DECAY_MIN }, text: "0.969"@ },
        decay_max: RealView { value: Binary64 { bits: DECAY_MAX }, text: "0.9995"@ },
        chat_template: "Q: {prompt}\nA:"@,
        temperature: RealView { value: Binary64 { bits: DEFAULT_TEMPERATURE }, text: "0.4"@ },
        top_k: 40,
        tokens: 120,
    }
}

impl Default for Settings {
    fn default() -> (s: Self)
        ensures
            s@ == default_settings(),
            s.model_template@ == "small"@ && s.device@ == "auto"@ && s.tokenizer@ == "bpe"@,
            s.data_file@ == "data/input.txt"@ && s.chat_template@ == "Q: {prompt}\nA:"@,
            s.steps == 20000 && s.batch_size == 16 && s.seq_len == 256 && s.num_merges == 512,
            s.d_model == 256 && s.layers == 4 && s.heads == 8 && s.head_dim == 32 && s.ffn == 512,
            s.chunk_len == 64 && s.top_k == 40 && s.tokens == 120,
            s.lr.text@ == "0.0006"@ && s.temperature.text@ == "0.4"@,
            s.decay_min.text@ == "0.969"@ && s.decay_max.text@ == "0.9995"@,
    {
        Settings {
            model_template: default_model_template(),
            device: "auto".to_owned(),
            data_file: "data/input.txt".to_owned(),
            steps: 20000,
            batch_size: 16,
            seq_len: 256,
            lr: Real { value: Binary64 { bits: DEFAULT_LR }, text: "0.0006".to_owned() },
            tokenizer: "bpe".to_owned(),
            num_merges: 512,
            chunk_len: 64,
            d_model: 256,
            layers: 4,
            heads: 8,
            head_dim: 32,
            ffn: 512,
            decay_min: Real { value: Binary64 { bits: DECAY_MIN }, text: "0.969".to_owned() },
            decay_max: Real { value: Binary64 { bits: DECAY_MAX }, text: "0.9995".to_owned() },
            chat_template: "Q: {prompt}\nA:".to_owned(),
            temperature: Real {
                value: Binary64 { bits: DEFAULT_TEMPERATURE },
                text: "0.4".to_owned(),
            },
            top_k: 40,
            tokens: 120,
        }
    }
}

/// The architecture that settings describe, with byte tokens.
pub open spec fn config_matches(c: Config, s: SettingsView) -> bool {
    &&& c.vocab_size == 256
    &&& c.d_model == s.d_model
    &&& c.num_layers == s.layers
    &&& c.num_heads == s.heads
    &&& c.head_dim == s.head_dim
    &&& c.ffn_dim == s.ffn
    &&& c.max_seq_len == s.seq_len
    &&& c.decay_min == s.decay_min.value
    &&& c.decay_max == s.decay_max.value
    &&& c.chunk_len == s.chunk_len
    &&& c.tokenizer@ == s.tokenizer
    &&& c.num_merges == s.num_merges
}

impl Settings {
    /// The architecture that the settings describe.
    pub fn build_config(&self) -> (c: Config)
        ensures
            config_matches(c, self@),
            c.vocab_size == 256,
            c.d_model == self.d_model,
            c.num_layers == self.layers,
            c.num_heads == self.heads,
            c.head_dim == self.head_dim,
            c.ffn_dim == self.ffn,
            c.max_seq_len == self.seq_len,
            c.decay_min == self.decay_min.value,
            c.decay_max == self.decay_max.value,
            c.chunk_len == self.chunk_len,
            c.tokenizer@ == self.tokenizer@,
            c.num_merges == self.num_merges,
    {
        Config {
            vocab_size: 256,
            d_model: self.d_model,
            num_layers: self.layers,
            num_heads: self.heads,
            head_dim: self.head_dim,
            ffn_dim: self.ffn,
            max_seq_len: self.seq_len,
            decay_min: self.decay_min.value,
            decay_max: self.decay_max.value,
            chunk_len: self.chunk_len,
            tokenizer: self.tokenizer.clone(),
            num_merges: self.num_merges,
        }
    }
}

/// The default settings describe an architecture that can be trained.
pub proof fn law_default_settings_are_valid(c: Config)
    requires
        config_matches(c, default_settings()),
    ensures
        c.valid(),
{
}

/// A named model-size preset.
#[derive(Clone, Copy, Debug)]
pub struct ModelTemplate {
    pub name: &'static str,
    pub d_model: usize,
    pub layers: usize,
    pub heads: usize,
    pub head_dim: usize,
    pub ffn: usize,
}

/// The number of templates.
pub const TEMPLATE_COUNT: usize = 4;

/// The templates, in the order in which they are cycled through.
pub open spec fn templates() -> Seq<ModelTemplate> {
    seq![
        ModelTemplate { name: "tiny", d_model: 128, layers: 2, heads: 4, head_dim: 32, ffn: 512 },
        ModelTemplate { name: "small", d_model: 256, layers: 4, heads: 8, head_dim: 32, ffn: 512 },
        ModelTemplate {
            name: "medium",
            d_model: 384,
            layers: 6,
            heads: 12,
            head_dim: 32,
            ffn: 1024,
        },
        ModelTemplate { name: "large", d_model: 512, layers: 6, heads: 16, head_dim: 32, ffn: 1024 },
    ]
}

/// One template.
pub fn template(i: usize) -> (t: ModelTemplate)
    requires
        i < TEMPLATE_COUNT,
    ensures
        t == templates()[i as int],
{
    if i == 0 {
        ModelTemplate { name: "tiny", d_model: 128, layers: 2, heads: 4, head_dim: 32, ffn: 512 }
    } else if i == 1 {
        ModelTemplate { name: "small", d_model: 256, layers: 4, heads: 8, head_dim: 32, ffn: 512 }
    } else if i == 2 {
        ModelTemplate {
            name: "medium",
            d_model: 384,
            layers: 6,
            heads: 12,
            head_dim: 32,
            ffn: 1024,
        }
    } else {
        ModelTemplate { name: "large", d_model: 512, layers: 6, heads: 16, head_dim: 32, ffn: 1024 }
    }
}

/// The template behind the one with a given name. An unknown name counts as the
/// first template.
pub open spec fn template_behind(name: Seq<char>) -> int {
    if name == "small"@ {
        2
    } else if name == "medium"@ {
        3
    } else if name == "large"@ {
        0
    } else {
        1
    }
}

/// Settings with a template's architecture.
pub open spec fn with_template(s: SettingsView, t: ModelTemplate) -> SettingsView {
    SettingsView {
        model_template: t.name@,
        d_model: t.d_model,
        layers: t.layers,
        heads: t.heads,
        head_dim: t.head_dim,
        ffn: t.ffn,
        chunk_len: 64,
        ..s
    }
}

impl Settings {
    /// Go on to the next model-size template and apply its architecture.
    pub fn cycle_template(&mut self)
        ensures
            final(self)@ == with_template(
                old(self)@,
                templates()[template_behind(old(self)@.model_template)],
            ),
    {
        let name = self.model_template.as_str();
        let next: usize = if same(name, "small") {
            2
        } else if same(name, "medium") {
            3
        } else if same(name, "large") {
            0
        } else {
            1
        };
        let t = template(next);
        self.model_template = t.name.to_owned();
        self.d_model = t.d_model;
        self.layers = t.layers;
        self.heads = t.heads;
        self.head_dim = t.head_dim;
        self.ffn = t.ffn;
        self.chunk_len = 64;
    }

    /// Go on to the next backend preference.
    pub fn cycle_device(&mut self)
        ensures
            final(self)@ == (SettingsView { device: device_behind(old(self)@.device), ..old(self)@ }),
    {
        let name = self.device.as_str();
        let next = if same(name, "cpu") {
            "cuda"
        } else if same(name, "cuda") {
            "metal"
        } else if same(name, "metal") {
            "auto"
        } else {
            "cpu"
        };
        self.device = next.to_owned();
    }
}

/// The backend preference behind another. An unknown one counts as `auto`.
pub open spec fn device_behind(name: Seq<char>) -> Seq<char> {
    if name == "cpu"@ {
        "cuda"@
    } else if name == "cuda"@ {
        "metal"@
    } else if name == "metal"@ {
        "auto"@
    } else {
        "cpu"@
    }
}

/// One editable row of the settings panel.
#[derive(Clone, Debug)]
pub struct Entry {
    pub label: String,
    pub value: String,
}

/// The number of rows.
pub const ENTRY_COUNT: usize = 21;

/// The labels of the rows.
pub open spec fn entry_labels() -> Seq<Seq<char>> {
    seq![
        "Model template"@,
        "Device"@,
        "Data file"@,
        "Steps"@,
        "Batch size"@,
        "Context (seq_len)"@,
        "Learning rate"@,
        "Tokenizer"@,
        "BPE merges"@,
        "Chunk length"@,
        "d_model"@,
        "Layers"@,
        "Heads"@,
        "Head dim"@,
        "FFN"@,
        "Decay min"@,
        "Decay max"@,
        "Chat template"@,
        "Temperature"@,
        "Top-k"@,
        "Answer tokens"@,
    ]
}

/// The size that an architecture is shown as.
pub open spec fn size_name(s: SettingsView) -> Seq<char> {
    if s.d_model == 128 && s.layers == 2 {
        "tiny"@
    } else if s.d_model == 384 && s.layers == 6 && s.heads == 12 {
        "medium"@
    } else if s.d_model == 512 && s.layers == 6 && s.heads == 16 {
        "large"@
    } else {
        "small"@
    }
}

/// What the template row shows.
pub open spec fn template_label(s: SettingsView) -> Seq<char> {
    if s.model_template == "custom"@ {
        "custom"@
    } else {
        size_name(s)
    }
}

/// The values of the rows.
pub open spec fn entry_values(s: SettingsView) -> Seq<Seq<char>> {
    seq![
        template_label(s),
        s.device,
        s.data_file,
        decimal(s.steps as nat),
        decimal(s.batch_size as nat),
        decimal(s.seq_len as nat),
        s.lr.text,
        s.tokenizer,
        decimal(s.num_merges as nat),
        decimal(s.chunk_len as nat),
        decimal(s.d_model as nat),
        decimal(s.layers as nat),
        decimal(s.heads as nat),
        decimal(s.head_dim as nat),
        decimal(s.ffn as nat),
        s.decay_min.text,
        s.decay_max.text,
        s.chat_template,
        s.temperature.text,
        decimal(s.top_k as nat),
        decimal(s.tokens as nat),
    ]
}

/// The labels of entries.
pub open spec fn labels_of(entries: Seq<Entry>) -> Seq<Seq<char>> {
    entries.map_values(|e: Entry| e.label@)
}

/// The values of entries.
pub open spec fn values_of(entries: Seq<Entry>) -> Seq<Seq<char>> {
    entries.map_values(|e: Entry| e.value@)
}

fn add_entry(entries: &mut Vec<Entry>, label: &str, value: String)
    ensures
        labels_of(final(entries)@) == labels_of(old(entries)@).push(label@),
        values_of(final(entries)@) == values_of(old(entries)@).push(value@),
{
    let ghost before = entries@;
    entries.push(Entry { label: label.to_owned(), value });
    assert(labels_of(entries@) =~= labels_of(before).push(label@));
    assert(values_of(entries@) =~= values_of(before).push(value@));
}

/// The size that an architecture is shown as.
fn size_of(s: &Settings) -> (r: &'static str)
    ensures
        r@ == size_name(s@),
{
    if s.d_model == 128 && s.layers == 2 {
        "tiny"
    } else if s.d_model == 384 && s.layers == 6 && s.heads == 12 {
        "medium"
    } else if s.d_model == 512 && s.layers == 6 && s.heads == 16 {
        "large"
    } else {
        "small"
    }
}

/// The rows of the settings panel.
pub fn entries_from_settings(s: &Settings) -> (r: Vec<Entry>)
    ensures
        labels_of(r@) == entry_labels(),
        values_of(r@) == entry_values(s@),
{
    let label = if same(s.model_template.as_str(), "custom") {
        "custom".to_owned()
    } else {
        size_of(s).to_owned()
    };
    let mut e: Vec<Entry> = Vec::new();
    assert(labels_of(e@) =~= Seq::empty());
    assert(values_of(e@) =~= Seq::empty());
    add_entry(&mut e, "Model template", label);
    add_entry(&mut e, "Device", s.device.clone());
    add_entry(&mut e, "Data file", s.data_file.clone());
    add_entry(&mut e, "Steps", number_text(s.steps));
    add_entry(&mut e, "Batch size", number_text(s.batch_size));
    add_entry(&mut e, "Context (seq_len)", number_text(s.seq_len));
    add_entry(&mut e, "Learning rate", s.lr.text.clone());
    add_entry(&mut e, "Tokenizer", s.tokenizer.clone());
    add_entry(&mut e, "BPE merges", number_text(s.num_merges));
    add_entry(&mut e, "Chunk length", number_text(s.chunk_len));
    add_entry(&mut e, "d_model", number_text(s.d_model));
    add_entry(&mut e, "Layers", number_text(s.layers));
    add_entry(&mut e, "Heads", number_text(s.heads));
    add_entry(&mut e, "Head dim", number_text(s.head_dim));
    add_entry(&mut e, "FFN", number_text(s.ffn));
    add_entry(&mut e, "Decay min", s.decay_min.text.clone());
    add_entry(&mut e, "Decay max", s.decay_max.text.clone());
    add_entry(&mut e, "Chat template", s.chat_template.clone());
    add_entry(&mut e, "Temperature", s.temperature.text.clone());
    add_entry(&mut e, "Top-k", number_text(s.top_k));
    add_entry(&mut e, "Answer tokens", number_text(s.tokens));
    assert(labels_of(e@) =~= entry_labels());
    assert(values_of(e@) =~= entry_values(s@));
    e
}

/// The real numbers that the rows of the panel hold; one that is no number is
/// missing.
pub struct Reals {
    pub lr: Option<Real>,
    pub decay_min: Option<Real>,
    pub decay_max: Option<Real>,
    pub temperature: Option<Real>,
}

/// What [`Reals`] stand for.
pub ghost struct RealsView {
    pub lr: Option<RealView>,
    pub decay_min: Option<RealView>,
    pub decay_max: Option<RealView>,
    pub temperature: Option<RealView>,
}

/// What an optional number stands for.
pub open spec fn real_view(r: Option<Real>) -> Option<RealView> {
    match r {
        Some(x) => Some(x@),
        None => None,
    }
}

impl View for Reals {
    type V = RealsView;

    open spec fn view(&self) -> RealsView {
        RealsView {
            lr: real_view(self.lr),
            decay_min: real_view(self.decay_min),
            decay_max: real_view(self.decay_max),
            temperature: real_view(self.temperature),
        }
    }
}

/// The text in row `i`; a row that is missing is empty.
pub open spec fn row(values: Seq<Seq<char>>, i: int) -> Seq<char> {
    if i < values.len() {
        values[i]
    } else {
        Seq::empty()
    }
}

/// The number in row `i`, or `fallback` if that is none.
pub open spec fn row_number(values: Seq<Seq<char>>, i: int, fallback: usize) -> usize {
    match number_in(row(values, i), usize::MAX as nat) {
        Some(n) => n as usize,
        None => fallback,
    }
}

/// A real number, or `fallback`.
pub open spec fn real_or(r: Option<RealView>, fallback: RealView) -> RealView {
    match r {
        Some(x) => x,
        None => fallback,
    }
}

/// Settings with what the rows hold. Rows that hold no number leave the number
/// in `base` as it is.
pub open spec fn applied(
    values: Seq<Seq<char>>,
    base: SettingsView,
    reals: RealsView,
) -> SettingsView {
    SettingsView {
        model_template: row(values, 0),
        device: row(values, 1),
        data_file: row(values, 2),
        steps: row_number(values, 3, base.steps),
        batch_size: row_number(values, 4, base.batch_size),
        seq_len: row_number(values, 5, base.seq_len),
        lr: real_or(reals.lr, base.lr),
        tokenizer: row(values, 7),
        num_merges: row_number(values, 8, base.num_merges),
        chunk_len: row_number(values, 9, base.chunk_len),
        d_model: row_number(values, 10, base.d_model),
        layers: row_number(values, 11, base.layers),
        heads: row_number(values, 12, base.heads),
        head_dim: row_number(values, 13, base.head_dim),
        ffn: row_number(values, 14, base.ffn),
        decay_min: real_or(reals.decay_min, base.decay_min),
        decay_max: real_or(reals.decay_max, base.decay_max),
        chat_template: row(values, 17),
        temperature: real_or(reals.temperature, base.temperature),
        top_k: row_number(values, 19, base.top_k),
        tokens: row_number(values, 20, base.tokens),
    }
}

fn text_at(entries: &Vec<Entry>, i: usize) -> (s: String)
    ensures
        s@ == row(values_of(entries@), i as int),
{
    if i < entries.len() {
        entries[i].value.clone()
    } else {
        let s = String::new();
        assert(s@ =~= Seq::empty());
        s
    }
}

fn number_at(entries: &Vec<Entry>, i: usize, fallback: usize) -> (n: usize)
    ensures
        n == row_number(values_of(entries@), i as int, fallback),
{
    parse_or(text_at(entries, i).as_str(), fallback)
}

fn real_at(r: &Option<Real>, fallback: &Real) -> (x: Real)
    ensures
        x@ == real_or(real_view(*r), fallback@),
{
    match r {
        Some(x) => x.copy(),
        None => fallback.copy(),
    }
}

/// The settings that the rows of the panel describe. `reals` holds what the
/// rows with real numbers were read as.
pub fn apply_settings(entries: &Vec<Entry>, base: &Settings, reals: &Reals) -> (s: Settings)
    ensures
        s@ == applied(values_of(entries@), base@, reals@),
{
    Settings {
        model_template: text_at(entries, 0),
        device: text_at(entries, 1),
        data_file: text_at(entries, 2),
        steps: number_at(entries, 3, base.steps),
        batch_size: number_at(entries, 4, base.batch_size),
        seq_len: number_at(entries, 5, base.seq_len),
        lr: real_at(&reals.lr, &base.lr),
        tokenizer: text_at(entries, 7),
        num_merges: number_at(entries, 8, base.num_merges),
        chunk_len: number_at(entries, 9, base.chunk_len),
        d_model: number_at(entries, 10, base.d_model),
        layers: number_at(entries, 11, base.layers),
        heads: number_at(entries, 12, base.heads),
        head_dim: number_at(entries, 13, base.head_dim),
        ffn: number_at(entries, 14, base.ffn),
        decay_min: real_at(&reals.decay_min, &base.decay_min),
        decay_max: real_at(&reals.decay_max, &base.decay_max),
        chat_template: text_at(entries, 17),
        temperature: real_at(&reals.temperature, &base.temperature),
        top_k: number_at(entries, 19, base.top_k),
        tokens: number_at(entries, 20, base.tokens),
    }
}

/// Applying the rows of some settings gives those settings back, whatever they
/// are applied to, if the real numbers are read back as they were shown. Only
/// the name of the template becomes the one that is shown.
pub proof fn law_settings_roundtrip(s: SettingsView, base: SettingsView, reals: RealsView)
    requires
        reals.lr == Some(s.lr),
        reals.decay_min == Some(s.decay_min),
        reals.decay_max == Some(s.decay_max),
        reals.temperature == Some(s.temperature),
    ensures
        applied(entry_values(s), base, reals) == (SettingsView {
            model_template: template_label(s),
            ..s
        }),
{
    let limit = usize::MAX as nat;
    law_number_roundtrip(s.steps as nat, limit);
    law_number_roundtrip(s.batch_size as nat, limit);
    law_number_roundtrip(s.seq_len as nat, limit);
    law_number_roundtrip(s.num_merges as nat, limit);
    law_number_roundtrip(s.chunk_len as nat, limit);
    law_number_roundtrip(s.d_model as nat, limit);
    law_number_roundtrip(s.layers as nat, limit);
    law_number_roundtrip(s.heads as nat, limit);
    law_number_roundtrip(s.head_dim as nat, limit);
    law_number_roundtrip(s.ffn as nat, limit);
    law_number_roundtrip(s.top_k as nat, limit);
    law_number_roundtrip(s.tokens as nat, limit);
}

/// A row that holds no number leaves its number as it was.
pub proof fn law_invalid_numbers_fall_back(
    values: Seq<Seq<char>>,
    base: SettingsView,
    reals: RealsView,
    i: int,
)
    requires
        number_in(row(values, i), usize::MAX as nat) is None,
    ensures
        ({
            let s = applied(values, base, reals);
            &&& i == 3 ==> s.steps == base.steps
            &&& i == 4 ==> s.batch_size == base.batch_size
            &&& i == 5 ==> s.seq_len == base.seq_len
            &&& i == 8 ==> s.num_merges == base.num_merges
            &&& i == 9 ==> s.chunk_len == base.chunk_len
            &&& i == 10 ==> s.d_model == base.d_model
            &&& i == 11 ==> s.layers == base.layers
            &&& i == 12 ==> s.heads == base.heads
            &&& i == 13 ==> s.head_dim == base.head_dim
            &&& i == 14 ==> s.ffn == base.ffn
            &&& i == 19 ==> s.top_k == base.top_k
            &&& i == 20 ==> s.tokens == base.tokens
        }),
{
}

/// Every template's width is its heads times their dimension, and settings
/// with a template are shown under its name.
pub proof fn law_templates_are_shown(s: SettingsView, i: int)
    requires
        0 <= i < TEMPLATE_COUNT,
    ensures
        templates()[i].d_model == templates()[i].heads * templates()[i].head_dim,
        template_label(with_template(s, templates()[i])) == templates()[i].name@,
{
    reveal_strlit("custom");
    reveal_strlit("tiny");
    reveal_strlit("small");
    reveal_strlit("medium");
    reveal_strlit("large");
    assert("custom"@.len() == 6 && "tiny"@.len() == 4 && "small"@.len() == 5 && "large"@.len() == 5
        && "medium"@[0] == 'm' && "custom"@[0] == 'c');
    let t = templates()[i];
    assert(t.heads * t.head_dim == t.heads * 32) by (nonlinear_arith)
        requires
            t.head_dim == 32,
    ;
}

/// Cycling goes through the templates in order, from the last to the first.
pub proof fn law_templates_cycle(i: int)
    requires
        0 <= i < TEMPLATE_COUNT,
    ensures
        template_behind(templates()[i].name@) == (i + 1) % (TEMPLATE_COUNT as int),
{
    reveal_strlit("tiny");
    reveal_strlit("small");
    reveal_strlit("medium");
    reveal_strlit("large");
    assert("tiny"@.len() == 4 && "small"@.len() == 5 && "medium"@.len() == 6 && "small"@[0] == 's'
        && "large"@[0] == 'l' && "large"@.len() == 5);
}

/// Cycling goes through the four backend preferences, and back to the first.
pub proof fn law_devices_cycle()
    ensures
        device_behind("auto"@) == "cpu"@,
        device_behind("cpu"@) == "cuda"@,
        device_behind("cuda"@) == "metal"@,
        device_behind("metal"@) == "auto"@,
{
    reveal_strlit("auto");
    reveal_strlit("cpu");
    reveal_strlit("cuda");
    reveal_strlit("metal");
    assert("auto"@.len() == 4 && "cpu"@.len() == 3 && "cuda"@.len() == 4 && "metal"@.len() == 5
        && "auto"@[0] == 'a' && "cuda"@[0] == 'c');
}

/// A template changes the architecture, its own name and the chunk length, and
/// no other setting.
pub proof fn law_template_changes_the_architecture(s: SettingsView, t: ModelTemplate)
    ensures
        ({
            let r = with_template(s, t);
            &&& r.model_template == t.name@
            &&& r.d_model == t.d_model && r.layers == t.layers && r.heads == t.heads
            &&& r.head_dim == t.head_dim && r.ffn == t.ffn && r.chunk_len == 64
            &&& r.device == s.device && r.data_file == s.data_file && r.steps == s.steps
            &&& r.batch_size == s.batch_size && r.seq_len == s.seq_len && r.lr == s.lr
            &&& r.tokenizer == s.tokenizer && r.num_merges == s.num_merges
            &&& r.decay_min == s.decay_min && r.decay_max == s.decay_max
            &&& r.chat_template == s.chat_template && r.temperature == s.temperature
            &&& r.top_k == s.top_k && r.tokens == s.tokens
        }),
{
}

/// Templates grow from the first to the last.
pub proof fn law_templates_grow(i: int, j: int)
    requires
        0 <= i < j < TEMPLATE_COUNT,
    ensures
        templates().len() == TEMPLATE_COUNT,
        templates()[i].d_model < templates()[j].d_model,
        templates()[i].layers <= templates()[j].layers,
        templates()[i].heads < templates()[j].heads,
        templates()[i].head_dim == templates()[j].head_dim,
        templates()[i].ffn <= templates()[j].ffn,
{
}

/// A name that no template has counts as the first, and a preference that no
/// backend has as `auto`.
pub proof fn law_unknown_names_cycle(name: Seq<char>)
    ensures
        name != "small"@ && name != "medium"@ && name != "large"@ ==> template_behind(name) == 1,
        name != "cpu"@ && name != "cuda"@ && name != "metal"@ ==> device_behind(name) == "cpu"@,
{
}

/// A row that holds a number sets that number, and a row that holds text that
/// text; real numbers are taken as they were read, and kept where none was.
pub proof fn law_rows_set_settings(
    values: Seq<Seq<char>>,
    base: SettingsView,
    reals: RealsView,
    i: int,
    n: nat,
)
    requires
        values.len() == ENTRY_COUNT,
        0 <= i < ENTRY_COUNT,
    ensures
        ({
            let s = applied(values, base, reals);
            let read = number_in(values[i], usize::MAX as nat) == Some(n);
            &&& s.model_template == values[0] && s.device == values[1] && s.data_file == values[2]
            &&& s.tokenizer == values[7] && s.chat_template == values[17]
            &&& i == 3 && read ==> s.steps == n
            &&& i == 4 && read ==> s.batch_size == n
            &&& i == 5 && read ==> s.seq_len == n
            &&& i == 8 && read ==> s.num_merges == n
            &&& i == 9 && read ==> s.chunk_len == n
            &&& i == 10 && read ==> s.d_model == n
            &&& i == 11 && read ==> s.layers == n
            &&& i == 12 && read ==> s.heads == n
            &&& i == 13 && read ==> s.head_dim == n
            &&& i == 14 && read ==> s.ffn == n
            &&& i == 19 && read ==> s.top_k == n
            &&& i == 20 && read ==> s.tokens == n
            &&& reals.lr matches Some(x) ==> s.lr == x
            &&& reals.decay_min matches Some(x) ==> s.decay_min == x
            &&& reals.decay_max matches Some(x) ==> s.decay_max == x
            &&& reals.temperature matches Some(x) ==> s.temperature == x
            &&& reals.lr is None ==> s.lr == base.lr
            &&& reals.decay_min is None ==> s.decay_min == base.decay_min
            &&& reals.decay_max is None ==> s.decay_max == base.decay_max
            &&& reals.temperature is None ==> s.temperature == base.temperature
        }),
{
    lemma_number_fits(values[i], usize::MAX as nat);
}

/// A number that is read is at most the limit.
proof fn lemma_number_fits(s: Seq<char>, limit: nat)
    ensures
        number_in(s, limit) matches Some(n) ==> n <= limit,
{
}

/// Each row shows the setting that its label names.
pub proof fn law_rows_show_settings(s: SettingsView)
    ensures
        entry_values(s).len() == ENTRY_COUNT,
        entry_labels().len() == ENTRY_COUNT,
        entry_values(s)[1] == s.device && entry_labels()[1] == "Device"@,
        entry_values(s)[2] == s.data_file && entry_labels()[2] == "Data file"@,
        entry_values(s)[3] == decimal(s.steps as nat) && entry_labels()[3] == "Steps"@,
        entry_values(s)[4] == decimal(s.batch_size as nat) && entry_labels()[4] == "Batch size"@,
        entry_values(s)[5] == decimal(s.seq_len as nat) && entry_labels()[5]
            == "Context (seq_len)"@,
        entry_values(s)[6] == s.lr.text && entry_labels()[6] == "Learning rate"@,
        entry_values(s)[7] == s.tokenizer && entry_labels()[7] == "Tokenizer"@,
        entry_values(s)[8] == decimal(s.num_merges as nat) && entry_labels()[8] == "BPE merges"@,
        entry_values(s)[9] == decimal(s.chunk_len as nat) && entry_labels()[9] == "Chunk length"@,
        entry_values(s)[10] == decimal(s.d_model as nat) && entry_labels()[10] == "d_model"@,
        entry_values(s)[11] == decimal(s.layers as nat) && entry_labels()[11] == "Layers"@,
        entry_values(s)[12] == decimal(s.heads as nat) && entry_labels()[12] == "Heads"@,
        entry_values(s)[13] == decimal(s.head_dim as nat) && entry_labels()[13] == "Head dim"@,
        entry_values(s)[14] == decimal(s.ffn as nat) && entry_labels()[14] == "FFN"@,
        entry_values(s)[15] == s.decay_min.text && entry_labels()[15] == "Decay min"@,
        entry_values(s)[16] == s.decay_max.text && entry_labels()[16] == "Decay max"@,
        entry_values(s)[17] == s.chat_template && entry_labels()[17] == "Chat template"@,
        entry_values(s)[18] == s.temperature.text && entry_labels()[18] == "Temperature"@,
        entry_values(s)[19] == decimal(s.top_k as nat) && entry_labels()[19] == "Top-k"@,
        entry_values(s)[20] == decimal(s.tokens as nat) && entry_labels()[20] == "Answer tokens"@,
{
}

/// A custom architecture is shown as such, and no other is.
pub proof fn law_custom_is_shown(s: SettingsView)
    ensures
        template_label(s) == "custom"@ <==> s.model_template == "custom"@,
        s.model_template != "custom"@ ==> template_label(s) == size_name(s),
{
    reveal_strlit("custom");
    reveal_strlit("tiny");
    reveal_strlit("small");
    reveal_strlit("medium");
    reveal_strlit("large");
    assert("custom"@.len() == 6 && "tiny"@.len() == 4 && "small"@.len() == 5 && "large"@.len() == 5
        && "medium"@[0] == 'm' && "custom"@[0] == 'c');
}

/// An architecture is shown under the name of the size that it has, and as
/// small where it has none of the others.
pub proof fn law_sizes_are_named(s: SettingsView)
    ensures
        size_name(s) == "tiny"@ <==> s.d_model == 128 && s.layers == 2,
        size_name(s) == "medium"@ <==> s.d_model == 384 && s.layers == 6 && s.heads == 12,
        size_name(s) == "large"@ <==> s.d_model == 512 && s.layers == 6 && s.heads == 16,
        size_name(s) == "tiny"@ || size_name(s) == "medium"@ || size_name(s) == "large"@
            || size_name(s) == "small"@,
{
    reveal_strlit("tiny");
    reveal_strlit("small");
    reveal_strlit("medium");
    reveal_strlit("large");
    assert("tiny"@.len() == 4 && "small"@.len() == 5 && "large"@.len() == 5 && "medium"@.len() == 6
        && "small"@[0] == 's' && "large"@[0] == 'l');
}

} // verus!
