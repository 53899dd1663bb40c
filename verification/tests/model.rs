use rand::rngs::StdRng;
use rand::SeedableRng;

use vortexa::binary32::Binary32;
use vortexa::binary64::Binary64;
use vortexa::bpe::BpeTokenizer;
use vortexa::config::{Config, ConfigError};
use vortexa::data::{ByteDataset, DataError};
use vortexa::datasets::{
    data_files, dataset, row_text, Download, FieldValue, Phase, DATASET_COUNT,
};
use vortexa::eval::{can_split, plan, tokens_line, window_at, worth_reporting};
use vortexa::generate::{apply_template, loaded_line, Codec, Completion, Step};
use vortexa::paths::Platform;
use vortexa::retention::{
    causal_exponents, causal_mask, chunks, form_for, reverse_exponents, row_exponents, Form,
};
use vortexa::train::{
    check_args, clips, dataset_line, done_line, prepare, schedule_line, scheduled_lr,
    tokenizer_line, Action, LrPhase, Schedule, Stage, TrainError, TrainRun,
};

fn b64(x: f64) -> Binary64 {
    Binary64 { bits: x.to_bits() }
}

#[test]
fn presets_are_valid() {
    assert!(Config::tiny().validate().is_ok());
    assert!(Config::larger().validate().is_ok());
    assert_eq!(Config::default().d_model, 128);
    assert_eq!(Config::larger().decay_min.bits, 0.969f64.to_bits());
    assert_eq!(Config::larger().decay_max.bits, 0.9995f64.to_bits());
    assert_eq!(
        Config::larger().summary_line(),
        "Vortexa: 4 layers x 8 heads@32d, d_model 256, ffn 512, vocab 256"
    );
}

#[test]
fn config_errors() {
    let bad = |f: fn(&mut Config)| {
        let mut c = Config::tiny();
        f(&mut c);
        c.validate().unwrap_err()
    };
    let e = bad(|c| c.vocab_size = 255);
    assert_eq!(e, ConfigError::VocabTooSmall(255));
    assert_eq!(e.message(), "vocab_size must be at least the 256 byte tokens (got 255)");
    assert_eq!(bad(|c| c.vocab_size = 300), ConfigError::VocabNeedsBpe);
    assert_eq!(bad(|c| c.num_layers = 0), ConfigError::NoLayers);
    assert_eq!(bad(|c| c.num_heads = 0), ConfigError::NoHeads);
    let e = bad(|c| c.d_model = 129);
    assert_eq!(e.message(), "d_model (129) must equal num_heads (4) * head_dim (32)");
    assert!(matches!(bad(|c| c.head_dim = usize::MAX), ConfigError::WidthMismatch { .. }));
    assert_eq!(bad(|c| c.ffn_dim = 0), ConfigError::BadSizes);
    assert_eq!(bad(|c| c.max_seq_len = 1), ConfigError::BadSizes);
    for (lo, hi) in [(0.0, 0.5), (-0.1, 0.5), (0.6, 0.5), (0.5, 1.0), (f64::NAN, 0.5), (0.5, f64::NAN)] {
        let mut c = Config::tiny();
        c.decay_min = b64(lo);
        c.decay_max = b64(hi);
        assert_eq!(c.validate(), Err(ConfigError::BadDecays), "{lo} {hi}");
    }
    assert_eq!(ConfigError::NoHeads.message(), "need at least one head");
    assert_eq!(
        ConfigError::BadDecays.message(),
        "decays must satisfy 0 < decay_min <= decay_max < 1"
    );
    let mut c = Config::tiny();
    c.vocab_size = 300;
    c.tokenizer = "bpe".to_string();
    assert!(c.validate().is_ok());
}

#[test]
fn small_datasets_are_refused() {
    let e = ByteDataset::from_tokens(vec![0; 1024]).err().unwrap();
    assert_eq!(e, DataError::TooSmall(1024));
    assert_eq!(e.message(), "dataset too small (1024 tokens); need at least a few thousand");
    assert!(ByteDataset::load(&vec![0; 3]).is_err());
    assert_eq!(ByteDataset::load(&vec![0; 1025]).unwrap().len(), 1025);
}

#[test]
fn tail_is_split_off() {
    let ds = ByteDataset::from_tokens((0..2000).collect()).unwrap();
    let (train, val) = ds.split_tail(b64(0.1), 50);
    assert_eq!((train.len(), val.len()), (1800, 200));
    let (x, y) = train.batch_at(&vec![0, 1795], 4);
    assert_eq!(x, [0, 1, 2, 3, 1795, 1796, 1797, 1798]);
    assert_eq!(y, [1, 2, 3, 4, 1796, 1797, 1798, 1799]);
    let (x, _) = val.batch_at(&vec![0], 1);
    assert_eq!(x, [1800]);
    let (train, val) = ds.split_tail(b64(0.0), 50);
    assert_eq!((train.len(), val.len()), (1950, 50));
    let (train, val) = ds.split_tail(b64(0.5), 4096);
    assert!(train.is_empty());
    assert_eq!(val.len(), 2000);
}

#[test]
fn random_batches_are_windows() {
    let ds = ByteDataset::from_tokens((0..1500).collect()).unwrap();
    let mut rng = StdRng::seed_from_u64(7);
    let (x, y) = ds.random_batch(&mut rng, 8, 5);
    assert_eq!((x.len(), y.len()), (40, 40));
    for r in 0..8 {
        for c in 0..5 {
            assert_eq!(x[r * 5 + c], x[r * 5] + c as u32);
            assert_eq!(y[r * 5 + c], x[r * 5 + c] + 1);
        }
    }
    let firsts: Vec<u32> = (0..8).map(|r| x[r * 5]).collect();
    assert!(firsts.iter().any(|f| *f != firsts[0]));
    let (again, _) = ds.random_batch(&mut StdRng::seed_from_u64(7), 8, 5);
    assert_eq!(again, x);
    let (whole, _) = ds.random_batch(&mut rng, 2, 1499);
    assert_eq!(whole[0], 0);
}

#[test]
fn evaluation_windows() {
    assert!(!can_split(0, 4));
    assert!(!can_split(9, 4));
    assert!(can_split(10, 4));
    let p = plan(100, 8, b64(0.2));
    assert_eq!((p.window, p.cut), (8, 80));
    assert_eq!(p.train, (0..9).map(|i| i * 8).collect::<Vec<usize>>());
    assert_eq!(p.val, [80, 88]);
    let p = plan(100, 8, b64(0.0));
    assert_eq!((p.cut, p.val.len()), (91, 1));
    let p = plan(100, 0, b64(2.0));
    assert_eq!((p.window, p.cut), (1, 2));
    let tokens: Vec<u32> = (0..100).collect();
    let (x, y) = window_at(&tokens, 88, 8);
    assert_eq!(x, (88..96).collect::<Vec<u32>>());
    assert_eq!(y, (89..97).collect::<Vec<u32>>());
    assert!(worth_reporting(2) && !worth_reporting(1));
    assert_eq!(
        tokens_line(100, 72, 16, 8),
        "tokens 100 (train slice 72 | val slice 16) | window 8"
    );
}

#[test]
fn evaluation_windows_match_a_plain_loop() {
    for n in [10usize, 11, 57, 1000] {
        for seq_len in [1usize, 2, 4] {
            for frac in [0.0, 0.05, 0.3, 0.9] {
                let p = plan(n, seq_len, b64(frac));
                let val_len = ((n as f64 * frac) as usize).clamp(seq_len + 1, n - (seq_len + 1));
                assert_eq!(p.cut, n - val_len);
                let walk = |from: usize, to: usize| {
                    let mut starts = Vec::new();
                    let mut start = 0;
                    while start + seq_len < to - from {
                        starts.push(from + start);
                        start += seq_len;
                    }
                    starts
                };
                assert_eq!(p.train, walk(0, p.cut));
                assert_eq!(p.val, walk(p.cut, n));
            }
        }
    }
}

#[test]
fn line_about_the_loaded_model() {
    assert_eq!(
        loaded_line(&Config::tiny()),
        "loaded Vortexa (2 layers, 4 heads@32d, d_model 128)"
    );
}

#[test]
fn templates() {
    assert_eq!(apply_template("", "hi {prompt}"), "hi {prompt}");
    assert_eq!(apply_template("Q: {prompt}\nA:", "hi"), "Q: hi\nA:");
    assert_eq!(apply_template("no placeholder", "hi"), "no placeholder");
    assert_eq!(apply_template("{prompt}{prompt}", "{prompt}"), "{prompt}{prompt}");
}

fn complete(codec: &Codec, prompt: &str, answers: &[u32]) -> (Vec<u32>, String) {
    let mut c = Completion::begin(codec, prompt, answers.len());
    let mut fed = Vec::new();
    let mut sampled = 0;
    loop {
        match c.next() {
            Step::Feed(id) => {
                fed.push(id);
                c.fed();
            }
            Step::Sample => {
                c.sampled(answers[sampled]);
                sampled += 1;
            }
            Step::Done => break,
        }
    }
    assert_eq!(sampled, answers.len());
    (fed, c.text(codec))
}

#[test]
fn completions_feed_the_prompt_first() {
    let codec = Codec::new(None);
    assert_eq!(
        complete(&codec, "hi", &[33, 10]),
        (vec![104, 105, 33, 10], "hi!\n".to_string())
    );
    assert_eq!(complete(&codec, "", &[65]), (vec![10, 65], "\nA".to_string()));
    assert_eq!(complete(&codec, "é", &[]), (vec![195, 169], "é".to_string()));
}

#[test]
fn completions_include_the_prompt_and_replace_what_is_no_text() {
    let codec = Codec::new(None);
    let (_, text) = complete(&codec, "né", &[0xff, 65]);
    assert_eq!(text, "né\u{fffd}A");
    let tok = BpeTokenizer::from_json("{\"merges\":[[104,105,256]]}").unwrap();
    let codec = Codec::new(Some(tok));
    assert_eq!(complete(&codec, "hi", &[256]), (vec![256, 256], "hihi".to_string()));
}

#[test]
fn retention_forms() {
    assert_eq!(form_for(0, 10), Form::Parallel);
    assert_eq!(form_for(10, 10), Form::Parallel);
    assert_eq!(form_for(11, 10), Form::Parallel);
    assert_eq!(form_for(4, 10), Form::Chunkwise(4));
    assert_eq!(chunks(10, 4), [(0, 4), (4, 4), (8, 2)]);
    assert_eq!(chunks(24, 5), [(0, 5), (5, 5), (10, 5), (15, 5), (20, 4)]);
    assert_eq!(chunks(3, 0), [(0, 1), (1, 1), (2, 1)]);
    assert_eq!(chunks(3, 100), [(0, 3)]);
    assert_eq!(causal_exponents(3), [vec![0, 0, 0], vec![1, 0, 0], vec![2, 1, 0]]);
    assert_eq!(
        causal_mask(3),
        [vec![true, false, false], vec![true, true, false], vec![true, true, true]]
    );
    assert_eq!(row_exponents(3), [1, 2, 3]);
    assert_eq!(reverse_exponents(3), [2, 1, 0]);
}

/// One entry of the state, by stepping and by chunks that use the tables.
#[test]
fn chunkwise_state_matches_stepping() {
    let writes: Vec<i64> = vec![3, -1, 4, 1, -5, 9, 2, -6, 5, 3];
    let g: i64 = 3;
    let mut stepped = Vec::new();
    let mut s = 0i64;
    for w in &writes {
        s = g * s + w;
        stepped.push(s);
    }
    for chunk_len in 1..=10 {
        let mut state = 0i64;
        let mut rows = Vec::new();
        for (start, c) in chunks(writes.len(), chunk_len) {
            let expo = causal_exponents(c as u32);
            let mask = causal_mask(c as u32);
            let row = row_exponents(c as u32);
            let reverse = reverse_exponents(c as u32);
            for i in 0..c {
                let mut y = g.pow(row[i]) * state;
                for j in 0..c {
                    if mask[i][j] {
                        y += g.pow(expo[i][j]) * writes[start + j];
                    }
                }
                rows.push(y);
            }
            let mut next = g.pow(c as u32) * state;
            for j in 0..c {
                next += g.pow(reverse[j]) * writes[start + j];
            }
            state = next;
        }
        assert_eq!(rows, stepped, "chunks of {chunk_len}");
        assert_eq!(state, s);
    }
}

#[test]
fn arguments_are_checked() {
    assert_eq!(check_args(&Config::tiny(), 256), Ok(()));
    let e = check_args(&Config::tiny(), 257).unwrap_err();
    assert_eq!(e.message(), "seq_len 257 exceeds max_seq_len 256");
    let mut c = Config::tiny();
    c.num_layers = 0;
    let e = check_args(&c, 999).unwrap_err();
    assert_eq!(e, TrainError::Config(ConfigError::NoLayers));
    assert_eq!(e.message(), "need at least one layer");
}

#[test]
fn preparing_a_run() {
    let raw = b"the cat sat on the mat. ".repeat(1000);
    let mut config = Config::tiny();
    let p = prepare(&config, 16, b64(0.25), None, &raw).ok().unwrap();
    assert!(p.tokenizer.is_none());
    assert_eq!((p.train.len(), p.val.len()), (18000, 6000));
    assert_eq!(p.config.vocab_size, 256);

    config.tokenizer = "bpe".to_string();
    config.num_merges = 5;
    let p = prepare(&config, 16, b64(0.25), None, &raw).ok().unwrap();
    let tok = p.tokenizer.unwrap();
    assert_eq!(tok.num_merges(), 5);
    assert_eq!(p.config.vocab_size, 261);
    assert!(!p.reused);
    assert_eq!(p.train.len() + p.val.len(), tok.encode(&raw, &tok.data()).len());
    assert_eq!(tokenizer_line(&tok, false), "BPE tokenizer: 5 merges -> vocab 261");

    let cached = BpeTokenizer::from_json("{\"merges\":[[116,104,256]]}").unwrap();
    let p = prepare(&config, 16, b64(0.25), Some(cached), &raw).ok().unwrap();
    assert!(p.reused);
    assert_eq!(p.config.vocab_size, 257);
    assert_eq!(
        p.stored_tokenizer().unwrap().unwrap(),
        "{\"merges\":[[116,104,256]]}"
    );
    let tok = p.tokenizer.unwrap();
    assert_eq!(tokenizer_line(&tok, true), "reusing BPE tokenizer: 1 merges -> vocab 257");
}

#[test]
fn preparing_fails_on_too_little_data() {
    let config = Config::tiny();
    let e = prepare(&config, 16, b64(0.05), None, &vec![65; 1024]).err().unwrap();
    assert_eq!(e, TrainError::Data(DataError::TooSmall(1024)));
    assert_eq!(e.message(), "dataset too small (1024 tokens); need at least a few thousand");
    let e = prepare(&config, 16, b64(0.05), None, &vec![65; 4100]).err().unwrap();
    assert_eq!(e, TrainError::SplitTooSmall { train: 4, val: 4096, seq_len: 16 });
    assert_eq!(e.message(), "dataset too small: train 4 / val 4096 tokens for seq_len 16");
    assert!(prepare(&config, 16, b64(0.05), None, &vec![65; 4096 + 18]).is_ok());
    assert!(prepare(&config, 16, b64(0.05), None, &vec![65; 4096 + 17]).is_err());
}

fn lr(phase: LrPhase, peak: f64) -> f64 {
    match phase {
        LrPhase::Warmup { step, warmup } => peak * step as f64 / warmup as f64,
        LrPhase::Cosine { done, all } => {
            let progress = (done as f64 / all as f64).min(1.0);
            let floor = peak * 0.1;
            floor + 0.5 * (peak - floor) * (1.0 + (std::f64::consts::PI * progress).cos())
        }
    }
}

#[test]
fn learning_rate_schedule() {
    assert_eq!(scheduled_lr(1, 100, 10), LrPhase::Warmup { step: 1, warmup: 10 });
    assert_eq!(scheduled_lr(10, 100, 10), LrPhase::Warmup { step: 10, warmup: 10 });
    assert_eq!(scheduled_lr(11, 100, 10), LrPhase::Cosine { done: 1, all: 90 });
    assert_eq!(scheduled_lr(100, 100, 10), LrPhase::Cosine { done: 90, all: 90 });
    assert_eq!(scheduled_lr(1, 1, 200), LrPhase::Warmup { step: 1, warmup: 1 });
    assert_eq!(scheduled_lr(5, 5, 200), LrPhase::Cosine { done: 1, all: 1 });
    assert_eq!(scheduled_lr(2, 5, 0), LrPhase::Cosine { done: 1, all: 4 });
    assert_eq!(scheduled_lr(9, 5, 2), LrPhase::Cosine { done: 3, all: 3 });
    assert_eq!(scheduled_lr(3, 1, 9), LrPhase::Cosine { done: 1, all: 1 });
    assert_eq!(scheduled_lr(0, 0, 9), LrPhase::Warmup { step: 0, warmup: 1 });
    for step in 11..120 {
        let (now, then) = (scheduled_lr(step, 100, 10), scheduled_lr(step + 1, 100, 10));
        assert!(lr(then, 1e-3) <= lr(now, 1e-3));
    }
    assert_eq!(lr(scheduled_lr(10, 100, 10), 1e-3), 1e-3);
    assert!((lr(scheduled_lr(100, 100, 10), 1e-3) - 1e-4).abs() < 1e-12);
}

fn schedule(steps: usize, verbose: bool) -> Schedule {
    Schedule { steps, warmup_steps: 2, log_every: 2, val_every: 3, save_every: 4, verbose }
}

#[test]
fn run_does_what_is_due() {
    let mut run = TrainRun::begin(schedule(6, true), 42);
    let mut seen = Vec::new();
    loop {
        match run.next(false) {
            Action::Learn { step, lr } => {
                assert_eq!(lr, scheduled_lr(step, 6, 2));
                run.report(Binary32 { bits: 0 }, Binary64 { bits: 0 });
                assert_eq!((run.progress.step, run.progress.total), (step, 6));
                seen.push(format!("{step}"));
            }
            Action::Log => seen.push("log".to_string()),
            Action::Validate => seen.push("val".to_string()),
            Action::Save => seen.push("save".to_string()),
            Action::Finish => break,
        }
    }
    assert_eq!(
        seen,
        ["1", "2", "log", "3", "val", "4", "log", "save", "5", "6", "log", "val", "save"]
    );
    assert!(run.progress.done);
    assert_eq!(run.next(false), Action::Finish);
}

#[test]
fn run_stops_between_steps() {
    let mut run = TrainRun::begin(schedule(6, false), 42);
    let mut learned = 0;
    while learned < 3 {
        if let Action::Learn { .. } = run.next(false) {
            learned += 1;
        }
    }
    // What is due after the third step is still done.
    assert_eq!(run.next(true), Action::Validate);
    assert!(!run.progress.done);
    assert_eq!(run.next(true), Action::Finish);
    assert_eq!(run.stage, Stage::Over);
    assert!(run.progress.done);
    let mut none = TrainRun::begin(schedule(0, true), 42);
    assert_eq!(none.next(false), Action::Finish);
}

#[test]
fn runs_with_one_seed_sample_the_same_batches() {
    let ds = ByteDataset::from_tokens((0..5000).collect()).unwrap();
    let mut a = TrainRun::begin(schedule(6, false), 1);
    let mut b = TrainRun::begin(schedule(6, false), 1);
    let mut c = TrainRun::begin(schedule(6, false), 2);
    for _ in 0..3 {
        let (x, y) = a.sample(&ds, 4, 3);
        assert_eq!(y[0], x[0] + 1);
        assert_eq!(b.sample(&ds, 4, 3), (x.clone(), y));
        assert_ne!(c.sample(&ds, 4, 3).0, x);
    }
    let mut rng = StdRng::seed_from_u64(1);
    let fresh = TrainRun::begin(schedule(6, false), 1).sample(&ds, 4, 3);
    assert_eq!(fresh, ds.random_batch(&mut rng, 4, 3));
}

#[test]
fn lines_of_a_run() {
    assert!(clips(b64(1.0)) && !clips(b64(0.0)) && !clips(b64(-1.0)));
    assert_eq!(dataset_line(10, 5, true), "dataset: 15 total | train 10 | val 5 tokens (BPE)");
    assert_eq!(dataset_line(10, 5, false), "dataset: 15 total | train 10 | val 5 tokens (bytes)");
    assert_eq!(
        schedule_line(200, Some("1.00")),
        "schedule: 200 warmup steps, cosine decay to 10%, grad clip 1.00"
    );
    assert_eq!(
        schedule_line(0, None),
        "schedule: 0 warmup steps, cosine decay to 10%, grad clip off"
    );
    assert_eq!(done_line(Platform::Unix, "out"), "done. checkpoint saved to out/model.safetensors");
    let line = done_line(Platform::Windows, "out");
    assert_eq!(line, "done. checkpoint saved to out\\model.safetensors");
}

#[test]
fn plain_download() {
    let mut d = Download::begin(Platform::Unix, dataset(1), "data");
    assert_eq!(d.path, "data/alice.txt");
    assert_eq!(d.target, "data/alice.txt");
    assert_eq!(d.url(), "https://www.gutenberg.org/files/11/11-0.txt");
    d.responded(Some("1000"));
    assert_eq!(d.progress.total, 1000);
    assert!(d.proceed(false));
    d.received(400);
    assert_eq!(d.progress.percent(), 40);
    assert!(d.proceed(false));
    d.received(0);
    assert_eq!(d.phase, Phase::Finished);
    assert!(d.progress.finished && !d.progress.error);
}

#[test]
fn parquet_download() {
    let i = (0..DATASET_COUNT).find(|i| dataset(*i).id == "finewiki").unwrap();
    let mut d = Download::begin(Platform::Unix, dataset(i), "data");
    assert_eq!(d.path, "data/finewiki.txt");
    assert_eq!(d.target, "data/finewiki.parquet.tmp");
    d.responded(None);
    assert_eq!(d.progress.total, 0);
    d.received(7);
    d.received(0);
    assert_eq!(d.phase, Phase::Converting);
    assert!(!d.progress.finished);
    d.converted();
    assert_eq!(d.phase, Phase::Finished);
    assert_eq!(d.progress.done, 7);
}

#[test]
fn cancelled_download() {
    let mut d = Download::begin(Platform::Unix, dataset(0), "data");
    d.responded(Some("not a number"));
    assert_eq!(d.progress.total, 0);
    assert!(!d.proceed(true));
    assert_eq!(d.phase, Phase::Cancelled);
    assert!(!d.progress.finished);
}

#[test]
fn rows_become_paragraphs() {
    let row = vec![
        ("title".to_string(), FieldValue::Str("skip".to_string())),
        ("text".to_string(), FieldValue::Str("one".to_string())),
        ("text".to_string(), FieldValue::Bytes("zwei".as_bytes().to_vec())),
        ("text".to_string(), FieldValue::Bytes(vec![0xff])),
        ("text".to_string(), FieldValue::Str(String::new())),
        ("text".to_string(), FieldValue::Other),
    ];
    assert_eq!(row_text(&row, "text"), "one\n\nzwei\n\n");
    assert_eq!(row_text(&row, "none"), "");
}

#[test]
fn text_files_are_listed_in_order() {
    let names: Vec<String> =
        ["b.txt", "x.md", "a.txt", ".txt", "c.TXT"].iter().map(|s| s.to_string()).collect();
    assert_eq!(data_files(names), [".txt", "a.txt", "b.txt"]);
    assert!(data_files(Vec::new()).is_empty());
}
