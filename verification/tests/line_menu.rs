use vortexa::config::Config;
use vortexa::device::{
    any_gpu, backend_report, choose_backend, describe, device_name, is_gpu_available, pick_device,
    report_backends, show_answer, Backend, DeviceError,
};
use vortexa::ui::{
    about, ask_default, ask_parse, banner, choose_entry, config_for_checkpoint, continue_flow,
    continuing_line, device_flow, eval_flow, loaded_line, menu, question_with_default,
    sanitize_tokenizer, train_flow, Choice, Found,
};

#[test]
fn menu_box_is_aligned() {
    for name in ["CPU", "CUDA", "Metal", "", "a very long device name — ä"] {
        let lines = menu(name);
        assert_eq!(lines.len(), 9);
        let width = lines[0].chars().count();
        assert!(lines.iter().all(|l| l.chars().count() == width), "{lines:#?}");
    }
    assert_eq!(
        menu("CPU"),
        [
            "  ╭──── VORTEXA ─────╮",
            "  │ [1] Train        │",
            "  │ [2] Continue     │",
            "  │ [3] Chat / Ask   │",
            "  │ [4] Evaluate     │",
            "  │ [5] Device : CPU │",
            "  │ [6] About        │",
            "  │ [0] Exit         │",
            "  ╰──────────────────╯",
        ]
    );
}

#[test]
fn banner_letters_align() {
    let lines = banner("0.3.1");
    assert_eq!(lines.len(), 7);
    for l in &lines[..5] {
        assert_eq!(l.len(), 6 + 48);
    }
    assert_eq!(lines[0], "      ##  ##  ####  ####   ###### ###### ##  ##  ###  ");
    assert_eq!(lines[5], format!("      {}v0.3.1", " ".repeat(24 - 3)));
    assert_eq!(lines[6], "      a tiny RetNet language model · CPU / GPU · Rust");
    let long = "x".repeat(60);
    assert_eq!(banner(&long)[5], format!("      v{long}"));
}

#[test]
fn menu_choices() {
    let expected = [
        ("1", Choice::Train),
        ("2", Choice::Continue),
        ("3", Choice::Chat),
        ("4", Choice::Eval),
        ("5", Choice::Device),
        ("6", Choice::About),
        ("0", Choice::Exit),
        ("q", Choice::Exit),
        ("quit", Choice::Exit),
        ("exit", Choice::Exit),
        ("7", Choice::Unknown),
        ("", Choice::Unknown),
        ("Q", Choice::Unknown),
    ];
    for (answer, choice) in expected {
        assert_eq!(choose_entry(answer), choice, "{answer}");
    }
}

#[test]
fn answers_and_defaults() {
    assert_eq!(ask_default("", "bpe"), "bpe");
    assert_eq!(ask_default("bytes", "bpe"), "bytes");
    assert_eq!(ask_parse("17", 5), (17, None));
    assert_eq!(ask_parse("", 5), (5, Some("  (using default 5)".to_string())));
    assert_eq!(ask_parse("-1", 5).0, 5);
    assert_eq!(question_with_default("tokenizer", "bpe"), "tokenizer [bpe]");
    for (s, t) in [("bytes", "bytes"), ("BYTE", "bytes"), ("Bytes", "bytes"), ("bpe", "bpe"), ("", "bpe"), ("xyz", "bpe")] {
        assert_eq!(sanitize_tokenizer(s), t);
    }
}

#[test]
fn flows_build_their_arguments() {
    let a = train_flow("d.txt", 7, "Byte", "out", "cpu");
    assert_eq!((a.data.as_str(), a.out_dir.as_str(), a.steps), ("d.txt", "out", 7));
    assert_eq!((a.batch_size, a.seq_len, a.warmup_steps, a.seed), (16, 256, 200, 42));
    assert_eq!(a.lr.value.bits, 1e-3f64.to_bits());
    assert_eq!(a.lr.text, 1e-3f64.to_string());
    assert_eq!(a.config.tokenizer, "bytes");
    assert!(a.config.validate().is_ok());
    assert!(a.resume.is_none());

    let a = continue_flow("ck", 5000, "d.txt", "auto", Config::tiny());
    assert_eq!((a.batch_size, a.seq_len, a.warmup_steps, a.steps), (16, 128, 100, 5000));
    assert_eq!(a.lr.value.bits, 3e-4f64.to_bits());
    assert_eq!(a.lr.text, 3e-4f64.to_string());
    assert_eq!(a.resume.as_deref(), Some("ck"));
    assert_eq!(a.out_dir, "ck");
    assert_eq!(a.config.d_model, 128);

    let e = eval_flow("ck", "d.txt", 256, "auto");
    assert_eq!((e.checkpoint.as_str(), e.data.as_str(), e.seq_len), ("ck", "d.txt", 256));
    assert_eq!(e.val_frac.bits, 0.05f64.to_bits());
}

#[test]
fn lines_about_models() {
    let c = Config::larger();
    assert_eq!(continuing_line(&c), "continuing: 4 layer(s) x 8 head(s)@32d, vocab 256, bytes");
    assert_eq!(loaded_line(&c), "loaded Vortexa | 4 layers x 8 heads @32d | vocab 256");
    assert_eq!(
        about("0.3.1", &Backend::Cpu, false),
        [
            "  Vortexa v0.3.1",
            "  RetNet-based language model (Rust + Candle)",
            "  backend: CPU/GPU | auto-detected device: CPU",
            "  checkpoint present: false",
        ]
    );
    let (c, said) = config_for_checkpoint(Found::Nothing, "ck/model_config.json");
    assert_eq!(c.d_model, 256);
    assert_eq!(said.unwrap(), "no config at ck/model_config.json — using default config");
    let (_, said) = config_for_checkpoint(Found::Unreadable, "p");
    assert_eq!(said.unwrap(), "could not parse p — using default config");
    let (c, said) = config_for_checkpoint(Found::Architecture(Config::tiny()), "p");
    assert_eq!((c.d_model, said), (128, None));
}

fn picked(pref: &str, cuda: bool, metal: bool) -> Option<Backend> {
    choose_backend(pref, cuda, metal).ok()
}

#[test]
fn backends_are_chosen() {
    for pref in ["auto", "", " AUTO\n"] {
        assert_eq!(picked(pref, true, true), Some(Backend::Cuda));
        assert_eq!(picked(pref, false, true), Some(Backend::Metal));
        assert_eq!(picked(pref, false, false), Some(Backend::Cpu));
    }
    assert_eq!(picked("Cpu", true, true), Some(Backend::Cpu));
    assert_eq!(picked("cuda", true, false), Some(Backend::Cuda));
    assert_eq!(picked(" METAL ", false, true), Some(Backend::Metal));
}

#[test]
fn missing_and_unknown_backends_are_errors() {
    let e = choose_backend("cuda", false, true).unwrap_err();
    assert!(matches!(e, DeviceError::Missing(Backend::Cuda)));
    assert_eq!(e.message(), "CUDA is not available");
    let e = choose_backend("metal", true, false).unwrap_err();
    assert!(matches!(e, DeviceError::Missing(Backend::Metal)));
    let e = choose_backend(" TPU ", true, true).unwrap_err();
    assert_eq!(e.message(), "unknown device 'tpu' — use one of: auto, cpu, cuda, metal");
    assert!(matches!(&e, DeviceError::Unknown(n) if n == "tpu"));
}

#[test]
fn this_machine_has_a_backend() {
    let cuda = candle_core::utils::cuda_is_available();
    let metal = candle_core::utils::metal_is_available();
    assert_eq!(pick_device("auto").ok(), picked("auto", cuda, metal));
    assert_eq!(pick_device("cpu").ok(), Some(Backend::Cpu));
    assert!(pick_device("nothing").is_err());
    assert_eq!(backend_report(), report_backends(cuda, metal));
    assert_eq!(report_backends(true, true), "CPU / CUDA / Metal");
    assert_eq!(report_backends(false, false), "CPU");
    assert_eq!(is_gpu_available(), any_gpu(cuda, metal));
    assert!(any_gpu(false, true) && !any_gpu(false, false));
    assert_eq!(device_name("cpu"), "CPU");
    assert_eq!(device_name("tpu"), "tpu");
    assert_eq!(show_answer("auto", &Ok(Backend::Metal)), "Metal");
    assert_eq!(describe(&Backend::Cuda), "CUDA");
}

#[test]
fn device_flow_keeps_the_preference_on_errors() {
    let r = device_flow("auto", "cpu", &choose_backend("cpu", false, false));
    assert_eq!(r, ("cpu".to_string(), "device set: CPU (cpu)".to_string()));
    let r = device_flow("auto", "x", &choose_backend("x", false, false));
    assert_eq!(r.0, "auto");
    assert_eq!(r.1, "unknown device 'x' — use one of: auto, cpu, cuda, metal");
}
