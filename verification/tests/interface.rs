use ratatui::backend::TestBackend;
use ratatui::text::Text;
use ratatui::widgets::Paragraph;
use ratatui::Terminal;

use vortexa::binary32::Binary32;
use vortexa::binary64::Binary64;
use vortexa::config::Config;
use vortexa::datasets::{dataset, DownloadProgress, DATASET_COUNT};
use vortexa::screens::{
    about_text, banner_text, chat_view, dataset_lines, datasets_status, eval_text, menu_item,
    menu_status, settings_hint, settings_lines, train_form_hint, train_run_view,
};
use vortexa::settings::{
    apply_settings, entries_from_settings, template, Real, Reals, Settings, TEMPLATE_COUNT,
};
use vortexa::train::TrainProgress;
use vortexa::tui::{config_from_checkpoint, App, Effect, Key, Screen, MENU_COUNT};

fn app() -> App {
    App::new(Settings::default(), Vec::new())
}

fn reals_of(s: &Settings) -> Reals {
    Reals {
        lr: Some(s.lr.copy()),
        decay_min: Some(s.decay_min.copy()),
        decay_max: Some(s.decay_max.copy()),
        temperature: Some(s.temperature.copy()),
    }
}

fn read_reals(a: &App) -> Reals {
    let read = |text: &String| {
        text.parse::<f64>().ok().map(|x| Real {
            value: Binary64 { bits: x.to_bits() },
            text: x.to_string(),
        })
    };
    let rows = a.real_rows();
    Reals {
        lr: read(&rows.0),
        decay_min: read(&rows.1),
        decay_max: read(&rows.2),
        temperature: read(&rows.3),
    }
}

fn press(a: &mut App, key: Key) -> Effect {
    let reals = read_reals(a);
    a.on_key(key, false, a.data_files.clone(), &reals)
}

fn type_text(a: &mut App, text: &str) {
    for c in text.chars() {
        press(a, Key::Char(c));
    }
}

/// Whatever the screen shows, as text.
fn shown(a: &mut App, progress: &TrainProgress) -> String {
    match a.screen {
        Screen::Menu => {
            let items: Vec<&str> = (0..MENU_COUNT).map(menu_item).collect();
            format!("{}\n{}\n{}", banner_text("0.3.1"), items.join("\n"), menu_status("CPU", "0.3.1"))
        }
        Screen::TrainForm => format!("{}\n{}\n{}", a.train_data, a.train_steps, train_form_hint(a)),
        Screen::TrainRun => {
            let loss = format!("{:.3}", f32::from_bits(progress.loss.bits));
            let rate = format!("{:.1}", f64::from_bits(progress.tok_s.bits) / 1e3);
            let v = train_run_view(progress, &loss, &rate);
            format!("{}%\n{}\n{}", v.percent, v.label, v.status)
        }
        Screen::Chat => {
            let v = chat_view(a, 10);
            format!("{}\n{}", v.lines.join("\n"), a.chat_input)
        }
        Screen::Settings => format!("{}\n{}", settings_lines(a).join("\n"), settings_hint(a)),
        Screen::Datasets => {
            let p = DownloadProgress::default();
            let lines = dataset_lines(a, &vec![false; DATASET_COUNT]);
            format!("{}\n{}", lines.join("\n"), datasets_status(a, p, "0.0", "0"))
        }
        Screen::Eval => eval_text("CPU"),
        Screen::About => about_text("0.3.1"),
    }
}

fn render_with(a: &mut App, progress: &TrainProgress) -> bool {
    let text = shown(a, progress);
    let backend = TestBackend::new(90, 28);
    let mut terminal = Terminal::new(backend).unwrap();
    terminal.draw(|f| f.render_widget(Paragraph::new(Text::raw(text)), f.size())).unwrap();
    terminal
        .backend()
        .buffer()
        .content()
        .iter()
        .any(|c| !c.symbol().is_empty() && c.symbol().trim() != "")
}

fn render(a: &mut App) -> bool {
    render_with(a, &TrainProgress::default())
}

#[test]
fn menu_renders() {
    let mut app = app();
    app.screen = Screen::Menu;
    assert!(render(&mut app));
}

#[test]
fn settings_renders() {
    let mut app = app();
    app.screen = Screen::Settings;
    assert!(render(&mut app));
}

#[test]
fn train_form_renders() {
    let mut app = app();
    app.screen = Screen::TrainForm;
    assert!(render(&mut app));
}

#[test]
fn train_run_renders() {
    let mut app = app();
    app.screen = Screen::TrainRun;
    let mut g = TrainProgress::default();
    g.step = 50;
    g.total = 100;
    g.loss = Binary32 { bits: 2.5f32.to_bits() };
    g.tok_s = Binary64 { bits: 8000.0f64.to_bits() };
    assert!(render_with(&mut app, &g));
    assert_eq!(
        shown(&mut app, &g),
        "50%\nstep 50/100   loss 2.500   8.0k tok/s\nStatus: running   ·   Esc or q to stop"
    );
}

#[test]
fn datasets_renders() {
    let mut app = app();
    app.screen = Screen::Datasets;
    assert!(render(&mut app));
}

#[test]
fn chat_renders_and_scrolls() {
    let mut app = app();
    app.screen = Screen::Chat;
    app.chat_input = "hello".to_string();
    let effect = app.submit_chat();
    assert!(matches!(effect, Effect::Ask(p) if p == "hello"));
    app.model_loaded(Some("reading checkpoints/model_config.json"));
    assert_eq!(app.chat_history.len(), 1);
    assert!(app.chat_scroll_pending);
    assert!(render(&mut app));
}

#[test]
fn about_renders() {
    let mut app = app();
    app.screen = Screen::About;
    assert!(render(&mut app));
}

#[test]
fn settings_roundtrip() {
    let mut s = Settings::default();
    s.num_merges = 999;
    let entries = entries_from_settings(&s);
    let back = apply_settings(&entries, &Settings::default(), &reals_of(&s));
    assert_eq!(back.num_merges, 999);
}

#[test]
fn settings_roundtrip_keeps_everything() {
    let mut s = Settings::default();
    s.device = "cuda".to_string();
    s.data_file = "x.txt".to_string();
    s.steps = 1;
    s.batch_size = 2;
    s.seq_len = 3;
    s.tokenizer = "bytes".to_string();
    s.chunk_len = 4;
    s.d_model = 5;
    s.layers = 6;
    s.heads = 7;
    s.head_dim = 8;
    s.ffn = 9;
    s.chat_template = "{prompt}".to_string();
    s.top_k = 10;
    s.tokens = 11;
    s.lr = Real { value: Binary64 { bits: 0.25f64.to_bits() }, text: "0.25".to_string() };
    let entries = entries_from_settings(&s);
    assert_eq!(entries.len(), 21);
    let back = apply_settings(&entries, &Settings::default(), &reals_of(&s));
    assert_eq!(format!("{back:?}"), format!("{s:?}"));
}

#[test]
fn default_settings_show_as_small() {
    let s = Settings::default();
    assert_eq!(s.lr.value.bits, 6e-4f64.to_bits());
    assert_eq!(s.lr.text, 6e-4f64.to_string());
    assert_eq!(s.decay_min.value.bits, 0.969f64.to_bits());
    assert_eq!(s.decay_min.text, 0.969f64.to_string());
    assert_eq!(s.decay_max.value.bits, 0.9995f64.to_bits());
    assert_eq!(s.decay_max.text, 0.9995f64.to_string());
    assert_eq!(s.temperature.value.bits, 0.4f64.to_bits());
    assert_eq!(s.temperature.text, 0.4f64.to_string());
    let e = entries_from_settings(&s);
    assert_eq!((e[0].label.as_str(), e[0].value.as_str()), ("Model template", "small"));
    assert_eq!((e[6].label.as_str(), e[6].value.as_str()), ("Learning rate", "0.0006"));
    assert_eq!((e[20].label.as_str(), e[20].value.as_str()), ("Answer tokens", "120"));
    assert!(s.build_config().validate().is_ok());
    assert_eq!(s.build_config().tokenizer, "bpe");
}

#[test]
fn templates_cycle_and_are_shown() {
    let mut s = Settings::default();
    let mut seen = Vec::new();
    for _ in 0..5 {
        s.cycle_template();
        assert_eq!(entries_from_settings(&s)[0].value, s.model_template);
        assert!(s.build_config().validate().is_ok());
        seen.push(s.model_template.clone());
    }
    assert_eq!(seen, ["medium", "large", "tiny", "small", "medium"]);
    s.model_template = "custom".to_string();
    s.chunk_len = 7;
    s.cycle_template();
    assert_eq!((s.model_template.as_str(), s.chunk_len, s.d_model), ("small", 64, 256));
    for i in 0..TEMPLATE_COUNT {
        let t = template(i);
        assert_eq!(t.d_model, t.heads * t.head_dim);
    }
}

#[test]
fn devices_cycle_from_the_menu() {
    let mut a = app();
    a.menu_index = 6;
    let mut seen = Vec::new();
    for _ in 0..4 {
        assert!(matches!(press(&mut a, Key::Enter), Effect::SaveSettings));
        seen.push(a.settings.device.clone());
    }
    assert_eq!(seen, ["cpu", "cuda", "metal", "auto"]);
    assert_eq!(a.screen, Screen::Menu);
}

#[test]
fn menu_selection_stays_inside() {
    let mut a = app();
    press(&mut a, Key::Up);
    assert_eq!(a.menu_index, 0);
    for _ in 0..20 {
        press(&mut a, Key::Char('j'));
    }
    assert_eq!(a.menu_index, MENU_COUNT - 1);
    assert_eq!(menu_item(a.menu_index), "Exit");
    assert!(matches!(press(&mut a, Key::Enter), Effect::Quit));
    assert!(a.quit);
}

#[test]
fn ctrl_c_quits_from_anywhere() {
    for screen in [Screen::Menu, Screen::Chat, Screen::TrainRun, Screen::Settings, Screen::Eval] {
        let mut a = app();
        a.screen = screen;
        let reals = read_reals(&a);
        assert!(matches!(a.on_key(Key::Char('c'), true, Vec::new(), &reals), Effect::Quit));
        assert!(a.quit);
    }
}

#[test]
fn escape_goes_back() {
    for screen in [Screen::TrainForm, Screen::Chat, Screen::Settings, Screen::Eval, Screen::About] {
        let mut a = app();
        a.screen = screen;
        assert!(matches!(press(&mut a, Key::Esc), Effect::Nothing));
        assert_eq!(a.screen, Screen::Menu);
        assert!(!a.quit);
    }
    let mut a = app();
    a.screen = Screen::TrainRun;
    assert!(matches!(press(&mut a, Key::Char('q')), Effect::StopTraining));
    assert_eq!(a.screen, Screen::Menu);
    a.screen = Screen::Datasets;
    assert!(matches!(press(&mut a, Key::Enter), Effect::StartDownload));
    assert!(a.downloading);
    assert!(matches!(press(&mut a, Key::Esc), Effect::StopDownload));
    assert!(!a.downloading);
    assert_eq!(a.screen, Screen::Menu);
    assert!(matches!(press(&mut a, Key::Esc), Effect::Quit));
}

#[test]
fn editing_a_row() {
    let mut a = app();
    a.menu_index = 5;
    press(&mut a, Key::Enter);
    assert_eq!(a.screen, Screen::Settings);
    for _ in 0..3 {
        press(&mut a, Key::Down);
    }
    press(&mut a, Key::Enter);
    assert!(a.settings_editing);
    assert_eq!(a.edit_buffer, "20000");
    press(&mut a, Key::Backspace);
    assert!(settings_lines(&a).contains(&"Steps: 2000".to_string()));
    press(&mut a, Key::Esc);
    assert_eq!(a.settings.steps, 20000);
    press(&mut a, Key::Enter);
    press(&mut a, Key::Backspace);
    assert!(matches!(press(&mut a, Key::Enter), Effect::SaveSettings));
    assert_eq!(a.settings.steps, 2000);
    assert_eq!(a.settings.model_template, "small");
    assert!(!a.settings_editing);
}

#[test]
fn invalid_edits_fall_back() {
    let mut a = app();
    a.screen = Screen::Settings;
    a.settings_selected = 4;
    press(&mut a, Key::Enter);
    type_text(&mut a, "x");
    press(&mut a, Key::Enter);
    assert_eq!(a.settings.batch_size, 16);
    assert_eq!(a.settings_entries[4].value, "16");
    a.settings_selected = 6;
    press(&mut a, Key::Enter);
    type_text(&mut a, "zz");
    press(&mut a, Key::Enter);
    assert_eq!(a.settings.lr.text, "0.0006");
}

#[test]
fn real_rows_are_committed() {
    let mut a = app();
    a.screen = Screen::Settings;
    a.settings_selected = 18;
    press(&mut a, Key::Enter);
    for _ in 0..3 {
        press(&mut a, Key::Backspace);
    }
    type_text(&mut a, "1.50");
    press(&mut a, Key::Enter);
    assert_eq!(a.settings.temperature.value.bits, 1.5f64.to_bits());
    assert_eq!(a.settings_entries[18].value, "1.5");
}

#[test]
fn editing_the_architecture_makes_it_custom() {
    for row in 9..16 {
        let mut a = app();
        a.screen = Screen::Settings;
        a.settings_selected = row;
        press(&mut a, Key::Enter);
        press(&mut a, Key::Enter);
        let custom = (10..=14).contains(&row);
        assert_eq!(a.settings.model_template == "custom", custom, "row {row}");
        assert_eq!(a.settings_entries[0].value == "custom", custom, "row {row}");
    }
}

#[test]
fn first_row_cycles_templates() {
    let mut a = app();
    a.screen = Screen::Settings;
    assert!(matches!(press(&mut a, Key::Right), Effect::SaveSettings));
    assert_eq!(a.settings.model_template, "medium");
    assert_eq!(a.settings_entries[10].value, "384");
    assert!(!a.settings_editing);
    assert!(settings_hint(&a).starts_with("Enter or ←/→: cycle size template"));
    press(&mut a, Key::Down);
    assert!(settings_hint(&a).starts_with("Enter: edit value"));
}

#[test]
fn train_form_cycles_data_files() {
    let files = vec!["a.txt".to_string(), "b.txt".to_string(), "c.txt".to_string()];
    let mut a = App::new(Settings::default(), files.clone());
    press(&mut a, Key::Enter);
    assert_eq!(a.screen, Screen::TrainForm);
    assert_eq!(a.train_data, "data/a.txt");
    assert_eq!(a.train_steps, "20000");
    assert_eq!(train_form_hint(&a), "available: a.txt, b.txt, c.txt");
    press(&mut a, Key::Up);
    assert_eq!(a.train_data, "data/c.txt");
    press(&mut a, Key::Down);
    assert_eq!(a.train_data, "data/a.txt");
    press(&mut a, Key::Char('j'));
    assert_eq!(a.train_data, "data/b.txt");
    press(&mut a, Key::Tab);
    type_text(&mut a, "j5x");
    assert_eq!(a.train_steps, "200005");
    press(&mut a, Key::Backspace);
    press(&mut a, Key::Tab);
    type_text(&mut a, "x");
    assert_eq!(a.train_data, "data/b.txtx");
    press(&mut a, Key::Enter);
    assert_eq!(a.train_data, "data/a.txt");
    assert_eq!(a.screen, Screen::TrainRun);
}

#[test]
fn typed_path_to_anywhere_is_used() {
    let mut a = App::new(Settings::default(), vec!["a.txt".to_string()]);
    a.screen = Screen::TrainForm;
    a.train_data = "/tmp/books.txt".to_string();
    assert!(matches!(press(&mut a, Key::Enter), Effect::StartTraining));
    assert_eq!(a.train_data, "/tmp/books.txt");
    assert_eq!(a.training_args(None).data, "/tmp/books.txt");
    assert!(a.training_args(None).resume.is_none());
    a.screen = Screen::TrainForm;
    a.train_data = "data/gone.txt".to_string();
    press(&mut a, Key::Enter);
    assert_eq!(a.training_args(None).data, "data/a.txt");
}

#[test]
fn train_form_without_files() {
    let mut a = app();
    a.menu_index = 1;
    press(&mut a, Key::Enter);
    assert_eq!(a.train_steps, "5000");
    assert_eq!(a.train_data, "data/input.txt");
    press(&mut a, Key::Down);
    assert_eq!(a.train_data, "data/input.txt");
    assert_eq!(train_form_hint(&a), "no .txt files in data/ yet (use the Datasets menu)");
}

#[test]
fn training_args_from_the_form() {
    let mut a = app();
    a.train_data = "  ".to_string();
    a.train_steps = " 77 ".to_string();
    let args = a.training_args(None);
    assert_eq!(args.data, "data/input.txt");
    assert_eq!(args.steps, 77);
    assert_eq!(args.out_dir, "checkpoints");
    assert!(args.resume.is_none());
    assert_eq!(args.config.tokenizer, "bpe");
    assert_eq!(args.config.max_seq_len, 256);
    assert_eq!(args.val_frac.bits, 0.05f64.to_bits());
    assert_eq!(args.grad_clip.bits, 1.0f64.to_bits());
    assert_eq!((args.log_every, args.val_every, args.val_batches, args.save_every), (50, 500, 4, 1000));
    a.resuming = true;
    a.train_steps = "none".to_string();
    let args = a.training_args(None);
    assert_eq!(args.steps, 20000);
    assert_eq!(args.resume.as_deref(), Some("checkpoints"));
    assert_eq!(args.config.tokenizer, "bytes");
    assert_eq!(a.training_args(Some(Config::tiny())).config.d_model, 128);
    assert_eq!(config_from_checkpoint(None).d_model, 256);
}

#[test]
fn chat_flow_and_scrolling() {
    let mut a = app();
    a.menu_index = 2;
    assert!(matches!(press(&mut a, Key::Enter), Effect::LoadModel));
    a.model_loaded(None);
    press(&mut a, Key::Esc);
    assert!(matches!(press(&mut a, Key::Enter), Effect::Nothing));
    type_text(&mut a, "  ");
    assert!(matches!(press(&mut a, Key::Enter), Effect::Nothing));
    assert_eq!(a.chat_input, "  ");
    type_text(&mut a, "hi");
    let effect = press(&mut a, Key::Enter);
    assert!(matches!(&effect, Effect::Ask(p) if p == "hi"));
    assert_eq!(a.chat_input, "");
    assert_eq!(a.question("hi"), "Q: hi\nA:");
    a.answered("hi", Ok("Q: hi\nA: there"));
    a.answered("hi", Err("broken"));
    let v = chat_view(&mut a, 3);
    assert_eq!(v.lines, ["You: hi", "", "Q: hi", "A: there", "[error] broken"]);
    assert_eq!(v.scroll, 2);
    assert!(!a.chat_scroll_pending);
    press(&mut a, Key::PageDown);
    assert_eq!(a.chat_scroll, 5);
    press(&mut a, Key::Char('k'));
    assert_eq!(a.chat_scroll, 2);
    press(&mut a, Key::PageUp);
    assert_eq!(a.chat_scroll, 0);
    press(&mut a, Key::PageUp);
    assert_eq!(a.chat_scroll, 0);
    press(&mut a, Key::Char('j'));
    assert_eq!(a.chat_scroll, 3);
    a.chat_scroll = usize::MAX;
    a.chat_scroll_pending = true;
    press(&mut a, Key::Char('j'));
    assert_eq!(a.chat_scroll, usize::MAX);
    assert!(!a.chat_scroll_pending);
    assert_eq!(chat_view(&mut a, 3).scroll, u16::MAX);
}

#[test]
fn training_screen_states() {
    let mut p = TrainProgress::default();
    let v = train_run_view(&p, "", "");
    assert_eq!((v.percent, v.label.as_str()), (0, "preparing data..."));
    assert_eq!(v.status, "Preparing dataset / tokenizer...   ·   Esc to stop");
    p.total = 8;
    p.step = 8;
    p.done = true;
    let v = train_run_view(&p, "1.000", "2.0");
    assert_eq!((v.percent, v.status.as_str()), (100, "Status: finished   ·   Esc to return"));
    p.fail("no data");
    let v = train_run_view(&p, "1.000", "2.0");
    assert_eq!((v.label.as_str(), v.status.as_str()), ("error", "Error: no data"));
}

#[test]
fn datasets_screen() {
    let mut a = app();
    a.screen = Screen::Datasets;
    press(&mut a, Key::Down);
    let lines = dataset_lines(&a, &vec![true, false, false, false]);
    for i in 0..DATASET_COUNT {
        let d = dataset(i);
        let marker = if i == 1 { "> " } else { "  " };
        let tag = if i == 0 { "  [downloaded]" } else { "" };
        assert_eq!(
            lines[i],
            format!("{marker}{:<20} {:<9} {}{}", d.name, d.size_hint, d.desc, tag)
        );
    }
    let mut p = DownloadProgress::default();
    assert_eq!(
        datasets_status(&a, p, "0.0", "0"),
        "Enter: download to data/   ·   ↑/↓ select   ·   Esc back"
    );
    press(&mut a, Key::Enter);
    assert_eq!(
        datasets_status(&a, p, "0.5", "1.25"),
        "Downloading Alice in Wonderland ... 0.5 / 1.25 MB   ·   Esc to cancel"
    );
    p.finished = true;
    assert_eq!(datasets_status(&a, p, "", ""), "Download complete   ·   Esc to go back");
    for _ in 0..9 {
        press(&mut a, Key::Down);
    }
    assert_eq!(a.dataset_index, DATASET_COUNT - 1);
}

#[test]
fn fixed_screens() {
    assert_eq!(
        menu_status("CPU", "0.3.1"),
        "Device: CPU   ·   v0.3.1   ·   ↑/↓ or j/k move, Enter select, q quit"
    );
    assert!(banner_text("9.9").contains("                           v9.9\n      a tiny RetNet model · CPU / GPU · Rust\n"));
    assert!(eval_text("CUDA").contains("Device: CUDA"));
    assert!(about_text("1.2").starts_with("Vortexa 1.2\n\nA tiny RetNet language model"));
}
