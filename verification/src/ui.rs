//! The line-based menu: what it prints, and what the answers mean.
use vstd::prelude::*;
use vstd::string::StringExecFns;

use crate::binary64::{Binary64, ONE};
use crate::config::Config;
use crate::device::{backend_name, describe, device_error_text, Backend, DeviceError};
use crate::eval::EvalArgs;
use crate::settings::Real;
use crate::text::{
    concat2, decimal, join, joined_by, lowercase, lowered, number_in, number_text, pad, padded,
    parse_number, repeat, repeated, same, views,
};
use crate::train::{TrainArgs, VAL_FRAC};

verus! {

/// An entry of the menu.
#[derive(Clone, Copy, Debug, PartialEq, Eq, Structural)]
pub enum Choice {
    Train,
    Continue,
    Chat,
    Eval,
    Device,
    About,
    Exit,
    /// The answer names no entry.
    Unknown,
}

/// The entry that an answer names.
pub open spec fn choice_of(answer: Seq<char>) -> Choice {
    if answer == "1"@ {
        Choice::Train
    } else if answer == "2"@ {
        Choice::Continue
    } else if answer == "3"@ {
        Choice::Chat
    } else if answer == "4"@ {
        Choice::Eval
    } else if answer == "5"@ {
        Choice::Device
    } else if answer == "6"@ {
        Choice::About
    } else if answer == "0"@ || answer == "q"@ || answer == "quit"@ || answer == "exit"@ {
        Choice::Exit
    } else {
        Choice::Unknown
    }
}

/// The entry that an answer names.
pub fn choose_entry(answer: &str) -> (c: Choice)
    ensures
        c == choice_of(answer@),
{
    if same(answer, "1") {
        Choice::Train
    } else if same(answer, "2") {
        Choice::Continue
    } else if same(answer, "3") {
        Choice::Chat
    } else if same(answer, "4") {
        Choice::Eval
    } else if same(answer, "5") {
        Choice::Device
    } else if same(answer, "6") {
        Choice::About
    } else if same(answer, "0") || same(answer, "q") || same(answer, "quit") || same(
        answer,
        "exit",
    ) {
        Choice::Exit
    } else {
        Choice::Unknown
    }
}

/// The labels of the menu.
pub open spec fn menu_labels(dev_name: Seq<char>) -> Seq<Seq<char>> {
    seq![
        "[1] Train"@,
        "[2] Continue"@,
        "[3] Chat / Ask"@,
        "[4] Evaluate"@,
        "[5] Device : "@ + dev_name,
        "[6] About"@,
        "[0] Exit"@,
    ]
}

/// The width of the menu: that of its widest label.
pub open spec fn widest(labels: Seq<Seq<char>>) -> nat
    decreases labels.len(),
{
    if labels.len() == 0 {
        0
    } else if labels.last().len() > widest(labels.drop_last()) {
        labels.last().len()
    } else {
        widest(labels.drop_last())
    }
}

/// The upper border of the menu, with the title in its middle.
pub open spec fn top_border(width: nat) -> Seq<char> {
    let inner = width + 2;
    let left = ((inner - 9) / 2) as nat;
    "  \u{256d}"@ + repeated('\u{2500}', left) + " VORTEXA "@ + repeated(
        '\u{2500}',
        (inner - left - 9) as nat,
    ) + "\u{256e}"@
}

/// A row of the menu.
pub open spec fn box_row(label: Seq<char>, width: nat) -> Seq<char> {
    "  \u{2502} "@ + padded(label, width) + " \u{2502}"@
}

/// The lower border of the menu.
pub open spec fn bottom_border(width: nat) -> Seq<char> {
    "  \u{2570}"@ + repeated('\u{2500}', width + 2) + "\u{256f}"@
}

/// The menu as a box that is as wide as its content.
pub open spec fn menu_box(dev_name: Seq<char>) -> Seq<Seq<char>> {
    let labels = menu_labels(dev_name);
    let width = widest(labels);
    seq![top_border(width)] + labels.map_values(|l: Seq<char>| box_row(l, width)) + seq![
        bottom_border(width),
    ]
}

fn width_of(labels: &Vec<String>) -> (w: usize)
    ensures
        w == widest(views(labels@)),
{
    let mut w: usize = 0;
    for i in 0..labels.len()
        invariant
            w == widest(views(labels@).take(i as int)),
    {
        let n = labels[i].as_str().unicode_len();
        assert(views(labels@).take(i + 1).drop_last() =~= views(labels@).take(i as int));
        if n > w {
            w = n;
        }
    }
    assert(views(labels@).take(labels@.len() as int) =~= views(labels@));
    w
}

/// The lines of the menu. The device name must leave room for the borders.
pub fn menu(dev_name: &str) -> (r: Vec<String>)
    requires
        dev_name@.len() < usize::MAX - 32,
    ensures
        views(r@) == menu_box(dev_name@),
{
    let mut labels: Vec<String> = Vec::new();
    labels.push("[1] Train".to_owned());
    labels.push("[2] Continue".to_owned());
    labels.push("[3] Chat / Ask".to_owned());
    labels.push("[4] Evaluate".to_owned());
    labels.push(concat2("[5] Device : ", dev_name));
    labels.push("[6] About".to_owned());
    labels.push("[0] Exit".to_owned());
    assert(views(labels@) =~= menu_labels(dev_name@));
    proof {
        lemma_menu_width(dev_name@);
    }
    let width = width_of(&labels);
    let inner: usize = width + 2;
    let left: usize = (inner - 9) / 2;
    let mut top = "  \u{256d}".to_owned();
    top.append(repeat('\u{2500}', left).as_str());
    top.append(" VORTEXA ");
    top.append(repeat('\u{2500}', inner - left - 9).as_str());
    top.append("\u{256e}");
    let mut out: Vec<String> = Vec::new();
    out.push(top);
    let ghost rows = menu_labels(dev_name@).map_values(|l: Seq<char>| box_row(l, width as nat));
    assert(views(out@) =~= seq![top_border(width as nat)] + rows.take(0));
    for i in 0..labels.len()
        invariant
            views(labels@) == menu_labels(dev_name@),
            rows == menu_labels(dev_name@).map_values(|l: Seq<char>| box_row(l, width as nat)),
            views(out@) == seq![top_border(width as nat)] + rows.take(i as int),
    {
        let mut row = "  \u{2502} ".to_owned();
        row.append(pad(labels[i].as_str(), width).as_str());
        row.append(" \u{2502}");
        let ghost before = out@;
        out.push(row);
        proof {
            assert(views(labels@)[i as int] == labels@[i as int]@);
            assert(row@ == rows[i as int]);
            assert(views(out@) =~= views(before).push(row@));
            assert(rows.take(i + 1) =~= rows.take(i as int).push(row@));
            assert(views(out@) =~= seq![top_border(width as nat)] + rows.take(i + 1));
        }
    }
    let mut bottom = "  \u{2570}".to_owned();
    bottom.append(repeat('\u{2500}', inner).as_str());
    bottom.append("\u{256f}");
    let ghost before = out@;
    out.push(bottom);
    proof {
        assert(rows.take(rows.len() as int) =~= rows);
        assert(views(out@) =~= views(before).push(bottom@));
        assert(views(out@) =~= menu_box(dev_name@));
    }
    out
}

/// The menu is wide enough for its title, and for every label.
proof fn lemma_menu_width(dev_name: Seq<char>)
    ensures
        widest(menu_labels(dev_name)) == if dev_name.len() + 13 > 14 {
            dev_name.len() + 13
        } else {
            14
        },
{
    reveal_strlit("[1] Train");
    reveal_strlit("[2] Continue");
    reveal_strlit("[3] Chat / Ask");
    reveal_strlit("[4] Evaluate");
    reveal_strlit("[5] Device : ");
    reveal_strlit("[6] About");
    reveal_strlit("[0] Exit");
    let l = menu_labels(dev_name);
    assert(l[0].len() == 9 && l[1].len() == 12 && l[2].len() == 14 && l[3].len() == 12 && l[4].len()
        == dev_name.len() + 13 && l[5].len() == 9 && l[6].len() == 8);
    reveal_with_fuel(widest, 8);
    let l6 = l.drop_last();
    let l5 = l6.drop_last();
    let l4 = l5.drop_last();
    let l3 = l4.drop_last();
    let l2 = l3.drop_last();
    let l1 = l2.drop_last();
    assert(l6.last() == l[5] && l5.last() == l[4] && l4.last() == l[3] && l3.last() == l[2]
        && l2.last() == l[1] && l1.last() == l[0]);
    assert(l1.drop_last().len() == 0);
}

/// The borders of the menu never break: all its lines are equally wide,
/// whatever the device is called.
pub proof fn law_menu_lines_align(dev_name: Seq<char>, i: int)
    requires
        0 <= i < menu_box(dev_name).len(),
    ensures
        menu_box(dev_name)[i].len() == widest(menu_labels(dev_name)) + 6,
{
    let labels = menu_labels(dev_name);
    let width = widest(labels);
    lemma_menu_width(dev_name);
    reveal_strlit("  \u{256d}");
    reveal_strlit(" VORTEXA ");
    reveal_strlit("\u{256e}");
    reveal_strlit("  \u{2502} ");
    reveal_strlit(" \u{2502}");
    reveal_strlit("  \u{2570}");
    reveal_strlit("\u{256f}");
    assert("  \u{256d}"@.len() == 3 && " VORTEXA "@.len() == 9 && "\u{256e}"@.len() == 1
        && "  \u{2502} "@.len() == 4 && " \u{2502}"@.len() == 2 && "  \u{2570}"@.len() == 3
        && "\u{256f}"@.len() == 1);
    if 1 <= i <= labels.len() {
        lemma_widest(labels, i - 1);
        assert(menu_box(dev_name)[i] == box_row(labels[i - 1], width));
    }
}

/// No label is wider than the widest.
proof fn lemma_widest(labels: Seq<Seq<char>>, i: int)
    requires
        0 <= i < labels.len(),
    ensures
        labels[i].len() <= widest(labels),
    decreases labels.len(),
{
    if i < labels.len() - 1 {
        lemma_widest(labels.drop_last(), i);
    }
}

/// The letters of the name, top to bottom.
pub open spec fn glyphs(row: int) -> Seq<Seq<char>> {
    if row == 0 {
        seq!["##  ##"@, " #### "@, "####  "@, "######"@, "######"@, "##  ##"@, " ###  "@]
    } else if row == 1 {
        seq!["##  ##"@, "#    #"@, "#   # "@, "  ##  "@, "#     "@, "##  ##"@, "#    #"@]
    } else if row == 2 {
        seq!["##  ##"@, "#    #"@, "####  "@, "  ##  "@, "##### "@, "  ##  "@, "######"@]
    } else if row == 3 {
        seq![" ## ##"@, "#    #"@, "#  #  "@, "  ##  "@, "#     "@, "##  ##"@, "#    #"@]
    } else {
        seq!["  ### "@, " #### "@, "#   # "@, "  ##  "@, "######"@, "##  ##"@, "#    #"@]
    }
}

/// A line of the banner: the letters' row, with a space between two letters.
pub open spec fn banner_row(row: int) -> Seq<char> {
    "      "@ + joined_by(glyphs(row), " "@)
}

fn seven(a: &str, b: &str, c: &str, d: &str, e: &str, f: &str, g: &str) -> (r: Vec<String>)
    ensures
        views(r@) == seq![a@, b@, c@, d@, e@, f@, g@],
{
    let mut v: Vec<String> = Vec::new();
    v.push(a.to_owned());
    v.push(b.to_owned());
    v.push(c.to_owned());
    v.push(d.to_owned());
    v.push(e.to_owned());
    v.push(f.to_owned());
    v.push(g.to_owned());
    assert(views(v@) =~= seq![a@, b@, c@, d@, e@, f@, g@]);
    v
}

/// A line of the banner.
fn banner_line(row: usize) -> (s: String)
    requires
        row < 5,
    ensures
        s@ == banner_row(row as int),
{
    let letters = if row == 0 {
        seven("##  ##", " #### ", "####  ", "######", "######", "##  ##", " ###  ")
    } else if row == 1 {
        seven("##  ##", "#    #", "#   # ", "  ##  ", "#     ", "##  ##", "#    #")
    } else if row == 2 {
        seven("##  ##", "#    #", "####  ", "  ##  ", "##### ", "  ##  ", "######")
    } else if row == 3 {
        seven(" ## ##", "#    #", "#  #  ", "  ##  ", "#     ", "##  ##", "#    #")
    } else {
        seven("  ### ", " #### ", "#   # ", "  ##  ", "######", "##  ##", "#    #")
    };
    let mut s = "      ".to_owned();
    s.append(join(&letters, " ").as_str());
    s
}

/// The width of the letters of the banner.
pub const BANNER_WIDTH: usize = 48;

/// The banner: the name in block letters, and below it the version in its
/// middle and what the program is.
pub fn banner(version: &str) -> (r: Vec<String>)
    ensures
        r@.len() == 7,
        forall|row: int| 0 <= row < 5 ==> (#[trigger] r@[row])@ == banner_row(row),
        ({
            let v = "v"@ + version@;
            let half = vstd::utf8::encode_utf8(v).len() / 2;
            let left = if half > 24 {
                0
            } else {
                (24 - half) as nat
            };
            r@[5]@ == "      "@ + repeated(' ', left) + v
        }),
        r@[6]@ == "      a tiny RetNet language model \u{b7} CPU / GPU \u{b7} Rust"@,
{
    let mut out: Vec<String> = Vec::new();
    for row in 0..5usize
        invariant
            out@.len() == row,
            forall|i: int| 0 <= i < row ==> (#[trigger] out@[i])@ == banner_row(i),
    {
        out.push(banner_line(row));
    }
    let v = concat2("v", version);
    let half: usize = v.as_str().as_bytes().len() / 2;
    let left: usize = if half > BANNER_WIDTH / 2 {
        0
    } else {
        BANNER_WIDTH / 2 - half
    };
    let mut line = "      ".to_owned();
    line.append(repeat(' ', left).as_str());
    line.append(v.as_str());
    out.push(line);
    out.push("      a tiny RetNet language model \u{b7} CPU / GPU \u{b7} Rust".to_owned());
    out
}

/// Every letter of the banner is equally wide, so the letters align from line
/// to line.
pub proof fn law_banner_letters_align(row: int, letter: int)
    requires
        0 <= row < 5,
        0 <= letter < 7,
    ensures
        glyphs(row).len() == 7,
        glyphs(row)[letter].len() == 6,
{
    reveal_strlit("##  ##");
    reveal_strlit(" ## ##");
    reveal_strlit("  ### ");
    reveal_strlit(" #### ");
    reveal_strlit("#    #");
    reveal_strlit("####  ");
    reveal_strlit("#   # ");
    reveal_strlit("#  #  ");
    reveal_strlit("######");
    reveal_strlit("  ##  ");
    reveal_strlit("#     ");
    reveal_strlit("##### ");
    reveal_strlit(" ###  ");
    assert("##  ##"@.len() == 6 && " ## ##"@.len() == 6 && "  ### "@.len() == 6 && " #### "@.len()
        == 6 && "#    #"@.len() == 6 && "####  "@.len() == 6 && "#   # "@.len() == 6
        && "#  #  "@.len() == 6 && "######"@.len() == 6 && "  ##  "@.len() == 6 && "#     "@.len()
        == 6 && "##### "@.len() == 6 && " ###  "@.len() == 6);
}

/// The tokenizer that an answer asks for: BPE unless it says bytes, in letters
/// of either case.
pub fn sanitize_tokenizer(s: &str) -> (r: String)
    ensures
        r@ == if lowered(s@) == "bytes"@ || lowered(s@) == "byte"@ {
            "bytes"@
        } else {
            "bpe"@
        },
{
    let name = lowercase(s);
    if same(name.as_str(), "bytes") || same(name.as_str(), "byte") {
        "bytes".to_owned()
    } else {
        "bpe".to_owned()
    }
}

/// What to ask, where there is a default.
pub fn question_with_default(label: &str, default: &str) -> (s: String)
    ensures
        s@ == label@ + " ["@ + default@ + "]"@,
{
    let mut s = label.to_owned();
    s.append(" [");
    s.append(default);
    s.append("]");
    s
}

/// The answer, or the default where the answer is empty.
pub fn ask_default(answer: &str, default: &str) -> (s: String)
    ensures
        s@ == if answer@.len() == 0 {
            default@
        } else {
            answer@
        },
{
    if answer.is_empty() {
        default.to_owned()
    } else {
        answer.to_owned()
    }
}

/// The number that an answer is, or the default, and what is said where the
/// answer is no number.
pub fn ask_parse(answer: &str, default: usize) -> (r: (usize, Option<String>))
    ensures
        match number_in(answer@, usize::MAX as nat) {
            Some(n) => r.0 == n && r.1 is None,
            None => r.0 == default && r.1 is Some && r.1->Some_0@ == "  (using default "@ + decimal(
                default as nat,
            ) + ")"@,
        },
{
    match parse_number(answer, usize::MAX as u64) {
        Some(n) => (n as usize, None),
        None => {
            let mut s = "  (using default ".to_owned();
            s.append(number_text(default).as_str());
            s.append(")");
            (default, Some(s))
        },
    }
}

/// 1e-3.
pub const TRAIN_LR: u64 = 0x3f50_624d_d2f1_a9fc;

/// 3e-4.
pub const CONTINUE_LR: u64 = 0x3f33_a92a_3055_3261;

/// A run from scratch.
pub fn train_flow(
    data: &str,
    steps: usize,
    tokenizer: &str,
    out: &str,
    device_pref: &str,
) -> (args: TrainArgs)
    ensures
        args.usual(),
        args.data@ == data@,
        args.out_dir@ == out@,
        args.steps == steps,
        args.batch_size == 16,
        args.seq_len == 256,
        args.lr.value.bits == TRAIN_LR,
        args.lr.text@ == "0.001"@,
        args.resume is None,
        args.warmup_steps == 200,
        args.device@ == device_pref@,
        args.config.valid(),
        args.config.has_shape(256, 4, 8),
        args.config.tokenizer@ == if lowered(tokenizer@) == "bytes"@ || lowered(tokenizer@)
            == "byte"@ {
            "bytes"@
        } else {
            "bpe"@
        },
{
    let mut config = Config::larger();
    config.tokenizer = sanitize_tokenizer(tokenizer);
    TrainArgs {
        data: data.to_owned(),
        out_dir: out.to_owned(),
        steps,
        batch_size: 16,
        seq_len: 256,
        lr: Real { value: Binary64 { bits: TRAIN_LR }, text: "0.001".to_owned() },
        log_every: 50,
        val_every: 500,
        val_batches: 4,
        save_every: 1000,
        val_frac: Binary64 { bits: VAL_FRAC },
        seed: 42,
        resume: None,
        warmup_steps: 200,
        grad_clip: Binary64 { bits: ONE },
        device: device_pref.to_owned(),
        config,
    }
}

/// A run that continues from a checkpoint, with its architecture.
pub fn continue_flow(
    checkpoint: &str,
    extra: usize,
    data: &str,
    device_pref: &str,
    config: Config,
) -> (args: TrainArgs)
    ensures
        args.usual(),
        args.data@ == data@,
        args.out_dir@ == checkpoint@,
        args.steps == extra,
        args.batch_size == 16,
        args.seq_len == 128,
        args.lr.value.bits == CONTINUE_LR,
        args.lr.text@ == "0.0003"@,
        args.resume is Some,
        args.resume->Some_0@ == checkpoint@,
        args.warmup_steps == 100,
        args.device@ == device_pref@,
        args.config == config,
{
    TrainArgs {
        data: data.to_owned(),
        out_dir: checkpoint.to_owned(),
        steps: extra,
        batch_size: 16,
        seq_len: 128,
        lr: Real { value: Binary64 { bits: CONTINUE_LR }, text: "0.0003".to_owned() },
        log_every: 50,
        val_every: 500,
        val_batches: 4,
        save_every: 1000,
        val_frac: Binary64 { bits: VAL_FRAC },
        seed: 42,
        resume: Some(checkpoint.to_owned()),
        warmup_steps: 100,
        grad_clip: Binary64 { bits: ONE },
        device: device_pref.to_owned(),
        config,
    }
}

/// An evaluation.
pub fn eval_flow(checkpoint: &str, data: &str, seq_len: usize, device_pref: &str) -> (
    args: EvalArgs)
    ensures
        args.checkpoint@ == checkpoint@,
        args.data@ == data@,
        args.seq_len == seq_len,
        args.val_frac.bits == VAL_FRAC,
        args.device@ == device_pref@,
{
    EvalArgs {
        checkpoint: checkpoint.to_owned(),
        data: data.to_owned(),
        seq_len,
        val_frac: Binary64 { bits: VAL_FRAC },
        device: device_pref.to_owned(),
    }
}

/// The line that says from what a run continues.
pub fn continuing_line(config: &Config) -> (s: String)
    ensures
        s@ == "continuing: "@ + decimal(config.num_layers as nat) + " layer(s) x "@ + decimal(
            config.num_heads as nat,
        ) + " head(s)@"@ + decimal(config.head_dim as nat) + "d, vocab "@ + decimal(
            config.vocab_size as nat,
        ) + ", "@ + (if config.tokenizer@ == "bpe"@ {
            "BPE"@
        } else {
            "bytes"@
        }),
{
    let mut s = "continuing: ".to_owned();
    s.append(number_text(config.num_layers).as_str());
    s.append(" layer(s) x ");
    s.append(number_text(config.num_heads).as_str());
    s.append(" head(s)@");
    s.append(number_text(config.head_dim).as_str());
    s.append("d, vocab ");
    s.append(number_text(config.vocab_size).as_str());
    s.append(", ");
    if same(config.tokenizer.as_str(), "bpe") {
        s.append("BPE");
    } else {
        s.append("bytes");
    }
    s
}

/// The line that says which model chats.
pub fn loaded_line(config: &Config) -> (s: String)
    ensures
        s@ == "loaded Vortexa | "@ + decimal(config.num_layers as nat) + " layers x "@ + decimal(
            config.num_heads as nat,
        ) + " heads @"@ + decimal(config.head_dim as nat) + "d | vocab "@ + decimal(
            config.vocab_size as nat,
        ),
{
    let mut s = "loaded Vortexa | ".to_owned();
    s.append(number_text(config.num_layers).as_str());
    s.append(" layers x ");
    s.append(number_text(config.num_heads).as_str());
    s.append(" heads @");
    s.append(number_text(config.head_dim).as_str());
    s.append("d | vocab ");
    s.append(number_text(config.vocab_size).as_str());
    s
}

/// What becomes of a choice of backend: the preference from then on, and what
/// is said about it. A choice that cannot be met changes nothing.
pub fn device_flow(pref: &str, choice: &str, answer: &Result<Backend, DeviceError>) -> (r: (
    String,
    String,
))
    ensures
        match *answer {
            Ok(b) => r.0@ == choice@ && r.1@ == "device set: "@ + backend_name(b) + " ("@ + choice@
                + ")"@,
            Err(e) => r.0@ == pref@ && r.1@ == device_error_text(e),
        },
{
    match answer {
        Ok(b) => {
            let mut s = "device set: ".to_owned();
            s.append(describe(b).as_str());
            s.append(" (");
            s.append(choice);
            s.append(")");
            (choice.to_owned(), s)
        },
        Err(e) => (pref.to_owned(), e.message()),
    }
}

/// The lines about the program.
pub fn about(version: &str, device: &Backend, has_checkpoint: bool) -> (r: Vec<String>)
    ensures
        views(r@) == seq![
            "  Vortexa v"@ + version@,
            "  RetNet-based language model (Rust + Candle)"@,
            "  backend: CPU/GPU | auto-detected device: "@ + backend_name(*device),
            "  checkpoint present: "@ + (if has_checkpoint {
                "true"@
            } else {
                "false"@
            }),
        ],
{
    let mut out: Vec<String> = Vec::new();
    out.push(concat2("  Vortexa v", version));
    out.push("  RetNet-based language model (Rust + Candle)".to_owned());
    out.push(
        concat2("  backend: CPU/GPU | auto-detected device: ", describe(device).as_str()),
    );
    out.push(
        concat2(
            "  checkpoint present: ",
            if has_checkpoint {
                "true"
            } else {
                "false"
            },
        ),
    );
    assert(views(out@) =~= seq![
        "  Vortexa v"@ + version@,
        "  RetNet-based language model (Rust + Candle)"@,
        "  backend: CPU/GPU | auto-detected device: "@ + backend_name(*device),
        "  checkpoint present: "@ + (if has_checkpoint {
            "true"@
        } else {
            "false"@
        }),
    ]);
    out
}

/// What was found where the architecture of a checkpoint should be.
pub enum Found {
    Nothing,
    /// Something that is no architecture.
    Unreadable,
    Architecture(Config),
}

/// The architecture to continue with, and what is said where it is not the
/// checkpoint's own.
pub fn config_for_checkpoint(found: Found, path: &str) -> (r: (Config, Option<String>))
    ensures
        match found {
            Found::Architecture(c) => r.0 == c && r.1 is None,
            Found::Unreadable => r.0.is_preset(256, 4, 8) && r.1 is Some && r.1->Some_0@
                == "could not parse "@ + path@ + " \u{2014} using default config"@,
            Found::Nothing => r.0.is_preset(256, 4, 8) && r.1 is Some && r.1->Some_0@
                == "no config at "@ + path@ + " \u{2014} using default config"@,
        },
{
    match found {
        Found::Architecture(c) => (c, None),
        Found::Unreadable => {
            let mut s = "could not parse ".to_owned();
            s.append(path);
            s.append(" \u{2014} using default config");
            (Config::larger(), Some(s))
        },
        Found::Nothing => {
            let mut s = "no config at ".to_owned();
            s.append(path);
            s.append(" \u{2014} using default config");
            (Config::larger(), Some(s))
        },
    }
}

/// Each entry of the menu is chosen by its number, leaving also by name, and
/// nothing else is an entry.
pub proof fn law_choices(answer: Seq<char>)
    ensures
        choice_of(answer) is Train <==> answer == "1"@,
        choice_of(answer) is Continue <==> answer == "2"@,
        choice_of(answer) is Chat <==> answer == "3"@,
        choice_of(answer) is Eval <==> answer == "4"@,
        choice_of(answer) is Device <==> answer == "5"@,
        choice_of(answer) is About <==> answer == "6"@,
        choice_of(answer) is Exit <==> answer == "0"@ || answer == "q"@ || answer == "quit"@
            || answer == "exit"@,
{
    reveal_strlit("0");
    reveal_strlit("1");
    reveal_strlit("2");
    reveal_strlit("3");
    reveal_strlit("4");
    reveal_strlit("5");
    reveal_strlit("6");
    reveal_strlit("q");
    reveal_strlit("quit");
    reveal_strlit("exit");
    assert("0"@[0] == '0' && "1"@[0] == '1' && "2"@[0] == '2' && "3"@[0] == '3' && "4"@[0] == '4'
        && "5"@[0] == '5' && "6"@[0] == '6' && "q"@[0] == 'q' && "quit"@.len() == 4
        && "exit"@.len() == 4 && "1"@.len() == 1 && "2"@.len() == 1 && "3"@.len() == 1
        && "4"@.len() == 1 && "5"@.len() == 1 && "6"@.len() == 1);
}

/// The menu has a row for each entry between its borders, and the row holds the
/// whole label.
pub proof fn law_menu_rows_hold_labels(dev_name: Seq<char>, i: int)
    requires
        0 <= i < menu_labels(dev_name).len(),
    ensures
        menu_box(dev_name).len() == menu_labels(dev_name).len() + 2,
        ({
            let label = menu_labels(dev_name)[i];
            let row = menu_box(dev_name)[i + 1];
            &&& row.subrange(4, 4 + label.len() as int) == label
            &&& forall|k: int|
                4 + label.len() <= k < row.len() - 2 ==> #[trigger] row[k] == ' '
        }),
        menu_labels(dev_name)[4] == "[5] Device : "@ + dev_name,
{
    let labels = menu_labels(dev_name);
    let width = widest(labels);
    let label = labels[i];
    reveal_strlit("  \u{2502} ");
    reveal_strlit(" \u{2502}");
    assert("  \u{2502} "@.len() == 4 && " \u{2502}"@.len() == 2);
    lemma_widest(labels, i);
    let row = menu_box(dev_name)[i + 1];
    assert(row == box_row(label, width));
    assert(row.subrange(4, 4 + label.len() as int) =~= label);
}

/// The width of the menu is that of one of its labels, and no label is wider.
pub proof fn law_menu_is_as_wide_as_its_widest_label(labels: Seq<Seq<char>>)
    ensures
        forall|i: int| 0 <= i < labels.len() ==> (#[trigger] labels[i]).len() <= widest(labels),
        labels.len() > 0 ==> exists|i: int|
            0 <= i < labels.len() && (#[trigger] labels[i]).len() == widest(labels),
    decreases labels.len(),
{
    if labels.len() > 0 {
        let init = labels.drop_last();
        law_menu_is_as_wide_as_its_widest_label(init);
        assert forall|i: int| 0 <= i < labels.len() implies (#[trigger] labels[i]).len() <= widest(
            labels,
        ) by {
            if i < init.len() {
                assert(init[i] == labels[i]);
            }
        }
        if labels.last().len() > widest(init) || init.len() == 0 {
            assert(labels[labels.len() - 1].len() == widest(labels));
        } else {
            let i = choose|i: int| 0 <= i < init.len() && (#[trigger] init[i]).len() == widest(init);
            assert(labels[i] == init[i]);
        }
    }
}

/// The title stands in the middle of the upper border, and both borders are
/// drawn from corner to corner.
pub proof fn law_menu_borders(dev_name: Seq<char>) -> (r: (nat, nat))
    ensures
        menu_box(dev_name)[0] == "  \u{256d}"@ + repeated('\u{2500}', r.0) + " VORTEXA "@ + repeated(
            '\u{2500}',
            r.1,
        ) + "\u{256e}"@,
        r.0 <= r.1 <= r.0 + 1,
        menu_box(dev_name).last() == "  \u{2570}"@ + repeated('\u{2500}', r.0 + 9 + r.1)
            + "\u{256f}"@,
{
    lemma_menu_width(dev_name);
    let width = widest(menu_labels(dev_name));
    let left = ((width + 2 - 9) / 2) as nat;
    let right = (width + 2 - left - 9) as nat;
    assert(menu_box(dev_name)[0] == top_border(width));
    assert(menu_box(dev_name).last() == bottom_border(width));
    (left, right)
}

} // verus!
