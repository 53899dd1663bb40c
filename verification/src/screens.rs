//! What the screens of the terminal interface show.
use vstd::prelude::*;
use vstd::string::StringExecFns;

use crate::binary64::{percent_of, percentage};
use crate::datasets::{catalog, dataset, DownloadProgress, DATASET_COUNT};
use crate::settings::{entry_labels, labels_of, ENTRY_COUNT};
use crate::text::{
    decimal, join, joined_by, lines, lines_from, number_text, pad, padded, views,
};
use crate::train::TrainProgress;
use crate::tui::{App, AppState, MENU_COUNT};

verus! {

/// The entries of the main menu.
pub open spec fn menu_items() -> Seq<Seq<char>> {
    seq![
        "Train"@,
        "Continue"@,
        "Chat / Ask"@,
        "Datasets"@,
        "Evaluate"@,
        "Settings"@,
        "Device"@,
        "About"@,
        "Exit"@,
    ]
}

/// One entry of the main menu.
pub fn menu_item(i: usize) -> (s: &'static str)
    requires
        i < MENU_COUNT,
    ensures
        s@ == menu_items()[i as int],
{
    if i == 0 {
        "Train"
    } else if i == 1 {
        "Continue"
    } else if i == 2 {
        "Chat / Ask"
    } else if i == 3 {
        "Datasets"
    } else if i == 4 {
        "Evaluate"
    } else if i == 5 {
        "Settings"
    } else if i == 6 {
        "Device"
    } else if i == 7 {
        "About"
    } else {
        "Exit"
    }
}

/// The name of the program in large letters, with its version.
pub fn banner_text(version: &str) -> (s: String)
    ensures
        s@ == "\n      ##  ##  ####  ####   ###### ###### ##  ##  ###\n      ##  ## #    # #   #    ##   #      ##  ## #    #\n      ##  ## #    # ####     ##   #####    ##   ######\n       ## ## #    # #  #     ##   #      ##  ## #    #\n        ###   ####  #   #    ##   ###### ##  ## #    #\n                           v"@
            + version@ + "\n      a tiny RetNet model \u{b7} CPU / GPU \u{b7} Rust\n"@,
{
    let mut s =
        "\n      ##  ##  ####  ####   ###### ###### ##  ##  ###\n      ##  ## #    # #   #    ##   #      ##  ## #    #\n      ##  ## #    # ####     ##   #####    ##   ######\n       ## ## #    # #  #     ##   #      ##  ## #    #\n        ###   ####  #   #    ##   ###### ##  ## #    #\n                           v".to_owned();
    s.append(version);
    s.append("\n      a tiny RetNet model \u{b7} CPU / GPU \u{b7} Rust\n");
    s
}

/// The line below the main menu.
pub fn menu_status(device: &str, version: &str) -> (s: String)
    ensures
        s@ == "Device: "@ + device@ + "   \u{b7}   v"@ + version@
            + "   \u{b7}   \u{2191}/\u{2193} or j/k move, Enter select, q quit"@,
{
    let mut s = "Device: ".to_owned();
    s.append(device);
    s.append("   \u{b7}   v");
    s.append(version);
    s.append("   \u{b7}   \u{2191}/\u{2193} or j/k move, Enter select, q quit");
    s
}

/// What the train form says about the data files.
pub open spec fn files_hint(files: Seq<Seq<char>>) -> Seq<char> {
    if files.len() == 0 {
        "no .txt files in data/ yet (use the Datasets menu)"@
    } else {
        "available: "@ + joined_by(files, ", "@)
    }
}

/// What the train form says about the data files.
pub fn train_form_hint(a: &App) -> (s: String)
    ensures
        s@ == files_hint(a@.data_files),
{
    if a.data_files.len() == 0 {
        "no .txt files in data/ yet (use the Datasets menu)".to_owned()
    } else {
        let mut s = "available: ".to_owned();
        s.append(join(&a.data_files, ", ").as_str());
        s
    }
}

/// What the training screen shows.
pub struct TrainRunView {
    pub percent: u16,
    pub label: String,
    pub status: String,
}

/// The label of the gauge. `loss` and `rate` are texts of the two numbers.
pub open spec fn run_label(p: TrainProgress, loss: Seq<char>, rate: Seq<char>) -> Seq<char> {
    if p.error {
        "error"@
    } else if p.total > 0 {
        "step "@ + decimal(p.step as nat) + "/"@ + decimal(p.total as nat) + "   loss "@ + loss
            + "   "@ + rate + "k tok/s"@
    } else {
        "preparing data..."@
    }
}

/// The line below the gauge.
pub open spec fn run_status(p: TrainProgress) -> Seq<char> {
    if p.error {
        "Error: "@ + p.error_msg@
    } else if p.done {
        "Status: finished   \u{b7}   Esc to return"@
    } else if p.total == 0 {
        "Preparing dataset / tokenizer...   \u{b7}   Esc to stop"@
    } else {
        "Status: running   \u{b7}   Esc or q to stop"@
    }
}

/// What the training screen shows. `loss` is the loss with three decimals, and
/// `rate` the thousands of tokens per second with one.
pub fn train_run_view(p: &TrainProgress, loss: &str, rate: &str) -> (v: TrainRunView)
    ensures
        v.percent == percentage(p.step as nat, p.total as nat),
        v.percent <= 100,
        v.label@ == run_label(*p, loss@, rate@),
        v.status@ == run_status(*p),
{
    let label = if p.error {
        "error".to_owned()
    } else if p.total > 0 {
        let mut s = "step ".to_owned();
        s.append(number_text(p.step).as_str());
        s.append("/");
        s.append(number_text(p.total).as_str());
        s.append("   loss ");
        s.append(loss);
        s.append("   ");
        s.append(rate);
        s.append("k tok/s");
        s
    } else {
        "preparing data...".to_owned()
    };
    let status = if p.error {
        let mut s = "Error: ".to_owned();
        s.append(p.error_msg.as_str());
        s
    } else if p.done {
        "Status: finished   \u{b7}   Esc to return".to_owned()
    } else if p.total == 0 {
        "Preparing dataset / tokenizer...   \u{b7}   Esc to stop".to_owned()
    } else {
        "Status: running   \u{b7}   Esc or q to stop".to_owned()
    };
    TrainRunView { percent: percent_of(p.step as u64, p.total as u64), label, status }
}

/// The lines of the chat history.
pub open spec fn history_lines(history: Seq<Seq<char>>) -> Seq<Seq<char>>
    decreases history.len(),
{
    if history.len() == 0 {
        Seq::empty()
    } else {
        history_lines(history.drop_last()) + lines_from(history.last(), 0)
    }
}

/// The chat after it has been shown on `visible` rows: where a message is new,
/// it is scrolled to the end.
pub open spec fn chat_shown(a: AppState, visible: nat) -> AppState {
    let total = history_lines(a.history).len();
    if a.chat_scroll_pending {
        AppState {
            chat_scroll: if total < visible {
                0
            } else {
                total - visible
            },
            chat_scroll_pending: false,
            ..a
        }
    } else {
        a
    }
}

/// What the chat screen shows: its lines, and how far they are scrolled.
pub struct ChatView {
    pub lines: Vec<String>,
    pub scroll: u16,
}

fn chat_lines(history: &Vec<String>) -> (r: Vec<String>)
    ensures
        views(r@) == history_lines(views(history@)),
{
    let mut out: Vec<String> = Vec::new();
    assert(views(out@) =~= Seq::empty());
    for i in 0..history.len()
        invariant
            views(out@) == history_lines(views(history@).take(i as int)),
    {
        let mut more = lines(history[i].as_str());
        let ghost before = out@;
        let ghost added = more@;
        out.append(&mut more);
        proof {
            assert(views(out@) =~= views(before) + views(added));
            assert(views(history@).take(i + 1).drop_last() =~= views(history@).take(i as int));
        }
    }
    assert(views(history@).take(history@.len() as int) =~= views(history@));
    out
}

/// Show the chat on `visible` rows.
pub fn chat_view(a: &mut App, visible: usize) -> (v: ChatView)
    requires
        old(a).wf(),
    ensures
        final(a).wf(),
        final(a)@ == chat_shown(old(a)@, visible as nat),
        views(v.lines@) == history_lines(old(a)@.history),
        v.scroll == final(a)@.chat_scroll % 0x1_0000,
{
    let shown = chat_lines(&a.chat_history);
    assert(views(shown@).len() == shown.len());
    if a.chat_scroll_pending {
        a.chat_scroll = if shown.len() < visible {
            0
        } else {
            shown.len() - visible
        };
        a.chat_scroll_pending = false;
    }
    ChatView { lines: shown, scroll: (a.chat_scroll % 0x1_0000) as u16 }
}

/// After a new message the chat shows its last line, and as many lines before
/// it as fit.
pub proof fn law_chat_scrolls_to_the_end(a: AppState, visible: nat)
    requires
        a.chat_scroll_pending,
    ensures
        ({
            let total = history_lines(a.history).len();
            let b = chat_shown(a, visible);
            &&& total <= b.chat_scroll + visible
            &&& b.chat_scroll == 0 || b.chat_scroll + visible == total
            &&& !b.chat_scroll_pending
        }),
{
}

/// One line of the settings panel: the row that is being edited shows what was
/// typed.
pub open spec fn settings_line(a: AppState, i: int) -> Seq<char> {
    entry_labels()[i] + ": "@ + if a.settings_editing && i == a.settings_selected {
        a.edit_buffer
    } else {
        a.values[i]
    }
}

/// The lines of the settings panel.
pub fn settings_lines(a: &App) -> (r: Vec<String>)
    requires
        a.wf(),
    ensures
        views(r@) == Seq::new(ENTRY_COUNT as nat, |i: int| settings_line(a@, i)),
{
    let mut out: Vec<String> = Vec::new();
    assert(a.settings_entries.len() == ENTRY_COUNT) by {
        assert(a@.values.len() == ENTRY_COUNT);
    }
    for i in 0..a.settings_entries.len()
        invariant
            a.wf(),
            a.settings_entries.len() == ENTRY_COUNT,
            out@.len() == i,
            forall|j: int| 0 <= j < i ==> (#[trigger] out@[j])@ == settings_line(a@, j),
    {
        assert(labels_of(a.settings_entries@)[i as int] == a.settings_entries@[i as int].label@);
        let mut s = a.settings_entries[i].label.clone();
        s.append(": ");
        if a.settings_editing && i == a.settings_selected {
            s.append(a.edit_buffer.as_str());
        } else {
            s.append(a.settings_entries[i].value.as_str());
        }
        out.push(s);
    }
    assert(views(out@) =~= Seq::new(ENTRY_COUNT as nat, |i: int| settings_line(a@, i)));
    out
}

/// The line below the settings panel.
pub fn settings_hint(a: &App) -> (s: &'static str)
    ensures
        s@ == if a@.settings_selected == 0 {
            "Enter or \u{2190}/\u{2192}: cycle size template (tiny .5M, small 2.8M, medium 7M, large 17M)   \u{b7}   Esc back"@
        } else {
            "Enter: edit value   \u{b7}   \u{2191}/\u{2193} move   \u{b7}   Esc back"@
        },
{
    if a.settings_selected == 0 {
        "Enter or \u{2190}/\u{2192}: cycle size template (tiny .5M, small 2.8M, medium 7M, large 17M)   \u{b7}   Esc back"
    } else {
        "Enter: edit value   \u{b7}   \u{2191}/\u{2193} move   \u{b7}   Esc back"
    }
}

/// One line of the datasets screen: a mark at the dataset that is selected,
/// its name and size in columns, what it is, and whether it is there already.
pub open spec fn dataset_line(i: int, selected: int, present: bool) -> Seq<char> {
    let d = catalog()[i];
    (if i == selected {
        "> "@
    } else {
        "  "@
    }) + padded(d.name@, 20) + " "@ + padded(d.size_hint@, 9) + " "@ + d.desc@ + (if present {
        "  [downloaded]"@
    } else {
        ""@
    })
}

/// The lines of the datasets screen. `present` says which files are there.
pub fn dataset_lines(a: &App, present: &Vec<bool>) -> (r: Vec<String>)
    requires
        present@.len() == DATASET_COUNT,
    ensures
        views(r@) == Seq::new(
            DATASET_COUNT as nat,
            |i: int| dataset_line(i, a@.dataset_index, present@[i]),
        ),
{
    let mut out: Vec<String> = Vec::new();
    for i in 0..DATASET_COUNT
        invariant
            present@.len() == DATASET_COUNT,
            out@.len() == i,
            forall|j: int|
                0 <= j < i ==> (#[trigger] out@[j])@ == dataset_line(
                    j,
                    a@.dataset_index,
                    present@[j],
                ),
    {
        let d = dataset(i);
        let mut s = if i == a.dataset_index {
            "> ".to_owned()
        } else {
            "  ".to_owned()
        };
        s.append(pad(d.name, 20).as_str());
        s.append(" ");
        s.append(pad(d.size_hint, 9).as_str());
        s.append(" ");
        s.append(d.desc);
        if present[i] {
            s.append("  [downloaded]");
        } else {
            s.append("");
        }
        out.push(s);
    }
    assert(views(out@) =~= Seq::new(
        DATASET_COUNT as nat,
        |i: int| dataset_line(i, a@.dataset_index, present@[i]),
    ));
    out
}

/// The line below the datasets. `done` and `total` are texts of the megabytes
/// that are done and announced.
pub fn datasets_status(a: &App, p: DownloadProgress, done: &str, total: &str) -> (s: String)
    requires
        a.wf(),
    ensures
        s@ == if !a@.downloading {
            "Enter: download to data/   \u{b7}   \u{2191}/\u{2193} select   \u{b7}   Esc back"@
        } else if p.finished {
            "Download complete   \u{b7}   Esc to go back"@
        } else {
            "Downloading "@ + catalog()[a@.dataset_index].name@ + " ... "@ + done@ + " / "@ + total@
                + " MB   \u{b7}   Esc to cancel"@
        },
{
    if !a.downloading {
        "Enter: download to data/   \u{b7}   \u{2191}/\u{2193} select   \u{b7}   Esc back".to_owned()
    } else if p.finished {
        "Download complete   \u{b7}   Esc to go back".to_owned()
    } else {
        let d = dataset(a.dataset_index);
        let mut s = "Downloading ".to_owned();
        s.append(d.name);
        s.append(" ... ");
        s.append(done);
        s.append(" / ");
        s.append(total);
        s.append(" MB   \u{b7}   Esc to cancel");
        s
    }
}

/// The evaluation screen.
pub fn eval_text(device: &str) -> (s: String)
    ensures
        s@ == "Deterministic evaluation\n\nRun this from a normal shell for the numbers:\n\n   vortexa eval --checkpoint checkpoints\n\nDevice: "@
            + device@ + "\n\nEsc to return."@,
{
    let mut s =
        "Deterministic evaluation\n\nRun this from a normal shell for the numbers:\n\n   vortexa eval --checkpoint checkpoints\n\nDevice: ".to_owned();
    s.append(device);
    s.append("\n\nEsc to return.");
    s
}

/// The about screen.
pub fn about_text(version: &str) -> (s: String)
    ensures
        s@ == "Vortexa "@ + version@
            + "\n\nA tiny RetNet language model in Rust with Candle.\nRetention, not attention. No KV cache.\nTrain it on any text, chat with it, measure it.\n\nMIT licensed. Esc to return."@,
{
    let mut s = "Vortexa ".to_owned();
    s.append(version);
    s.append(
        "\n\nA tiny RetNet language model in Rust with Candle.\nRetention, not attention. No KV cache.\nTrain it on any text, chat with it, measure it.\n\nMIT licensed. Esc to return.",
    );
    s
}

/// The lines of the chat are those of its messages, one message after the
/// other.
pub proof fn law_history_is_its_messages(history: Seq<Seq<char>>, message: Seq<char>)
    ensures
        history_lines(Seq::empty()) == Seq::<Seq<char>>::empty(),
        history_lines(history.push(message)) == history_lines(history) + lines_from(message, 0),
{
    assert(history.push(message).drop_last() =~= history);
}

/// Where no message is new, showing the chat leaves it scrolled as it was.
pub proof fn law_chat_stays_scrolled(a: AppState, visible: nat)
    ensures
        !a.chat_scroll_pending ==> chat_shown(a, visible) == a,
        chat_shown(a, visible).history == a.history,
        chat_shown(a, visible).settings == a.settings,
        chat_shown(a, visible).chat_input == a.chat_input,
        chat_shown(a, visible).screen == a.screen,
{
}

/// A row of the settings panel shows its label and its value; the row that is
/// being edited shows what was typed.
pub proof fn law_settings_rows(a: AppState, i: int)
    requires
        a.wf(),
        0 <= i < ENTRY_COUNT,
    ensures
        a.settings_editing && i == a.settings_selected ==> settings_line(a, i)
            == entry_labels()[i] + ": "@ + a.edit_buffer,
        !(a.settings_editing && i == a.settings_selected) ==> settings_line(a, i)
            == entry_labels()[i] + ": "@ + a.values[i],
{
}

/// The screen of a run says that it failed, and why, whatever else there is to
/// say; that it is finished; or that it is running.
pub proof fn law_run_is_described(p: TrainProgress, loss: Seq<char>, rate: Seq<char>)
    ensures
        p.error ==> run_label(p, loss, rate) == "error"@ && run_status(p) == "Error: "@
            + p.error_msg@,
        !p.error && p.total > 0 ==> run_label(p, loss, rate) == "step "@ + decimal(p.step as nat)
            + "/"@ + decimal(p.total as nat) + "   loss "@ + loss + "   "@ + rate + "k tok/s"@,
        !p.error && p.total == 0 ==> run_label(p, loss, rate) == "preparing data..."@,
        !p.error && p.done ==> run_status(p) == "Status: finished   \u{b7}   Esc to return"@,
        !p.error && !p.done && p.total > 0 ==> run_status(p)
            == "Status: running   \u{b7}   Esc or q to stop"@,
{
}

/// The train form lists the data files, or says that there are none.
pub proof fn law_files_are_listed(files: Seq<Seq<char>>)
    ensures
        files.len() > 0 ==> files_hint(files) == "available: "@ + joined_by(files, ", "@),
        files.len() == 0 ==> files_hint(files)
            == "no .txt files in data/ yet (use the Datasets menu)"@,
{
}

/// The line of a dataset is marked where it is selected, ends with a note where
/// its file is there, and says the same about the dataset either way.
pub proof fn law_dataset_rows(i: int, selected: int, present: bool) -> (middle: Seq<char>)
    ensures
        dataset_line(i, selected, present) == (if i == selected {
            seq!['>', ' ']
        } else {
            seq![' ', ' ']
        }) + middle + (if present {
            "  [downloaded]"@
        } else {
            Seq::empty()
        }),
        middle == padded(catalog()[i].name@, 20) + seq![' '] + padded(catalog()[i].size_hint@, 9)
            + seq![' '] + catalog()[i].desc@,
{
    reveal_strlit("> ");
    reveal_strlit("  ");
    reveal_strlit(" ");
    reveal_strlit("");
    let d = catalog()[i];
    let middle = padded(d.name@, 20) + seq![' '] + padded(d.size_hint@, 9) + seq![' '] + d.desc@;
    assert("> "@ =~= seq!['>', ' '] && "  "@ =~= seq![' ', ' '] && " "@ =~= seq![' ']);
    assert(""@ =~= Seq::<char>::empty());
    let mark = if i == selected {
        seq!['>', ' ']
    } else {
        seq![' ', ' ']
    };
    let note = if present {
        "  [downloaded]"@
    } else {
        Seq::empty()
    };
    assert(mark + padded(d.name@, 20) + seq![' '] + padded(d.size_hint@, 9) + seq![' '] + d.desc@
        + note =~= mark + middle + note);
    middle
}

} // verus!
