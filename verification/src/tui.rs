//! The full-screen terminal interface: its state, and what each key does.
//!
//! [`App`] holds the state. [`App::on_key`] moves it on and says, as an
//! [`Effect`], what is to be done outside of it. What the screens show is in
//! [`crate::screens`].
use vstd::prelude::*;
use vstd::string::StringExecFns;

use crate::binary64::{Binary64, ONE};
use crate::config::Config;
use crate::datasets::DATASET_COUNT;
use crate::generate::{apply_template, templated};
use crate::settings::{
    applied, apply_settings, config_matches, device_behind, entries_from_settings, entry_labels,
    entry_values, labels_of, law_settings_roundtrip, row, template_behind, templates, values_of, with_template, Entry,
    Reals, RealsView, Settings, SettingsView, ENTRY_COUNT,
};
use crate::text::{
    after_prefix, concat2, decimal, number_in, number_text, parse_or, same, strip_prefix, trim,
    trimmed, views,
};
use crate::train::{TrainArgs, VAL_FRAC};

verus! {

/// The screens.
#[derive(Clone, Copy, Debug, PartialEq, Eq, Structural)]
pub enum Screen {
    Menu,
    TrainForm,
    TrainRun,
    Chat,
    Datasets,
    Eval,
    Settings,
    About,
}

/// A key that was pressed.
#[derive(Clone, Copy, Debug, PartialEq, Eq, Structural)]
pub enum Key {
    Up,
    Down,
    Left,
    Right,
    Enter,
    Esc,
    Tab,
    Backspace,
    PageUp,
    PageDown,
    Char(char),
    /// Any key that means nothing here.
    Other,
}

/// What is to be done outside of the state.
#[derive(Debug)]
pub enum Effect {
    Nothing,
    /// Write the settings to disk.
    SaveSettings,
    /// Start the run that [`App::training_args`] describes.
    StartTraining,
    /// Cancel the run and wait for it to stop.
    StopTraining,
    /// Cancel the run, wait for it, and leave.
    Quit,
    /// Start to download the dataset that is selected.
    StartDownload,
    /// Cancel the download and wait for it to stop.
    StopDownload,
    /// Load the model, and hand over how that went to [`App::model_loaded`].
    LoadModel,
    /// Answer this prompt, and hand the answer to [`App::answered`].
    Ask(String),
}

/// What an [`Effect`] stands for.
pub ghost enum EffectView {
    Nothing,
    SaveSettings,
    StartTraining,
    StopTraining,
    Quit,
    StartDownload,
    StopDownload,
    LoadModel,
    Ask(Seq<char>),
}

impl View for Effect {
    type V = EffectView;

    open spec fn view(&self) -> EffectView {
        match *self {
            Effect::Nothing => EffectView::Nothing,
            Effect::SaveSettings => EffectView::SaveSettings,
            Effect::StartTraining => EffectView::StartTraining,
            Effect::StopTraining => EffectView::StopTraining,
            Effect::Quit => EffectView::Quit,
            Effect::StartDownload => EffectView::StartDownload,
            Effect::StopDownload => EffectView::StopDownload,
            Effect::LoadModel => EffectView::LoadModel,
            Effect::Ask(prompt) => EffectView::Ask(prompt@),
        }
    }
}

/// The number of entries of the main menu.
pub const MENU_COUNT: usize = 9;

/// The state of the interface.
pub struct App {
    pub screen: Screen,
    pub menu_index: usize,
    pub quit: bool,
    pub settings: Settings,
    /// The rows of the settings panel.
    pub settings_entries: Vec<Entry>,
    pub settings_selected: usize,
    pub settings_editing: bool,
    pub edit_buffer: String,
    /// The data file of the train form.
    pub train_data: String,
    /// The step count of the train form, as typed.
    pub train_steps: String,
    /// The field of the train form that is being edited: 0 or 1.
    pub train_field: usize,
    /// Whether to continue from the checkpoint.
    pub resuming: bool,
    /// The text files in `data/`.
    pub data_files: Vec<String>,
    pub has_model: bool,
    pub chat_history: Vec<String>,
    pub chat_input: String,
    pub chat_scroll: usize,
    pub chat_scroll_pending: bool,
    pub dataset_index: usize,
    pub downloading: bool,
}

/// What an [`App`] stands for.
pub ghost struct AppState {
    pub screen: Screen,
    pub menu_index: int,
    pub quit: bool,
    pub settings: SettingsView,
    pub values: Seq<Seq<char>>,
    pub settings_selected: int,
    pub settings_editing: bool,
    pub edit_buffer: Seq<char>,
    pub train_data: Seq<char>,
    pub train_steps: Seq<char>,
    pub train_field: int,
    pub resuming: bool,
    pub data_files: Seq<Seq<char>>,
    pub has_model: bool,
    pub history: Seq<Seq<char>>,
    pub chat_input: Seq<char>,
    pub chat_scroll: int,
    pub chat_scroll_pending: bool,
    pub dataset_index: int,
    pub downloading: bool,
}

impl View for App {
    type V = AppState;

    open spec fn view(&self) -> AppState {
        AppState {
            screen: self.screen,
            menu_index: self.menu_index as int,
            quit: self.quit,
            settings: self.settings@,
            values: values_of(self.settings_entries@),
            settings_selected: self.settings_selected as int,
            settings_editing: self.settings_editing,
            edit_buffer: self.edit_buffer@,
            train_data: self.train_data@,
            train_steps: self.train_steps@,
            train_field: self.train_field as int,
            resuming: self.resuming,
            data_files: views(self.data_files@),
            has_model: self.has_model,
            history: views(self.chat_history@),
            chat_input: self.chat_input@,
            chat_scroll: self.chat_scroll as int,
            chat_scroll_pending: self.chat_scroll_pending,
            dataset_index: self.dataset_index as int,
            downloading: self.downloading,
        }
    }
}

impl AppState {
    /// Every selection is one that exists.
    pub open spec fn wf(self) -> bool {
        &&& 0 <= self.menu_index < MENU_COUNT
        &&& 0 <= self.settings_selected < ENTRY_COUNT
        &&& self.values.len() == ENTRY_COUNT
        &&& 0 <= self.train_field < 2
        &&& 0 <= self.dataset_index < DATASET_COUNT
        &&& 0 <= self.chat_scroll <= usize::MAX
    }
}

/// The state at startup.
pub open spec fn initial(settings: SettingsView, files: Seq<Seq<char>>) -> AppState {
    AppState {
        screen: Screen::Menu,
        menu_index: 0,
        quit: false,
        settings,
        values: entry_values(settings),
        settings_selected: 0,
        settings_editing: false,
        edit_buffer: Seq::empty(),
        train_data: "data/input.txt"@,
        train_steps: "20000"@,
        train_field: 0,
        resuming: false,
        data_files: files,
        has_model: false,
        history: Seq::empty(),
        chat_input: Seq::empty(),
        chat_scroll: 0,
        chat_scroll_pending: false,
        dataset_index: 0,
        downloading: false,
    }
}

/// The path leads into `data/`.
pub open spec fn in_data(train_data: Seq<char>) -> bool {
    after_prefix(train_data, "data/"@) is Some
}

/// The file that a path of the train form names in `data/`.
pub open spec fn picked(train_data: Seq<char>) -> Seq<char> {
    match after_prefix(train_data, "data/"@) {
        Some(name) => name,
        None => Seq::empty(),
    }
}

/// The state with a fresh list of the data files. A train form whose file in
/// `data/` is not among them takes the first; a path to anywhere else stays.
pub open spec fn refreshed(a: AppState, files: Seq<Seq<char>>) -> AppState {
    AppState {
        data_files: files,
        train_data: if files.len() > 0 && in_data(a.train_data) && !files.contains(
            picked(a.train_data),
        ) {
            "data/"@ + files[0]
        } else {
            a.train_data
        },
        ..a
    }
}

/// The index of a name in a list, from `at` on; 0 if it is not there.
pub open spec fn index_in(files: Seq<Seq<char>>, name: Seq<char>, at: int) -> int
    decreases files.len() - at,
{
    if at >= files.len() {
        0
    } else if files[at] == name {
        at
    } else {
        index_in(files, name, at + 1)
    }
}

/// The train form goes on to the next data file, or back to the previous one.
pub open spec fn data_cycled(a: AppState, forward: bool) -> AppState {
    let n = a.data_files.len() as int;
    if n == 0 {
        a
    } else {
        let at = index_in(a.data_files, picked(a.train_data), 0);
        let next = if forward {
            (at + 1) % n
        } else {
            (at - 1) % n
        };
        AppState { train_data: "data/"@ + a.data_files[next], ..a }
    }
}

/// A text without its last character.
pub open spec fn popped(s: Seq<char>) -> Seq<char> {
    if s.len() == 0 {
        s
    } else {
        s.drop_last()
    }
}

/// A decimal digit.
pub open spec fn ascii_digit(c: char) -> bool {
    '0' <= c && c <= '9'
}

/// A selection moved up.
pub open spec fn up_from(i: int) -> int {
    if i > 0 {
        i - 1
    } else {
        i
    }
}

/// A selection among `n` moved down.
pub open spec fn down_from(i: int, n: int) -> int {
    if i + 1 < n {
        i + 1
    } else {
        n - 1
    }
}

/// The keys that move a selection up.
pub open spec fn is_up(key: Key) -> bool {
    key == Key::Up || key == Key::Char('k')
}

/// The keys that move a selection down.
pub open spec fn is_down(key: Key) -> bool {
    key == Key::Down || key == Key::Char('j')
}

/// The keys that leave a screen.
pub open spec fn is_leave(key: Key) -> bool {
    key == Key::Esc || key == Key::Char('q')
}

/// Leaving the program.
pub open spec fn quitted(a: AppState) -> (AppState, EffectView) {
    (AppState { quit: true, ..a }, EffectView::Quit)
}

/// Starting to train.
pub open spec fn training_started(a: AppState, files: Seq<Seq<char>>) -> (AppState, EffectView) {
    (AppState { screen: Screen::TrainRun, ..refreshed(a, files) }, EffectView::StartTraining)
}

/// Starting to download.
pub open spec fn download_started(a: AppState, files: Seq<Seq<char>>) -> (AppState, EffectView) {
    (AppState { downloading: true, data_files: files, ..a }, EffectView::StartDownload)
}

/// Submitting the chat input, unless it is blank.
pub open spec fn chat_submitted(a: AppState) -> (AppState, EffectView) {
    let prompt = trimmed(a.chat_input);
    if prompt.len() == 0 {
        (a, EffectView::Nothing)
    } else {
        (
            AppState { chat_input: Seq::empty(), chat_scroll_pending: true, ..a },
            EffectView::Ask(prompt),
        )
    }
}

/// Committing the edit of a row of the settings panel. A row of the
/// architecture makes the template a custom one.
pub open spec fn edit_committed(a: AppState, reals: RealsView) -> (AppState, EffectView) {
    let values = a.values.update(a.settings_selected, a.edit_buffer);
    let s = applied(values, a.settings, reals);
    let settings = if 10 <= a.settings_selected <= 14 {
        SettingsView { model_template: "custom"@, ..s }
    } else {
        s
    };
    (
        AppState {
            settings,
            values: entry_values(settings),
            settings_editing: false,
            ..a
        },
        EffectView::SaveSettings,
    )
}

/// Going on to the next model-size template.
pub open spec fn template_cycled(a: AppState) -> (AppState, EffectView) {
    let settings = with_template(
        a.settings,
        templates()[template_behind(a.settings.model_template)],
    );
    (AppState { settings, values: entry_values(settings), ..a }, EffectView::SaveSettings)
}

/// Choosing the entry of the main menu that is selected.
pub open spec fn menu_entered(a: AppState, files: Seq<Seq<char>>) -> (AppState, EffectView) {
    if a.menu_index == 0 {
        (
            refreshed(
                AppState {
                    screen: Screen::TrainForm,
                    resuming: false,
                    train_steps: decimal(a.settings.steps as nat),
                    ..a
                },
                files,
            ),
            EffectView::Nothing,
        )
    } else if a.menu_index == 1 {
        (
            refreshed(
                AppState {
                    screen: Screen::TrainForm,
                    resuming: true,
                    train_steps: "5000"@,
                    ..a
                },
                files,
            ),
            EffectView::Nothing,
        )
    } else if a.menu_index == 2 {
        (
            AppState { screen: Screen::Chat, ..a },
            if a.has_model {
                EffectView::Nothing
            } else {
                EffectView::LoadModel
            },
        )
    } else if a.menu_index == 3 {
        (AppState { screen: Screen::Datasets, dataset_index: 0, ..a }, EffectView::Nothing)
    } else if a.menu_index == 4 {
        (AppState { screen: Screen::Eval, ..a }, EffectView::Nothing)
    } else if a.menu_index == 5 {
        (
            AppState {
                screen: Screen::Settings,
                values: entry_values(a.settings),
                settings_selected: 0,
                settings_editing: false,
                ..a
            },
            EffectView::Nothing,
        )
    } else if a.menu_index == 6 {
        (
            AppState {
                settings: SettingsView { device: device_behind(a.settings.device), ..a.settings },
                ..a
            },
            EffectView::SaveSettings,
        )
    } else if a.menu_index == 7 {
        (AppState { screen: Screen::About, ..a }, EffectView::Nothing)
    } else {
        quitted(a)
    }
}

/// What Enter does on each screen.
pub open spec fn entered(a: AppState, files: Seq<Seq<char>>, reals: RealsView) -> (
    AppState,
    EffectView,
) {
    match a.screen {
        Screen::Menu => menu_entered(a, files),
        Screen::TrainForm => training_started(a, files),
        Screen::Chat => chat_submitted(a),
        Screen::Datasets => download_started(a, files),
        Screen::Settings => if a.settings_editing {
            edit_committed(a, reals)
        } else {
            (a, EffectView::Nothing)
        },
        _ => (a, EffectView::Nothing),
    }
}

/// A key on the main menu.
pub open spec fn menu_key(a: AppState, key: Key, files: Seq<Seq<char>>) -> (AppState, EffectView) {
    if is_up(key) {
        (AppState { menu_index: up_from(a.menu_index), ..a }, EffectView::Nothing)
    } else if is_down(key) {
        (
            AppState { menu_index: down_from(a.menu_index, MENU_COUNT as int), ..a },
            EffectView::Nothing,
        )
    } else if key == Key::Enter {
        menu_entered(a, files)
    } else if is_leave(key) {
        quitted(a)
    } else {
        (a, EffectView::Nothing)
    }
}

/// A key on the train form.
pub open spec fn form_key(a: AppState, key: Key, files: Seq<Seq<char>>) -> (AppState, EffectView) {
    if key == Key::Tab {
        (AppState { train_field: (a.train_field + 1) % 2, ..a }, EffectView::Nothing)
    } else if a.train_field == 0 && is_up(key) {
        (data_cycled(a, false), EffectView::Nothing)
    } else if a.train_field == 0 && is_down(key) {
        (data_cycled(a, true), EffectView::Nothing)
    } else if key == Key::Backspace {
        (
            if a.train_field == 0 {
                AppState { train_data: popped(a.train_data), ..a }
            } else {
                AppState { train_steps: popped(a.train_steps), ..a }
            },
            EffectView::Nothing,
        )
    } else if key is Char {
        (
            if a.train_field == 0 {
                AppState { train_data: a.train_data.push(key->Char_0), ..a }
            } else if ascii_digit(key->Char_0) {
                AppState { train_steps: a.train_steps.push(key->Char_0), ..a }
            } else {
                a
            },
            EffectView::Nothing,
        )
    } else if key == Key::Enter {
        training_started(a, files)
    } else if key == Key::Esc {
        (AppState { screen: Screen::Menu, ..a }, EffectView::Nothing)
    } else {
        (a, EffectView::Nothing)
    }
}

/// An offset from the top moved on by three lines, as far as it goes.
pub open spec fn scrolled_on(n: int) -> int {
    if n + 3 > usize::MAX {
        usize::MAX as int
    } else {
        n + 3
    }
}

/// An offset from the top moved back by three lines, up to the first.
pub open spec fn scrolled_back(n: int) -> int {
    if n < 3 {
        0
    } else {
        n - 3
    }
}

/// A key on the chat screen.
pub open spec fn chat_key(a: AppState, key: Key) -> (AppState, EffectView) {
    if key == Key::Backspace {
        (AppState { chat_input: popped(a.chat_input), ..a }, EffectView::Nothing)
    } else if key == Key::Enter {
        chat_submitted(a)
    } else if key == Key::Esc {
        (AppState { screen: Screen::Menu, ..a }, EffectView::Nothing)
    } else if key == Key::PageUp || key == Key::Char('k') {
        (AppState { chat_scroll: scrolled_back(a.chat_scroll), ..a }, EffectView::Nothing)
    } else if key == Key::PageDown || key == Key::Char('j') {
        (
            AppState {
                chat_scroll: scrolled_on(a.chat_scroll),
                chat_scroll_pending: false,
                ..a
            },
            EffectView::Nothing,
        )
    } else if key is Char {
        (AppState { chat_input: a.chat_input.push(key->Char_0), ..a }, EffectView::Nothing)
    } else {
        (a, EffectView::Nothing)
    }
}

/// A key on the settings panel. The first row is no text to edit: Enter and the
/// arrows cycle through the templates.
pub open spec fn settings_key(a: AppState, key: Key, reals: RealsView) -> (AppState, EffectView) {
    if a.settings_editing {
        if key == Key::Backspace {
            (AppState { edit_buffer: popped(a.edit_buffer), ..a }, EffectView::Nothing)
        } else if key is Char {
            (AppState { edit_buffer: a.edit_buffer.push(key->Char_0), ..a }, EffectView::Nothing)
        } else if key == Key::Enter {
            edit_committed(a, reals)
        } else if key == Key::Esc {
            (AppState { settings_editing: false, ..a }, EffectView::Nothing)
        } else {
            (a, EffectView::Nothing)
        }
    } else if is_up(key) {
        (AppState { settings_selected: up_from(a.settings_selected), ..a }, EffectView::Nothing)
    } else if is_down(key) {
        (
            AppState {
                settings_selected: down_from(a.settings_selected, a.values.len() as int),
                ..a
            },
            EffectView::Nothing,
        )
    } else if key == Key::Esc {
        (AppState { screen: Screen::Menu, ..a }, EffectView::Nothing)
    } else if a.settings_selected == 0 {
        if key == Key::Enter || key == Key::Left || key == Key::Right {
            template_cycled(a)
        } else {
            (a, EffectView::Nothing)
        }
    } else if key == Key::Enter {
        (
            AppState { edit_buffer: a.values[a.settings_selected], settings_editing: true, ..a },
            EffectView::Nothing,
        )
    } else {
        (a, EffectView::Nothing)
    }
}

/// A key on the datasets screen.
pub open spec fn datasets_key(a: AppState, key: Key, files: Seq<Seq<char>>) -> (
    AppState,
    EffectView,
) {
    if is_up(key) {
        (AppState { dataset_index: up_from(a.dataset_index), ..a }, EffectView::Nothing)
    } else if is_down(key) {
        (
            AppState { dataset_index: down_from(a.dataset_index, DATASET_COUNT as int), ..a },
            EffectView::Nothing,
        )
    } else if key == Key::Enter {
        download_started(a, files)
    } else if is_leave(key) {
        (AppState { screen: Screen::Menu, downloading: false, ..a }, EffectView::StopDownload)
    } else {
        (a, EffectView::Nothing)
    }
}

/// What a key does. `files` are the text files in `data/`, and `reals` what the
/// rows of the settings panel with real numbers are read as.
pub open spec fn pressed(
    a: AppState,
    key: Key,
    ctrl: bool,
    files: Seq<Seq<char>>,
    reals: RealsView,
) -> (AppState, EffectView) {
    if ctrl && key == Key::Char('c') {
        quitted(a)
    } else {
        match a.screen {
            Screen::Menu => menu_key(a, key, files),
            Screen::TrainForm => form_key(a, key, files),
            Screen::TrainRun => if is_leave(key) {
                (AppState { screen: Screen::Menu, ..a }, EffectView::StopTraining)
            } else {
                (a, EffectView::Nothing)
            },
            Screen::Chat => chat_key(a, key),
            Screen::Settings => settings_key(a, key, reals),
            Screen::Datasets => datasets_key(a, key, files),
            Screen::Eval | Screen::About => if is_leave(key) {
                (AppState { screen: Screen::Menu, ..a }, EffectView::Nothing)
            } else {
                (a, EffectView::Nothing)
            },
        }
    }
}

fn up_key(key: Key) -> (r: bool)
    ensures
        r == is_up(key),
{
    key == Key::Up || key == Key::Char('k')
}

fn down_key(key: Key) -> (r: bool)
    ensures
        r == is_down(key),
{
    key == Key::Down || key == Key::Char('j')
}

fn leave_key(key: Key) -> (r: bool)
    ensures
        r == is_leave(key),
{
    key == Key::Esc || key == Key::Char('q')
}

fn digit_char(c: char) -> (r: bool)
    ensures
        r == ascii_digit(c),
{
    let n: u32 = c as u32;
    48 <= n && n <= 57
}

fn move_up(i: usize) -> (r: usize)
    ensures
        r == up_from(i as int),
{
    if i > 0 {
        i - 1
    } else {
        i
    }
}

fn move_down(i: usize, n: usize) -> (r: usize)
    requires
        i < n,
    ensures
        r == down_from(i as int, n as int),
{
    if i + 1 < n {
        i + 1
    } else {
        n - 1
    }
}

/// The file that a path of the train form names in `data/`.
fn picked_file(train_data: &str) -> (r: String)
    ensures
        r@ == picked(train_data@),
{
    match strip_prefix(train_data, "data/") {
        Some(name) => name,
        None => {
            let s = String::new();
            assert(s@ =~= Seq::empty());
            s
        },
    }
}

/// The index of a name in a list; 0 if it is not there. Also says whether it is.
fn find_name(files: &Vec<String>, name: &str) -> (r: (usize, bool))
    ensures
        r.0 == index_in(views(files@), name@, 0),
        r.1 == views(files@).contains(name@),
        files@.len() > 0 ==> r.0 < files@.len(),
{
    for i in 0..files.len()
        invariant
            index_in(views(files@), name@, 0) == index_in(views(files@), name@, i as int),
            forall|j: int| 0 <= j < i ==> #[trigger] views(files@)[j] != name@,
    {
        if same(files[i].as_str(), name) {
            assert(views(files@)[i as int] == name@);
            return (i, true);
        }
    }
    (0, false)
}

impl App {
    /// A state in which every selection exists and every row has its label.
    pub open spec fn wf(&self) -> bool {
        self@.wf() && labels_of(self.settings_entries@) == entry_labels()
    }

    /// The state at startup.
    pub fn new(settings: Settings, files: Vec<String>) -> (a: Self)
        ensures
            a.wf(),
            a@ == initial(settings@, views(files@)),
            a.screen is Menu && a.menu_index == 0 && !a.quit && !a.resuming && !a.has_model,
            a.settings@ == settings@ && a@.values == entry_values(settings@),
            a@.data_files == views(files@) && a@.train_data == "data/input.txt"@,
            a@.train_steps == "20000"@ && a.train_field == 0 && !a.settings_editing,
            a@.history.len() == 0 && a@.chat_input.len() == 0 && a.chat_scroll == 0,
            !a.chat_scroll_pending && a.dataset_index == 0 && !a.downloading,
    {
        let settings_entries = entries_from_settings(&settings);
        let chat_history: Vec<String> = Vec::new();
        let a = App {
            screen: Screen::Menu,
            menu_index: 0,
            quit: false,
            settings,
            settings_entries,
            settings_selected: 0,
            settings_editing: false,
            edit_buffer: String::new(),
            train_data: "data/input.txt".to_owned(),
            train_steps: "20000".to_owned(),
            train_field: 0,
            resuming: false,
            data_files: files,
            has_model: false,
            chat_history,
            chat_input: String::new(),
            chat_scroll: 0,
            chat_scroll_pending: false,
            dataset_index: 0,
            downloading: false,
        };
        proof {
            assert(a@.history =~= Seq::empty());
            assert(a@.edit_buffer =~= Seq::empty());
            assert(a@.chat_input =~= Seq::empty());
        }
        a
    }

    /// Take over a fresh list of the data files.
    pub fn refresh_data_files(&mut self, files: Vec<String>)
        requires
            old(self).wf(),
        ensures
            final(self).wf(),
            final(self)@ == refreshed(old(self)@, views(files@)),
    {
        self.data_files = files;
        if self.data_files.len() > 0 {
            if let Some(name) = strip_prefix(self.train_data.as_str(), "data/") {
                let found = find_name(&self.data_files, name.as_str());
                if !found.1 {
                    self.train_data = concat2("data/", self.data_files[0].as_str());
                }
            }
        }
    }

    /// Go on to the next data file, or back to the previous one.
    pub fn cycle_data(&mut self, forward: bool)
        requires
            old(self).wf(),
        ensures
            final(self).wf(),
            final(self)@ == data_cycled(old(self)@, forward),
    {
        let n = self.data_files.len();
        if n == 0 {
            return;
        }
        let name = picked_file(self.train_data.as_str());
        let at = find_name(&self.data_files, name.as_str()).0;
        let next: usize = if forward {
            if at + 1 < n {
                at + 1
            } else {
                0
            }
        } else if at > 0 {
            at - 1
        } else {
            n - 1
        };
        proof {
            lemma_wrap(at as int, n as int);
        }
        self.train_data = concat2("data/", self.data_files[next].as_str());
    }

    /// Cancel the run and leave.
    pub fn request_quit(&mut self) -> (e: Effect)
        requires
            old(self).wf(),
        ensures
            final(self).wf(),
            (final(self)@, e@) == quitted(old(self)@),
    {
        self.quit = true;
        Effect::Quit
    }

    /// Start to train.
    pub fn start_training(&mut self, files: Vec<String>) -> (e: Effect)
        requires
            old(self).wf(),
        ensures
            final(self).wf(),
            (final(self)@, e@) == training_started(old(self)@, views(files@)),
    {
        self.refresh_data_files(files);
        self.screen = Screen::TrainRun;
        Effect::StartTraining
    }

    /// Start to download the dataset that is selected.
    pub fn start_download(&mut self, files: Vec<String>) -> (e: Effect)
        requires
            old(self).wf(),
        ensures
            final(self).wf(),
            (final(self)@, e@) == download_started(old(self)@, views(files@)),
    {
        self.downloading = true;
        self.data_files = files;
        Effect::StartDownload
    }

    /// Submit the chat input.
    pub fn submit_chat(&mut self) -> (e: Effect)
        requires
            old(self).wf(),
        ensures
            final(self).wf(),
            (final(self)@, e@) == chat_submitted(old(self)@),
    {
        let prompt = trim(self.chat_input.as_str());
        if prompt.as_str().is_empty() {
            return Effect::Nothing;
        }
        self.chat_input = String::new();
        self.chat_scroll_pending = true;
        assert(self@.chat_input =~= Seq::empty());
        Effect::Ask(prompt)
    }

    /// Commit the edit of a row of the settings panel.
    pub fn commit_edit(&mut self, reals: &Reals) -> (e: Effect)
        requires
            old(self).wf(),
        ensures
            final(self).wf(),
            (final(self)@, e@) == edit_committed(old(self)@, reals@),
    {
        let i = self.settings_selected;
        let label = self.settings_entries[i].label.clone();
        let entry = Entry { label, value: self.edit_buffer.clone() };
        self.settings_entries.set(i, entry);
        assert(values_of(self.settings_entries@) =~= old(self)@.values.update(
            i as int,
            old(self)@.edit_buffer,
        ));
        self.settings_editing = false;
        self.settings = apply_settings(&self.settings_entries, &self.settings, reals);
        if 10 <= i && i <= 14 {
            self.settings.model_template = "custom".to_owned();
        }
        self.settings_entries = entries_from_settings(&self.settings);
        Effect::SaveSettings
    }

    /// Go on to the next model-size template.
    pub fn cycle_template(&mut self) -> (e: Effect)
        requires
            old(self).wf(),
        ensures
            final(self).wf(),
            (final(self)@, e@) == template_cycled(old(self)@),
    {
        self.settings.cycle_template();
        self.settings_entries = entries_from_settings(&self.settings);
        Effect::SaveSettings
    }

    /// Go on to the next backend preference.
    pub fn cycle_device(&mut self) -> (e: Effect)
        requires
            old(self).wf(),
        ensures
            final(self).wf(),
            e@ is SaveSettings,
            final(self)@ == (AppState {
                settings: SettingsView {
                    device: device_behind(old(self)@.settings.device),
                    ..old(self)@.settings
                },
                ..old(self)@
            }),
    {
        self.settings.cycle_device();
        Effect::SaveSettings
    }

    /// Remove the last character of the field that is being edited.
    pub fn backspace_train(&mut self)
        requires
            old(self).wf(),
        ensures
            final(self).wf(),
            final(self)@ == (if old(self)@.train_field == 0 {
                AppState { train_data: popped(old(self)@.train_data), ..old(self)@ }
            } else {
                AppState { train_steps: popped(old(self)@.train_steps), ..old(self)@ }
            }),
    {
        if self.train_field == 0 {
            let _ = self.train_data.pop();
        } else {
            let _ = self.train_steps.pop();
        }
    }

    /// Add a character to the field that is being edited; the step count takes
    /// digits only.
    pub fn typed_train(&mut self, c: char)
        requires
            old(self).wf(),
        ensures
            final(self).wf(),
            final(self)@ == (if old(self)@.train_field == 0 {
                AppState { train_data: old(self)@.train_data.push(c), ..old(self)@ }
            } else if ascii_digit(c) {
                AppState { train_steps: old(self)@.train_steps.push(c), ..old(self)@ }
            } else {
                old(self)@
            }),
    {
        if self.train_field == 0 {
            self.train_data.push(c);
        } else if digit_char(c) {
            self.train_steps.push(c);
        }
    }

    /// Choose the entry of the main menu that is selected.
    fn enter_menu(&mut self, files: Vec<String>) -> (e: Effect)
        requires
            old(self).wf(),
        ensures
            final(self).wf(),
            (final(self)@, e@) == menu_entered(old(self)@, views(files@)),
    {
        if self.menu_index == 0 {
            self.screen = Screen::TrainForm;
            self.resuming = false;
            self.train_steps = number_text(self.settings.steps);
            self.refresh_data_files(files);
            Effect::Nothing
        } else if self.menu_index == 1 {
            self.screen = Screen::TrainForm;
            self.resuming = true;
            self.train_steps = "5000".to_owned();
            self.refresh_data_files(files);
            Effect::Nothing
        } else if self.menu_index == 2 {
            self.screen = Screen::Chat;
            if self.has_model {
                Effect::Nothing
            } else {
                Effect::LoadModel
            }
        } else if self.menu_index == 3 {
            self.dataset_index = 0;
            self.screen = Screen::Datasets;
            Effect::Nothing
        } else if self.menu_index == 4 {
            self.screen = Screen::Eval;
            Effect::Nothing
        } else if self.menu_index == 5 {
            self.settings_entries = entries_from_settings(&self.settings);
            self.settings_selected = 0;
            self.settings_editing = false;
            self.screen = Screen::Settings;
            Effect::Nothing
        } else if self.menu_index == 6 {
            self.cycle_device()
        } else if self.menu_index == 7 {
            self.screen = Screen::About;
            Effect::Nothing
        } else {
            self.request_quit()
        }
    }

    /// Enter, on any screen.
    pub fn on_enter(&mut self, files: Vec<String>, reals: &Reals) -> (e: Effect)
        requires
            old(self).wf(),
        ensures
            final(self).wf(),
            (final(self)@, e@) == entered(old(self)@, views(files@), reals@),
    {
        match self.screen {
            Screen::Menu => self.enter_menu(files),
            Screen::TrainForm => self.start_training(files),
            Screen::Chat => self.submit_chat(),
            Screen::Datasets => self.start_download(files),
            Screen::Settings => {
                if self.settings_editing {
                    self.commit_edit(reals)
                } else {
                    Effect::Nothing
                }
            },
            _ => Effect::Nothing,
        }
    }

    fn on_menu_key(&mut self, key: Key, files: Vec<String>) -> (e: Effect)
        requires
            old(self).wf(),
        ensures
            final(self).wf(),
            (final(self)@, e@) == menu_key(old(self)@, key, views(files@)),
    {
        if up_key(key) {
            self.menu_index = move_up(self.menu_index);
            Effect::Nothing
        } else if down_key(key) {
            self.menu_index = move_down(self.menu_index, MENU_COUNT);
            Effect::Nothing
        } else if key == Key::Enter {
            self.enter_menu(files)
        } else if leave_key(key) {
            self.request_quit()
        } else {
            Effect::Nothing
        }
    }

    fn on_form_key(&mut self, key: Key, files: Vec<String>) -> (e: Effect)
        requires
            old(self).wf(),
        ensures
            final(self).wf(),
            (final(self)@, e@) == form_key(old(self)@, key, views(files@)),
    {
        if key == Key::Tab {
            self.train_field = (self.train_field + 1) % 2;
            Effect::Nothing
        } else if self.train_field == 0 && up_key(key) {
            self.cycle_data(false);
            Effect::Nothing
        } else if self.train_field == 0 && down_key(key) {
            self.cycle_data(true);
            Effect::Nothing
        } else {
            match key {
                Key::Backspace => {
                    self.backspace_train();
                    Effect::Nothing
                },
                Key::Char(c) => {
                    self.typed_train(c);
                    Effect::Nothing
                },
                Key::Enter => self.start_training(files),
                Key::Esc => {
                    self.screen = Screen::Menu;
                    Effect::Nothing
                },
                _ => Effect::Nothing,
            }
        }
    }

    fn on_chat_key(&mut self, key: Key) -> (e: Effect)
        requires
            old(self).wf(),
        ensures
            final(self).wf(),
            (final(self)@, e@) == chat_key(old(self)@, key),
    {
        if key == Key::PageUp || key == Key::Char('k') {
            self.chat_scroll = if self.chat_scroll < 3 {
                0
            } else {
                self.chat_scroll - 3
            };
            return Effect::Nothing;
        }
        if key == Key::PageDown || key == Key::Char('j') {
            self.chat_scroll = if self.chat_scroll > usize::MAX - 3 {
                usize::MAX
            } else {
                self.chat_scroll + 3
            };
            self.chat_scroll_pending = false;
            return Effect::Nothing;
        }
        match key {
            Key::Backspace => {
                let _ = self.chat_input.pop();
                Effect::Nothing
            },
            Key::Enter => self.submit_chat(),
            Key::Esc => {
                self.screen = Screen::Menu;
                Effect::Nothing
            },
            Key::Char(c) => {
                self.chat_input.push(c);
                Effect::Nothing
            },
            _ => Effect::Nothing,
        }
    }

    /// A key on the settings panel.
    pub fn on_settings_key(&mut self, key: Key, reals: &Reals) -> (e: Effect)
        requires
            old(self).wf(),
        ensures
            final(self).wf(),
            (final(self)@, e@) == settings_key(old(self)@, key, reals@),
    {
        if self.settings_editing {
            return match key {
                Key::Backspace => {
                    let _ = self.edit_buffer.pop();
                    Effect::Nothing
                },
                Key::Char(c) => {
                    self.edit_buffer.push(c);
                    Effect::Nothing
                },
                Key::Enter => self.commit_edit(reals),
                Key::Esc => {
                    self.settings_editing = false;
                    Effect::Nothing
                },
                _ => Effect::Nothing,
            };
        }
        if up_key(key) {
            self.settings_selected = move_up(self.settings_selected);
            Effect::Nothing
        } else if down_key(key) {
            self.settings_selected = move_down(
                self.settings_selected,
                self.settings_entries.len(),
            );
            Effect::Nothing
        } else if key == Key::Esc {
            self.screen = Screen::Menu;
            Effect::Nothing
        } else if self.settings_selected == 0 {
            if key == Key::Enter || key == Key::Left || key == Key::Right {
                self.cycle_template()
            } else {
                Effect::Nothing
            }
        } else if key == Key::Enter {
            self.edit_buffer = self.settings_entries[self.settings_selected].value.clone();
            self.settings_editing = true;
            Effect::Nothing
        } else {
            Effect::Nothing
        }
    }

    fn on_datasets_key(&mut self, key: Key, files: Vec<String>) -> (e: Effect)
        requires
            old(self).wf(),
        ensures
            final(self).wf(),
            (final(self)@, e@) == datasets_key(old(self)@, key, views(files@)),
    {
        if up_key(key) {
            self.dataset_index = move_up(self.dataset_index);
            Effect::Nothing
        } else if down_key(key) {
            self.dataset_index = move_down(self.dataset_index, DATASET_COUNT);
            Effect::Nothing
        } else if key == Key::Enter {
            self.start_download(files)
        } else if leave_key(key) {
            self.downloading = false;
            self.screen = Screen::Menu;
            Effect::StopDownload
        } else {
            Effect::Nothing
        }
    }

    /// A key, on any screen.
    pub fn on_key(&mut self, key: Key, ctrl: bool, files: Vec<String>, reals: &Reals) -> (e: Effect)
        requires
            old(self).wf(),
        ensures
            final(self).wf(),
            (final(self)@, e@) == pressed(old(self)@, key, ctrl, views(files@), reals@),
    {
        if ctrl && key == Key::Char('c') {
            return self.request_quit();
        }
        match self.screen {
            Screen::Menu => self.on_menu_key(key, files),
            Screen::TrainForm => self.on_form_key(key, files),
            Screen::TrainRun => {
                if leave_key(key) {
                    self.screen = Screen::Menu;
                    Effect::StopTraining
                } else {
                    Effect::Nothing
                }
            },
            Screen::Chat => self.on_chat_key(key),
            Screen::Settings => self.on_settings_key(key, reals),
            Screen::Datasets => self.on_datasets_key(key, files),
            Screen::Eval | Screen::About => {
                if leave_key(key) {
                    self.screen = Screen::Menu;
                }
                Effect::Nothing
            },
        }
    }

    /// How loading the model went: the error, if there was one.
    pub fn model_loaded(&mut self, error: Option<&str>)
        requires
            old(self).wf(),
        ensures
            final(self).wf(),
            final(self)@ == match error {
                None => AppState { has_model: true, ..old(self)@ },
                Some(e) => AppState {
                    history: old(self)@.history.push(
                        "Model not loaded: "@ + e@
                            + "\nTrain one first (menu: Train or Continue)."@,
                    ),
                    ..old(self)@
                },
            },
    {
        match error {
            None => {
                self.has_model = true;
            },
            Some(e) => {
                let mut s = "Model not loaded: ".to_owned();
                s.append(e);
                s.append("\nTrain one first (menu: Train or Continue).");
                self.chat_history.push(s);
                assert(self@.history =~= old(self)@.history.push(s@));
            },
        }
    }

    /// The prompt as the model is to complete it.
    pub fn question(&self, prompt: &str) -> (s: String)
        ensures
            s@ == templated(self@.settings.chat_template, prompt@),
    {
        apply_template(self.settings.chat_template.as_str(), prompt)
    }

    /// What became of a prompt: the text, or the error.
    pub fn answered(&mut self, prompt: &str, result: Result<&str, &str>)
        requires
            old(self).wf(),
        ensures
            final(self).wf(),
            final(self)@ == (AppState {
                history: old(self)@.history.push(
                    match result {
                        Ok(text) => "You: "@ + prompt@ + "\n\n"@ + text@,
                        Err(e) => "[error] "@ + e@,
                    },
                ),
                ..old(self)@
            }),
    {
        let s = match result {
            Ok(text) => {
                let mut s = "You: ".to_owned();
                s.append(prompt);
                s.append("\n\n");
                s.append(text);
                s
            },
            Err(e) => concat2("[error] ", e),
        };
        self.chat_history.push(s);
        assert(self@.history =~= old(self)@.history.push(s@));
    }

    /// What the run is to do. `checkpoint` is the architecture of the checkpoint
    /// to continue from, where it can be read.
    pub fn training_args(&self, checkpoint: Option<Config>) -> (args: TrainArgs)
        ensures
            args.data@ == if trimmed(self@.train_data).len() == 0 {
                self@.settings.data_file
            } else {
                trimmed(self@.train_data)
            },
            args.out_dir@ == "checkpoints"@,
            args.steps == match number_in(trimmed(self@.train_steps), usize::MAX as nat) {
                Some(n) => n,
                None => self@.settings.steps as nat,
            },
            args.batch_size == self@.settings.batch_size,
            args.seq_len == self@.settings.seq_len,
            args.lr@ == self@.settings.lr,
            self@.resuming ==> args.resume is Some && args.resume->Some_0@ == "checkpoints"@,
            !self@.resuming ==> args.resume is None,
            args.warmup_steps == 200,
            args.usual(),
            args.device@ == self@.settings.device,
            !self@.resuming ==> config_matches(args.config, self@.settings),
            self@.resuming && checkpoint is Some ==> args.config == checkpoint->Some_0,
            self@.resuming && checkpoint is None ==> args.config.is_preset(256, 4, 8),
    {
        let typed = trim(self.train_data.as_str());
        let data = if typed.as_str().is_empty() {
            self.settings.data_file.clone()
        } else {
            typed
        };
        let steps: usize = parse_or(trim(self.train_steps.as_str()).as_str(), self.settings.steps);
        let config = if self.resuming {
            config_from_checkpoint(checkpoint)
        } else {
            self.settings.build_config()
        };
        let resume = if self.resuming {
            Some("checkpoints".to_owned())
        } else {
            None
        };
        TrainArgs {
            data,
            out_dir: "checkpoints".to_owned(),
            steps,
            batch_size: self.settings.batch_size,
            seq_len: self.settings.seq_len,
            lr: self.settings.lr.copy(),
            log_every: 50,
            val_every: 500,
            val_batches: 4,
            save_every: 1000,
            val_frac: Binary64 { bits: VAL_FRAC },
            seed: 42,
            resume,
            warmup_steps: 200,
            grad_clip: Binary64 { bits: ONE },
            device: self.settings.device.clone(),
            config,
        }
    }

    /// The texts of the rows with real numbers, as Enter would commit them: the
    /// learning rate, the two decays and the temperature.
    pub fn real_rows(&self) -> (r: (String, String, String, String))
        requires
            self.wf(),
        ensures
            ({
                let values = if self@.settings_editing {
                    self@.values.update(self@.settings_selected, self@.edit_buffer)
                } else {
                    self@.values
                };
                &&& r.0@ == row(values, 6)
                &&& r.1@ == row(values, 15)
                &&& r.2@ == row(values, 16)
                &&& r.3@ == row(values, 18)
            }),
    {
        (self.row_text(6), self.row_text(15), self.row_text(16), self.row_text(18))
    }

    fn row_text(&self, i: usize) -> (s: String)
        requires
            self.wf(),
            i < ENTRY_COUNT,
        ensures
            s@ == row(
                if self@.settings_editing {
                    self@.values.update(self@.settings_selected, self@.edit_buffer)
                } else {
                    self@.values
                },
                i as int,
            ),
    {
        if self.settings_editing && i == self.settings_selected {
            self.edit_buffer.clone()
        } else {
            self.settings_entries[i].value.clone()
        }
    }
}

/// The architecture of a checkpoint, or the larger preset where it cannot be
/// read.
pub fn config_from_checkpoint(read: Option<Config>) -> (c: Config)
    ensures
        read matches Some(r) ==> c == r,
        read is None ==> c.is_preset(256, 4, 8),
{
    match read {
        Some(c) => c,
        None => Config::larger(),
    }
}

/// Moving on or back among `n` wraps around.
proof fn lemma_wrap(at: int, n: int)
    requires
        0 <= at < n,
    ensures
        (at + 1) % n == if at + 1 < n {
            at + 1
        } else {
            0
        },
        (at - 1) % n == if at > 0 {
            at - 1
        } else {
            n - 1
        },
{
    if at + 1 < n {
        vstd::arithmetic::div_mod::lemma_small_mod((at + 1) as nat, n as nat);
    } else {
        vstd::arithmetic::div_mod::lemma_mod_self_0(n);
    }
    if at > 0 {
        vstd::arithmetic::div_mod::lemma_small_mod((at - 1) as nat, n as nat);
    } else {
        vstd::arithmetic::div_mod::lemma_fundamental_div_mod_converse(-1, n, -1, n - 1);
    }
}

/// Whatever is pressed, every selection stays one that exists.
pub proof fn law_selections_exist(
    a: AppState,
    key: Key,
    ctrl: bool,
    files: Seq<Seq<char>>,
    reals: RealsView,
)
    requires
        a.wf(),
    ensures
        pressed(a, key, ctrl, files, reals).0.wf(),
{
    if !(ctrl && key == Key::Char('c')) {
        match a.screen {
            Screen::Menu => {
                lemma_menu_key(a, key, files);
            },
            Screen::TrainForm => {
                lemma_form_key(a, key, files);
            },
            Screen::Settings => {
                lemma_settings_key(a, key, reals);
            },
            _ => {},
        }
    }
}

proof fn lemma_menu_key(a: AppState, key: Key, files: Seq<Seq<char>>)
    requires
        a.wf(),
    ensures
        menu_key(a, key, files).0.wf(),
{
    lemma_entry_count(a.settings);
}

proof fn lemma_form_key(a: AppState, key: Key, files: Seq<Seq<char>>)
    requires
        a.wf(),
    ensures
        form_key(a, key, files).0.wf(),
{
}

proof fn lemma_settings_key(a: AppState, key: Key, reals: RealsView)
    requires
        a.wf(),
    ensures
        settings_key(a, key, reals).0.wf(),
{
    lemma_entry_count(edit_committed(a, reals).0.settings);
    lemma_entry_count(template_cycled(a).0.settings);
}

/// The panel has a fixed number of rows.
proof fn lemma_entry_count(s: SettingsView)
    ensures
        entry_values(s).len() == ENTRY_COUNT,
{
}

/// Ctrl+C leaves from anywhere, whatever else is going on.
pub proof fn law_ctrl_c_quits(a: AppState, files: Seq<Seq<char>>, reals: RealsView)
    ensures
        pressed(a, Key::Char('c'), true, files, reals) == (
            AppState { quit: true, ..a },
            EffectView::Quit,
        ),
{
}

/// In the chat PageUp and `k` lead back to earlier lines, and PageDown and `j`
/// on to later ones.
pub proof fn law_chat_scrolls_back(a: AppState)
    requires
        a.wf(),
    ensures
        chat_key(a, Key::PageUp).0.chat_scroll <= a.chat_scroll,
        chat_key(a, Key::PageUp) == chat_key(a, Key::Char('k')),
        chat_key(a, Key::PageDown).0.chat_scroll >= a.chat_scroll,
        chat_key(a, Key::PageDown) == chat_key(a, Key::Char('j')),
{
}

/// The program is left only by an effect that stops a run that is going on.
pub proof fn law_quit_stops_training(
    a: AppState,
    key: Key,
    ctrl: bool,
    files: Seq<Seq<char>>,
    reals: RealsView,
)
    requires
        !a.quit,
    ensures
        pressed(a, key, ctrl, files, reals).0.quit <==> pressed(
            a,
            key,
            ctrl,
            files,
            reals,
        ).1 is Quit,
{
}

/// Esc leads from every screen back to the menu, and from the menu out. What
/// was going on is stopped; settings and history stay as they are. While a row
/// is being edited, Esc gives up the edit and nothing else.
pub proof fn law_esc_goes_back(a: AppState, files: Seq<Seq<char>>, reals: RealsView)
    ensures
        ({
            let (b, e) = pressed(a, Key::Esc, false, files, reals);
            let editing = a.screen is Settings && a.settings_editing;
            &&& a.screen is Menu ==> b.quit && e is Quit
            &&& !(a.screen is Menu) && !editing ==> b.screen is Menu && b.quit == a.quit
            &&& editing ==> b == (AppState { settings_editing: false, ..a }) && e is Nothing
            &&& a.screen is TrainRun ==> e is StopTraining
            &&& a.screen is Datasets ==> e is StopDownload && !b.downloading
            &&& b.settings == a.settings
            &&& b.values == a.values
            &&& b.history == a.history
        }),
{
}

/// Editing a row of the architecture by hand makes the template a custom one,
/// and the panel says so.
pub proof fn law_architecture_edit_is_custom(a: AppState, reals: RealsView)
    requires
        a.wf(),
        10 <= a.settings_selected <= 14,
    ensures
        edit_committed(a, reals).0.settings.model_template == "custom"@,
        edit_committed(a, reals).0.values[0] == "custom"@,
{
}

/// Committing a row as it was shown changes no setting but the name of the
/// template, if real numbers are read back as they were shown.
pub proof fn law_unchanged_edit(a: AppState, reals: RealsView)
    requires
        a.wf(),
        a.values == entry_values(a.settings),
        a.edit_buffer == a.values[a.settings_selected],
        reals.lr == Some(a.settings.lr),
        reals.decay_min == Some(a.settings.decay_min),
        reals.decay_max == Some(a.settings.decay_max),
        reals.temperature == Some(a.settings.temperature),
    ensures
        edit_committed(a, reals).0.settings == (SettingsView {
            model_template: edit_committed(a, reals).0.settings.model_template,
            ..a.settings
        }),
{
    assert(a.values.update(a.settings_selected, a.edit_buffer) =~= a.values);
    law_settings_roundtrip(a.settings, a.settings, reals);
}

/// The settings panel opens with the values of the settings.
pub proof fn law_panel_shows_settings(a: AppState, files: Seq<Seq<char>>)
    requires
        a.menu_index == 5,
    ensures
        menu_entered(a, files).0.screen is Settings,
        menu_entered(a, files).0.values == entry_values(a.settings),
        menu_entered(a, files).0.settings == a.settings,
{
}

/// A train form whose path leads into `data/` names one of the data files after
/// a refresh, if there are any.
pub proof fn law_refresh_picks_a_file(a: AppState, files: Seq<Seq<char>>)
    requires
        files.len() > 0,
        in_data(a.train_data),
    ensures
        files.contains(picked(refreshed(a, files).train_data)),
{
    if !files.contains(picked(a.train_data)) {
        lemma_picked(files[0]);
        assert(files.contains(files[0]));
    }
}

/// A path to anywhere outside of `data/` is used as it was typed, whatever
/// files there are.
pub proof fn law_typed_path_is_kept(a: AppState, files: Seq<Seq<char>>)
    requires
        !in_data(a.train_data),
    ensures
        refreshed(a, files).train_data == a.train_data,
        training_started(a, files).0.train_data == a.train_data,
{
}

/// Going on to the next data file and back again, or back and on, leads to the
/// same file.
pub proof fn law_data_cycle_undone(a: AppState, i: int, forward: bool)
    requires
        0 <= i < a.data_files.len(),
        a.train_data == "data/"@ + a.data_files[i],
        forall|j: int, k: int|
            0 <= j < k < a.data_files.len() ==> a.data_files[j] != a.data_files[k],
    ensures
        data_cycled(data_cycled(a, forward), !forward) == a,
{
    let n = a.data_files.len() as int;
    lemma_picked(a.data_files[i]);
    lemma_index(a.data_files, i, 0);
    lemma_wrap(i, n);
    let b = data_cycled(a, forward);
    let next = if forward {
        (i + 1) % n
    } else {
        (i - 1) % n
    };
    lemma_picked(a.data_files[next]);
    lemma_index(a.data_files, next, 0);
    lemma_wrap(next, n);
}

/// The file that a path in `data/` names.
proof fn lemma_picked(name: Seq<char>)
    ensures
        picked("data/"@ + name) == name,
{
    let p = "data/"@;
    assert(p.is_prefix_of(p + name));
    assert((p + name).skip(p.len() as int) =~= name);
}

/// Among distinct names, each is found at its own index.
proof fn lemma_index(files: Seq<Seq<char>>, i: int, at: int)
    requires
        0 <= at <= i < files.len(),
        forall|j: int, k: int| 0 <= j < k < files.len() ==> files[j] != files[k],
    ensures
        index_in(files, files[i], at) == i,
    decreases i - at,
{
    if at < i {
        assert(files[at] != files[i]);
        lemma_index(files, i, at + 1);
    }
}

/// The entries of the main menu lead to their screens, in order; the one for
/// the device goes on to the next preference, and the last leaves.
pub proof fn law_menu_leads(a: AppState, files: Seq<Seq<char>>, reals: RealsView)
    requires
        a.wf(),
        a.screen is Menu,
    ensures
        ({
            let (b, e) = pressed(a, Key::Enter, false, files, reals);
            &&& a.menu_index == 0 ==> b.screen is TrainForm && !b.resuming && b.train_steps
                == decimal(a.settings.steps as nat) && e is Nothing
            &&& a.menu_index == 1 ==> b.screen is TrainForm && b.resuming && b.train_steps
                == "5000"@ && e is Nothing
            &&& a.menu_index == 2 ==> b.screen is Chat && (e is LoadModel <==> !a.has_model)
            &&& a.menu_index == 3 ==> b.screen is Datasets && b.dataset_index == 0 && e is Nothing
            &&& a.menu_index == 4 ==> b.screen is Eval && e is Nothing
            &&& a.menu_index == 5 ==> b.screen is Settings && e is Nothing
            &&& a.menu_index == 6 ==> b.screen is Menu && e is SaveSettings && b.settings.device
                == device_behind(a.settings.device)
            &&& a.menu_index == 7 ==> b.screen is About && e is Nothing
            &&& a.menu_index == 8 ==> b.quit && e is Quit
            &&& b.history == a.history && b.chat_input == a.chat_input
            &&& a.menu_index != 6 ==> b.settings == a.settings
            &&& a.menu_index <= 1 ==> b.data_files == files && b.train_data == refreshed(
                a,
                files,
            ).train_data
            &&& a.menu_index > 1 ==> b.train_data == a.train_data && b.train_steps == a.train_steps
        }),
{
}

/// The arrow keys, and `k` and `j`, move a selection by one, and no further than
/// its ends.
pub proof fn law_selection_moves(
    a: AppState,
    up: Key,
    down: Key,
    files: Seq<Seq<char>>,
    reals: RealsView,
)
    requires
        a.wf(),
        up == Key::Up || up == Key::Char('k'),
        down == Key::Down || down == Key::Char('j'),
    ensures
        ({
            let (b, e) = pressed(a, up, false, files, reals);
            let (c, f) = pressed(a, down, false, files, reals);
            &&& a.screen is Menu ==> {
                &&& b == (AppState { menu_index: b.menu_index, ..a }) && e is Nothing
                &&& c == (AppState { menu_index: c.menu_index, ..a }) && f is Nothing
                &&& a.menu_index > 0 ==> b.menu_index == a.menu_index - 1
                &&& a.menu_index < 8 ==> c.menu_index == a.menu_index + 1
                &&& a.menu_index == 0 ==> b.menu_index == 0
                &&& a.menu_index == 8 ==> c.menu_index == 8
            }
            &&& a.screen is Datasets ==> {
                &&& b == (AppState { dataset_index: b.dataset_index, ..a }) && e is Nothing
                &&& c == (AppState { dataset_index: c.dataset_index, ..a }) && f is Nothing
                &&& a.dataset_index > 0 ==> b.dataset_index == a.dataset_index - 1
                &&& a.dataset_index < 3 ==> c.dataset_index == a.dataset_index + 1
                &&& a.dataset_index == 0 ==> b.dataset_index == 0
                &&& a.dataset_index == 3 ==> c.dataset_index == 3
            }
            &&& a.screen is Settings && !a.settings_editing ==> {
                &&& b == (AppState { settings_selected: b.settings_selected, ..a }) && e is Nothing
                &&& c == (AppState { settings_selected: c.settings_selected, ..a }) && f is Nothing
                &&& a.settings_selected > 0 ==> b.settings_selected == a.settings_selected - 1
                &&& a.settings_selected < 20 ==> c.settings_selected == a.settings_selected + 1
                &&& a.settings_selected == 0 ==> b.settings_selected == 0
                &&& a.settings_selected == 20 ==> c.settings_selected == 20
            }
        }),
{
}

/// What is typed is added to the field that is being edited, and to nothing
/// else; Backspace takes it away again. The step count takes digits only.
pub proof fn law_typing(a: AppState, c: char, files: Seq<Seq<char>>, reals: RealsView)
    requires
        a.wf(),
    ensures
        ({
            let (b, e) = pressed(a, Key::Char(c), false, files, reals);
            let path = a.screen is TrainForm && a.train_field == 0 && c != 'k' && c != 'j';
            let steps = a.screen is TrainForm && a.train_field == 1;
            let digit = '0' as u32 <= c as u32 <= '9' as u32;
            let chat = a.screen is Chat && c != 'k' && c != 'j';
            let row = a.screen is Settings && a.settings_editing;
            &&& path ==> b == (AppState { train_data: a.train_data.push(c), ..a })
            &&& steps && digit ==> b == (AppState { train_steps: a.train_steps.push(c), ..a })
            &&& steps && !digit ==> b == a
            &&& chat ==> b == (AppState { chat_input: a.chat_input.push(c), ..a })
            &&& row ==> b == (AppState { edit_buffer: a.edit_buffer.push(c), ..a })
            &&& path || steps || chat || row ==> e is Nothing
            &&& path || (steps && digit) || chat || row ==> pressed(
                b,
                Key::Backspace,
                false,
                files,
                reals,
            ) == (a, EffectView::Nothing)
        }),
{
    let (b, e) = pressed(a, Key::Char(c), false, files, reals);
    assert(a.train_data.push(c).drop_last() =~= a.train_data);
    assert(a.train_steps.push(c).drop_last() =~= a.train_steps);
    assert(a.chat_input.push(c).drop_last() =~= a.chat_input);
    assert(a.edit_buffer.push(c).drop_last() =~= a.edit_buffer);
}

/// Tab changes between the two fields of the train form, and Enter starts the
/// run that the form describes.
pub proof fn law_train_form(a: AppState, files: Seq<Seq<char>>, reals: RealsView)
    requires
        a.wf(),
        a.screen is TrainForm,
    ensures
        ({
            let (b, e) = pressed(a, Key::Tab, false, files, reals);
            let (c, f) = pressed(a, Key::Enter, false, files, reals);
            &&& b == (AppState { train_field: 1 - a.train_field, ..a }) && e is Nothing
            &&& c.screen is TrainRun && f is StartTraining
            &&& c.train_steps == a.train_steps && c.resuming == a.resuming && c.settings
                == a.settings
        }),
{
}

/// Moving on from a data file leads to the next one, and from the last to the
/// first; moving back leads the other way.
pub proof fn law_data_files_cycle(a: AppState, i: int, files: Seq<Seq<char>>, reals: RealsView)
    requires
        a.wf(),
        a.screen is TrainForm,
        a.train_field == 0,
        0 <= i < a.data_files.len(),
        a.train_data == "data/"@ + a.data_files[i],
        forall|j: int, k: int|
            0 <= j < k < a.data_files.len() ==> a.data_files[j] != a.data_files[k],
    ensures
        ({
            let n = a.data_files.len() as int;
            let on = pressed(a, Key::Down, false, files, reals).0;
            let back = pressed(a, Key::Up, false, files, reals).0;
            &&& on == (AppState {
                train_data: "data/"@ + a.data_files[if i + 1 < n {
                    i + 1
                } else {
                    0
                }],
                ..a
            })
            &&& back == (AppState {
                train_data: "data/"@ + a.data_files[if i > 0 {
                    i - 1
                } else {
                    n - 1
                }],
                ..a
            })
        }),
{
    lemma_picked(a.data_files[i]);
    lemma_index(a.data_files, i, 0);
    lemma_wrap(i, a.data_files.len() as int);
}

/// Enter in the chat asks what was typed, without the white space around it,
/// and empties the input; where nothing but white space was typed, it does
/// nothing.
pub proof fn law_chat_asks(a: AppState, files: Seq<Seq<char>>, reals: RealsView)
    requires
        a.wf(),
        a.screen is Chat,
    ensures
        ({
            let (b, e) = pressed(a, Key::Enter, false, files, reals);
            &&& trimmed(a.chat_input).len() > 0 ==> e == EffectView::Ask(trimmed(a.chat_input))
                && b.chat_input.len() == 0 && b.chat_scroll_pending && b.history == a.history
            &&& trimmed(a.chat_input).len() == 0 ==> b == a && e is Nothing
        }),
{
}

/// The chat scrolls by three lines at a time, back to the first at most.
pub proof fn law_chat_scrolls_by_three(a: AppState, files: Seq<Seq<char>>, reals: RealsView)
    requires
        a.wf(),
        a.screen is Chat,
    ensures
        ({
            let up = pressed(a, Key::PageUp, false, files, reals).0;
            let down = pressed(a, Key::PageDown, false, files, reals).0;
            &&& a.chat_scroll >= 3 ==> up == (AppState { chat_scroll: a.chat_scroll - 3, ..a })
            &&& a.chat_scroll < 3 ==> up == (AppState { chat_scroll: 0, ..a })
            &&& a.chat_scroll + 3 <= usize::MAX ==> down == (AppState {
                chat_scroll: a.chat_scroll + 3,
                chat_scroll_pending: false,
                ..a
            })
        }),
{
}

/// Enter begins to edit a row with what it shows; on the first row it goes on to
/// the next template instead, as the arrows to the sides do.
pub proof fn law_enter_edits_a_row(a: AppState, files: Seq<Seq<char>>, reals: RealsView)
    requires
        a.wf(),
        a.screen is Settings,
        !a.settings_editing,
    ensures
        ({
            let (b, e) = pressed(a, Key::Enter, false, files, reals);
            &&& a.settings_selected > 0 ==> b == (AppState {
                settings_editing: true,
                edit_buffer: a.values[a.settings_selected],
                ..a
            }) && e is Nothing
            &&& a.settings_selected == 0 ==> {
                &&& e is SaveSettings
                &&& b.settings == with_template(
                    a.settings,
                    templates()[template_behind(a.settings.model_template)],
                )
                &&& b.values == entry_values(b.settings)
                &&& pressed(a, Key::Left, false, files, reals) == (b, e)
                &&& pressed(a, Key::Right, false, files, reals) == (b, e)
            }
        }),
{
}

/// Committing a row applies what was typed in it, together with the other rows
/// as they are shown, and saves the settings.
pub proof fn law_commit_applies_the_row(a: AppState, files: Seq<Seq<char>>, reals: RealsView)
    requires
        a.wf(),
        a.screen is Settings,
        a.settings_editing,
    ensures
        ({
            let (b, e) = pressed(a, Key::Enter, false, files, reals);
            let s = applied(
                a.values.update(a.settings_selected, a.edit_buffer),
                a.settings,
                reals,
            );
            &&& e is SaveSettings && !b.settings_editing && b.screen is Settings
            &&& b.settings_selected == a.settings_selected
            &&& b.values == entry_values(b.settings)
            &&& 10 <= a.settings_selected <= 14 ==> b.settings == (SettingsView {
                model_template: "custom"@,
                ..s
            })
            &&& !(10 <= a.settings_selected <= 14) ==> b.settings == s
        }),
{
}

/// Enter on the datasets screen starts to download the dataset that is
/// selected.
pub proof fn law_enter_downloads(a: AppState, files: Seq<Seq<char>>, reals: RealsView)
    requires
        a.wf(),
        a.screen is Datasets,
    ensures
        ({
            let (b, e) = pressed(a, Key::Enter, false, files, reals);
            &&& e is StartDownload && b.downloading && b.dataset_index == a.dataset_index
            &&& b.screen is Datasets && b.data_files == files
        }),
{
}

/// `q` leaves as Esc does where nothing can be typed: the menu, a run, the
/// datasets, the evaluation and the page about the program.
pub proof fn law_q_leaves(a: AppState, files: Seq<Seq<char>>, reals: RealsView)
    requires
        a.screen is Menu || a.screen is TrainRun || a.screen is Datasets || a.screen is Eval
            || a.screen is About,
    ensures
        pressed(a, Key::Char('q'), false, files, reals) == pressed(
            a,
            Key::Esc,
            false,
            files,
            reals,
        ),
{
}

/// A key that means nothing does nothing, on any screen, and on the screens
/// without input no key but the two that leave does anything.
pub proof fn law_other_keys_do_nothing(
    a: AppState,
    key: Key,
    files: Seq<Seq<char>>,
    reals: RealsView,
)
    ensures
        pressed(a, Key::Other, false, files, reals) == (a, EffectView::Nothing),
        (a.screen is TrainRun || a.screen is Eval || a.screen is About) && key != Key::Esc && key
            != Key::Char('q') ==> pressed(a, key, false, files, reals) == (a, EffectView::Nothing),
{
}

/// Enter by itself does what the key does, but on a settings panel that is not
/// being edited.
pub proof fn law_enter_is_a_key(a: AppState, files: Seq<Seq<char>>, reals: RealsView)
    requires
        !(a.screen is Settings) || a.settings_editing,
    ensures
        entered(a, files, reals) == pressed(a, Key::Enter, false, files, reals),
{
}

/// A refresh keeps a file in `data/` that is still there, and takes the first
/// file in place of one that is not.
pub proof fn law_refresh_keeps_a_file(a: AppState, name: Seq<char>, files: Seq<Seq<char>>)
    requires
        a.train_data == "data/"@ + name,
    ensures
        refreshed(a, files).data_files == files,
        files.contains(name) || files.len() == 0 ==> refreshed(a, files).train_data == a.train_data,
        files.len() > 0 && !files.contains(name) ==> refreshed(a, files).train_data == "data/"@
            + files[0],
{
    lemma_picked(name);
    assert("data/"@.is_prefix_of("data/"@ + name));
}

/// Backspace takes away the last character of the field that is being edited,
/// if it has one, and nothing else.
pub proof fn law_backspace(a: AppState, files: Seq<Seq<char>>, reals: RealsView)
    requires
        a.wf(),
    ensures
        ({
            let (b, e) = pressed(a, Key::Backspace, false, files, reals);
            let path = a.screen is TrainForm && a.train_field == 0;
            let steps = a.screen is TrainForm && a.train_field == 1;
            let row = a.screen is Settings && a.settings_editing;
            &&& e is Nothing
            &&& path && a.train_data.len() > 0 ==> b == (AppState {
                train_data: a.train_data.take(a.train_data.len() - 1),
                ..a
            })
            &&& steps && a.train_steps.len() > 0 ==> b == (AppState {
                train_steps: a.train_steps.take(a.train_steps.len() - 1),
                ..a
            })
            &&& a.screen is Chat && a.chat_input.len() > 0 ==> b == (AppState {
                chat_input: a.chat_input.take(a.chat_input.len() - 1),
                ..a
            })
            &&& row && a.edit_buffer.len() > 0 ==> b == (AppState {
                edit_buffer: a.edit_buffer.take(a.edit_buffer.len() - 1),
                ..a
            })
            &&& path && a.train_data.len() == 0 ==> b == a
            &&& steps && a.train_steps.len() == 0 ==> b == a
            &&& a.screen is Chat && a.chat_input.len() == 0 ==> b == a
            &&& row && a.edit_buffer.len() == 0 ==> b == a
            &&& !path && !steps && !row && !(a.screen is Chat) ==> b == a
        }),
{
    if a.train_data.len() > 0 {
        assert(a.train_data.drop_last() =~= a.train_data.take(a.train_data.len() - 1));
    }
    if a.train_steps.len() > 0 {
        assert(a.train_steps.drop_last() =~= a.train_steps.take(a.train_steps.len() - 1));
    }
    if a.chat_input.len() > 0 {
        assert(a.chat_input.drop_last() =~= a.chat_input.take(a.chat_input.len() - 1));
    }
    if a.edit_buffer.len() > 0 {
        assert(a.edit_buffer.drop_last() =~= a.edit_buffer.take(a.edit_buffer.len() - 1));
    }
}

/// Keys that have no meaning on a screen do nothing there.
pub proof fn law_keys_without_meaning(
    a: AppState,
    key: Key,
    files: Seq<Seq<char>>,
    reals: RealsView,
)
    requires
        a.wf(),
        ({
            let side = key == Key::Left || key == Key::Right;
            let page = key == Key::PageUp || key == Key::PageDown;
            let letter = key is Char && key != Key::Char('k') && key != Key::Char('j') && key
                != Key::Char('q');
            match a.screen {
                Screen::Menu | Screen::Datasets => side || page || letter || key == Key::Tab || key
                    == Key::Backspace,
                Screen::TrainForm => side || page || (a.train_field == 1 && (key == Key::Up || key
                    == Key::Down)),
                Screen::Chat => side || key == Key::Up || key == Key::Down || key == Key::Tab,
                Screen::Settings => if a.settings_editing {
                    side || page || key == Key::Up || key == Key::Down || key == Key::Tab
                } else {
                    page || letter || key == Key::Char('q') || key == Key::Tab || key
                        == Key::Backspace || (side && a.settings_selected > 0)
                },
                _ => key != Key::Esc && key != Key::Char('q'),
            }
        }),
    ensures
        pressed(a, key, false, files, reals) == (a, EffectView::Nothing),
{
}

} // verus!
