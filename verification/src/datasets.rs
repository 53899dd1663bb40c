//! A catalog of downloadable datasets, and the course of a download.
//!
//! A plain dataset is one URL whose bytes are streamed to a file. A Parquet
//! dataset is streamed to a temporary file first; then one of its columns is
//! written as text.
use vstd::prelude::*;
use vstd::string::StringExecFns;
use vstd::utf8::{decode_utf8, valid_utf8};

use crate::binary64::{percent_of, percentage};
use crate::paths::{extended, join_path, path_below, with_extension, Platform};
use crate::sorting::{sort_names, sorted};
use crate::text::{ends_with, from_utf8, number_in, parse_number, same, views};

verus! {

/// How a dataset's text is fetched and converted.
#[derive(Clone, Copy, Debug)]
pub enum DatasetKind {
    /// A single URL streamed straight into a text file.
    Plain { url: &'static str },
    /// A Parquet file downloaded once, then a named column written as text.
    Parquet { url: &'static str, column: &'static str },
}

/// A downloadable dataset.
#[derive(Clone, Copy, Debug)]
pub struct Dataset {
    pub id: &'static str,
    pub name: &'static str,
    pub size_hint: &'static str,
    pub desc: &'static str,
    pub kind: DatasetKind,
    pub file: &'static str,
}

/// The number of datasets in the catalog.
pub const DATASET_COUNT: usize = 4;

/// The catalog: curated, stable text sources.
pub open spec fn catalog() -> Seq<Dataset> {
    seq![
        Dataset {
            id: "shakespeare",
            name: "Tiny Shakespeare",
            size_hint: "1.1 MB",
            desc: "Classic character-level corpus. Great for learning English patterns.",
            kind: DatasetKind::Plain {
                url: "https://raw.githubusercontent.com/karpathy/char-rnn/master/data/tinyshakespeare/input.txt",
            },
            file: "shakespeare.txt",
        },
        Dataset {
            id: "alice",
            name: "Alice in Wonderland",
            size_hint: "170 KB",
            desc: "Public-domain prose. Small and fast to train.",
            kind: DatasetKind::Plain { url: "https://www.gutenberg.org/files/11/11-0.txt" },
            file: "alice.txt",
        },
        Dataset {
            id: "frankenstein",
            name: "Frankenstein",
            size_hint: "190 KB",
            desc: "Public-domain prose. Small and fast to train.",
            kind: DatasetKind::Plain { url: "https://www.gutenberg.org/files/84/84-0.txt" },
            file: "frankenstein.txt",
        },
        Dataset {
            id: "finewiki",
            name: "finewiki-10M",
            size_hint: "25 MB",
            desc: "Wikipedia article text (markdown). Broad coverage, good general English.",
            kind: DatasetKind::Parquet {
                url: "https://huggingface.co/datasets/codelion/finewiki-10M/resolve/main/data/train-00000-of-00001.parquet",
                column: "text",
            },
            file: "finewiki.txt",
        },
    ]
}

/// One dataset of the catalog.
pub fn dataset(i: usize) -> (d: Dataset)
    requires
        i < DATASET_COUNT,
    ensures
        d == catalog()[i as int],
{
    if i == 0 {
        Dataset {
            id: "shakespeare",
            name: "Tiny Shakespeare",
            size_hint: "1.1 MB",
            desc: "Classic character-level corpus. Great for learning English patterns.",
            kind: DatasetKind::Plain {
                url: "https://raw.githubusercontent.com/karpathy/char-rnn/master/data/tinyshakespeare/input.txt",
            },
            file: "shakespeare.txt",
        }
    } else if i == 1 {
        Dataset {
            id: "alice",
            name: "Alice in Wonderland",
            size_hint: "170 KB",
            desc: "Public-domain prose. Small and fast to train.",
            kind: DatasetKind::Plain { url: "https://www.gutenberg.org/files/11/11-0.txt" },
            file: "alice.txt",
        }
    } else if i == 2 {
        Dataset {
            id: "frankenstein",
            name: "Frankenstein",
            size_hint: "190 KB",
            desc: "Public-domain prose. Small and fast to train.",
            kind: DatasetKind::Plain { url: "https://www.gutenberg.org/files/84/84-0.txt" },
            file: "frankenstein.txt",
        }
    } else {
        Dataset {
            id: "finewiki",
            name: "finewiki-10M",
            size_hint: "25 MB",
            desc: "Wikipedia article text (markdown). Broad coverage, good general English.",
            kind: DatasetKind::Parquet {
                url: "https://huggingface.co/datasets/codelion/finewiki-10M/resolve/main/data/train-00000-of-00001.parquet",
                column: "text",
            },
            file: "finewiki.txt",
        }
    }
}

/// Progress of a download, in bytes.
#[derive(Clone, Copy, Debug, PartialEq, Eq, Structural)]
pub struct DownloadProgress {
    /// What the server announced; 0 if it announced nothing.
    pub total: u64,
    pub done: u64,
    pub finished: bool,
    pub error: bool,
}

impl Default for DownloadProgress {
    fn default() -> (p: Self)
        ensures
            p == (DownloadProgress { total: 0, done: 0, finished: false, error: false }),
    {
        DownloadProgress { total: 0, done: 0, finished: false, error: false }
    }
}

impl DownloadProgress {
    /// How much is done, in percent; at most 100, and 0 while the total is not
    /// known.
    pub fn percent(&self) -> (r: u16)
        ensures
            r == percentage(self.done as nat, self.total as nat),
            self.total == 0 ==> r == 0,
            r <= 100,
    {
        percent_of(self.done, self.total)
    }
}

/// How far a download is.
#[derive(Clone, Copy, Debug, PartialEq, Eq, Structural)]
pub enum Phase {
    /// The server has not answered yet.
    Requesting,
    /// Bytes are being streamed to the file `Download::target`.
    Streaming,
    /// The streamed file is being converted.
    Converting,
    /// The text is complete.
    Finished,
    /// The download was cancelled; what was streamed is to be removed.
    Cancelled,
}

/// A download of one dataset into a directory.
pub struct Download {
    /// How paths are written.
    pub platform: Platform,
    /// The dataset.
    pub dataset: Dataset,
    /// Where the text goes.
    pub path: String,
    /// Where the bytes are streamed to.
    pub target: String,
    pub phase: Phase,
    pub progress: DownloadProgress,
}

/// Where the bytes of a dataset are streamed to, if its text goes to `path`.
pub open spec fn stream_target(on: Platform, kind: DatasetKind, path: Seq<char>) -> Seq<char> {
    match kind {
        DatasetKind::Plain { .. } => path,
        DatasetKind::Parquet { .. } => extended(on, path, "parquet.tmp"@),
    }
}

/// The length that a server announced, or 0.
pub open spec fn announced(header: Option<Seq<char>>) -> nat {
    match header {
        Some(text) => match number_in(text, u64::MAX as nat) {
            Some(n) => n,
            None => 0,
        },
        None => 0,
    }
}

impl Download {
    /// Only a finished download says that it is finished, and the files are
    /// those of its dataset.
    pub open spec fn wf(&self) -> bool {
        &&& self.progress.finished == (self.phase is Finished)
        &&& !self.progress.error
        &&& self.phase is Converting ==> self.dataset.kind is Parquet
        &&& self.phase is Requesting ==> self.progress.done == 0 && self.progress.total == 0
        &&& self.target@ == stream_target(self.platform, self.dataset.kind, self.path@)
    }

    /// Everything but the phase and the progress is as in `other`.
    pub open spec fn same_plan(&self, other: Download) -> bool {
        self.platform == other.platform && self.dataset == other.dataset && self.path == other.path && self.target == other.target
    }

    /// A download that is about to begin.
    pub fn begin(platform: Platform, dataset: Dataset, dest_dir: &str) -> (d: Self)
        ensures
            d.wf(),
            d.platform == platform,
            d.dataset == dataset,
            d.path@ == path_below(platform, dest_dir@, dataset.file@),
            d.phase is Requesting,
            d.progress == (DownloadProgress { total: 0, done: 0, finished: false, error: false }),
    {
        let path = join_path(platform, dest_dir, dataset.file);
        let target = match dataset.kind {
            DatasetKind::Plain { .. } => path.clone(),
            DatasetKind::Parquet { .. } => with_extension(platform, path.as_str(), "parquet.tmp"),
        };
        Download {
            platform,
            dataset,
            path,
            target,
            phase: Phase::Requesting,
            progress: DownloadProgress::default(),
        }
    }

    /// The URL to request.
    pub fn url(&self) -> (u: &'static str)
        ensures
            match self.dataset.kind {
                DatasetKind::Plain { url } => u == url,
                DatasetKind::Parquet { url, .. } => u == url,
            },
    {
        match self.dataset.kind {
            DatasetKind::Plain { url } => url,
            DatasetKind::Parquet { url, .. } => url,
        }
    }

    /// The server has answered, with the given `Content-Length`.
    pub fn responded(&mut self, content_length: Option<&str>)
        requires
            old(self).wf(),
            old(self).phase is Requesting,
        ensures
            final(self).wf(),
            final(self).same_plan(*old(self)),
            final(self).phase is Streaming,
            final(self).progress.total == announced(
                match content_length {
                    Some(t) => Some(t@),
                    None => None,
                },
            ),
            final(self).progress.done == 0,
    {
        let total: u64 = match content_length {
            Some(text) => match parse_number(text, u64::MAX) {
                Some(n) => n,
                None => 0,
            },
            None => 0,
        };
        self.progress.total = total;
        self.phase = Phase::Streaming;
    }

    /// Look at the cancel flag, before a chunk is read. Says whether to go on.
    pub fn proceed(&mut self, cancelled: bool) -> (go: bool)
        requires
            old(self).wf(),
            old(self).phase is Streaming,
        ensures
            final(self).wf(),
            final(self).same_plan(*old(self)),
            final(self).progress == old(self).progress,
            go == !cancelled,
            final(self).phase == if cancelled {
                Phase::Cancelled
            } else {
                Phase::Streaming
            },
    {
        if cancelled {
            self.phase = Phase::Cancelled;
            false
        } else {
            true
        }
    }

    /// A chunk of `n` bytes was read. A chunk of no bytes ends the stream.
    pub fn received(&mut self, n: usize)
        requires
            old(self).wf(),
            old(self).phase is Streaming,
            old(self).progress.done + n <= u64::MAX,
        ensures
            final(self).wf(),
            final(self).same_plan(*old(self)),
            final(self).progress.total == old(self).progress.total,
            final(self).progress.done == old(self).progress.done + n,
            final(self).phase == if n > 0 {
                Phase::Streaming
            } else if old(self).dataset.kind is Parquet {
                Phase::Converting
            } else {
                Phase::Finished
            },
    {
        if n > 0 {
            self.progress.done = self.progress.done + n as u64;
        } else {
            match self.dataset.kind {
                DatasetKind::Parquet { .. } => {
                    self.phase = Phase::Converting;
                },
                DatasetKind::Plain { .. } => {
                    self.phase = Phase::Finished;
                    self.progress.finished = true;
                },
            }
        }
    }

    /// The column has been written as text.
    pub fn converted(&mut self)
        requires
            old(self).wf(),
            old(self).phase is Converting,
        ensures
            final(self).wf(),
            final(self).same_plan(*old(self)),
            final(self).phase is Finished,
            final(self).progress == (DownloadProgress { finished: true, ..old(self).progress }),
    {
        self.phase = Phase::Finished;
        self.progress.finished = true;
    }
}

/// A value in a row of a Parquet file.
pub enum FieldValue {
    Bytes(Vec<u8>),
    Str(String),
    /// Anything that is no text.
    Other,
}

/// The text of a value, if it is text.
pub open spec fn value_text(value: FieldValue) -> Option<Seq<char>> {
    match value {
        FieldValue::Bytes(b) => if valid_utf8(b@) {
            Some(decode_utf8(b@))
        } else {
            None
        },
        FieldValue::Str(s) => Some(s@),
        FieldValue::Other => None,
    }
}

/// What a value adds to the text: a text that is not empty, and an empty line.
pub open spec fn paragraph(value: FieldValue) -> Seq<char> {
    match value_text(value) {
        Some(text) => if text.len() == 0 {
            Seq::empty()
        } else {
            text + seq!['\n', '\n']
        },
        None => Seq::empty(),
    }
}

/// What a row adds to the text: the paragraphs of the column's values.
pub open spec fn row_paragraphs(row: Seq<(String, FieldValue)>, column: Seq<char>) -> Seq<char>
    decreases row.len(),
{
    if row.len() == 0 {
        Seq::empty()
    } else {
        row_paragraphs(row.drop_last(), column) + if row.last().0@ == column {
            paragraph(row.last().1)
        } else {
            Seq::empty()
        }
    }
}

/// What a value adds to the text.
fn value_paragraph(value: &FieldValue) -> (r: String)
    ensures
        r@ == paragraph(*value),
{
    let mut out = String::new();
    match value {
        FieldValue::Bytes(b) => {
            if let Some(text) = from_utf8(b) {
                if !text.is_empty() {
                    out.append(text);
                    out.push('\n');
                    out.push('\n');
                    assert(out@ =~= text@ + seq!['\n', '\n']);
                }
            }
        },
        FieldValue::Str(s) => {
            if !s.as_str().is_empty() {
                out.append(s.as_str());
                out.push('\n');
                out.push('\n');
                assert(out@ =~= s@ + seq!['\n', '\n']);
            }
        },
        FieldValue::Other => {},
    }
    out
}

/// The text that a row adds: the values of `column`, each followed by an empty
/// line. Values that are empty or no text add nothing.
pub fn row_text(row: &Vec<(String, FieldValue)>, column: &str) -> (r: String)
    ensures
        r@ == row_paragraphs(row@, column@),
{
    let mut out = String::new();
    for i in 0..row.len()
        invariant
            out@ == row_paragraphs(row@.take(i as int), column@),
    {
        assert(row@.take(i + 1).drop_last() =~= row@.take(i as int));
        if same(row[i].0.as_str(), column) {
            let text = value_paragraph(&row[i].1);
            out.append(text.as_str());
        }
    }
    assert(row@.take(row@.len() as int) =~= row@);
    out
}

/// A name that ends in `.txt`.
pub open spec fn is_text_file(name: Seq<char>) -> bool {
    ".txt"@.is_suffix_of(name)
}

/// The text files among the names of a directory, in order.
pub fn data_files(names: Vec<String>) -> (r: Vec<String>)
    ensures
        sorted(views(r@)),
        views(r@).to_multiset() == views(names@).filter(
            |name: Seq<char>| is_text_file(name),
        ).to_multiset(),
{
    let mut kept: Vec<String> = Vec::new();
    for i in 0..names.len()
        invariant
            views(kept@) == views(names@).take(i as int).filter(
                |name: Seq<char>| is_text_file(name),
            ),
    {
        let ghost p = |name: Seq<char>| is_text_file(name);
        proof {
            assert(views(names@).take(i + 1) =~= views(names@).take(i as int).push(
                names@[i as int]@,
            ));
            reveal(Seq::filter);
            assert(views(names@).take(i + 1).drop_last() =~= views(names@).take(i as int));
        }
        if ends_with(names[i].as_str(), ".txt") {
            let ghost before = kept@;
            kept.push(names[i].clone());
            assert(views(kept@) =~= views(before).push(names@[i as int]@));
        }
    }
    assert(views(names@).take(names@.len() as int) =~= views(names@));
    sort_names(kept)
}

/// A download that was cancelled does not count as finished.
pub proof fn law_cancelled_is_not_finished(d: Download)
    requires
        d.wf(),
        d.phase is Cancelled,
    ensures
        !d.progress.finished,
{
}

/// A value of the column adds its text and an empty line; one that is empty or
/// no text adds nothing, and so does a value of another column.
pub proof fn law_rows_become_paragraphs(
    row: Seq<(String, FieldValue)>,
    name: String,
    value: FieldValue,
    column: Seq<char>,
)
    ensures
        row_paragraphs(Seq::empty(), column) == Seq::<char>::empty(),
        name@ != column ==> row_paragraphs(row.push((name, value)), column) == row_paragraphs(
            row,
            column,
        ),
        name@ == column ==> (match value {
            FieldValue::Str(s) => s@.len() > 0 ==> row_paragraphs(row.push((name, value)), column)
                == row_paragraphs(row, column) + s@ + seq!['\n', '\n'],
            FieldValue::Bytes(b) => valid_utf8(b@) && decode_utf8(b@).len() > 0 ==> row_paragraphs(
                row.push((name, value)),
                column,
            ) == row_paragraphs(row, column) + decode_utf8(b@) + seq!['\n', '\n'],
            FieldValue::Other => row_paragraphs(row.push((name, value)), column) == row_paragraphs(
                row,
                column,
            ),
        }),
        (match value {
            FieldValue::Str(s) => s@.len() == 0,
            FieldValue::Bytes(b) => !valid_utf8(b@) || decode_utf8(b@).len() == 0,
            FieldValue::Other => true,
        }) ==> row_paragraphs(row.push((name, value)), column) == row_paragraphs(row, column),
{
    let more = row.push((name, value));
    assert(more.drop_last() =~= row);
    let before = row_paragraphs(row, column);
    assert(before + Seq::<char>::empty() =~= before);
    match value {
        FieldValue::Str(s) => {
            assert(before + (s@ + seq!['\n', '\n']) =~= before + s@ + seq!['\n', '\n']);
        },
        FieldValue::Bytes(b) => {
            let t = decode_utf8(b@);
            assert(before + (t + seq!['\n', '\n']) =~= before + t + seq!['\n', '\n']);
        },
        FieldValue::Other => {},
    }
}

/// A data file is one whose last four characters are `.txt`.
pub proof fn law_text_files(name: Seq<char>)
    ensures
        is_text_file(name) <==> name.len() >= 4 && name.subrange(name.len() - 4, name.len() as int)
            == seq!['.', 't', 'x', 't'],
{
    reveal_strlit(".txt");
    assert(".txt"@ =~= seq!['.', 't', 'x', 't']);
    if name.len() >= 4 {
        assert(name.subrange(name.len() - 4, name.len() as int).len() == 4);
    }
}

/// What a server announces is the number in its header; anything else counts as
/// nothing announced.
pub proof fn law_announced_length(header: Option<Seq<char>>)
    ensures
        header is None ==> announced(header) == 0,
        header matches Some(text) ==> {
            &&& number_in(text, u64::MAX as nat) is None ==> announced(header) == 0
            &&& number_in(text, u64::MAX as nat) matches Some(n) ==> announced(header) == n
        },
{
}

/// A plain dataset is streamed to the file that its text goes to, and a Parquet
/// dataset beside it.
pub proof fn law_where_bytes_go(on: Platform, kind: DatasetKind, path: Seq<char>)
    ensures
        kind is Plain ==> stream_target(on, kind, path) == path,
        kind is Parquet ==> stream_target(on, kind, path) == extended(on, path, "parquet.tmp"@),
{
}

/// Every dataset of the catalog goes to a data file of its own.
pub proof fn law_catalog_files(i: int, j: int)
    requires
        0 <= i < DATASET_COUNT,
        0 <= j < DATASET_COUNT,
    ensures
        catalog().len() == DATASET_COUNT,
        is_text_file(catalog()[i].file@),
        catalog()[i].file@ == catalog()[j].file@ ==> i == j,
        catalog()[i].id@ == catalog()[j].id@ ==> i == j,
{
    reveal_strlit(".txt");
    reveal_strlit("shakespeare.txt");
    reveal_strlit("alice.txt");
    reveal_strlit("frankenstein.txt");
    reveal_strlit("finewiki.txt");
    reveal_strlit("shakespeare");
    reveal_strlit("alice");
    reveal_strlit("frankenstein");
    reveal_strlit("finewiki");
    assert("shakespeare.txt"@.len() == 15 && "alice.txt"@.len() == 9 && "frankenstein.txt"@.len()
        == 16 && "finewiki.txt"@.len() == 12);
    assert("shakespeare"@.len() == 11 && "alice"@.len() == 5 && "frankenstein"@.len() == 12
        && "finewiki"@.len() == 8);
    let name = catalog()[i].file@;
    law_text_files(name);
    assert(name.subrange(name.len() - 4, name.len() as int) =~= seq!['.', 't', 'x', 't']);
}

/// A download keeps its dataset and its files from beginning to end.
pub proof fn law_same_plan(d: Download, e: Download)
    ensures
        d.same_plan(e) <==> d.platform == e.platform && d.dataset == e.dataset && d.path == e.path
            && d.target == e.target,
        d.wf() ==> (d.progress.finished <==> d.phase is Finished) && !d.progress.error && d.target@
            == stream_target(d.platform, d.dataset.kind, d.path@),
{
}

} // verus!
