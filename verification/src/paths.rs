//! Paths as text.
//!
//! On Unix `/` separates the components of a path. On Windows `\` does so as
//! well, and a path may begin with a drive.
use vstd::prelude::*;
use vstd::string::StringExecFns;

use crate::text::{chars_of, same, string_of};

verus! {

/// How paths are written.
#[derive(Clone, Copy, Debug, PartialEq, Eq, Structural)]
pub enum Platform {
    Unix,
    Windows,
}

/// Whether a character separates components.
pub open spec fn separates(on: Platform, c: char) -> bool {
    c == '/' || (on is Windows && c == '\\')
}

/// The separator that is put between a directory and what lies below it.
pub open spec fn main_separator(on: Platform) -> char {
    match on {
        Platform::Unix => '/',
        Platform::Windows => '\\',
    }
}

/// A letter that can name a drive.
pub open spec fn drive_letter(c: char) -> bool {
    'a' as u32 <= c as u32 <= 'z' as u32 || 'A' as u32 <= c as u32 <= 'Z' as u32
}

/// The length of the drive that a path begins with, such as `C:`.
pub open spec fn drive_len(on: Platform, p: Seq<char>) -> int {
    if on is Windows && p.len() >= 2 && drive_letter(p[0]) && p[1] == ':' {
        2
    } else {
        0
    }
}

/// A path that begins at a root, behind its drive if it has one.
pub open spec fn rooted(on: Platform, p: Seq<char>) -> bool {
    p.len() > drive_len(on, p) && separates(on, p[drive_len(on, p)])
}

/// `dir` and the path `name` below it. A name with a drive replaces the whole
/// of `dir`, and so does one that begins at the root, but for the drive of
/// `dir`.
pub open spec fn path_below(on: Platform, dir: Seq<char>, name: Seq<char>) -> Seq<char> {
    if drive_len(on, name) > 0 {
        name
    } else if rooted(on, name) {
        dir.take(drive_len(on, dir)) + name
    } else if dir.len() == drive_len(on, dir) || separates(on, dir.last()) {
        dir + name
    } else {
        dir + seq![main_separator(on)] + name
    }
}

fn is_separator(on: Platform, c: char) -> (r: bool)
    ensures
        r == separates(on, c),
{
    c == '/' || (on == Platform::Windows && c == '\\')
}

/// The length of the drive that a path begins with.
fn drive(on: Platform, chars: &Vec<char>) -> (n: usize)
    ensures
        n == drive_len(on, chars@),
        n <= chars@.len(),
{
    if on == Platform::Windows && chars.len() >= 2 && chars[1] == ':' {
        let c: u32 = chars[0] as u32;
        if 97 <= c && c <= 122 || 65 <= c && c <= 90 {
            return 2;
        }
    }
    0
}

/// `dir` and the path `name` below it.
pub fn join_path(on: Platform, dir: &str, name: &str) -> (r: String)
    ensures
        r@ == path_below(on, dir@, name@),
{
    let below = chars_of(name);
    let n = drive(on, &below);
    if n > 0 {
        return name.to_owned();
    }
    let chars = chars_of(dir);
    let d = drive(on, &chars);
    if below.len() > 0 && is_separator(on, below[0]) {
        let mut out = string_of(&chars, 0, d);
        assert(out@ =~= dir@.take(d as int));
        out.append(name);
        return out;
    }
    let mut out = dir.to_owned();
    if chars.len() > d && !is_separator(on, chars[chars.len() - 1]) {
        match on {
            Platform::Unix => out.push('/'),
            Platform::Windows => out.push('\\'),
        }
        assert(out@ =~= dir@ + seq![main_separator(on)]);
    }
    out.append(name);
    out
}

/// `p` without the separators at its end, and without the components `.`
/// behind a separator there. A lone root stays, and so do the first `drive`
/// characters.
pub open spec fn bare(on: Platform, p: Seq<char>, drive: int) -> Seq<char>
    decreases p.len(),
{
    if p.len() > 1 && p.len() > drive + 1 && (separates(on, p.last()) || (p.last() == '.'
        && separates(on, p[p.len() - 2]))) {
        bare(on, p.drop_last(), drive)
    } else {
        p
    }
}

/// Where the last component of `p` starts: behind its last separator, and
/// behind the first `drive` characters.
pub open spec fn component_start(on: Platform, p: Seq<char>, drive: int) -> int
    decreases p.len(),
{
    if p.len() == 0 || p.len() <= drive || separates(on, p.last()) {
        p.len() as int
    } else {
        component_start(on, p.drop_last(), drive)
    }
}

/// The path without its last component; a path that is empty or holds a drive
/// or a root alone has none.
pub open spec fn parent_of(on: Platform, p: Seq<char>) -> Option<Seq<char>> {
    let d = drive_len(on, p);
    let b = bare(on, p, d);
    if b.len() <= d || (b.len() == d + 1 && separates(on, b[d])) {
        None
    } else {
        Some(bare(on, b.take(component_start(on, b, d)), d))
    }
}

/// Length of `bare` of the first `n` characters.
fn bare_len(on: Platform, chars: &Vec<char>, n: usize, drive: usize) -> (r: usize)
    requires
        n <= chars@.len(),
        drive <= 2,
    ensures
        r <= n,
        n >= drive ==> r >= drive,
        bare(on, chars@.take(n as int), drive as int) == chars@.take(r as int),
{
    let mut k = n;
    while k > 1 && k > drive + 1 && (is_separator(on, chars[k - 1]) || (chars[k - 1] == '.'
        && is_separator(on, chars[k - 2])))
        invariant
            k <= n <= chars@.len(),
            drive <= 2,
            n >= drive ==> k >= drive,
            bare(on, chars@.take(n as int), drive as int) == bare(
                on,
                chars@.take(k as int),
                drive as int,
            ),
        decreases k,
    {
        assert(chars@.take(k as int).drop_last() =~= chars@.take(k - 1));
        k = k - 1;
    }
    k
}

/// Where the last component of the first `n` characters starts.
fn last_component(on: Platform, chars: &Vec<char>, n: usize, drive: usize) -> (r: usize)
    requires
        n <= chars@.len(),
    ensures
        r <= n,
        r == component_start(on, chars@.take(n as int), drive as int),
{
    let mut k = n;
    while k > 0 && k > drive && !is_separator(on, chars[k - 1])
        invariant
            k <= n <= chars@.len(),
            component_start(on, chars@.take(n as int), drive as int) == component_start(
                on,
                chars@.take(k as int),
                drive as int,
            ),
        decreases k,
    {
        assert(chars@.take(k as int).drop_last() =~= chars@.take(k - 1));
        k = k - 1;
    }
    k
}

/// The path without its last component.
pub fn parent_path(on: Platform, p: &str) -> (r: Option<String>)
    ensures
        match r {
            Some(d) => parent_of(on, p@) == Some(d@),
            None => parent_of(on, p@) is None,
        },
{
    let chars = chars_of(p);
    assert(chars@.take(chars@.len() as int) =~= p@);
    let d = drive(on, &chars);
    let n = bare_len(on, &chars, chars.len(), d);
    let ghost b = bare(on, p@, d as int);
    if n <= d || (n == d + 1 && is_separator(on, chars[d])) {
        return None;
    }
    let start = last_component(on, &chars, n, d);
    assert(b.take(start as int) =~= chars@.take(start as int));
    let m = bare_len(on, &chars, start, d);
    let dir = string_of(&chars, 0, m);
    assert(dir@ =~= chars@.take(m as int));
    Some(dir)
}

/// Where the stem of the component that starts at `start` ends: at its last
/// dot behind its first character, or else at the end of the path.
pub open spec fn stem_end(p: Seq<char>, start: int, at: int) -> int
    decreases at - start,
{
    if at <= start + 1 {
        p.len() as int
    } else if p[at - 1] == '.' {
        at - 1
    } else {
        stem_end(p, start, at - 1)
    }
}

/// A component that names a file.
pub open spec fn names_file(name: Seq<char>) -> bool {
    name.len() > 0 && name != "."@ && name != ".."@
}

/// `p` with the extension of its last component replaced. A path that names no
/// file stays as it is.
pub open spec fn extended(on: Platform, p: Seq<char>, ext: Seq<char>) -> Seq<char> {
    let d = drive_len(on, p);
    let b = bare(on, p, d);
    let start = component_start(on, b, d);
    if names_file(b.skip(start)) {
        b.take(stem_end(b, start, b.len() as int)) + seq!['.'] + ext
    } else {
        p
    }
}

/// `p` with the extension of its last component replaced.
pub fn with_extension(on: Platform, p: &str, ext: &str) -> (r: String)
    ensures
        r@ == extended(on, p@, ext@),
{
    let chars = chars_of(p);
    assert(chars@.take(chars@.len() as int) =~= p@);
    let d = drive(on, &chars);
    let n = bare_len(on, &chars, chars.len(), d);
    let ghost b = bare(on, p@, d as int);
    let start = last_component(on, &chars, n, d);
    let name = string_of(&chars, start, n);
    assert(name@ =~= b.skip(start as int));
    if start == n || same(name.as_str(), ".") || same(name.as_str(), "..") {
        return p.to_owned();
    }
    let mut k = n;
    while k > start + 1 && chars[k - 1] != '.'
        invariant
            start < k <= n <= chars.len(),
            b == chars@.take(n as int),
            stem_end(b, start as int, n as int) == stem_end(b, start as int, k as int),
        decreases k,
    {
        k = k - 1;
    }
    let end: usize = if k > start + 1 {
        k - 1
    } else {
        n
    };
    let mut out = string_of(&chars, 0, end);
    assert(out@ =~= b.take(end as int));
    out.push('.');
    out.append(ext);
    assert(out@ =~= b.take(end as int) + seq!['.'] + ext@);
    out
}

/// Name of the file that holds the weights of a model.
pub open spec fn weights_name() -> Seq<char> {
    "model.safetensors"@
}

/// Name of the file that holds the architecture of a model.
pub open spec fn config_name() -> Seq<char> {
    "model_config.json"@
}

/// The directory of a checkpoint: the path itself if it is a directory, and
/// otherwise the directory it lies in.
pub open spec fn checkpoint_dir(on: Platform, p: Seq<char>, is_dir: bool) -> Seq<char> {
    if is_dir {
        p
    } else {
        match parent_of(on, p) {
            Some(d) => d,
            None => "."@,
        }
    }
}

/// The directory of a checkpoint.
fn directory_of(on: Platform, p: &str, is_dir: bool) -> (r: String)
    ensures
        r@ == checkpoint_dir(on, p@, is_dir),
{
    if is_dir {
        p.to_owned()
    } else {
        match parent_path(on, p) {
            Some(d) => d,
            None => ".".to_owned(),
        }
    }
}

/// The file of a checkpoint's tokenizer, beside its configuration.
pub fn tokenizer_path(on: Platform, p: &str, is_dir: bool) -> (r: String)
    ensures
        r@ == path_below(on, checkpoint_dir(on, p@, is_dir), "bpe.json"@),
{
    join_path(on, directory_of(on, p, is_dir).as_str(), "bpe.json")
}

/// Map a checkpoint argument to the paths of its weights and of its
/// configuration. `is_dir` says whether `p` is a directory.
pub fn resolve_checkpoint_paths(on: Platform, p: &str, is_dir: bool) -> (r: (String, String))
    ensures
        r.0@ == if is_dir {
            path_below(on, p@, weights_name())
        } else {
            p@
        },
        r.1@ == path_below(on, checkpoint_dir(on, p@, is_dir), config_name()),
        is_dir ==> r.0@ == path_below(on, p@, "model.safetensors"@) && r.1@ == path_below(
            on,
            p@,
            "model_config.json"@,
        ),
        !is_dir ==> r.0@ == p@ && r.1@ == path_below(
            on,
            match parent_of(on, p@) {
                Some(d) => d,
                None => "."@,
            },
            "model_config.json"@,
        ),
{
    let weights = if is_dir {
        join_path(on, p, "model.safetensors")
    } else {
        p.to_owned()
    };
    let config = join_path(on, directory_of(on, p, is_dir).as_str(), "model_config.json");
    (weights, config)
}

// ---------------------------------------------------------------------------
// Laws
// ---------------------------------------------------------------------------

/// `/` separates everywhere, and the backslash on Windows; no other character
/// does.
pub proof fn law_separators_of_paths(c: char)
    ensures
        separates(Platform::Unix, c) <==> c == '/',
        separates(Platform::Windows, c) <==> c == '/' || c == '\\',
{
}

/// A directory that can be joined with a name as it is: not empty, more than a
/// drive, and ending neither in a separator nor in a dot.
pub open spec fn plain_dir(on: Platform, dir: Seq<char>) -> bool {
    &&& dir.len() > drive_len(on, dir)
    &&& !separates(on, dir.last())
    &&& dir.last() != '.'
}

/// A name of one component.
pub open spec fn plain_name(on: Platform, name: Seq<char>) -> bool {
    &&& name.len() > 0
    &&& drive_len(on, name) == 0
    &&& name != seq!['.']
    &&& forall|i: int| 0 <= i < name.len() ==> !separates(on, #[trigger] name[i])
}

/// A name is put behind its directory and one separator. An absolute name stays
/// as it is, and so does one that has no directory before it.
pub proof fn law_joined_path(on: Platform, dir: Seq<char>, name: Seq<char>)
    ensures
        plain_dir(on, dir) && plain_name(on, name) ==> path_below(on, dir, name) == dir + seq![
            match on {
                Platform::Unix => '/',
                Platform::Windows => '\\',
            },
        ] + name,
        plain_name(on, name) ==> path_below(on, Seq::empty(), name) == name,
        name.len() > 0 && name[0] == '/' ==> path_below(Platform::Unix, dir, name) == name,
        dir.len() > 0 && dir.last() == '/' && plain_name(Platform::Unix, name) ==> path_below(
            Platform::Unix,
            dir,
            name,
        ) == dir + name,
{
    assert(Seq::<char>::empty() + name =~= name);
    assert(dir.take(0) + name =~= name);
    if plain_name(on, name) {
        assert(!separates(on, name[0]));
    }
    if plain_name(Platform::Unix, name) {
        assert(!separates(Platform::Unix, name[0]));
    }
}

/// Where the last component starts.
proof fn lemma_component_start(on: Platform, p: Seq<char>, drive: int, k: int)
    requires
        0 <= drive <= k <= p.len(),
        k == drive || separates(on, p[k - 1]),
        forall|i: int| k <= i < p.len() ==> !separates(on, #[trigger] p[i]),
    ensures
        component_start(on, p, drive) == k,
    decreases p.len(),
{
    if p.len() > k {
        let q = p.drop_last();
        assert(!separates(on, p[p.len() - 1]));
        assert forall|i: int| k <= i < q.len() implies !separates(on, #[trigger] q[i]) by {
            assert(q[i] == p[i]);
        }
        lemma_component_start(on, q, drive, k);
    }
}

/// The parent of a file in a directory is the directory.
pub proof fn law_parent_of_a_joined_path(on: Platform, dir: Seq<char>, name: Seq<char>)
    requires
        plain_dir(on, dir),
        plain_name(on, name),
    ensures
        parent_of(on, path_below(on, dir, name)) == Some(dir),
{
    law_joined_path(on, dir, name);
    let sep = main_separator(on);
    let p = path_below(on, dir, name);
    let d = drive_len(on, dir);
    let k = dir.len() + 1;
    assert(p =~= dir + seq![sep] + name);
    assert(p[0] == dir[0]);
    if dir.len() >= 2 {
        assert(p[1] == dir[1]);
    } else {
        assert(p[1] == sep);
    }
    assert(drive_len(on, p) == d);
    assert forall|i: int| k <= i < p.len() implies !separates(on, #[trigger] p[i]) by {
        assert(p[i] == name[i - k]);
    }
    assert(p[k - 1] == sep);
    assert(!separates(on, p[p.len() - 1]));
    if p.last() == '.' && separates(on, p[p.len() - 2]) {
        if name.len() > 1 {
            assert(p[p.len() - 2] == name[name.len() - 2]);
        }
        assert(name =~= seq!['.']);
    }
    assert(bare(on, p, d) == p);
    lemma_component_start(on, p, d, k as int);
    let front = p.take(k as int);
    assert(front =~= dir.push(sep));
    assert(front.drop_last() =~= dir);
    assert(bare(on, dir, d) == dir);
}

/// The files of a checkpoint lie together: whether it is named by its directory
/// or by its weights, the configuration and the tokenizer are those of that
/// directory.
pub proof fn law_checkpoint_files_lie_together(on: Platform, dir: Seq<char>)
    requires
        plain_dir(on, dir),
    ensures
        checkpoint_dir(on, dir, true) == dir,
        checkpoint_dir(on, path_below(on, dir, weights_name()), false) == dir,
{
    reveal_strlit("model.safetensors");
    let w = weights_name();
    assert(w.len() == 17 && w[0] == 'm' && w[1] == 'o');
    assert forall|i: int| 0 <= i < w.len() implies !separates(on, #[trigger] w[i]) by {}
    law_parent_of_a_joined_path(on, dir, w);
}

/// A file that is named without a directory lies in the current one, and so
/// does what has no parent.
pub proof fn law_files_without_directory(on: Platform, name: Seq<char>)
    requires
        plain_name(on, name),
    ensures
        parent_of(on, name) == Some(Seq::<char>::empty()),
        checkpoint_dir(on, name, false) == Seq::<char>::empty(),
        parent_of(on, Seq::empty()) is None,
        parent_of(on, seq!['/']) is None,
        checkpoint_dir(on, Seq::empty(), false) == "."@,
{
    assert(!separates(on, name[name.len() - 1]));
    if name.len() > 1 {
        assert(!separates(on, name[name.len() - 2]));
    }
    assert(bare(on, name, 0) == name);
    lemma_component_start(on, name, 0, 0);
    assert(name.take(0) =~= Seq::<char>::empty());
    assert(bare(on, Seq::<char>::empty(), 0) == Seq::<char>::empty());
    let root = seq!['/'];
    assert(bare(on, root, 0) == root);
    assert(root[0] == '/');
}

/// Where the last dot of a name is, if none follows it.
proof fn lemma_stem_end(p: Seq<char>, start: int, at: int, dot: int)
    requires
        0 <= start < dot < at <= p.len(),
        p[dot] == '.',
        forall|i: int| dot < i < at ==> #[trigger] p[i] != '.',
    ensures
        stem_end(p, start, at) == dot,
    decreases at,
{
    if dot < at - 1 {
        assert(p[at - 1] != '.');
        lemma_stem_end(p, start, at - 1, dot);
    }
}

/// A name without a dot behind its first character is all stem.
proof fn lemma_no_stem_end(p: Seq<char>, start: int, at: int)
    requires
        0 <= start <= at <= p.len(),
        forall|i: int| start < i < at ==> #[trigger] p[i] != '.',
    ensures
        stem_end(p, start, at) == p.len(),
    decreases at,
{
    if at > start + 1 {
        assert(p[at - 1] != '.');
        lemma_no_stem_end(p, start, at - 1);
    }
}

/// Replacing an extension changes what stands behind the last dot of the name,
/// and nothing before it; a name without one gets a dot and the extension.
pub proof fn law_extension_is_replaced(
    on: Platform,
    head: Seq<char>,
    stem: Seq<char>,
    old_ext: Seq<char>,
    ext: Seq<char>,
)
    requires
        head.len() == 0 || separates(on, head.last()),
        stem.len() > 0,
        old_ext.len() > 0,
        drive_len(on, head + stem) == 0,
        drive_len(on, head + stem + seq!['.'] + old_ext) == 0,
        !old_ext.contains('.'),
        forall|i: int| 0 <= i < stem.len() ==> !separates(on, #[trigger] stem[i]),
        forall|i: int| 0 <= i < old_ext.len() ==> !separates(on, #[trigger] old_ext[i]),
    ensures
        extended(on, head + stem + seq!['.'] + old_ext, ext) == head + stem + seq!['.'] + ext,
        !stem.contains('.') ==> extended(on, head + stem, ext) == head + stem + seq!['.'] + ext,
{
    reveal_strlit(".");
    reveal_strlit("..");
    let h = head.len() as int;
    let dot = h + stem.len();
    let p = head + stem + seq!['.'] + old_ext;
    assert forall|i: int| h <= i < p.len() implies !separates(on, #[trigger] p[i]) by {
        if i < dot {
            assert(p[i] == stem[i - h]);
        } else if i > dot {
            assert(p[i] == old_ext[i - dot - 1]);
        } else {
            assert(p[i] == '.');
        }
    }
    assert(p.last() == old_ext[old_ext.len() - 1]);
    assert(old_ext.contains(p.last()));
    assert(bare(on, p, 0) == p);
    if h > 0 {
        assert(p[h - 1] == head.last());
    }
    lemma_component_start(on, p, 0, h);
    assert(p.skip(h).len() >= 3);
    assert("."@.len() == 1 && ".."@.len() == 2);
    assert forall|i: int| dot < i < p.len() implies #[trigger] p[i] != '.' by {
        assert(p[i] == old_ext[i - dot - 1]);
        assert(old_ext.contains(old_ext[i - dot - 1]));
    }
    assert(p[dot] == '.');
    lemma_stem_end(p, h, p.len() as int, dot);
    assert(p.take(dot) =~= head + stem);
    if !stem.contains('.') {
        let q = head + stem;
        assert forall|i: int| h <= i < q.len() implies !separates(on, #[trigger] q[i]) && q[i]
            != '.' by {
            assert(q[i] == stem[i - h]);
            assert(stem.contains(stem[i - h]));
        }
        assert(q.last() == q[q.len() - 1]);
        assert(bare(on, q, 0) == q);
        if h > 0 {
            assert(q[h - 1] == head.last());
        }
        lemma_component_start(on, q, 0, h);
        assert(q.skip(h) =~= stem);
        assert(stem[0] != '.') by {
            assert(stem.contains(stem[0]));
        }
        assert("."@[0] == '.' && ".."@[0] == '.');
        lemma_no_stem_end(q, h, q.len() as int);
        assert(q.take(q.len() as int) =~= q);
    }
}

/// Separators and dots at the end of a path make no difference to its parent.
pub proof fn law_ends_of_paths(on: Platform, p: Seq<char>)
    requires
        p.len() > drive_len(on, p),
    ensures
        parent_of(on, p.push('/')) == parent_of(on, p),
        parent_of(on, p.push('/').push('.')) == parent_of(on, p),
{
    let d = drive_len(on, p);
    let a = p.push('/');
    let b = a.push('.');
    assert(a.drop_last() =~= p);
    assert(b.drop_last() =~= a);
    assert(a[0] == p[0] && b[0] == p[0]);
    if p.len() >= 2 {
        assert(a[1] == p[1] && b[1] == p[1]);
    } else {
        assert(a[1] == '/' && b[1] == '/');
    }
    assert(b[b.len() - 2] == '/');
    assert(bare(on, a, d) == bare(on, p, d));
    assert(bare(on, b, d) == bare(on, a, d));
}

/// A drive is a letter and a colon, on Windows; a name that begins with one, or
/// at the root, is not put below a directory, but one at the root keeps the
/// drive.
pub proof fn law_drives(on: Platform, dir: Seq<char>, name: Seq<char>)
    ensures
        drive_len(Platform::Unix, name) == 0,
        drive_len(Platform::Windows, name) == 2 <==> name.len() >= 2 && name[1] == ':' && (
        'a' as u32 <= name[0] as u32 <= 'z' as u32 || 'A' as u32 <= name[0] as u32 <= 'Z' as u32),
        drive_len(Platform::Windows, name) == 0 || drive_len(Platform::Windows, name) == 2,
        drive_len(Platform::Windows, name) == 2 ==> path_below(Platform::Windows, dir, name) == name,
        name.len() > 0 && (name[0] == '/' || name[0] == '\\') ==> path_below(
            Platform::Windows,
            dir,
            name,
        ) == dir.subrange(0, drive_len(Platform::Windows, dir)) + name,
{
    assert(dir.take(drive_len(Platform::Windows, dir)) =~= dir.subrange(
        0,
        drive_len(Platform::Windows, dir),
    ));
}

/// A dot at the beginning of a name is no extension, and a path that ends in
/// two dots names no file and stays as it is.
pub proof fn law_dots_at_the_beginning(
    on: Platform,
    head: Seq<char>,
    rest: Seq<char>,
    ext: Seq<char>,
)
    requires
        head.len() == 0 || separates(on, head.last()),
        drive_len(on, head + seq!['.'] + rest) == 0,
        drive_len(on, head + seq!['.', '.']) == 0,
        rest.len() > 0,
        !rest.contains('.'),
        forall|i: int| 0 <= i < rest.len() ==> !separates(on, #[trigger] rest[i]),
    ensures
        extended(on, head + seq!['.'] + rest, ext) == head + seq!['.'] + rest + seq!['.'] + ext,
        extended(on, head + seq!['.', '.'], ext) == head + seq!['.', '.'],
{
    reveal_strlit(".");
    reveal_strlit("..");
    let h = head.len() as int;
    let p = head + seq!['.'] + rest;
    assert forall|i: int| h <= i < p.len() implies !separates(on, #[trigger] p[i]) by {
        if i > h {
            assert(p[i] == rest[i - h - 1]);
        } else {
            assert(p[i] == '.');
        }
    }
    assert forall|i: int| h < i < p.len() implies #[trigger] p[i] != '.' by {
        assert(p[i] == rest[i - h - 1]);
        assert(rest.contains(rest[i - h - 1]));
    }
    assert(p.last() == p[p.len() - 1]);
    assert(bare(on, p, 0) == p);
    if h > 0 {
        assert(p[h - 1] == head.last());
    }
    lemma_component_start(on, p, 0, h);
    let name = p.skip(h);
    assert(name.len() >= 2 && name[1] == p[h + 1]);
    assert("."@.len() == 1 && ".."@.len() == 2 && ".."@[1] == '.');
    lemma_no_stem_end(p, h, p.len() as int);
    assert(p.take(p.len() as int) =~= p);
    let q = head + seq!['.', '.'];
    assert(q[h] == '.' && q[h + 1] == '.');
    assert(bare(on, q, 0) == q);
    if h > 0 {
        assert(q[h - 1] == head.last());
    }
    lemma_component_start(on, q, 0, h);
    assert(q.skip(h) =~= ".."@);
}

} // verus!
