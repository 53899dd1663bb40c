//! The members of a JSON object.
//!
//! The names that an object gives its members are found without reading the
//! values: a name is the string before a colon that stands in no deeper object
//! or array, and in no string.
use vstd::prelude::*;

use crate::text::{chars_of, same};

verus! {

/// The string that `serde_json` reads from a text, if it can.
pub uninterp spec fn string_in(text: Seq<char>) -> Option<Seq<char>>;

/// `serde_json::from_str` for a string. What is read depends on the text alone.
#[verifier::external_body]
fn string_from_str(text: &str) -> (r: Result<String, serde_json::Error>)
    ensures
        r is Ok ==> string_in(text@) == Some(r->Ok_0@),
        r is Err ==> string_in(text@) is None,
{
    serde_json::from_str(text)
}

/// What is known of an object before some place in its text.
#[verifier::ext_equal]
pub ghost struct Scan {
    /// How many objects and arrays are open.
    pub depth: nat,
    /// A string is open.
    pub quoted: bool,
    /// The last character was a backslash that changes the next one's meaning.
    pub escaped: bool,
    /// The last string, as it is written.
    pub string: Seq<char>,
    /// The names of the members, as they are written.
    pub names: Seq<Seq<char>>,
}

/// What is known behind one more character.
pub open spec fn scan_char(s: Scan, c: char) -> Scan {
    if s.quoted {
        Scan {
            quoted: s.escaped || c != '"',
            escaped: !s.escaped && c == '\\',
            string: s.string.push(c),
            ..s
        }
    } else if c == '"' {
        Scan { quoted: true, string: seq!['"'], ..s }
    } else if c == '{' || c == '[' {
        Scan { depth: s.depth + 1, ..s }
    } else if (c == '}' || c == ']') && s.depth > 0 {
        Scan { depth: (s.depth - 1) as nat, ..s }
    } else if c == ':' && s.depth == 1 {
        Scan { names: s.names.push(s.string), ..s }
    } else {
        s
    }
}

/// What is known behind a text.
pub open spec fn scan(text: Seq<char>) -> Scan
    decreases text.len(),
{
    if text.len() == 0 {
        Scan {
            depth: 0,
            quoted: false,
            escaped: false,
            string: Seq::empty(),
            names: Seq::empty(),
        }
    } else {
        scan_char(scan(text.drop_last()), text.last())
    }
}

/// How many of some written names stand for `field`.
pub open spec fn times(names: Seq<Seq<char>>, field: Seq<char>) -> nat
    decreases names.len(),
{
    if names.len() == 0 {
        0
    } else {
        times(names.drop_last(), field) + if string_in(names.last()) == Some(field) {
            1nat
        } else {
            0nat
        }
    }
}

/// The object that `text` denotes has more than one member `field`.
pub open spec fn repeats(text: Seq<char>, field: Seq<char>) -> bool {
    times(scan(text).names, field) > 1
}

/// Whether an object has more than one member `field`.
pub fn repeats_member(text: &str, field: &str) -> (r: bool)
    ensures
        r == repeats(text@, field@),
{
    let chars = chars_of(text);
    let mut depth: usize = 0;
    let mut quoted = false;
    let mut escaped = false;
    let mut string = String::new();
    let mut found: usize = 0;
    let mut k: usize = 0;
    while k < chars.len()
        invariant
            chars@ == text@,
            k <= chars.len(),
            depth <= k,
            found <= k,
            ({
                let s = scan(text@.take(k as int));
                &&& depth == s.depth
                &&& quoted == s.quoted
                &&& escaped == s.escaped
                &&& string@ == s.string
                &&& found == times(s.names, field@)
            }),
        decreases chars.len() - k,
    {
        let c = chars[k];
        let ghost s = scan(text@.take(k as int));
        let ghost t = scan_char(s, c);
        proof {
            let next = text@.take(k + 1);
            assert(next.drop_last() =~= text@.take(k as int));
            assert(scan(next) == t);
        }
        if quoted {
            quoted = escaped || c != '"';
            escaped = !escaped && c == '\\';
            string.push(c);
        } else if c == '"' {
            quoted = true;
            string = String::new();
            string.push(c);
            assert(string@ =~= seq!['"']);
        } else if c == '{' || c == '[' {
            depth = depth + 1;
        } else if (c == '}' || c == ']') && depth > 0 {
            depth = depth - 1;
        } else if c == ':' && depth == 1 {
            assert(t.names.drop_last() =~= s.names);
            match string_from_str(string.as_str()) {
                Ok(name) => {
                    if same(name.as_str(), field) {
                        found = found + 1;
                    }
                },
                Err(_) => {},
            }
        }
        k = k + 1;
    }
    assert(text@.take(k as int) =~= text@);
    found > 1
}

/// There are no more names of a kind than names.
proof fn lemma_times(names: Seq<Seq<char>>, field: Seq<char>)
    ensures
        times(names, field) <= names.len(),
    decreases names.len(),
{
    if names.len() > 0 {
        lemma_times(names.drop_last(), field);
    }
}

/// Text without a colon gives no member a name.
proof fn lemma_no_colon(a: Seq<char>, b: Seq<char>)
    requires
        !b.contains(':'),
    ensures
        scan(a + b).names == scan(a).names,
    decreases b.len(),
{
    if b.len() == 0 {
        assert(a + b =~= a);
    } else {
        assert((a + b).drop_last() =~= a + b.drop_last());
        assert(b.last() == b[b.len() - 1]);
        assert forall|c: char| b.drop_last().contains(c) implies b.contains(c) by {
            let i = choose|i: int| 0 <= i < b.len() - 1 && b.drop_last()[i] == c;
            assert(b[i] == c);
        }
        lemma_no_colon(a, b.drop_last());
    }
}

/// An object with one colon in its text repeats no member.
pub proof fn lemma_one_colon(a: Seq<char>, b: Seq<char>, field: Seq<char>)
    requires
        !a.contains(':'),
        !b.contains(':'),
    ensures
        !repeats(a.push(':') + b, field),
{
    assert(Seq::<char>::empty() + a =~= a);
    lemma_no_colon(Seq::empty(), a);
    assert(a.push(':').drop_last() =~= a);
    lemma_no_colon(a.push(':'), b);
    lemma_times(scan(a.push(':') + b).names, field);
}

/// Outside of strings, brackets open and close levels, and a colon on the first
/// level makes the string before it the name of a member; nothing else matters.
pub proof fn law_names_outside_of_strings(text: Seq<char>, c: char)
    requires
        !scan(text).quoted,
        c != '"',
    ensures
        ({
            let (s, t) = (scan(text), scan(text.push(c)));
            &&& !t.quoted && t.string == s.string
            &&& c == '{' || c == '[' ==> t.depth == s.depth + 1 && t.names == s.names
            &&& (c == '}' || c == ']') && s.depth > 0 ==> t.depth == s.depth - 1 && t.names
                == s.names
            &&& c == ':' && s.depth == 1 ==> t.depth == s.depth && t.names == s.names.push(s.string)
            &&& c == ':' && s.depth != 1 ==> t == s
            &&& c != '{' && c != '[' && c != '}' && c != ']' && c != ':' ==> t == s
        }),
{
    assert(text.push(c).drop_last() =~= text);
}

/// A string opens no level and names nothing by itself; it ends at the first
/// quote that no backslash stands before.
pub proof fn law_strings_are_skipped(text: Seq<char>, body: Seq<char>)
    requires
        !scan(text).quoted,
        !scan(text).escaped,
        !body.contains('"'),
        !body.contains('\\'),
    ensures
        ({
            let (s, t) = (scan(text), scan(text + seq!['"'] + body + seq!['"']));
            &&& !t.quoted && !t.escaped && t.depth == s.depth && t.names == s.names
            &&& t.string == seq!['"'] + body + seq!['"']
        }),
{
    let open = text + seq!['"'];
    assert(open.drop_last() =~= text);
    lemma_body(text, body, body.len() as int);
    assert(body.take(body.len() as int) =~= body);
    let whole = open + body + seq!['"'];
    assert(whole.drop_last() =~= open + body);
    assert((seq!['"'] + body).push('"') =~= seq!['"'] + body + seq!['"']);
}

/// Inside a string, up to its `n`-th character.
proof fn lemma_body(text: Seq<char>, body: Seq<char>, n: int)
    requires
        !scan(text).quoted,
        !scan(text).escaped,
        !body.contains('"'),
        !body.contains('\\'),
        0 <= n <= body.len(),
    ensures
        ({
            let (s, t) = (scan(text), scan(text + seq!['"'] + body.take(n)));
            &&& t.quoted && !t.escaped && t.depth == s.depth && t.names == s.names
            &&& t.string == seq!['"'] + body.take(n)
        }),
    decreases n,
{
    let open = text + seq!['"'];
    if n == 0 {
        assert(open.drop_last() =~= text);
        assert(open + body.take(0) =~= open);
        assert(seq!['"'] + body.take(0) =~= seq!['"']);
    } else {
        lemma_body(text, body, n - 1);
        let shorter = open + body.take(n - 1);
        let longer = open + body.take(n);
        assert(longer.drop_last() =~= shorter);
        assert(longer.last() == body[n - 1]);
        assert(body.contains(body[n - 1]));
        assert((seq!['"'] + body.take(n - 1)).push(body[n - 1]) =~= seq!['"'] + body.take(n));
    }
}

/// Inside a string, a backslash takes its meaning from a quote behind it.
pub proof fn law_escaped_quotes_end_nothing(text: Seq<char>, c: char)
    requires
        scan(text).quoted,
        !scan(text).escaped,
    ensures
        ({
            let t = scan(text.push('\\').push(c));
            &&& t.quoted && !t.escaped
            &&& t.depth == scan(text).depth && t.names == scan(text).names
        }),
{
    assert(text.push('\\').drop_last() =~= text);
    assert(scan(text.push('\\')) == scan_char(scan(text), '\\'));
    assert(text.push('\\').push(c).drop_last() =~= text.push('\\'));
}

/// A member is repeated where two of the names stand for it.
pub proof fn law_repeated_where_named_twice(
    text: Seq<char>,
    field: Seq<char>,
    i: int,
    j: int,
)
    requires
        0 <= i < j < scan(text).names.len(),
        string_in(scan(text).names[i]) == Some(field),
        string_in(scan(text).names[j]) == Some(field),
    ensures
        repeats(text, field),
{
    let names = scan(text).names;
    lemma_times_at_least(names, field, i, j);
}

proof fn lemma_times_at_least(names: Seq<Seq<char>>, field: Seq<char>, i: int, j: int)
    requires
        0 <= i <= j < names.len(),
        string_in(names[i]) == Some(field),
        string_in(names[j]) == Some(field),
    ensures
        times(names, field) >= if i < j {
            2nat
        } else {
            1nat
        },
    decreases names.len(),
{
    let init = names.drop_last();
    if j < init.len() {
        lemma_times_at_least(init, field, i, j);
    } else if i < j {
        lemma_times_at_least(init, field, i, i);
    }
}

/// Where a member is repeated, two of the names stand for it.
pub proof fn law_named_twice_where_repeated(text: Seq<char>, field: Seq<char>) -> (r: (int, int))
    requires
        repeats(text, field),
    ensures
        0 <= r.0 < r.1 < scan(text).names.len(),
        string_in(scan(text).names[r.0]) == Some(field),
        string_in(scan(text).names[r.1]) == Some(field),
{
    let names = scan(text).names;
    let j = lemma_named(names, field);
    let i = lemma_named(names.take(j), field);
    (i, j)
}

/// The last of the names that stand for `field`; fewer stand for it before.
proof fn lemma_named(names: Seq<Seq<char>>, field: Seq<char>) -> (j: int)
    requires
        times(names, field) > 0,
    ensures
        0 <= j < names.len(),
        string_in(names[j]) == Some(field),
        times(names.take(j), field) + 1 == times(names, field),
    decreases names.len(),
{
    let init = names.drop_last();
    if string_in(names.last()) == Some(field) {
        assert(names.take(names.len() - 1) =~= init);
        names.len() - 1
    } else {
        let j = lemma_named(init, field);
        assert(init.take(j) =~= names.take(j));
        j
    }
}

} // verus!
