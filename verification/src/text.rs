//! Text: the operations on strings that the rest of the library uses, each
//! stated over sequences of characters.
use vstd::prelude::*;
use vstd::string::{StrSliceExecFns, StringExecFns};
use vstd::utf8::{decode_utf8, encode_utf8, encode_utf8_decode_utf8, valid_utf8};

verus! {

/// `String::push` appends one character.
pub assume_specification[ String::push ](s: &mut String, c: char)
    ensures
        final(s)@ == old(s)@.push(c),
;

/// `String::pop` removes the last character, if there is one.
pub assume_specification[ String::pop ](s: &mut String) -> (c: Option<char>)
    ensures
        old(s)@.len() == 0 ==> c is None && final(s)@ == old(s)@,
        old(s)@.len() > 0 ==> c == Some(old(s)@.last()) && final(s)@ == old(s)@.drop_last(),
;

/// The text that the bytes stand for, with each part that is not UTF-8 replaced.
pub uninterp spec fn lossy(bytes: Seq<u8>) -> Seq<char>;

/// `String::from_utf8_lossy`: the text depends on the bytes alone. Only what is
/// not UTF-8 is replaced, so UTF-8 is decoded, and the text begins with what
/// UTF-8 at the beginning of the bytes stands for. What stands in the place of
/// the rest is not stated.
#[verifier::external_body]
pub(crate) fn from_utf8_lossy(bytes: &Vec<u8>) -> (r: String)
    ensures
        r@ == lossy(bytes@),
        valid_utf8(bytes@) ==> r@ == decode_utf8(bytes@),
        forall|p: Seq<u8>|
            #[trigger] p.is_prefix_of(bytes@) && valid_utf8(p) ==> decode_utf8(p).is_prefix_of(r@),
{
    String::from_utf8_lossy(bytes).into_owned()
}

/// `std::str::from_utf8`: the text that the bytes encode, if they are UTF-8.
#[verifier::external_body]
pub(crate) fn from_utf8(bytes: &Vec<u8>) -> (r: Option<&str>)
    ensures
        r is Some <==> valid_utf8(bytes@),
        r is Some ==> r->Some_0@ == decode_utf8(bytes@),
{
    std::str::from_utf8(bytes).ok()
}

/// The characters of a string.
pub fn chars_of(s: &str) -> (chars: Vec<char>)
    ensures
        chars@ == s@,
{
    let mut out: Vec<char> = Vec::new();
    for c in it: s.chars()
        invariant
            it.seq() == s@,
            out@ == s@.take(it.index() as int),
    {
        out.push(c);
        assert(s@.take(it.index() + 1) =~= s@.take(it.index() as int).push(c));
    }
    assert(s@.take(s@.len() as int) =~= s@);
    out
}

/// The string made of the characters from `from` up to `to`.
pub fn string_of(chars: &Vec<char>, from: usize, to: usize) -> (s: String)
    requires
        from <= to <= chars@.len(),
    ensures
        s@ == chars@.subrange(from as int, to as int),
{
    let mut out = String::new();
    for i in from..to
        invariant
            from <= to <= chars@.len(),
            out@ == chars@.subrange(from as int, i as int),
    {
        out.push(chars[i]);
        assert(chars@.subrange(from as int, i + 1) =~= chars@.subrange(from as int, i as int).push(
            chars@[i as int],
        ));
    }
    out
}


/// Whether two strings hold the same characters.
pub fn same(a: &str, b: &str) -> (r: bool)
    ensures
        r == (a@ == b@),
{
    let x = a.as_bytes();
    let y = b.as_bytes();
    proof {
        encode_utf8_decode_utf8(a@);
        encode_utf8_decode_utf8(b@);
    }
    if x.len() != y.len() {
        return false;
    }
    for i in 0..x.len()
        invariant
            x@ == encode_utf8(a@),
            y@ == encode_utf8(b@),
            x@.len() == y@.len(),
            x@.take(i as int) == y@.take(i as int),
    {
        if x[i] != y[i] {
            return false;
        }
        assert(x@.take(i + 1) =~= x@.take(i as int).push(x@[i as int]));
        assert(y@.take(i + 1) =~= y@.take(i as int).push(y@[i as int]));
    }
    assert(x@.take(x@.len() as int) =~= x@);
    assert(y@.take(y@.len() as int) =~= y@);
    true
}

/// Two strings, one after the other.
pub fn concat2(a: &str, b: &str) -> (s: String)
    ensures
        s@ == a@ + b@,
{
    let mut out = a.to_owned();
    out.append(b);
    out
}

// ---------------------------------------------------------------------------
// Numbers
// ---------------------------------------------------------------------------

/// The character of a decimal digit.
pub open spec fn digit(d: int) -> char {
    (0x30 + d) as char
}

/// A number in decimal, without leading zeros.
pub open spec fn decimal(n: nat) -> Seq<char>
    decreases n,
{
    if n < 10 {
        seq![digit(n as int)]
    } else {
        decimal(n / 10).push(digit(n as int % 10))
    }
}

/// The decimal text of a number.
pub fn number_text(n: usize) -> (s: String)
    ensures
        s@ == decimal(n as nat),
    decreases n,
{
    if n < 10 {
        let mut out = String::new();
        out.push((0x30 + n as u8) as char);
        assert(out@ =~= decimal(n as nat));
        out
    } else {
        let mut out = number_text(n / 10);
        out.push((0x30 + (n % 10) as u8) as char);
        out
    }
}

pub open spec fn is_digit(c: char) -> bool {
    0x30 <= c as u32 <= 0x39
}

pub open spec fn all_digits(s: Seq<char>) -> bool {
    forall|i: int| 0 <= i < s.len() ==> is_digit(#[trigger] s[i])
}

/// The value of a sequence of decimal digits.
pub open spec fn value_of(s: Seq<char>) -> nat
    decreases s.len(),
{
    if s.len() == 0 {
        0
    } else {
        (value_of(s.drop_last()) * 10 + (s.last() as u32 - 0x30)) as nat
    }
}

/// The digits of a number, without an optional plus sign in front.
pub open spec fn unsigned_part(s: Seq<char>) -> Seq<char> {
    if s.len() > 0 && s[0] == '+' {
        s.skip(1)
    } else {
        s
    }
}

/// The number that `s` denotes, if it denotes one that is at most `limit`:
/// one or more decimal digits, optionally after a plus sign.
pub open spec fn number_in(s: Seq<char>, limit: nat) -> Option<nat> {
    let t = unsigned_part(s);
    if t.len() > 0 && all_digits(t) && value_of(t) <= limit {
        Some(value_of(t))
    } else {
        None
    }
}

proof fn lemma_value_prefix(s: Seq<char>, n: int)
    requires
        all_digits(s),
        0 <= n <= s.len(),
    ensures
        value_of(s.take(n)) <= value_of(s),
    decreases s.len(),
{
    if n == s.len() {
        assert(s.take(n) =~= s);
    } else {
        let init = s.drop_last();
        assert(init.take(n) =~= s.take(n));
        assert(all_digits(init));
        lemma_value_prefix(init, n);
        assert(is_digit(s.last()));
    }
}

/// Reads a number that is at most `limit`.
pub fn parse_number(s: &str, limit: u64) -> (r: Option<u64>)
    ensures
        match r {
            Some(n) => number_in(s@, limit as nat) == Some(n as nat),
            None => number_in(s@, limit as nat) is None,
        },
{
    let chars = chars_of(s);
    let start: usize = if chars.len() > 0 && chars[0] == '+' { 1 } else { 0 };
    let ghost t = unsigned_part(s@);
    assert(t =~= chars@.skip(start as int));
    if start == chars.len() {
        return None;
    }
    let mut acc: u64 = 0;
    for i in start..chars.len()
        invariant
            start <= chars@.len(),
            t == chars@.skip(start as int),
            t == unsigned_part(s@),
            acc <= limit,
            all_digits(t.take(i - start)),
            acc == value_of(t.take(i - start)),
    {
        let c = chars[i];
        let ghost shorter = t.take(i - start);
        let ghost longer = t.take(i - start + 1);
        assert(longer.drop_last() =~= shorter);
        assert(longer.last() == c);
        let u = c as u32;
        if u < 0x30 || u > 0x39 {
            assert(!is_digit(t[i - start]));
            return None;
        }
        let d = u as u64 - 0x30;
        assert(all_digits(longer)) by {
            assert forall|j: int| 0 <= j < longer.len() implies is_digit(#[trigger] longer[j]) by {
                if j < shorter.len() {
                    assert(longer[j] == shorter[j]);
                }
            }
        }
        if acc > limit / 10 || d > limit - acc * 10 {
            proof {
                if all_digits(t) {
                    lemma_value_prefix(t, i - start + 1);
                }
            }
            return None;
        }
        acc = acc * 10 + d;
    }
    assert(t.take(t.len() as int) =~= t);
    Some(acc)
}

/// Reads a `usize`, or takes `fallback` if the text is no number.
pub fn parse_or(s: &str, fallback: usize) -> (r: usize)
    ensures
        r == match number_in(s@, usize::MAX as nat) {
            Some(n) => n as usize,
            None => fallback,
        },
{
    match parse_number(s, usize::MAX as u64) {
        Some(n) => n as usize,
        None => fallback,
    }
}

proof fn lemma_decimal(n: nat)
    ensures
        decimal(n).len() > 0,
        all_digits(decimal(n)),
        value_of(decimal(n)) == n,
    decreases n,
{
    if n < 10 {
        let s = decimal(n);
        assert(s.drop_last() =~= Seq::<char>::empty());
        assert(value_of(Seq::<char>::empty()) == 0);
    } else {
        lemma_decimal(n / 10);
        let s = decimal(n);
        assert(s.drop_last() =~= decimal(n / 10));
        assert forall|i: int| 0 <= i < s.len() implies is_digit(#[trigger] s[i]) by {
            if i < s.len() - 1 {
                assert(s[i] == decimal(n / 10)[i]);
            }
        }
    }
}

/// Reading the decimal text of a number gives the number back.
pub proof fn law_number_roundtrip(n: nat, limit: nat)
    requires
        n <= limit,
    ensures
        number_in(decimal(n), limit) == Some(n),
{
    lemma_decimal(n);
    assert(is_digit(decimal(n)[0]));
}

// ---------------------------------------------------------------------------
// White space and case
// ---------------------------------------------------------------------------

/// Whether `c` has the Unicode property `White_Space`.
pub open spec fn is_white(c: char) -> bool {
    let u = c as u32;
    ||| 0x09 <= u <= 0x0d
    ||| u == 0x20
    ||| u == 0x85
    ||| u == 0xa0
    ||| u == 0x1680
    ||| 0x2000 <= u <= 0x200a
    ||| u == 0x2028
    ||| u == 0x2029
    ||| u == 0x202f
    ||| u == 0x205f
    ||| u == 0x3000
}

fn white(c: char) -> (r: bool)
    ensures
        r == is_white(c),
{
    let u = c as u32;
    (0x09 <= u && u <= 0x0d) || u == 0x20 || u == 0x85 || u == 0xa0 || u == 0x1680 || (0x2000 <= u
        && u <= 0x200a) || u == 0x2028 || u == 0x2029 || u == 0x202f || u == 0x205f || u == 0x3000
}

/// `s` without white space at its start and at its end.
pub open spec fn trimmed(s: Seq<char>) -> Seq<char>
    decreases s.len(),
{
    if s.len() > 0 && is_white(s[0]) {
        trimmed(s.skip(1))
    } else if s.len() > 0 && is_white(s.last()) {
        trimmed(s.drop_last())
    } else {
        s
    }
}

/// `s` without white space at its start and at its end.
pub fn trim(s: &str) -> (r: String)
    ensures
        r@ == trimmed(s@),
{
    let chars = chars_of(s);
    let mut lo: usize = 0;
    let mut hi: usize = chars.len();
    assert(chars@.subrange(0, chars@.len() as int) =~= chars@);
    while lo < hi && white(chars[lo])
        invariant
            lo <= hi == chars@.len(),
            trimmed(s@) == trimmed(chars@.subrange(lo as int, hi as int)),
        decreases hi - lo,
    {
        let ghost cur = chars@.subrange(lo as int, hi as int);
        assert(cur.skip(1) =~= chars@.subrange(lo + 1, hi as int));
        lo = lo + 1;
    }
    while lo < hi && white(chars[hi - 1])
        invariant
            lo <= hi <= chars@.len(),
            lo < hi ==> !is_white(chars@[lo as int]),
            trimmed(s@) == trimmed(chars@.subrange(lo as int, hi as int)),
        decreases hi - lo,
    {
        let ghost cur = chars@.subrange(lo as int, hi as int);
        assert(cur.drop_last() =~= chars@.subrange(lo as int, hi - 1));
        hi = hi - 1;
    }
    string_of(&chars, lo, hi)
}

/// An ASCII capital letter in lower case; every other character as it is.
pub open spec fn lower(c: char) -> char {
    if 0x41 <= c as u32 <= 0x5a {
        (c as u32 + 0x20) as char
    } else {
        c
    }
}

/// `s` with its ASCII letters in lower case.
pub open spec fn lowered(s: Seq<char>) -> Seq<char> {
    s.map_values(|c: char| lower(c))
}

/// `s` with its ASCII letters in lower case.
pub fn lowercase(s: &str) -> (r: String)
    ensures
        r@ == lowered(s@),
{
    let chars = chars_of(s);
    let mut out = String::new();
    for i in 0..chars.len()
        invariant
            chars@ == s@,
            out@ == lowered(s@.take(i as int)),
    {
        let c = chars[i];
        let u = c as u32;
        if 0x41 <= u && u <= 0x5a {
            out.push((u as u8 + 0x20) as char);
        } else {
            out.push(c);
        }
        assert(lowered(s@.take(i + 1)) =~= lowered(s@.take(i as int)).push(lower(c)));
    }
    assert(s@.take(s@.len() as int) =~= s@);
    out
}

// ---------------------------------------------------------------------------
// Searching
// ---------------------------------------------------------------------------

/// Whether `p` stands in `chars` at position `at`.
fn occurs_at(chars: &Vec<char>, p: &Vec<char>, at: usize) -> (r: bool)
    requires
        at <= chars@.len(),
    ensures
        r == p@.is_prefix_of(chars@.skip(at as int)),
{
    if chars.len() - at < p.len() {
        return false;
    }
    for i in 0..p.len()
        invariant
            at + p.len() <= chars.len(),
            forall|j: int| 0 <= j < i ==> p@[j] == #[trigger] chars@.skip(at as int)[j],
    {
        assert(chars@.skip(at as int)[i as int] == chars@[at + i]);
        if chars[at + i] != p[i] {
            return false;
        }
    }
    assert(p@ =~= chars@.skip(at as int).subrange(0, p@.len() as int));
    true
}

/// `s` with every occurrence of `p`, taken from the left and without overlap,
/// replaced by `with`.
pub open spec fn substituted(s: Seq<char>, p: Seq<char>, with: Seq<char>) -> Seq<char>
    decreases s.len(),
{
    if s.len() == 0 || p.len() == 0 {
        s
    } else if p.is_prefix_of(s) {
        with + substituted(s.skip(p.len() as int), p, with)
    } else {
        seq![s[0]] + substituted(s.skip(1), p, with)
    }
}

/// `s` with every occurrence of `p` replaced by `with`.
pub fn substitute(s: &str, p: &str, with: &str) -> (r: String)
    requires
        p@.len() > 0,
    ensures
        r@ == substituted(s@, p@, with@),
{
    let chars = chars_of(s);
    let pattern = chars_of(p);
    let mut out = String::new();
    let mut i: usize = 0;
    assert(s@.skip(0) =~= s@);
    assert(out@ + substituted(s@, p@, with@) =~= substituted(s@, p@, with@));
    while i < chars.len()
        invariant
            chars@ == s@,
            pattern@ == p@,
            p@.len() > 0,
            i <= chars@.len(),
            substituted(s@, p@, with@) == out@ + substituted(s@.skip(i as int), p@, with@),
        decreases chars@.len() - i,
    {
        let ghost rest = s@.skip(i as int);
        let ghost done = out@;
        if occurs_at(&chars, &pattern, i) {
            out.append(with);
            assert(rest.skip(p@.len() as int) =~= s@.skip(i + p@.len()));
            assert(out@ + substituted(s@.skip(i + p@.len()), p@, with@) =~= done + substituted(
                rest,
                p@,
                with@,
            ));
            i = i + pattern.len();
        } else {
            out.push(chars[i]);
            assert(rest.skip(1) =~= s@.skip(i + 1));
            assert(out@ + substituted(s@.skip(i + 1), p@, with@) =~= done + substituted(
                rest,
                p@,
                with@,
            ));
            i = i + 1;
        }
    }
    assert(out@ + substituted(s@.skip(i as int), p@, with@) =~= out@);
    out
}

/// What follows the prefix `p` of `s`; nothing if `s` does not start with `p`.
pub open spec fn after_prefix(s: Seq<char>, p: Seq<char>) -> Option<Seq<char>> {
    if p.is_prefix_of(s) {
        Some(s.skip(p.len() as int))
    } else {
        None
    }
}

/// What follows the prefix `p` of `s`.
pub fn strip_prefix(s: &str, p: &str) -> (r: Option<String>)
    ensures
        match r {
            Some(t) => after_prefix(s@, p@) == Some(t@),
            None => after_prefix(s@, p@) is None,
        },
{
    let chars = chars_of(s);
    let pattern = chars_of(p);
    assert(chars@.skip(0) =~= chars@);
    if occurs_at(&chars, &pattern, 0) {
        let t = string_of(&chars, pattern.len(), chars.len());
        assert(t@ =~= s@.skip(p@.len() as int));
        Some(t)
    } else {
        None
    }
}

/// Whether `s` ends with `p`.
pub fn ends_with(s: &str, p: &str) -> (r: bool)
    ensures
        r == p@.is_suffix_of(s@),
{
    let chars = chars_of(s);
    let pattern = chars_of(p);
    if chars.len() < pattern.len() {
        return false;
    }
    let at = chars.len() - pattern.len();
    assert(s@.skip(at as int) =~= s@.subrange(at as int, s@.len() as int));
    assert(s@.skip(at as int).subrange(0, p@.len() as int) =~= s@.skip(at as int));
    occurs_at(&chars, &pattern, at)
}

// ---------------------------------------------------------------------------
// Lists of strings
// ---------------------------------------------------------------------------

/// The characters of each string of a list.
pub open spec fn views(list: Seq<String>) -> Seq<Seq<char>> {
    list.map_values(|s: String| s@)
}

/// The strings of a list, with `sep` between them.
pub open spec fn joined_by(list: Seq<Seq<char>>, sep: Seq<char>) -> Seq<char>
    decreases list.len(),
{
    if list.len() == 0 {
        Seq::empty()
    } else if list.len() == 1 {
        list[0]
    } else {
        joined_by(list.drop_last(), sep) + sep + list.last()
    }
}

/// The strings of a list, with `sep` between them.
pub fn join(list: &Vec<String>, sep: &str) -> (r: String)
    ensures
        r@ == joined_by(views(list@), sep@),
{
    let mut out = String::new();
    for i in 0..list.len()
        invariant
            out@ == joined_by(views(list@.take(i as int)), sep@),
    {
        let ghost longer = views(list@.take(i + 1));
        assert(longer.drop_last() =~= views(list@.take(i as int)));
        if i > 0 {
            out.append(sep);
        }
        out.append(list[i].as_str());
        assert(out@ =~= joined_by(longer, sep@));
    }
    assert(list@.take(list@.len() as int) =~= list@);
    out
}

/// The same character `n` times.
pub open spec fn repeated(c: char, n: nat) -> Seq<char> {
    Seq::new(n, |i: int| c)
}

/// The same character `n` times.
pub fn repeat(c: char, n: usize) -> (r: String)
    ensures
        r@ == repeated(c, n as nat),
{
    let mut out = String::new();
    for i in 0..n
        invariant
            out@ == repeated(c, i as nat),
    {
        out.push(c);
        assert(out@ =~= repeated(c, (i + 1) as nat));
    }
    out
}

/// `s` followed by as many spaces as it takes to be `width` characters long.
pub open spec fn padded(s: Seq<char>, width: nat) -> Seq<char> {
    if s.len() < width {
        s + repeated(' ', (width - s.len()) as nat)
    } else {
        s
    }
}

/// `s`, filled up with spaces to `width` characters.
pub fn pad(s: &str, width: usize) -> (r: String)
    ensures
        r@ == padded(s@, width as nat),
{
    let n = s.unicode_len();
    let mut out = s.to_owned();
    if n < width {
        let fill = repeat(' ', width - n);
        out.append(fill.as_str());
    }
    out
}

/// Position of the first line feed of `s` from `at` on, or the length of `s`.
pub open spec fn line_end(s: Seq<char>, at: int) -> int
    decreases s.len() - at,
{
    if at < 0 || at >= s.len() || s[at] == '\n' {
        at
    } else {
        line_end(s, at + 1)
    }
}

/// A line that a line feed ended, without a carriage return at its end.
pub open spec fn without_return(line: Seq<char>) -> Seq<char> {
    if line.len() > 0 && line.last() == '\r' {
        line.drop_last()
    } else {
        line
    }
}

proof fn lemma_line_end(s: Seq<char>, at: int)
    requires
        0 <= at <= s.len(),
    ensures
        at <= line_end(s, at) <= s.len(),
        line_end(s, at) < s.len() ==> s[line_end(s, at)] == '\n',
    decreases s.len() - at,
{
    if at < s.len() && s[at] != '\n' {
        lemma_line_end(s, at + 1);
    }
}

/// The lines of `s` from position `at` on: each ends at a line feed, or at a
/// carriage return and a line feed, neither of which belongs to it; the last
/// line may end with the text.
pub open spec fn lines_from(s: Seq<char>, at: int) -> Seq<Seq<char>>
    decreases s.len() - at,
{
    if at < 0 || at >= s.len() {
        Seq::empty()
    } else {
        let end = line_end(s, at);
        if at <= end < s.len() {
            seq![without_return(s.subrange(at, end))] + lines_from(s, end + 1)
        } else {
            seq![s.subrange(at, s.len() as int)]
        }
    }
}

/// The lines of a text.
pub fn lines(s: &str) -> (r: Vec<String>)
    ensures
        views(r@) == lines_from(s@, 0),
{
    let chars = chars_of(s);
    let mut out: Vec<String> = Vec::new();
    let mut at: usize = 0;
    assert(views(out@) + lines_from(s@, 0) =~= lines_from(s@, 0));
    while at < chars.len()
        invariant
            chars@ == s@,
            at <= chars@.len(),
            lines_from(s@, 0) == views(out@) + lines_from(s@, at as int),
        decreases chars@.len() - at,
    {
        let mut end = at;
        while end < chars.len() && chars[end] != '\n'
            invariant
                chars@ == s@,
                at <= end <= chars@.len(),
                line_end(s@, at as int) == line_end(s@, end as int),
            decreases chars@.len() - end,
        {
            end = end + 1;
        }
        let ghost done = views(out@);
        if end == chars.len() {
            let line = string_of(&chars, at, end);
            out.push(line);
            assert(views(out@) =~= done.push(line@));
            assert(views(out@) + lines_from(s@, end as int) =~= done + lines_from(s@, at as int));
            at = end;
        } else {
            let stop = if end > at && chars[end - 1] == '\r' { end - 1 } else { end };
            let line = string_of(&chars, at, stop);
            assert(line@ =~= without_return(s@.subrange(at as int, end as int)));
            out.push(line);
            assert(views(out@) =~= done.push(line@));
            assert(views(out@) + lines_from(s@, end + 1) =~= done + lines_from(s@, at as int));
            at = end + 1;
        }
    }
    assert(views(out@) + lines_from(s@, at as int) =~= views(out@));
    out
}

// ---------------------------------------------------------------------------
// Laws
// ---------------------------------------------------------------------------

/// Text in which the pattern occurs nowhere stays as it is.
pub proof fn law_nothing_to_substitute(s: Seq<char>, p: Seq<char>, with: Seq<char>)
    requires
        forall|i: int|
            #![trigger s.skip(i)]
            0 <= i < s.len() ==> !p.is_prefix_of(s.skip(i)),
    ensures
        substituted(s, p, with) == s,
    decreases s.len(),
{
    if s.len() > 0 && p.len() > 0 {
        assert(s.skip(0) =~= s);
        let rest = s.skip(1);
        assert forall|i: int| #![trigger rest.skip(i)] 0 <= i < rest.len() implies !p.is_prefix_of(
            rest.skip(i),
        ) by {
            assert(rest.skip(i) =~= s.skip(i + 1));
        }
        law_nothing_to_substitute(rest, p, with);
        assert(seq![s[0]] + rest =~= s);
    }
}

/// The first occurrence of the pattern is replaced, what stands before it stays,
/// and what stands behind it is treated on its own.
pub proof fn law_first_match_is_substituted(s: Seq<char>, p: Seq<char>, with: Seq<char>, at: int)
    requires
        p.len() > 0,
        0 <= at < s.len(),
        p.is_prefix_of(s.skip(at)),
        forall|i: int| #![trigger s.skip(i)] 0 <= i < at ==> !p.is_prefix_of(s.skip(i)),
    ensures
        substituted(s, p, with) == s.subrange(0, at) + with + substituted(
            s.subrange(at + p.len(), s.len() as int),
            p,
            with,
        ),
    decreases at,
{
    let tail = s.subrange(at + p.len(), s.len() as int);
    assert(s.skip(0) =~= s);
    if at == 0 {
        assert(s.skip(p.len() as int) =~= tail);
        assert(s.subrange(0, 0) + with =~= with);
    } else {
        let rest = s.skip(1);
        assert(!p.is_prefix_of(s.skip(0)));
        assert(rest.skip(at - 1) =~= s.skip(at));
        assert forall|i: int| #![trigger rest.skip(i)] 0 <= i < at - 1 implies !p.is_prefix_of(
            rest.skip(i),
        ) by {
            assert(rest.skip(i) =~= s.skip(i + 1));
        }
        law_first_match_is_substituted(rest, p, with, at - 1);
        assert(rest.subrange(at - 1 + p.len(), rest.len() as int) =~= tail);
        assert(seq![s[0]] + (rest.subrange(0, at - 1) + with + substituted(tail, p, with))
            =~= s.subrange(0, at) + with + substituted(tail, p, with));
    }
}

/// What is left of a text once white space is taken from both its ends: a part
/// of it that neither begins nor ends with white space, and has nothing but
/// white space before and behind it.
pub proof fn law_trimmed_is_the_middle(s: Seq<char>) -> (r: (int, int))
    ensures
        0 <= r.0 <= r.1 <= s.len(),
        trimmed(s) == s.subrange(r.0, r.1),
        forall|i: int| 0 <= i < r.0 ==> is_white(#[trigger] s[i]),
        forall|i: int| r.1 <= i < s.len() ==> is_white(#[trigger] s[i]),
        r.0 < r.1 ==> !is_white(s[r.0]) && !is_white(s[r.1 - 1]),
    decreases s.len(),
{
    if s.len() > 0 && is_white(s[0]) {
        let t = s.skip(1);
        let (a, b) = law_trimmed_is_the_middle(t);
        assert(t.subrange(a, b) =~= s.subrange(a + 1, b + 1));
        assert forall|i: int| 0 <= i < a + 1 implies is_white(#[trigger] s[i]) by {
            if i > 0 {
                assert(t[i - 1] == s[i]);
            }
        }
        assert forall|i: int| b + 1 <= i < s.len() implies is_white(#[trigger] s[i]) by {
            assert(t[i - 1] == s[i]);
        }
        (a + 1, b + 1)
    } else if s.len() > 0 && is_white(s.last()) {
        let t = s.drop_last();
        let (a, b) = law_trimmed_is_the_middle(t);
        assert(t.subrange(a, b) =~= s.subrange(a, b));
        assert forall|i: int| 0 <= i < a implies is_white(#[trigger] s[i]) by {
            assert(t[i] == s[i]);
        }
        assert forall|i: int| b <= i < s.len() implies is_white(#[trigger] s[i]) by {
            if i < t.len() {
                assert(t[i] == s[i]);
            }
        }
        (a, b)
    } else {
        assert(s.subrange(0, s.len() as int) =~= s);
        (0, s.len() as int)
    }
}

/// White space is what Unicode says it is: tab to carriage return, space, next
/// line, the no-break space, and the spaces and separators further up.
pub proof fn law_white_space(c: char)
    ensures
        is_white(c) <==> seq![
            0x09u32, 0x0a, 0x0b, 0x0c, 0x0d, 0x20, 0x85, 0xa0, 0x1680, 0x2000, 0x2001, 0x2002,
            0x2003, 0x2004, 0x2005, 0x2006, 0x2007, 0x2008, 0x2009, 0x200a, 0x2028, 0x2029, 0x202f,
            0x205f, 0x3000,
        ].contains(c as u32),
{
    let list = seq![
        0x09u32, 0x0a, 0x0b, 0x0c, 0x0d, 0x20, 0x85, 0xa0, 0x1680, 0x2000, 0x2001, 0x2002,
        0x2003, 0x2004, 0x2005, 0x2006, 0x2007, 0x2008, 0x2009, 0x200a, 0x2028, 0x2029, 0x202f,
        0x205f, 0x3000,
    ];
    let u = c as u32;
    assert(list.len() == 25);
    if 0x09 <= u <= 0x0d {
        assert(list[u - 0x09] == u);
    } else if u == 0x20 {
        assert(list[5] == u);
    } else if u == 0x85 {
        assert(list[6] == u);
    } else if u == 0xa0 {
        assert(list[7] == u);
    } else if u == 0x1680 {
        assert(list[8] == u);
    } else if 0x2000 <= u <= 0x200a {
        assert(list[9 + (u - 0x2000)] == u);
    } else if u == 0x2028 {
        assert(list[20] == u);
    } else if u == 0x2029 {
        assert(list[21] == u);
    } else if u == 0x202f {
        assert(list[22] == u);
    } else if u == 0x205f {
        assert(list[23] == u);
    } else if u == 0x3000 {
        assert(list[24] == u);
    }
}

/// Lower case changes the letters A to Z, each to its small letter, and nothing
/// else.
pub proof fn law_lower_case(s: Seq<char>, i: int)
    requires
        0 <= i < s.len(),
    ensures
        lowered(s).len() == s.len(),
        'A' as u32 <= s[i] as u32 <= 'Z' as u32 ==> lowered(s)[i] as u32 - 'a' as u32 == s[i] as u32
            - 'A' as u32,
        !('A' as u32 <= s[i] as u32 <= 'Z' as u32) ==> lowered(s)[i] == s[i],
{
}

/// Digits are read from the left, each worth ten times as much as the one
/// behind it.
pub proof fn law_digits_are_decimal(s: Seq<char>, d: int)
    requires
        0 <= d <= 9,
    ensures
        value_of(Seq::empty()) == 0,
        value_of(s.push(('0' as u32 + d) as char)) == 10 * value_of(s) + d,
        is_digit(('0' as u32 + d) as char),
{
    assert(s.push(('0' as u32 + d) as char).drop_last() =~= s);
}

/// A number is read where there is one: digits and nothing else, at least one,
/// after a plus sign or without one.
pub proof fn law_what_is_a_number(s: Seq<char>, limit: nat)
    ensures
        number_in(s, limit) is Some ==> s.len() > 0,
        s.len() > 0 && s[0] != '+' && number_in(s, limit) is Some ==> forall|i: int|
            0 <= i < s.len() ==> '0' as u32 <= (#[trigger] s[i]) as u32 <= '9' as u32,
        s.len() > 0 && s[0] != '+' && value_of(s) <= limit && (forall|i: int|
            0 <= i < s.len() ==> '0' as u32 <= (#[trigger] s[i]) as u32 <= '9' as u32)
            ==> number_in(s, limit) == Some(value_of(s)),
        s.len() > 0 && s[0] == '+' && !(s.len() > 1 && s[1] == '+') ==> number_in(s, limit)
            == number_in(s.subrange(1, s.len() as int), limit),
        s.len() > 1 && s[0] == '+' && s[1] == '+' ==> number_in(s, limit) is None,
        number_in(s, limit) matches Some(n) ==> n <= limit,
{
    if s.len() > 0 && s[0] == '+' {
        let t = s.skip(1);
        assert(t =~= s.subrange(1, s.len() as int));
        if s.len() > 1 && s[1] == '+' {
            assert(t[0] == '+');
            assert(!is_digit(t[0]));
        }
    }
}

/// A list of strings is joined one by one, with the separator before each but
/// the first.
pub proof fn law_joined_one_by_one(list: Seq<Seq<char>>, last: Seq<char>, sep: Seq<char>)
    ensures
        joined_by(Seq::empty(), sep) == Seq::<char>::empty(),
        joined_by(seq![last], sep) == last,
        list.len() > 0 ==> joined_by(list.push(last), sep) == joined_by(list, sep) + sep + last,
{
    assert(list.push(last).drop_last() =~= list);
}

/// A padded text begins with the text, goes on with spaces, and is as long as
/// asked for unless the text is longer.
pub proof fn law_padded(s: Seq<char>, width: nat)
    ensures
        padded(s, width).len() == if s.len() < width {
            width
        } else {
            s.len()
        },
        padded(s, width).subrange(0, s.len() as int) == s,
        forall|i: int| s.len() <= i < width ==> #[trigger] padded(s, width)[i] == ' ',
{
    assert(padded(s, width).subrange(0, s.len() as int) =~= s);
}

/// A line feed ends a line, and what stands behind it makes further lines; a
/// carriage return right before it belongs to neither.
pub proof fn law_lines_end_at_line_feeds(line: Seq<char>, rest: Seq<char>)
    requires
        !line.contains('\n'),
    ensures
        lines_from(Seq::empty(), 0) == Seq::<Seq<char>>::empty(),
        line.len() > 0 ==> lines_from(line, 0) == seq![line],
        lines_from(line.push('\n') + rest, 0) == seq![
            if line.len() > 0 && line.last() == '\r' {
                line.drop_last()
            } else {
                line
            },
        ] + lines_from(rest, 0),
{
    let n = line.len() as int;
    if n > 0 {
        lemma_line_end_at(line, 0, n);
        assert(line.subrange(0, n) =~= line);
    }
    let s = line.push('\n') + rest;
    assert forall|i: int| 0 <= i < n implies s[i] != '\n' by {
        assert(s[i] == line[i]);
    }
    lemma_line_end_at(s, 0, n);
    assert(s.subrange(0, n) =~= line);
    lemma_lines_shift(s, rest, n + 1, 0);
}

/// The first line feed from `at` on.
proof fn lemma_line_end_at(s: Seq<char>, at: int, end: int)
    requires
        0 <= at <= end <= s.len(),
        forall|i: int| at <= i < end ==> #[trigger] s[i] != '\n',
        end == s.len() || s[end] == '\n',
    ensures
        line_end(s, at) == end,
    decreases end - at,
{
    if at < end {
        lemma_line_end_at(s, at + 1, end);
    }
}

/// The lines of the rest of a text are those of the rest on its own.
proof fn lemma_lines_shift(s: Seq<char>, rest: Seq<char>, shift: int, at: int)
    requires
        shift >= 0,
        s.len() == shift + rest.len(),
        forall|i: int| 0 <= i < rest.len() ==> #[trigger] rest[i] == s[i + shift],
        0 <= at <= rest.len(),
    ensures
        lines_from(s, at + shift) == lines_from(rest, at),
    decreases rest.len() - at,
{
    if at < rest.len() {
        lemma_line_end(rest, at);
        let end = line_end(rest, at);
        lemma_line_end_shift(s, rest, shift, at);
        assert(s.subrange(at + shift, end + shift) =~= rest.subrange(at, end));
        if end < rest.len() {
            lemma_lines_shift(s, rest, shift, end + 1);
        } else {
            assert(s.subrange(at + shift, s.len() as int) =~= rest.subrange(at, rest.len() as int));
        }
    }
}

proof fn lemma_line_end_shift(s: Seq<char>, rest: Seq<char>, shift: int, at: int)
    requires
        shift >= 0,
        s.len() == shift + rest.len(),
        forall|i: int| 0 <= i < rest.len() ==> #[trigger] rest[i] == s[i + shift],
        0 <= at <= rest.len(),
    ensures
        line_end(s, at + shift) == line_end(rest, at) + shift,
    decreases rest.len() - at,
{
    if at < rest.len() {
        assert(rest[at] == s[at + shift]);
        if rest[at] != '\n' {
            lemma_line_end_shift(s, rest, shift, at + 1);
        }
    }
}

/// A number is written in digits, without a leading zero.
pub proof fn law_decimal_text(n: nat)
    ensures
        decimal(n).len() > 0,
        forall|i: int|
            0 <= i < decimal(n).len() ==> '0' as u32 <= (#[trigger] decimal(n)[i]) as u32
                <= '9' as u32,
        n > 0 ==> decimal(n)[0] != '0',
        n == 0 ==> decimal(n) == seq!['0'],
        value_of(decimal(n)) == n,
    decreases n,
{
    lemma_decimal(n);
    if n >= 10 {
        law_decimal_text(n / 10);
        assert(decimal(n)[0] == decimal(n / 10)[0]);
    }
    assert forall|i: int| 0 <= i < decimal(n).len() implies '0' as u32 <= (#[trigger] decimal(
        n,
    )[i]) as u32 <= '9' as u32 by {
        assert(is_digit(decimal(n)[i]));
    }
}

/// What follows a prefix is the rest of the text, and only a text that begins
/// with the prefix has one.
pub proof fn law_after_prefix(s: Seq<char>, p: Seq<char>, rest: Seq<char>)
    ensures
        after_prefix(s, p) == Some(rest) <==> s == p + rest,
{
    if s == p + rest {
        assert(p =~= s.subrange(0, p.len() as int));
        assert(s.skip(p.len() as int) =~= rest);
    }
    if after_prefix(s, p) == Some(rest) {
        assert(s =~= p + rest);
    }
}

/// The same character as often as asked for, and no other.
pub proof fn law_repeated(c: char, n: nat)
    ensures
        repeated(c, n).len() == n,
        forall|i: int| 0 <= i < n ==> #[trigger] repeated(c, n)[i] == c,
{
}

} // verus!
