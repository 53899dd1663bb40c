//! Sorting names by their bytes.
use vstd::prelude::*;
use vstd::utf8::encode_utf8;

use crate::text::views;

verus! {

/// `a` comes before `b`, or equals it, in the lexicographic order of bytes.
pub open spec fn bytes_le(a: Seq<u8>, b: Seq<u8>) -> bool
    decreases a.len(),
{
    if a.len() == 0 {
        true
    } else if b.len() == 0 {
        false
    } else if a[0] != b[0] {
        a[0] < b[0]
    } else {
        bytes_le(a.skip(1), b.skip(1))
    }
}

/// The order of strings: that of their UTF-8 bytes.
pub open spec fn text_le(a: Seq<char>, b: Seq<char>) -> bool {
    bytes_le(encode_utf8(a), encode_utf8(b))
}

/// No string of the list comes before an earlier one.
pub open spec fn sorted(list: Seq<Seq<char>>) -> bool {
    forall|i: int, j: int| 0 <= i < j < list.len() ==> text_le(#[trigger] list[i], #[trigger] list[j])
}

proof fn lemma_bytes_total(a: Seq<u8>, b: Seq<u8>)
    ensures
        bytes_le(a, b) || bytes_le(b, a),
    decreases a.len(),
{
    if a.len() > 0 && b.len() > 0 && a[0] == b[0] {
        lemma_bytes_total(a.skip(1), b.skip(1));
    }
}

proof fn lemma_bytes_transitive(a: Seq<u8>, b: Seq<u8>, c: Seq<u8>)
    requires
        bytes_le(a, b),
        bytes_le(b, c),
    ensures
        bytes_le(a, c),
    decreases a.len(),
{
    if a.len() > 0 && b.len() > 0 && c.len() > 0 && a[0] == b[0] && b[0] == c[0] {
        lemma_bytes_transitive(a.skip(1), b.skip(1), c.skip(1));
    }
}

/// Whether `a` comes before `b`, or equals it.
fn comes_first(a: &str, b: &str) -> (r: bool)
    ensures
        r == text_le(a@, b@),
{
    let x = a.as_bytes();
    let y = b.as_bytes();
    let mut i: usize = 0;
    assert(x@.skip(0) =~= x@);
    assert(y@.skip(0) =~= y@);
    while i < x.len()
        invariant
            x@ == encode_utf8(a@),
            y@ == encode_utf8(b@),
            i <= x@.len(),
            i <= y@.len(),
            text_le(a@, b@) == bytes_le(x@.skip(i as int), y@.skip(i as int)),
        decreases x@.len() - i,
    {
        if i >= y.len() {
            return false;
        }
        if x[i] != y[i] {
            return x[i] < y[i];
        }
        assert(x@.skip(i as int).skip(1) =~= x@.skip(i + 1));
        assert(y@.skip(i as int).skip(1) =~= y@.skip(i + 1));
        i = i + 1;
    }
    true
}

/// Puts `name` where it belongs in a sorted list.
fn insert_sorted(list: &mut Vec<String>, name: String)
    requires
        sorted(views(old(list)@)),
    ensures
        sorted(views(final(list)@)),
        views(final(list)@).to_multiset() == views(old(list)@).to_multiset().insert(name@),
{
    let ghost before = views(list@);
    let mut at: usize = 0;
    while at < list.len() && comes_first(list[at].as_str(), name.as_str())
        invariant
            at <= list@.len(),
            views(list@) == before,
            forall|j: int| 0 <= j < at ==> text_le(#[trigger] before[j], name@),
        decreases list@.len() - at,
    {
        at = at + 1;
    }
    let ghost text = name@;
    list.insert(at, name);
    proof {
        let after = views(list@);
        assert(after =~= before.insert(at as int, text));
        vstd::seq_lib::to_multiset_insert(before, at as int, text);
        assert forall|i: int, j: int| 0 <= i < j < after.len() implies text_le(
            #[trigger] after[i],
            #[trigger] after[j],
        ) by {
            if at < before.len() {
                lemma_bytes_total(encode_utf8(text), encode_utf8(before[at as int]));
            }
            if j < at {
                assert(after[i] == before[i] && after[j] == before[j]);
            } else if j == at {
                assert(after[i] == before[i]);
            } else if i < at {
                assert(after[i] == before[i] && after[j] == before[j - 1]);
            } else if i == at {
                assert(after[j] == before[j - 1]);
                if j - 1 > at {
                    assert(text_le(before[at as int], before[j - 1]));
                    lemma_bytes_transitive(
                        encode_utf8(text),
                        encode_utf8(before[at as int]),
                        encode_utf8(before[j - 1]),
                    );
                }
            } else {
                assert(after[i] == before[i - 1] && after[j] == before[j - 1]);
            }
        }
    }
}

/// The names in order; each as often as before.
pub fn sort_names(names: Vec<String>) -> (r: Vec<String>)
    ensures
        sorted(views(r@)),
        views(r@).to_multiset() == views(names@).to_multiset(),
{
    let mut out: Vec<String> = Vec::new();
    proof {
        assert(views(names@.take(0)) =~= views(out@));
    }
    for i in 0..names.len()
        invariant
            sorted(views(out@)),
            views(out@).to_multiset() == views(names@.take(i as int)).to_multiset(),
    {
        proof {
            let shorter = views(names@.take(i as int));
            assert(views(names@.take(i + 1)) =~= shorter.push(names@[i as int]@));
            vstd::seq_lib::to_multiset_build(shorter, names@[i as int]@);
        }
        insert_sorted(&mut out, names[i].clone());
    }
    assert(names@.take(names@.len() as int) =~= names@);
    out
}

/// Names are ordered by the first byte in which they differ; one that another
/// begins with comes before it.
pub proof fn law_order_is_lexicographic(a: Seq<u8>, b: Seq<u8>, k: int)
    requires
        0 <= k <= a.len(),
        k <= b.len(),
        forall|i: int| 0 <= i < k ==> #[trigger] a[i] == b[i],
    ensures
        k < a.len() && k < b.len() && a[k] != b[k] ==> (bytes_le(a, b) <==> a[k] < b[k]),
        k == a.len() ==> bytes_le(a, b),
        k == b.len() && k < a.len() ==> !bytes_le(a, b),
    decreases k,
{
    if k > 0 {
        let (x, y) = (a.skip(1), b.skip(1));
        assert(a[0] == b[0]);
        assert forall|i: int| 0 <= i < k - 1 implies #[trigger] x[i] == y[i] by {
            assert(a[i + 1] == b[i + 1]);
        }
        law_order_is_lexicographic(x, y, k - 1);
    }
}

/// In a sorted list no name comes, by its bytes, before one that stands earlier.
pub proof fn law_sorted_names(list: Seq<Seq<char>>, i: int, j: int)
    requires
        sorted(list),
        0 <= i < j < list.len(),
    ensures
        bytes_le(encode_utf8(list[i]), encode_utf8(list[j])),
{
}

} // verus!
