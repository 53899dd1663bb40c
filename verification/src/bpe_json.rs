//! The JSON form of a tokenizer.
//!
//! A tokenizer is written as an object with one member, `merges`, which is an
//! array with one array of three numbers for each merge. An array that holds
//! nothing but the array of the merges is read as well.
use std::collections::HashMap;
use vstd::prelude::*;
use vstd::string::StringExecFns;

use crate::bpe::BpeTokenizer;
use crate::members::{lemma_one_colon, repeats, repeats_member};
use crate::merging::Merge;
use crate::text::{decimal, digit, joined_by};

verus! {

/// An error of `serde_json`.
#[verifier::external_type_specification]
#[verifier::external_body]
pub struct ExJsonError(serde_json::Error);

/// Why a tokenizer could not be written or read.
#[derive(Clone, Copy, Debug, PartialEq, Eq, Structural)]
pub enum JsonError {
    /// The tokenizer could not be written.
    Serializing,
    /// The text is not the JSON form of a tokenizer.
    Parsing,
}

impl JsonError {
    /// The error in words.
    pub fn message(&self) -> (s: String)
        ensures
            s@ == match *self {
                JsonError::Serializing => "serializing BPE tokenizer"@,
                JsonError::Parsing => "parsing BPE tokenizer"@,
            },
    {
        match self {
            JsonError::Serializing => "serializing BPE tokenizer".to_owned(),
            JsonError::Parsing => "parsing BPE tokenizer".to_owned(),
        }
    }
}

/// One merge as a JSON array.
pub open spec fn merge_json(m: Merge) -> Seq<char> {
    "["@ + decimal(m.0 as nat) + ","@ + decimal(m.1 as nat) + ","@ + decimal(m.2 as nat) + "]"@
}

/// A list of merges as a JSON array.
pub open spec fn merges_json(merges: Seq<Merge>) -> Seq<char> {
    "["@ + joined_by(merges.map_values(|m: Merge| merge_json(m)), ","@) + "]"@
}

/// An object with one member, the list of merges.
pub open spec fn tokenizer_json(merges: Seq<Merge>) -> Seq<char> {
    "{\"merges\":"@ + merges_json(merges) + "}"@
}

/// `serde_json::to_string` on a list of triples of unsigned numbers: it always
/// succeeds, and writes arrays of decimal numbers without any white space.
#[verifier::external_body]
fn triples_to_string(merges: &Vec<Merge>) -> (r: Result<String, serde_json::Error>)
    ensures
        r is Ok,
        r->Ok_0@ == merges_json(merges@),
{
    serde_json::to_string(merges)
}

/// The text of the member `field` of the object that `text` denotes, if it
/// denotes one that has it.
pub uninterp spec fn member_text(text: Seq<char>, field: Seq<char>) -> Option<Seq<char>>;

/// `serde_json::from_str` for a map from names to raw values, and the member
/// `field` of what was read. It depends on the two texts alone; the member
/// `merges` of the JSON form of a tokenizer is the JSON form of its merges.
#[verifier::external_body]
fn member_from_str(text: &str, field: &str) -> (r: Result<Option<String>, serde_json::Error>)
    ensures
        r is Err ==> member_text(text@, field@) is None,
        r is Ok && r->Ok_0 is None ==> member_text(text@, field@) is None,
        r is Ok && r->Ok_0 is Some ==> member_text(text@, field@) == Some(r->Ok_0->Some_0@),
        forall|m: Seq<Merge>|
            field@ == "merges"@ && text@ == #[trigger] tokenizer_json(m) ==> r is Ok && r->Ok_0 is Some
                && r->Ok_0->Some_0@ == merges_json(m),
{
    let mut members: HashMap<String, Box<serde_json::value::RawValue>> =
        serde_json::from_str(text)?;
    Ok(members.remove(field).map(|value| value.get().to_owned()))
}

/// The list of number triples that `serde_json` reads from a text, if it can.
pub uninterp spec fn triples_in(text: Seq<char>) -> Option<Seq<Merge>>;

/// `serde_json::from_str` for a list of triples. What is read depends on the
/// text alone; the JSON form of a list of merges is read as that list.
#[verifier::external_body]
fn triples_from_str(text: &str) -> (r: Result<Vec<Merge>, serde_json::Error>)
    ensures
        r is Ok ==> triples_in(text@) == Some(r->Ok_0@),
        r is Err ==> triples_in(text@) is None,
        forall|m: Seq<Merge>| text@ == #[trigger] merges_json(m) ==> r is Ok && r->Ok_0@ == m,
{
    serde_json::from_str(text)
}

/// The list of number triples that `serde_json` reads from the array of one
/// element that `text` denotes, if it can.
pub uninterp spec fn element_triples(text: Seq<char>) -> Option<Seq<Merge>>;

/// `serde_json::from_str` for a tuple of one list of triples. What is read
/// depends on the text alone; an array that holds the JSON form of a list of
/// merges is read as that list.
#[verifier::external_body]
fn element_from_str(text: &str) -> (r: Result<(Vec<Merge>,), serde_json::Error>)
    ensures
        r is Ok ==> element_triples(text@) == Some(r->Ok_0.0@),
        r is Err ==> element_triples(text@) is None,
        forall|m: Seq<Merge>|
            text@ == "["@ + #[trigger] merges_json(m) + "]"@ ==> r is Ok && r->Ok_0.0@ == m,
{
    serde_json::from_str(text)
}

/// The merges that a text stores: those in the only member `merges` of an
/// object, or those in the one element of an array.
pub open spec fn stored_merges(text: Seq<char>) -> Option<Seq<Merge>> {
    match member_text(text, "merges"@) {
        Some(member) => if repeats(text, "merges"@) {
            None
        } else {
            triples_in(member)
        },
        None => element_triples(text),
    }
}

/// A number has no colon in it.
proof fn lemma_decimal_no_colon(n: nat)
    ensures
        !decimal(n).contains(':'),
    decreases n,
{
    if n < 10 {
        assert(decimal(n)[0] == digit(n as int));
    } else {
        lemma_decimal_no_colon(n / 10);
    }
}

/// Nor has a list of merges.
proof fn lemma_merges_no_colon(list: Seq<Seq<char>>)
    requires
        forall|i: int| 0 <= i < list.len() ==> !(#[trigger] list[i]).contains(':'),
    ensures
        !joined_by(list, ","@).contains(':'),
    decreases list.len(),
{
    reveal_strlit(",");
    if list.len() > 1 {
        assert forall|i: int| 0 <= i < list.len() - 1 implies !(
        #[trigger] list.drop_last()[i]).contains(':') by {
            assert(list.drop_last()[i] == list[i]);
        }
        lemma_merges_no_colon(list.drop_last());
    }
}

/// The JSON form of a tokenizer has its member once.
proof fn lemma_no_repetition(merges: Seq<Merge>)
    ensures
        !repeats(tokenizer_json(merges), "merges"@),
{
    reveal_strlit("{\"merges\":");
    reveal_strlit("[");
    reveal_strlit("]");
    reveal_strlit(",");
    reveal_strlit("}");
    let list = merges.map_values(|m: Merge| merge_json(m));
    assert forall|i: int| 0 <= i < list.len() implies !(#[trigger] list[i]).contains(':') by {
        let m = merges[i];
        lemma_decimal_no_colon(m.0 as nat);
        lemma_decimal_no_colon(m.1 as nat);
        lemma_decimal_no_colon(m.2 as nat);
    }
    lemma_merges_no_colon(list);
    let head = "{\"merges\":"@.drop_last();
    let tail = merges_json(merges) + "}"@;
    assert(tokenizer_json(merges) =~= head.push(':') + tail);
    lemma_one_colon(head, tail, "merges"@);
}

impl BpeTokenizer {
    /// The tokenizer as JSON.
    pub fn to_json(&self) -> (r: Result<String, JsonError>)
        ensures
            r matches Ok(s) && s@ == tokenizer_json(self@),
    {
        match triples_to_string(self.merges()) {
            Ok(array) => {
                let mut out = "{\"merges\":".to_owned();
                out.append(array.as_str());
                out.append("}");
                Ok(out)
            },
            Err(_) => Err(JsonError::Serializing),
        }
    }

    /// Read a tokenizer from JSON. The JSON form of a tokenizer gives that
    /// tokenizer back. Members other than `merges` are skipped; that one must
    /// not be repeated.
    pub fn from_json(s: &str) -> (r: Result<Self, JsonError>)
        ensures
            match r {
                Ok(tok) => stored_merges(s@) == Some(tok@),
                Err(e) => e == JsonError::Parsing && stored_merges(s@) is None,
            },
            forall|m: Seq<Merge>|
                s@ == #[trigger] tokenizer_json(m) ==> (r matches Ok(tok) && tok@ == m),
    {
        proof {
            assert forall|m: Seq<Merge>| s@ == #[trigger] tokenizer_json(m) implies !repeats(
                s@,
                "merges"@,
            ) by {
                lemma_no_repetition(m);
            }
        }
        match member_from_str(s, "merges") {
            Ok(Some(member)) => {
                if repeats_member(s, "merges") {
                    return Err(JsonError::Parsing);
                }
                match triples_from_str(member.as_str()) {
                    Ok(merges) => Ok(BpeTokenizer::from_merges(merges)),
                    Err(_) => Err(JsonError::Parsing),
                }
            },
            _ => match element_from_str(s) {
                Ok(one) => Ok(BpeTokenizer::from_merges(one.0)),
                Err(_) => Err(JsonError::Parsing),
            },
        }
    }
}

/// A tokenizer is read from the member `merges` of an object that has it once,
/// and otherwise from an array.
pub proof fn law_where_merges_are_stored(text: Seq<char>)
    ensures
        member_text(text, "merges"@) matches Some(member) ==> {
            &&& repeats(text, "merges"@) ==> stored_merges(text) is None
            &&& !repeats(text, "merges"@) ==> stored_merges(text) == triples_in(member)
        },
        member_text(text, "merges"@) is None ==> stored_merges(text) == element_triples(text),
{
}

} // verus!
