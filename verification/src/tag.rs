//! The sync tag: the trailer of a local commit's message that records which
//! remote commit it was replayed from.

use vstd::prelude::*;
use vstd::string::StringExecFns;
use crate::commit::{Commit, CommitView};
use crate::error::Error;
use crate::oid::{hex_of, lemma_hex_round_trip, CommitId, HEX_LEN, OID_LEN};
use crate::text::{
    chars_of, find_first, first_occurrence, lemma_first_occurrence_is, matches_at, occurs_at,
    string_of,
};

verus! {

/// The literal that opens a tag.
pub open spec fn tag_prefix() -> Seq<char> {
    "rip-it: "@
}

/// The literal that follows the identity of an uprooted commit.
pub open spec fn uprooted_mark() -> Seq<char> {
    " uprooted"@
}

/// The tag for the remote commit `id`.
pub open spec fn tag_text(id: Seq<u8>, uprooted: bool) -> Seq<char> {
    tag_prefix() + hex_of(id) + if uprooted {
        uprooted_mark()
    } else {
        Seq::empty()
    }
}

/// The tag that `msg` carries: the forty characters after the first
/// occurrence of the opening literal, and whether the mark of an uprooted
/// commit follows them. `None` where the literal does not occur or fewer
/// than forty characters follow it.
pub open spec fn parse_tag(msg: Seq<char>) -> Option<(Seq<char>, bool)> {
    match first_occurrence(msg, tag_prefix()) {
        None => None,
        Some(at) => {
            let start = at + tag_prefix().len();
            if start + HEX_LEN <= msg.len() {
                Some(
                    (
                        msg.subrange(start, start + HEX_LEN),
                        occurs_at(msg, uprooted_mark(), start + HEX_LEN),
                    ),
                )
            } else {
                None
            }
        },
    }
}

/// The tag of a commit: that of its message, where it has one.
pub open spec fn commit_tag(commit: CommitView) -> Option<(Seq<char>, bool)> {
    match commit.message {
        Some(msg) => parse_tag(msg),
        None => None,
    }
}

/// The lengths of the two literals.
pub proof fn lemma_tag_literals()
    ensures
        tag_prefix().len() == 8,
        uprooted_mark().len() == 9,
{
    reveal_strlit("rip-it: ");
    reveal_strlit(" uprooted");
}

/// Parsing a freshly formatted tag gives back the identity it was formatted
/// from, in text form, and the flag.
pub proof fn lemma_tag_round_trip(id: Seq<u8>, uprooted: bool)
    requires
        id.len() == OID_LEN,
    ensures
        parse_tag(tag_text(id, uprooted)) == Some((hex_of(id), uprooted)),
{
    lemma_tag_literals();
    let text = tag_text(id, uprooted);
    assert(text.subrange(0, 8) =~= tag_prefix());
    lemma_first_occurrence_is(text, tag_prefix(), 0);
    assert(text.subrange(8, 48) =~= hex_of(id));
    if uprooted {
        assert(text.subrange(48, 57) =~= uprooted_mark());
    }
}

/// The tag for the remote commit `commit_id`: the opening literal, the
/// identity in lowercase hexadecimal digits, and the mark if `uprooted`.
pub fn format_ripit_tag(commit_id: &CommitId, uprooted: bool) -> (tag: String)
    ensures
        tag@ == tag_text(commit_id@, uprooted),
{
    let mut tag = "rip-it: ".to_owned();
    let hex = commit_id.to_hex();
    tag.append(hex.as_str());
    if uprooted {
        tag.append(" uprooted");
    }
    assert(tag@ =~= tag_text(commit_id@, uprooted));
    tag
}

/// Reads the tag out of a message.
pub fn parse_ripit_tag(msg: &str) -> (r: Option<(String, bool)>)
    ensures
        match r {
            Some((id, uprooted)) => parse_tag(msg@) == Some((id@, uprooted)) && id@.len()
                == HEX_LEN,
            None => parse_tag(msg@) is None,
        },
{
    proof {
        lemma_tag_literals();
    }
    let chars = chars_of(msg);
    let prefix = chars_of("rip-it: ");
    let mark = chars_of(" uprooted");
    match find_first(&chars, &prefix) {
        None => None,
        Some(at) => {
            if chars.len() - at - 8 < 40 {
                return None;
            }
            let start: usize = at + 8;
            let id = string_of(&chars, start, start + 40);
            let uprooted = matches_at(&chars, &mark, start + 40);
            Some((id, uprooted))
        },
    }
}

/// Reads the tag of a commit. A commit whose message is not text has none.
pub fn retrieve_ripit_tag(commit: &Commit) -> (r: Option<(String, bool)>)
    ensures
        match r {
            Some((id, uprooted)) => commit_tag(commit@) == Some((id@, uprooted)) && id@.len()
                == HEX_LEN,
            None => commit_tag(commit@) is None,
        },
{
    match &commit.message {
        Some(msg) => parse_ripit_tag(msg.as_str()),
        None => None,
    }
}

/// Reads the tag of a commit that must have one.
pub fn retrieve_ripit_tag_or_throw(commit: &Commit) -> (r: Result<(String, bool), Error>)
    ensures
        match r {
            Ok((id, uprooted)) => commit_tag(commit@) == Some((id@, uprooted)) && id@.len()
                == HEX_LEN,
            Err(e) => commit_tag(commit@) is None && e == Error::TagMissing,
        },
{
    match retrieve_ripit_tag(commit) {
        Some(v) => Ok(v),
        None => Err(Error::TagMissing),
    }
}

/// A formatted tag reads back as the identity it was made from.
pub proof fn lemma_tag_names_commit(id: Seq<u8>, uprooted: bool)
    requires
        id.len() == OID_LEN,
    ensures
        parse_tag(tag_text(id, uprooted)) matches Some((text, flag)) && flag == uprooted
            && crate::oid::is_hex_id(text) && crate::oid::bytes_of_hex(text) == id,
{
    lemma_tag_round_trip(id, uprooted);
    lemma_hex_round_trip(id);
}

} // verus!
