//! Commit messages: taking one apart into lines, dropping the lines that the
//! configured patterns exclude, and appending the sync tag.

use vstd::prelude::*;
use vstd::string::StringExecFns;
use crate::app::Options;
use crate::text::{chars_of, string_of};

verus! {

/// The line feed that separates lines.
pub open spec fn line_feed() -> char {
    '\n'
}

/// The end of the line that starts at `from`: the position of the first line
/// feed at or after `from`, or the end of the text.
pub open spec fn line_end(text: Seq<char>, from: int) -> int
    decreases text.len() - from,
{
    if from < 0 || from >= text.len() {
        text.len() as int
    } else if text[from] == line_feed() {
        from
    } else {
        line_end(text, from + 1)
    }
}

/// A line without the carriage return that stood before its line feed.
pub open spec fn strip_return(line: Seq<char>) -> Seq<char> {
    if line.len() > 0 && line.last() == '\r' {
        line.drop_last()
    } else {
        line
    }
}

/// The lines of `text` from position `from` on. A line ends with a line feed,
/// or with a carriage return and a line feed; neither belongs to the line.
/// The last line needs no line ending, and what follows the last line ending
/// is a line only where it is not empty.
pub open spec fn lines_from(text: Seq<char>, from: int) -> Seq<Seq<char>>
    decreases text.len() - from,
    via lines_from_decreases
{
    if from < 0 || from >= text.len() {
        Seq::empty()
    } else {
        let end = line_end(text, from);
        if end < text.len() {
            seq![strip_return(text.subrange(from, end))] + lines_from(text, end + 1)
        } else {
            seq![text.subrange(from, end)]
        }
    }
}

#[via_fn]
proof fn lines_from_decreases(text: Seq<char>, from: int) {
    if 0 <= from < text.len() {
        lemma_line_end_bounds(text, from);
    }
}

/// The lines of `text`.
pub open spec fn lines_of(text: Seq<char>) -> Seq<Seq<char>> {
    lines_from(text, 0)
}

/// The lines joined by single line feeds, with none after the last.
pub open spec fn join_lines(lines: Seq<Seq<char>>) -> Seq<char>
    decreases lines.len(),
{
    if lines.len() == 0 {
        Seq::empty()
    } else if lines.len() == 1 {
        lines[0]
    } else {
        join_lines(lines.drop_last()).push(line_feed()) + lines.last()
    }
}

/// The lines that are not marked as dropped, in their order.
pub open spec fn kept_lines(lines: Seq<Seq<char>>, dropped: Seq<bool>) -> Seq<Seq<char>>
    recommends
        lines.len() == dropped.len(),
    decreases lines.len(),
{
    if lines.len() == 0 || dropped.len() == 0 {
        Seq::empty()
    } else if dropped.last() {
        kept_lines(lines.drop_last(), dropped.drop_last())
    } else {
        kept_lines(lines.drop_last(), dropped.drop_last()).push(lines.last())
    }
}

/// Whether a message ends with a line feed.
pub open spec fn ends_with_feed(msg: Seq<char>) -> bool {
    msg.len() > 0 && msg.last() == line_feed()
}

/// The message with `tag` as its trailer: one empty line separates the two,
/// and a line feed ends the tag.
pub open spec fn with_trailer(msg: Seq<char>, tag: Seq<char>) -> Seq<char> {
    if ends_with_feed(msg) {
        (msg.push(line_feed()) + tag).push(line_feed())
    } else {
        (msg.push(line_feed()).push(line_feed()) + tag).push(line_feed())
    }
}

/// The views of a list of strings.
pub open spec fn texts(strings: Seq<String>) -> Seq<Seq<char>> {
    strings.map_values(|s: String| s@)
}

proof fn lemma_line_end_bounds(text: Seq<char>, from: int)
    requires
        0 <= from <= text.len(),
    ensures
        from <= line_end(text, from) <= text.len(),
        line_end(text, from) < text.len() ==> text[line_end(text, from)] == line_feed(),
        forall|j: int| from <= j < line_end(text, from) ==> text[j] != line_feed(),
    decreases text.len() - from,
{
    if from < text.len() && text[from] != line_feed() {
        lemma_line_end_bounds(text, from + 1);
    }
}

/// The lines of a message.
pub fn split_lines(msg: &str) -> (lines: Vec<String>)
    ensures
        texts(lines@) == lines_of(msg@),
{
    let chars = chars_of(msg);
    let mut lines: Vec<String> = Vec::new();
    let mut from: usize = 0;
    while from < chars.len()
        invariant
            chars@ == msg@,
            from <= chars.len(),
            lines_of(msg@) == texts(lines@) + lines_from(msg@, from as int),
        decreases chars.len() - from,
    {
        let mut end: usize = from;
        while end < chars.len() && chars[end] != '\n'
            invariant
                chars@ == msg@,
                from <= end <= chars.len(),
                line_end(msg@, from as int) == line_end(msg@, end as int),
            decreases chars.len() - end,
        {
            end += 1;
        }
        let ghost before = lines@;
        if end < chars.len() {
            let stop: usize = if end > from && chars[end - 1] == '\r' {
                end - 1
            } else {
                end
            };
            let line = string_of(&chars, from, stop);
            proof {
                assert(line@ =~= strip_return(msg@.subrange(from as int, end as int)));
            }
            lines.push(line);
            proof {
                assert(texts(lines@) =~= texts(before).push(line@));
                assert(texts(lines@) + lines_from(msg@, end + 1) =~= texts(before) + lines_from(
                    msg@,
                    from as int,
                ));
            }
            from = end + 1;
        } else {
            let line = string_of(&chars, from, end);
            lines.push(line);
            proof {
                assert(texts(lines@) =~= texts(before).push(line@));
                assert(texts(lines@) + lines_from(msg@, end as int) =~= texts(before) + lines_from(
                    msg@,
                    from as int,
                ));
            }
            from = end;
        }
    }
    assert(texts(lines@) + lines_from(msg@, from as int) =~= texts(lines@));
    lines
}

/// Joins by line feeds the lines that are not marked as dropped.
pub fn join_kept(lines: &Vec<String>, dropped: &Vec<bool>) -> (msg: String)
    requires
        lines.len() == dropped.len(),
    ensures
        msg@ == join_lines(kept_lines(texts(lines@), dropped@)),
{
    let mut msg = String::new();
    let mut first = true;
    let mut i: usize = 0;
    while i < lines.len()
        invariant
            i <= lines.len(),
            lines.len() == dropped.len(),
            first == (kept_lines(texts(lines@).take(i as int), dropped@.take(i as int)).len() == 0),
            msg@ == join_lines(kept_lines(texts(lines@).take(i as int), dropped@.take(i as int))),
        decreases lines.len() - i,
    {
        let ghost kept = kept_lines(texts(lines@).take(i as int), dropped@.take(i as int));
        proof {
            assert(texts(lines@).take(i + 1).drop_last() =~= texts(lines@).take(i as int));
            assert(dropped@.take(i + 1).drop_last() =~= dropped@.take(i as int));
            assert(texts(lines@).take(i + 1).last() == lines@[i as int]@);
            assert(dropped@.take(i + 1).last() == dropped@[i as int]);
        }
        if !dropped[i] {
            if !first {
                msg.push('\n');
            }
            msg.append(lines[i].as_str());
            first = false;
            proof {
                let next = kept.push(lines@[i as int]@);
                assert(next.drop_last() =~= kept);
                assert(msg@ =~= join_lines(next));
            }
        }
        i += 1;
    }
    assert(texts(lines@).take(lines.len() as int) =~= texts(lines@));
    assert(dropped@.take(lines.len() as int) =~= dropped@);
    msg
}

/// Appends `tag` to a message as its trailer.
pub fn append_trailer(msg: String, tag: &str) -> (out: String)
    ensures
        out@ == with_trailer(msg@, tag@),
{
    let chars = chars_of(msg.as_str());
    let mut out = msg;
    if !(chars.len() > 0 && chars[chars.len() - 1] == '\n') {
        out.push('\n');
    }
    out.push('\n');
    out.append(tag);
    out.push('\n');
    out
}

/// `regex::RegexSet`, a compiled set of patterns, as a value that is only
/// carried around.
#[verifier::external_type_specification]
#[verifier::external_body]
pub struct ExRegexSet(regex::RegexSet);

/// The patterns that a set was compiled from, in the order they were given.
pub uninterp spec fn set_patterns(set: regex::RegexSet) -> Seq<Seq<char>>;

/// The texts that a set matches: those in which at least one of its patterns
/// matches somewhere.
pub uninterp spec fn set_matched(set: regex::RegexSet) -> Set<Seq<char>>;

/// Whether the patterns can be compiled into a set.
pub uninterp spec fn patterns_compile(patterns: Seq<Seq<char>>) -> bool;

/// What the filters of a run amount to.
pub struct Filters {
    /// The patterns, in the order they were given.
    pub patterns: Seq<Seq<char>>,
    /// The lines that the filters exclude.
    pub matched: Set<Seq<char>>,
}

/// What a set amounts to as the filters of a run.
pub open spec fn filters_of(set: regex::RegexSet) -> Filters {
    Filters { patterns: set_patterns(set), matched: set_matched(set) }
}

/// `regex::RegexSet::new`: compiles the patterns into one set, or fails where
/// one of them is no regular expression or the set grows over the crate's
/// size limit. Whether it succeeds depends on the patterns alone, and the set
/// remembers the patterns it was given. An empty list always compiles. A
/// failure comes back as the text that the crate's error displays.
#[verifier::external_body]
pub(crate) fn compile_patterns(patterns: &Vec<String>) -> (r: Result<regex::RegexSet, String>)
    ensures
        r is Ok <==> patterns_compile(texts(patterns@)),
        patterns@.len() == 0 ==> r is Ok,
        r matches Ok(set) ==> set_patterns(set) == texts(patterns@),
{
    match regex::RegexSet::new(patterns) {
        Ok(set) => Ok(set),
        Err(error) => Err(error.to_string()),
    }
}

/// `regex::RegexSet::len`: the number of patterns in the set.
pub assume_specification[ regex::RegexSet::len ](set: &regex::RegexSet) -> (n: usize)
    ensures
        n == set_patterns(*set).len(),
;

/// `regex::RegexSet::is_match`: whether one of the set's patterns matches
/// somewhere in the haystack, which depends on the set and the haystack
/// alone.
pub assume_specification[ regex::RegexSet::is_match ](
    set: &regex::RegexSet,
    haystack: &str,
) -> (r: bool)
    ensures
        r == set_matched(*set).contains(haystack@),
;

/// For each line, whether the filters exclude it.
pub open spec fn excluded(lines: Seq<Seq<char>>, filters: Filters) -> Seq<bool> {
    lines.map_values(|line: Seq<char>| filters.matched.contains(line))
}

/// The message without the lines that the filters exclude. Without patterns
/// the message stays as it is; with patterns the remaining lines are joined
/// by single line feeds.
pub open spec fn filtered_message(msg: Seq<char>, filters: Filters) -> Seq<char> {
    if filters.patterns.len() == 0 {
        msg
    } else {
        join_lines(kept_lines(lines_of(msg), excluded(lines_of(msg), filters)))
    }
}

/// The message of a replayed commit: the filtered remote message with the
/// tag as its trailer.
pub open spec fn composed_message(
    orig: Seq<char>,
    tag: Seq<char>,
    filters: Filters,
) -> Seq<char> {
    with_trailer(filtered_message(orig, filters), tag)
}

/// For each line, whether the set excludes it.
pub fn excluded_lines(lines: &Vec<String>, filters: &regex::RegexSet) -> (dropped: Vec<bool>)
    ensures
        dropped@ == excluded(texts(lines@), filters_of(*filters)),
{
    let mut dropped: Vec<bool> = Vec::new();
    let mut i: usize = 0;
    while i < lines.len()
        invariant
            i <= lines.len(),
            dropped@ == excluded(texts(lines@), filters_of(*filters)).take(i as int),
        decreases lines.len() - i,
    {
        dropped.push(filters.is_match(lines[i].as_str()));
        i += 1;
        assert(dropped@ =~= excluded(texts(lines@), filters_of(*filters)).take(i as int));
    }
    assert(dropped@ =~= excluded(texts(lines@), filters_of(*filters)));
    dropped
}

/// Drops from a message the lines that the filters of `opts` exclude.
pub fn filter_commit_msg(msg: &str, opts: &Options) -> (out: String)
    ensures
        out@ == filtered_message(msg@, filters_of(opts.commit_msg_filters)),
{
    if opts.commit_msg_filters.len() == 0 {
        return msg.to_owned();
    }
    let lines = split_lines(msg);
    let dropped = excluded_lines(&lines, &opts.commit_msg_filters);
    join_kept(&lines, &dropped)
}

/// The message of a replayed commit: `orig_msg` without the lines that the
/// filters of `opts` exclude, then `tag` as its trailer.
pub fn update_commit_msg(orig_msg: &str, tag: &str, opts: &Options) -> (out: String)
    ensures
        out@ == composed_message(orig_msg@, tag@, filters_of(opts.commit_msg_filters)),
{
    let filtered = filter_commit_msg(orig_msg, opts);
    append_trailer(filtered, tag)
}

/// The lines that are marked as dropped, in their order.
pub open spec fn dropped_lines(lines: Seq<Seq<char>>, dropped: Seq<bool>) -> Seq<Seq<char>> {
    kept_lines(lines, dropped.map_values(|d: bool| !d))
}

/// The lines of a message that the filters exclude, in their order.
pub open spec fn filtered_out_lines(msg: Seq<char>, filters: Filters) -> Seq<Seq<char>> {
    if filters.patterns.len() == 0 {
        Seq::empty()
    } else {
        dropped_lines(lines_of(msg), excluded(lines_of(msg), filters))
    }
}

/// The lines that [`filter_commit_msg`] leaves out of a message.
pub fn filtered_out(msg: &str, opts: &Options) -> (out: Vec<String>)
    ensures
        texts(out@) == filtered_out_lines(msg@, filters_of(opts.commit_msg_filters)),
{
    let mut out: Vec<String> = Vec::new();
    if opts.commit_msg_filters.len() == 0 {
        assert(texts(out@) =~= Seq::<Seq<char>>::empty());
        return out;
    }
    let lines = split_lines(msg);
    let dropped = excluded_lines(&lines, &opts.commit_msg_filters);
    let ghost kept = dropped@.map_values(|d: bool| !d);
    let mut i: usize = 0;
    assert(texts(out@) =~= Seq::<Seq<char>>::empty());
    while i < lines.len()
        invariant
            i <= lines.len(),
            lines.len() == dropped.len(),
            kept == dropped@.map_values(|d: bool| !d),
            texts(out@) == kept_lines(texts(lines@).take(i as int), kept.take(i as int)),
        decreases lines.len() - i,
    {
        proof {
            assert(texts(lines@).take(i + 1).drop_last() =~= texts(lines@).take(i as int));
            assert(kept.take(i + 1).drop_last() =~= kept.take(i as int));
            assert(texts(lines@).take(i + 1).last() == lines@[i as int]@);
            assert(kept.take(i + 1).last() == !dropped@[i as int]);
        }
        if dropped[i] {
            let ghost before = out@;
            out.push(lines[i].clone());
            assert(texts(out@) =~= texts(before).push(lines@[i as int]@));
        }
        i += 1;
    }
    assert(texts(lines@).take(lines.len() as int) =~= texts(lines@));
    assert(kept.take(lines.len() as int) =~= kept);
    out
}

/// Whether a message is made of plain lines: no carriage return stands
/// before a line feed, and no line feed ends the message.
pub open spec fn plain_lines(msg: Seq<char>) -> bool {
    &&& !ends_with_feed(msg)
    &&& forall|i: int| 0 < i < msg.len() && #[trigger] msg[i] == line_feed() ==> msg[i - 1] != '\r'
}

proof fn lemma_join_prepend(first: Seq<char>, rest: Seq<Seq<char>>)
    requires
        rest.len() > 0,
    ensures
        join_lines(seq![first] + rest) == first.push(line_feed()) + join_lines(rest),
    decreases rest.len(),
{
    let all = seq![first] + rest;
    assert(all.last() == rest.last());
    if rest.len() == 1 {
        assert(all.drop_last() =~= seq![first]);
        assert(join_lines(seq![first]) == first);
        assert(join_lines(rest) == rest[0]);
        assert(join_lines(all) =~= first.push(line_feed()) + join_lines(rest));
    } else {
        lemma_join_prepend(first, rest.drop_last());
        assert(all.drop_last() =~= seq![first] + rest.drop_last());
        assert(join_lines(rest) == join_lines(rest.drop_last()).push(line_feed()) + rest.last());
        assert(join_lines(all) == join_lines(all.drop_last()).push(line_feed()) + all.last());
        assert(join_lines(all) =~= first.push(line_feed()) + join_lines(rest));
    }
}

proof fn lemma_join_back_from(msg: Seq<char>, from: int)
    requires
        plain_lines(msg),
        0 <= from <= msg.len(),
    ensures
        join_lines(lines_from(msg, from)) == msg.subrange(from, msg.len() as int),
        from < msg.len() ==> lines_from(msg, from).len() > 0,
    decreases msg.len() - from,
{
    if from < msg.len() {
        lemma_line_end_bounds(msg, from);
        let end = line_end(msg, from);
        let line = msg.subrange(from, end);
        if end < msg.len() {
            assert(end + 1 < msg.len()) by {
                if end + 1 == msg.len() {
                    assert(msg.last() == msg[end]);
                }
            }
            assert(strip_return(line) == line) by {
                if line.len() > 0 && line.last() == '\r' {
                    assert(line.last() == msg[end - 1]);
                }
            }
            lemma_join_back_from(msg, end + 1);
            let rest = lines_from(msg, end + 1);
            lemma_join_prepend(line, rest);
            assert(line.push(line_feed()) + msg.subrange(end + 1, msg.len() as int)
                =~= msg.subrange(from, msg.len() as int));
        } else {
            assert(lines_from(msg, from) =~= seq![line]);
        }
    } else {
        assert(msg.subrange(from, msg.len() as int) =~= Seq::<char>::empty());
    }
}

proof fn lemma_keep_all(lines: Seq<Seq<char>>, dropped: Seq<bool>)
    requires
        lines.len() == dropped.len(),
        forall|i: int| 0 <= i < dropped.len() ==> !dropped[i],
    ensures
        kept_lines(lines, dropped) == lines,
    decreases lines.len(),
{
    if lines.len() > 0 {
        lemma_keep_all(lines.drop_last(), dropped.drop_last());
        assert(!dropped[dropped.len() - 1]);
        assert(lines.drop_last().push(lines.last()) =~= lines);
    } else {
        assert(lines =~= Seq::<Seq<char>>::empty());
    }
}

/// Joining the lines of a message of plain lines gives the message back.
pub proof fn lemma_join_gives_back(msg: Seq<char>)
    requires
        plain_lines(msg),
    ensures
        join_lines(lines_of(msg)) == msg,
{
    lemma_join_back_from(msg, 0);
    assert(msg.subrange(0, msg.len() as int) =~= msg);
}

/// A message of plain lines, none of which the filters exclude, is kept as
/// it is: the message of the replayed commit is the remote message, an
/// empty line, the tag and a line feed.
pub proof fn lemma_message_kept(msg: Seq<char>, tag: Seq<char>, filters: Filters)
    requires
        plain_lines(msg),
        forall|i: int|
            0 <= i < lines_of(msg).len() ==> !filters.matched.contains(#[trigger] lines_of(msg)[i]),
    ensures
        filtered_message(msg, filters) == msg,
        composed_message(msg, tag, filters) == (msg.push(line_feed()).push(line_feed()) + tag).push(
            line_feed(),
        ),
{
    lemma_join_gives_back(msg);
    lemma_keep_all(lines_of(msg), excluded(lines_of(msg), filters));
}

} // verus!
