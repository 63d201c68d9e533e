use ripit::commit::Commit;
use ripit::error::Error;
use ripit::oid::CommitId;
use ripit::tag::{
    format_ripit_tag, parse_ripit_tag, retrieve_ripit_tag, retrieve_ripit_tag_or_throw,
};

fn id_of(byte: u8) -> CommitId {
    CommitId { bytes: [byte; 20] }
}

fn commit_with(message: Option<&str>) -> Commit {
    Commit {
        id: id_of(1),
        parents: vec![],
        message: message.map(|m| m.to_owned()),
        summary: None,
    }
}

#[test]
fn format_plain_tag() {
    let tag = format_ripit_tag(&id_of(0xab), false);
    assert_eq!(tag, format!("rip-it: {}", "ab".repeat(20)));
}

#[test]
fn format_uprooted_tag() {
    let tag = format_ripit_tag(&id_of(0x0f), true);
    assert_eq!(tag, format!("rip-it: {} uprooted", "0f".repeat(20)));
}

#[test]
fn tag_round_trip() {
    for byte in [0u8, 1, 0x7f, 0x80, 0xa5, 0xff] {
        for uprooted in [false, true] {
            let id = id_of(byte);
            let tag = format_ripit_tag(&id, uprooted);
            let (text, flag) = parse_ripit_tag(&tag).unwrap();
            assert_eq!(flag, uprooted);
            assert_eq!(text, id.to_hex());
            assert_eq!(CommitId::from_hex(&text), Some(id));
        }
    }
}

#[test]
fn parse_takes_first_occurrence() {
    let first = "1".repeat(40);
    let second = "2".repeat(40);
    let msg = format!("brief\n\nrip-it: {}\nrip-it: {} uprooted\n", first, second);
    assert_eq!(parse_ripit_tag(&msg), Some((first, false)));
}

#[test]
fn parse_needs_forty_characters() {
    let msg = format!("rip-it: {}", "a".repeat(39));
    assert_eq!(parse_ripit_tag(&msg), None);
    let msg = format!("rip-it: {}", "a".repeat(40));
    assert_eq!(parse_ripit_tag(&msg), Some(("a".repeat(40), false)));
}

#[test]
fn parse_without_literal() {
    assert_eq!(parse_ripit_tag("brief\n\nrip-it:no space"), None);
    assert_eq!(parse_ripit_tag(""), None);
}

#[test]
fn parse_reads_uprooted_mark_right_after_id() {
    let id = "c".repeat(40);
    assert_eq!(
        parse_ripit_tag(&format!("x rip-it: {} uprooted and more", id)),
        Some((id.clone(), true))
    );
    assert_eq!(parse_ripit_tag(&format!("rip-it: {}  uprooted", id)), Some((id.clone(), false)));
    assert_eq!(parse_ripit_tag(&format!("rip-it: {} uproote", id)), Some((id, false)));
}

#[test]
fn parse_does_not_ask_for_hex() {
    let text = "z".repeat(40);
    assert_eq!(parse_ripit_tag(&format!("rip-it: {}", text)), Some((text, false)));
}

#[test]
fn parse_counts_characters() {
    let text = "é".repeat(40);
    assert_eq!(parse_ripit_tag(&format!("ü rip-it: {} uprooted", text)), Some((text, true)));
}

#[test]
fn retrieve_from_commit() {
    let id = "d".repeat(40);
    let commit = commit_with(Some(&format!("msg\n\nrip-it: {}\n", id)));
    assert_eq!(retrieve_ripit_tag(&commit), Some((id.clone(), false)));
    assert_eq!(retrieve_ripit_tag_or_throw(&commit), Ok((id, false)));
}

#[test]
fn retrieve_without_message_or_tag() {
    assert_eq!(retrieve_ripit_tag(&commit_with(None)), None);
    assert_eq!(retrieve_ripit_tag(&commit_with(Some("no tag"))), None);
    assert_eq!(retrieve_ripit_tag_or_throw(&commit_with(None)), Err(Error::TagMissing));
    assert_eq!(retrieve_ripit_tag_or_throw(&commit_with(Some("no tag"))), Err(Error::TagMissing));
}
