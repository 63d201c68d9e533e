use ripit::commit::Commit;
use ripit::commits_map::{
    cache_line_error, parse_cache_mapping, CommitsMap, Registered,
    SyncedCommit,
};
use ripit::error::Error;
use ripit::oid::CommitId;
use ripit::tag::format_ripit_tag;

fn id(byte: u8) -> CommitId {
    CommitId { bytes: [byte; 20] }
}

fn synced(byte: u8, uprooted: bool) -> SyncedCommit {
    SyncedCommit { commit: id(byte), uprooted }
}

/// The local commit `local` that carries the tag of the remote commit `remote`.
fn tagged(local: u8, remote: u8, uprooted: bool) -> Commit {
    Commit {
        id: id(local),
        parents: vec![],
        message: Some(format!("msg\n\n{}\n", format_ripit_tag(&id(remote), uprooted))),
        summary: Some("msg".to_owned()),
    }
}

fn untagged(local: u8) -> Commit {
    Commit { id: id(local), parents: vec![], message: Some("private".to_owned()), summary: None }
}

fn malformed(local: u8) -> Commit {
    Commit {
        id: id(local),
        parents: vec![],
        message: Some(format!("msg\n\nrip-it: {}\n", "z".repeat(40))),
        summary: None,
    }
}

#[test]
fn new_map_is_empty() {
    let map = CommitsMap::new();
    assert_eq!(map.len(), 0);
    assert!(!map.contains_key(&id(1)));
    assert_eq!(map.get(&id(1)), None);
}

#[test]
fn insert_then_get() {
    let mut map = CommitsMap::new();
    assert!(map.insert(id(1), synced(10, false)));
    assert!(map.insert(id(2), synced(20, true)));
    assert_eq!(map.len(), 2);
    assert!(map.contains_key(&id(1)));
    assert!(map.contains_key(&id(2)));
    assert!(!map.contains_key(&id(3)));
    assert_eq!(map.get(&id(1)), Some(&synced(10, false)));
    assert_eq!(map.get(&id(2)), Some(&synced(20, true)));
    assert_eq!(map.get(&id(10)), None);
}

#[test]
fn insert_twice_keeps_the_first_entry() {
    let mut map = CommitsMap::new();
    assert!(map.insert(id(1), synced(10, false)));
    assert!(!map.insert(id(1), synced(11, true)));
    assert_eq!(map.len(), 1);
    assert_eq!(map.get(&id(1)), Some(&synced(10, false)));
    // the same local commit may stand for another remote commit
    assert!(map.insert(id(2), synced(10, false)));
    assert_eq!(map.len(), 2);
}

#[test]
fn keys_differ_by_any_byte() {
    let mut map = CommitsMap::new();
    let mut other = id(1);
    other.bytes[19] = 2;
    assert!(map.insert(id(1), synced(10, false)));
    assert!(map.insert(other, synced(20, false)));
    assert_eq!(map.get(&other), Some(&synced(20, false)));
    assert_eq!(map.get(&id(1)), Some(&synced(10, false)));
}

#[test]
fn register_records_a_tagged_commit() {
    let mut map = CommitsMap::new();
    assert_eq!(map.register(&tagged(10, 1, false)), Ok(Registered::Recorded));
    assert_eq!(map.register(&tagged(20, 2, true)), Ok(Registered::Recorded));
    assert_eq!(map.get(&id(1)), Some(&synced(10, false)));
    assert_eq!(map.get(&id(2)), Some(&synced(20, true)));
}

#[test]
fn register_passes_over_an_untagged_commit() {
    let mut map = CommitsMap::new();
    assert_eq!(map.register(&untagged(10)), Ok(Registered::Untagged));
    let no_text = Commit { id: id(11), parents: vec![], message: None, summary: None };
    assert_eq!(map.register(&no_text), Ok(Registered::Untagged));
    assert_eq!(map.len(), 0);
}

#[test]
fn register_reports_a_known_remote_commit() {
    let mut map = CommitsMap::new();
    assert_eq!(map.register(&tagged(10, 1, false)), Ok(Registered::Recorded));
    assert_eq!(map.register(&tagged(11, 1, true)), Ok(Registered::Known));
    assert_eq!(map.get(&id(1)), Some(&synced(10, false)));
    assert_eq!(map.len(), 1);
}

#[test]
fn register_refuses_a_malformed_tag() {
    let mut map = CommitsMap::new();
    let expected = Error::Git {
        message: "unable to parse OID - contains invalid characters".to_owned(),
    };
    assert_eq!(map.register(&malformed(10)), Err(expected));
    assert_eq!(map.len(), 0);
}

/// A local commit whose tag holds `text` in the place of the identity.
fn holding(local: u8, text: &str) -> Commit {
    Commit {
        id: id(local),
        parents: vec![],
        message: Some(format!("msg\n\nrip-it: {}\n", text)),
        summary: None,
    }
}

#[test]
fn malformed_tag_is_what_the_repository_says() {
    let texts = [
        "z".repeat(40),
        "é".repeat(40),
        format!("{} ", "a".repeat(39)),
        format!("{}\0", "a".repeat(39)),
        format!("é{}", "a".repeat(39)),
    ];
    for text in texts {
        let said = git2::Oid::from_str(&text).unwrap_err().message().to_owned();
        let mut map = CommitsMap::new();
        assert_eq!(map.register(&holding(10, &text)), Err(Error::Git { message: said }));
        assert_eq!(map.len(), 0);
    }
}

#[test]
fn malformed_tag_texts() {
    let mut map = CommitsMap::new();
    assert_eq!(
        map.register(&holding(10, &"z".repeat(40))),
        Err(Error::Git { message: "unable to parse OID - contains invalid characters".to_owned() })
    );
    // forty characters of two bytes each
    assert_eq!(
        map.register(&holding(10, &"é".repeat(40))),
        Err(Error::Git { message: "unable to parse OID - too long".to_owned() })
    );
}

#[test]
fn register_cached_gives_the_line_of_a_recorded_commit() {
    let mut map = CommitsMap::new();
    assert_eq!(
        map.register_cached(&tagged(0x1a, 1, false)),
        Ok((Registered::Recorded, Some(format!("{}\n", "1a".repeat(20)))))
    );
    assert_eq!(map.register_cached(&tagged(0x1b, 1, false)), Ok((Registered::Known, None)));
    assert_eq!(map.register_cached(&untagged(0x1c)), Ok((Registered::Untagged, None)));
    assert_eq!(
        map.register_cached(&malformed(0x1d)),
        Err(Error::Git { message: "unable to parse OID - contains invalid characters".to_owned() })
    );
    assert_eq!(map.get(&id(1)), Some(&synced(0x1a, false)));
    assert_eq!(map.len(), 1);
}

#[test]
fn fill_records_the_whole_walk() {
    let mut map = CommitsMap::new();
    let walk = vec![tagged(13, 3, true), untagged(99), tagged(12, 2, false), tagged(11, 1, false)];
    assert_eq!(map.fill_from_commit(&walk), Ok(()));
    assert_eq!(map.len(), 3);
    assert_eq!(map.get(&id(3)), Some(&synced(13, true)));
    assert_eq!(map.get(&id(2)), Some(&synced(12, false)));
    assert_eq!(map.get(&id(1)), Some(&synced(11, false)));
}

#[test]
fn fill_stops_at_the_first_known_commit() {
    let mut map = CommitsMap::new();
    map.insert(id(2), synced(12, false));
    let walk = vec![tagged(13, 3, false), tagged(12, 2, false), tagged(11, 1, false)];
    assert_eq!(map.fill_from_commit(&walk), Ok(()));
    assert_eq!(map.len(), 2);
    assert!(map.contains_key(&id(3)));
    // what stands behind the known commit is not walked
    assert!(!map.contains_key(&id(1)));
}

#[test]
fn fill_stops_at_a_malformed_tag() {
    let mut map = CommitsMap::new();
    let walk = vec![tagged(13, 3, false), malformed(50), tagged(11, 1, false)];
    assert_eq!(
        map.fill_from_commit(&walk),
        Err(Error::Git { message: "unable to parse OID - contains invalid characters".to_owned() })
    );
    assert_eq!(map.len(), 1);
    assert!(map.contains_key(&id(3)));
    assert!(!map.contains_key(&id(1)));
}

#[test]
fn fill_of_nothing() {
    let mut map = CommitsMap::new();
    assert_eq!(map.fill_from_commit(&vec![]), Ok(()));
    assert_eq!(map.len(), 0);
}

#[test]
fn parse_cache_mapping_reads_the_tag() {
    assert_eq!(parse_cache_mapping(&tagged(10, 1, false)), Ok((id(1), synced(10, false))));
    assert_eq!(parse_cache_mapping(&tagged(10, 1, true)), Ok((id(1), synced(10, true))));
    assert_eq!(
        parse_cache_mapping(&untagged(10)),
        Err("Commit does not have a ripit tag".to_owned())
    );
    assert_eq!(
        parse_cache_mapping(&malformed(10)),
        Err("unable to parse OID - contains invalid characters".to_owned())
    );
}

#[test]
fn cache_line_error_holds_the_place() {
    assert_eq!(
        cache_line_error("why".to_owned(), "file", "line", 7),
        Error::CacheInvalidLine {
            desc: "why".to_owned(),
            filename: "file".to_owned(),
            line: "line".to_owned(),
            line_number: 7,
        }
    );
}

#[test]
fn load_cache_line_records_the_commit() {
    let mut map = CommitsMap::new();
    let line = "0a".repeat(20);
    assert_eq!(map.load_cache_line(Ok(tagged(10, 1, true)), "cache", &line, 1), Ok(()));
    assert_eq!(map.get(&id(1)), Some(&synced(10, true)));
}

#[test]
fn load_cache_line_keeps_the_first_entry() {
    let mut map = CommitsMap::new();
    assert_eq!(map.load_cache_line(Ok(tagged(10, 1, false)), "cache", "l1", 1), Ok(()));
    assert_eq!(map.load_cache_line(Ok(tagged(11, 1, true)), "cache", "l2", 2), Ok(()));
    assert_eq!(map.len(), 1);
    assert_eq!(map.get(&id(1)), Some(&synced(10, false)));
}

#[test]
fn load_cache_line_refuses_what_names_no_replayed_commit() {
    let mut map = CommitsMap::new();
    let error = |desc: &str, line: &str, line_number: usize| Error::CacheInvalidLine {
        desc: desc.to_owned(),
        filename: "cache".to_owned(),
        line: line.to_owned(),
        line_number,
    };
    assert_eq!(
        map.load_cache_line(Err("object not found".to_owned()), "cache", "l1", 1),
        Err(error("object not found", "l1", 1))
    );
    assert_eq!(
        map.load_cache_line(Ok(untagged(10)), "cache", "l2", 2),
        Err(error("Commit does not have a ripit tag", "l2", 2))
    );
    assert_eq!(
        map.load_cache_line(Ok(malformed(10)), "cache", "l3", 3),
        Err(error("unable to parse OID - contains invalid characters", "l3", 3))
    );
    assert_eq!(map.len(), 0);
}

#[test]
fn insert_cached_gives_the_line_to_append() {
    let mut map = CommitsMap::new();
    assert_eq!(map.insert_cached(id(1), synced(0xab, false)), Some(format!("{}\n", "ab".repeat(20))));
    assert_eq!(map.insert_cached(id(1), synced(0xcd, false)), None);
    assert_eq!(map.get(&id(1)), Some(&synced(0xab, false)));
    assert_eq!(map.insert_cached(id(2), synced(0xcd, true)), Some(format!("{}\n", "cd".repeat(20))));
    assert_eq!(map.len(), 2);
}

#[test]
fn cache_lines_load_again() {
    // what one run appended, the next one reads
    let mut first = CommitsMap::new();
    let line = first.insert_cached(id(1), synced(10, false)).unwrap();
    let named = CommitId::from_hex(line.trim_end()).unwrap();
    assert_eq!(named, id(10));
    let mut second = CommitsMap::new();
    assert_eq!(second.load_cache_line(Ok(tagged(10, 1, false)), "cache", line.trim_end(), 1), Ok(()));
    assert_eq!(second.get(&id(1)), first.get(&id(1)));
}
