use ripit::error::{exit_code, push_decimal, Error};
use ripit::oid::CommitId;

#[test]
fn message_of_git() {
    let e = Error::Git { message: "object not found".to_owned() };
    assert_eq!(e.message(), "object not found");
}

#[test]
fn message_of_tag_missing() {
    assert_eq!(
        Error::TagMissing.message(),
        "Cannot find any ripit tag in the local repository.\n\
         Run with the `--bootstrap` option to setup the repository."
    );
}

#[test]
fn message_of_has_local_changes() {
    assert_eq!(
        Error::HasLocalChanges.message(),
        "The repository contains non committed changes.\nAborted."
    );
}

#[test]
fn message_of_unknown_parent() {
    let e = Error::UnknownParent {
        commit_id: CommitId { bytes: [0x12; 20] },
        parent_id: CommitId { bytes: [0xef; 20] },
    };
    assert_eq!(
        e.message(),
        format!(
            "Cannot synchronize commit {}: its parent {} cannot be found in the \
             local repository",
            "12".repeat(20),
            "ef".repeat(20)
        )
    );
}

#[test]
fn message_of_has_conflicts() {
    let e = Error::HasConflicts { summary: "c12".to_owned() };
    assert_eq!(
        e.message(),
        "Cannot synchronize the following commit due to conflicts:\n  c12\n\
         Solve the conflicts and commit the resolutions, \
         then run the synchronization again."
    );
}

#[test]
fn message_of_configuration_errors() {
    let e = Error::FailedOpenCfg { path: "cfg.yml".to_owned(), error: "No such file".to_owned() };
    assert_eq!(e.message(), "Cannot open configuration file cfg.yml: No such file");
    let e = Error::FailedParseCfg { path: "cfg.yml".to_owned(), error: "missing field".to_owned() };
    assert_eq!(e.message(), "Invalid configuration file cfg.yml: missing field");
    let e = Error::InvalidConfig { field: "filter", error: "unclosed group".to_owned() };
    assert_eq!(e.message(), "Invalid filter option: unclosed group");
}

#[test]
fn message_of_cannot_setup_merge_ctx() {
    assert_eq!(
        Error::CannotSetupMergeCtx.message(),
        "Cannot setup the environment for the resolution of conflicts.\n\
         Solve the errors listed above, then abort the current commit \
         and run the synchronization again."
    );
}

#[test]
fn message_of_cache_errors() {
    let e = Error::CacheOpenError { filename: ".ripit-cache".to_owned(), error: "denied".to_owned() };
    assert_eq!(e.message(), "Cannot open cache file .ripit-cache: denied");
    let e = Error::CacheReadError { filename: ".ripit-cache".to_owned(), error: "bad".to_owned() };
    assert_eq!(e.message(), "Cannot read cache file .ripit-cache: bad");
    let e = Error::CacheInvalidLine {
        desc: "Commit does not have a ripit tag".to_owned(),
        filename: ".ripit-cache".to_owned(),
        line: "abc".to_owned(),
        line_number: 120,
    };
    assert_eq!(
        e.message(),
        "Invalid line 120 in cache file .ripit-cache: Commit does not have a ripit tag\n  abc"
    );
}

#[test]
fn decimal_forms() {
    for n in [0usize, 1, 9, 10, 11, 99, 100, 101, 12345, 1_000_000, usize::MAX] {
        let mut out = "n=".to_owned();
        push_decimal(&mut out, n);
        assert_eq!(out, format!("n={}", n));
    }
}

#[test]
fn exit_codes() {
    assert_eq!(exit_code(&Ok(())), 0);
    assert_eq!(exit_code(&Err(Error::TagMissing)), 2);
    assert_eq!(exit_code(&Err(Error::HasConflicts { summary: "c".to_owned() })), 2);
    assert_eq!(exit_code(&Err(Error::Git { message: "m".to_owned() })), 2);
}
