use ripit::app::{parse_args, Branch, Config, Flags, Options};
use ripit::error::Error;

fn config() -> Config {
    Config { repo: None, remote: "private".to_owned(), branch: None, branches: None, filters: None }
}

fn flags() -> Flags {
    Flags { bootstrap: false, uproot: false, quiet: false, yes: false, nofetch: false }
}

fn names(opts: &Options) -> Vec<(String, String)> {
    opts.branches.iter().map(|b| (b.name.clone(), b.refname.clone())).collect()
}

fn pair(name: &str) -> (String, String) {
    (name.to_owned(), format!("refs/heads/{}", name))
}

#[test]
fn branch_has_the_reference_of_its_name() {
    let branch = Branch::new("stable/1.0".to_owned());
    assert_eq!(branch.name, "stable/1.0");
    assert_eq!(branch.refname, "refs/heads/stable/1.0");
}

#[test]
fn defaults() {
    let opts = parse_args(config(), flags()).unwrap();
    assert_eq!(opts.repo, ".");
    assert_eq!(opts.remote, "private");
    assert_eq!(names(&opts), vec![pair("master")]);
    assert_eq!(opts.commit_msg_filters.len(), 0);
    assert!(!opts.bootstrap);
    assert!(!opts.uproot);
    assert!(opts.verbose);
    assert!(!opts.yes);
    assert!(opts.fetch);
}

#[test]
fn flags_carry_over() {
    let all = Flags { bootstrap: true, uproot: true, quiet: true, yes: true, nofetch: true };
    let opts = parse_args(config(), all).unwrap();
    assert!(opts.bootstrap);
    assert!(opts.uproot);
    assert!(!opts.verbose);
    assert!(opts.yes);
    assert!(!opts.fetch);
}

#[test]
fn repo_and_single_branch() {
    let cfg = Config {
        repo: Some("/srv/repo".to_owned()),
        branch: Some("dev".to_owned()),
        ..config()
    };
    let opts = parse_args(cfg, flags()).unwrap();
    assert_eq!(opts.repo, "/srv/repo");
    assert_eq!(names(&opts), vec![pair("dev")]);
}

#[test]
fn listed_branches_win_over_the_single_one() {
    let cfg = Config {
        branch: Some("dev".to_owned()),
        branches: Some(vec!["master".to_owned(), "branch0".to_owned(), "branch1".to_owned()]),
        ..config()
    };
    let opts = parse_args(cfg, flags()).unwrap();
    assert_eq!(names(&opts), vec![pair("master"), pair("branch0"), pair("branch1")]);
}

#[test]
fn empty_list_falls_back() {
    let cfg = Config { branch: Some("dev".to_owned()), branches: Some(vec![]), ..config() };
    assert_eq!(names(&parse_args(cfg, flags()).unwrap()), vec![pair("dev")]);
    let cfg = Config { branches: Some(vec![]), ..config() };
    assert_eq!(names(&parse_args(cfg, flags()).unwrap()), vec![pair("master")]);
}

#[test]
fn filters_are_compiled() {
    let cfg = Config { filters: Some(vec!["^Refs".to_owned(), "test".to_owned()]), ..config() };
    let opts = parse_args(cfg, flags()).unwrap();
    assert_eq!(opts.commit_msg_filters.len(), 2);
    assert_eq!(opts.commit_msg_filters.patterns(), ["^Refs".to_owned(), "test".to_owned()]);
    assert!(opts.commit_msg_filters.is_match("Refs: 12"));
    assert!(!opts.commit_msg_filters.is_match("Toto Test Refs"));
}

#[test]
fn invalid_filter_is_an_invalid_config() {
    let cfg = Config { filters: Some(vec!["ok".to_owned(), "(unclosed".to_owned()]), ..config() };
    match parse_args(cfg, flags()) {
        Err(Error::InvalidConfig { field, error }) => {
            assert_eq!(field, "filter");
            assert_eq!(error, regex::RegexSet::new(["ok", "(unclosed"]).unwrap_err().to_string());
        }
        _ => panic!("an invalid filter must be refused"),
    }
}

#[test]
fn with_filters_takes_the_compiled_set() {
    let set = regex::RegexSet::new(["a+"]).unwrap();
    let opts = Options::with_filters(config(), flags(), Ok(set)).unwrap();
    assert_eq!(opts.commit_msg_filters.patterns(), ["a+".to_owned()]);
    assert_eq!(names(&opts), vec![pair("master")]);
}

#[test]
fn with_filters_reports_the_failure() {
    match Options::with_filters(config(), flags(), Err("bad pattern".to_owned())) {
        Err(e) => {
            assert_eq!(
                e,
                Error::InvalidConfig { field: "filter", error: "bad pattern".to_owned() }
            );
            assert_eq!(e.message(), "Invalid filter option: bad pattern");
        }
        Ok(_) => panic!("a failure to compile must be reported"),
    }
}

#[test]
fn remote_branch_names_the_remote_first() {
    let opts = parse_args(config(), flags()).unwrap();
    assert_eq!(opts.remote_branch(&opts.branches[0]), "private/master");
    assert_eq!(opts.remote_branch(&Branch::new("stable/1.0".to_owned())), "private/stable/1.0");
}

#[test]
fn reminder_to_fetch() {
    let fetching = parse_args(config(), flags()).unwrap();
    assert!(!fetching.should_remind_fetch(false));
    assert!(!fetching.should_remind_fetch(true));
    let not_fetching = parse_args(config(), Flags { nofetch: true, ..flags() }).unwrap();
    assert!(not_fetching.should_remind_fetch(false));
    assert!(!not_fetching.should_remind_fetch(true));
}
