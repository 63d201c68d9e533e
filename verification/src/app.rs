//! The options of a run, as the configuration and the command line give them.

use vstd::prelude::*;
use vstd::string::StringExecFns;
use crate::error::Error;
use crate::message::{compile_patterns, patterns_compile, set_patterns, texts};

verus! {

/// A branch to keep in sync.
#[derive(Clone, Debug, PartialEq, Eq)]
pub struct Branch {
    /// The name of the branch.
    pub name: String,
    /// The full name of the local branch's reference.
    pub refname: String,
}

/// The options of a run.
pub struct Options {
    /// The path of the local repository.
    pub repo: String,
    /// The name of the remote to replay from.
    pub remote: String,
    /// The branches to keep in sync.
    pub branches: Vec<Branch>,
    /// A line of a remote message that one of these matches is left out.
    pub commit_msg_filters: regex::RegexSet,
    pub bootstrap: bool,
    pub uproot: bool,
    pub verbose: bool,
    pub yes: bool,
    pub fetch: bool,
}

/// What the configuration file holds.
#[derive(Clone, Debug, PartialEq, Eq)]
pub struct Config {
    pub repo: Option<String>,
    pub remote: String,
    /// The one branch of older configurations.
    pub branch: Option<String>,
    pub branches: Option<Vec<String>>,
    pub filters: Option<Vec<String>>,
}

/// The switches of the command line.
#[derive(Clone, Copy, Debug, PartialEq, Eq)]
pub struct Flags {
    pub bootstrap: bool,
    pub uproot: bool,
    pub quiet: bool,
    pub yes: bool,
    pub nofetch: bool,
}

/// The full name of the reference of the local branch `name`.
pub open spec fn refname_of(name: Seq<char>) -> Seq<char> {
    "refs/heads/"@ + name
}

/// The view of an optional list of strings, an absent list being empty.
pub open spec fn listed(list: Option<Vec<String>>) -> Seq<Seq<char>> {
    match list {
        Some(v) => texts(v@),
        None => Seq::empty(),
    }
}

/// The names of the branches that a configuration asks for: those it lists,
/// or else its one branch, or else `master`.
pub open spec fn branch_names(cfg: Config) -> Seq<Seq<char>> {
    if listed(cfg.branches).len() > 0 {
        listed(cfg.branches)
    } else {
        match cfg.branch {
            Some(name) => seq![name@],
            None => seq!["master"@],
        }
    }
}

/// Whether `branches` are the branches of the given names, each with the
/// reference of that name.
pub open spec fn branches_named(branches: Seq<Branch>, names: Seq<Seq<char>>) -> bool {
    &&& branches.len() == names.len()
    &&& forall|i: int|
        0 <= i < names.len() ==> (#[trigger] branches[i]).name@ == names[i] && branches[i].refname@
            == refname_of(names[i])
}

impl Branch {
    /// The branch `name`, with the reference of a local branch of that name.
    pub fn new(name: String) -> (branch: Branch)
        ensures
            branch.name@ == name@,
            branch.refname@ == refname_of(name@),
    {
        let mut refname = "refs/heads/".to_owned();
        refname.append(name.as_str());
        Branch { name, refname }
    }
}

/// What a configuration and the command line amount to, but for the filters.
pub open spec fn options_follow(opts: Options, cfg: Config, flags: Flags) -> bool {
    &&& opts.repo@ == match cfg.repo {
        Some(path) => path@,
        None => "."@,
    }
    &&& opts.remote@ == cfg.remote@
    &&& branches_named(opts.branches@, branch_names(cfg))
    &&& opts.bootstrap == flags.bootstrap
    &&& opts.uproot == flags.uproot
    &&& opts.verbose == !flags.quiet
    &&& opts.yes == flags.yes
    &&& opts.fetch == !flags.nofetch
}

/// The options that a configuration and the command line amount to. Fails
/// where the filters of the configuration do not compile.
pub fn parse_args(cfg: Config, flags: Flags) -> (r: Result<Options, Error>)
    ensures
        r is Ok <==> patterns_compile(listed(cfg.filters)),
        listed(cfg.filters).len() == 0 ==> r is Ok,
        match r {
            Ok(opts) => options_follow(opts, cfg, flags) && set_patterns(opts.commit_msg_filters)
                == listed(cfg.filters),
            Err(e) => e matches Error::InvalidConfig { field, .. } && field@ == "filter"@,
        },
{
    let patterns: Vec<String> = match &cfg.filters {
        Some(list) => list.clone(),
        None => Vec::new(),
    };
    assert(texts(patterns@) =~= listed(cfg.filters));
    let compiled = compile_patterns(&patterns);
    Options::with_filters(cfg, flags, compiled)
}

impl Options {
    /// The options that a configuration and the command line amount to,
    /// given what compiling the filters of the configuration gave: the set,
    /// or the text of the failure.
    pub fn with_filters(cfg: Config, flags: Flags, filters: Result<regex::RegexSet, String>) -> (r:
        Result<Options, Error>)
        ensures
            match filters {
                Ok(set) => r matches Ok(opts) && options_follow(opts, cfg, flags)
                    && opts.commit_msg_filters == set,
                Err(text) => r matches Err(Error::InvalidConfig { field, error }) && field@
                    == "filter"@ && error@ == text@,
            },
    {
        let commit_msg_filters = match filters {
            Ok(set) => set,
            Err(error) => {
                return Err(Error::InvalidConfig { field: "filter", error });
            },
        };
        let Config { repo, remote, branch, branches, filters: _ } = cfg;
        let mut names: Vec<String> = match branches {
            Some(list) => list,
            None => Vec::new(),
        };
        if names.len() == 0 {
            names.push(
                match branch {
                    Some(name) => name,
                    None => "master".to_owned(),
                },
            );
        }
        assert(texts(names@) =~= branch_names(cfg));
        let mut list: Vec<Branch> = Vec::new();
        let mut i: usize = 0;
        while i < names.len()
            invariant
                i <= names.len(),
                branches_named(list@, texts(names@).take(i as int)),
            decreases names.len() - i,
        {
            list.push(Branch::new(names[i].clone()));
            i += 1;
        }
        assert(texts(names@).take(names.len() as int) =~= texts(names@));
        Ok(
            Options {
                repo: match repo {
                    Some(path) => path,
                    None => ".".to_owned(),
                },
                remote,
                branches: list,
                commit_msg_filters,
                bootstrap: flags.bootstrap,
                uproot: flags.uproot,
                verbose: !flags.quiet,
                yes: flags.yes,
                fetch: !flags.nofetch,
            },
        )
    }
}

impl Options {
    /// The name under which the repository knows the branch of the remote
    /// that `branch` follows.
    pub fn remote_branch(&self, branch: &Branch) -> (name: String)
        ensures
            name@ == self.remote@ + "/"@ + branch.name@,
    {
        let mut name = self.remote.clone();
        name.append("/");
        name.append(branch.name.as_str());
        name
    }

    /// Whether a run that replayed nothing should remind the operator to
    /// fetch: it does where it was told not to fetch itself.
    pub fn should_remind_fetch(&self, has_synced: bool) -> (r: bool)
        ensures
            r == (!self.fetch && !has_synced),
    {
        !self.fetch && !has_synced
    }
}

} // verus!
