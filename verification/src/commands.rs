//! The decisions behind each command: which filters a command searches
//! with, what a search outcome means for it, and the error taxonomy that
//! every failure path reports through.

use vstd::prelude::*;
use vstd::pervasive::unreached;
use vstd::string::StringExecFns;
use crate::cli::Command;
use crate::jira::{Issue, SearchArgs, SearchOutcome};
use crate::text::{join_with, lemma_join_with_push};
use crate::utils::{normalize_title, normalized_title};

verus! {

/// Every failure the tool can report. Each is fatal to the invocation.
pub enum GiraError {
    /// A configuration key is missing or unreadable.
    Config(String),
    /// The issue id is malformed; raised before any network work.
    Validation(String),
    /// The network call itself failed.
    Transport(String),
    /// The response body could not be decoded.
    Decode(String),
    /// The tracker answered with logical error messages.
    Remote(Vec<String>),
    /// More than one issue matched an id-scoped search.
    Ambiguous(Vec<Issue>),
    /// No issue matched the given id.
    NotFound(String),
    /// The version-control collaborator failed.
    Vcs(String),
}

/// The branch name derived from an issue: its key, a `'-'`, and its
/// normalized title.
pub open spec fn issue_branch_name(i: Issue) -> Seq<char> {
    i.key@ + "-"@ + normalized_title(i.title@)
}

/// The browse URL of an issue key under a host.
pub open spec fn browse_url_of(host: Seq<char>, key: Seq<char>) -> Seq<char> {
    host + "/browse/"@ + key
}

/// Derives the branch name for an issue.
pub fn branch_for_issue(issue: &Issue) -> (r: String)
    ensures
        r@ == issue_branch_name(*issue),
{
    let mut r = String::new();
    r.append(issue.key.as_str());
    r.append("-");
    let title = normalize_title(&issue.title);
    r.append(title.as_str());
    proof {
        assert(r@ =~= issue_branch_name(*issue));
    }
    r
}

/// Builds the browse URL for an issue key.
pub fn browse_url(host: &str, key: &String) -> (r: String)
    ensures
        r@ == browse_url_of(host@, key@),
{
    let mut r = String::new();
    r.append(host);
    r.append("/browse/");
    r.append(key.as_str());
    proof {
        assert(r@ =~= browse_url_of(host@, key@));
    }
    r
}

/// What an id-scoped search resolved to.
pub enum Resolution {
    /// No issue matched.
    NotFound,
    /// Exactly one issue matched.
    Unique(Issue),
    /// More than one issue matched; all candidates, in response order.
    Ambiguous(Vec<Issue>),
}

/// The shared zero/one/many policy of id-scoped searches.
pub open spec fn resolved(v: Vec<Issue>) -> Resolution {
    if v@.len() == 0 {
        Resolution::NotFound
    } else if v@.len() == 1 {
        Resolution::Unique(v@[0])
    } else {
        Resolution::Ambiguous(v)
    }
}

/// Applies the zero/one/many policy to a list of matched issues.
pub fn resolve_unique(issues: Vec<Issue>) -> (r: Resolution)
    ensures
        r == resolved(issues),
{
    if issues.len() == 0 {
        Resolution::NotFound
    } else if issues.len() == 1 {
        let mut v = issues;
        match v.pop() {
            Some(first) => Resolution::Unique(first),
            None => unreached(),
        }
    } else {
        Resolution::Ambiguous(issues)
    }
}

/// The filters a command searches with: the issue id for `start`; project,
/// free-text filter and (for `list` only) the configured identity as
/// assignee for the listings; nothing for `bump`.
pub fn search_args_for(cmd: &Command, email: &String) -> (r: Option<SearchArgs>)
    ensures
        match *cmd {
            Command::Start { ref issue_id } => r matches Some(a) && a.project is None
                && a.assignee is None && a.filter is None && (a.id matches Some(x) && x@
                == issue_id@),
            Command::List { ref project, ref filter } => r matches Some(a) && a.project
                == *project && (a.assignee matches Some(x) && x@ == email@) && a.id is None
                && a.filter == *filter,
            Command::ListAll { ref project, ref filter } => r matches Some(a) && a.project
                == *project && a.assignee is None && a.id is None && a.filter == *filter,
            Command::Bump => r is None,
        },
{
    match cmd {
        Command::Start { issue_id } => Some(
            SearchArgs {
                project: None,
                assignee: None,
                id: Some(issue_id.clone()),
                filter: None,
            },
        ),
        Command::List { project, filter } => Some(
            SearchArgs {
                project: clone_opt(project),
                assignee: Some(email.clone()),
                id: None,
                filter: clone_opt(filter),
            },
        ),
        Command::ListAll { project, filter } => Some(
            SearchArgs {
                project: clone_opt(project),
                assignee: None,
                id: None,
                filter: clone_opt(filter),
            },
        ),
        Command::Bump => None,
    }
}

fn clone_opt(o: &Option<String>) -> (r: Option<String>)
    ensures
        r == *o,
{
    match o {
        Some(s) => {
            let c = s.clone();
            proof {
                assert(c == *s);
            }
            Some(c)
        },
        None => None,
    }
}

/// What `start` does with a search outcome: create the derived branch for a
/// unique match, and fail on remote errors, on zero and on many matches.
pub enum StartAction {
    CreateBranch(String),
    Fail(GiraError),
}

/// Decides the `start` command from a classified search outcome.
pub fn start_action(outcome: SearchOutcome, issue_id: &str) -> (r: StartAction)
    ensures
        match outcome {
            SearchOutcome::Errors(msgs) => r matches StartAction::Fail(GiraError::Remote(m)) && m
                == msgs,
            SearchOutcome::Issues(v) => {
                if v@.len() == 0 {
                    r matches StartAction::Fail(GiraError::NotFound(id)) && id@ == issue_id@
                } else if v@.len() == 1 {
                    r matches StartAction::CreateBranch(name) && name@ == issue_branch_name(v@[0])
                } else {
                    r matches StartAction::Fail(GiraError::Ambiguous(c)) && c == v
                }
            },
            SearchOutcome::Empty => r matches StartAction::Fail(GiraError::NotFound(id)) && id@
                == issue_id@,
        },
{
    match outcome {
        SearchOutcome::Errors(msgs) => StartAction::Fail(GiraError::Remote(msgs)),
        SearchOutcome::Issues(v) => match resolve_unique(v) {
            Resolution::NotFound => StartAction::Fail(GiraError::NotFound(issue_id.to_owned())),
            Resolution::Unique(first) => StartAction::CreateBranch(branch_for_issue(&first)),
            Resolution::Ambiguous(c) => StartAction::Fail(GiraError::Ambiguous(c)),
        },
        SearchOutcome::Empty => StartAction::Fail(GiraError::NotFound(issue_id.to_owned())),
    }
}

/// One line of a listing: the derived branch name and the browse URL.
pub struct Listing {
    pub text: String,
    pub url: String,
}

/// What a listing command does with a search outcome: print one line per
/// issue (an empty listing is a success), or fail on remote errors.
pub enum ListAction {
    Print(Vec<Listing>),
    Fail(GiraError),
}

/// Decides a listing command from a classified search outcome.
pub fn list_action(outcome: SearchOutcome, host: &str) -> (r: ListAction)
    ensures
        match outcome {
            SearchOutcome::Errors(msgs) => r matches ListAction::Fail(GiraError::Remote(m)) && m
                == msgs,
            SearchOutcome::Empty => r matches ListAction::Print(ls) && ls@.len() == 0,
            SearchOutcome::Issues(v) => r matches ListAction::Print(ls) && ls@.len() == v@.len()
                && forall|i: int|
                0 <= i < v@.len() ==> (#[trigger] ls@[i]).text@ == issue_branch_name(v@[i])
                    && ls@[i].url@ == browse_url_of(host@, v@[i].key@),
        },
{
    match outcome {
        SearchOutcome::Errors(msgs) => ListAction::Fail(GiraError::Remote(msgs)),
        SearchOutcome::Empty => ListAction::Print(Vec::new()),
        SearchOutcome::Issues(v) => {
            let mut lines: Vec<Listing> = Vec::new();
            let mut i: usize = 0;
            while i < v.len()
                invariant
                    i <= v@.len(),
                    lines@.len() == i,
                    forall|j: int|
                        0 <= j < i ==> (#[trigger] lines@[j]).text@ == issue_branch_name(v@[j])
                            && lines@[j].url@ == browse_url_of(host@, v@[j].key@),
                decreases v@.len() - i,
            {
                let issue = &v[i];
                let line = Listing { text: branch_for_issue(issue), url: browse_url(host, &issue.key) };
                lines.push(line);
                i = i + 1;
            }
            ListAction::Print(lines)
        },
    }
}

/// The lines an ambiguous `start` lists: one derived branch name per
/// candidate, in response order.
pub open spec fn candidate_lines(issues: Seq<Issue>) -> Seq<Seq<char>> {
    Seq::new(issues.len(), |i: int| issue_branch_name(issues[i]))
}

impl GiraError {
    /// The message reported for this failure. Remote error messages are
    /// surfaced verbatim, joined by newlines; ambiguous matches list every
    /// candidate's derived branch name.
    pub fn message(&self) -> (r: String)
        ensures
            r@ == match *self {
                GiraError::Config(k) => "missing configuration key "@ + k@,
                GiraError::Validation(m) => m@,
                GiraError::Transport(m) => "failed to reach the tracker: "@ + m@,
                GiraError::Decode(m) => "unable to parse response: "@ + m@,
                GiraError::Remote(msgs) => "failed to get any data from jira:\n"@ + join_with(
                    msgs.deep_view(),
                    "\n"@,
                ),
                GiraError::Ambiguous(issues) => "found more than one issue:\n"@ + join_with(
                    candidate_lines(issues@),
                    "\n"@,
                ),
                GiraError::NotFound(id) => "could not find any issues related to id "@ + id@,
                GiraError::Vcs(m) => m@,
            },
    {
        match self {
            GiraError::Config(k) => {
                let mut r = String::new();
                r.append("missing configuration key ");
                r.append(k.as_str());
                r
            },
            GiraError::Validation(m) => m.clone(),
            GiraError::Transport(m) => {
                let mut r = String::new();
                r.append("failed to reach the tracker: ");
                r.append(m.as_str());
                r
            },
            GiraError::Decode(m) => {
                let mut r = String::new();
                r.append("unable to parse response: ");
                r.append(m.as_str());
                r
            },
            GiraError::Remote(msgs) => {
                let mut r = String::new();
                r.append("failed to get any data from jira:\n");
                let ghost done: Seq<Seq<char>> = Seq::empty();
                let ghost mut done = done;
                let mut i: usize = 0;
                while i < msgs.len()
                    invariant
                        i <= msgs@.len(),
                        done == msgs.deep_view().take(i as int),
                        r@ == "failed to get any data from jira:\n"@ + join_with(done, "\n"@),
                    decreases msgs@.len() - i,
                {
                    if i > 0 {
                        r.append("\n");
                    }
                    r.append(msgs[i].as_str());
                    proof {
                        lemma_join_with_push(done, "\n"@, msgs@[i as int]@);
                        done = done.push(msgs@[i as int]@);
                        assert(done =~= msgs.deep_view().take(i + 1));
                        assert(r@ =~= "failed to get any data from jira:\n"@ + join_with(
                            done,
                            "\n"@,
                        ));
                    }
                    i = i + 1;
                }
                proof {
                    assert(msgs.deep_view().take(msgs@.len() as int) =~= msgs.deep_view());
                }
                r
            },
            GiraError::Ambiguous(issues) => {
                let mut r = String::new();
                r.append("found more than one issue:\n");
                let ghost done: Seq<Seq<char>> = Seq::empty();
                let ghost mut done = done;
                let mut i: usize = 0;
                while i < issues.len()
                    invariant
                        i <= issues@.len(),
                        done == candidate_lines(issues@).take(i as int),
                        r@ == "found more than one issue:\n"@ + join_with(done, "\n"@),
                    decreases issues@.len() - i,
                {
                    if i > 0 {
                        r.append("\n");
                    }
                    let line = branch_for_issue(&issues[i]);
                    r.append(line.as_str());
                    proof {
                        lemma_join_with_push(done, "\n"@, issue_branch_name(issues@[i as int]));
                        done = done.push(issue_branch_name(issues@[i as int]));
                        assert(done =~= candidate_lines(issues@).take(i + 1));
                        assert(r@ =~= "found more than one issue:\n"@ + join_with(done, "\n"@));
                    }
                    i = i + 1;
                }
                proof {
                    assert(candidate_lines(issues@).take(issues@.len() as int) =~= candidate_lines(
                        issues@,
                    ));
                }
                r
            },
            GiraError::NotFound(id) => {
                let mut r = String::new();
                r.append("could not find any issues related to id ");
                r.append(id.as_str());
                r
            },
            GiraError::Vcs(m) => m.clone(),
        }
    }
}

} // verus!
