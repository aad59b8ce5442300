//! The command surface: the parsed invocation and the issue-id validator
//! that rejects malformed identifiers before any network work starts.

use vstd::prelude::*;
use vstd::string::StringExecFns;
use crate::text::{alpha_char, digit_char, is_alpha_char, is_digit_char, str_chars};

verus! {

/// A parsed invocation: at most one subcommand.
pub struct Opts {
    pub subcommands: Option<Command>,
}

/// The user's intent.
pub enum Command {
    /// Creates a branch named after the issue with the given id.
    Start { issue_id: String },
    /// Lists issues assigned to the configured identity.
    List { project: Option<String>, filter: Option<String> },
    /// Lists issues regardless of assignee.
    ListAll { project: Option<String>, filter: Option<String> },
    /// Creates a branch with the current branch's version suffix bumped.
    Bump,
}

/// A well-formed split of an issue id at position `i`: one or more ASCII
/// letters, a `'-'`, one or more decimal digits.
pub open spec fn issue_id_split_at(s: Seq<char>, i: int) -> bool {
    &&& 1 <= i <= s.len() - 2
    &&& s[i] == '-'
    &&& forall|j: int| 0 <= j < i ==> is_alpha_char(#[trigger] s[j])
    &&& forall|j: int| i < j < s.len() ==> is_digit_char(#[trigger] s[j])
}

/// A well-formed issue id: letters, `'-'`, digits.
pub open spec fn is_issue_id(s: Seq<char>) -> bool {
    exists|i: int| issue_id_split_at(s, i)
}

/// Accepts exactly the well-formed issue ids (`<letters>-<digits>`), handing
/// the id back unchanged; anything else is rejected with one fixed message.
pub fn issue_validator(s: &str) -> (r: Result<String, String>)
    ensures
        match r {
            Ok(v) => is_issue_id(s@) && v@ == s@,
            Err(m) => !is_issue_id(s@) && m@ == "Must be of form <team-name>-<id> example: CLOUD-1"@,
        },
{
    let chars = str_chars(s);
    let n = chars.len();
    let mut pos: usize = 0;
    while pos < n && chars[pos] != '-'
        invariant
            pos <= n,
            n == s@.len(),
            chars@ == s@,
            forall|j: int| 0 <= j < pos ==> (#[trigger] s@[j]) != '-',
        decreases n - pos,
    {
        pos = pos + 1;
    }
    if pos == n {
        proof {
            if is_issue_id(s@) {
                let i = choose|i: int| issue_id_split_at(s@, i);
                assert(s@[i] == '-');
            }
        }
        return Err("Must be of form <team-name>-<id> example: CLOUD-1".to_owned());
    }
    if pos == 0 || pos + 1 == n {
        proof {
            if is_issue_id(s@) {
                let i = choose|i: int| issue_id_split_at(s@, i);
                if i < pos {
                    assert(s@[i] == '-');
                } else if i > pos {
                    assert(is_alpha_char(s@[pos as int]));
                }
            }
        }
        return Err("Must be of form <team-name>-<id> example: CLOUD-1".to_owned());
    }
    let mut j: usize = 0;
    while j < pos
        invariant
            j <= pos < n,
            n == s@.len(),
            chars@ == s@,
            s@[pos as int] == '-',
            forall|t: int| 0 <= t < pos ==> (#[trigger] s@[t]) != '-',
            forall|t: int| 0 <= t < j ==> is_alpha_char(#[trigger] s@[t]),
        decreases pos - j,
    {
        if !alpha_char(chars[j]) {
            proof {
                if is_issue_id(s@) {
                    let i = choose|i: int| issue_id_split_at(s@, i);
                    if i < pos {
                        assert(s@[i] == '-');
                    } else if i > pos {
                        assert(is_alpha_char(s@[pos as int]));
                    }
                    assert(i == pos);
                    assert(is_alpha_char(s@[j as int]));
                }
            }
            return Err("Must be of form <team-name>-<id> example: CLOUD-1".to_owned());
        }
        j = j + 1;
    }
    let mut t: usize = pos + 1;
    while t < n
        invariant
            pos < t <= n,
            pos + 1 < n,
            n == s@.len(),
            chars@ == s@,
            s@[pos as int] == '-',
            forall|u: int| 0 <= u < pos ==> (#[trigger] s@[u]) != '-',
            forall|u: int| 0 <= u < pos ==> is_alpha_char(#[trigger] s@[u]),
            forall|u: int| pos < u < t ==> is_digit_char(#[trigger] s@[u]),
        decreases n - t,
    {
        if !digit_char(chars[t]) {
            proof {
                if is_issue_id(s@) {
                    let i = choose|i: int| issue_id_split_at(s@, i);
                    if i < pos {
                        assert(s@[i] == '-');
                    } else if i > pos {
                        assert(is_alpha_char(s@[pos as int]));
                    }
                    assert(i == pos);
                    assert(is_digit_char(s@[t as int]));
                }
            }
            return Err("Must be of form <team-name>-<id> example: CLOUD-1".to_owned());
        }
        t = t + 1;
    }
    proof {
        assert(issue_id_split_at(s@, pos as int));
    }
    Ok(s.to_owned())
}

} // verus!
