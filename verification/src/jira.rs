//! The tracker search interface: filter composition, JQL rendering, the
//! search URL, and classification of a decoded search response.

use vstd::prelude::*;
use vstd::string::StrSliceExecFns;
use vstd::string::StringExecFns;
use vstd::utf8::encode_utf8;
use crate::text::{chars_to_string, digit_glyph, join_with, lemma_join_with_push};

verus! {

/// A tracked unit of work as the tracker reports it: its identifier
/// (`<PROJECT>-<number>`) and its human summary.
#[derive(Debug)]
pub struct Issue {
    pub key: String,
    pub title: String,
}

impl PartialEq for Issue {
    fn eq(&self, other: &Issue) -> (r: bool) {
        self.key == other.key && self.title == other.title
    }
}

impl vstd::std_specs::cmp::PartialEqSpecImpl for Issue {
    open spec fn obeys_eq_spec() -> bool {
        true
    }

    open spec fn eq_spec(&self, other: &Issue) -> bool {
        self.key@ == other.key@ && self.title@ == other.title@
    }
}

/// The decoded body of a search response: both top-level fields are
/// optional, and an absent field is distinct from an empty one.
#[derive(Debug)]
pub struct JiraSearchOutput {
    pub error_messages: Option<Vec<String>>,
    pub issues: Option<Vec<Issue>>,
}

impl Default for JiraSearchOutput {
    fn default() -> (r: Self)
        ensures
            r.error_messages is None,
            r.issues is None,
    {
        JiraSearchOutput { error_messages: None, issues: None }
    }
}

/// The optional filters of one search, all independent.
pub struct SearchArgs {
    pub project: Option<String>,
    pub assignee: Option<String>,
    pub id: Option<String>,
    pub filter: Option<String>,
}

impl Default for SearchArgs {
    fn default() -> (r: Self)
        ensures
            r.project is None,
            r.assignee is None,
            r.id is None,
            r.filter is None,
    {
        SearchArgs { project: None, assignee: None, id: None, filter: None }
    }
}

/// The rendered clauses of the present filters, in the fixed order
/// project, assignee, id, free-text.
pub open spec fn jql_clauses(a: SearchArgs) -> Seq<Seq<char>> {
    (match a.project {
        Some(p) => seq!["project='"@ + p@ + "'"@],
        None => Seq::empty(),
    }) + (match a.assignee {
        Some(x) => seq!["assignee='"@ + x@ + "'"@],
        None => Seq::empty(),
    }) + (match a.id {
        Some(x) => seq!["id='"@ + x@ + "'"@],
        None => Seq::empty(),
    }) + (match a.filter {
        Some(x) => seq!["text ~ '"@ + x@ + "'"@],
        None => Seq::empty(),
    })
}

/// The full JQL fragment of a filter set: its present clauses, in fixed
/// order, joined by `AND `; empty when no filter is present.
pub open spec fn rendered_jql(a: SearchArgs) -> Seq<char> {
    join_with(jql_clauses(a), "AND "@)
}

/// An empty filter set renders the empty query, so the caller can omit the
/// query parameter entirely.
pub proof fn lemma_jql_of_no_filters(a: SearchArgs)
    requires
        a.project is None,
        a.assignee is None,
        a.id is None,
        a.filter is None,
    ensures
        rendered_jql(a).len() == 0,
{
    assert(jql_clauses(a) =~= Seq::<Seq<char>>::empty());
}

impl SearchArgs {
    /// Renders the present filters as one JQL conjunction, in the fixed
    /// order project, assignee, id, free-text, with `AND ` between
    /// consecutive present filters only. No value escaping is performed.
    pub fn jql_query(&self) -> (r: String)
        ensures
            r@ == rendered_jql(*self),
    {
        let mut q = String::new();
        let ghost mut parts: Seq<Seq<char>> = Seq::empty();
        let mut any = false;
        if let Some(p) = &self.project {
            q.append("project='");
            q.append(p.as_str());
            q.append("'");
            proof {
                lemma_join_with_push(parts, "AND "@, "project='"@ + p@ + "'"@);
                parts = parts.push("project='"@ + p@ + "'"@);
                assert(q@ =~= join_with(parts, "AND "@));
            }
            any = true;
        }
        if let Some(x) = &self.assignee {
            if any {
                q.append("AND ");
            }
            q.append("assignee='");
            q.append(x.as_str());
            q.append("'");
            proof {
                lemma_join_with_push(parts, "AND "@, "assignee='"@ + x@ + "'"@);
                parts = parts.push("assignee='"@ + x@ + "'"@);
                assert(q@ =~= join_with(parts, "AND "@));
            }
            any = true;
        }
        if let Some(x) = &self.id {
            if any {
                q.append("AND ");
            }
            q.append("id='");
            q.append(x.as_str());
            q.append("'");
            proof {
                lemma_join_with_push(parts, "AND "@, "id='"@ + x@ + "'"@);
                parts = parts.push("id='"@ + x@ + "'"@);
                assert(q@ =~= join_with(parts, "AND "@));
            }
            any = true;
        }
        if let Some(x) = &self.filter {
            if any {
                q.append("AND ");
            }
            q.append("text ~ '");
            q.append(x.as_str());
            q.append("'");
            proof {
                lemma_join_with_push(parts, "AND "@, "text ~ '"@ + x@ + "'"@);
                parts = parts.push("text ~ '"@ + x@ + "'"@);
                assert(q@ =~= join_with(parts, "AND "@));
            }
            any = true;
        }
        proof {
            assert(parts =~= jql_clauses(*self));
        }
        q
    }
}

/// A byte that stands for itself in a URL component.
pub open spec fn is_url_unreserved(b: u8) -> bool {
    (65 <= b && b <= 90) || (97 <= b && b <= 122) || (48 <= b && b <= 57) || b == 45 || b == 46
        || b == 95 || b == 126
}

/// The glyph of a hexadecimal digit, upper case.
pub open spec fn hex_glyph(n: nat) -> char {
    if n < 10 {
        digit_glyph(n)
    } else if n == 10 {
        'A'
    } else if n == 11 {
        'B'
    } else if n == 12 {
        'C'
    } else if n == 13 {
        'D'
    } else if n == 14 {
        'E'
    } else {
        'F'
    }
}

/// The percent-encoding of one byte.
pub open spec fn encoded_byte(b: u8) -> Seq<char> {
    if is_url_unreserved(b) {
        seq![b as char]
    } else {
        seq!['%', hex_glyph((b / 16) as nat), hex_glyph((b % 16) as nat)]
    }
}

/// The percent-encoding of a byte string.
pub open spec fn encoded_bytes(bs: Seq<u8>) -> Seq<char>
    decreases bs.len(),
{
    if bs.len() == 0 {
        Seq::empty()
    } else {
        encoded_bytes(bs.drop_last()) + encoded_byte(bs.last())
    }
}

fn hex_char_of(n: u8) -> (c: char)
    requires
        n < 16,
    ensures
        c == hex_glyph(n as nat),
{
    match n {
        0 => '0',
        1 => '1',
        2 => '2',
        3 => '3',
        4 => '4',
        5 => '5',
        6 => '6',
        7 => '7',
        8 => '8',
        9 => '9',
        10 => 'A',
        11 => 'B',
        12 => 'C',
        13 => 'D',
        14 => 'E',
        _ => 'F',
    }
}

/// Percent-encodes the UTF-8 bytes of a query as one opaque URL component.
fn encode_query(q: &str) -> (r: Vec<char>)
    ensures
        r@ == encoded_bytes(encode_utf8(q@)),
{
    let bytes = q.as_bytes();
    let n = bytes.len();
    let mut out: Vec<char> = Vec::new();
    let mut i: usize = 0;
    proof {
        assert(bytes@.take(0) =~= Seq::<u8>::empty());
    }
    while i < n
        invariant
            i <= n,
            n == bytes@.len(),
            bytes@ == encode_utf8(q@),
            out@ == encoded_bytes(bytes@.take(i as int)),
        decreases n - i,
    {
        let b = bytes[i];
        proof {
            assert(bytes@.take(i + 1).drop_last() =~= bytes@.take(i as int));
            assert(bytes@.take(i + 1).last() == bytes@[i as int]);
        }
        if (65 <= b && b <= 90) || (97 <= b && b <= 122) || (48 <= b && b <= 57) || b == 45 || b
            == 46 || b == 95 || b == 126 {
            out.push(b as char);
        } else {
            out.push('%');
            out.push(hex_char_of(b / 16));
            out.push(hex_char_of(b % 16));
        }
        proof {
            assert(out@ =~= encoded_bytes(bytes@.take(i + 1)));
        }
        i = i + 1;
    }
    proof {
        assert(bytes@.take(n as int) =~= bytes@);
    }
    out
}

/// The URL of one search: the fixed endpoint under the host, with the
/// rendered query attached percent-encoded only when it is non-empty.
pub open spec fn rendered_search_url(host: Seq<char>, a: SearchArgs) -> Seq<char> {
    if rendered_jql(a).len() == 0 {
        host + "/rest/api/3/search"@
    } else {
        host + "/rest/api/3/search"@ + "?jql="@ + encoded_bytes(encode_utf8(rendered_jql(a)))
    }
}

/// Builds the search URL for a filter set; the query parameter is omitted
/// entirely when no filter is present.
pub fn search_url(host: &str, args: &SearchArgs) -> (r: String)
    ensures
        r@ == rendered_search_url(host@, *args),
{
    let q = args.jql_query();
    let mut url = String::new();
    url.append(host);
    url.append("/rest/api/3/search");
    if q.as_str().unicode_len() > 0 {
        url.append("?jql=");
        let enc = encode_query(q.as_str());
        let encs = chars_to_string(&enc);
        url.append(encs.as_str());
        proof {
            assert(url@ =~= rendered_search_url(host@, *args));
        }
    } else {
        proof {
            assert(url@ =~= rendered_search_url(host@, *args));
        }
    }
    url
}

/// What one search response amounts to. Exactly one variant holds.
#[derive(Debug)]
pub enum SearchOutcome {
    /// The tracker answered with a (possibly empty) list of issues.
    Issues(Vec<Issue>),
    /// The tracker answered with logical error messages.
    Errors(Vec<String>),
    /// The tracker answered with neither field present.
    Empty,
}

/// Classification of a decoded body: present, non-empty `errorMessages`
/// wins; otherwise a present `issues` field of any length; otherwise empty.
pub open spec fn classified(o: JiraSearchOutput) -> SearchOutcome {
    match o.error_messages {
        Some(e) => if e@.len() > 0 {
            SearchOutcome::Errors(e)
        } else {
            classified_issues(o.issues)
        },
        None => classified_issues(o.issues),
    }
}

pub open spec fn classified_issues(issues: Option<Vec<Issue>>) -> SearchOutcome {
    match issues {
        Some(v) => SearchOutcome::Issues(v),
        None => SearchOutcome::Empty,
    }
}

/// Classifies a decoded search response by the shape of its payload alone.
pub fn classify(output: JiraSearchOutput) -> (r: SearchOutcome)
    ensures
        r == classified(output),
{
    match output.error_messages {
        Some(e) => {
            if e.len() > 0 {
                SearchOutcome::Errors(e)
            } else {
                match output.issues {
                    Some(v) => SearchOutcome::Issues(v),
                    None => SearchOutcome::Empty,
                }
            }
        },
        None => match output.issues {
            Some(v) => SearchOutcome::Issues(v),
            None => SearchOutcome::Empty,
        },
    }
}

} // verus!
