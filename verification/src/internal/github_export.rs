//! Exporting threads to GitHub issues: the comment marker that ties a
//! GitHub comment to a node, issue-URL parsing, and the export plan.

use vstd::prelude::*;

use crate::internal::evidence::{Evidence, EvidenceKind};
use crate::internal::node::{Node, node_type_name};
use crate::internal::thread::ThreadState;
use crate::text::{
    chars_of, string_of, push_str, append_chars, slice_range, starts_with, starts_with_exec,
    contains_seq, contains_exec, find_seq, occurs_at, is_digit, is_digit_exec, chars_eq_str, digits_value,
    str_eq,
};
use crate::internal::commands::shared::{first_occurrence, lemma_first_occurrence};
use crate::internal::github::GhExistingComment;
use crate::internal::id_alloc::find_char;

verus! {

/// Result of exporting a thread to GitHub.
pub struct ExportResult {
    pub github_issue_number: u64,
    pub github_url: String,
    pub comments_created: usize,
    pub comments_updated: usize,
    pub comments_skipped: usize,
    pub was_closed: bool,
}

/// What an export would create (for `--dry-run`).
pub struct ExportPlan {
    pub thread_id: String,
    pub title: String,
    pub body: Option<String>,
    pub node_count: usize,
    pub would_close: bool,
    pub already_exported: bool,
    pub existing_github_url: Option<String>,
}

/// The GitHub comment body of a node: a hidden marker with the node ID,
/// the node type and author, then the body.
pub open spec fn node_comment(n: Node) -> Seq<char> {
    "<!-- git-forum:"@ + n.node_id@ + " -->\n**["@ + node_type_name(n.node_type) + "]** by "@ + n.actor@
        + "\n\n"@ + n.body@
}

/// Format a node as a GitHub comment body, marker included.
pub fn format_node_as_comment(node: &Node) -> (r: String)
    ensures
        r@ == node_comment(*node),
{
    let mut v = chars_of("<!-- git-forum:");
    push_str(&mut v, node.node_id.as_str());
    push_str(&mut v, " -->\n**[");
    push_str(&mut v, node.node_type.as_str());
    push_str(&mut v, "]** by ");
    push_str(&mut v, node.actor.as_str());
    push_str(&mut v, "\n\n");
    push_str(&mut v, node.body.as_str());
    proof {
        assert(v@ =~= node_comment(*node));
    }
    string_of(v.as_slice())
}

/// The node ID in a comment's marker: the text between the first
/// `<!-- git-forum:` and the next ` -->`.
pub open spec fn comment_marker(body: Seq<char>) -> Option<Seq<char>> {
    match first_occurrence(body, "<!-- git-forum:"@) {
        Some(s) => {
            let rest = body.skip(s + 15);
            match first_occurrence(rest, " -->"@) {
                Some(e) => Some(rest.take(e)),
                None => None,
            }
        },
        None => None,
    }
}

/// A comment written for a node carries that node's ID in its marker:
/// reading the marker back gives the ID, for any ID that does not itself
/// contain the marker's closing ` -->`.
#[verifier::rlimit(50)]
#[verifier::spinoff_prover]
pub proof fn lemma_marker_round_trip(n: Node)
    requires
        !contains_seq(n.node_id@, " -->"@),
    ensures
        comment_marker(node_comment(n)) == Some(n.node_id@),
{
    reveal_strlit("<!-- git-forum:");
    reveal_strlit(" -->");
    reveal_strlit(" -->\n**[");
    let open = "<!-- git-forum:"@;
    let close = " -->"@;
    let id = n.node_id@;
    let body = node_comment(n);
    let tail = " -->\n**["@ + node_type_name(n.node_type) + "]** by "@ + n.actor@ + "\n\n"@ + n.body@;
    assert(body =~= open + id + tail);
    assert(body.subrange(0, 15) =~= open);
    assert(occurs_at(body, open, 0));
    lemma_first_occurrence(body, open, 0);
    let rest = body.skip(15);
    assert(rest =~= id + tail);
    assert(tail.subrange(0, 4) =~= close);
    assert(rest.subrange(id.len() as int, id.len() as int + 4) =~= close);
    assert(occurs_at(rest, close, id.len() as int));
    assert forall|j: int| 0 <= j < id.len() implies !occurs_at(rest, close, j) by {
        if occurs_at(rest, close, j) {
            if j + 4 <= id.len() {
                assert(id.subrange(j, j + 4) =~= rest.subrange(j, j + 4));
                assert(occurs_at(id, close, j));
            } else {
                let k = id.len() - j;
                assert(rest[id.len() as int] == ' ');
                assert(rest.subrange(j, j + 4)[k] == rest[id.len() as int]);
                assert(close[k] != ' ');
            }
        }
    }
    lemma_first_occurrence(rest, close, id.len() as int);
    assert(rest.take(id.len() as int) =~= id);
}

/// Extract the node ID from a GitHub comment's marker (see
/// [`comment_marker`]).
pub fn extract_marker(comment_body: &str) -> (r: Option<String>)
    ensures
        match r {
            Some(id) => comment_marker(comment_body@) == Some(id@),
            None => comment_marker(comment_body@) is None,
        },
{
    proof {
        reveal_strlit("<!-- git-forum:");
    }
    let cs = chars_of(comment_body);
    let open = chars_of("<!-- git-forum:");
    let start = match find_seq(cs.as_slice(), open.as_slice()) {
        Some(s) => {
            proof {
                lemma_first_occurrence(cs@, open@, s as int);
            }
            s
        },
        None => return None,
    };
    assert(start + 15 <= cs.len());
    let rest = slice_range(cs.as_slice(), start + 15, cs.len());
    proof {
        assert(rest@ =~= comment_body@.skip(start + 15));
    }
    let close = chars_of(" -->");
    match find_seq(rest.as_slice(), close.as_slice()) {
        Some(e) => {
            proof {
                lemma_first_occurrence(rest@, close@, e as int);
            }
            let id = slice_range(rest.as_slice(), 0, e);
            proof {
                assert(id@ =~= rest@.take(e as int));
            }
            Some(string_of(id.as_slice()))
        },
        None => None,
    }
}

/// An evidence item that records a GitHub issue export: external, with a
/// `https://github.com/` reference that contains `/issues/`.
pub open spec fn is_github_export(e: Evidence) -> bool {
    e.kind == EvidenceKind::External && starts_with(e.ref_target@, "https://github.com/"@)
        && contains_seq(e.ref_target@, "/issues/"@)
}

/// The reference of the first evidence item that records a GitHub export.
pub open spec fn existing_export(items: Seq<Evidence>) -> Option<Seq<char>>
    decreases items.len(),
{
    if items.len() == 0 {
        None
    } else if is_github_export(items[0]) {
        Some(items[0].ref_target@)
    } else {
        existing_export(items.drop_first())
    }
}

/// An evidence item that links a GitHub issue: external, under
/// `https://github.com/`, with `/issues/` in it.
pub open spec fn links_github_issue(e: Evidence) -> bool {
    &&& e.kind == EvidenceKind::External
    &&& e.ref_target@.len() >= 19 && e.ref_target@.take(19) == "https://github.com/"@
    &&& exists|k: int| 0 <= k && k + 8 <= e.ref_target@.len() && #[trigger] e.ref_target@.subrange(k, k + 8) == "/issues/"@
}

/// Law of [`find_existing_export`]: it gives the reference of the first
/// evidence item that links a GitHub issue, and nothing when no item does;
/// other links (a pull request, another site) are never taken for an
/// export.
pub proof fn lemma_existing_export(items: Seq<Evidence>)
    ensures
        match existing_export(items) {
            Some(u) => exists|i: int|
                0 <= i < items.len() && links_github_issue(#[trigger] items[i]) && items[i].ref_target@ == u
                    && forall|j: int| 0 <= j < i ==> !links_github_issue(#[trigger] items[j]),
            None => forall|i: int| 0 <= i < items.len() ==> !links_github_issue(#[trigger] items[i]),
        },
    decreases items.len(),
{
    reveal_strlit("https://github.com/");
    reveal_strlit("/issues/");
    assert("https://github.com/"@.len() == 19);
    assert("/issues/"@.len() == 8);
    if items.len() > 0 {
        let t = items.drop_first();
        lemma_existing_export(t);
        let e = items[0];
        assert(is_github_export(e) == links_github_issue(e)) by {
            assert(starts_with(e.ref_target@, "https://github.com/"@) == (e.ref_target@.len() >= 19
                && e.ref_target@.take(19) == "https://github.com/"@)) by {
                if e.ref_target@.len() >= 19 && e.ref_target@.take(19) == "https://github.com/"@ {
                    assert(e.ref_target@.subrange(0, 19) =~= e.ref_target@.take(19));
                }
                if starts_with(e.ref_target@, "https://github.com/"@) {
                    assert(e.ref_target@.subrange(0, 19) =~= e.ref_target@.take(19));
                }
            }
            if contains_seq(e.ref_target@, "/issues/"@) {
                let k = choose|k: int| occurs_at(e.ref_target@, "/issues/"@, k);
                assert(e.ref_target@.subrange(k, k + 8) == "/issues/"@);
            }
            if exists|k: int| 0 <= k && k + 8 <= e.ref_target@.len() && #[trigger] e.ref_target@.subrange(k, k + 8) == "/issues/"@ {
                let k = choose|k: int| 0 <= k && k + 8 <= e.ref_target@.len() && #[trigger] e.ref_target@.subrange(k, k + 8) == "/issues/"@;
                assert(occurs_at(e.ref_target@, "/issues/"@, k));
            }
        }
        if !links_github_issue(e) {
            match existing_export(t) {
                Some(u) => {
                    let i = choose|i: int|
                        0 <= i < t.len() && links_github_issue(#[trigger] t[i]) && t[i].ref_target@ == u
                            && forall|j: int| 0 <= j < i ==> !links_github_issue(#[trigger] t[j]);
                    assert(items[i + 1] == t[i]);
                    assert forall|j: int| 0 <= j < i + 1 implies !links_github_issue(#[trigger] items[j]) by {
                        if j > 0 {
                            assert(items[j] == t[j - 1]);
                        }
                    }
                },
                None => {
                    assert forall|i: int| 0 <= i < items.len() implies !links_github_issue(#[trigger] items[i]) by {
                        if i > 0 {
                            assert(items[i] == t[i - 1]);
                        }
                    }
                },
            }
        }
    }
}

/// The GitHub issue URL a thread was already exported to, if any.
pub fn find_existing_export(state: &ThreadState) -> (r: Option<String>)
    ensures
        match r {
            Some(u) => existing_export(state.evidence_items@) == Some(u@),
            None => existing_export(state.evidence_items@) is None,
        },
{
    let items = &state.evidence_items;
    let prefix = chars_of("https://github.com/");
    let issues = chars_of("/issues/");
    let mut i: usize = 0;
    proof {
        assert(items@.skip(0) =~= items@);
    }
    while i < items.len()
        invariant
            i <= items@.len(),
            items@ == state.evidence_items@,
            prefix@ == "https://github.com/"@,
            issues@ == "/issues/"@,
            existing_export(items@.skip(i as int)) == existing_export(items@),
        decreases items@.len() - i,
    {
        let e = &items[i];
        let r = chars_of(e.ref_target.as_str());
        proof {
            assert(items@.skip(i as int).drop_first() =~= items@.skip(i + 1));
            assert(items@.skip(i as int)[0] == items@[i as int]);
        }
        if e.kind == EvidenceKind::External && starts_with_exec(r.as_slice(), prefix.as_slice())
            && contains_exec(r.as_slice(), issues.as_slice()) {
            return Some(e.ref_target.clone());
        }
        i += 1;
    }
    proof {
        assert(items@.skip(i as int).len() == 0);
    }
    None
}

// ---------------------------------------------------------------------------
// Issue URLs
// ---------------------------------------------------------------------------


/// Every character is an ASCII digit.
pub open spec fn all_digits(d: Seq<char>) -> bool {
    forall|i: int| 0 <= i < d.len() ==> is_digit(#[trigger] d[i])
}

/// `u64::from_str`: an optional `+`, then one or more ASCII digits whose
/// value fits in 64 bits.
pub open spec fn parse_u64(s: Seq<char>) -> Option<u64> {
    let d = if s.len() > 0 && s[0] == '+' { s.drop_first() } else { s };
    if d.len() == 0 || !all_digits(d) {
        None
    } else if digits_value(d) > u64::MAX {
        None
    } else {
        Some(digits_value(d) as u64)
    }
}

proof fn lemma_digits_value_grows(s: Seq<char>, k: int)
    requires
        0 <= k <= s.len(),
        forall|i: int| 0 <= i < s.len() ==> is_digit(#[trigger] s[i]),
    ensures
        digits_value(s.take(k)) <= digits_value(s),
    decreases s.len() - k,
{
    if k < s.len() {
        lemma_digits_value_grows(s, k + 1);
        assert(s.take(k + 1).drop_last() =~= s.take(k));
    } else {
        assert(s.take(k) =~= s);
    }
}

proof fn lemma_find_char_at(s: Seq<char>, c: char, i: nat, k: nat)
    requires
        i <= k < s.len(),
        s[k as int] == c,
        forall|j: int| i <= j < k ==> s[j] != c,
    ensures
        find_char(s, c, i) == Some(k),
    decreases k - i,
{
    if i < k {
        lemma_find_char_at(s, c, i + 1, k);
    }
}

/// Decimal text parses back to its number.
pub proof fn lemma_parse_decimal(n: u64)
    ensures
        parse_u64(crate::text::decimal(n as nat)) == Some(n),
{
    let d = crate::text::decimal(n as nat);
    crate::text::lemma_decimal_digits(n as nat);
    crate::text::lemma_decimal_value(n as nat);
    assert(is_digit(d[0]));
}

/// Parse an unsigned decimal number (see [`parse_u64`]).
pub fn parse_u64_exec(s: &[char]) -> (r: Option<u64>)
    ensures
        r == parse_u64(s@),
{
    let from: usize = if s.len() > 0 && s[0] == '+' { 1 } else { 0 };
    let d = slice_range(s, from, s.len());
    proof {
        assert(d@ =~= (if s@.len() > 0 && s@[0] == '+' { s@.drop_first() } else { s@ }));
    }
    if d.len() == 0 {
        return None;
    }
    let mut i: usize = 0;
    while i < d.len()
        invariant
            i <= d@.len(),
            d@ == (if s@.len() > 0 && s@[0] == '+' { s@.drop_first() } else { s@ }),
            forall|j: int| 0 <= j < i ==> is_digit(#[trigger] d@[j]),
        decreases d@.len() - i,
    {
        if !is_digit_exec(d[i]) {
            proof {
                let dd = if s@.len() > 0 && s@[0] == '+' { s@.drop_first() } else { s@ };
                assert(dd == d@);
                assert(!is_digit(dd[i as int]));
                assert(!all_digits(dd));
                assert(parse_u64(s@) is None);
            }
            return None;
        }
        i += 1;
    }
    let mut acc: u64 = 0;
    let mut k: usize = 0;
    while k < d.len()
        invariant
            k <= d@.len(),
            d@.len() > 0,
            d@ == (if s@.len() > 0 && s@[0] == '+' { s@.drop_first() } else { s@ }),
            forall|j: int| 0 <= j < d@.len() ==> is_digit(#[trigger] d@[j]),
            acc == digits_value(d@.take(k as int)),
        decreases d@.len() - k,
    {
        let dig: u64 = ((d[k] as u32) - 48) as u64;
        proof {
            assert(d@.take(k + 1).drop_last() =~= d@.take(k as int));
            assert(is_digit(d@[k as int]));
        }
        if acc > (u64::MAX - dig) / 10 {
            proof {
                assert(digits_value(d@.take(k + 1)) > u64::MAX) by (nonlinear_arith)
                    requires
                        acc > (u64::MAX - dig) / 10,
                        dig <= 9,
                        digits_value(d@.take(k + 1)) == acc * 10 + dig,
                ;
                lemma_digits_value_grows(d@, k + 1);
                assert(digits_value(d@) > u64::MAX);
                let dd = if s@.len() > 0 && s@[0] == '+' { s@.drop_first() } else { s@ };
                assert(dd == d@);
                assert(parse_u64(s@) is None);
            }
            return None;
        }
        proof {
            assert(acc * 10 + dig <= u64::MAX) by (nonlinear_arith)
                requires
                    acc <= (u64::MAX - dig) / 10,
                    dig <= 9,
            ;
        }
        acc = acc * 10 + dig;
        k += 1;
    }
    proof {
        assert(d@.take(k as int) =~= d@);
    }
    Some(acc)
}

/// The repository (`owner/name`) and number of a GitHub issue URL: after
/// `https://github.com/`, the first four `/`-separated parts (the last
/// keeps any further `/`) must be owner, name, `issues` and a number.
pub open spec fn issue_url_parts(url: Seq<char>) -> Option<(Seq<char>, u64)> {
    let pre = "https://github.com/"@;
    if !starts_with(url, pre) {
        None
    } else {
        let p = url.skip(pre.len() as int);
        match find_char(p, '/', 0) {
            None => None,
            Some(a) => match find_char(p, '/', a + 1) {
                None => None,
                Some(b) => match find_char(p, '/', b + 1) {
                    None => None,
                    Some(c) => if p.subrange(b + 1 as int, c as int) == "issues"@ {
                        match parse_u64(p.skip(c + 1 as int)) {
                            Some(n) => Some((p.take(a as int) + "/"@ + p.subrange(a + 1 as int, b as int), n)),
                            None => None,
                        }
                    } else {
                        None
                    },
                },
            },
        }
    }
}

proof fn lemma_find_char_bounds(s: Seq<char>, c: char, from: nat)
    ensures
        find_char(s, c, from) matches Some(i) ==> from <= i < s.len() && s[i as int] == c,
    decreases s.len() - from,
{
    if from < s.len() && s[from as int] != c {
        lemma_find_char_bounds(s, c, from + 1);
    }
}

fn find_char_from(s: &[char], c: char, from: usize) -> (r: Option<usize>)
    requires
        from <= s@.len(),
    ensures
        match r {
            Some(i) => find_char(s@, c, from as nat) == Some(i as nat) && i < s@.len(),
            None => find_char(s@, c, from as nat) is None,
        },
{
    let mut i = from;
    while i < s.len()
        invariant
            from <= i <= s@.len(),
            find_char(s@, c, i as nat) == find_char(s@, c, from as nat),
        decreases s@.len() - i,
    {
        if s[i] == c {
            return Some(i);
        }
        i += 1;
    }
    None
}

/// Extract the repository and issue number from a GitHub issue URL (see
/// [`issue_url_parts`]).
/// The URL written for an issue parses back to its repository and
/// number, for a repository named `owner/name` (neither part holding a
/// `/`).
pub proof fn lemma_issue_url_round_trip(owner: Seq<char>, name: Seq<char>, n: u64)
    requires
        !owner.contains('/'),
        !name.contains('/'),
    ensures
        issue_url_parts("https://github.com/"@ + owner + "/"@ + name + "/issues/"@ + crate::text::decimal(n as nat))
            == Some((owner + "/"@ + name, n)),
{
    reveal_strlit("https://github.com/");
    reveal_strlit("/");
    reveal_strlit("/issues/");
    reveal_strlit("issues");
    let pre = "https://github.com/"@;
    let d = crate::text::decimal(n as nat);
    let url = pre + owner + "/"@ + name + "/issues/"@ + d;
    let p = url.skip(pre.len() as int);
    assert(url.subrange(0, pre.len() as int) =~= pre);
    assert(p =~= owner + "/"@ + name + "/issues/"@ + d);
    let a = owner.len();
    let b = a + 1 + name.len();
    let c = b + 7;
    assert forall|j: int| 0 <= j < a implies p[j] != '/' by {
        assert(p[j] == owner[j]);
    }
    lemma_find_char_at(p, '/', 0, a);
    assert forall|j: int| a + 1 <= j < b implies p[j] != '/' by {
        assert(p[j] == name[j - a - 1]);
    }
    lemma_find_char_at(p, '/', a + 1, b);
    assert forall|j: int| b + 1 <= j < c implies p[j] != '/' by {
        assert(p[j] == "/issues/"@[j - b]);
    }
    lemma_find_char_at(p, '/', b + 1, c);
    assert(p.subrange(b + 1 as int, c as int) =~= "issues"@);
    assert(p.skip(c + 1 as int) =~= d);
    lemma_parse_decimal(n);
    assert(p.take(a as int) =~= owner);
    assert(p.subrange(a + 1 as int, b as int) =~= name);
}

pub fn parse_github_issue_url(url: &str) -> (r: Option<(String, u64)>)
    ensures
        match r {
            Some((repo, n)) => issue_url_parts(url@) == Some((repo@, n)),
            None => issue_url_parts(url@) is None,
        },
{
    let cs = chars_of(url);
    let pre = chars_of("https://github.com/");
    if !starts_with_exec(cs.as_slice(), pre.as_slice()) {
        return None;
    }
    let p = slice_range(cs.as_slice(), pre.len(), cs.len());
    proof {
        assert(p@ =~= url@.skip(pre@.len() as int));
    }
    let a = match find_char_from(p.as_slice(), '/', 0) {
        Some(a) => a,
        None => return None,
    };
    let b = match find_char_from(p.as_slice(), '/', a + 1) {
        Some(b) => b,
        None => return None,
    };
    proof {
        lemma_find_char_bounds(p@, '/', (a + 1) as nat);
    }
    let c = match find_char_from(p.as_slice(), '/', b + 1) {
        Some(c) => c,
        None => return None,
    };
    proof {
        lemma_find_char_bounds(p@, '/', (b + 1) as nat);
    }
    let seg = slice_range(p.as_slice(), b + 1, c);
    if !chars_eq_str(seg.as_slice(), "issues") {
        return None;
    }
    let num = slice_range(p.as_slice(), c + 1, p.len());
    proof {
        assert(num@ =~= p@.skip(c + 1 as int));
    }
    match parse_u64_exec(num.as_slice()) {
        Some(n) => {
            let mut repo = slice_range(p.as_slice(), 0, a);
            push_str(&mut repo, "/");
            let name = slice_range(p.as_slice(), a + 1, b);
            append_chars(&mut repo, name.as_slice());
            proof {
                assert(repo@ =~= p@.take(a as int) + "/"@ + p@.subrange(a + 1, b as int));
            }
            Some((string_of(repo.as_slice()), n))
        },
        None => None,
    }
}

// ---------------------------------------------------------------------------
// Issue body and plan
// ---------------------------------------------------------------------------

/// The exported issue body: the thread body (empty when there is none)
/// and a traceability footer naming the thread.
pub open spec fn export_body(state: ThreadState) -> Seq<char> {
    (match state.body {
        Some(b) => b@,
        None => Seq::<char>::empty(),
    }) + "\n\n---\n*Exported from git-forum thread `"@ + state.id@ + "`*"@
}

/// Format the GitHub issue body of a thread.
pub fn format_issue_body(state: &ThreadState) -> (r: String)
    ensures
        r@ == export_body(*state),
{
    let mut v: Vec<char> = match &state.body {
        Some(b) => chars_of(b.as_str()),
        None => Vec::new(),
    };
    push_str(&mut v, "\n\n---\n*Exported from git-forum thread `");
    push_str(&mut v, state.id.as_str());
    push_str(&mut v, "`*");
    proof {
        assert(v@ =~= export_body(*state));
    }
    string_of(v.as_slice())
}

/// The nodes of `ns` that are not retracted.
pub open spec fn live_count(ns: Seq<Node>) -> nat
    decreases ns.len(),
{
    if ns.len() == 0 {
        0
    } else {
        live_count(ns.drop_last()) + if ns.last().retracted { 0nat } else { 1nat }
    }
}

proof fn lemma_live_count_bound(ns: Seq<Node>)
    ensures
        live_count(ns) <= ns.len(),
    decreases ns.len(),
{
    if ns.len() > 0 {
        lemma_live_count_bound(ns.drop_last());
    }
}

/// How many nodes are not retracted (those become comments).
pub fn count_live_nodes(nodes: &Vec<Node>) -> (r: usize)
    ensures
        r == live_count(nodes@),
{
    let mut n: usize = 0;
    let mut i: usize = 0;
    while i < nodes.len()
        invariant
            i <= nodes@.len(),
            n == live_count(nodes@.take(i as int)),
        decreases nodes@.len() - i,
    {
        proof {
            assert(nodes@.take(i + 1).drop_last() =~= nodes@.take(i as int));
            lemma_live_count_bound(nodes@.take(i as int));
        }
        if !nodes[i].retracted {
            n += 1;
        }
        i += 1;
    }
    proof {
        assert(nodes@.take(i as int) =~= nodes@);
    }
    n
}

/// Whether an export closes the GitHub issue: the thread is `closed` or
/// `rejected`.
pub fn export_would_close(status: &str) -> (r: bool)
    ensures
        r == (status@ == "closed"@ || status@ == "rejected"@),
{
    crate::text::str_eq(status, "closed") || crate::text::str_eq(status, "rejected")
}

// ---------------------------------------------------------------------------
// Exporting again
// ---------------------------------------------------------------------------

/// What re-exporting does for one node's comment.
#[derive(Debug)]
pub enum CommentAction {
    /// No comment carries the node's marker: add this body.
    Create { body: String },
    /// The comment carrying the marker differs: replace its body.
    Update { comment_id: u64, body: String },
    /// The comment carrying the marker already has this body.
    Skip,
    /// The marker names a comment that cannot be found again.
    Nothing,
}

/// The ID of the last comment whose marker names `node_id`.
pub open spec fn marked_comment(cs: Seq<GhExistingComment>, node_id: Seq<char>) -> Option<u64>
    decreases cs.len(),
{
    if cs.len() == 0 {
        None
    } else if comment_marker(cs.last().body@) == Some(node_id) {
        Some(cs.last().id)
    } else {
        marked_comment(cs.drop_last(), node_id)
    }
}

/// The body of the first comment with ID `id`.
pub open spec fn comment_body_by_id(cs: Seq<GhExistingComment>, id: u64) -> Option<Seq<char>>
    decreases cs.len(),
{
    if cs.len() == 0 {
        None
    } else if cs[0].id == id {
        Some(cs[0].body@)
    } else {
        comment_body_by_id(cs.drop_first(), id)
    }
}

/// The rule for one node: create its comment when no comment carries its
/// marker (the last such comment counts), skip it when that comment's
/// body is already the node's text, else update it.
pub open spec fn comment_action_rule(cs: Seq<GhExistingComment>, n: Node, r: CommentAction) -> bool {
    let text = node_comment(n);
    match marked_comment(cs, n.node_id@) {
        None => r matches CommentAction::Create { body } && body@ == text,
        Some(id) => match comment_body_by_id(cs, id) {
            Some(b) => if b == text {
                r is Skip
            } else {
                r matches CommentAction::Update { comment_id, body } && comment_id == id && body@ == text
            },
            None => r is Nothing,
        },
    }
}

fn marker_names(body: &str, node_id: &str) -> (r: bool)
    ensures
        r == (comment_marker(body@) == Some(node_id@)),
{
    match extract_marker(body) {
        Some(m) => str_eq(m.as_str(), node_id),
        None => false,
    }
}

fn marked_comment_exec(cs: &Vec<GhExistingComment>, node_id: &str) -> (r: Option<u64>)
    ensures
        r == marked_comment(cs@, node_id@),
{
    let mut found: Option<u64> = None;
    let mut i: usize = 0;
    while i < cs.len()
        invariant
            i <= cs@.len(),
            found == marked_comment(cs@.take(i as int), node_id@),
        decreases cs@.len() - i,
    {
        let hit = marker_names(cs[i].body.as_str(), node_id);
        proof {
            assert(cs@.take(i + 1).drop_last() =~= cs@.take(i as int));
            assert(cs@.take(i + 1).last() == cs@[i as int]);
        }
        if hit {
            found = Some(cs[i].id);
        }
        i += 1;
    }
    proof {
        assert(cs@.take(i as int) =~= cs@);
    }
    found
}

fn comment_body_by_id_exec(cs: &Vec<GhExistingComment>, id: u64) -> (r: Option<&String>)
    ensures
        match r {
            Some(b) => comment_body_by_id(cs@, id) == Some(b@),
            None => comment_body_by_id(cs@, id) is None,
        },
{
    let mut i: usize = 0;
    proof {
        assert(cs@.skip(0) =~= cs@);
    }
    while i < cs.len()
        invariant
            i <= cs@.len(),
            comment_body_by_id(cs@, id) == comment_body_by_id(cs@.skip(i as int), id),
        decreases cs@.len() - i,
    {
        proof {
            assert(cs@.skip(i as int).drop_first() =~= cs@.skip(i + 1));
            assert(cs@.skip(i as int)[0] == cs@[i as int]);
        }
        if cs[i].id == id {
            return Some(&cs[i].body);
        }
        i += 1;
    }
    proof {
        assert(cs@.skip(i as int) =~= Seq::<GhExistingComment>::empty());
    }
    None
}

/// Decide what re-exporting does for a node's comment, given the
/// comments already on the issue (see [`comment_action_rule`]).
pub fn plan_comment(existing: &Vec<GhExistingComment>, node: &Node) -> (r: CommentAction)
    ensures
        comment_action_rule(existing@, *node, r),
{
    let text = format_node_as_comment(node);
    match marked_comment_exec(existing, node.node_id.as_str()) {
        None => CommentAction::Create { body: text },
        Some(id) => match comment_body_by_id_exec(existing, id) {
            Some(b) => {
                if str_eq(b.as_str(), text.as_str()) {
                    CommentAction::Skip
                } else {
                    CommentAction::Update { comment_id: id, body: text }
                }
            },
            None => CommentAction::Nothing,
        },
    }
}

/// The URL of a GitHub issue.
pub fn github_issue_url(repo: &str, number: u64) -> (r: String)
    ensures
        r@ == "https://github.com/"@ + repo@ + "/issues/"@ + crate::text::decimal(number as nat),
{
    let mut v = chars_of("https://github.com/");
    push_str(&mut v, repo);
    push_str(&mut v, "/issues/");
    let d = crate::text::fmt_u64(number);
    append_chars(&mut v, d.as_slice());
    string_of(v.as_slice())
}

/// An export goes to the repository the thread was exported to before,
/// if it was: the exported URL must parse, and name `target_repo`.
pub open spec fn export_target_rule(existing_url: Seq<char>, target_repo: Seq<char>, r: Result<u64, crate::internal::error::ForumError>) -> bool {
    match issue_url_parts(existing_url) {
        None => r matches Err(crate::internal::error::ForumError::Repo(m)) && m@ == "cannot parse GitHub URL: "@ + existing_url,
        Some((repo, n)) => if repo != target_repo {
            r matches Err(crate::internal::error::ForumError::Repo(m)) && m@ == "thread already exported to "@ + repo
                + ", not "@ + target_repo
        } else {
            r == Ok::<u64, crate::internal::error::ForumError>(n)
        },
    }
}

/// The issue number to export to again, for a thread already exported to
/// `existing_url` (see [`export_target_rule`]).
pub fn re_export_target(existing_url: &str, target_repo: &str) -> (r: Result<u64, crate::internal::error::ForumError>)
    ensures
        export_target_rule(existing_url@, target_repo@, r),
{
    match parse_github_issue_url(existing_url) {
        None => {
            let mut v = chars_of("cannot parse GitHub URL: ");
            push_str(&mut v, existing_url);
            Err(crate::internal::error::ForumError::Repo(string_of(v.as_slice())))
        },
        Some((repo, n)) => {
            if !crate::text::str_eq(repo.as_str(), target_repo) {
                let mut v = chars_of("thread already exported to ");
                push_str(&mut v, repo.as_str());
                push_str(&mut v, ", not ");
                push_str(&mut v, target_repo);
                Err(crate::internal::error::ForumError::Repo(string_of(v.as_slice())))
            } else {
                Ok(n)
            }
        },
    }
}

} // verus!
