//! The `hook` command: what the commit-msg hook reads from a message
//! (`Refs:` trailers), what it suggests when there are none, and the
//! results of index repair.

use vstd::prelude::*;

use crate::internal::id_alloc::{is_bare_token, is_valid_thread_id, opaque_id, sequential_id, is_token, find_char};
use crate::internal::error::ForumError;
use crate::text::{contains_exec, str_eq, string_from};
use crate::text::{
    chars_of, string_of, push_str, append_chars, lines, lines_of, views, strs, dedup, push_new,
    push_new_exec, to_strings, from_strings, no_dups, lemma_dedup, trim, trim_chars, split, split_exec,
    Sep, eq_ignore_ascii_case, eq_ignore_ascii_case_exec, slice_range, join, join_chars,
};

verus! {

/// The `hook` sub-commands.
pub enum HookArm {
    Install { force: bool },
    Uninstall,
    CheckCommitMsg { file: String },
    FixIndex,
    WorktreeInit,
}

// ---------------------------------------------------------------------------
// Installing and removing the hooks
// ---------------------------------------------------------------------------

/// The line that marks a commit-msg hook as the forum's.
pub const COMMIT_MSG_HOOK_MARKER: &'static str = "# git-forum advisory commit-msg hook";

/// The forum's commit-msg hook.
pub const COMMIT_MSG_HOOK_SCRIPT: &'static str = "#!/bin/sh\n# git-forum advisory commit-msg hook\ngit-forum hook check-commit-msg \"$1\"\n";

/// The line that marks a post-checkout hook as the forum's.
pub const POST_CHECKOUT_HOOK_MARKER: &'static str = "# git-forum post-checkout hook";

/// The forum's post-checkout hook.
pub const POST_CHECKOUT_HOOK_SCRIPT: &'static str = "#!/bin/sh\n# git-forum post-checkout hook\ngit-forum hook worktree-init\n";

/// One managed hook: its name, marker line and script.
pub struct ManagedHook {
    pub name: &'static str,
    pub marker: &'static str,
    pub script: &'static str,
}

/// The hooks the forum manages, in the order they are installed and
/// removed.
pub fn managed_hooks() -> (r: Vec<ManagedHook>)
    ensures
        r@.len() == 2,
        r@[0].name@ == "commit-msg"@ && r@[0].marker@ == COMMIT_MSG_HOOK_MARKER@ && r@[0].script@ == COMMIT_MSG_HOOK_SCRIPT@,
        r@[1].name@ == "post-checkout"@ && r@[1].marker@ == POST_CHECKOUT_HOOK_MARKER@ && r@[1].script@
            == POST_CHECKOUT_HOOK_SCRIPT@,
{
    let mut v: Vec<ManagedHook> = Vec::new();
    v.push(ManagedHook { name: "commit-msg", marker: COMMIT_MSG_HOOK_MARKER, script: COMMIT_MSG_HOOK_SCRIPT });
    v.push(ManagedHook { name: "post-checkout", marker: POST_CHECKOUT_HOOK_MARKER, script: POST_CHECKOUT_HOOK_SCRIPT });
    v
}

/// What to do with one hook file.
#[derive(Debug, Clone, PartialEq, Eq)]
pub enum HookStep {
    /// Leave the file alone and print the message.
    Leave(String),
    /// Write (or remove) the file, then print the message.
    Act(String),
}

/// Installing a hook over what its file holds (`None`: no file): a file
/// that already carries the marker is left; another file is refused
/// unless `force`; otherwise the script is written.
pub fn install_step(name: &str, marker: &str, existing: Option<&str>, force: bool) -> (r: Result<HookStep, ForumError>)
    ensures
        match existing {
            Some(c) if crate::text::contains_seq(c@, marker@) => (r matches Ok(HookStep::Leave(m)) && m@
                == "git-forum: "@ + name@ + " hook already installed"@),
            Some(_) if !force => (r matches Err(ForumError::Config(m)) && m@ == name@
                + " hook already exists; use --force to overwrite"@),
            _ => (r matches Ok(HookStep::Act(m)) && m@ == "git-forum: "@ + name@ + " hook installed"@),
        },
{
    match existing {
        Some(c) => {
            let cs = chars_of(c);
            let mk = chars_of(marker);
            if contains_exec(cs.as_slice(), mk.as_slice()) {
                let mut v = chars_of("git-forum: ");
                push_str(&mut v, name);
                push_str(&mut v, " hook already installed");
                return Ok(HookStep::Leave(string_of(v.as_slice())));
            }
            if !force {
                let mut v = chars_of(name);
                push_str(&mut v, " hook already exists; use --force to overwrite");
                return Err(ForumError::Config(string_of(v.as_slice())));
            }
        },
        None => {},
    }
    let mut v = chars_of("git-forum: ");
    push_str(&mut v, name);
    push_str(&mut v, " hook installed");
    Ok(HookStep::Act(string_of(v.as_slice())))
}

/// Removing a hook given what its file holds (`None`: no file): nothing
/// to do without a file; a file without the marker is refused; otherwise
/// it is removed.
pub fn uninstall_step(name: &str, marker: &str, existing: Option<&str>) -> (r: Result<HookStep, ForumError>)
    ensures
        match existing {
            None => (r matches Ok(HookStep::Leave(m)) && m@ == "git-forum: no "@ + name@ + " hook installed"@),
            Some(c) => if crate::text::contains_seq(c@, marker@) {
                (r matches Ok(HookStep::Act(m)) && m@ == "git-forum: "@ + name@ + " hook removed"@)
            } else {
                (r matches Err(ForumError::Config(m)) && m@ == name@
                    + " hook was not installed by git-forum; refusing to remove"@)
            },
        },
{
    match existing {
        None => {
            let mut v = chars_of("git-forum: no ");
            push_str(&mut v, name);
            push_str(&mut v, " hook installed");
            Ok(HookStep::Leave(string_of(v.as_slice())))
        },
        Some(c) => {
            let cs = chars_of(c);
            let mk = chars_of(marker);
            if contains_exec(cs.as_slice(), mk.as_slice()) {
                let mut v = chars_of("git-forum: ");
                push_str(&mut v, name);
                push_str(&mut v, " hook removed");
                Ok(HookStep::Act(string_of(v.as_slice())))
            } else {
                let mut v = chars_of(name);
                push_str(&mut v, " hook was not installed by git-forum; refusing to remove");
                Err(ForumError::Config(string_of(v.as_slice())))
            }
        },
    }
}

/// Result of running fix-index.
pub struct FixIndexResult {
    /// `(path, old_sha)` pairs re-hashed from the working tree.
    pub fixed: Vec<(String, String)>,
    /// `(path, sha)` pairs whose blob is missing with no working-tree copy.
    pub warnings: Vec<(String, String)>,
}

/// The `local.toml` a new worktree starts with: comments, and the clone's
/// default actor.
pub open spec fn local_toml(default_actor: Seq<char>) -> Seq<char> {
    "# git-forum local config (per-clone, not committed)\n\n# Default actor ID for this clone.\n# Override per-command with --as or GIT_FORUM_ACTOR env var.\ndefault_actor = \""@
        + default_actor
        + "\"\n\n# Override git commit author/committer on forum commits.\n# Uncomment to use a pseudonym instead of git config user.name/email.\n# [commit_identity]\n# name = \"pseudonym\"\n# email = \"pseudonym@example.com\"\n"@
}

/// Write the `local.toml` of a new worktree (see [`local_toml`]).
pub fn local_toml_text(default_actor: &str) -> (r: String)
    ensures
        r@ == local_toml(default_actor@),
{
    let mut v = chars_of(
        "# git-forum local config (per-clone, not committed)\n\n# Default actor ID for this clone.\n# Override per-command with --as or GIT_FORUM_ACTOR env var.\ndefault_actor = \"",
    );
    push_str(&mut v, default_actor);
    push_str(
        &mut v,
        "\"\n\n# Override git commit author/committer on forum commits.\n# Uncomment to use a pseudonym instead of git config user.name/email.\n# [commit_identity]\n# name = \"pseudonym\"\n# email = \"pseudonym@example.com\"\n",
    );
    string_of(v.as_slice())
}

// ---------------------------------------------------------------------------
// Index blob repair
// ---------------------------------------------------------------------------

/// The non-empty pieces of `ps`, in order.
pub open spec fn nonempty_pieces(ps: Seq<Seq<char>>) -> Seq<Seq<char>>
    decreases ps.len(),
{
    if ps.len() == 0 {
        seq![]
    } else {
        let r = nonempty_pieces(ps.drop_last());
        if ps.last().len() > 0 {
            r.push(ps.last())
        } else {
            r
        }
    }
}

/// `str::split_whitespace`.
pub open spec fn words_of(s: Seq<char>) -> Seq<Seq<char>> {
    nonempty_pieces(split(s, Sep::Space))
}

/// One entry of `git ls-files --stage` (`mode sha stage<TAB>path`, when
/// `tree` is false) or of `git ls-tree -r` (`mode blob sha<TAB>path`, when
/// `tree` is true): its path and blob SHA; `None` for any other line.
pub open spec fn listed_entry(line: Seq<char>, tree: bool) -> Option<(Seq<char>, Seq<char>)> {
    match find_char(line, '\t', 0) {
        Some(t) => {
            let ws = words_of(line.take(t as int));
            let path = line.skip(t + 1 as int);
            if !tree && ws.len() >= 2 {
                Some((path, ws[1]))
            } else if tree && ws.len() >= 3 && ws[1] == "blob"@ {
                Some((path, ws[2]))
            } else {
                None
            }
        },
        None => None,
    }
}

/// The entries of a listing, in order (see [`listed_entry`]).
pub open spec fn listed_entries(ls: Seq<Seq<char>>, tree: bool) -> Seq<(Seq<char>, Seq<char>)>
    decreases ls.len(),
{
    if ls.len() == 0 {
        seq![]
    } else {
        let r = listed_entries(ls.drop_last(), tree);
        match listed_entry(ls.last(), tree) {
            Some(e) => r.push(e),
            None => r,
        }
    }
}

pub open spec fn pair_strs(v: Seq<(String, String)>) -> Seq<(Seq<char>, Seq<char>)> {
    Seq::new(v.len(), |i: int| (v[i].0@, v[i].1@))
}

fn words_exec(s: &[char]) -> (r: Vec<Vec<char>>)
    ensures
        views(r@) == words_of(s@),
{
    let ps = split_exec(s, Sep::Space);
    let mut out: Vec<Vec<char>> = Vec::new();
    let mut i: usize = 0;
    while i < ps.len()
        invariant
            i <= ps@.len(),
            views(ps@) == split(s@, Sep::Space),
            views(out@) == nonempty_pieces(views(ps@).take(i as int)),
        decreases ps@.len() - i,
    {
        proof {
            assert(views(ps@).take(i + 1).drop_last() =~= views(ps@).take(i as int));
            assert(views(ps@).take(i + 1).last() == ps@[i as int]@);
        }
        if ps[i].len() > 0 {
            let ghost before = views(out@);
            out.push(ps[i].clone());
            proof {
                assert(views(out@) =~= before.push(ps@[i as int]@));
            }
        }
        i += 1;
    }
    proof {
        assert(views(ps@).take(i as int) =~= views(ps@));
    }
    out
}

fn listed_entry_exec(line: &Vec<char>, tree: bool) -> (r: Option<(String, String)>)
    ensures
        match r {
            Some(e) => listed_entry(line@, tree) == Some((e.0@, e.1@)),
            None => listed_entry(line@, tree) is None,
        },
{
    match crate::internal::id_alloc::find_char_exec(line.as_slice(), '\t') {
        Some(t) => {
            let n = line.len();
            assert(t < n);
            let head = slice_range(line.as_slice(), 0, t);
            let path = slice_range(line.as_slice(), t + 1, n);
            let ws = words_exec(head.as_slice());
            proof {
                assert(head@ =~= line@.take(t as int));
                assert(path@ =~= line@.skip(t + 1));
                assert(views(ws@).len() == ws@.len());
            }
            if !tree && ws.len() >= 2 {
                proof {
                    assert(views(ws@)[1] == ws@[1]@);
                }
                Some((string_of(path.as_slice()), string_of(ws[1].as_slice())))
            } else if tree && ws.len() >= 3 && crate::text::chars_eq_str(ws[1].as_slice(), "blob") {
                proof {
                    assert(views(ws@)[1] == ws@[1]@);
                    assert(views(ws@)[2] == ws@[2]@);
                }
                Some((string_of(path.as_slice()), string_of(ws[2].as_slice())))
            } else {
                proof {
                    if tree && ws@.len() >= 3 {
                        assert(views(ws@)[1] == ws@[1]@);
                    }
                }
                None
            }
        },
        None => None,
    }
}

/// The `(path, sha)` entries of a `git ls-files --stage` listing (`tree`
/// false) or of a `git ls-tree -r` listing (`tree` true), in order.
pub fn listed_blobs(listing: &str, tree: bool) -> (r: Vec<(String, String)>)
    ensures
        pair_strs(r@) == listed_entries(lines(listing@), tree),
{
    let cs = chars_of(listing);
    let ls = lines_of(cs.as_slice());
    let mut out: Vec<(String, String)> = Vec::new();
    let mut i: usize = 0;
    while i < ls.len()
        invariant
            i <= ls@.len(),
            views(ls@) == lines(listing@),
            pair_strs(out@) == listed_entries(views(ls@).take(i as int), tree),
        decreases ls@.len() - i,
    {
        proof {
            assert(views(ls@).take(i + 1).drop_last() =~= views(ls@).take(i as int));
            assert(views(ls@).take(i + 1).last() == ls@[i as int]@);
        }
        match listed_entry_exec(&ls[i], tree) {
            Some(e) => {
                let ghost before = pair_strs(out@);
                let ghost ev = (e.0@, e.1@);
                out.push(e);
                proof {
                    assert(pair_strs(out@) =~= before.push(ev));
                }
            },
            None => {},
        }
        i += 1;
    }
    proof {
        assert(views(ls@).take(i as int) =~= views(ls@));
    }
    out
}

/// One listed blob with what was found of it: whether its object is
/// missing, and whether its path has a working-tree file.
pub struct BlobCheck {
    pub path: String,
    pub sha: String,
    pub missing: bool,
    pub on_disk: bool,
}

pub open spec fn check_view(c: BlobCheck) -> (Seq<char>, Seq<char>, bool, bool) {
    (c.path@, c.sha@, c.missing, c.on_disk)
}

/// The repair so far: re-hashed `(path, sha)` pairs, and the missing
/// blobs that have no working-tree copy.
pub open spec fn repair_fold(
    fixed: Seq<(Seq<char>, Seq<char>)>,
    warnings: Seq<(Seq<char>, Seq<char>)>,
    cs: Seq<(Seq<char>, Seq<char>, bool, bool)>,
    skip_fixed: bool,
) -> (Seq<(Seq<char>, Seq<char>)>, Seq<(Seq<char>, Seq<char>)>)
    decreases cs.len(),
{
    if cs.len() == 0 {
        (fixed, warnings)
    } else {
        let (f, w) = repair_fold(fixed, warnings, cs.drop_last(), skip_fixed);
        let c = cs.last();
        if !c.2 {
            (f, w)
        } else if skip_fixed && exists|k: int| 0 <= k < f.len() && #[trigger] f[k].0 == c.0 {
            (f, w)
        } else if c.3 {
            (f.push((c.0, c.1)), w)
        } else {
            (f, w.push((c.0, c.1)))
        }
    }
}

/// The repair of the index and then of `HEAD`'s tree: a missing blob
/// with a working-tree copy is re-hashed, one without is a warning; a
/// `HEAD` entry whose path was already re-hashed is skipped.
pub open spec fn repair_of(
    index: Seq<(Seq<char>, Seq<char>, bool, bool)>,
    head: Seq<(Seq<char>, Seq<char>, bool, bool)>,
) -> (Seq<(Seq<char>, Seq<char>)>, Seq<(Seq<char>, Seq<char>)>) {
    let (f, w) = repair_fold(seq![], seq![], index, false);
    repair_fold(f, w, head, true)
}

fn fixed_has_path(fixed: &Vec<(String, String)>, path: &str) -> (r: bool)
    ensures
        r == exists|k: int| 0 <= k < fixed@.len() && #[trigger] pair_strs(fixed@)[k].0 == path@,
{
    let mut k: usize = 0;
    while k < fixed.len()
        invariant
            k <= fixed@.len(),
            forall|j: int| 0 <= j < k ==> #[trigger] pair_strs(fixed@)[j].0 != path@,
        decreases fixed@.len() - k,
    {
        if str_eq(fixed[k].0.as_str(), path) {
            proof {
                assert(pair_strs(fixed@)[k as int].0 == fixed@[k as int].0@);
            }
            return true;
        }
        k += 1;
    }
    false
}

fn repair_pass(fixed: &mut Vec<(String, String)>, warnings: &mut Vec<(String, String)>, cs: &Vec<BlobCheck>, skip_fixed: bool)
    ensures
        (pair_strs(final(fixed)@), pair_strs(final(warnings)@)) == repair_fold(
            pair_strs(old(fixed)@),
            pair_strs(old(warnings)@),
            Seq::new(cs@.len(), |i: int| check_view(cs@[i])),
            skip_fixed,
        ),
{
    let ghost f0 = pair_strs(fixed@);
    let ghost w0 = pair_strs(warnings@);
    let ghost cv = Seq::new(cs@.len(), |i: int| check_view(cs@[i]));
    let mut i: usize = 0;
    while i < cs.len()
        invariant
            i <= cs@.len(),
            cv == Seq::new(cs@.len(), |i: int| check_view(cs@[i])),
            (pair_strs(fixed@), pair_strs(warnings@)) == repair_fold(f0, w0, cv.take(i as int), skip_fixed),
        decreases cs@.len() - i,
    {
        proof {
            assert(cv.take(i + 1).drop_last() =~= cv.take(i as int));
            assert(cv.take(i + 1).last() == check_view(cs@[i as int]));
        }
        let c = &cs[i];
        if c.missing {
            let skip = skip_fixed && fixed_has_path(fixed, c.path.as_str());
            if !skip {
                let e = (string_from(c.path.as_str()), string_from(c.sha.as_str()));
                if c.on_disk {
                    let ghost before = pair_strs(fixed@);
                    fixed.push(e);
                    proof {
                        assert(pair_strs(fixed@) =~= before.push((c.path@, c.sha@)));
                    }
                } else {
                    let ghost before = pair_strs(warnings@);
                    warnings.push(e);
                    proof {
                        assert(pair_strs(warnings@) =~= before.push((c.path@, c.sha@)));
                    }
                }
            }
        }
        i += 1;
    }
    proof {
        assert(cv.take(i as int) =~= cv);
    }
}

/// The result of repairing the index blobs from what was found of the
/// index entries and then of `HEAD`'s tree entries (see [`repair_of`]).
pub fn index_repair(index: &Vec<BlobCheck>, head: &Vec<BlobCheck>) -> (r: FixIndexResult)
    ensures
        (pair_strs(r.fixed@), pair_strs(r.warnings@)) == repair_of(
            Seq::new(index@.len(), |i: int| check_view(index@[i])),
            Seq::new(head@.len(), |i: int| check_view(head@[i])),
        ),
{
    let mut fixed: Vec<(String, String)> = Vec::new();
    let mut warnings: Vec<(String, String)> = Vec::new();
    proof {
        assert(pair_strs(fixed@) =~= Seq::<(Seq<char>, Seq<char>)>::empty());
        assert(pair_strs(warnings@) =~= Seq::<(Seq<char>, Seq<char>)>::empty());
    }
    repair_pass(&mut fixed, &mut warnings, index, false);
    repair_pass(&mut fixed, &mut warnings, head, true);
    FixIndexResult { fixed, warnings }
}

/// Result of checking a commit message for thread references.
pub struct HookCheckResult {
    pub found_ids: Vec<String>,
    pub missing_ids: Vec<String>,
}

impl HookCheckResult {
    /// Whether some referenced thread is missing.
    pub fn has_errors(&self) -> (r: bool)
        ensures
            r == (self.missing_ids@.len() > 0),
    {
        self.missing_ids.len() > 0
    }
}

/// The refs under which a referenced thread counts as existing, in the
/// order they are tried: its own ref, its published mirror (all a
/// public-only clone has), and its post-migration alias.
pub fn thread_ref_candidates(id: &str) -> (r: Vec<String>)
    ensures
        strs(r@) == seq![
            "refs/forum/threads/"@ + id@,
            "refs/forum/published/"@ + id@,
            "refs/forum/aliases/"@ + id@,
        ],
{
    let mut out: Vec<String> = Vec::new();
    let mut a = chars_of("refs/forum/threads/");
    push_str(&mut a, id);
    out.push(string_of(a.as_slice()));
    let mut b = chars_of("refs/forum/published/");
    push_str(&mut b, id);
    out.push(string_of(b.as_slice()));
    out.push(crate::internal::commands::migrate::alias_ref(id));
    proof {
        assert(strs(out@) =~= seq![
            "refs/forum/threads/"@ + id@,
            "refs/forum/published/"@ + id@,
            "refs/forum/aliases/"@ + id@,
        ]);
    }
    out
}

/// The IDs of `ids` whose flag in `present` is `want`, in order.
pub open spec fn ids_where(ids: Seq<Seq<char>>, present: Seq<bool>, want: bool) -> Seq<Seq<char>>
    decreases ids.len(),
{
    if ids.len() == 0 || present.len() != ids.len() {
        seq![]
    } else {
        let prev = ids_where(ids.drop_last(), present.drop_last(), want);
        if present.last() == want {
            prev.push(ids.last())
        } else {
            prev
        }
    }
}

/// Law: a check has errors exactly when some referenced thread was not
/// found; every ID lands in exactly one of the two lists.
pub proof fn lemma_missing_iff_absent(ids: Seq<Seq<char>>, present: Seq<bool>)
    requires
        ids.len() == present.len(),
    ensures
        ids_where(ids, present, false).len() > 0 <==> exists|i: int| 0 <= i < present.len() && !#[trigger] present[i],
        ids_where(ids, present, true).len() + ids_where(ids, present, false).len() == ids.len(),
    decreases ids.len(),
{
    if ids.len() > 0 {
        lemma_missing_iff_absent(ids.drop_last(), present.drop_last());
        let p = present.drop_last();
        if exists|i: int| 0 <= i < p.len() && !#[trigger] p[i] {
            let i = choose|i: int| 0 <= i < p.len() && !#[trigger] p[i];
            assert(!present[i]);
        }
        if exists|i: int| 0 <= i < present.len() && !#[trigger] present[i] {
            let i = choose|i: int| 0 <= i < present.len() && !#[trigger] present[i];
            if i < p.len() {
                assert(!p[i]);
            }
        }
    }
}

/// Sort the referenced IDs into found and missing, keeping their order;
/// `present[i]` says whether one of the refs of
/// [`thread_ref_candidates`] resolves for `ids[i]`.
pub fn check_thread_refs(ids: &Vec<String>, present: &Vec<bool>) -> (r: HookCheckResult)
    requires
        ids@.len() == present@.len(),
    ensures
        strs(r.found_ids@) == ids_where(strs(ids@), present@, true),
        strs(r.missing_ids@) == ids_where(strs(ids@), present@, false),
{
    let mut found_ids: Vec<String> = Vec::new();
    let mut missing_ids: Vec<String> = Vec::new();
    let mut i: usize = 0;
    while i < ids.len()
        invariant
            i <= ids@.len(),
            ids@.len() == present@.len(),
            strs(found_ids@) == ids_where(strs(ids@).take(i as int), present@.take(i as int), true),
            strs(missing_ids@) == ids_where(strs(ids@).take(i as int), present@.take(i as int), false),
        decreases ids@.len() - i,
    {
        proof {
            assert(strs(ids@).take(i + 1).drop_last() =~= strs(ids@).take(i as int));
            assert(present@.take(i + 1).drop_last() =~= present@.take(i as int));
            assert(strs(ids@).take(i + 1).last() == ids@[i as int]@);
        }
        let ghost f0 = strs(found_ids@);
        let ghost m0 = strs(missing_ids@);
        let copy = string_of(chars_of(ids[i].as_str()).as_slice());
        if present[i] {
            found_ids.push(copy);
            proof {
                assert(strs(found_ids@) =~= f0.push(ids@[i as int]@));
            }
        } else {
            missing_ids.push(copy);
            proof {
                assert(strs(missing_ids@) =~= m0.push(ids@[i as int]@));
            }
        }
        i += 1;
    }
    proof {
        assert(strs(ids@).take(i as int) =~= strs(ids@));
        assert(present@.take(i as int) =~= present@);
    }
    HookCheckResult { found_ids, missing_ids }
}

/// Strip Git comment lines and the scissors section from a commit message.
pub fn strip_comments(message: &str, comment_char: char) -> (r: String)
    ensures
        r@ == crate::internal::hook::stripped_message(message@, comment_char),
{
    crate::internal::hook::strip_comments(message, comment_char)
}

// ---------------------------------------------------------------------------
// `Refs:` trailers
// ---------------------------------------------------------------------------

/// A string that names a thread in a commit message: a thread ID of
/// either format, or the bare token that migrated threads go by.
pub open spec fn valid_id(s: Seq<char>) -> bool {
    opaque_id(s) || sequential_id(s) || is_token(s)
}

/// Whether `s` names a thread in a commit message (see [`valid_id`]).
pub fn names_thread(s: &str) -> (r: bool)
    ensures
        r == valid_id(s@),
{
    is_valid_thread_id(s) || is_bare_token(s)
}

/// The elements of `s` that name a thread, in order.
pub open spec fn valid_only(s: Seq<Seq<char>>) -> Seq<Seq<char>>
    decreases s.len(),
{
    if s.len() == 0 {
        seq![]
    } else if valid_id(s.last()) {
        valid_only(s.drop_last()).push(s.last())
    } else {
        valid_only(s.drop_last())
    }
}

/// The distinct thread names among `s`, in order of first appearance.
pub open spec fn distinct_ids(s: Seq<Seq<char>>) -> Seq<Seq<char>> {
    dedup(valid_only(s))
}

/// A token without one leading `@`.
pub open spec fn strip_at(t: Seq<char>) -> Seq<char> {
    if t.len() > 0 && t[0] == '@' {
        t.drop_first()
    } else {
        t
    }
}

/// The candidate IDs of one trailer line: the `@`-stripped pieces of its
/// value, split at commas and whitespace, when the key (before the first
/// `:`, trimmed) is `refs` in any ASCII case; nothing otherwise.
pub open spec fn trailer_tokens(line: Seq<char>) -> Seq<Seq<char>> {
    match find_char(line, ':', 0) {
        Some(i) => if eq_ignore_ascii_case(trim(line.take(i as int)), "refs"@) {
            split(line.skip(i + 1 as int), Sep::CommaOrSpace).map_values(|t: Seq<char>| strip_at(t))
        } else {
            seq![]
        },
        None => seq![],
    }
}

/// The candidate IDs of all trailer lines, in order.
pub open spec fn trailer_candidates(ls: Seq<Seq<char>>) -> Seq<Seq<char>>
    decreases ls.len(),
{
    if ls.len() == 0 {
        seq![]
    } else {
        trailer_candidates(ls.drop_last()) + trailer_tokens(ls.last())
    }
}

/// The thread IDs named by the `Refs:` trailers of parsed trailer text.
pub open spec fn refs_ids(parsed: Seq<char>) -> Seq<Seq<char>> {
    distinct_ids(trailer_candidates(lines(parsed)))
}

proof fn lemma_valid_only_contains(s: Seq<Seq<char>>)
    ensures
        forall|x: Seq<char>| #![trigger valid_only(s).contains(x)] valid_only(s).contains(x) <==> (s.contains(x) && valid_id(x)),
    decreases s.len(),
{
    if s.len() > 0 {
        let p = s.drop_last();
        lemma_valid_only_contains(p);
        assert(s =~= p.push(s.last()));
        assert forall|x: Seq<char>| #![trigger valid_only(s).contains(x)] valid_only(s).contains(x) <==> (s.contains(x) && valid_id(x)) by {
            if valid_id(s.last()) {
                let v = valid_only(p).push(s.last());
                if v.contains(x) {
                    let k = choose|k: int| 0 <= k < v.len() && v[k] == x;
                    if k < valid_only(p).len() {
                        assert(valid_only(p)[k] == x);
                        assert(valid_only(p).contains(x));
                        assert(p.contains(x));
                        let j = choose|j: int| 0 <= j < p.len() && p[j] == x;
                        assert(p.push(s.last())[j] == p[j]);
                        assert(s[j] == x);
                    } else {
                        assert(s[s.len() - 1] == x);
                    }
                }
                if s.contains(x) && valid_id(x) {
                    let j = choose|j: int| 0 <= j < s.len() && s[j] == x;
                    if j < p.len() {
                        assert(p.push(s.last())[j] == p[j]);
                        assert(p[j] == x);
                        assert(p.contains(x));
                        assert(valid_only(p).contains(x));
                        let k = choose|k: int| 0 <= k < valid_only(p).len() && valid_only(p)[k] == x;
                        assert(v[k] == x);
                    } else {
                        assert(v[v.len() - 1] == x);
                    }
                }
            } else {
                if valid_only(p).contains(x) {
                    assert(p.contains(x));
                    let j = choose|j: int| 0 <= j < p.len() && p[j] == x;
                    assert(p.push(s.last())[j] == p[j]);
                    assert(s[j] == x);
                }
                if s.contains(x) && valid_id(x) {
                    let j = choose|j: int| 0 <= j < s.len() && s[j] == x;
                    if j < p.len() {
                        assert(p.push(s.last())[j] == p[j]);
                        assert(p[j] == x);
                        assert(p.contains(x));
                    }
                }
            }
        }
    }
}

proof fn lemma_candidates_contains(ls: Seq<Seq<char>>)
    ensures
        forall|x: Seq<char>|
            trailer_candidates(ls).contains(x) <==> exists|k: int|
                0 <= k < ls.len() && #[trigger] trailer_tokens(ls[k]).contains(x),
    decreases ls.len(),
{
    if ls.len() > 0 {
        let p = ls.drop_last();
        lemma_candidates_contains(p);
        let a = trailer_candidates(p);
        let b = trailer_tokens(ls.last());
        assert forall|x: Seq<char>|
            trailer_candidates(ls).contains(x) <==> exists|k: int|
                0 <= k < ls.len() && #[trigger] trailer_tokens(ls[k]).contains(x) by {
            let c = a + b;
            if c.contains(x) {
                let i = choose|i: int| 0 <= i < c.len() && c[i] == x;
                if i < a.len() {
                    assert(a[i] == x);
                    assert(a.contains(x));
                    let k = choose|k: int| 0 <= k < p.len() && #[trigger] trailer_tokens(p[k]).contains(x);
                    assert(ls[k] == p[k]);
                } else {
                    assert(b[i - a.len()] == x);
                    assert(b.contains(x));
                    assert(ls[ls.len() - 1] == ls.last());
                }
            }
            if exists|k: int| 0 <= k < ls.len() && #[trigger] trailer_tokens(ls[k]).contains(x) {
                let k = choose|k: int| 0 <= k < ls.len() && #[trigger] trailer_tokens(ls[k]).contains(x);
                if k < p.len() {
                    assert(p[k] == ls[k]);
                    assert(trailer_tokens(p[k]).contains(x));
                    assert(a.contains(x));
                    let i = choose|i: int| 0 <= i < a.len() && a[i] == x;
                    assert(c[i] == x);
                } else {
                    assert(ls[k] == ls.last());
                    let i = choose|i: int| 0 <= i < b.len() && b[i] == x;
                    assert(c[a.len() + i] == x);
                }
            }
        }
    }
}

/// Law: the IDs of the `Refs:` trailers are distinct, and a string is
/// among them exactly when it names a thread and is a candidate of some
/// trailer line (see [`trailer_tokens`]).
pub proof fn lemma_refs_ids(parsed: Seq<char>)
    ensures
        no_dups(refs_ids(parsed)),
        forall|x: Seq<char>|
            #![trigger refs_ids(parsed).contains(x)]
            refs_ids(parsed).contains(x) <==> valid_id(x) && exists|k: int|
                0 <= k < lines(parsed).len() && #[trigger] trailer_tokens(lines(parsed)[k]).contains(x),
{
    let c = trailer_candidates(lines(parsed));
    lemma_dedup(valid_only(c));
    lemma_valid_only_contains(c);
    lemma_candidates_contains(lines(parsed));
    assert forall|x: Seq<char>|
        #![trigger refs_ids(parsed).contains(x)]
        refs_ids(parsed).contains(x) <==> valid_id(x) && exists|k: int|
            0 <= k < lines(parsed).len() && #[trigger] trailer_tokens(lines(parsed)[k]).contains(x) by {
        assert(refs_ids(parsed).contains(x) <==> valid_only(c).contains(x));
        assert(valid_only(c).contains(x) <==> (c.contains(x) && valid_id(x)));
        assert(c.contains(x) <==> exists|k: int|
            0 <= k < lines(parsed).len() && #[trigger] trailer_tokens(lines(parsed)[k]).contains(x));
    }
}

/// `valid_only` of an extended sequence.
proof fn lemma_valid_only_push(s: Seq<Seq<char>>, x: Seq<char>)
    ensures
        valid_only(s.push(x)) == (if valid_id(x) { valid_only(s).push(x) } else { valid_only(s) }),
{
    assert(s.push(x).drop_last() =~= s);
}

/// Feed `cands` through the valid-and-new filter into `found`.
fn add_valid_ids(found: &mut Vec<Vec<char>>, cands: &Vec<Vec<char>>, Ghost(before): Ghost<Seq<Seq<char>>>)
    requires
        views(old(found)@) == distinct_ids(before),
    ensures
        views(final(found)@) == distinct_ids(before + views(cands@)),
{
    let mut j: usize = 0;
    proof {
        assert(before + views(cands@).take(0) =~= before);
    }
    while j < cands.len()
        invariant
            j <= cands@.len(),
            views(found@) == distinct_ids(before + views(cands@).take(j as int)),
        decreases cands@.len() - j,
    {
        let ghost prev = before + views(cands@).take(j as int);
        let ghost x = cands@[j as int]@;
        proof {
            assert(before + views(cands@).take(j + 1) =~= prev.push(x));
            lemma_valid_only_push(prev, x);
            assert(valid_only(prev).push(x).drop_last() =~= valid_only(prev));
        }
        let t = string_of(cands[j].as_slice());
        if names_thread(t.as_str()) {
            push_new_exec(found, cands[j].clone());
        }
        j += 1;
    }
    proof {
        assert(views(cands@).take(j as int) =~= views(cands@));
    }
}

fn strip_at_exec(t: &Vec<char>) -> (r: Vec<char>)
    ensures
        r@ == strip_at(t@),
{
    if t.len() > 0 && t[0] == '@' {
        slice_range(t.as_slice(), 1, t.len())
    } else {
        t.clone()
    }
}

fn trailer_tokens_exec(line: &Vec<char>) -> (r: Vec<Vec<char>>)
    ensures
        views(r@) == trailer_tokens(line@),
{
    let mut out: Vec<Vec<char>> = Vec::new();
    let mut i: usize = 0;
    while i < line.len() && line[i] != ':'
        invariant
            i <= line@.len(),
            forall|t: int| 0 <= t < i ==> line@[t] != ':',
        decreases line@.len() - i,
    {
        i += 1;
    }
    proof {
        lemma_find_char_first(line@, ':', i as nat);
    }
    if i == line.len() {
        return out;
    }
    let key = slice_range(line.as_slice(), 0, i);
    let key_t = trim_chars(key.as_slice());
    let refs = chars_of("refs");
    if !eq_ignore_ascii_case_exec(key_t.as_slice(), refs.as_slice()) {
        return out;
    }
    let value = slice_range(line.as_slice(), i + 1, line.len());
    proof {
        assert(value@ =~= line@.skip(i + 1 as int));
    }
    let pieces = split_exec(value.as_slice(), Sep::CommaOrSpace);
    let mut k: usize = 0;
    while k < pieces.len()
        invariant
            k <= pieces@.len(),
            out@.len() == k,
            forall|t: int| 0 <= t < k ==> #[trigger] out@[t]@ == strip_at(pieces@[t]@),
        decreases pieces@.len() - k,
    {
        out.push(strip_at_exec(&pieces[k]));
        k += 1;
    }
    proof {
        assert(views(out@) =~= views(pieces@).map_values(|t: Seq<char>| strip_at(t)));
    }
    out
}

proof fn lemma_find_char_first(s: Seq<char>, c: char, i: nat)
    requires
        i <= s.len(),
        forall|t: int| 0 <= t < i ==> s[t] != c,
        i == s.len() || s[i as int] == c,
    ensures
        find_char(s, c, 0) == (if i == s.len() { None } else { Some(i) }),
{
    lemma_find_char_from(s, c, 0, i);
}

proof fn lemma_find_char_from(s: Seq<char>, c: char, from: nat, i: nat)
    requires
        from <= i <= s.len(),
        forall|t: int| from <= t < i ==> s[t] != c,
        i == s.len() || s[i as int] == c,
    ensures
        find_char(s, c, from) == (if i == s.len() { None } else { Some(i) }),
    decreases i - from,
{
    if from < i {
        lemma_find_char_from(s, c, from + 1, i);
    }
}

/// Thread IDs in the `Refs:` trailers of `git interpret-trailers --parse`
/// output (one `Key: value` line per trailer): the key matches in any
/// ASCII case, a value may list several IDs separated by commas or
/// whitespace, each optionally with a leading `@`; non-ID tokens are
/// ignored; each ID is kept once, in trailer order.
pub fn refs_trailer_ids(parsed_trailers: &str) -> (r: Vec<String>)
    ensures
        strs(r@) == refs_ids(parsed_trailers@),
{
    let cs = chars_of(parsed_trailers);
    let ls = lines_of(cs.as_slice());
    let mut found: Vec<Vec<char>> = Vec::new();
    let mut i: usize = 0;
    proof {
        assert(views(ls@).take(0) =~= Seq::<Seq<char>>::empty());
        assert(distinct_ids(Seq::<Seq<char>>::empty()) =~= Seq::<Seq<char>>::empty());
    }
    while i < ls.len()
        invariant
            i <= ls@.len(),
            views(ls@) == lines(parsed_trailers@),
            views(found@) == distinct_ids(trailer_candidates(views(ls@).take(i as int))),
        decreases ls@.len() - i,
    {
        let toks = trailer_tokens_exec(&ls[i]);
        proof {
            assert(views(ls@).take(i + 1).drop_last() =~= views(ls@).take(i as int));
        }
        add_valid_ids(&mut found, &toks, Ghost(trailer_candidates(views(ls@).take(i as int))));
        i += 1;
    }
    proof {
        assert(views(ls@).take(i as int) =~= views(ls@));
    }
    to_strings(&found)
}

// ---------------------------------------------------------------------------
// ID-shaped tokens (for the warning's suggestion only)
// ---------------------------------------------------------------------------

/// The candidates one word contributes: the word if it names a thread,
/// else its `-`-separated pieces.
pub open spec fn word_candidates(w: Seq<char>) -> Seq<Seq<char>> {
    if valid_id(w) {
        seq![w]
    } else {
        split(w, Sep::Dash)
    }
}

pub open spec fn shaped_candidates(ws: Seq<Seq<char>>) -> Seq<Seq<char>>
    decreases ws.len(),
{
    if ws.len() == 0 {
        seq![]
    } else {
        shaped_candidates(ws.drop_last()) + word_candidates(ws.last())
    }
}

/// Thread-ID-shaped tokens of a message: its words (runs of ASCII
/// letters, digits and `-`), or the `-`-pieces of a word that is not an
/// ID; each once, in order.
pub open spec fn shaped_ids(m: Seq<char>) -> Seq<Seq<char>> {
    distinct_ids(shaped_candidates(split(m, Sep::NonIdChar)))
}

/// Thread-ID-shaped tokens anywhere in a commit message, deduplicated in
/// order (see [`shaped_ids`]). They only feed the no-trailer warning's
/// suggestion; they are never treated as references.
pub fn id_shaped_tokens(message: &str) -> (r: Vec<String>)
    ensures
        strs(r@) == shaped_ids(message@),
{
    let cs = chars_of(message);
    let words = split_exec(cs.as_slice(), Sep::NonIdChar);
    let mut found: Vec<Vec<char>> = Vec::new();
    let mut i: usize = 0;
    proof {
        assert(views(words@).take(0) =~= Seq::<Seq<char>>::empty());
        assert(distinct_ids(Seq::<Seq<char>>::empty()) =~= Seq::<Seq<char>>::empty());
    }
    while i < words.len()
        invariant
            i <= words@.len(),
            views(words@) == split(message@, Sep::NonIdChar),
            views(found@) == distinct_ids(shaped_candidates(views(words@).take(i as int))),
        decreases words@.len() - i,
    {
        let w = string_of(words[i].as_slice());
        let cands: Vec<Vec<char>> = if names_thread(w.as_str()) {
            let mut v: Vec<Vec<char>> = Vec::new();
            v.push(words[i].clone());
            proof {
                assert(views(v@) =~= seq![words@[i as int]@]);
            }
            v
        } else {
            split_exec(words[i].as_slice(), Sep::Dash)
        };
        proof {
            assert(views(words@).take(i + 1).drop_last() =~= views(words@).take(i as int));
        }
        add_valid_ids(&mut found, &cands, Ghost(shaped_candidates(views(words@).take(i as int))));
        i += 1;
    }
    proof {
        assert(views(words@).take(i as int) =~= views(words@));
    }
    to_strings(&found)
}

/// The IDs read from trailers are distinct and each names a thread.
pub proof fn lemma_refs_ids_valid(parsed: Seq<char>)
    ensures
        no_dups(refs_ids(parsed)),
        forall|k: int| 0 <= k < refs_ids(parsed).len() ==> valid_id(#[trigger] refs_ids(parsed)[k]),
{
    lemma_distinct_ids_valid(trailer_candidates(lines(parsed)));
}

/// The suggested IDs are distinct and each names a thread.
pub proof fn lemma_shaped_ids_valid(m: Seq<char>)
    ensures
        no_dups(shaped_ids(m)),
        forall|k: int| 0 <= k < shaped_ids(m).len() ==> valid_id(#[trigger] shaped_ids(m)[k]),
{
    lemma_distinct_ids_valid(shaped_candidates(split(m, Sep::NonIdChar)));
}

proof fn lemma_valid_only_valid(s: Seq<Seq<char>>)
    ensures
        forall|x: Seq<char>| valid_only(s).contains(x) ==> valid_id(x),
    decreases s.len(),
{
    if s.len() > 0 {
        lemma_valid_only_valid(s.drop_last());
        assert forall|x: Seq<char>| valid_only(s).contains(x) implies valid_id(x) by {
            let v = valid_only(s.drop_last());
            if valid_id(s.last()) && x != s.last() {
                let k = choose|k: int| 0 <= k < v.push(s.last()).len() && v.push(s.last())[k] == x;
                assert(v[k] == x);
            }
        }
    }
}

proof fn lemma_distinct_ids_valid(s: Seq<Seq<char>>)
    ensures
        no_dups(distinct_ids(s)),
        forall|k: int| 0 <= k < distinct_ids(s).len() ==> valid_id(#[trigger] distinct_ids(s)[k]),
{
    lemma_dedup(valid_only(s));
    lemma_valid_only_valid(s);
    assert forall|k: int| 0 <= k < distinct_ids(s).len() implies valid_id(#[trigger] distinct_ids(s)[k]) by {
        assert(distinct_ids(s).contains(distinct_ids(s)[k]));
    }
}

// ---------------------------------------------------------------------------
// The no-trailer warning
// ---------------------------------------------------------------------------

/// The warning for a commit message whose trailers name no thread. With
/// no suggestion it shows the placeholder; with suggestions it lists them;
/// the evidence command names the suggestion only when there is exactly
/// one.
pub open spec fn no_refs_warning(suggested: Seq<Seq<char>>) -> Seq<char> {
    let head = "git-forum: warning: no thread ID referenced in commit message\n"@
        + "  expected a trailer as the last paragraph of the message:\n"@;
    let listed = join(suggested, ", "@);
    let middle = if suggested.len() == 0 {
        "    Refs: <thread-id>\n"@
            + "  (subject tags such as [<thread-id>] and IDs in body text are not read)\n"@
    } else {
        "    Refs: "@ + listed + "\n"@ + "  ("@ + listed
            + " appears in the subject or body, which are not read)\n"@
    };
    let id = if suggested.len() == 1 {
        suggested[0]
    } else {
        "<thread-id>"@
    };
    head + middle + "  to attach this commit as evidence after committing:\n"@
        + "    git forum evidence add "@ + id + " --kind commit --ref HEAD\n"@
}

/// Render the no-trailer warning (see [`no_refs_warning`]).
pub fn render_no_refs_warning(suggested: &[String]) -> (r: String)
    ensures
        r@ == no_refs_warning(strs(suggested@)),
{
    let ghost sv = strs(suggested@);
    let mut out = chars_of("git-forum: warning: no thread ID referenced in commit message\n");
    push_str(&mut out, "  expected a trailer as the last paragraph of the message:\n");
    let ghost head = out@;
    let parts = from_strings(suggested);
    if suggested.len() == 0 {
        push_str(&mut out, "    Refs: <thread-id>\n");
        push_str(&mut out, "  (subject tags such as [<thread-id>] and IDs in body text are not read)\n");
    } else {
        let sep = chars_of(", ");
        let listed = join_chars(&parts, sep.as_slice());
        push_str(&mut out, "    Refs: ");
        append_chars(&mut out, listed.as_slice());
        push_str(&mut out, "\n");
        push_str(&mut out, "  (");
        append_chars(&mut out, listed.as_slice());
        push_str(&mut out, " appears in the subject or body, which are not read)\n");
    }
    let ghost with_middle = out@;
    push_str(&mut out, "  to attach this commit as evidence after committing:\n");
    push_str(&mut out, "    git forum evidence add ");
    if suggested.len() == 1 {
        proof {
            assert(sv[0] == suggested@[0]@);
        }
        push_str(&mut out, suggested[0].as_str());
    } else {
        push_str(&mut out, "<thread-id>");
    }
    push_str(&mut out, " --kind commit --ref HEAD\n");
    proof {
        let listed = join(sv, ", "@);
        let middle = if sv.len() == 0 {
            "    Refs: <thread-id>\n"@
                + "  (subject tags such as [<thread-id>] and IDs in body text are not read)\n"@
        } else {
            "    Refs: "@ + listed + "\n"@ + "  ("@ + listed
                + " appears in the subject or body, which are not read)\n"@
        };
        assert(with_middle =~= head + middle);
        assert(out@ =~= no_refs_warning(sv));
    }
    string_of(out.as_slice())
}

} // verus!
