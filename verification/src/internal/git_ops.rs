//! Git subprocess support: how a failed write is explained to the user.

use vstd::prelude::*;

use crate::text::{
    chars_of, string_of, push_str, append_chars, lines, lines_of, trim_end, trim_end_chars, contains_seq,
    contains_exec, is_ascii, ascii_lower, string_from,
};

verus! {

/// Unicode lowercase mapping of a string (`str::to_lowercase`).
pub uninterp spec fn lowercase_text(s: Seq<char>) -> Seq<char>;

/// `str::to_lowercase`. Documented as the Unicode `Lowercase` mapping; on
/// an all-ASCII string that is ASCII lowercasing, character by character,
/// which is all this contract claims beyond the name.
#[verifier::external_body]
pub(crate) fn str_to_lowercase(s: &str) -> (r: String)
    ensures
        r@ == lowercase_text(s@),
        (forall|i: int| 0 <= i < s@.len() ==> is_ascii(#[trigger] s@[i])) ==> r@ == s@.map_values(
            |c: char| ascii_lower(c),
        ),
{
    s.to_lowercase()
}

/// The explanation put above git's own words when a write failed.
pub const WRITE_FAILURE_HEADER: &'static str = "forum write failed before updating the thread ref.\n  Git could not write to the object database or ref store.\n  Check repository/object database write permissions, free disk space,\n  and that the repo is not on a read-only file system, then retry the\n  same command.\n  The forum mutation has not been recorded; retrying is safe.\n  underlying git error:\n";

/// The git error fragments that mean the object database or ref store
/// could not be written.
pub open spec fn write_failure_needles() -> Seq<Seq<char>> {
    seq![
        "unable to create temporary file"@,
        "read-only file system"@,
        "unable to add"@,
        "could not write"@,
        "error writing object"@,
        "no space left on device"@,
        "permission denied"@,
        "unable to write"@,
    ]
}

/// Whether lowercased git output names a write failure.
pub open spec fn names_write_failure(lower: Seq<char>) -> bool {
    exists|k: int| 0 <= k < write_failure_needles().len() && contains_seq(lower, #[trigger] write_failure_needles()[k])
}

/// Each line indented by four spaces and ended with a newline.
pub open spec fn indented_lines(ls: Seq<Seq<char>>) -> Seq<char>
    decreases ls.len(),
{
    if ls.len() == 0 {
        Seq::<char>::empty()
    } else {
        indented_lines(ls.drop_last()) + "    "@ + ls.last() + "\n"@
    }
}

/// Git's stderr as shown to the user: unchanged unless (in lowercase) it
/// names a write failure, in which case the explanation comes first and
/// git's lines follow, indented, with trailing whitespace trimmed.
pub open spec fn annotated_stderr(stderr: Seq<char>) -> Seq<char> {
    if names_write_failure(lowercase_text(stderr)) {
        trim_end(WRITE_FAILURE_HEADER@ + indented_lines(lines(stderr)))
    } else {
        stderr
    }
}

fn needle(k: usize) -> (r: &'static str)
    requires
        k < 8,
    ensures
        r@ == write_failure_needles()[k as int],
{
    if k == 0 {
        "unable to create temporary file"
    } else if k == 1 {
        "read-only file system"
    } else if k == 2 {
        "unable to add"
    } else if k == 3 {
        "could not write"
    } else if k == 4 {
        "error writing object"
    } else if k == 5 {
        "no space left on device"
    } else if k == 6 {
        "permission denied"
    } else {
        "unable to write"
    }
}

/// Explain a git write failure (see [`annotated_stderr`]).
pub fn annotate_git_stderr(stderr: &str) -> (r: String)
    ensures
        r@ == annotated_stderr(stderr@),
{
    let lower = str_to_lowercase(stderr);
    let lc = chars_of(lower.as_str());
    let mut hit = false;
    let mut k: usize = 0;
    while k < 8
        invariant
            k <= 8,
            lc@ == lowercase_text(stderr@),
            hit == exists|j: int| 0 <= j < k && contains_seq(lc@, #[trigger] write_failure_needles()[j]),
        decreases 8 - k,
    {
        let nd = chars_of(needle(k));
        if contains_exec(lc.as_slice(), nd.as_slice()) {
            hit = true;
        }
        k += 1;
    }
    if !hit {
        return string_from(stderr);
    }
    let mut out = chars_of(WRITE_FAILURE_HEADER);
    let cs = chars_of(stderr);
    let ls = lines_of(cs.as_slice());
    let ghost head = out@;
    let mut i: usize = 0;
    while i < ls.len()
        invariant
            i <= ls@.len(),
            crate::text::views(ls@) == lines(stderr@),
            out@ == head + indented_lines(crate::text::views(ls@).take(i as int)),
        decreases ls@.len() - i,
    {
        push_str(&mut out, "    ");
        append_chars(&mut out, ls[i].as_slice());
        push_str(&mut out, "\n");
        proof {
            assert(crate::text::views(ls@).take(i + 1).drop_last() =~= crate::text::views(ls@).take(i as int));
        }
        i += 1;
    }
    proof {
        assert(crate::text::views(ls@).take(i as int) =~= lines(stderr@));
    }
    let trimmed = trim_end_chars(out.as_slice());
    string_of(trimmed.as_slice())
}

} // verus!
