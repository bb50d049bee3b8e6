//! Composing a body in the user's editor: which editor runs, the template
//! it opens on, and what is kept of the text it leaves.

use vstd::prelude::*;

use crate::internal::error::ForumError;
use crate::text::{
    append_chars, chars_of, decimal, join, join_to_string, lines, lines_of, push_str, string_of,
    trim, trim_chars, views,
};

verus! {

/// A line that starts with `#`.
pub open spec fn is_comment_line(l: Seq<char>) -> bool {
    l.len() > 0 && l[0] == '#'
}

/// The lines that are not comment lines, in order.
pub open spec fn uncommented(ls: Seq<Seq<char>>) -> Seq<Seq<char>>
    decreases ls.len(),
{
    if ls.len() == 0 {
        seq![]
    } else if is_comment_line(ls[0]) {
        uncommented(ls.drop_first())
    } else {
        seq![ls[0]] + uncommented(ls.drop_first())
    }
}

/// The body kept of edited text: its non-comment lines joined by `\n`,
/// with surrounding whitespace trimmed.
pub open spec fn stripped_body(s: Seq<char>) -> Seq<char> {
    trim(join(uncommented(lines(s)), "\n"@))
}

/// Strip lines starting with `#` and trim surrounding whitespace.
pub fn strip_comments(input: &str) -> (r: String)
    ensures
        r@ == stripped_body(input@),
{
    let cs = chars_of(input);
    let ls = lines_of(cs.as_slice());
    let mut out: Vec<Vec<char>> = Vec::new();
    let mut i: usize = 0;
    proof {
        assert(views(ls@).skip(0) =~= views(ls@));
        assert(views(out@) + uncommented(views(ls@)) =~= uncommented(views(ls@)));
    }
    while i < ls.len()
        invariant
            i <= ls@.len(),
            views(ls@) == lines(input@),
            views(out@) + uncommented(views(ls@).skip(i as int)) == uncommented(lines(input@)),
        decreases ls@.len() - i,
    {
        let ghost rest = views(ls@).skip(i as int);
        proof {
            assert(rest[0] == ls@[i as int]@);
            assert(rest.drop_first() =~= views(ls@).skip(i + 1));
        }
        let line = &ls[i];
        if line.len() > 0 && line[0] == '#' {
            i += 1;
        } else {
            let ghost before = views(out@);
            out.push(ls[i].clone());
            proof {
                assert(views(out@) =~= before.push(rest[0]));
                assert(before + uncommented(rest) =~= views(out@) + uncommented(rest.drop_first()));
            }
            i += 1;
        }
    }
    proof {
        assert(views(ls@).skip(i as int) =~= Seq::<Seq<char>>::empty());
        assert(views(out@) + Seq::<Seq<char>>::empty() =~= views(out@));
    }
    let joined = join_to_string(&out, "\n");
    let jc = chars_of(joined.as_str());
    let t = trim_chars(jc.as_slice());
    string_of(t.as_slice())
}

/// The editor that runs: `$VISUAL`, else `$EDITOR`, else `vi`.
pub open spec fn editor_choice(visual: Option<Seq<char>>, editor: Option<Seq<char>>) -> Seq<char> {
    match visual {
        Some(v) => v,
        None => match editor {
            Some(e) => e,
            None => "vi"@,
        },
    }
}

/// The editor command, from the values of `$VISUAL` and `$EDITOR` (each
/// `None` when unset or not Unicode).
pub fn resolve_editor(visual: Option<String>, editor: Option<String>) -> (r: String)
    ensures
        r@ == editor_choice(
            match visual {
                Some(v) => Some(v@),
                None => None,
            },
            match editor {
                Some(e) => Some(e@),
                None => None,
            },
        ),
{
    match visual {
        Some(v) => v,
        None => match editor {
            Some(e) => e,
            None => crate::text::string_from("vi"),
        },
    }
}

/// The text the editor opens on: an empty first line, then three comment
/// lines carrying the hint.
pub open spec fn template_text(hint: Seq<char>) -> Seq<char> {
    "\n# Lines starting with '#' will be stripped.\n# "@ + hint + "\n# Leave empty to abort.\n"@
}

/// The template written to the file the editor opens.
pub fn editor_template(hint: &str) -> (r: String)
    ensures
        r@ == template_text(hint@),
{
    let mut v = chars_of("\n# Lines starting with '#' will be stripped.\n# ");
    let h = chars_of(hint);
    append_chars(&mut v, h.as_slice());
    push_str(&mut v, "\n# Leave empty to abort.\n");
    string_of(v.as_slice())
}

/// What the edit gives: the stripped body, or the abort error when
/// nothing is left of it.
pub open spec fn edited_body(content: Seq<char>) -> Result<Seq<char>, Seq<char>> {
    let body = stripped_body(content);
    if body.len() == 0 {
        Err("aborted: empty body from editor"@)
    } else {
        Ok(body)
    }
}

/// The body kept of the text the editor left, or `ForumError::Config`
/// when it is empty after stripping comments.
pub fn finish_edit(content: &str) -> (r: Result<String, ForumError>)
    ensures
        match edited_body(content@) {
            Ok(b) => r matches Ok(s) && s@ == b,
            Err(m) => r matches Err(ForumError::Config(s)) && s@ == m,
        },
{
    let body = strip_comments(content);
    if body.as_str().is_empty() {
        Err(ForumError::Config(crate::text::string_from("aborted: empty body from editor")))
    } else {
        Ok(body)
    }
}

/// A signed decimal number.
pub open spec fn signed_decimal(n: int) -> Seq<char> {
    if n < 0 {
        "-"@ + decimal((-n) as nat)
    } else {
        decimal(n as nat)
    }
}

/// The message for an editor that exited unsuccessfully: its exit code,
/// or `signal` when it was killed by one.
pub open spec fn editor_exit_text(editor: Seq<char>, code: Option<i32>) -> Seq<char> {
    "editor '"@ + editor + "' exited with "@ + match code {
        Some(c) => signed_decimal(c as int),
        None => "signal"@,
    }
}

/// The error for an editor that exited unsuccessfully.
pub fn editor_exit_error(editor: &str, code: Option<i32>) -> (r: ForumError)
    ensures
        r matches ForumError::Config(s) && s@ == editor_exit_text(editor@, code),
{
    let mut v = chars_of("editor '");
    let e = chars_of(editor);
    append_chars(&mut v, e.as_slice());
    push_str(&mut v, "' exited with ");
    match code {
        Some(c) => {
            if c < 0 {
                push_str(&mut v, "-");
                let m: u64 = (0i64 - c as i64) as u64;
                let d = crate::text::fmt_u64(m);
                append_chars(&mut v, d.as_slice());
            } else {
                let d = crate::text::fmt_u64(c as u64);
                append_chars(&mut v, d.as_slice());
            }
        },
        None => push_str(&mut v, "signal"),
    }
    ForumError::Config(string_of(v.as_slice()))
}

} // verus!
