//! Rows of the local search index.

use vstd::prelude::*;

use crate::text::{
    append_chars, chars_of, decimal, eq_ignore_ascii_case, eq_ignore_ascii_case_exec, join, join_chars,
    push_str, push_usize, slice_range, split, split_exec, starts_with, starts_with_exec, string_of, strs,
    to_strings, views, Sep,
};

verus! {

/// A denormalized thread row of the local index.
#[derive(Debug, Clone)]
pub struct ThreadRow {
    pub id: String,
    pub kind: String,
    /// The indexed lifecycle column.
    pub lifecycle: String,
    /// Whether the lifecycle was set explicitly on the thread.
    pub lifecycle_explicit: bool,
    /// The thread's tags.
    pub tags: Vec<String>,
    pub status: String,
    pub title: String,
    pub body: Option<String>,
    pub branch: Option<String>,
    pub created_at: String,
    pub created_by: String,
    pub open_objections: i64,
    pub open_actions: i64,
    pub has_summary: bool,
    pub tip_sha: String,
    pub updated_at: String,
}

/// A current node body that matched a search query.
#[derive(Debug, Clone)]
pub struct NodeSearchHit {
    pub node_id: String,
    pub node_type: String,
    pub status: String,
    pub body: String,
}

/// A thread result with the node hits that matched.
#[derive(Debug, Clone)]
pub struct SearchRow {
    pub thread: ThreadRow,
    pub node_hits: Vec<NodeSearchHit>,
}

/// A thread that links to the queried thread.
#[derive(Debug, Clone)]
pub struct IncomingLink {
    pub from_thread_id: String,
    pub rel: String,
}


// ---------------------------------------------------------------------------
// Search queries
// ---------------------------------------------------------------------------

/// The non-empty pieces, in order.
pub open spec fn nonempty(ps: Seq<Seq<char>>) -> Seq<Seq<char>>
    decreases ps.len(),
{
    if ps.len() == 0 {
        seq![]
    } else if ps.last().len() == 0 {
        nonempty(ps.drop_last())
    } else {
        nonempty(ps.drop_last()).push(ps.last())
    }
}

/// `str::split_whitespace`: the pieces between runs of whitespace.
pub open spec fn words(s: Seq<char>) -> Seq<Seq<char>> {
    nonempty(split(s, Sep::Space))
}

/// The free-text condition, cut where its parameter goes.
pub open spec fn free_text_parts() -> Seq<Seq<char>> {
    seq![
        "(lower(title) LIKE lower("@,
        ")\n                 OR lower(id) LIKE lower("@,
        ")\n                 OR lower(coalesce(body, '')) LIKE lower("@,
        ")\n                 OR lower(coalesce(branch, '')) LIKE lower("@,
        ")\n                 OR lower(kind) LIKE lower("@,
        ")\n                 OR lower(lifecycle) LIKE lower("@,
        ")\n                 OR lower(status) LIKE lower("@,
        ")\n                 OR EXISTS (\n                     SELECT 1 FROM thread_tags\n                     WHERE thread_tags.thread_id = threads.id\n                       AND lower(thread_tags.tag) LIKE lower("@,
        ")\n                 )\n                 OR EXISTS (\n                     SELECT 1 FROM nodes\n                     WHERE nodes.thread_id = threads.id\n                       AND (\n                         lower(nodes.id) LIKE lower("@,
        ")\n                         OR lower(nodes.node_type) LIKE lower("@,
        ")\n                         OR lower(nodes.status) LIKE lower("@,
        ")\n                         OR lower(nodes.body) LIKE lower("@,
        ")\n                       )\n                 ))"@,
    ]
}

fn free_text_part(i: usize) -> (r: &'static str)
    requires
        i < 13,
    ensures
        r@ == free_text_parts()[i as int],
{
    if i == 0 {
        "(lower(title) LIKE lower("
    } else if i == 1 {
        ")\n                 OR lower(id) LIKE lower("
    } else if i == 2 {
        ")\n                 OR lower(coalesce(body, '')) LIKE lower("
    } else if i == 3 {
        ")\n                 OR lower(coalesce(branch, '')) LIKE lower("
    } else if i == 4 {
        ")\n                 OR lower(kind) LIKE lower("
    } else if i == 5 {
        ")\n                 OR lower(lifecycle) LIKE lower("
    } else if i == 6 {
        ")\n                 OR lower(status) LIKE lower("
    } else if i == 7 {
        ")\n                 OR EXISTS (\n                     SELECT 1 FROM thread_tags\n                     WHERE thread_tags.thread_id = threads.id\n                       AND lower(thread_tags.tag) LIKE lower("
    } else if i == 8 {
        ")\n                 )\n                 OR EXISTS (\n                     SELECT 1 FROM nodes\n                     WHERE nodes.thread_id = threads.id\n                       AND (\n                         lower(nodes.id) LIKE lower("
    } else if i == 9 {
        ")\n                         OR lower(nodes.node_type) LIKE lower("
    } else if i == 10 {
        ")\n                         OR lower(nodes.status) LIKE lower("
    } else if i == 11 {
        ")\n                         OR lower(nodes.body) LIKE lower("
    } else {
        ")\n                       )\n                 ))"
    }
}

/// `parts` joined with `p` between each two.
pub open spec fn interleave(parts: Seq<Seq<char>>, p: Seq<char>) -> Seq<char>
    decreases parts.len(),
{
    if parts.len() == 0 {
        Seq::<char>::empty()
    } else if parts.len() == 1 {
        parts[0]
    } else {
        interleave(parts.drop_last(), p) + p + parts.last()
    }
}

pub open spec fn tag_condition_prefix() -> Seq<char> {
    "EXISTS (SELECT 1 FROM thread_tags\n                         WHERE thread_tags.thread_id = threads.id\n                           AND lower(thread_tags.tag) = lower(?"@
}

/// The conditions and bound values of the first `n` words: `AND` (in any
/// case) is dropped; `lifecycle:V` matches the lifecycle column exactly,
/// `tag:V` a tag exactly (both ignoring case); any other word is looked
/// for, as a substring, in the thread's text columns, tags and nodes. The
/// `k`-th bound value is `?k`.
pub open spec fn plan_upto(ws: Seq<Seq<char>>, n: nat) -> (Seq<Seq<char>>, Seq<Seq<char>>)
    decreases n,
{
    if n == 0 || n > ws.len() {
        (seq![], seq![])
    } else {
        let prev = plan_upto(ws, (n - 1) as nat);
        let t = ws[n - 1];
        let k = prev.1.len() + 1;
        if eq_ignore_ascii_case(t, "AND"@) {
            prev
        } else if starts_with(t, "lifecycle:"@) {
            (prev.0.push("lower(lifecycle) = lower(?"@ + decimal(k) + ")"@), prev.1.push(t.skip(10)))
        } else if starts_with(t, "tag:"@) {
            (prev.0.push(tag_condition_prefix() + decimal(k) + "))"@), prev.1.push(t.skip(4)))
        } else {
            (prev.0.push(interleave(free_text_parts(), "?"@ + decimal(k))), prev.1.push("%"@ + t + "%"@))
        }
    }
}

/// The first bound value that starts and ends with `%` (the node search
/// uses it).
pub open spec fn first_pattern(b: Seq<Seq<char>>) -> Option<Seq<char>>
    decreases b.len(),
{
    if b.len() == 0 {
        None
    } else if b[0].len() > 0 && b[0][0] == '%' && b[0].last() == '%' {
        Some(b[0])
    } else {
        first_pattern(b.drop_first())
    }
}

/// The thread query for the conditions: all of them must hold; rows in
/// ID order.
pub open spec fn select_sql(conds: Seq<Seq<char>>) -> Seq<char> {
    "SELECT id, kind, lifecycle, lifecycle_explicit,\n                status, title, body, branch, created_at, created_by,\n                open_objections, open_actions, has_summary, tip_sha, coalesce(updated_at, '')\n         FROM threads\n         WHERE "@ + join(conds, " AND "@) + "\n         ORDER BY id"@
}

/// A search query turned into SQL: the statement (none when the query has
/// no words to search by), its bound values in order, and the pattern the
/// node hits use.
pub struct SearchPlan {
    pub sql: Option<String>,
    pub binds: Vec<String>,
    pub node_pattern: Option<String>,
}

pub open spec fn search_plan_rule(query: Seq<char>, r: SearchPlan) -> bool {
    let ws = words(query);
    let conds = plan_upto(ws, ws.len()).0;
    let binds = plan_upto(ws, ws.len()).1;
    &&& strs(r.binds@) == binds
    &&& match r.sql {
        None => conds.len() == 0,
        Some(q) => conds.len() > 0 && q@ == select_sql(conds),
    }
    &&& match r.node_pattern {
        None => first_pattern(binds) is None,
        Some(p) => first_pattern(binds) == Some(p@),
    }
}

fn words_exec(q: &str) -> (r: Vec<Vec<char>>)
    ensures
        views(r@) == words(q@),
{
    let cs = chars_of(q);
    let pieces = split_exec(cs.as_slice(), Sep::Space);
    let mut out: Vec<Vec<char>> = Vec::new();
    let mut i: usize = 0;
    while i < pieces.len()
        invariant
            i <= pieces@.len(),
            views(pieces@) == split(q@, Sep::Space),
            views(out@) == nonempty(views(pieces@).take(i as int)),
        decreases pieces@.len() - i,
    {
        proof {
            assert(views(pieces@).take(i + 1).drop_last() =~= views(pieces@).take(i as int));
            assert(views(pieces@).take(i + 1).last() == pieces@[i as int]@);
        }
        if pieces[i].len() > 0 {
            let ghost before = views(out@);
            out.push(pieces[i].clone());
            proof {
                assert(views(out@) =~= before.push(pieces@[i as int]@));
            }
        }
        i += 1;
    }
    proof {
        assert(views(pieces@).take(i as int) =~= views(pieces@));
    }
    out
}

fn free_text_condition(k: usize) -> (r: Vec<char>)
    ensures
        r@ == interleave(free_text_parts(), "?"@ + decimal(k as nat)),
{
    let mut p = chars_of("?");
    push_usize(&mut p, k);
    let mut out = chars_of(free_text_part(0));
    let mut i: usize = 1;
    proof {
        assert(free_text_parts().take(1) =~= seq![free_text_parts()[0]]);
    }
    while i < 13
        invariant
            1 <= i <= 13,
            p@ == "?"@ + decimal(k as nat),
            free_text_parts().len() == 13,
            out@ == interleave(free_text_parts().take(i as int), p@),
        decreases 13 - i,
    {
        proof {
            assert(free_text_parts().take(i + 1).drop_last() =~= free_text_parts().take(i as int));
        }
        append_chars(&mut out, p.as_slice());
        push_str(&mut out, free_text_part(i));
        i += 1;
    }
    proof {
        assert(free_text_parts().take(13) =~= free_text_parts());
    }
    out
}

fn is_pattern(b: &Vec<char>) -> (r: bool)
    ensures
        r == (b@.len() > 0 && b@[0] == '%' && b@.last() == '%'),
{
    b.len() > 0 && b[0] == '%' && b[b.len() - 1] == '%'
}

fn lifecycle_condition(t: &Vec<char>, k: usize) -> (r: (Vec<char>, Vec<char>))
    requires
        t@.len() >= 10,
    ensures
        r.0@ == "lower(lifecycle) = lower(?"@ + decimal(k as nat) + ")"@,
        r.1@ == t@.skip(10),
{
    let mut c = chars_of("lower(lifecycle) = lower(?");
    push_usize(&mut c, k);
    push_str(&mut c, ")");
    let v = slice_range(t.as_slice(), 10, t.len());
    proof {
        assert(v@ =~= t@.skip(10));
    }
    (c, v)
}

fn tag_condition(t: &Vec<char>, k: usize) -> (r: (Vec<char>, Vec<char>))
    requires
        t@.len() >= 4,
    ensures
        r.0@ == tag_condition_prefix() + decimal(k as nat) + "))"@,
        r.1@ == t@.skip(4),
{
    let mut c = chars_of("EXISTS (SELECT 1 FROM thread_tags\n                         WHERE thread_tags.thread_id = threads.id\n                           AND lower(thread_tags.tag) = lower(?");
    push_usize(&mut c, k);
    push_str(&mut c, "))");
    let v = slice_range(t.as_slice(), 4, t.len());
    proof {
        assert(v@ =~= t@.skip(4));
    }
    (c, v)
}

fn free_condition(t: &Vec<char>, k: usize) -> (r: (Vec<char>, Vec<char>))
    ensures
        r.0@ == interleave(free_text_parts(), "?"@ + decimal(k as nat)),
        r.1@ == "%"@ + t@ + "%"@,
{
    let c = free_text_condition(k);
    let mut v = chars_of("%");
    append_chars(&mut v, t.as_slice());
    push_str(&mut v, "%");
    (c, v)
}

fn first_pattern_exec(binds: &Vec<Vec<char>>) -> (r: Option<String>)
    ensures
        match r {
            None => first_pattern(views(binds@)) is None,
            Some(p) => first_pattern(views(binds@)) == Some(p@),
        },
{
    let mut j: usize = 0;
    proof {
        assert(views(binds@).skip(0) =~= views(binds@));
    }
    while j < binds.len()
        invariant
            j <= binds@.len(),
            first_pattern(views(binds@)) == first_pattern(views(binds@).skip(j as int)),
        decreases binds@.len() - j,
    {
        proof {
            assert(views(binds@).skip(j as int).drop_first() =~= views(binds@).skip(j + 1));
            assert(views(binds@).skip(j as int)[0] == binds@[j as int]@);
        }
        if is_pattern(&binds[j]) {
            return Some(string_of(binds[j].as_slice()));
        }
        j += 1;
    }
    proof {
        assert(views(binds@).skip(j as int) =~= Seq::<Seq<char>>::empty());
    }
    None
}

/// Turn a search query into SQL (see [`search_plan_rule`]).
pub fn plan_search(query: &str) -> (r: SearchPlan)
    ensures
        search_plan_rule(query@, r),
{
    let ws = words_exec(query);
    let and_word = chars_of("AND");
    let lc = chars_of("lifecycle:");
    let tg = chars_of("tag:");
    proof {
        reveal_strlit("lifecycle:");
        reveal_strlit("tag:");
    }
    let mut conds: Vec<Vec<char>> = Vec::new();
    let mut binds: Vec<Vec<char>> = Vec::new();
    let mut i: usize = 0;
    while i < ws.len()
        invariant
            i <= ws@.len(),
            and_word@ == "AND"@,
            lc@ == "lifecycle:"@,
            lc@.len() == 10,
            tg@ == "tag:"@,
            tg@.len() == 4,
            views(conds@) == plan_upto(views(ws@), i as nat).0,
            views(binds@) == plan_upto(views(ws@), i as nat).1,
            binds@.len() <= i,
        decreases ws@.len() - i,
    {
        let t = &ws[i];
        proof {
            assert(views(ws@)[i as int] == t@);
        }
        let k = binds.len() + 1;
        if !eq_ignore_ascii_case_exec(t.as_slice(), and_word.as_slice()) {
            let (c, v) = if starts_with_exec(t.as_slice(), lc.as_slice()) {
                lifecycle_condition(t, k)
            } else if starts_with_exec(t.as_slice(), tg.as_slice()) {
                tag_condition(t, k)
            } else {
                free_condition(t, k)
            };
            let ghost c0 = views(conds@);
            let ghost b0 = views(binds@);
            let ghost cv = c@;
            let ghost vv = v@;
            conds.push(c);
            binds.push(v);
            proof {
                assert(views(conds@) =~= c0.push(cv));
                assert(views(binds@) =~= b0.push(vv));
            }
        }
        i += 1;
    }
    let pattern = first_pattern_exec(&binds);
    let sql = if conds.len() == 0 {
        None
    } else {
        let mut q = chars_of("SELECT id, kind, lifecycle, lifecycle_explicit,\n                status, title, body, branch, created_at, created_by,\n                open_objections, open_actions, has_summary, tip_sha, coalesce(updated_at, '')\n         FROM threads\n         WHERE ");
        let sep = chars_of(" AND ");
        let w = join_chars(&conds, sep.as_slice());
        append_chars(&mut q, w.as_slice());
        push_str(&mut q, "\n         ORDER BY id");
        Some(string_of(q.as_slice()))
    };
    SearchPlan { sql, binds: to_strings(&binds), node_pattern: pattern }
}

} // verus!
