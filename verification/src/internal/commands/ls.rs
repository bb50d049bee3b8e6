//! `git forum ls`: the column set, `--columns` parsing, and the table
//! renderer.

use vstd::prelude::*;

use crate::internal::error::ForumError;
use crate::internal::evidence::{format_timestamp, timestamp_text, Timestamp};
use crate::internal::event::lifecycle_name;
use crate::internal::policy::{lifecycle_for_category, lifecycle_label_for};
use crate::internal::thread::ThreadState;
use crate::text::{
    decimal, chars_of, string_of, push_str, append_chars, str_eq, strs, views, join, join_chars, trim, trim_chars,
    split, split_exec, Sep, ascii_lower, ascii_lower_exec, pad_right, pad_right_exec, repeat, repeat_exec,
    utf8_len, char_width, char_width_exec, lemma_utf8_push, prefix_within, join_to_string, chars_eq_str,
};
use vstd::utf8::encode_utf8;

verus! {

/// Arguments of `git forum ls`.
pub struct LsArgs {
    pub kind_positional: Option<String>,
    pub branch: Option<String>,
    pub kind: Option<String>,
    pub status: Option<String>,
    pub columns: Option<String>,
}

/// The columns `git forum ls` can show.
#[derive(Debug, Clone, Copy, PartialEq, Eq, Structural)]
pub enum Column {
    Id,
    Lifecycle,
    Status,
    Tags,
    Branch,
    Created,
    Updated,
    Title,
}

pub open spec fn column_header(c: Column) -> Seq<char> {
    match c {
        Column::Id => "ID"@,
        Column::Lifecycle => "LIFECYCLE"@,
        Column::Status => "STATUS"@,
        Column::Tags => "TAGS"@,
        Column::Branch => "BRANCH"@,
        Column::Created => "CREATED"@,
        Column::Updated => "UPDATED"@,
        Column::Title => "TITLE"@,
    }
}

/// The column a lowercase name selects.
pub open spec fn column_from_name(s: Seq<char>) -> Option<Column> {
    if s == "id"@ {
        Some(Column::Id)
    } else if s == "lifecycle"@ {
        Some(Column::Lifecycle)
    } else if s == "status"@ {
        Some(Column::Status)
    } else if s == "tags"@ {
        Some(Column::Tags)
    } else if s == "branch"@ {
        Some(Column::Branch)
    } else if s == "created"@ {
        Some(Column::Created)
    } else if s == "updated"@ {
        Some(Column::Updated)
    } else if s == "title"@ {
        Some(Column::Title)
    } else {
        None
    }
}

/// The normalized form of a column name: trimmed, ASCII-lowercased.
pub open spec fn column_key(s: Seq<char>) -> Seq<char> {
    trim(s).map_values(|c: char| ascii_lower(c))
}

/// The message for an unknown column name.
pub open spec fn unknown_column_message(key: Seq<char>) -> Seq<char> {
    "unknown ls column '"@ + key + "'; valid: id, lifecycle, status, tags, branch, created, updated, title"@
}

impl Column {
    /// The header text.
    pub fn header(self) -> (r: &'static str)
        ensures
            r@ == column_header(self),
    {
        match self {
            Column::Id => "ID",
            Column::Lifecycle => "LIFECYCLE",
            Column::Status => "STATUS",
            Column::Tags => "TAGS",
            Column::Branch => "BRANCH",
            Column::Created => "CREATED",
            Column::Updated => "UPDATED",
            Column::Title => "TITLE",
        }
    }

    /// Parse a column name, ignoring surrounding whitespace and ASCII case.
    pub fn parse(s: &str) -> (r: Result<Column, ForumError>)
        ensures
            match r {
                Ok(c) => column_from_name(column_key(s@)) == Some(c),
                Err(e) => column_from_name(column_key(s@)) is None && e == ForumError::Config(e->Config_0)
                    && e->Config_0@ == unknown_column_message(column_key(s@)),
            },
    {
        let cs = chars_of(s);
        let t = trim_chars(cs.as_slice());
        let mut key: Vec<char> = Vec::new();
        let mut i: usize = 0;
        while i < t.len()
            invariant
                i <= t@.len(),
                key@ =~= t@.take(i as int).map_values(|c: char| ascii_lower(c)),
            decreases t@.len() - i,
        {
            key.push(ascii_lower_exec(t[i]));
            i += 1;
        }
        proof {
            assert(t@.take(i as int) =~= t@);
        }
        let k = key.as_slice();
        if chars_eq_str(k, "id") {
            Ok(Column::Id)
        } else if chars_eq_str(k, "lifecycle") {
            Ok(Column::Lifecycle)
        } else if chars_eq_str(k, "status") {
            Ok(Column::Status)
        } else if chars_eq_str(k, "tags") {
            Ok(Column::Tags)
        } else if chars_eq_str(k, "branch") {
            Ok(Column::Branch)
        } else if chars_eq_str(k, "created") {
            Ok(Column::Created)
        } else if chars_eq_str(k, "updated") {
            Ok(Column::Updated)
        } else if chars_eq_str(k, "title") {
            Ok(Column::Title)
        } else {
            let mut v = chars_of("unknown ls column '");
            append_chars(&mut v, k);
            push_str(&mut v, "'; valid: id, lifecycle, status, tags, branch, created, updated, title");
            Err(ForumError::Config(string_of(v.as_slice())))
        }
    }
}

impl core::str::FromStr for Column {
    type Err = ForumError;

    fn from_str(s: &str) -> Result<Column, ForumError> {
        Column::parse(s)
    }
}

/// The non-empty trimmed pieces of a comma-separated list, in order.
pub open spec fn list_items(ps: Seq<Seq<char>>) -> Seq<Seq<char>>
    decreases ps.len(),
{
    if ps.len() == 0 {
        seq![]
    } else if trim(ps.last()).len() == 0 {
        list_items(ps.drop_last())
    } else {
        list_items(ps.drop_last()).push(trim(ps.last()))
    }
}

/// The columns of a list of names, or the message of the first unknown
/// one.
pub open spec fn parse_column_list(items: Seq<Seq<char>>) -> Result<Seq<Column>, Seq<char>>
    decreases items.len(),
{
    if items.len() == 0 {
        Ok(seq![])
    } else {
        match parse_column_list(items.drop_last()) {
            Err(m) => Err(m),
            Ok(cols) => match column_from_name(column_key(items.last())) {
                Some(c) => Ok(cols.push(c)),
                None => Err(unknown_column_message(column_key(items.last()))),
            },
        }
    }
}

/// The result of `--columns <spec>`: the named columns in order; the
/// first unknown name is an error, and so is a list with no names.
pub open spec fn columns_spec(spec: Seq<char>) -> Result<Seq<Column>, Seq<char>> {
    match parse_column_list(list_items(split(spec, Sep::Comma))) {
        Err(m) => Err(m),
        Ok(cols) => if cols.len() == 0 {
            Err("--columns must list at least one column"@)
        } else {
            Ok(cols)
        },
    }
}

/// Parse a `--columns` list (see [`columns_spec`]).
pub fn parse_columns(spec: &str) -> (r: Result<Vec<Column>, ForumError>)
    ensures
        match r {
            Ok(cols) => columns_spec(spec@) == Ok::<Seq<Column>, Seq<char>>(cols@),
            Err(e) => e == ForumError::Config(e->Config_0) && columns_spec(spec@) == Err::<Seq<Column>, Seq<char>>(
                e->Config_0@,
            ),
        },
{
    let cs = chars_of(spec);
    let pieces = split_exec(cs.as_slice(), Sep::Comma);
    let mut cols: Vec<Column> = Vec::new();
    let mut i: usize = 0;
    proof {
        assert(views(pieces@).take(0) =~= Seq::<Seq<char>>::empty());
    }
    while i < pieces.len()
        invariant
            i <= pieces@.len(),
            views(pieces@) == split(spec@, Sep::Comma),
            parse_column_list(list_items(views(pieces@).take(i as int))) == Ok::<Seq<Column>, Seq<char>>(cols@),
        decreases pieces@.len() - i,
    {
        let ghost prev = views(pieces@).take(i as int);
        proof {
            assert(views(pieces@).take(i + 1).drop_last() =~= prev);
            assert(views(pieces@).take(i + 1).last() == pieces@[i as int]@);
        }
        let t = trim_chars(pieces[i].as_slice());
        proof {
            let items = list_items(prev);
            assert(items.push(t@).drop_last() =~= items);
        }
        if t.len() > 0 {
            let ts = string_of(t.as_slice());
            match Column::parse(ts.as_str()) {
                Ok(c) => {
                    cols.push(c);
                },
                Err(e) => {
                    proof {
                        lemma_column_list_error_stays(list_items(views(pieces@).take(i + 1)), split(spec@, Sep::Comma), (i + 1) as nat);
                    }
                    return Err(e);
                },
            }
        }
        i += 1;
    }
    proof {
        assert(views(pieces@).take(i as int) =~= views(pieces@));
    }
    if cols.len() == 0 {
        return Err(ForumError::Config(crate::text::string_from("--columns must list at least one column")));
    }
    Ok(cols)
}

/// Once a prefix of the pieces has an unknown name, the whole list
/// reports that first error.
proof fn lemma_column_list_error_stays(items: Seq<Seq<char>>, all: Seq<Seq<char>>, n: nat)
    requires
        n <= all.len(),
        items == list_items(all.take(n as int)),
        parse_column_list(items) is Err,
    ensures
        parse_column_list(list_items(all)) == parse_column_list(items),
    decreases all.len() - n,
{
    if n < all.len() {
        let next = all.take(n + 1 as int);
        assert(next.drop_last() =~= all.take(n as int));
        let x = trim(next.last());
        assert(items.push(x).drop_last() =~= items);
        assert(parse_column_list(list_items(next)) == parse_column_list(items));
        lemma_column_list_error_stays(list_items(next), all, n + 1);
    } else {
        assert(all.take(n as int) =~= all);
    }
}


// ---------------------------------------------------------------------------
// Rendering
// ---------------------------------------------------------------------------

/// Caller-controlled rendering options.
#[derive(Debug, Default, Clone)]
pub struct LsRenderOptions {
    /// Keep the BRANCH column even when every row's branch is empty (the
    /// `--branch` filter is active).
    pub force_branch_column: bool,
    /// A pinned column set: rendered in order, the auto-hide rule bypassed.
    pub columns: Option<Vec<Column>>,
}

/// The columns shown by default, in order.
pub open spec fn default_columns() -> Seq<Column> {
    seq![
        Column::Id,
        Column::Lifecycle,
        Column::Status,
        Column::Tags,
        Column::Branch,
        Column::Created,
        Column::Updated,
        Column::Title,
    ]
}

/// The tag cell: the tags joined with `,`, or `-` when there are none.
pub open spec fn tags_cell(tags: Seq<Seq<char>>) -> Seq<char> {
    if tags.len() == 0 {
        "-"@
    } else {
        join(tags, ","@)
    }
}

/// The branch cell: the branch, or `-`.
pub open spec fn branch_cell(b: Option<String>) -> Seq<char> {
    match b {
        Some(x) => x@,
        None => "-"@,
    }
}

/// The lifecycle label of a row.
pub open spec fn label_cell(s: ThreadState) -> Seq<char> {
    lifecycle_name(lifecycle_for_category(s.category@, strs(s.tags@)))
}

/// The date cell: the minute text, or `-` for an instant chrono cannot
/// represent.
pub open spec fn date_cell(t: Timestamp) -> Seq<char> {
    match timestamp_text(t.secs, t.nanos, "%Y-%m-%d %H:%M"@) {
        Some(x) => x,
        None => "-"@,
    }
}

/// A title cut to `max` bytes: unchanged when `max` is 0 or it fits, else
/// the longest prefix within `max - 3` bytes followed by `...`.
pub open spec fn title_cell(t: Seq<char>, max: nat) -> Seq<char> {
    if max == 0 || utf8_len(t) <= max {
        t
    } else {
        t.take(prefix_within(t, if max >= 3 { (max - 3) as nat } else { 0 }) as int) + "..."@
    }
}

/// The text of a cell; `max` is the title budget (for TITLE) or the
/// column width (unused by the other columns).
pub open spec fn cell(c: Column, s: ThreadState, max: nat) -> Seq<char> {
    match c {
        Column::Id => s.id@,
        Column::Lifecycle => label_cell(s),
        Column::Status => s.status@,
        Column::Tags => tags_cell(strs(s.tags@)),
        Column::Branch => branch_cell(s.branch),
        Column::Created => date_cell(s.created_at),
        Column::Updated => date_cell(s.updated_at),
        Column::Title => title_cell(s.title@, max),
    }
}

proof fn lemma_join_holds_parts(ps: Seq<Seq<char>>, sep: Seq<char>)
    ensures
        forall|i: int| 0 <= i < ps.len() ==> crate::text::contains_seq(join(ps, sep), #[trigger] ps[i]),
        ps.len() > 0 ==> join(ps, sep).len() >= ps[0].len() && join(ps, sep).take(ps[0].len() as int) == ps[0],
    decreases ps.len(),
{
    if ps.len() == 1 {
        assert(join(ps, sep) == ps[0]);
        assert(crate::text::occurs_at(join(ps, sep), ps[0], 0)) by {
            assert(ps[0].subrange(0, ps[0].len() as int) =~= ps[0]);
        }
        assert(ps[0].take(ps[0].len() as int) =~= ps[0]);
    } else if ps.len() > 1 {
        let p = ps.drop_last();
        lemma_join_holds_parts(p, sep);
        let jp = join(p, sep);
        let j = join(ps, sep);
        assert(j == jp + sep + ps.last());
        assert forall|i: int| 0 <= i < ps.len() implies crate::text::contains_seq(j, #[trigger] ps[i]) by {
            if i < p.len() {
                assert(p[i] == ps[i]);
                assert(crate::text::contains_seq(jp, p[i]));
                let k = choose|k: int| crate::text::occurs_at(jp, p[i], k);
                assert(j.subrange(k, k + ps[i].len()) =~= jp.subrange(k, k + ps[i].len()));
                assert(crate::text::occurs_at(j, ps[i], k));
            } else {
                let k: int = (jp.len() + sep.len()) as int;
                assert(j.subrange(k, k + ps[i].len()) =~= ps.last());
                assert(crate::text::occurs_at(j, ps[i], k));
            }
        }
        assert(p[0] == ps[0]);
        assert(j.take(ps[0].len() as int) =~= jp.take(ps[0].len() as int));
    }
}

/// Law of the `ls` TAGS cell: `-` for a thread without tags; otherwise
/// the tags joined by `,` in order, so that it starts with the first tag
/// and holds every tag.
pub proof fn lemma_tags_cell(s: ThreadState, max: nat)
    ensures
        s.tags@.len() == 0 ==> cell(Column::Tags, s, max) == "-"@,
        s.tags@.len() > 0 ==> cell(Column::Tags, s, max) == join(strs(s.tags@), ","@),
        s.tags@.len() > 0 ==> cell(Column::Tags, s, max).take(s.tags@[0]@.len() as int) == s.tags@[0]@,
        forall|i: int|
            0 <= i < s.tags@.len() ==> crate::text::contains_seq(cell(Column::Tags, s, max), (#[trigger] s.tags@[i])@),
{
    let ts = strs(s.tags@);
    lemma_join_holds_parts(ts, ","@);
    if s.tags@.len() > 0 {
        assert(cell(Column::Tags, s, max) == join(ts, ","@));
        assert(ts[0] == s.tags@[0]@);
    }
    assert forall|i: int| 0 <= i < s.tags@.len() implies crate::text::contains_seq(cell(Column::Tags, s, max), (#[trigger] s.tags@[i])@) by {
        assert(ts[i] == s.tags@[i]@);
    }
}

/// The byte length a column's width is measured by, for one row.
pub open spec fn measured(c: Column, s: ThreadState) -> nat {
    utf8_len(cell(c, s, 0)) as nat
}

/// The largest measured length over the rows.
pub open spec fn max_measured(c: Column, rows: Seq<ThreadState>) -> nat
    decreases rows.len(),
{
    if rows.len() == 0 {
        0
    } else {
        let m = max_measured(c, rows.drop_last());
        let x = measured(c, rows.last());
        if x > m {
            x
        } else {
            m
        }
    }
}

pub open spec fn clamp(x: nat, lo: nat, hi: nat) -> nat {
    if x < lo {
        lo
    } else if x > hi {
        hi
    } else {
        x
    }
}

/// The width of a column: the widest row clamped to the column's bounds;
/// dates are 16 wide and the title takes the rest.
pub open spec fn col_width(c: Column, rows: Seq<ThreadState>) -> nat {
    match c {
        Column::Id => clamp(max_measured(c, rows), 12, 20),
        Column::Lifecycle => clamp(max_measured(c, rows), 10, 12),
        Column::Status => clamp(max_measured(c, rows), 10, 16),
        Column::Tags => clamp(max_measured(c, rows), 8, 30),
        Column::Branch => clamp(max_measured(c, rows), 12, 30),
        Column::Created | Column::Updated => 16,
        Column::Title => 0,
    }
}

/// TAGS hides when no row has tags; BRANCH hides when no row has a branch
/// unless the branch filter pins it; the others never hide.
pub open spec fn auto_hidden(c: Column, rows: Seq<ThreadState>, force_branch: bool) -> bool {
    match c {
        Column::Tags => forall|i: int| 0 <= i < rows.len() ==> (#[trigger] rows[i]).tags@.len() == 0,
        Column::Branch => !force_branch && forall|i: int| 0 <= i < rows.len() ==> (#[trigger] rows[i]).branch is None,
        _ => false,
    }
}

/// The default columns among the first `n` that are not hidden.
pub open spec fn shown_columns(rows: Seq<ThreadState>, force_branch: bool, n: nat) -> Seq<Column>
    decreases n,
{
    if n == 0 || n > 8 {
        seq![]
    } else {
        let prev = shown_columns(rows, force_branch, (n - 1) as nat);
        let c = default_columns()[n - 1];
        if auto_hidden(c, rows, force_branch) {
            prev
        } else {
            prev.push(c)
        }
    }
}

/// The columns rendered: the pinned set, else the default columns that
/// are not hidden.
pub open spec fn effective_columns(rows: Seq<ThreadState>, opts: LsRenderOptions) -> Seq<Column> {
    match opts.columns {
        Some(p) => p@,
        None => shown_columns(rows, opts.force_branch_column, 8),
    }
}

/// The title budget: the terminal width (when known and at least 40)
/// minus the fixed columns, never below 0; 0 when output is not a wide
/// enough terminal.
pub open spec fn title_budget(fixed: nat, term: Option<u16>) -> nat {
    let w: nat = match term {
        Some(w) => if w >= 40 { w as nat } else { 0 },
        None => 0,
    };
    if w >= fixed {
        (w - fixed) as nat
    } else {
        0
    }
}

/// One cell of a row: the last is unpadded; others are padded to their
/// width (a TITLE not at the end to at least its own length) and followed
/// by two spaces.
pub open spec fn row_piece(cols: Seq<Column>, widths: Seq<nat>, cells: Seq<Seq<char>>, i: int) -> Seq<char> {
    if i == cols.len() - 1 {
        cells[i]
    } else if cols[i] == Column::Title {
        pad_right(cells[i], if widths[i] >= utf8_len(cells[i]) { widths[i] } else { utf8_len(cells[i]) as nat })
            + "  "@
    } else {
        pad_right(cells[i], widths[i]) + "  "@
    }
}

/// The first `n` pieces of a row.
pub open spec fn row_upto(cols: Seq<Column>, widths: Seq<nat>, cells: Seq<Seq<char>>, n: nat) -> Seq<char>
    decreases n,
{
    if n == 0 {
        Seq::<char>::empty()
    } else {
        row_upto(cols, widths, cells, (n - 1) as nat) + row_piece(cols, widths, cells, n - 1)
    }
}

pub open spec fn row_text(cols: Seq<Column>, widths: Seq<nat>, cells: Seq<Seq<char>>) -> Seq<char> {
    row_upto(cols, widths, cells, cols.len())
}

/// The cells of a thread's row.
pub open spec fn row_cells(cols: Seq<Column>, widths: Seq<nat>, s: ThreadState, title_max: nat) -> Seq<Seq<char>> {
    Seq::new(cols.len(), |i: int| cell(cols[i], s, if cols[i] == Column::Title { title_max } else { widths[i] }))
}

/// The sum of the first `n` widths.
pub open spec fn width_sum(w: Seq<nat>, n: nat) -> nat
    decreases n,
{
    if n == 0 || n > w.len() {
        0
    } else {
        width_sum(w, (n - 1) as nat) + w[n - 1]
    }
}

/// The `git forum ls` table: a header, a ruler as wide as the fixed
/// columns plus their spacing and two, one row per thread, and a final
/// newline; `no threads found` when there are none.
pub open spec fn ls_text(rows: Seq<ThreadState>, opts: LsRenderOptions, term: Option<u16>) -> Seq<char> {
    if rows.len() == 0 {
        "no threads found\n"@
    } else {
        let cols = effective_columns(rows, opts);
        let widths = Seq::new(cols.len(), |i: int| col_width(cols[i], rows));
        let spacing: nat = if cols.len() >= 1 { ((cols.len() - 1) * 2) as nat } else { 0 };
        let fixed = width_sum(widths, widths.len()) + spacing + 2;
        let tm = title_budget(fixed, term);
        let head = row_text(cols, widths, Seq::new(cols.len(), |i: int| column_header(cols[i])));
        let body = Seq::new(rows.len(), |k: int| row_text(cols, widths, row_cells(cols, widths, rows[k], tm)));
        join(seq![head, repeat('-', fixed)] + body + seq![Seq::<char>::empty()], "\n"@)
    }
}


/// The threads behind the references.
pub open spec fn derefs(v: Seq<&ThreadState>) -> Seq<ThreadState> {
    Seq::new(v.len(), |i: int| *v[i])
}

/// `crossterm::terminal::size`: the terminal's width in columns, when
/// stdout is a terminal whose size can be read. Nothing is claimed of the
/// value: it depends on the terminal.
#[verifier::external_body]
fn terminal_width() -> Option<u16> {
    match crossterm::terminal::size() {
        Ok((w, _)) => Some(w),
        Err(_) => None,
    }
}

fn tags_cell_exec(tags: &Vec<String>) -> (r: Vec<char>)
    ensures
        r@ == tags_cell(strs(tags@)),
{
    if tags.len() == 0 {
        chars_of("-")
    } else {
        let parts = crate::text::from_strings(tags.as_slice());
        let sep = chars_of(",");
        join_chars(&parts, sep.as_slice())
    }
}

fn title_cell_exec(t: &str, max: usize) -> (r: Vec<char>)
    ensures
        r@ == title_cell(t@, max as nat),
{
    let cs = chars_of(t);
    if max == 0 || t.len() <= max {
        return cs;
    }
    let m: usize = if max >= 3 { max - 3 } else { 0 };
    let i = crate::text::prefix_within_exec(cs.as_slice(), m);
    let mut out = crate::text::slice_range(cs.as_slice(), 0, i);
    push_str(&mut out, "...");
    proof {
        assert(cs@.subrange(0, i as int) =~= cs@.take(i as int));
    }
    out
}

fn date_cell_exec(t: Timestamp) -> (r: Vec<char>)
    ensures
        r@ == date_cell(t),
{
    match format_timestamp(t, "%Y-%m-%d %H:%M") {
        Some(x) => chars_of(x.as_str()),
        None => chars_of("-"),
    }
}

fn cell_exec(c: Column, s: &ThreadState, max: usize) -> (r: Vec<char>)
    ensures
        r@ == cell(c, *s, max as nat),
{
    match c {
        Column::Id => chars_of(s.id.as_str()),
        Column::Lifecycle => chars_of(lifecycle_label_for(s.category.as_str(), s.tags.as_slice())),
        Column::Status => chars_of(s.status.as_str()),
        Column::Tags => tags_cell_exec(&s.tags),
        Column::Branch => match &s.branch {
            Some(b) => chars_of(b.as_str()),
            None => chars_of("-"),
        },
        Column::Created => date_cell_exec(s.created_at),
        Column::Updated => date_cell_exec(s.updated_at),
        Column::Title => title_cell_exec(s.title.as_str(), max),
    }
}

fn byte_len(v: &Vec<char>) -> (r: usize)
    ensures
        r == utf8_len(v@),
{
    let st = string_of(v.as_slice());
    st.as_str().len()
}

fn col_width_exec(c: Column, states: &[&ThreadState]) -> (r: usize)
    ensures
        r == col_width(c, derefs(states@)),
        r <= 30,
{
    let (lo, hi): (usize, usize) = match c {
        Column::Id => (12, 20),
        Column::Lifecycle => (10, 12),
        Column::Status => (10, 16),
        Column::Tags => (8, 30),
        Column::Branch => (12, 30),
        Column::Created | Column::Updated => {
            return 16;
        },
        Column::Title => {
            return 0;
        },
    };
    let mut m: usize = 0;
    let mut i: usize = 0;
    while i < states.len()
        invariant
            i <= states@.len(),
            c != Column::Created && c != Column::Updated && c != Column::Title,
            m == max_measured(c, derefs(states@).take(i as int)),
        decreases states@.len() - i,
    {
        let v = cell_exec(c, states[i], 0);
        let x = byte_len(&v);
        proof {
            assert(derefs(states@).take(i + 1).drop_last() =~= derefs(states@).take(i as int));
            assert(derefs(states@).take(i + 1).last() == *states@[i as int]);
        }
        if x > m {
            m = x;
        }
        i += 1;
    }
    proof {
        assert(derefs(states@).take(i as int) =~= derefs(states@));
    }
    if m < lo {
        lo
    } else if m > hi {
        hi
    } else {
        m
    }
}

fn hidden_exec(c: Column, states: &[&ThreadState], force_branch: bool) -> (r: bool)
    ensures
        r == auto_hidden(c, derefs(states@), force_branch),
{
    match c {
        Column::Tags => {
            let mut i: usize = 0;
            while i < states.len()
                invariant
                    i <= states@.len(),
                    c == Column::Tags,
                    forall|j: int| 0 <= j < i ==> (#[trigger] derefs(states@)[j]).tags@.len() == 0,
                decreases states@.len() - i,
            {
                if states[i].tags.len() > 0 {
                    proof {
                        assert(derefs(states@)[i as int] == *states@[i as int]);
                        assert(derefs(states@)[i as int].tags@.len() > 0);
                    }
                    return false;
                }
                i += 1;
            }
            true
        },
        Column::Branch => {
            if force_branch {
                return false;
            }
            let mut i: usize = 0;
            while i < states.len()
                invariant
                    i <= states@.len(),
                    c == Column::Branch,
                    !force_branch,
                    forall|j: int| 0 <= j < i ==> (#[trigger] derefs(states@)[j]).branch is None,
                decreases states@.len() - i,
            {
                if states[i].branch.is_some() {
                    proof {
                        assert(derefs(states@)[i as int] == *states@[i as int]);
                        assert(derefs(states@)[i as int].branch is Some);
                    }
                    return false;
                }
                i += 1;
            }
            true
        },
        _ => false,
    }
}

fn default_column(k: usize) -> (r: Column)
    requires
        k < 8,
    ensures
        r == default_columns()[k as int],
{
    if k == 0 {
        Column::Id
    } else if k == 1 {
        Column::Lifecycle
    } else if k == 2 {
        Column::Status
    } else if k == 3 {
        Column::Tags
    } else if k == 4 {
        Column::Branch
    } else if k == 5 {
        Column::Created
    } else if k == 6 {
        Column::Updated
    } else {
        Column::Title
    }
}

fn effective_columns_exec(states: &[&ThreadState], opts: &LsRenderOptions) -> (r: Vec<Column>)
    ensures
        r@ == effective_columns(derefs(states@), *opts),
{
    match &opts.columns {
        Some(p) => {
            let mut out: Vec<Column> = Vec::new();
            let mut i: usize = 0;
            while i < p.len()
                invariant
                    i <= p@.len(),
                    out@ =~= p@.take(i as int),
                decreases p@.len() - i,
            {
                out.push(p[i]);
                i += 1;
            }
            proof {
                assert(p@.take(i as int) =~= p@);
            }
            out
        },
        None => {
            let mut out: Vec<Column> = Vec::new();
            let mut k: usize = 0;
            while k < 8
                invariant
                    k <= 8,
                    out@ == shown_columns(derefs(states@), opts.force_branch_column, k as nat),
                decreases 8 - k,
            {
                let c = default_column(k);
                if !hidden_exec(c, states, opts.force_branch_column) {
                    out.push(c);
                }
                k += 1;
            }
            out
        },
    }
}

/// Append one row built from `cells`.
fn push_row(out: &mut Vec<char>, cols: &Vec<Column>, widths: &Vec<usize>, cells: &Vec<Vec<char>>, Ghost(wspec): Ghost<Seq<nat>>)
    requires
        cols@.len() == widths@.len(),
        cols@.len() == cells@.len(),
        wspec.len() == widths@.len(),
        forall|i: int| 0 <= i < widths@.len() ==> wspec[i] == widths@[i] as nat,
    ensures
        final(out)@ == old(out)@ + row_text(cols@, wspec, views(cells@)),
{
    let ghost start = out@;
    let n = cols.len();
    let mut i: usize = 0;
    while i < n
        invariant
            n == cols@.len(),
            cols@.len() == widths@.len(),
            cols@.len() == cells@.len(),
            wspec.len() == widths@.len(),
            forall|j: int| 0 <= j < widths@.len() ==> wspec[j] == widths@[j] as nat,
            i <= n,
            out@ == start + row_upto(cols@, wspec, views(cells@), i as nat),
        decreases n - i,
    {
        let v = &cells[i];
        if i + 1 == n {
            append_chars(out, v.as_slice());
        } else if cols[i] == Column::Title {
            let bl = byte_len(v);
            let w = if widths[i] >= bl { widths[i] } else { bl };
            let padded = pad_right_exec(v.as_slice(), w);
            append_chars(out, padded.as_slice());
            push_str(out, "  ");
        } else {
            let padded = pad_right_exec(v.as_slice(), widths[i]);
            append_chars(out, padded.as_slice());
            push_str(out, "  ");
        }
        proof {
            assert(views(cells@)[i as int] == cells@[i as int]@);
        }
        i += 1;
    }
}

/// The widest ruler `n` columns can need (at most 30 characters each and
/// two between neighbours, plus two) fits in `usize`: past that the sum
/// of the widths overflows.
pub open spec fn ruler_fits(n: nat) -> bool {
    32 * n + 2 <= usize::MAX
}

/// Render the `git forum ls` table for a known terminal width (see
/// [`ls_text`]).
pub fn render_ls_for_width(states: &[&ThreadState], opts: &LsRenderOptions, term: Option<u16>) -> (r: String)
    requires
        opts.columns matches Some(p) ==> ruler_fits(p@.len()),
    ensures
        r@ == ls_text(derefs(states@), *opts, term),
{
    if states.len() == 0 {
        return crate::text::string_from("no threads found\n");
    }
    let ghost rows = derefs(states@);
    let cols = effective_columns_exec(states, opts);
    assert(ruler_fits(cols@.len())) by {
        if opts.columns is None {
            lemma_shown_len(rows, opts.force_branch_column, 8);
        }
    }
    let mut widths: Vec<usize> = Vec::new();
    let mut total: usize = 0;
    let mut i: usize = 0;
    while i < cols.len()
        invariant
            i <= cols@.len(),
            ruler_fits(cols@.len()),
            cols@ == effective_columns(rows, *opts),
            rows == derefs(states@),
            widths@.len() == i,
            forall|j: int| 0 <= j < i ==> widths@[j] as nat == col_width(cols@[j], rows),
            total == width_sum(Seq::new(cols@.len(), |j: int| col_width(cols@[j], rows)), i as nat),
            total <= 30 * i,
        decreases cols@.len() - i,
    {
        let w = col_width_exec(cols[i], states);
        widths.push(w);
        total = total + w;
        i += 1;
    }
    let ghost wspec = Seq::new(cols@.len(), |j: int| col_width(cols@[j], rows));
    let spacing: usize = if cols.len() >= 1 { (cols.len() - 1) * 2 } else { 0 };
    let fixed = total + spacing + 2;
    let tw: usize = match term {
        Some(w) => if w >= 40 { w as usize } else { 0 },
        None => 0,
    };
    let title_max: usize = if tw >= fixed { tw - fixed } else { 0 };
    let mut out: Vec<char> = Vec::new();
    // header
    let mut heads: Vec<Vec<char>> = Vec::new();
    let mut k: usize = 0;
    while k < cols.len()
        invariant
            k <= cols@.len(),
            heads@.len() == k,
            forall|j: int| 0 <= j < k ==> #[trigger] heads@[j]@ == column_header(cols@[j]),
        decreases cols@.len() - k,
    {
        heads.push(chars_of(cols[k].header()));
        k += 1;
    }
    proof {
        assert(views(heads@) =~= Seq::new(cols@.len(), |j: int| column_header(cols@[j])));
    }
    let mut lines: Vec<Vec<char>> = Vec::new();
    let mut head_line: Vec<char> = Vec::new();
    push_row(&mut head_line, &cols, &widths, &heads, Ghost(wspec));
    let ghost head_text = head_line@;
    lines.push(head_line);
    let ruler = repeat_exec('-', fixed);
    let ghost ruler_text = ruler@;
    lines.push(ruler);
    let ghost top = views(lines@);
    assert(top =~= seq![head_text, ruler_text]);
    let mut r: usize = 0;
    while r < states.len()
        invariant
            r <= states@.len(),
            rows == derefs(states@),
            cols@ == effective_columns(rows, *opts),
            widths@.len() == cols@.len(),
            wspec == Seq::new(cols@.len(), |j: int| col_width(cols@[j], rows)),
            forall|j: int| 0 <= j < widths@.len() ==> wspec[j] == widths@[j] as nat,
            views(lines@) == top + Seq::new(r as nat, |q: int| row_text(cols@, wspec, row_cells(cols@, wspec, rows[q], title_max as nat))),
        decreases states@.len() - r,
    {
        let s = states[r];
        let mut cells: Vec<Vec<char>> = Vec::new();
        let mut k: usize = 0;
        while k < cols.len()
            invariant
                k <= cols@.len(),
                widths@.len() == cols@.len(),
                forall|j: int| 0 <= j < widths@.len() ==> wspec[j] == widths@[j] as nat,
                cells@.len() == k,
                forall|j: int| 0 <= j < k ==> #[trigger] cells@[j]@ == cell(cols@[j], *s, if cols@[j] == Column::Title { title_max as nat } else { wspec[j] }),
            decreases cols@.len() - k,
        {
            let m = if cols[k] == Column::Title { title_max } else { widths[k] };
            cells.push(cell_exec(cols[k], s, m));
            k += 1;
        }
        proof {
            assert(rows[r as int] == *s);
            assert(views(cells@) =~= row_cells(cols@, wspec, rows[r as int], title_max as nat));
        }
        let mut line: Vec<char> = Vec::new();
        push_row(&mut line, &cols, &widths, &cells, Ghost(wspec));
        let ghost prev = views(lines@);
        lines.push(line);
        proof {
            assert(views(lines@) =~= prev.push(line@));
        }
        r += 1;
    }
    let ghost body = views(lines@);
    lines.push(Vec::new());
    proof {
        let spacing_s: nat = if cols@.len() >= 1 { ((cols@.len() - 1) * 2) as nat } else { 0 };
        assert(fixed == width_sum(wspec, wspec.len()) + spacing_s + 2);
        assert(title_max as nat == title_budget(fixed as nat, term));
        assert(head_text == row_text(cols@, wspec, Seq::new(cols@.len(), |i: int| column_header(cols@[i]))));
        assert(ruler_text == repeat('-', fixed as nat));
        assert(r == rows.len());
        assert(views(lines@) =~= body.push(Seq::<char>::empty()));
        assert(views(lines@) =~= seq![
            row_text(cols@, wspec, Seq::new(cols@.len(), |i: int| column_header(cols@[i]))),
            repeat('-', fixed as nat),
        ] + Seq::new(rows.len(), |q: int| row_text(cols@, wspec, row_cells(cols@, wspec, rows[q], title_max as nat)))
            + seq![Seq::<char>::empty()]);
    }
    join_to_string(&lines, "\n")
}

/// The header row of a table: the headers of the shown columns, in
/// order, each padded to its column's width.
pub open spec fn ls_header(rows: Seq<ThreadState>, opts: LsRenderOptions) -> Seq<char> {
    let cols = effective_columns(rows, opts);
    row_text(
        cols,
        Seq::new(cols.len(), |i: int| col_width(cols[i], rows)),
        Seq::new(cols.len(), |i: int| column_header(cols[i])),
    )
}

/// Law of [`render_ls`] and [`render_ls_for_width`]: for at least one
/// thread the table is, line by line, the header
/// row (see [`ls_header`]; the columns are the pinned ones, else those of
/// [`lemma_default_columns`]), a ruler of `-` only, one row per thread,
/// and a closing empty line.
pub proof fn lemma_ls_layout(rows: Seq<ThreadState>, opts: LsRenderOptions, term: Option<u16>)
    requires
        rows.len() > 0,
    ensures
        exists|ruler: Seq<char>, body: Seq<Seq<char>>|
            #![trigger ls_lines(ls_header(rows, opts), ruler, body)]
            ls_text(rows, opts, term) == join(ls_lines(ls_header(rows, opts), ruler, body), "\n"@) && (forall|k: int|
                0 <= k < ruler.len() ==> ruler[k] == '-') && body.len() == rows.len(),
        opts.columns matches Some(p) ==> effective_columns(rows, opts) == p@,
        opts.columns is None ==> effective_columns(rows, opts) == shown_columns(rows, opts.force_branch_column, 8),
{
    let cols = effective_columns(rows, opts);
    let widths = Seq::new(cols.len(), |i: int| col_width(cols[i], rows));
    let spacing: nat = if cols.len() >= 1 { ((cols.len() - 1) * 2) as nat } else { 0 };
    let fixed = width_sum(widths, widths.len()) + spacing + 2;
    let tm = title_budget(fixed, term);
    let ruler = repeat('-', fixed);
    let body = Seq::new(rows.len(), |k: int| row_text(cols, widths, row_cells(cols, widths, rows[k], tm)));
    assert(ls_lines(ls_header(rows, opts), ruler, body) =~= seq![
        row_text(cols, widths, Seq::new(cols.len(), |i: int| column_header(cols[i]))),
        ruler,
    ] + body + seq![Seq::<char>::empty()]);
}

/// The lines of a table: header, ruler, rows, and an empty last line.
pub open spec fn ls_lines(header: Seq<char>, ruler: Seq<char>, body: Seq<Seq<char>>) -> Seq<Seq<char>> {
    seq![header, ruler] + body + seq![Seq::<char>::empty()]
}

/// Law of [`render_ls`]: without pinned columns the table shows ID, LIFECYCLE and STATUS,
/// then TAGS when some thread has tags, BRANCH when the branch filter pins
/// it or some thread has a branch, then CREATED, UPDATED and TITLE.
pub proof fn lemma_default_columns(rows: Seq<ThreadState>, force_branch: bool)
    ensures
        shown_columns(rows, force_branch, 8) == seq![Column::Id, Column::Lifecycle, Column::Status] + (if exists|i: int|
            0 <= i < rows.len() && (#[trigger] rows[i]).tags@.len() > 0 {
            seq![Column::Tags]
        } else {
            seq![]
        }) + (if force_branch || exists|i: int| 0 <= i < rows.len() && (#[trigger] rows[i]).branch is Some {
            seq![Column::Branch]
        } else {
            seq![]
        }) + seq![Column::Created, Column::Updated, Column::Title],
{
    let s3 = shown_columns(rows, force_branch, 3);
    assert(shown_columns(rows, force_branch, 0) == Seq::<Column>::empty());
    assert(shown_columns(rows, force_branch, 1) == seq![Column::Id]);
    assert(shown_columns(rows, force_branch, 2) =~= seq![Column::Id, Column::Lifecycle]);
    assert(s3 =~= seq![Column::Id, Column::Lifecycle, Column::Status]);
    let tags = if exists|i: int| 0 <= i < rows.len() && (#[trigger] rows[i]).tags@.len() > 0 {
        seq![Column::Tags]
    } else {
        seq![]
    };
    let branch = if force_branch || exists|i: int| 0 <= i < rows.len() && (#[trigger] rows[i]).branch is Some {
        seq![Column::Branch]
    } else {
        seq![]
    };
    assert(shown_columns(rows, force_branch, 4) =~= s3 + tags);
    assert(shown_columns(rows, force_branch, 5) =~= s3 + tags + branch);
    assert(shown_columns(rows, force_branch, 6) =~= s3 + tags + branch + seq![Column::Created]);
    assert(shown_columns(rows, force_branch, 7) =~= s3 + tags + branch + seq![Column::Created, Column::Updated]);
    assert(shown_columns(rows, force_branch, 8) =~= s3 + tags + branch + seq![
        Column::Created,
        Column::Updated,
        Column::Title,
    ]);
}

proof fn lemma_shown_len(rows: Seq<ThreadState>, force: bool, n: nat)
    ensures
        shown_columns(rows, force, n).len() <= n,
    decreases n,
{
    if n > 0 && n <= 8 {
        lemma_shown_len(rows, force, (n - 1) as nat);
    }
}

/// Render `git forum ls` output for a list of threads: the table of
/// [`ls_text`] for the width of the terminal stdout is on (titles are
/// not cut when that is unknown).
pub fn render_ls(states: &[&ThreadState], opts: &LsRenderOptions) -> (r: String)
    requires
        opts.columns matches Some(p) ==> ruler_fits(p@.len()),
    ensures
        exists|term: Option<u16>| r@ == ls_text(derefs(states@), *opts, term),
{
    let term = terminal_width();
    render_ls_for_width(states, opts, term)
}


// ---------------------------------------------------------------------------
// `git forum shortlog`
// ---------------------------------------------------------------------------

/// One thread that reached a terminal status, with when it did.
pub struct ShortlogEntry<'a> {
    pub state: &'a ThreadState,
    pub reached: Timestamp,
}

pub open spec fn entry_vals(es: Seq<ShortlogEntry>) -> Seq<(ThreadState, Timestamp)> {
    Seq::new(es.len(), |i: int| (*es[i].state, es[i].reached))
}

/// `a` is no later than `b`.
pub open spec fn ts_le(a: Timestamp, b: Timestamp) -> bool {
    a.secs < b.secs || (a.secs == b.secs && a.nanos <= b.nanos)
}

/// `x` inserted into `s` after every element no later than it.
pub open spec fn insert_by_time(s: Seq<(ThreadState, Timestamp)>, x: (ThreadState, Timestamp)) -> Seq<
    (ThreadState, Timestamp),
>
    decreases s.len(),
{
    if s.len() == 0 {
        seq![x]
    } else if ts_le(s.last().1, x.1) {
        s.push(x)
    } else {
        insert_by_time(s.drop_last(), x).push(s.last())
    }
}

/// The entries in order of time; entries at the same time keep their
/// order (a stable sort).
pub open spec fn sort_by_time(s: Seq<(ThreadState, Timestamp)>) -> Seq<(ThreadState, Timestamp)>
    decreases s.len(),
{
    if s.len() == 0 {
        seq![]
    } else {
        insert_by_time(sort_by_time(s.drop_last()), s.last())
    }
}

/// In order of time.
pub open spec fn time_sorted(s: Seq<(ThreadState, Timestamp)>) -> bool {
    forall|i: int, j: int| 0 <= i < j < s.len() ==> ts_le(#[trigger] s[i].1, #[trigger] s[j].1)
}

proof fn lemma_insert_by_time(s: Seq<(ThreadState, Timestamp)>, x: (ThreadState, Timestamp))
    requires
        time_sorted(s),
    ensures
        time_sorted(insert_by_time(s, x)),
        insert_by_time(s, x).to_multiset() =~= s.to_multiset().insert(x),
    decreases s.len(),
{
    broadcast use vstd::seq_lib::to_multiset_build;

    if s.len() == 0 {
        assert(s =~= Seq::<(ThreadState, Timestamp)>::empty());
        assert(seq![x] =~= s.push(x));
    } else if ts_le(s.last().1, x.1) {
        assert forall|i: int, j: int| 0 <= i < j < s.push(x).len() implies ts_le(#[trigger] s.push(x)[i].1, #[trigger] s.push(x)[j].1) by {
            if j == s.len() {
                if i < s.len() - 1 {
                    assert(ts_le(s[i].1, s[s.len() - 1].1));
                }
            }
        }
    } else {
        let d = s.drop_last();
        let l = s.last();
        assert(s =~= d.push(l));
        assert forall|i: int, j: int| 0 <= i < j < d.len() implies ts_le(#[trigger] d[i].1, #[trigger] d[j].1) by {
            assert(d[i] == s[i] && d[j] == s[j]);
        }
        lemma_insert_by_time(d, x);
        let m = insert_by_time(d, x);
        assert forall|k: int| 0 <= k < m.len() implies ts_le(#[trigger] m[k].1, l.1) by {
            assert(m.to_multiset().count(m[k]) > 0) by {
                vstd::seq_lib::to_multiset_contains(m, m[k]);
                assert(m.contains(m[k]));
            }
            if m[k] != x {
                assert(d.to_multiset().count(m[k]) > 0);
                vstd::seq_lib::to_multiset_contains(d, m[k]);
                let q = choose|q: int| 0 <= q < d.len() && d[q] == m[k];
                assert(ts_le(s[q].1, s[s.len() - 1].1));
            }
        }
        assert forall|i: int, j: int| 0 <= i < j < m.push(l).len() implies ts_le(#[trigger] m.push(l)[i].1, #[trigger] m.push(l)[j].1) by {
            if j == m.len() {
                assert(ts_le(m[i].1, l.1));
            } else {
                assert(m.push(l)[i] == m[i] && m.push(l)[j] == m[j]);
            }
        }
        assert(m.push(l).to_multiset() =~= m.to_multiset().insert(l));
        assert(s.to_multiset() =~= d.to_multiset().insert(l));
    }
}

/// The shortlog's order: sorting by time gives the same entries, each as
/// often, in order of time.
pub proof fn lemma_sort_by_time(s: Seq<(ThreadState, Timestamp)>)
    ensures
        time_sorted(sort_by_time(s)),
        sort_by_time(s).to_multiset() =~= s.to_multiset(),
    decreases s.len(),
{
    broadcast use vstd::seq_lib::to_multiset_build;

    if s.len() > 0 {
        lemma_sort_by_time(s.drop_last());
        lemma_insert_by_time(sort_by_time(s.drop_last()), s.last());
        assert(s =~= s.drop_last().push(s.last()));
        assert(s.to_multiset() =~= s.drop_last().to_multiset().insert(s.last()));
    } else {
        assert(s =~= Seq::<(ThreadState, Timestamp)>::empty());
        assert(sort_by_time(s) =~= s);
    }
}

/// The lifecycle label of a thread.
pub open spec fn label_of(s: ThreadState) -> Seq<char> {
    lifecycle_name(lifecycle_for_category(s.category@, strs(s.tags@)))
}

/// The entries whose thread has lifecycle label `label`, in order.
pub open spec fn in_group(es: Seq<(ThreadState, Timestamp)>, label: Seq<char>) -> Seq<(ThreadState, Timestamp)>
    decreases es.len(),
{
    if es.len() == 0 {
        seq![]
    } else {
        let r = in_group(es.drop_last(), label);
        if label_of(es.last().0) == label {
            r.push(es.last())
        } else {
            r
        }
    }
}

pub open spec fn states_of(es: Seq<(ThreadState, Timestamp)>) -> Seq<ThreadState> {
    Seq::new(es.len(), |i: int| es[i].0)
}

/// One line of a shortlog group: ID, status and date padded to their
/// widths, then the title cut to the budget.
pub open spec fn shortlog_row(idw: nat, sw: nat, id: Seq<char>, status: Seq<char>, date: Seq<char>, title: Seq<char>) -> Seq<char> {
    pad_right(id, idw) + "  "@ + pad_right(status, sw) + "  "@ + pad_right(date, 16) + "  "@ + title
}

/// The block of one lifecycle: a heading with the count, a header row,
/// and a row per thread in order of time; nothing when the group is
/// empty.
pub open spec fn shortlog_block(es: Seq<(ThreadState, Timestamp)>, label: Seq<char>, term: Option<u16>) -> Seq<Seq<char>> {
    let g = sort_by_time(in_group(es, label));
    let rows = states_of(g);
    let idw = col_width(Column::Id, rows);
    let sw = col_width(Column::Status, rows);
    let tmax = title_budget((idw + sw + 16 + 8) as nat, term);
    if g.len() == 0 {
        seq![]
    } else {
        seq![
            "## "@ + label + " ("@ + decimal(g.len()) + " "@ + (if g.len() == 1 { "thread"@ } else { "threads"@ }) + ")"@,
            shortlog_row(idw, sw, "ID"@, "STATUS"@, "RESOLVED"@, "TITLE"@),
        ] + Seq::new(
            g.len(),
            |i: int| shortlog_row(idw, sw, g[i].0.id@, g[i].0.status@, date_cell(g[i].1), title_cell(g[i].0.title@, tmax)),
        )
    }
}

/// Two blocks with a blank line between them when both have lines.
pub open spec fn sep_concat(a: Seq<Seq<char>>, b: Seq<Seq<char>>) -> Seq<Seq<char>> {
    if a.len() == 0 {
        b
    } else if b.len() == 0 {
        a
    } else {
        a + seq![Seq::<char>::empty()] + b
    }
}

/// `git forum shortlog`: the proposal, execution and record blocks
/// separated by blank lines; a fixed message when no thread is listed.
pub open spec fn shortlog_text(es: Seq<(ThreadState, Timestamp)>, term: Option<u16>) -> Seq<char> {
    if es.len() == 0 {
        "no threads reached terminal state in the given period\n"@
    } else {
        join(
            sep_concat(
                sep_concat(shortlog_block(es, "proposal"@, term), shortlog_block(es, "execution"@, term)),
                shortlog_block(es, "record"@, term),
            ) + seq![Seq::<char>::empty()],
            "\n"@,
        )
    }
}

/// The position at which `x` is inserted: after the last element no
/// later than it.
proof fn lemma_insert_at(s: Seq<(ThreadState, Timestamp)>, x: (ThreadState, Timestamp), p: int)
    requires
        0 <= p <= s.len(),
        p == 0 || ts_le(s[p - 1].1, x.1),
        forall|j: int| p <= j < s.len() ==> !ts_le(#[trigger] s[j].1, x.1),
    ensures
        insert_by_time(s, x) == s.take(p) + seq![x] + s.skip(p),
    decreases s.len(),
{
    if s.len() == 0 {
        assert(s.take(p) + seq![x] + s.skip(p) =~= seq![x]);
    } else if p == s.len() {
        assert(s.take(p) + seq![x] + s.skip(p) =~= s.push(x));
    } else {
        let d = s.drop_last();
        assert forall|j: int| p <= j < d.len() implies !ts_le(#[trigger] d[j].1, x.1) by {
            assert(d[j] == s[j]);
        }
        if p > 0 {
            assert(d[p - 1] == s[p - 1]);
        }
        lemma_insert_at(d, x, p);
        assert(!ts_le(s.last().1, x.1));
        assert(d.take(p) + seq![x] + d.skip(p) + seq![s.last()] =~= s.take(p) + seq![x] + s.skip(p));
    }
}

pub open spec fn at_entries(es: Seq<(ThreadState, Timestamp)>, ix: Seq<usize>) -> Seq<(ThreadState, Timestamp)> {
    Seq::new(ix.len(), |k: int| es[ix[k] as int])
}

fn ts_le_exec(a: Timestamp, b: Timestamp) -> (r: bool)
    ensures
        r == ts_le(a, b),
{
    a.secs < b.secs || (a.secs == b.secs && a.nanos <= b.nanos)
}

/// The indices of a group's entries, in order of time.
fn group_sorted(entries: &[ShortlogEntry], label: &str) -> (r: Vec<usize>)
    ensures
        at_entries(entry_vals(entries@), r@) == sort_by_time(in_group(entry_vals(entries@), label@)),
        forall|k: int| 0 <= k < r@.len() ==> (#[trigger] r@[k]) < entries@.len(),
{
    let ghost es = entry_vals(entries@);
    let mut g: Vec<usize> = Vec::new();
    let mut i: usize = 0;
    while i < entries.len()
        invariant
            i <= entries@.len(),
            es == entry_vals(entries@),
            at_entries(es, g@) == sort_by_time(in_group(es.take(i as int), label@)),
            forall|k: int| 0 <= k < g@.len() ==> (#[trigger] g@[k]) < entries@.len(),
        decreases entries@.len() - i,
    {
        proof {
            assert(es.take(i + 1).drop_last() =~= es.take(i as int));
            assert(es.take(i + 1).last() == es[i as int]);
        }
        let e = &entries[i];
        proof {
            assert(es[i as int] == (*entries@[i as int].state, entries@[i as int].reached));
        }
        let in_label = str_eq(lifecycle_label_for(e.state.category.as_str(), e.state.tags.as_slice()), label);
        proof {
            assert(in_label == (label_of(es[i as int].0) == label@));
            if in_label {
                assert(in_group(es.take(i + 1), label@) == in_group(es.take(i as int), label@).push(es[i as int]));
                assert(in_group(es.take(i + 1), label@).drop_last() =~= in_group(es.take(i as int), label@));
            } else {
                assert(in_group(es.take(i + 1), label@) == in_group(es.take(i as int), label@));
            }
        }
        if in_label {
            let ghost s = at_entries(es, g@);
            let x = e.reached;
            let mut p: usize = g.len();
            while p > 0 && !ts_le_exec(entries[g[p - 1]].reached, x)
                invariant
                    p <= g@.len(),
                    s == at_entries(es, g@),
                    forall|k: int| 0 <= k < g@.len() ==> (#[trigger] g@[k]) < entries@.len(),
                    es == entry_vals(entries@),
                    x == es[i as int].1,
                    forall|j: int| p <= j < s.len() ==> !ts_le(#[trigger] s[j].1, x),
                decreases p,
            {
                p -= 1;
            }
            proof {
                lemma_insert_at(s, es[i as int], p as int);
                assert(in_group(es.take(i + 1), label@) == in_group(es.take(i as int), label@).push(es[i as int]));
            }
            g.insert(p, i);
            proof {
                assert(at_entries(es, g@) =~= s.take(p as int) + seq![es[i as int]] + s.skip(p as int));
            }
        }
        i += 1;
    }
    proof {
        assert(es.take(i as int) =~= es);
    }
    g
}

fn shortlog_row_exec(idw: usize, sw: usize, id: &[char], status: &[char], date: &[char], title: &[char]) -> (r: Vec<char>)
    ensures
        r@ == shortlog_row(idw as nat, sw as nat, id@, status@, date@, title@),
{
    let mut v = pad_right_exec(id, idw);
    push_str(&mut v, "  ");
    let s = pad_right_exec(status, sw);
    append_chars(&mut v, s.as_slice());
    push_str(&mut v, "  ");
    let d = pad_right_exec(date, 16);
    append_chars(&mut v, d.as_slice());
    push_str(&mut v, "  ");
    append_chars(&mut v, title);
    v
}

fn shortlog_block_exec(entries: &[ShortlogEntry], label: &str, term: Option<u16>) -> (r: Vec<Vec<char>>)
    ensures
        views(r@) == shortlog_block(entry_vals(entries@), label@, term),
{
    let ghost es = entry_vals(entries@);
    let g = group_sorted(entries, label);
    let ghost gs = at_entries(es, g@);
    let mut out: Vec<Vec<char>> = Vec::new();
    if g.len() == 0 {
        proof {
            assert(views(out@) =~= shortlog_block(es, label@, term));
        }
        return out;
    }
    let mut refs: Vec<&ThreadState> = Vec::new();
    let mut k: usize = 0;
    while k < g.len()
        invariant
            k <= g@.len(),
            forall|q: int| 0 <= q < g@.len() ==> (#[trigger] g@[q]) < entries@.len(),
            es == entry_vals(entries@),
            gs == at_entries(es, g@),
            derefs(refs@) == states_of(gs).take(k as int),
        decreases g@.len() - k,
    {
        let ghost before = derefs(refs@);
        refs.push(entries[g[k]].state);
        proof {
            assert(gs[k as int] == es[g@[k as int] as int]);
            assert(es[g@[k as int] as int].0 == *entries@[g@[k as int] as int].state);
            assert(derefs(refs@) =~= before.push(gs[k as int].0));
            assert(states_of(gs).take(k + 1) =~= states_of(gs).take(k as int).push(gs[k as int].0));
        }
        k += 1;
    }
    proof {
        assert(states_of(gs).take(k as int) =~= states_of(gs));
    }
    let idw = col_width_exec(Column::Id, refs.as_slice());
    let sw = col_width_exec(Column::Status, refs.as_slice());
    let fixed = idw + sw + 16 + 8;
    let tmax: usize = match term {
        Some(w) => {
            let wv: usize = if w >= 40 { w as usize } else { 0 };
            if wv >= fixed { wv - fixed } else { 0 }
        },
        None => 0,
    };
    proof {
        assert(tmax == title_budget((idw + sw + 16 + 8) as nat, term));
    }
    let n = g.len();
    let mut h = chars_of("## ");
    push_str(&mut h, label);
    push_str(&mut h, " (");
    crate::text::push_usize(&mut h, n);
    push_str(&mut h, " ");
    if n == 1 {
        push_str(&mut h, "thread");
    } else {
        push_str(&mut h, "threads");
    }
    push_str(&mut h, ")");
    let ghost hv = h@;
    out.push(h);
    let ih = chars_of("ID");
    let sh = chars_of("STATUS");
    let dh = chars_of("RESOLVED");
    let th = chars_of("TITLE");
    let hdr = shortlog_row_exec(idw, sw, ih.as_slice(), sh.as_slice(), dh.as_slice(), th.as_slice());
    out.push(hdr);
    let ghost head = views(out@);
    let mut i: usize = 0;
    while i < n
        invariant
            i <= n,
            n == g@.len(),
            forall|q: int| 0 <= q < g@.len() ==> (#[trigger] g@[q]) < entries@.len(),
            es == entry_vals(entries@),
            gs == at_entries(es, g@),
            views(out@) == head + Seq::new(
                i as nat,
                |q: int| shortlog_row(idw as nat, sw as nat, gs[q].0.id@, gs[q].0.status@, date_cell(gs[q].1), title_cell(gs[q].0.title@, tmax as nat)),
            ),
        decreases n - i,
    {
        let e = &entries[g[i]];
        let idc = chars_of(e.state.id.as_str());
        let stc = chars_of(e.state.status.as_str());
        let dc = date_cell_exec(e.reached);
        let tc = title_cell_exec(e.state.title.as_str(), tmax);
        let row = shortlog_row_exec(idw, sw, idc.as_slice(), stc.as_slice(), dc.as_slice(), tc.as_slice());
        let ghost before = views(out@);
        out.push(row);
        proof {
            assert(views(out@) =~= before.push(row@));
            assert(views(out@) =~= head + Seq::new(
                (i + 1) as nat,
                |q: int| shortlog_row(idw as nat, sw as nat, gs[q].0.id@, gs[q].0.status@, date_cell(gs[q].1), title_cell(gs[q].0.title@, tmax as nat)),
            ));
        }
        i += 1;
    }
    proof {
        assert(gs.len() == n);
        assert(derefs(refs@) == states_of(gs));
        assert(hv =~= "## "@ + label@ + " ("@ + decimal(gs.len()) + " "@ + (if gs.len() == 1 {
            "thread"@
        } else {
            "threads"@
        }) + ")"@);
        assert(views(out@) =~= shortlog_block(es, label@, term));
    }
    out
}

fn sep_concat_exec(a: Vec<Vec<char>>, b: Vec<Vec<char>>) -> (r: Vec<Vec<char>>)
    ensures
        views(r@) == sep_concat(views(a@), views(b@)),
{
    if a.len() == 0 {
        return b;
    }
    if b.len() == 0 {
        return a;
    }
    let mut out = a;
    let ghost av = views(out@);
    out.push(Vec::new());
    let mut i: usize = 0;
    while i < b.len()
        invariant
            i <= b@.len(),
            views(out@) == av + seq![Seq::<char>::empty()] + views(b@).take(i as int),
        decreases b@.len() - i,
    {
        let ghost before = views(out@);
        out.push(b[i].clone());
        proof {
            assert(views(out@) =~= before.push(b@[i as int]@));
            assert(views(b@).take(i + 1) =~= views(b@).take(i as int).push(b@[i as int]@));
        }
        i += 1;
    }
    proof {
        assert(views(b@).take(i as int) =~= views(b@));
    }
    out
}

/// The shortlog for a terminal of the given width (see
/// [`shortlog_text`]).
pub fn render_shortlog_for_width(entries: &[ShortlogEntry], term: Option<u16>) -> (r: String)
    ensures
        r@ == shortlog_text(entry_vals(entries@), term),
{
    if entries.len() == 0 {
        return crate::text::string_from("no threads reached terminal state in the given period\n");
    }
    let p = shortlog_block_exec(entries, "proposal", term);
    let e = shortlog_block_exec(entries, "execution", term);
    let r = shortlog_block_exec(entries, "record", term);
    let pe = sep_concat_exec(p, e);
    let mut all = sep_concat_exec(pe, r);
    let ghost before = views(all@);
    all.push(Vec::new());
    proof {
        let es = entry_vals(entries@);
        assert(views(all@) =~= before.push(Seq::<char>::empty()));
        assert(views(all@) =~= sep_concat(
            sep_concat(shortlog_block(es, "proposal"@, term), shortlog_block(es, "execution"@, term)),
            shortlog_block(es, "record"@, term),
        ) + seq![Seq::<char>::empty()]);
        assert(es.len() != 0);
    }
    join_to_string(&all, "\n")
}

/// `git forum shortlog`: threads grouped by lifecycle, each group in order
/// of when they reached their terminal status, for the width of the
/// terminal stdout is on (titles are not cut when that is unknown).
pub fn render_shortlog(entries: &[ShortlogEntry]) -> (r: String)
    ensures
        exists|term: Option<u16>| r@ == shortlog_text(entry_vals(entries@), term),
{
    let term = terminal_width();
    render_shortlog_for_width(entries, term)
}

} // verus!
