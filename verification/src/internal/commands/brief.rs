//! `git forum brief`: a short digest of one thread, as text or as the
//! fields of a JSON document.

use vstd::prelude::*;

use crate::internal::commands::verify::is_open_node;
use crate::internal::config::RepoPaths;
use crate::internal::event::{lifecycle_name, NodeType};
use crate::internal::evidence::{evidence_kind_name, format_timestamp, timestamp_text};
use crate::internal::node::{node_type_canonical, node_type_name, Node};
use crate::internal::policy::{lifecycle_for_category, lifecycle_label_for};
use crate::internal::thread::{ThreadLink, ThreadState};
use crate::text::{
    append_chars, chars_of, decimal, is_tally, join, join_chars, join_to_string, occurrences,
    prefix_within, prefix_within_exec, push_str, push_usize, replace_char, replace_char_exec,
    slice_range, sorted_lex, no_dups, string_from, string_of, strs, tally, utf8_len, views,
};

verus! {

/// A relation and how many links carry it.
#[derive(Debug, Clone)]
pub struct LinkCount {
    pub rel: String,
    pub count: usize,
}

/// Incoming links of a thread, counted by relation.
#[derive(Debug, Clone, Default)]
pub struct IncomingLinkCounts {
    /// One entry per relation, in ascending order of the relation.
    pub by_rel: Vec<LinkCount>,
}

pub open spec fn rels(v: Seq<LinkCount>) -> Seq<Seq<char>> {
    Seq::new(v.len(), |i: int| v[i].rel@)
}

/// The sum of the counts.
pub open spec fn count_sum(v: Seq<LinkCount>) -> nat
    decreases v.len(),
{
    if v.len() == 0 {
        0
    } else {
        count_sum(v.drop_last()) + v.last().count as nat
    }
}

/// The count for `rel`, if it has one.
pub open spec fn count_for(v: Seq<LinkCount>, rel: Seq<char>) -> Option<usize>
    decreases v.len(),
{
    if v.len() == 0 {
        None
    } else if v.last().rel@ == rel {
        Some(v.last().count)
    } else {
        count_for(v.drop_last(), rel)
    }
}

impl IncomingLinkCounts {
    /// Relations in ascending order, each once.
    pub open spec fn wf(&self) -> bool {
        sorted_lex(rels(self.by_rel@)) && no_dups(rels(self.by_rel@))
    }

    /// The total number of incoming links.
    pub fn total(&self) -> (r: usize)
        requires
            count_sum(self.by_rel@) <= usize::MAX,
        ensures
            r == count_sum(self.by_rel@),
    {
        let mut t: usize = 0;
        let mut i: usize = 0;
        while i < self.by_rel.len()
            invariant
                i <= self.by_rel@.len(),
                t == count_sum(self.by_rel@.take(i as int)),
                count_sum(self.by_rel@) <= usize::MAX,
            decreases self.by_rel@.len() - i,
        {
            proof {
                assert(self.by_rel@.take(i + 1).drop_last() =~= self.by_rel@.take(i as int));
                lemma_count_sum_prefix(self.by_rel@, i + 1);
            }
            t = t + self.by_rel[i].count;
            i += 1;
        }
        proof {
            assert(self.by_rel@.take(i as int) =~= self.by_rel@);
        }
        t
    }

    /// Set the count of `rel` (as `BTreeMap::insert` does): the order of
    /// relations is kept, and an existing count is replaced.
    pub fn insert(&mut self, rel: &str, count: usize)
        requires
            old(self).wf(),
        ensures
            final(self).wf(),
            forall|x: Seq<char>| rels(final(self).by_rel@).contains(x) <==> (rels(old(self).by_rel@).contains(x) || x == rel@),
            count_for(final(self).by_rel@, rel@) == Some(count),
            forall|x: Seq<char>| x != rel@ ==> count_for(final(self).by_rel@, x) == count_for(old(self).by_rel@, x),
    {
        let mut names: Vec<Vec<char>> = Vec::new();
        let mut i: usize = 0;
        while i < self.by_rel.len()
            invariant
                i <= self.by_rel@.len(),
                views(names@) == rels(self.by_rel@).take(i as int),
            decreases self.by_rel@.len() - i,
        {
            let ghost before = views(names@);
            names.push(chars_of(self.by_rel[i].rel.as_str()));
            proof {
                assert(views(names@) =~= before.push(self.by_rel@[i as int].rel@));
                assert(rels(self.by_rel@).take(i + 1) =~= rels(self.by_rel@).take(i as int).push(self.by_rel@[i as int].rel@));
            }
            i += 1;
        }
        let ghost old_names = views(names@);
        names.push(chars_of(rel));
        proof {
            assert(rels(self.by_rel@).take(i as int) =~= rels(self.by_rel@));
            assert(views(names@) =~= rels(self.by_rel@).push(rel@));
        }
        let keys = crate::text::sorted_distinct(&names);
        let mut out: Vec<LinkCount> = Vec::new();
        let mut k: usize = 0;
        while k < keys.len()
            invariant
                k <= keys@.len(),
                views(names@) == rels(self.by_rel@).push(rel@),
                forall|x: Seq<char>| strs(keys@).contains(x) <==> views(names@).contains(x),
                out@.len() == k,
                forall|j: int| 0 <= j < k ==> (#[trigger] out@[j]).rel@ == keys@[j]@,
                forall|j: int| 0 <= j < k ==> Some((#[trigger] out@[j]).count) == (if keys@[j]@ == rel@ {
                    Some(count)
                } else {
                    count_for(self.by_rel@, keys@[j]@)
                }),
            decreases keys@.len() - k,
        {
            let c = if crate::text::str_eq(keys[k].as_str(), rel) {
                count
            } else {
                match lookup(&self.by_rel, keys[k].as_str()) {
                    Some(c) => c,
                    None => 0,
                }
            };
            proof {
                if keys@[k as int]@ != rel@ {
                    assert(strs(keys@)[k as int] == keys@[k as int]@);
                    assert(strs(keys@).contains(keys@[k as int]@));
                    assert(views(names@).contains(keys@[k as int]@));
                    let q = choose|q: int| 0 <= q < views(names@).len() && views(names@)[q] == keys@[k as int]@;
                    assert(q < rels(self.by_rel@).len());
                    assert(rels(self.by_rel@)[q] == keys@[k as int]@);
                    lemma_count_for_present(self.by_rel@, keys@[k as int]@);
                }
            }
            out.push(LinkCount { rel: string_from(keys[k].as_str()), count: c });
            k += 1;
        }
        proof {
            assert(rels(out@) =~= strs(keys@));
            assert forall|x: Seq<char>| views(names@).contains(x) <==> (rels(self.by_rel@).contains(x) || x == rel@) by {
                if views(names@).contains(x) {
                    let q = choose|q: int| 0 <= q < views(names@).len() && views(names@)[q] == x;
                    if q < rels(self.by_rel@).len() {
                        assert(rels(self.by_rel@)[q] == x);
                    }
                }
                if rels(self.by_rel@).contains(x) {
                    let q = choose|q: int| 0 <= q < rels(self.by_rel@).len() && rels(self.by_rel@)[q] == x;
                    assert(views(names@)[q] == x);
                }
                if x == rel@ {
                    assert(views(names@)[views(names@).len() - 1] == rel@);
                }
            }
            assert forall|x: Seq<char>| x == rel@ || rels(out@).contains(x) implies count_for(out@, x) == (if x == rel@ {
                Some(count)
            } else {
                count_for(self.by_rel@, x)
            }) by {
                if rels(out@).contains(x) {
                    let j = choose|j: int| 0 <= j < rels(out@).len() && rels(out@)[j] == x;
                    lemma_count_for_at(out@, j);
                } else if x == rel@ {
                    assert(views(names@)[views(names@).len() - 1] == rel@);
                    assert(views(names@).contains(rel@));
                    assert(strs(keys@).contains(rel@));
                }
            }
            assert forall|x: Seq<char>| x != rel@ implies count_for(out@, x) == count_for(self.by_rel@, x) by {
                if rels(out@).contains(x) {
                } else {
                    lemma_count_for_absent(out@, x);
                    if rels(self.by_rel@).contains(x) {
                        let q = choose|q: int| 0 <= q < rels(self.by_rel@).len() && rels(self.by_rel@)[q] == x;
                        assert(views(names@)[q] == x);
                        assert(views(names@).contains(x));
                    }
                    lemma_count_for_absent(self.by_rel@, x);
                }
            }
        }
        self.by_rel = out;
    }
}

proof fn lemma_count_sum_prefix(v: Seq<LinkCount>, n: int)
    requires
        0 <= n <= v.len(),
    ensures
        count_sum(v.take(n)) <= count_sum(v),
    decreases v.len() - n,
{
    if n < v.len() {
        lemma_count_sum_prefix(v, n + 1);
        assert(v.take(n + 1).drop_last() =~= v.take(n));
    } else {
        assert(v.take(n) =~= v);
    }
}

/// A relation that is not listed has no count.
proof fn lemma_count_for_absent(v: Seq<LinkCount>, x: Seq<char>)
    requires
        !rels(v).contains(x),
    ensures
        count_for(v, x) is None,
    decreases v.len(),
{
    if v.len() > 0 {
        assert(rels(v)[v.len() - 1] == v.last().rel@);
        assert(rels(v.drop_last()) =~= rels(v).drop_last());
        lemma_count_for_absent(v.drop_last(), x);
    }
}

/// A listed relation has a count.
proof fn lemma_count_for_present(v: Seq<LinkCount>, x: Seq<char>)
    requires
        rels(v).contains(x),
    ensures
        count_for(v, x) is Some,
    decreases v.len(),
{
    if v.len() > 0 && v.last().rel@ != x {
        let j = choose|j: int| 0 <= j < rels(v).len() && rels(v)[j] == x;
        assert(j < v.len() - 1);
        assert(rels(v.drop_last())[j] == x);
        lemma_count_for_present(v.drop_last(), x);
    }
}

/// With relations each listed once, the count of the `j`-th is its own.
proof fn lemma_count_for_at(v: Seq<LinkCount>, j: int)
    requires
        0 <= j < v.len(),
        no_dups(rels(v)),
    ensures
        count_for(v, v[j].rel@) == Some(v[j].count),
    decreases v.len(),
{
    if j < v.len() - 1 {
        assert(rels(v)[j] != rels(v)[v.len() - 1]);
        assert(no_dups(rels(v.drop_last()))) by {
            assert forall|a: int, b: int| 0 <= a < b < rels(v.drop_last()).len() implies rels(v.drop_last())[a]
                != rels(v.drop_last())[b] by {
                assert(rels(v)[a] != rels(v)[b]);
            }
        }
        lemma_count_for_at(v.drop_last(), j);
    }
}

fn lookup(v: &Vec<LinkCount>, rel: &str) -> (r: Option<usize>)
    ensures
        r == count_for(v@, rel@),
{
    let mut n: usize = v.len();
    proof {
        assert(v@.take(n as int) =~= v@);
    }
    while n > 0
        invariant
            n <= v@.len(),
            count_for(v@, rel@) == count_for(v@.take(n as int), rel@),
        decreases n,
    {
        proof {
            assert(v@.take(n as int).drop_last() =~= v@.take(n - 1));
        }
        if crate::text::str_eq(v[n - 1].rel.as_str(), rel) {
            return Some(v[n - 1].count);
        }
        n -= 1;
    }
    None
}

// ---------------------------------------------------------------------------
// The digest's parts
// ---------------------------------------------------------------------------

/// Counted names, as (name, count) pairs.
pub open spec fn pair_view(v: Seq<(String, usize)>) -> Seq<(Seq<char>, nat)> {
    v.map_values(|p: (String, usize)| (p.0@, p.1 as nat))
}

pub open spec fn counts_view(v: Seq<LinkCount>) -> Seq<(Seq<char>, nat)> {
    v.map_values(|c: LinkCount| (c.rel@, c.count as nat))
}

/// The pairs are a tally of `items` (see `is_tally`).
pub open spec fn tallies(items: Seq<Seq<char>>, pairs: Seq<(Seq<char>, nat)>) -> bool {
    is_tally(items, pairs.map_values(|p: (Seq<char>, nat)| p.0), pairs.map_values(|p: (Seq<char>, nat)| p.1))
}

pub open spec fn pairs_total(pairs: Seq<(Seq<char>, nat)>) -> nat
    decreases pairs.len(),
{
    if pairs.len() == 0 {
        0
    } else {
        pairs_total(pairs.drop_last()) + pairs.last().1
    }
}

/// `count name` for each pair.
pub open spec fn pair_phrases(pairs: Seq<(Seq<char>, nat)>) -> Seq<Seq<char>> {
    Seq::new(pairs.len(), |i: int| decimal(pairs[i].1) + " "@ + pairs[i].0)
}

/// A link summary: `0`; the total and the relation when there is one;
/// else the total and each relation's count in brackets.
pub open spec fn link_summary(pairs: Seq<(Seq<char>, nat)>) -> Seq<char> {
    if pairs.len() == 0 {
        "0"@
    } else if pairs.len() == 1 {
        decimal(pairs_total(pairs)) + " "@ + pairs[0].0
    } else {
        decimal(pairs_total(pairs)) + " ("@ + join(pair_phrases(pairs), ", "@) + ")"@
    }
}

fn pair_phrases_exec(pairs: &Vec<(String, usize)>) -> (r: Vec<Vec<char>>)
    ensures
        views(r@) == pair_phrases(pair_view(pairs@)),
{
    let mut out: Vec<Vec<char>> = Vec::new();
    let mut i: usize = 0;
    while i < pairs.len()
        invariant
            i <= pairs@.len(),
            views(out@) == pair_phrases(pair_view(pairs@)).take(i as int),
        decreases pairs@.len() - i,
    {
        let mut v: Vec<char> = Vec::new();
        push_usize(&mut v, pairs[i].1);
        push_str(&mut v, " ");
        push_str(&mut v, pairs[i].0.as_str());
        let ghost before = views(out@);
        let ghost vv = v@;
        out.push(v);
        proof {
            assert(views(out@) =~= before.push(vv));
            assert(vv == pair_phrases(pair_view(pairs@))[i as int]);
            assert(pair_phrases(pair_view(pairs@)).take(i + 1) =~= pair_phrases(pair_view(pairs@)).take(i as int).push(vv));
        }
        i += 1;
    }
    proof {
        assert(pair_phrases(pair_view(pairs@)).take(i as int) =~= pair_phrases(pair_view(pairs@)));
    }
    out
}

fn link_summary_exec(pairs: &Vec<(String, usize)>) -> (r: Vec<char>)
    ensures
        r@ == link_summary(pair_view(pairs@)),
{
    if pairs.len() == 0 {
        return chars_of("0");
    }
    let mut total: u128 = 0;
    let mut i: usize = 0;
    while i < pairs.len()
        invariant
            i <= pairs@.len(),
            total == pairs_total(pair_view(pairs@).take(i as int)),
            total <= i * 0x1_0000_0000_0000_0000,
            pairs@.len() <= usize::MAX,
        decreases pairs@.len() - i,
    {
        proof {
            assert(pair_view(pairs@).take(i + 1).drop_last() =~= pair_view(pairs@).take(i as int));
            assert(i < 0x1_0000_0000_0000_0000);
        }
        total = total + pairs[i].1 as u128;
        i += 1;
    }
    proof {
        assert(pair_view(pairs@).take(i as int) =~= pair_view(pairs@));
    }
    let mut v = crate::text::fmt_u128(total);
    if pairs.len() == 1 {
        push_str(&mut v, " ");
        push_str(&mut v, pairs[0].0.as_str());
    } else {
        push_str(&mut v, " (");
        let ph = pair_phrases_exec(pairs);
        let sep = chars_of(", ");
        let j = join_chars(&ph, sep.as_slice());
        append_chars(&mut v, j.as_slice());
        push_str(&mut v, ")");
    }
    v
}

fn incoming_pairs(incoming: &IncomingLinkCounts) -> (r: Vec<(String, usize)>)
    ensures
        pair_view(r@) == counts_view(incoming.by_rel@),
{
    let mut out: Vec<(String, usize)> = Vec::new();
    let mut i: usize = 0;
    while i < incoming.by_rel.len()
        invariant
            i <= incoming.by_rel@.len(),
            pair_view(out@) == counts_view(incoming.by_rel@).take(i as int),
        decreases incoming.by_rel@.len() - i,
    {
        let ghost before = pair_view(out@);
        let r = string_from(incoming.by_rel[i].rel.as_str());
        let ghost rv = r@;
        out.push((r, incoming.by_rel[i].count));
        proof {
            assert(pair_view(out@) =~= before.push((rv, incoming.by_rel@[i as int].count as nat)));
            assert(counts_view(incoming.by_rel@).take(i + 1) =~= counts_view(incoming.by_rel@).take(i as int).push(
                (rv, incoming.by_rel@[i as int].count as nat),
            ));
        }
        i += 1;
    }
    proof {
        assert(counts_view(incoming.by_rel@).take(i as int) =~= counts_view(incoming.by_rel@));
    }
    out
}

/// The relations of a thread's outgoing links, one per link.
pub open spec fn out_rels(s: ThreadState) -> Seq<Seq<char>> {
    Seq::new(s.links@.len(), |i: int| s.links@[i].rel@)
}

/// The canonical node type of each node, by name.
pub open spec fn node_labels(s: ThreadState) -> Seq<Seq<char>> {
    Seq::new(s.nodes@.len(), |i: int| node_type_name(node_type_canonical(s.nodes@[i].node_type)))
}

/// The kind of each evidence item, by name.
pub open spec fn evidence_labels(s: ThreadState) -> Seq<Seq<char>> {
    Seq::new(s.evidence_items@.len(), |i: int| evidence_kind_name(s.evidence_items@[i].kind))
}

fn tally_input_links(s: &ThreadState) -> (r: Vec<Vec<char>>)
    ensures
        views(r@) == out_rels(*s),
{
    let mut out: Vec<Vec<char>> = Vec::new();
    let mut i: usize = 0;
    while i < s.links.len()
        invariant
            i <= s.links@.len(),
            views(out@) == out_rels(*s).take(i as int),
        decreases s.links@.len() - i,
    {
        let ghost before = views(out@);
        let v = chars_of(s.links[i].rel.as_str());
        let ghost vv = v@;
        out.push(v);
        proof {
            assert(views(out@) =~= before.push(vv));
            assert(out_rels(*s).take(i + 1) =~= out_rels(*s).take(i as int).push(vv));
        }
        i += 1;
    }
    proof {
        assert(out_rels(*s).take(i as int) =~= out_rels(*s));
    }
    out
}

fn tally_input_nodes(s: &ThreadState) -> (r: Vec<Vec<char>>)
    ensures
        views(r@) == node_labels(*s),
{
    let mut out: Vec<Vec<char>> = Vec::new();
    let mut i: usize = 0;
    while i < s.nodes.len()
        invariant
            i <= s.nodes@.len(),
            views(out@) == node_labels(*s).take(i as int),
        decreases s.nodes@.len() - i,
    {
        let ghost before = views(out@);
        let v = chars_of(s.nodes[i].node_type.canonical().as_str());
        let ghost vv = v@;
        out.push(v);
        proof {
            assert(views(out@) =~= before.push(vv));
            assert(node_labels(*s).take(i + 1) =~= node_labels(*s).take(i as int).push(vv));
        }
        i += 1;
    }
    proof {
        assert(node_labels(*s).take(i as int) =~= node_labels(*s));
    }
    out
}

fn tally_input_evidence(s: &ThreadState) -> (r: Vec<Vec<char>>)
    ensures
        views(r@) == evidence_labels(*s),
{
    let mut out: Vec<Vec<char>> = Vec::new();
    let mut i: usize = 0;
    while i < s.evidence_items.len()
        invariant
            i <= s.evidence_items@.len(),
            views(out@) == evidence_labels(*s).take(i as int),
        decreases s.evidence_items@.len() - i,
    {
        let ghost before = views(out@);
        let v = chars_of(s.evidence_items[i].kind.as_str());
        let ghost vv = v@;
        out.push(v);
        proof {
            assert(views(out@) =~= before.push(vv));
            assert(evidence_labels(*s).take(i + 1) =~= evidence_labels(*s).take(i as int).push(vv));
        }
        i += 1;
    }
    proof {
        assert(evidence_labels(*s).take(i as int) =~= evidence_labels(*s));
    }
    out
}

fn tally_pairs(items: &Vec<Vec<char>>) -> (r: Vec<(String, usize)>)
    ensures
        tallies(views(items@), pair_view(r@)),
{
    let r = tally(items);
    proof {
        assert(pair_view(r@).map_values(|p: (Seq<char>, nat)| p.0) =~= r@.map_values(|p: (String, usize)| p.0@));
        assert(pair_view(r@).map_values(|p: (Seq<char>, nat)| p.1) =~= r@.map_values(|p: (String, usize)| p.1 as nat));
    }
    r
}

/// How many nodes of type `t` are open.
pub open spec fn open_count(nodes: Seq<Node>, t: NodeType) -> nat
    decreases nodes.len(),
{
    if nodes.len() == 0 {
        0
    } else {
        open_count(nodes.drop_last(), t) + if is_open_node(nodes.last(), t) { 1nat } else { 0nat }
    }
}

pub(crate) fn open_count_exec(nodes: &Vec<Node>, t: NodeType) -> (r: usize)
    ensures
        r == open_count(nodes@, t),
{
    let mut n: usize = 0;
    let mut i: usize = 0;
    while i < nodes.len()
        invariant
            i <= nodes@.len(),
            n == open_count(nodes@.take(i as int), t),
            n <= i,
        decreases nodes@.len() - i,
    {
        proof {
            assert(nodes@.take(i + 1).drop_last() =~= nodes@.take(i as int));
        }
        let x = &nodes[i];
        if x.node_type == t && !x.resolved && !x.retracted && !x.incorporated {
            n = n + 1;
        }
        i += 1;
    }
    proof {
        assert(nodes@.take(i as int) =~= nodes@);
    }
    n
}

/// The body of the latest summary node that is not retracted.
pub open spec fn latest_summary(nodes: Seq<Node>) -> Option<Seq<char>>
    decreases nodes.len(),
{
    if nodes.len() == 0 {
        None
    } else if nodes.last().node_type == NodeType::Summary && !nodes.last().retracted {
        Some(nodes.last().body@)
    } else {
        latest_summary(nodes.drop_last())
    }
}

pub(crate) fn latest_summary_exec(nodes: &Vec<Node>) -> (r: Option<&String>)
    ensures
        match r {
            Some(b) => latest_summary(nodes@) == Some(b@),
            None => latest_summary(nodes@) is None,
        },
{
    let mut n: usize = nodes.len();
    proof {
        assert(nodes@.take(n as int) =~= nodes@);
    }
    while n > 0
        invariant
            n <= nodes@.len(),
            latest_summary(nodes@) == latest_summary(nodes@.take(n as int)),
        decreases n,
    {
        proof {
            assert(nodes@.take(n as int).drop_last() =~= nodes@.take(n - 1));
        }
        let x = &nodes[n - 1];
        if x.node_type == NodeType::Summary && !x.retracted {
            return Some(&x.body);
        }
        n -= 1;
    }
    None
}

/// A text on one line: line breaks become spaces; cut to `max` bytes
/// (the cut moved back to a character boundary, and `…` added) when
/// longer.
pub open spec fn one_line(s: Seq<char>, max: nat) -> Seq<char> {
    let one = replace_char(replace_char(s, '\n', ' '), '\r', ' ');
    if utf8_len(one) <= max {
        one
    } else {
        one.take(prefix_within(one, if max >= 1 { (max - 1) as nat } else { 0 }) as int) + "…"@
    }
}

fn one_line_exec(s: &str, max: usize) -> (r: Vec<char>)
    ensures
        r@ == one_line(s@, max as nat),
{
    let cs = chars_of(s);
    let a = replace_char_exec(cs.as_slice(), '\n', ' ');
    let one = replace_char_exec(a.as_slice(), '\r', ' ');
    let st = string_of(one.as_slice());
    if st.as_str().len() <= max {
        return one;
    }
    let m: usize = if max >= 1 { max - 1 } else { 0 };
    let k = prefix_within_exec(one.as_slice(), m);
    let mut out = slice_range(one.as_slice(), 0, k);
    push_str(&mut out, "…");
    proof {
        assert(one@.subrange(0, k as int) =~= one@.take(k as int));
    }
    out
}

/// The date part of an instant (`-` when chrono cannot represent it).
pub open spec fn day_text(s: ThreadState) -> Seq<char> {
    match timestamp_text(s.created_at.secs, s.created_at.nanos, "%Y-%m-%d"@) {
        Some(t) => t,
        None => "-"@,
    }
}

/// The digest's lines for the given tallies of outgoing links, node
/// types and evidence kinds.
pub open spec fn plaintext_lines(
    s: ThreadState,
    incoming: Seq<(Seq<char>, nat)>,
    outgoing: Seq<(Seq<char>, nat)>,
    node_counts: Seq<(Seq<char>, nat)>,
    evidence: Seq<(Seq<char>, nat)>,
) -> Seq<Seq<char>> {
    let tags = strs(s.tags@);
    seq![
        s.id@ + "  "@ + lifecycle_name(lifecycle_for_category(s.category@, tags)) + "/"@ + s.status@ + "   "@ + (if tags.len()
            == 0 {
            "-"@
        } else {
            join(tags, ", "@)
        }),
        "title:    "@ + s.title@,
        "created:  "@ + day_text(s) + " by "@ + s.created_by@,
        "branch:   "@ + match s.branch {
            Some(b) => b@,
            None => "-"@,
        },
        "links:    in="@ + link_summary(incoming) + ", out="@ + link_summary(outgoing),
        "nodes:    "@ + decimal(s.nodes@.len()) + " ("@ + (if node_counts.len() == 0 {
            "0 comment"@
        } else {
            join(pair_phrases(node_counts), ", "@)
        }) + ", "@ + decimal(open_count(s.nodes@, NodeType::Objection)) + " open objections, "@ + decimal(
            open_count(s.nodes@, NodeType::Action),
        ) + " open actions)"@,
        if s.evidence_items@.len() > 0 {
            "evidence: "@ + decimal(s.evidence_items@.len()) + " ("@ + join(pair_phrases(evidence), ", "@) + ")"@
        } else {
            "evidence: 0"@
        },
        "summary:  "@ + match latest_summary(s.nodes@) {
            Some(b) => "\""@ + one_line(b, 80) + "\""@,
            None => "-"@,
        },
        Seq::<char>::empty(),
    ]
}

fn head_line(s: &ThreadState) -> (r: Vec<char>)
    ensures
        r@ == plaintext_lines(*s, seq![], seq![], seq![], seq![])[0],
{
    let mut v = chars_of(s.id.as_str());
    push_str(&mut v, "  ");
    push_str(&mut v, lifecycle_label_for(s.category.as_str(), s.tags.as_slice()));
    push_str(&mut v, "/");
    push_str(&mut v, s.status.as_str());
    push_str(&mut v, "   ");
    if s.tags.len() == 0 {
        push_str(&mut v, "-");
    } else {
        let parts = crate::text::from_strings(s.tags.as_slice());
        let sep = chars_of(", ");
        let j = join_chars(&parts, sep.as_slice());
        append_chars(&mut v, j.as_slice());
    }
    v
}

fn day_exec(s: &ThreadState) -> (r: Vec<char>)
    ensures
        r@ == day_text(*s),
{
    match format_timestamp(s.created_at, "%Y-%m-%d") {
        Some(t) => chars_of(t.as_str()),
        None => chars_of("-"),
    }
}

fn nodes_line(s: &ThreadState, node_counts: &Vec<(String, usize)>) -> (r: Vec<char>)
    ensures
        r@ == plaintext_lines(*s, seq![], seq![], pair_view(node_counts@), seq![])[5],
{
    let mut v = chars_of("nodes:    ");
    push_usize(&mut v, s.nodes.len());
    push_str(&mut v, " (");
    if node_counts.len() == 0 {
        push_str(&mut v, "0 comment");
    } else {
        let ph = pair_phrases_exec(node_counts);
        let sep = chars_of(", ");
        let j = join_chars(&ph, sep.as_slice());
        append_chars(&mut v, j.as_slice());
    }
    push_str(&mut v, ", ");
    push_usize(&mut v, open_count_exec(&s.nodes, NodeType::Objection));
    push_str(&mut v, " open objections, ");
    push_usize(&mut v, open_count_exec(&s.nodes, NodeType::Action));
    push_str(&mut v, " open actions)");
    v
}

fn evidence_line(s: &ThreadState, evidence: &Vec<(String, usize)>) -> (r: Vec<char>)
    ensures
        r@ == plaintext_lines(*s, seq![], seq![], seq![], pair_view(evidence@))[6],
{
    if s.evidence_items.len() > 0 {
        let mut v = chars_of("evidence: ");
        push_usize(&mut v, s.evidence_items.len());
        push_str(&mut v, " (");
        let ph = pair_phrases_exec(evidence);
        let sep = chars_of(", ");
        let j = join_chars(&ph, sep.as_slice());
        append_chars(&mut v, j.as_slice());
        push_str(&mut v, ")");
        v
    } else {
        chars_of("evidence: 0")
    }
}

fn summary_line(s: &ThreadState) -> (r: Vec<char>)
    ensures
        r@ == plaintext_lines(*s, seq![], seq![], seq![], seq![])[7],
{
    let mut v = chars_of("summary:  ");
    match latest_summary_exec(&s.nodes) {
        Some(b) => {
            push_str(&mut v, "\"");
            let o = one_line_exec(b.as_str(), 80);
            append_chars(&mut v, o.as_slice());
            push_str(&mut v, "\"");
        },
        None => push_str(&mut v, "-"),
    }
    v
}

/// `r` is the digest of `s` with these incoming counts: the lines of
/// [`plaintext_lines`] for the tallies of its links, nodes and evidence.
pub open spec fn plaintext_of(s: ThreadState, incoming: Seq<(Seq<char>, nat)>, r: Seq<char>) -> bool {
    exists|o: Seq<(Seq<char>, nat)>, n: Seq<(Seq<char>, nat)>, e: Seq<(Seq<char>, nat)>|
        tallies(out_rels(s), o) && tallies(node_labels(s), n) && tallies(evidence_labels(s), e) && r == join(
            plaintext_lines(s, incoming, o, n, e),
            "\n"@,
        )
}

proof fn lemma_tallies_unique(items: Seq<Seq<char>>, a: Seq<(Seq<char>, nat)>, b: Seq<(Seq<char>, nat)>)
    requires
        tallies(items, a),
        tallies(items, b),
    ensures
        a == b,
{
    let ka = a.map_values(|p: (Seq<char>, nat)| p.0);
    let kb = b.map_values(|p: (Seq<char>, nat)| p.0);
    let ca = a.map_values(|p: (Seq<char>, nat)| p.1);
    let cb = b.map_values(|p: (Seq<char>, nat)| p.1);
    crate::text::lemma_tally_unique(items, ka, ca, kb, cb);
    assert forall|i: int| 0 <= i < a.len() implies a[i] == b[i] by {
        assert(ka[i] == kb[i] && ca[i] == cb[i]);
    }
    assert(a =~= b);
}

/// Law of [`render_plaintext`]: the digest names no linked thread. Two states that differ only in
/// the targets of their links, relation for relation, give the same
/// digest.
pub proof fn lemma_plaintext_ignores_link_targets(
    s1: ThreadState,
    s2: ThreadState,
    incoming: Seq<(Seq<char>, nat)>,
    r1: Seq<char>,
    r2: Seq<char>,
)
    requires
        s2 == (ThreadState { links: s2.links, ..s1 }),
        s1.links@.len() == s2.links@.len(),
        forall|i: int| 0 <= i < s1.links@.len() ==> (#[trigger] s1.links@[i]).rel@ == s2.links@[i].rel@,
        plaintext_of(s1, incoming, r1),
        plaintext_of(s2, incoming, r2),
    ensures
        r1 == r2,
{
    let (o1, n1, e1) = choose|o: Seq<(Seq<char>, nat)>, n: Seq<(Seq<char>, nat)>, e: Seq<(Seq<char>, nat)>|
        tallies(out_rels(s1), o) && tallies(node_labels(s1), n) && tallies(evidence_labels(s1), e) && r1 == join(
            plaintext_lines(s1, incoming, o, n, e),
            "\n"@,
        );
    let (o2, n2, e2) = choose|o: Seq<(Seq<char>, nat)>, n: Seq<(Seq<char>, nat)>, e: Seq<(Seq<char>, nat)>|
        tallies(out_rels(s2), o) && tallies(node_labels(s2), n) && tallies(evidence_labels(s2), e) && r2 == join(
            plaintext_lines(s2, incoming, o, n, e),
            "\n"@,
        );
    assert(out_rels(s1) =~= out_rels(s2));
    assert(node_labels(s1) =~= node_labels(s2));
    assert(evidence_labels(s1) =~= evidence_labels(s2));
    lemma_tallies_unique(out_rels(s1), o1, o2);
    lemma_tallies_unique(node_labels(s1), n1, n2);
    lemma_tallies_unique(evidence_labels(s1), e1, e2);
    assert(plaintext_lines(s1, incoming, o1, n1, e1) == plaintext_lines(s2, incoming, o1, n1, e1));
}

/// The text digest of a thread (see [`plaintext_lines`]): its kind,
/// title, creation, branch, link counts by relation, node counts by type,
/// evidence counts by kind and latest summary; linked threads are counted,
/// never named.
pub fn render_plaintext(state: &ThreadState, incoming: &IncomingLinkCounts) -> (r: String)
    ensures
        plaintext_of(*state, counts_view(incoming.by_rel@), r@),
{
    let out_pairs = tally_pairs(&tally_input_links(state));
    let node_pairs = tally_pairs(&tally_input_nodes(state));
    let ev_pairs = tally_pairs(&tally_input_evidence(state));
    let in_pairs = incoming_pairs(incoming);
    let ghost o = pair_view(out_pairs@);
    let ghost n = pair_view(node_pairs@);
    let ghost e = pair_view(ev_pairs@);
    let ghost want = plaintext_lines(*state, counts_view(incoming.by_rel@), o, n, e);
    let mut lines: Vec<Vec<char>> = Vec::new();
    lines.push(head_line(state));
    let mut t = chars_of("title:    ");
    push_str(&mut t, state.title.as_str());
    lines.push(t);
    let mut c = chars_of("created:  ");
    let d = day_exec(state);
    append_chars(&mut c, d.as_slice());
    push_str(&mut c, " by ");
    push_str(&mut c, state.created_by.as_str());
    lines.push(c);
    let mut b = chars_of("branch:   ");
    match &state.branch {
        Some(x) => push_str(&mut b, x.as_str()),
        None => push_str(&mut b, "-"),
    }
    lines.push(b);
    let mut l = chars_of("links:    in=");
    let li = link_summary_exec(&in_pairs);
    append_chars(&mut l, li.as_slice());
    push_str(&mut l, ", out=");
    let lo = link_summary_exec(&out_pairs);
    append_chars(&mut l, lo.as_slice());
    lines.push(l);
    lines.push(nodes_line(state, &node_pairs));
    lines.push(evidence_line(state, &ev_pairs));
    lines.push(summary_line(state));
    lines.push(Vec::new());
    proof {
        assert(views(lines@) =~= want);
    }
    crate::text::join_to_string(&lines, "\n")
}

/// The JSON digest's fields (see [`BriefJson`]).
pub fn build_json(state: &ThreadState, incoming: &IncomingLinkCounts) -> (r: BriefJson)
    ensures
        r.id@ == state.id@,
        r.title@ == state.title@,
        r.lifecycle@ == lifecycle_name(lifecycle_for_category(state.category@, strs(state.tags@))),
        strs(r.tags@) == strs(state.tags@),
        r.status@ == state.status@,
        r.created_at@ == match timestamp_text(state.created_at.secs, state.created_at.nanos, "%Y-%m-%dT%H:%M:%SZ"@) {
            Some(t) => t,
            None => Seq::<char>::empty(),
        },
        r.created_by@ == state.created_by@,
        crate::internal::actor::opt_view(r.branch) == crate::internal::actor::opt_view(state.branch),
        counts_view(r.links_in@) == counts_view(incoming.by_rel@),
        tallies(out_rels(*state), counts_view(r.links_out@)),
        tallies(node_labels(*state), counts_view(r.node_counts@)),
        r.open_objections == open_count(state.nodes@, NodeType::Objection),
        r.open_actions == open_count(state.nodes@, NodeType::Action),
        r.evidence_count == state.evidence_items@.len(),
        crate::internal::actor::opt_view(r.latest_summary) == latest_summary(state.nodes@),
{
    let out_pairs = tally_pairs(&tally_input_links(state));
    let node_pairs = tally_pairs(&tally_input_nodes(state));
    let created = match format_timestamp(state.created_at, "%Y-%m-%dT%H:%M:%SZ") {
        Some(t) => t,
        None => String::new(),
    };
    let branch = match &state.branch {
        Some(b) => Some(string_from(b.as_str())),
        None => None,
    };
    let summary = match latest_summary_exec(&state.nodes) {
        Some(b) => Some(string_from(b.as_str())),
        None => None,
    };
    BriefJson {
        id: string_from(state.id.as_str()),
        title: string_from(state.title.as_str()),
        lifecycle: string_from(lifecycle_label_for(state.category.as_str(), state.tags.as_slice())),
        tags: crate::text::clone_strings(&state.tags),
        status: string_from(state.status.as_str()),
        created_at: created,
        created_by: string_from(state.created_by.as_str()),
        branch,
        links_in: counts_of_pairs(&incoming_pairs(incoming)),
        links_out: counts_of_pairs(&out_pairs),
        node_counts: counts_of_pairs(&node_pairs),
        open_objections: open_count_exec(&state.nodes, NodeType::Objection),
        open_actions: open_count_exec(&state.nodes, NodeType::Action),
        evidence_count: state.evidence_items.len(),
        latest_summary: summary,
    }
}

fn counts_of_pairs(pairs: &Vec<(String, usize)>) -> (r: Vec<LinkCount>)
    ensures
        counts_view(r@) == pair_view(pairs@),
{
    let mut out: Vec<LinkCount> = Vec::new();
    let mut i: usize = 0;
    while i < pairs.len()
        invariant
            i <= pairs@.len(),
            counts_view(out@) == pair_view(pairs@).take(i as int),
        decreases pairs@.len() - i,
    {
        let ghost before = counts_view(out@);
        let r = string_from(pairs[i].0.as_str());
        let ghost rv = r@;
        out.push(LinkCount { rel: r, count: pairs[i].1 });
        proof {
            assert(counts_view(out@) =~= before.push((rv, pairs@[i as int].1 as nat)));
            assert(pair_view(pairs@).take(i + 1) =~= pair_view(pairs@).take(i as int).push((rv, pairs@[i as int].1 as nat)));
        }
        i += 1;
    }
    proof {
        assert(pair_view(pairs@).take(i as int) =~= pair_view(pairs@));
    }
    out
}

/// The JSON digest of a thread.
#[derive(Debug, Clone)]
pub struct BriefJson {
    pub id: String,
    pub title: String,
    pub lifecycle: String,
    pub tags: Vec<String>,
    pub status: String,
    pub created_at: String,
    pub created_by: String,
    pub branch: Option<String>,
    pub links_in: Vec<LinkCount>,
    pub links_out: Vec<LinkCount>,
    /// Node counts by canonical type, in ascending order of the type.
    pub node_counts: Vec<LinkCount>,
    pub open_objections: usize,
    pub open_actions: usize,
    pub evidence_count: usize,
    pub latest_summary: Option<String>,
}

/// Arguments of `git forum brief`.
pub struct BriefArgs {
    pub thread_id: String,
    pub json: bool,
}

/// The incoming-link counts of a thread. The local index that held them
/// is gone, so there are none to report.
pub fn read_incoming_link_counts(paths: &RepoPaths, thread_id: &str) -> (r: IncomingLinkCounts)
    ensures
        r.by_rel@.len() == 0,
{
    IncomingLinkCounts { by_rel: Vec::new() }
}

} // verus!
