//! Reading raw git objects: the tree-object format.

use vstd::prelude::*;

use vstd::utf8::{valid_utf8, decode_utf8};
use crate::text::{string_of, strs};

verus! {

/// One entry of a tree object.
#[derive(Debug, PartialEq, Eq)]
pub struct TreeEntry {
    /// Octal mode as git writes it (`40000` for a subtree).
    pub mode: String,
    pub name: String,
    /// Hex object id.
    pub id: String,
}

/// What `String::from_utf8_lossy` makes of bytes: the decoded text with
/// each invalid sequence replaced by U+FFFD.
pub uninterp spec fn lossy_text(b: Seq<u8>) -> Seq<char>;

/// `std::str::from_utf8`, owned: the text when the bytes are valid UTF-8.
#[verifier::external_body]
fn utf8_text(b: &[u8]) -> (r: Option<String>)
    ensures
        r is Some <==> valid_utf8(b@),
        r matches Some(s) ==> s@ == decode_utf8(b@),
{
    match std::str::from_utf8(b) {
        Ok(s) => Some(s.to_string()),
        Err(_) => None,
    }
}

/// `String::from_utf8_lossy`, owned. Valid UTF-8 comes back decoded
/// unchanged; otherwise the replacement text is named, not described.
#[verifier::external_body]
fn utf8_lossy(b: &[u8]) -> (r: String)
    ensures
        r@ == lossy_text(b@),
        valid_utf8(b@) ==> r@ == decode_utf8(b@),
{
    String::from_utf8_lossy(b).into_owned()
}

/// The lowercase hex digit of `d < 16`.
pub open spec fn hex_digit(d: u8) -> char {
    if d < 10 {
        ((48 + d) as u8) as char
    } else {
        ((87 + d) as u8) as char
    }
}

/// Two lowercase hex digits per byte (`{:02x}`).
pub open spec fn hex_bytes(b: Seq<u8>) -> Seq<char>
    decreases b.len(),
{
    if b.len() == 0 {
        Seq::<char>::empty()
    } else {
        hex_bytes(b.drop_last()) + seq![hex_digit(b.last() / 16), hex_digit(b.last() % 16)]
    }
}

/// An entry as the parse sees it: mode, name and hex id.
pub struct EntryView {
    pub mode: Seq<char>,
    pub name: Seq<char>,
    pub id: Seq<char>,
}

/// Index of the first byte `v` at or after `i`.
pub open spec fn find_byte(d: Seq<u8>, v: u8, i: nat) -> Option<nat>
    decreases d.len() - i,
{
    if i >= d.len() {
        None
    } else if d[i as int] == v {
        Some(i)
    } else {
        find_byte(d, v, i + 1)
    }
}

pub proof fn lemma_find_byte(d: Seq<u8>, v: u8, i: nat)
    ensures
        find_byte(d, v, i) matches Some(k) ==> i <= k < d.len() && d[k as int] == v,
    decreases d.len() - i,
{
    if i < d.len() && d[i as int] != v {
        lemma_find_byte(d, v, i + 1);
    }
}

/// The entries of the tree object `d` from byte `p` on: each is
/// `<mode> <name>\0<id>`, the mode valid UTF-8, the id `id_len` raw bytes;
/// `None` when the data is malformed.
pub open spec fn tree_from(d: Seq<u8>, id_len: nat, p: nat) -> Option<Seq<EntryView>>
    decreases d.len() - p,
{
    if p >= d.len() {
        Some(seq![])
    } else {
        match find_byte(d, 32, p) {
            None => None,
            Some(sp) => {
                let mode = d.subrange(p as int, sp as int);
                if !valid_utf8(mode) {
                    None
                } else {
                    match find_byte(d, 0, sp + 1) {
                        None => None,
                        Some(nul) => {
                            proof {
                                lemma_find_byte(d, 32, p);
                                lemma_find_byte(d, 0, sp + 1);
                            }
                            if d.len() - (nul + 1) < id_len {
                                None
                            } else {
                                let e = EntryView {
                                    mode: decode_utf8(mode),
                                    name: lossy_text(d.subrange(sp + 1 as int, nul as int)),
                                    id: hex_bytes(d.subrange(nul + 1 as int, nul + 1 + id_len as int)),
                                };
                                match tree_from(d, id_len, (nul + 1 + id_len) as nat) {
                                    Some(rest) => Some(seq![e] + rest),
                                    None => None,
                                }
                            }
                        },
                    }
                }
            },
        }
    }
}

/// The views of parsed entries.
pub open spec fn entry_views(v: Seq<TreeEntry>) -> Seq<EntryView> {
    Seq::new(v.len(), |i: int| EntryView { mode: v[i].mode@, name: v[i].name@, id: v[i].id@ })
}

fn hex_digit_exec(d: u8) -> (c: char)
    requires
        d < 16,
    ensures
        c == hex_digit(d),
{
    if d < 10 {
        (48 + d) as char
    } else {
        (87 + d) as char
    }
}

fn hex_of(b: &[u8]) -> (r: String)
    ensures
        r@ == hex_bytes(b@),
{
    let mut out: Vec<char> = Vec::new();
    let mut i: usize = 0;
    while i < b.len()
        invariant
            i <= b@.len(),
            out@ == hex_bytes(b@.take(i as int)),
        decreases b@.len() - i,
    {
        proof {
            assert(b@.take(i + 1).drop_last() =~= b@.take(i as int));
        }
        out.push(hex_digit_exec(b[i] / 16));
        out.push(hex_digit_exec(b[i] % 16));
        proof {
            assert(out@ =~= hex_bytes(b@.take(i + 1)));
        }
        i += 1;
    }
    proof {
        assert(b@.take(i as int) =~= b@);
    }
    string_of(out.as_slice())
}

fn find_byte_exec(d: &[u8], v: u8, from: usize) -> (r: Option<usize>)
    requires
        from <= d@.len(),
    ensures
        match r {
            Some(k) => find_byte(d@, v, from as nat) == Some(k as nat) && k < d@.len(),
            None => find_byte(d@, v, from as nat) is None,
        },
{
    let mut i = from;
    while i < d.len()
        invariant
            from <= i <= d@.len(),
            find_byte(d@, v, i as nat) == find_byte(d@, v, from as nat),
        decreases d@.len() - i,
    {
        if d[i] == v {
            return Some(i);
        }
        i += 1;
    }
    None
}

fn bytes_range(d: &[u8], lo: usize, hi: usize) -> (r: Vec<u8>)
    requires
        lo <= hi <= d@.len(),
    ensures
        r@ == d@.subrange(lo as int, hi as int),
{
    let mut out: Vec<u8> = Vec::new();
    let mut i = lo;
    while i < hi
        invariant
            lo <= i <= hi <= d@.len(),
            out@ == d@.subrange(lo as int, i as int),
        decreases hi - i,
    {
        out.push(d[i]);
        i += 1;
        proof {
            assert(out@ =~= d@.subrange(lo as int, i as int));
        }
    }
    out
}

/// Parse a tree object (see [`tree_from`]); malformed data is an error.
pub fn tree_entries(data: &[u8], id_len: usize) -> (r: Result<Vec<TreeEntry>, String>)
    ensures
        match r {
            Ok(v) => tree_from(data@, id_len as nat, 0) == Some(entry_views(v@)),
            Err(m) => tree_from(data@, id_len as nat, 0) is None && m@ == "malformed tree object"@,
        },
{
    let mut entries: Vec<TreeEntry> = Vec::new();
    let mut p: usize = 0;
    while p < data.len()
        invariant
            p <= data@.len(),
            tree_from(data@, id_len as nat, 0) == match tree_from(data@, id_len as nat, p as nat) {
                Some(rest) => Some(entry_views(entries@) + rest),
                None => None::<Seq<EntryView>>,
            },
        decreases data@.len() - p,
    {
        let sp = match find_byte_exec(data, 32, p) {
            Some(k) => k,
            None => return Err(crate::text::string_from("malformed tree object")),
        };
        proof {
            lemma_find_byte(data@, 32, p as nat);
        }
        let mode_bytes = bytes_range(data, p, sp);
        let mode = match utf8_text(mode_bytes.as_slice()) {
            Some(m) => m,
            None => return Err(crate::text::string_from("malformed tree object")),
        };
        let nul = match find_byte_exec(data, 0, sp + 1) {
            Some(k) => k,
            None => return Err(crate::text::string_from("malformed tree object")),
        };
        proof {
            lemma_find_byte(data@, 0, (sp + 1) as nat);
        }
        let name_bytes = bytes_range(data, sp + 1, nul);
        let name = utf8_lossy(name_bytes.as_slice());
        if data.len() - (nul + 1) < id_len {
            return Err(crate::text::string_from("malformed tree object"));
        }
        let id_bytes = bytes_range(data, nul + 1, nul + 1 + id_len);
        let id = hex_of(id_bytes.as_slice());
        let ghost e = EntryView { mode: mode@, name: name@, id: id@ };
        let ghost before = entry_views(entries@);
        entries.push(TreeEntry { mode, name, id });
        proof {
            assert(entry_views(entries@) =~= before.push(e));
            let next = (nul + 1 + id_len) as nat;
            match tree_from(data@, id_len as nat, next) {
                Some(rest) => {
                    assert(before + (seq![e] + rest) =~= before.push(e) + rest);
                },
                None => {},
            }
        }
        p = nul + 1 + id_len;
    }
    proof {
        assert(entry_views(entries@) + Seq::<EntryView>::empty() =~= entry_views(entries@));
    }
    Ok(entries)
}

} // verus!
