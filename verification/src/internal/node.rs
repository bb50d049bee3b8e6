//! Node types: the four canonical discussion acts plus the legacy
//! rhetorical subtypes that older histories still carry.

use vstd::prelude::*;

use crate::text::{str_eq, string_from, chars_of, string_of, push_str};
use crate::internal::evidence::Timestamp;

verus! {

#[derive(Debug, Clone, Copy, PartialEq, Eq, Hash, Structural)]
pub enum NodeType {
    Comment,
    Approval,
    Objection,
    Action,
    Claim,
    Question,
    Evidence,
    Summary,
    Risk,
    Review,
    Alternative,
    Assumption,
}

/// The lowercase storage name of each node type.
pub open spec fn node_type_name(t: NodeType) -> Seq<char> {
    match t {
        NodeType::Comment => "comment"@,
        NodeType::Approval => "approval"@,
        NodeType::Objection => "objection"@,
        NodeType::Action => "action"@,
        NodeType::Claim => "claim"@,
        NodeType::Question => "question"@,
        NodeType::Evidence => "evidence"@,
        NodeType::Summary => "summary"@,
        NodeType::Risk => "risk"@,
        NodeType::Review => "review"@,
        NodeType::Alternative => "alternative"@,
        NodeType::Assumption => "assumption"@,
    }
}

/// The node type whose storage name is `s`, if any.
pub open spec fn node_type_from_name(s: Seq<char>) -> Option<NodeType> {
    if s == "comment"@ {
        Some(NodeType::Comment)
    } else if s == "approval"@ {
        Some(NodeType::Approval)
    } else if s == "objection"@ {
        Some(NodeType::Objection)
    } else if s == "action"@ {
        Some(NodeType::Action)
    } else if s == "claim"@ {
        Some(NodeType::Claim)
    } else if s == "question"@ {
        Some(NodeType::Question)
    } else if s == "evidence"@ {
        Some(NodeType::Evidence)
    } else if s == "summary"@ {
        Some(NodeType::Summary)
    } else if s == "risk"@ {
        Some(NodeType::Risk)
    } else if s == "review"@ {
        Some(NodeType::Review)
    } else if s == "alternative"@ {
        Some(NodeType::Alternative)
    } else if s == "assumption"@ {
        Some(NodeType::Assumption)
    } else {
        None
    }
}

/// The four canonical node types.
pub open spec fn node_type_is_canonical(t: NodeType) -> bool {
    t == NodeType::Comment || t == NodeType::Approval || t == NodeType::Objection
        || t == NodeType::Action
}

/// Canonical form: legacy prose subtypes fold onto `comment`.
pub open spec fn node_type_canonical(t: NodeType) -> NodeType {
    if node_type_is_canonical(t) {
        t
    } else {
        NodeType::Comment
    }
}

/// The message of a failed node-type parse.
pub open spec fn node_type_parse_error(s: Seq<char>) -> Seq<char> {
    "unknown node type '"@ + s
        + "'; valid: comment, approval, objection, action"@
}

impl NodeType {
    pub fn as_str(self) -> (r: &'static str)
        ensures
            r@ == node_type_name(self),
    {
        match self {
            NodeType::Comment => "comment",
            NodeType::Approval => "approval",
            NodeType::Objection => "objection",
            NodeType::Action => "action",
            NodeType::Claim => "claim",
            NodeType::Question => "question",
            NodeType::Evidence => "evidence",
            NodeType::Summary => "summary",
            NodeType::Risk => "risk",
            NodeType::Review => "review",
            NodeType::Alternative => "alternative",
            NodeType::Assumption => "assumption",
        }
    }

    /// Display text: the storage name.
    pub fn to_string(self) -> (r: String)
        ensures
            r@ == node_type_name(self),
    {
        string_from(self.as_str())
    }

    /// Whether this is one of the four canonical node types.
    pub fn is_canonical(self) -> (r: bool)
        ensures
            r == node_type_is_canonical(self),
    {
        match self {
            NodeType::Comment | NodeType::Approval | NodeType::Objection | NodeType::Action => true,
            _ => false,
        }
    }

    /// Canonical type: legacy prose subtypes (and `evidence`) collapse to
    /// `comment`; canonical types pass through.
    pub fn canonical(self) -> (r: NodeType)
        ensures
            r == node_type_canonical(self),
    {
        if self.is_canonical() {
            self
        } else {
            NodeType::Comment
        }
    }

    /// The rhetorical-subtype label kept beside a canonicalized legacy
    /// node: its storage name, or `None` for canonical types.
    pub fn legacy_subtype_label(self) -> (r: Option<&'static str>)
        ensures
            match r {
                Some(l) => !node_type_is_canonical(self) && l@ == node_type_name(self),
                None => node_type_is_canonical(self),
            },
    {
        if self.is_canonical() {
            None
        } else {
            Some(self.as_str())
        }
    }

    /// Parse a storage name; legacy names are accepted so older
    /// histories stay readable.
    pub fn parse(s: &str) -> (r: Result<NodeType, String>)
        ensures
            match r {
                Ok(t) => node_type_from_name(s@) == Some(t),
                Err(m) => node_type_from_name(s@) is None && m@ == node_type_parse_error(s@),
            },
    {
        if str_eq(s, "comment") {
            Ok(NodeType::Comment)
        } else if str_eq(s, "approval") {
            Ok(NodeType::Approval)
        } else if str_eq(s, "objection") {
            Ok(NodeType::Objection)
        } else if str_eq(s, "action") {
            Ok(NodeType::Action)
        } else if str_eq(s, "claim") {
            Ok(NodeType::Claim)
        } else if str_eq(s, "question") {
            Ok(NodeType::Question)
        } else if str_eq(s, "evidence") {
            Ok(NodeType::Evidence)
        } else if str_eq(s, "summary") {
            Ok(NodeType::Summary)
        } else if str_eq(s, "risk") {
            Ok(NodeType::Risk)
        } else if str_eq(s, "review") {
            Ok(NodeType::Review)
        } else if str_eq(s, "alternative") {
            Ok(NodeType::Alternative)
        } else if str_eq(s, "assumption") {
            Ok(NodeType::Assumption)
        } else {
            let mut v = chars_of("unknown node type '");
            push_str(&mut v, s);
            push_str(&mut v, "'; valid: comment, approval, objection, action");
            Err(string_of(v.as_slice()))
        }
    }
}

impl core::str::FromStr for NodeType {
    type Err = String;

    fn from_str(s: &str) -> Result<NodeType, String> {
        NodeType::parse(s)
    }
}

/// Every node type's storage name parses back to that node type.
pub proof fn lemma_node_type_name_round_trip(t: NodeType)
    ensures
        node_type_from_name(node_type_name(t)) == Some(t),
{
    reveal_strlit("comment");
    assert("comment"@[0] == 'c' && "comment"@.len() == 7);
    reveal_strlit("approval");
    assert("approval"@[0] == 'a' && "approval"@.len() == 8);
    reveal_strlit("objection");
    assert("objection"@[0] == 'o' && "objection"@.len() == 9);
    reveal_strlit("action");
    assert("action"@[0] == 'a' && "action"@.len() == 6);
    reveal_strlit("claim");
    assert("claim"@[0] == 'c' && "claim"@.len() == 5);
    reveal_strlit("question");
    assert("question"@[0] == 'q' && "question"@.len() == 8);
    reveal_strlit("evidence");
    assert("evidence"@[0] == 'e' && "evidence"@.len() == 8);
    reveal_strlit("summary");
    assert("summary"@[0] == 's' && "summary"@.len() == 7);
    reveal_strlit("risk");
    assert("risk"@[0] == 'r' && "risk"@.len() == 4);
    reveal_strlit("review");
    assert("review"@[0] == 'r' && "review"@.len() == 6);
    reveal_strlit("alternative");
    assert("alternative"@[0] == 'a' && "alternative"@.len() == 11);
    reveal_strlit("assumption");
    assert("assumption"@[0] == 'a' && "assumption"@.len() == 10);
    match t {
        NodeType::Comment => assert(node_type_from_name("comment"@) == Some(NodeType::Comment)),
        NodeType::Approval => assert(node_type_from_name("approval"@) == Some(NodeType::Approval)),
        NodeType::Objection => assert(node_type_from_name("objection"@) == Some(NodeType::Objection)),
        NodeType::Action => assert(node_type_from_name("action"@) == Some(NodeType::Action)),
        NodeType::Claim => assert(node_type_from_name("claim"@) == Some(NodeType::Claim)),
        NodeType::Question => assert(node_type_from_name("question"@) == Some(NodeType::Question)),
        NodeType::Evidence => assert(node_type_from_name("evidence"@) == Some(NodeType::Evidence)),
        NodeType::Summary => assert(node_type_from_name("summary"@) == Some(NodeType::Summary)),
        NodeType::Risk => assert(node_type_from_name("risk"@) == Some(NodeType::Risk)),
        NodeType::Review => assert(node_type_from_name("review"@) == Some(NodeType::Review)),
        NodeType::Alternative => assert(node_type_from_name("alternative"@) == Some(NodeType::Alternative)),
        NodeType::Assumption => assert(node_type_from_name("assumption"@) == Some(NodeType::Assumption)),
    }
}

/// Canonicalization is idempotent and always lands on a canonical type.
pub proof fn lemma_node_type_canonical_idempotent(t: NodeType)
    ensures
        node_type_is_canonical(node_type_canonical(t)),
        node_type_canonical(node_type_canonical(t)) == node_type_canonical(t),
{
}


/// A discussion node as the renderers and exporters read it.
#[derive(Debug, Clone)]
pub struct Node {
    pub node_id: String,
    pub node_type: NodeType,
    pub body: String,
    pub actor: String,
    pub created_at: Timestamp,
    pub resolved: bool,
    pub retracted: bool,
    pub incorporated: bool,
    pub reply_to: Option<String>,
}

} // verus!
