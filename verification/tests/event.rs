use std::str::FromStr;
use git_forum::internal::event::{
    find_path, is_valid_transition, migrate_legacy_state, normalize_state_name, valid_targets,
    validate_tag, Approval, ApprovalMechanism, DomainEvent, Event, EventType, Lifecycle,
    LinkPayload, NodeType, ProjectionError, ThreadKind, ThreadStatus,
};
use git_forum::internal::evidence::Timestamp;

fn sample_create_event() -> Event {
    let mut e = Event::default();
    e.event_id = "evt-0001".to_string();
    e.thread_id = "RFC-0001".to_string();
    e.event_type = EventType::Create;
    e.created_at = Timestamp { secs: 1767225600, nanos: 0 };
    e.actor = "human/alice".to_string();
    e.title = Some("Test RFC".to_string());
    e.kind = Some(ThreadKind::Rfc);
    e.body = Some("Thread body".to_string());
    e
}

#[test]
fn node_type_canonical_collapses_legacy_to_comment() {
    for nt in [NodeType::Comment, NodeType::Approval, NodeType::Objection, NodeType::Action] {
        assert_eq!(nt.canonical(), nt);
        assert!(nt.is_canonical());
    }
    for nt in [
        NodeType::Claim,
        NodeType::Question,
        NodeType::Evidence,
        NodeType::Summary,
        NodeType::Risk,
        NodeType::Review,
        NodeType::Alternative,
        NodeType::Assumption,
    ] {
        assert_eq!(nt.canonical(), NodeType::Comment);
        assert!(!nt.is_canonical());
    }
}

#[test]
fn node_type_legacy_subtype_label() {
    for nt in [NodeType::Comment, NodeType::Approval, NodeType::Objection, NodeType::Action] {
        assert_eq!(nt.legacy_subtype_label(), None);
    }
    assert_eq!(NodeType::Claim.legacy_subtype_label(), Some("claim"));
    assert_eq!(NodeType::Question.legacy_subtype_label(), Some("question"));
    assert_eq!(NodeType::Evidence.legacy_subtype_label(), Some("evidence"));
    assert_eq!(NodeType::Summary.legacy_subtype_label(), Some("summary"));
    assert_eq!(NodeType::Risk.legacy_subtype_label(), Some("risk"));
    assert_eq!(NodeType::Review.legacy_subtype_label(), Some("review"));
    assert_eq!(NodeType::Alternative.legacy_subtype_label(), Some("alternative"));
    assert_eq!(NodeType::Assumption.legacy_subtype_label(), Some("assumption"));
}

#[test]
fn node_type_parses_canonical_and_legacy() {
    assert_eq!(NodeType::from_str("comment").unwrap(), NodeType::Comment);
    assert_eq!(NodeType::from_str("approval").unwrap(), NodeType::Approval);
    assert_eq!(NodeType::from_str("objection").unwrap(), NodeType::Objection);
    assert_eq!(NodeType::from_str("action").unwrap(), NodeType::Action);
    assert_eq!(NodeType::from_str("claim").unwrap(), NodeType::Claim);
    assert_eq!(NodeType::from_str("summary").unwrap(), NodeType::Summary);
    assert!(NodeType::from_str("nonsense").is_err());
}

#[test]
fn node_type_display_round_trips() {
    for nt in [NodeType::Comment, NodeType::Risk, NodeType::Assumption] {
        assert_eq!(NodeType::parse(&nt.to_string()).unwrap(), nt);
    }
    assert_eq!(
        NodeType::parse("bogus").unwrap_err(),
        "unknown node type 'bogus'; valid: comment, approval, objection, action"
    );
}

#[test]
fn validate_tag_grammar() {
    assert!(validate_tag("bug").is_ok());
    assert!(validate_tag("cross-cutting").is_ok());
    assert!(validate_tag("a1").is_ok());
    assert!(validate_tag("a").is_err());
    assert!(validate_tag(&"a".repeat(33)).is_err());
    assert!(validate_tag("1bug").is_err());
    assert!(validate_tag("Bug").is_err());
    assert!(validate_tag("bug fix").is_err());
    assert!(validate_tag("bug/fix").is_err());
    assert!(validate_tag("bug@fix").is_err());
    assert!(validate_tag("all").is_err());
    assert!(validate_tag("none").is_err());
    assert!(validate_tag("any").is_err());
    assert!(validate_tag("untagged").is_err());
}

#[test]
fn validate_tag_messages() {
    assert_eq!(
        validate_tag("a").unwrap_err(),
        "\"a\": tag length must be 2–32 characters (got 1)"
    );
    assert_eq!(
        validate_tag("1bug").unwrap_err(),
        "\"1bug\": tag must start with a lowercase letter `[a-z]`"
    );
    assert_eq!(
        validate_tag("bug fix").unwrap_err(),
        "\"bug fix\": invalid character ' ' (allowed: `[a-z0-9-]`)"
    );
    assert_eq!(
        validate_tag("any").unwrap_err(),
        "\"any\" is a reserved filter literal (one of [\"all\", \"none\", \"any\", \"untagged\"])"
    );
    assert!(validate_tag(&"a".repeat(32)).is_ok());
}

#[test]
fn thread_kind_initial_status() {
    assert_eq!(ThreadKind::Issue.initial_status(), "open");
    assert_eq!(ThreadKind::Rfc.initial_status(), "draft");
    assert_eq!(ThreadKind::Dec.initial_status(), "open");
    assert_eq!(ThreadKind::Task.initial_status(), "open");
}

#[test]
fn validate_accepts_normal_event() {
    let event = sample_create_event();
    assert!(event.validate().is_ok());
}

#[test]
fn validate_rejects_oversized_actor() {
    let mut event = sample_create_event();
    event.actor = "x".repeat(201);
    assert!(event.validate().is_err());
}

#[test]
fn validate_rejects_oversized_title() {
    let mut event = sample_create_event();
    event.title = Some("x".repeat(501));
    assert!(event.validate().is_err());
}

#[test]
fn validate_rejects_oversized_body() {
    let mut event = sample_create_event();
    event.body = Some("x".repeat(10 * 1024 * 1024 + 1));
    assert!(event.validate().is_err());
}

#[test]
fn validate_accepts_max_size_fields() {
    let mut event = sample_create_event();
    event.actor = "x".repeat(200);
    event.title = Some("x".repeat(500));
    event.body = Some("x".repeat(10 * 1024 * 1024));
    assert!(event.validate().is_ok());
}

#[test]
fn validate_reports_the_limit() {
    let mut event = sample_create_event();
    event.thread_id = "x".repeat(101);
    match event.validate() {
        Err(git_forum::internal::error::ForumError::Config(m)) => {
            assert_eq!(m, "thread_id too long (101 chars, max 100)")
        }
        _ => panic!("expected a config error"),
    }
}

#[test]
fn unified_proposal_typical_path() {
    assert!(is_valid_transition(Lifecycle::Proposal, "draft", "open"));
    assert!(is_valid_transition(Lifecycle::Proposal, "open", "review"));
    assert!(is_valid_transition(Lifecycle::Proposal, "review", "done"));
}

#[test]
fn unified_execution_excludes_withdrawn() {
    assert!(!Lifecycle::Execution.allows_state("withdrawn"));
    assert!(!is_valid_transition(Lifecycle::Execution, "open", "withdrawn"));
}

#[test]
fn unified_record_excludes_review_and_working() {
    assert!(!Lifecycle::Record.allows_state("working"));
    assert!(!Lifecycle::Record.allows_state("review"));
    assert!(!is_valid_transition(Lifecycle::Record, "open", "review"));
    assert!(is_valid_transition(Lifecycle::Record, "open", "done"));
}

#[test]
fn unified_proposal_excludes_working() {
    assert!(!Lifecycle::Proposal.allows_state("working"));
}

#[test]
fn find_path_proposal_draft_to_done() {
    assert_eq!(find_path(Lifecycle::Proposal, "draft", "done"), Some(vec!["open", "done"]));
}

#[test]
fn find_path_proposal_draft_to_review() {
    assert_eq!(find_path(Lifecycle::Proposal, "draft", "review"), Some(vec!["open", "review"]));
}

#[test]
fn find_path_execution_open_to_done_picks_shortest() {
    assert_eq!(find_path(Lifecycle::Execution, "open", "done"), Some(vec!["done"]));
}

#[test]
fn find_path_same_state_returns_empty() {
    assert_eq!(find_path(Lifecycle::Proposal, "draft", "draft"), Some(vec![]));
}

#[test]
fn find_path_unreachable_returns_none() {
    assert_eq!(find_path(Lifecycle::Proposal, "done", "draft"), None);
}

#[test]
fn find_path_bogus_target_returns_none() {
    assert_eq!(find_path(Lifecycle::Proposal, "draft", "bogus"), None);
}

#[test]
fn lifecycle_initial_states() {
    assert_eq!(Lifecycle::Proposal.initial_state(), "draft");
    assert_eq!(Lifecycle::Execution.initial_state(), "open");
    assert_eq!(Lifecycle::Record.initial_state(), "open");
}

#[test]
fn thread_status_parse_canonical_round_trip() {
    for s in ["draft", "open", "working", "review", "done", "rejected", "withdrawn", "deprecated"] {
        let parsed = ThreadStatus::parse(s).expect(s);
        assert_eq!(parsed.as_str(), s);
    }
}

#[test]
fn thread_status_parse_strict_rejects_legacy() {
    assert_eq!(ThreadStatus::parse("closed"), None);
    assert_eq!(ThreadStatus::parse("proposed"), None);
    assert_eq!(ThreadStatus::parse("under-review"), None);
}

#[test]
fn thread_status_parse_lenient_folds_legacy() {
    assert_eq!(ThreadStatus::parse_lenient("closed"), Some(ThreadStatus::Done));
    assert_eq!(ThreadStatus::parse_lenient("accepted"), Some(ThreadStatus::Done));
    assert_eq!(ThreadStatus::parse_lenient("proposed"), Some(ThreadStatus::Open));
    assert_eq!(ThreadStatus::parse_lenient("under-review"), Some(ThreadStatus::Review));
    assert_eq!(ThreadStatus::parse_lenient("reviewing"), Some(ThreadStatus::Review));
    assert_eq!(ThreadStatus::parse_lenient("designing"), Some(ThreadStatus::Working));
    assert_eq!(ThreadStatus::parse_lenient("implementing"), Some(ThreadStatus::Working));
    assert_eq!(ThreadStatus::parse_lenient("pending"), Some(ThreadStatus::Working));
}

#[test]
fn thread_status_parse_lenient_unknown_is_none() {
    assert_eq!(ThreadStatus::parse_lenient("garbage"), None);
    assert_eq!(ThreadStatus::parse_lenient(""), None);
}

#[test]
fn thread_status_display_matches_as_str() {
    assert_eq!(ThreadStatus::Done.to_string(), "done");
    assert_eq!(ThreadStatus::Withdrawn.to_string(), "withdrawn");
}

#[test]
fn valid_targets_proposal_from_draft() {
    assert_eq!(valid_targets(Lifecycle::Proposal, "draft"), vec!["open", "withdrawn"]);
}

#[test]
fn valid_targets_execution_from_open() {
    assert_eq!(
        valid_targets(Lifecycle::Execution, "open"),
        vec!["working", "review", "done", "rejected"]
    );
}

#[test]
fn legacy_state_names_are_normalized_in_queries() {
    assert!(is_valid_transition(Lifecycle::Proposal, "under-review", "accepted"));
    assert!(is_valid_transition(Lifecycle::Execution, "open", "closed"));
    assert!(is_valid_transition(Lifecycle::Execution, "designing", "reviewing"));
}

#[test]
fn find_path_accepts_legacy_state_names() {
    assert_eq!(find_path(Lifecycle::Proposal, "proposed", "accepted"), Some(vec!["done"]));
}

fn all_1x_states() -> &'static [(ThreadKind, &'static str)] {
    &[
        (ThreadKind::Issue, "open"),
        (ThreadKind::Issue, "pending"),
        (ThreadKind::Issue, "closed"),
        (ThreadKind::Issue, "rejected"),
        (ThreadKind::Issue, "withdrawn"),
        (ThreadKind::Rfc, "draft"),
        (ThreadKind::Rfc, "proposed"),
        (ThreadKind::Rfc, "under-review"),
        (ThreadKind::Rfc, "accepted"),
        (ThreadKind::Rfc, "rejected"),
        (ThreadKind::Rfc, "withdrawn"),
        (ThreadKind::Rfc, "deprecated"),
        (ThreadKind::Dec, "proposed"),
        (ThreadKind::Dec, "accepted"),
        (ThreadKind::Dec, "rejected"),
        (ThreadKind::Dec, "deprecated"),
        (ThreadKind::Dec, "withdrawn"),
        (ThreadKind::Task, "open"),
        (ThreadKind::Task, "designing"),
        (ThreadKind::Task, "implementing"),
        (ThreadKind::Task, "reviewing"),
        (ThreadKind::Task, "closed"),
        (ThreadKind::Task, "rejected"),
        (ThreadKind::Task, "withdrawn"),
    ]
}

#[test]
fn round_trip_every_1x_kind_state_lands_in_lifecycle_allowed_set() {
    for &(kind, state) in all_1x_states() {
        let lifecycle = kind.lifecycle();
        let migrated = migrate_legacy_state(kind, state);
        assert!(
            lifecycle.allows_state(migrated),
            "kind={} state={state} migrated={migrated} lifecycle={} allowed={:?}",
            kind.as_str(),
            lifecycle.as_str(),
            lifecycle.allowed_states(),
        );
    }
}

#[test]
fn migrate_drops_withdrawn_for_execution() {
    assert_eq!(migrate_legacy_state(ThreadKind::Issue, "withdrawn"), "rejected");
    assert_eq!(migrate_legacy_state(ThreadKind::Task, "withdrawn"), "rejected");
    assert_eq!(migrate_legacy_state(ThreadKind::Rfc, "withdrawn"), "withdrawn");
}

#[test]
fn migrate_moves_disallowed_states_to_initial() {
    assert_eq!(migrate_legacy_state(ThreadKind::Dec, "reviewing"), "open");
    assert_eq!(migrate_legacy_state(ThreadKind::Issue, "draft"), "open");
    assert_eq!(migrate_legacy_state(ThreadKind::Rfc, "pending"), "draft");
    assert_eq!(migrate_legacy_state(ThreadKind::Rfc, "mystery"), "mystery");
}

#[test]
fn normalize_known_legacy_state_names() {
    assert_eq!(normalize_state_name("accepted"), "done");
    assert_eq!(normalize_state_name("closed"), "done");
    assert_eq!(normalize_state_name("under-review"), "review");
    assert_eq!(normalize_state_name("reviewing"), "review");
    assert_eq!(normalize_state_name("proposed"), "open");
    assert_eq!(normalize_state_name("pending"), "working");
    assert_eq!(normalize_state_name("designing"), "working");
    assert_eq!(normalize_state_name("implementing"), "working");
    assert_eq!(normalize_state_name("draft"), "draft");
    assert_eq!(normalize_state_name("open"), "open");
    assert_eq!(normalize_state_name("rejected"), "rejected");
    assert_eq!(normalize_state_name("withdrawn"), "withdrawn");
    assert_eq!(normalize_state_name("deprecated"), "deprecated");
}

#[test]
fn event_type_names() {
    assert_eq!(EventType::ReviseBody.to_string(), "revise-body");
    assert_eq!(EventType::FacetSet.as_str(), "facet-set");
    assert_eq!(EventType::default(), EventType::Create);
}

#[test]
fn project_create_carries_payload_and_meta() {
    let event = sample_create_event();
    let dom = event.project().expect("create projects");
    match dom {
        DomainEvent::Create { meta, title, kind, body, branch } => {
            assert_eq!(meta.event_id, event.event_id);
            assert_eq!(meta.thread_id, event.thread_id);
            assert_eq!(meta.event_type, EventType::Create);
            assert_eq!(meta.actor, event.actor);
            assert_eq!(title, "Test RFC");
            assert_eq!(kind, ThreadKind::Rfc);
            assert_eq!(body.as_deref(), Some("Thread body"));
            assert!(branch.is_none());
        }
        _ => panic!("expected Create variant"),
    }
}

#[test]
fn project_say_requires_node_type_then_body() {
    let mut ev = sample_create_event();
    ev.event_type = EventType::Say;
    ev.title = None;
    ev.kind = None;
    ev.node_type = None;
    ev.body = None;
    let err = ev.project().expect_err("missing fields");
    assert_eq!(err, ProjectionError::MissingRequiredField { field: "node_type" });
    ev.node_type = Some(NodeType::Comment);
    let err = ev.project().expect_err("missing body");
    assert_eq!(err, ProjectionError::MissingRequiredField { field: "body" });
    ev.body = Some("hi".into());
    let dom = ev.project().expect("now valid");
    assert!(matches!(dom, DomainEvent::Say { ref body, .. } if body == "hi"));
}

#[test]
fn project_link_validates_either_evidence_or_target_pair() {
    let mut ev = sample_create_event();
    ev.event_type = EventType::Link;
    ev.title = None;
    ev.kind = None;
    ev.body = None;
    let err = ev.project().expect_err("link missing payload");
    assert_eq!(err, ProjectionError::MissingRequiredField { field: "evidence_or_target_link" });
    ev.target_node_id = Some("xyz".into());
    let err = ev.project().expect_err("link missing rel");
    assert_eq!(err, ProjectionError::MissingRequiredField { field: "evidence_or_target_link" });
    ev.link_rel = Some("implements".into());
    let dom = ev.project().expect("link with target+rel");
    assert!(matches!(dom, DomainEvent::Link { payload: LinkPayload::Thread { .. }, .. }));
}

#[test]
fn project_facetset_passes_through_unparsed_lifecycle() {
    let mut ev = sample_create_event();
    ev.event_type = EventType::FacetSet;
    ev.title = None;
    ev.kind = None;
    ev.body = None;
    ev.lifecycle = Some("nonsense".into());
    let dom = ev.project().expect("facetset projects");
    match dom {
        DomainEvent::FacetSet { lifecycle, .. } => {
            assert_eq!(lifecycle.as_deref(), Some("nonsense"));
        }
        _ => panic!("expected FacetSet"),
    }
}

#[test]
fn project_state_keeps_approvals_and_meta() {
    let mut ev = sample_create_event();
    ev.event_type = EventType::State;
    ev.new_state = Some("done".into());
    ev.approvals = vec![Approval {
        actor_id: "human/alice".into(),
        approved_at: ev.created_at,
        mechanism: ApprovalMechanism::Recorded,
        key_id: None,
        proof_ref: None,
    }];
    let dom = ev.project().expect("state projects");
    assert_eq!(dom.meta().thread_id, "RFC-0001");
    match dom {
        DomainEvent::State { new_state, approvals, .. } => {
            assert_eq!(new_state, "done");
            assert_eq!(approvals.len(), 1);
            assert_eq!(approvals[0].actor_id, "human/alice");
        }
        _ => panic!("expected State"),
    }
}

#[test]
fn builders_set_fields() {
    let now = Timestamp { secs: 5, nanos: 7 };
    let ev = Event::base("ASK-0001", EventType::Say, "human/bob", now)
        .with_node_type(NodeType::Objection)
        .with_body("no")
        .with_reply_to(Some("abc"))
        .with_tags_add(vec!["bug".to_string()]);
    assert_eq!(ev.thread_id, "ASK-0001");
    assert_eq!(ev.actor, "human/bob");
    assert_eq!(ev.created_at, now);
    assert_eq!(ev.node_type, Some(NodeType::Objection));
    assert_eq!(ev.body.as_deref(), Some("no"));
    assert_eq!(ev.reply_to.as_deref(), Some("abc"));
    assert_eq!(ev.tags_add, vec!["bug".to_string()]);
    assert!(ev.title.is_none());
}

#[test]
fn valid_targets_are_distinct_and_legal() {
    for lc in [Lifecycle::Proposal, Lifecycle::Execution, Lifecycle::Record] {
        for from in ["draft", "open", "working", "review", "done", "rejected", "withdrawn", "deprecated"] {
            let ts = valid_targets(lc, from);
            for (i, t) in ts.iter().enumerate() {
                assert!(!ts[i + 1..].contains(t), "{from}: {t} twice");
                assert!(is_valid_transition(lc, from, t));
            }
            for to in ["draft", "open", "working", "review", "done", "rejected", "withdrawn", "deprecated"] {
                assert_eq!(ts.contains(&to), is_valid_transition(lc, from, to));
            }
        }
    }
}

#[test]
fn find_path_steps_are_legal() {
    let p = find_path(Lifecycle::Execution, "open", "done").unwrap();
    let mut at = "open";
    for s in &p {
        assert!(is_valid_transition(Lifecycle::Execution, at, s));
        at = s;
    }
    assert_eq!(at, "done");
    assert_eq!(find_path(Lifecycle::Proposal, "accepted", "open"), Some(vec!["open"]));
    assert_eq!(find_path(Lifecycle::Proposal, "open", "nowhere"), None);
}
