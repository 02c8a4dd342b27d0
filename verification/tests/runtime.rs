use sha2::Digest;
use aster::authority::{
    AuthorityError, AuthorityLedger, CanonicalError, Intent, Permit, Proposal, ProposalMetadata,
};
use aster::canonical::JsonObject;
use aster::json_value::JsonValue;
use aster::{Budget, BudgetDimension, BudgetError};

#[test]
fn budget_reservation_precedes_and_bounds_actual_usage() {
    let mut budget = Budget::new(vec![
        (BudgetDimension::ModelCalls, 1),
        (BudgetDimension::ModelTokens, 100),
    ]);
    let reservation = budget
        .reserve(BudgetDimension::ModelCalls, 1)
        .expect("first model call fits");
    assert_eq!(
        budget.reserve(BudgetDimension::ModelCalls, 1),
        Err(BudgetError::Exhausted(BudgetDimension::ModelCalls))
    );
    assert_eq!(
        budget.settle(reservation, 2),
        Err(BudgetError::ActualExceedsReservation)
    );
}

#[test]
fn settling_releases_the_unused_part_once() {
    let mut budget = Budget::new(vec![(BudgetDimension::ModelTokens, 100)]);
    let reservation = budget.reserve(BudgetDimension::ModelTokens, 40).expect("fits");
    assert_eq!(budget.remaining(BudgetDimension::ModelTokens), 60);
    assert_eq!(budget.settle(reservation, 15), Ok(()));
    assert_eq!(budget.remaining(BudgetDimension::ModelTokens), 85);
    assert_eq!(budget.settle(reservation, 0), Err(BudgetError::UnknownReservation));
    assert_eq!(budget.remaining(BudgetDimension::ModelTokens), 85);
}

#[test]
fn omitted_dimensions_have_no_capacity_and_later_limits_win() {
    let mut budget = Budget::new(vec![
        (BudgetDimension::Approvals, 3),
        (BudgetDimension::Approvals, 1),
    ]);
    assert_eq!(budget.remaining(BudgetDimension::Approvals), 1);
    assert_eq!(budget.remaining(BudgetDimension::ExternalWrites), 0);
    assert_eq!(
        budget.reserve(BudgetDimension::ExternalWrites, 1),
        Err(BudgetError::Exhausted(BudgetDimension::ExternalWrites))
    );
    let zero = budget.reserve(BudgetDimension::ExternalWrites, 0).expect("zero always fits");
    assert_eq!(budget.settle(zero, 0), Ok(()));
    let before = budget.clone();
    assert!(budget.reserve(BudgetDimension::Approvals, 2).is_err());
    assert_eq!(budget, before);
}

#[test]
fn budget_errors_describe_themselves() {
    assert_eq!(
        BudgetError::Exhausted(BudgetDimension::ModelCalls).message(),
        "budget exhausted for ModelCalls"
    );
    assert_eq!(BudgetError::UnknownReservation.message(), "unknown budget reservation");
}

fn object(members: &[(&str, &str)]) -> JsonObject {
    let mut object = JsonObject::new();
    for (key, value) in members {
        object.insert(key, JsonValue::String((*value).to_owned()));
    }
    object
}

fn text(value: &str) -> String {
    serde_json::to_string(value).expect("text serializes")
}

fn metadata(
    risk: &str,
    sensitivity: &str,
    capability_request: &JsonValue,
    idempotency_key: &str,
    program_hash: &str,
) -> ProposalMetadata {
    ProposalMetadata {
        risk: risk.to_owned(),
        sensitivity: sensitivity.to_owned(),
        capability_request: capability_request.clone(),
        idempotency_key: idempotency_key.to_owned(),
        program_hash: program_hash.to_owned(),
    }
}

const CAPABILITY_REQUEST: &str = "{\"arguments\":[\"user-001\"],\"capability\":\"CalendarWrite\"}";

fn capability_request() -> JsonValue {
    JsonValue::Object(vec![
        (
            "arguments".to_owned(),
            JsonValue::Array(vec![JsonValue::String("user-001".to_owned())]),
        ),
        ("capability".to_owned(), JsonValue::String("CalendarWrite".to_owned())),
    ])
}

fn proposal() -> Proposal {
    Proposal::new(
        "Calendar.create",
        object(&[("owner", "user-001"), ("request_id", "evt-001")]),
        Intent {
            purpose: "ScheduleMeeting".to_owned(),
            fields: object(&[("expected", "created")]),
            expires_at: "2026-08-05T12:02:00Z".to_owned(),
        },
        metadata(
            "reversible",
            "private",
            &capability_request(),
            "evt-001",
            "program-hash",
        ),
    )
    .expect("proposal is canonicalizable")
}

fn assert_proposal_hash_changes(
    base: &Proposal,
    action: &str,
    arguments: JsonObject,
    intent: Intent,
    metadata: ProposalMetadata,
) {
    let changed = Proposal::new(action, arguments, intent, metadata).expect("mutation hashes");
    assert_ne!(changed.hash(), base.hash());
}

#[test]
fn proposal_hash_binds_every_authority_relevant_field() {
    let base = proposal();
    let same = || {
        metadata(
            &base.risk,
            &base.sensitivity,
            &base.capability_request,
            &base.idempotency_key,
            &base.program_hash,
        )
    };
    assert_proposal_hash_changes(
        &base,
        "Calendar.other",
        base.arguments.clone(),
        base.intent.clone(),
        same(),
    );
    assert_proposal_hash_changes(
        &base,
        &base.action,
        object(&[("owner", "other")]),
        base.intent.clone(),
        same(),
    );
    assert_proposal_hash_changes(
        &base,
        &base.action,
        base.arguments.clone(),
        Intent {
            purpose: "Other".to_owned(),
            ..base.intent.clone()
        },
        same(),
    );
    for changed in [
        metadata(
            "irreversible",
            &base.sensitivity,
            &base.capability_request,
            &base.idempotency_key,
            &base.program_hash,
        ),
        metadata(
            &base.risk,
            "secret",
            &base.capability_request,
            &base.idempotency_key,
            &base.program_hash,
        ),
        metadata(
            &base.risk,
            &base.sensitivity,
            &JsonValue::Object(vec![(
                "capability".to_owned(),
                JsonValue::String("Other".to_owned()),
            )]),
            &base.idempotency_key,
            &base.program_hash,
        ),
        metadata(
            &base.risk,
            &base.sensitivity,
            &base.capability_request,
            "other-key",
            &base.program_hash,
        ),
        metadata(
            &base.risk,
            &base.sensitivity,
            &base.capability_request,
            &base.idempotency_key,
            "other-program",
        ),
    ] {
        assert_proposal_hash_changes(
            &base,
            &base.action,
            base.arguments.clone(),
            base.intent.clone(),
            changed,
        );
    }
    let mut tampered = base.clone();
    tampered.action = "Calendar.delete".to_owned();
    assert_eq!(tampered.validate(), Err(CanonicalError::DigestMismatch));
    assert_eq!(base.validate(), Ok(()));
}

#[test]
fn proposal_identity_is_the_digest_of_its_canonical_json() {
    let base = proposal();
    let canonical = concat_canonical(&base);
    use_digest(&canonical, base.hash());
}

fn concat_canonical(base: &Proposal) -> String {
    let mut value: serde_json::Value = serde_json::from_str(&format!(
        "{{\"schema_version\":1,\"action\":{},\"arguments\":{{\"request_id\":{},\"owner\":{}}},\
         \"intent\":{{\"purpose\":{},\"fields\":{{\"expected\":{}}},\"expires_at\":{}}},\
         \"risk\":{},\"sensitivity\":{},\"capability_request\":{},\"idempotency_key\":{},\
         \"program_hash\":{},\"digest\":\"\"}}",
        text(&base.action),
        text("evt-001"),
        text("user-001"),
        text("ScheduleMeeting"),
        text("created"),
        text("2026-08-05T12:02:00Z"),
        text("reversible"),
        text("private"),
        CAPABILITY_REQUEST,
        text("evt-001"),
        text("program-hash"),
    ))
    .expect("fixture is JSON");
    value["digest"] = serde_json::Value::String(String::new());
    serde_json::to_string(&value).expect("value serializes")
}

fn use_digest(canonical: &str, expected: &str) {
    assert_eq!(proposal_digest(canonical), expected);
}

fn proposal_digest(content: &str) -> String {
    hex::encode(sha2::Sha256::digest(content.as_bytes()))
}

#[test]
fn json_object_keeps_unique_keys_in_byte_order() {
    let mut object = JsonObject::new();
    assert_eq!(object.insert("b", JsonValue::Int(1)), None);
    assert_eq!(object.insert("a", JsonValue::Int(2)), None);
    assert_eq!(object.insert("B", JsonValue::Int(3)), None);
    assert_eq!(object.insert("a", JsonValue::Int(4)), Some(JsonValue::Int(2)));
    let keys: Vec<&str> = object.members().iter().map(|(key, _)| key.as_str()).collect();
    assert_eq!(keys, vec!["B", "a", "b"]);
    assert_eq!(object.get("a"), Some(&JsonValue::Int(4)));
    assert_eq!(object.get("c"), None);
    let mut json = String::new();
    object.write_json(&mut json);
    assert_eq!(json, "{\"B\":3,\"a\":4,\"b\":1}");
}

#[test]
fn permit_is_bound_expiring_and_single_use() {
    let first = proposal();
    let second = Proposal::new(
        &first.action,
        object(&[("request_id", "evt-002")]),
        first.intent.clone(),
        metadata(
            &first.risk,
            &first.sensitivity,
            &first.capability_request,
            "evt-002",
            &first.program_hash,
        ),
    )
    .unwrap();
    let mut ledger = AuthorityLedger::default();
    let permit = ledger
        .issue(
            &first,
            "DirectPolicy",
            "grant-a",
            "2026-08-05T12:00:00Z",
            "2026-08-05T12:01:00Z",
            "direct_allow",
        )
        .expect("intact proposal is authorized");
    let forged = Permit::from_parts(
        permit.id().to_owned(),
        permit.sequence(),
        permit.proposal_hash().to_owned(),
        permit.action().to_owned(),
        permit.grant_fingerprint().to_owned(),
        "ForgedPolicy".to_owned(),
        permit.issued_at().to_owned(),
        permit.expires_at().to_owned(),
        permit.decision_evidence().to_owned(),
    );
    assert_eq!(
        ledger.consume(&first, &forged, "grant-a", "2026-08-05T12:00:30Z"),
        Err(AuthorityError::ForgedPermit)
    );

    assert_eq!(
        ledger.consume(&second, &permit, "grant-a", "2026-08-05T12:00:30Z"),
        Err(AuthorityError::ProposalMismatch)
    );
    assert_eq!(
        ledger.consume(&first, &permit, "grant-b", "2026-08-05T12:00:30Z"),
        Err(AuthorityError::GrantMismatch)
    );
    assert_eq!(
        ledger.consume(&first, &permit, "grant-a", "2026-08-05T12:01:01Z"),
        Err(AuthorityError::Expired)
    );
    ledger
        .consume(&first, &permit, "grant-a", "2026-08-05T12:00:30Z")
        .expect("matching permit is consumed once");
    assert_eq!(
        ledger.consume(&first, &permit, "grant-a", "2026-08-05T12:00:30Z"),
        Err(AuthorityError::AlreadyConsumed)
    );
    assert_eq!(ledger.validate(), Ok(()));
}

#[test]
fn tampered_proposal_is_refused_issuance() {
    let mut tampered = proposal();
    tampered.risk = "irreversible".to_owned();
    let mut ledger = AuthorityLedger::new();
    assert_eq!(
        ledger
            .issue(&tampered, "P", "g", "2025-01-01T00:00:00Z", "2026-01-01T00:00:00Z", "e")
            .err(),
        Some(AuthorityError::ProposalMismatch)
    );
}

#[test]
fn permit_identity_is_the_digest_of_its_bound_parts() {
    let proposal = proposal();
    let mut ledger = AuthorityLedger::new();
    let permit = ledger
        .issue(&proposal, "Policy", "grant", "2029-01-01T00:00:00Z", "2029-06-01T00:00:00Z", "evidence")
        .expect("issued");
    let material = format!(
        "{}\0Policy\0grant\0{}\0{}\0evidence\00",
        proposal.hash(),
        "2029-01-01T00:00:00Z",
        "2029-06-01T00:00:00Z"
    );
    assert_eq!(permit.id(), proposal_digest(&material));
    assert_eq!(permit.sequence(), 0);
    let next = ledger
        .issue(&proposal, "Policy", "grant", "2029-01-01T00:00:00Z", "2029-06-01T00:00:00Z", "evidence")
        .expect("issued again");
    assert_eq!(next.sequence(), 1);
    assert_ne!(next.id(), permit.id());
    assert_eq!(AuthorityError::Expired.message(), "permit or intent expired");
}
