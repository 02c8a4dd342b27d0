use vstd::prelude::*;

use crate::canonical::{JsonObject, object_json};
use crate::json_value::{JsonValue, canonical_text, write_canonical};
use crate::digest::{hex_text, sha256_hex, sha256_of};
use crate::json::json_quoted;
use crate::trace::write_json_text;
use crate::span::utf8_of;
use crate::table::{
    find, lemma_position_bounds, lemma_position_push, lemma_position_update, lookup, position_of,
};
use crate::text::{bytes_less, decimal, push_char, push_decimal, push_str, str_equal, str_less};

verus! {

/// Immutable intent attached to one proposal.
#[derive(Clone, Debug, PartialEq, Eq)]
pub struct Intent {
    /// Static purpose identity.
    pub purpose: String,
    /// Canonically ordered intent fields.
    pub fields: JsonObject,
    /// Normalized UTC expiry instant.
    pub expires_at: String,
}

/// Immutable tool and program metadata incorporated into a proposal hash.
#[derive(Clone, Debug, PartialEq, Eq)]
pub struct ProposalMetadata {
    /// Declared write risk.
    pub risk: String,
    /// Declared data sensitivity.
    pub sensitivity: String,
    /// The exact runtime capability request.
    pub capability_request: JsonValue,
    /// Deterministic write request key.
    pub idempotency_key: String,
    /// Normalized source/IR identity.
    pub program_hash: String,
}

/// Immutable, canonically hashed write proposal.
#[derive(Clone, Debug, PartialEq, Eq)]
pub struct Proposal {
    /// Proposal schema version.
    pub schema_version: u32,
    /// Write action identity.
    pub action: String,
    /// Complete immutable tool arguments.
    pub arguments: JsonObject,
    /// Human-legible governed purpose.
    pub intent: Intent,
    /// Declared write risk.
    pub risk: String,
    /// Declared data sensitivity at the write boundary.
    pub sensitivity: String,
    /// The exact runtime capability request.
    pub capability_request: JsonValue,
    /// Deterministic write request key.
    pub idempotency_key: String,
    /// Normalized source/IR identity.
    pub program_hash: String,
    /// Canonical identity sealed at construction; `validate` checks it.
    pub digest: String,
}

/// Canonical JSON of an intent.
pub open spec fn intent_json(intent: Intent) -> Seq<char> {
    "{\"expires_at\":"@ + json_quoted(intent.expires_at@) + ",\"fields\":"@ + object_json(
        intent.fields.entries(),
    ) + ",\"purpose\":"@ + json_quoted(intent.purpose@) + "}"@
}

/// Canonical JSON of a proposal with `digest` as its identity field: every
/// field in key order, no spacing.
pub open spec fn proposal_json(p: Proposal, digest: Seq<char>) -> Seq<char> {
    "{\"action\":"@ + json_quoted(p.action@) + ",\"arguments\":"@ + object_json(
        p.arguments.entries(),
    ) + ",\"capability_request\":"@ + canonical_text(p.capability_request@) + ",\"digest\":"@ + json_quoted(
        digest,
    ) + ",\"idempotency_key\":"@ + json_quoted(p.idempotency_key@) + ",\"intent\":"@
        + intent_json(p.intent) + ",\"program_hash\":"@ + json_quoted(p.program_hash@)
        + ",\"risk\":"@ + json_quoted(p.risk@) + ",\"schema_version\":"@ + decimal(
        p.schema_version as nat,
    ) + ",\"sensitivity\":"@ + json_quoted(p.sensitivity@) + "}"@
}

/// The identity a proposal's content determines: lower-case hexadecimal
/// SHA-256 of its canonical JSON with an empty identity field.
pub open spec fn proposal_digest(p: Proposal) -> Seq<char> {
    hex_text(sha256_of(utf8_of(proposal_json(p, Seq::empty()))))
}

/// Whether a proposal's content still matches its identity.
pub open spec fn proposal_intact(p: Proposal) -> bool {
    p.spec_digest() == proposal_digest(p)
}

/// Canonical hashing failure.
#[derive(Clone, Copy, Debug, PartialEq, Eq, Structural)]
pub enum CanonicalError {
    /// Content no longer matches its canonical identity.
    DigestMismatch,
}

impl Proposal {
    /// The proposal's claimed identity.
    pub open spec fn spec_digest(&self) -> Seq<char> {
        self.digest@
    }

    /// Constructs and seals a proposal over every authority-relevant field.
    pub fn new(action: &str, arguments: JsonObject, intent: Intent, metadata: ProposalMetadata) -> (result: Result<
        Proposal,
        CanonicalError,
    >)
        ensures
            result matches Ok(p) && p.schema_version == 1 && p.action@ == action@ && p.arguments
                == arguments && p.intent == intent && p.risk == metadata.risk && p.sensitivity
                == metadata.sensitivity && p.capability_request == metadata.capability_request
                && p.idempotency_key == metadata.idempotency_key && p.program_hash
                == metadata.program_hash && proposal_intact(p),
    {
        let mut proposal = Proposal {
            schema_version: 1,
            action: action.to_owned(),
            arguments,
            intent,
            risk: metadata.risk,
            sensitivity: metadata.sensitivity,
            capability_request: metadata.capability_request,
            idempotency_key: metadata.idempotency_key,
            program_hash: metadata.program_hash,
            digest: String::new(),
        };
        let ghost unsealed = proposal;
        let digest = proposal.content_digest();
        proposal.digest = digest;
        proof {
            assert(proposal_json(proposal, Seq::empty()) == proposal_json(unsealed, Seq::empty()));
        }
        Ok(proposal)
    }

    /// Returns the immutable canonical proposal identity.
    pub fn hash(&self) -> (hash: &str)
        ensures
            hash@ == self.spec_digest(),
    {
        self.digest.as_str()
    }

    /// Verifies that the proposal content still matches its identity.
    pub fn validate(&self) -> (result: Result<(), CanonicalError>)
        ensures
            result is Ok <==> proposal_intact(*self),
            result matches Err(e) ==> e == CanonicalError::DigestMismatch,
    {
        let digest = self.content_digest();
        if str_equal(digest.as_str(), self.digest.as_str()) {
            Ok(())
        } else {
            Err(CanonicalError::DigestMismatch)
        }
    }

    /// The identity this proposal's content determines.
    #[verifier::spinoff_prover]
    #[verifier::rlimit(40)]
    fn content_digest(&self) -> (digest: String)
        ensures
            digest@ == proposal_digest(*self),
    {
        let mut text = String::new();
        push_str(&mut text, "{\"action\":");
        write_json_text(&mut text, self.action.as_str());
        push_str(&mut text, ",\"arguments\":");
        self.arguments.write_json(&mut text);
        push_str(&mut text, ",\"capability_request\":");
        write_canonical(&mut text, &self.capability_request);
        push_str(&mut text, ",\"digest\":");
        write_json_text(&mut text, "");
        push_str(&mut text, ",\"idempotency_key\":");
        write_json_text(&mut text, self.idempotency_key.as_str());
        push_str(&mut text, ",\"intent\":");
        push_str(&mut text, "{\"expires_at\":");
        write_json_text(&mut text, self.intent.expires_at.as_str());
        push_str(&mut text, ",\"fields\":");
        self.intent.fields.write_json(&mut text);
        push_str(&mut text, ",\"purpose\":");
        write_json_text(&mut text, self.intent.purpose.as_str());
        push_str(&mut text, "}");
        push_str(&mut text, ",\"program_hash\":");
        write_json_text(&mut text, self.program_hash.as_str());
        push_str(&mut text, ",\"risk\":");
        write_json_text(&mut text, self.risk.as_str());
        push_str(&mut text, ",\"schema_version\":");
        push_decimal(&mut text, self.schema_version as u64);
        push_str(&mut text, ",\"sensitivity\":");
        write_json_text(&mut text, self.sensitivity.as_str());
        push_str(&mut text, "}");
        proof {
            reveal_strlit("");
            assert(""@ =~= Seq::<char>::empty());
            assert(text@ =~= proposal_json(*self, Seq::empty()));
        }
        sha256_hex(text.as_str())
    }
}

/// Runtime-issued, proposal-bound, single-use authority.
#[derive(Debug, PartialEq, Eq)]
pub struct Permit {
    id: String,
    sequence: u64,
    proposal_hash: String,
    action: String,
    grant_fingerprint: String,
    policy: String,
    issued_at: String,
    expires_at: String,
    decision_evidence: String,
}

impl Permit {
    /// Permit identity.
    pub closed spec fn spec_id(&self) -> Seq<char> {
        self.id@
    }

    /// Issuance sequence number.
    pub closed spec fn spec_sequence(&self) -> u64 {
        self.sequence
    }

    /// Identity of the bound proposal.
    pub closed spec fn spec_proposal_hash(&self) -> Seq<char> {
        self.proposal_hash@
    }

    /// Bound write action.
    pub closed spec fn spec_action(&self) -> Seq<char> {
        self.action@
    }

    /// Fingerprint of the capability grants at authorization.
    pub closed spec fn spec_grant_fingerprint(&self) -> Seq<char> {
        self.grant_fingerprint@
    }

    /// Authorizing policy.
    pub closed spec fn spec_policy(&self) -> Seq<char> {
        self.policy@
    }

    /// Issuance instant.
    pub closed spec fn spec_issued_at(&self) -> Seq<char> {
        self.issued_at@
    }

    /// Expiry instant.
    pub closed spec fn spec_expires_at(&self) -> Seq<char> {
        self.expires_at@
    }

    /// Evidence of the authorizing decision.
    pub closed spec fn spec_decision_evidence(&self) -> Seq<char> {
        self.decision_evidence@
    }

    /// Assembles a permit from its parts, as persisted.
    pub fn from_parts(
        id: String,
        sequence: u64,
        proposal_hash: String,
        action: String,
        grant_fingerprint: String,
        policy: String,
        issued_at: String,
        expires_at: String,
        decision_evidence: String,
    ) -> (permit: Permit)
        ensures
            permit.spec_id() == id@,
            permit.spec_sequence() == sequence,
            permit.spec_proposal_hash() == proposal_hash@,
            permit.spec_action() == action@,
            permit.spec_grant_fingerprint() == grant_fingerprint@,
            permit.spec_policy() == policy@,
            permit.spec_issued_at() == issued_at@,
            permit.spec_expires_at() == expires_at@,
            permit.spec_decision_evidence() == decision_evidence@,
    {
        Permit {
            id,
            sequence,
            proposal_hash,
            action,
            grant_fingerprint,
            policy,
            issued_at,
            expires_at,
            decision_evidence,
        }
    }

    /// Permit identity.
    pub fn id(&self) -> (id: &str)
        ensures
            id@ == self.spec_id(),
    {
        self.id.as_str()
    }

    /// Issuance sequence number.
    pub fn sequence(&self) -> (sequence: u64)
        ensures
            sequence == self.spec_sequence(),
    {
        self.sequence
    }

    /// Identity of the bound proposal.
    pub fn proposal_hash(&self) -> (hash: &str)
        ensures
            hash@ == self.spec_proposal_hash(),
    {
        self.proposal_hash.as_str()
    }

    /// Bound write action.
    pub fn action(&self) -> (action: &str)
        ensures
            action@ == self.spec_action(),
    {
        self.action.as_str()
    }

    /// Fingerprint of the capability grants at authorization.
    pub fn grant_fingerprint(&self) -> (fingerprint: &str)
        ensures
            fingerprint@ == self.spec_grant_fingerprint(),
    {
        self.grant_fingerprint.as_str()
    }

    /// Authorizing policy.
    pub fn policy(&self) -> (policy: &str)
        ensures
            policy@ == self.spec_policy(),
    {
        self.policy.as_str()
    }

    /// Issuance instant.
    pub fn issued_at(&self) -> (instant: &str)
        ensures
            instant@ == self.spec_issued_at(),
    {
        self.issued_at.as_str()
    }

    /// Expiry instant.
    pub fn expires_at(&self) -> (instant: &str)
        ensures
            instant@ == self.spec_expires_at(),
    {
        self.expires_at.as_str()
    }

    /// Evidence of the authorizing decision.
    pub fn decision_evidence(&self) -> (evidence: &str)
        ensures
            evidence@ == self.spec_decision_evidence(),
    {
        self.decision_evidence.as_str()
    }

    /// A copy of this permit.
    pub fn duplicate(&self) -> (copy: Permit)
        ensures
            same_permit(copy, *self),
    {
        Permit {
            id: self.id.clone(),
            sequence: self.sequence,
            proposal_hash: self.proposal_hash.clone(),
            action: self.action.clone(),
            grant_fingerprint: self.grant_fingerprint.clone(),
            policy: self.policy.clone(),
            issued_at: self.issued_at.clone(),
            expires_at: self.expires_at.clone(),
            decision_evidence: self.decision_evidence.clone(),
        }
    }

    /// Whether two permits hold the same parts.
    pub fn same_as(&self, other: &Permit) -> (same: bool)
        ensures
            same == same_permit(*self, *other),
    {
        str_equal(self.id.as_str(), other.id.as_str()) && self.sequence == other.sequence
            && str_equal(self.proposal_hash.as_str(), other.proposal_hash.as_str()) && str_equal(
            self.action.as_str(),
            other.action.as_str(),
        ) && str_equal(self.grant_fingerprint.as_str(), other.grant_fingerprint.as_str())
            && str_equal(self.policy.as_str(), other.policy.as_str()) && str_equal(
            self.issued_at.as_str(),
            other.issued_at.as_str(),
        ) && str_equal(self.expires_at.as_str(), other.expires_at.as_str()) && str_equal(
            self.decision_evidence.as_str(),
            other.decision_evidence.as_str(),
        )
    }

    /// The identity this permit's parts determine.
    fn computed_id(&self) -> (id: String)
        ensures
            id@ == permit_digest(*self),
    {
        let mut material = String::new();
        push_str(&mut material, self.proposal_hash.as_str());
        push_char(&mut material, '\0');
        push_str(&mut material, self.policy.as_str());
        push_char(&mut material, '\0');
        push_str(&mut material, self.grant_fingerprint.as_str());
        push_char(&mut material, '\0');
        push_str(&mut material, self.issued_at.as_str());
        push_char(&mut material, '\0');
        push_str(&mut material, self.expires_at.as_str());
        push_char(&mut material, '\0');
        push_str(&mut material, self.decision_evidence.as_str());
        push_char(&mut material, '\0');
        push_decimal(&mut material, self.sequence);
        proof {
            assert(material@ =~= permit_material(*self));
        }
        sha256_hex(material.as_str())
    }
}

/// Whether two permits hold the same parts.
pub open spec fn same_permit(a: Permit, b: Permit) -> bool {
    &&& a.spec_id() == b.spec_id()
    &&& a.spec_sequence() == b.spec_sequence()
    &&& a.spec_proposal_hash() == b.spec_proposal_hash()
    &&& a.spec_action() == b.spec_action()
    &&& a.spec_grant_fingerprint() == b.spec_grant_fingerprint()
    &&& a.spec_policy() == b.spec_policy()
    &&& a.spec_issued_at() == b.spec_issued_at()
    &&& a.spec_expires_at() == b.spec_expires_at()
    &&& a.spec_decision_evidence() == b.spec_decision_evidence()
}

/// The text whose digest identifies a permit: its bound parts separated by
/// NUL characters, then its sequence number in decimal.
pub open spec fn permit_material(p: Permit) -> Seq<char> {
    p.spec_proposal_hash() + seq!['\0'] + p.spec_policy() + seq!['\0'] + p.spec_grant_fingerprint()
        + seq!['\0'] + p.spec_issued_at() + seq!['\0'] + p.spec_expires_at() + seq!['\0']
        + p.spec_decision_evidence() + seq!['\0'] + decimal(p.spec_sequence() as nat)
}

/// The identity a permit's parts determine: lower-case hexadecimal SHA-256
/// of its material.
pub open spec fn permit_digest(p: Permit) -> Seq<char> {
    hex_text(sha256_of(utf8_of(permit_material(p))))
}

/// Permit validation failure before a write effect.
#[derive(Clone, Copy, Debug, PartialEq, Eq, Structural)]
pub enum AuthorityError {
    /// Permit identity is not present in the issuance ledger or its digest is invalid.
    ForgedPermit,
    /// Permit does not bind this immutable proposal.
    ProposalMismatch,
    /// Runtime grants changed after authorization.
    GrantMismatch,
    /// Intent or permit is expired.
    Expired,
    /// Permit has already authorized a commit.
    AlreadyConsumed,
}

/// Message of each authority failure.
pub open spec fn authority_error_message(error: AuthorityError) -> Seq<char> {
    match error {
        AuthorityError::ForgedPermit => "permit is forged or was not issued by this authority ledger"@,
        AuthorityError::ProposalMismatch => "permit does not match proposal"@,
        AuthorityError::GrantMismatch => "permit capability fingerprint mismatch"@,
        AuthorityError::Expired => "permit or intent expired"@,
        AuthorityError::AlreadyConsumed => "permit already consumed"@,
    }
}

impl AuthorityError {
    /// Human-readable description of the failure.
    pub fn message(&self) -> (text: &'static str)
        ensures
            text@ == authority_error_message(*self),
    {
        match self {
            AuthorityError::ForgedPermit => "permit is forged or was not issued by this authority ledger",
            AuthorityError::ProposalMismatch => "permit does not match proposal",
            AuthorityError::GrantMismatch => "permit capability fingerprint mismatch",
            AuthorityError::Expired => "permit or intent expired",
            AuthorityError::AlreadyConsumed => "permit already consumed",
        }
    }
}

/// Runtime permit issuance and consumption state.
#[derive(Debug, PartialEq, Eq)]
pub struct AuthorityLedger {
    next_sequence: u64,
    issued: Vec<(String, Permit)>,
    consumed: Vec<String>,
}

/// Whether `id` is among the consumed identities.
pub open spec fn consumed_contains(consumed: Seq<Seq<char>>, id: Seq<char>) -> bool {
    consumed.contains(id)
}

impl AuthorityLedger {
    /// Permits issued, filed by identity in issuance order.
    pub closed spec fn issued_table(&self) -> Seq<(String, Permit)> {
        self.issued@
    }

    /// Identities already consumed, in consumption order.
    pub closed spec fn consumed_ids(&self) -> Seq<Seq<char>> {
        self.consumed@.map_values(|id: String| id@)
    }

    /// Sequence number of the next permit.
    pub closed spec fn next_sequence_number(&self) -> u64 {
        self.next_sequence
    }

    /// An empty ledger.
    pub fn new() -> (ledger: AuthorityLedger)
        ensures
            ledger.issued_table() == Seq::<(String, Permit)>::empty(),
            ledger.consumed_ids() == Seq::<Seq<char>>::empty(),
            ledger.next_sequence_number() == 0,
    {
        AuthorityLedger { next_sequence: 0, issued: Vec::new(), consumed: Vec::new() }
    }

    /// Issues a single-use permit bound to one intact sealed proposal.
    pub fn issue(
        &mut self,
        proposal: &Proposal,
        policy: &str,
        grant_fingerprint: &str,
        issued_at: &str,
        expires_at: &str,
        decision_evidence: &str,
    ) -> (result: Result<Permit, AuthorityError>)
        ensures
            issue_outcome(
                *old(self),
                *proposal,
                policy@,
                grant_fingerprint@,
                issued_at@,
                expires_at@,
                decision_evidence@,
                result,
                *final(self),
            ),
    {
        if proposal.validate().is_err() {
            return Err(AuthorityError::ProposalMismatch);
        }
        let sequence = self.next_sequence;
        self.next_sequence = self.next_sequence.saturating_add(1);
        let mut permit = Permit {
            id: String::new(),
            sequence,
            proposal_hash: proposal.digest.clone(),
            action: proposal.action.clone(),
            grant_fingerprint: grant_fingerprint.to_owned(),
            policy: policy.to_owned(),
            issued_at: issued_at.to_owned(),
            expires_at: expires_at.to_owned(),
            decision_evidence: decision_evidence.to_owned(),
        };
        let ghost unnamed = permit;
        let id = permit.computed_id();
        permit.id = id;
        proof {
            assert(permit_material(permit) == permit_material(unnamed));
        }
        let ghost before = self.issued@;
        proof {
            lemma_position_bounds(before, permit.id@);
        }
        match find(&self.issued, permit.id.as_str()) {
            Some(i) => {
                let key = self.issued[i].0.clone();
                self.issued.set(i, (key, permit.duplicate()));
            },
            None => {
                self.issued.push((permit.id.clone(), permit.duplicate()));
            },
        }
        proof {
            let p = permit;
            assert(p.spec_id() == permit_digest(p));
            assert(self.consumed_ids() == old(self).consumed_ids());
            match position_of(before, p.spec_id()) {
                Some(i) => {
                    assert(self.issued_table()[i].0@ == before[i].0@);
                    assert(same_permit(self.issued_table()[i].1, p));
                },
                None => {
                    assert(self.issued_table().drop_last() =~= before);
                    assert(self.issued_table().last().0@ == p.spec_id());
                    assert(same_permit(self.issued_table().last().1, p));
                },
            }
        }
        Ok(permit)
    }

    /// Atomically validates and consumes a permit before a write effect.
    pub fn consume(
        &mut self,
        proposal: &Proposal,
        permit: &Permit,
        grant_fingerprint: &str,
        now: &str,
    ) -> (result: Result<(), AuthorityError>)
        ensures
            result == consume_decision(*old(self), *proposal, *permit, grant_fingerprint@, now@),
            result is Ok ==> final(self).consumed_ids() == old(self).consumed_ids().push(
                permit.spec_id(),
            ) && final(self).issued_table() == old(self).issued_table()
                && final(self).next_sequence_number() == old(self).next_sequence_number(),
            result is Err ==> *final(self) == *old(self),
    {
        if proposal.validate().is_err() {
            return Err(AuthorityError::ProposalMismatch);
        }
        let computed = permit.computed_id();
        if !str_equal(computed.as_str(), permit.id.as_str()) {
            return Err(AuthorityError::ForgedPermit);
        }
        match find(&self.issued, permit.id.as_str()) {
            Some(i) => {
                proof {
                    lemma_position_bounds(self.issued@, permit.id@);
                }
                if !self.issued[i].1.same_as(permit) {
                    return Err(AuthorityError::ForgedPermit);
                }
            },
            None => {
                return Err(AuthorityError::ForgedPermit);
            },
        }
        if !str_equal(permit.proposal_hash.as_str(), proposal.hash()) || !str_equal(
            permit.action.as_str(),
            proposal.action.as_str(),
        ) {
            return Err(AuthorityError::ProposalMismatch);
        }
        if !str_equal(permit.grant_fingerprint.as_str(), grant_fingerprint) {
            return Err(AuthorityError::GrantMismatch);
        }
        if str_less(permit.expires_at.as_str(), now) || str_less(
            proposal.intent.expires_at.as_str(),
            now,
        ) {
            return Err(AuthorityError::Expired);
        }
        proof {
            assert(consume_decision(*old(self), *proposal, *permit, grant_fingerprint@, now@) == (
            if consumed_contains(self.consumed_ids(), permit.spec_id()) {
                Err(AuthorityError::AlreadyConsumed)
            } else {
                Ok(())
            }));
        }
        let mut k: usize = 0;
        while k < self.consumed.len()
            invariant
                *self == *old(self),
                k <= self.consumed@.len(),
                forall|j: int| 0 <= j < k ==> self.consumed@[j]@ != permit.id@,
                consume_decision(*old(self), *proposal, *permit, grant_fingerprint@, now@) == (
                if consumed_contains(self.consumed_ids(), permit.spec_id()) {
                    Err(AuthorityError::AlreadyConsumed)
                } else {
                    Ok(())
                }),
            decreases self.consumed@.len() - k,
        {
            if str_equal(self.consumed[k].as_str(), permit.id.as_str()) {
                proof {
                    assert(self.consumed_ids()[k as int] == permit.id@);
                    assert(consumed_contains(self.consumed_ids(), permit.spec_id()));
                }
                return Err(AuthorityError::AlreadyConsumed);
            }
            k = k + 1;
        }
        self.consumed.push(permit.id.clone());
        Ok(())
    }

    /// Validates every permit identity and ledger relationship.
    pub fn validate(&self) -> (result: Result<(), AuthorityError>)
        ensures
            result is Ok <==> ledger_consistent(*self),
            result matches Err(e) ==> e == AuthorityError::ForgedPermit,
    {
        let mut i: usize = 0;
        while i < self.issued.len()
            invariant
                i <= self.issued@.len(),
                forall|j: int| 0 <= j < i ==> #[trigger] issued_entry_sound(self.issued@[j], self.next_sequence),
            decreases self.issued@.len() - i,
        {
            let entry = &self.issued[i];
            let computed = entry.1.computed_id();
            if !str_equal(entry.0.as_str(), entry.1.id.as_str()) || !str_equal(
                computed.as_str(),
                entry.1.id.as_str(),
            ) || entry.1.sequence >= self.next_sequence {
                proof {
                    assert(!issued_entry_sound(self.issued@[i as int], self.next_sequence));
                    assert(ledger_consistent(*self) ==> issued_entry_sound(
                        self.issued_table()[i as int],
                        self.next_sequence_number(),
                    ));
                }
                return Err(AuthorityError::ForgedPermit);
            }
            i = i + 1;
        }
        let mut k: usize = 0;
        while k < self.consumed.len()
            invariant
                k <= self.consumed@.len(),
                forall|j: int| 0 <= j < self.issued@.len() ==> #[trigger] issued_entry_sound(self.issued@[j], self.next_sequence),
                forall|j: int| 0 <= j < k ==> #[trigger] lookup(self.issued@, self.consumed@[j]@) is Some,
            decreases self.consumed@.len() - k,
        {
            match find(&self.issued, self.consumed[k].as_str()) {
                Some(_) => {},
                None => {
                    proof {
                        assert(self.consumed_ids()[k as int] == self.consumed@[k as int]@);
                        assert(lookup(self.issued_table(), self.consumed_ids()[k as int]) is None);
                        assert(ledger_consistent(*self) ==> lookup(
                            self.issued_table(),
                            self.consumed_ids()[k as int],
                        ) is Some);
                    }
                    return Err(AuthorityError::ForgedPermit);
                },
            }
            k = k + 1;
        }
        proof {
            assert forall|j: int| 0 <= j < self.consumed_ids().len() implies #[trigger] lookup(
                self.issued_table(),
                self.consumed_ids()[j],
            ) is Some by {
                assert(self.consumed_ids()[j] == self.consumed@[j]@);
            }
        }
        Ok(())
    }
}

impl Default for AuthorityLedger {
    /// An empty ledger.
    fn default() -> (ledger: AuthorityLedger)
        ensures
            ledger.issued_table() == Seq::<(String, Permit)>::empty(),
            ledger.consumed_ids() == Seq::<Seq<char>>::empty(),
            ledger.next_sequence_number() == 0,
    {
        AuthorityLedger::new()
    }
}

/// An issued entry is filed under its permit's identity, that identity is
/// the one its parts determine, and its sequence number was handed out.
pub open spec fn issued_entry_sound(entry: (String, Permit), next_sequence: u64) -> bool {
    &&& entry.0@ == entry.1.spec_id()
    &&& permit_digest(entry.1) == entry.1.spec_id()
    &&& entry.1.spec_sequence() < next_sequence
}

/// Whether a ledger's issued permits are genuine and every consumed identity
/// was issued.
pub open spec fn ledger_consistent(ledger: AuthorityLedger) -> bool {
    &&& forall|j: int|
        0 <= j < ledger.issued_table().len() ==> #[trigger] issued_entry_sound(
            ledger.issued_table()[j],
            ledger.next_sequence_number(),
        )
    &&& forall|j: int|
        0 <= j < ledger.consumed_ids().len() ==> #[trigger] lookup(
            ledger.issued_table(),
            ledger.consumed_ids()[j],
        ) is Some
}

/// What `issue` does: a proposal whose content no longer matches its
/// identity is refused with the ledger unchanged; otherwise a permit binding
/// the proposal's identity and action, the policy, grant fingerprint, instants
/// and evidence, under the next sequence number and the identity its parts
/// determine, is filed (replacing an entry of the same identity) and returned.
pub open spec fn issue_outcome(
    before: AuthorityLedger,
    proposal: Proposal,
    policy: Seq<char>,
    grant_fingerprint: Seq<char>,
    issued_at: Seq<char>,
    expires_at: Seq<char>,
    decision_evidence: Seq<char>,
    result: Result<Permit, AuthorityError>,
    after: AuthorityLedger,
) -> bool {
    if !proposal_intact(proposal) {
        &&& result == Err::<Permit, AuthorityError>(AuthorityError::ProposalMismatch)
        &&& after == before
    } else {
        &&& result matches Ok(p)
        &&& p.spec_sequence() == before.next_sequence_number()
        &&& p.spec_proposal_hash() == proposal.spec_digest()
        &&& p.spec_action() == proposal.action@
        &&& p.spec_grant_fingerprint() == grant_fingerprint
        &&& p.spec_policy() == policy
        &&& p.spec_issued_at() == issued_at
        &&& p.spec_expires_at() == expires_at
        &&& p.spec_decision_evidence() == decision_evidence
        &&& p.spec_id() == permit_digest(p)
        &&& after.next_sequence_number() == (if before.next_sequence_number() < u64::MAX {
            before.next_sequence_number() + 1
        } else {
            u64::MAX as int
        })
        &&& after.consumed_ids() == before.consumed_ids()
        &&& match position_of(before.issued_table(), p.spec_id()) {
            Some(i) => after.issued_table().len() == before.issued_table().len()
                && after.issued_table()[i].0@ == before.issued_table()[i].0@ && same_permit(
                after.issued_table()[i].1,
                p,
            ) && forall|j: int|
                0 <= j < before.issued_table().len() && j != i ==> #[trigger] after.issued_table()[j]
                    == before.issued_table()[j],
            None => after.issued_table().len() == before.issued_table().len() + 1
                && after.issued_table().drop_last() == before.issued_table()
                && after.issued_table().last().0@ == p.spec_id() && same_permit(
                after.issued_table().last().1,
                p,
            ),
        }
    }
}

/// The verdict on consuming `permit` for `proposal`, checked in order:
/// the proposal is intact; the permit's identity is the one its parts
/// determine and the ledger issued exactly this permit; it binds this
/// proposal's identity and action; the grant fingerprint is unchanged;
/// neither the permit nor the intent has expired (`now` after an expiry
/// instant, in byte order); the permit was not consumed before.
pub open spec fn consume_decision(
    ledger: AuthorityLedger,
    proposal: Proposal,
    permit: Permit,
    grant_fingerprint: Seq<char>,
    now: Seq<char>,
) -> Result<(), AuthorityError> {
    if !proposal_intact(proposal) {
        Err(AuthorityError::ProposalMismatch)
    } else if permit_digest(permit) != permit.spec_id() || !(lookup(
        ledger.issued_table(),
        permit.spec_id(),
    ) matches Some(q) && same_permit(q, permit)) {
        Err(AuthorityError::ForgedPermit)
    } else if permit.spec_proposal_hash() != proposal.spec_digest() || permit.spec_action()
        != proposal.action@ {
        Err(AuthorityError::ProposalMismatch)
    } else if permit.spec_grant_fingerprint() != grant_fingerprint {
        Err(AuthorityError::GrantMismatch)
    } else if bytes_less(utf8_of(permit.spec_expires_at()), utf8_of(now)) || bytes_less(
        utf8_of(proposal.intent.expires_at@),
        utf8_of(now),
    ) {
        Err(AuthorityError::Expired)
    } else if consumed_contains(ledger.consumed_ids(), permit.spec_id()) {
        Err(AuthorityError::AlreadyConsumed)
    } else {
        Ok(())
    }
}


/// A permit that a ledger accepts is genuine, issued by that ledger, bound
/// to the intact proposal's identity and action and to the current grant
/// fingerprint, and neither it nor the proposal's intent has expired.
pub proof fn lemma_accepted_permit_is_bound(
    ledger: AuthorityLedger,
    proposal: Proposal,
    permit: Permit,
    grant_fingerprint: Seq<char>,
    now: Seq<char>,
)
    requires
        consume_decision(ledger, proposal, permit, grant_fingerprint, now) is Ok,
    ensures
        proposal_intact(proposal),
        permit_digest(permit) == permit.spec_id(),
        lookup(ledger.issued_table(), permit.spec_id()) matches Some(q) && same_permit(q, permit),
        permit.spec_proposal_hash() == proposal.spec_digest(),
        permit.spec_action() == proposal.action@,
        permit.spec_grant_fingerprint() == grant_fingerprint,
        !bytes_less(utf8_of(permit.spec_expires_at()), utf8_of(now)),
        !bytes_less(utf8_of(proposal.intent.expires_at@), utf8_of(now)),
        !consumed_contains(ledger.consumed_ids(), permit.spec_id()),
{
}

/// A consumed permit is single-use: once a ledger has consumed it, no later
/// consumption of it succeeds, whatever proposal, grant or instant is given.
pub proof fn lemma_consumed_permit_is_single_use(
    before: AuthorityLedger,
    proposal: Proposal,
    permit: Permit,
    grant_fingerprint: Seq<char>,
    now: Seq<char>,
    after: AuthorityLedger,
    later_proposal: Proposal,
    later_grant_fingerprint: Seq<char>,
    later_now: Seq<char>,
)
    requires
        consume_decision(before, proposal, permit, grant_fingerprint, now) is Ok,
        after.consumed_ids() == before.consumed_ids().push(permit.spec_id()),
        after.issued_table() == before.issued_table(),
    ensures
        consume_decision(after, later_proposal, permit, later_grant_fingerprint, later_now) is Err,
{
    assert(after.consumed_ids()[after.consumed_ids().len() - 1] == permit.spec_id());
    assert(consumed_contains(after.consumed_ids(), permit.spec_id()));
}

/// A freshly issued permit authorizes its own proposal: consuming it with
/// the same grant fingerprint before either expiry succeeds, unless its
/// identity had already been consumed.
pub proof fn lemma_issued_permit_authorizes_its_proposal(
    before: AuthorityLedger,
    proposal: Proposal,
    policy: Seq<char>,
    grant_fingerprint: Seq<char>,
    issued_at: Seq<char>,
    expires_at: Seq<char>,
    decision_evidence: Seq<char>,
    permit: Permit,
    after: AuthorityLedger,
    now: Seq<char>,
)
    requires
        issue_outcome(
            before,
            proposal,
            policy,
            grant_fingerprint,
            issued_at,
            expires_at,
            decision_evidence,
            Ok(permit),
            after,
        ),
        !consumed_contains(before.consumed_ids(), permit.spec_id()),
        !bytes_less(utf8_of(expires_at), utf8_of(now)),
        !bytes_less(utf8_of(proposal.intent.expires_at@), utf8_of(now)),
    ensures
        consume_decision(after, proposal, permit, grant_fingerprint, now) == Ok::<(), AuthorityError>(
            (),
        ),
{
    let id = permit.spec_id();
    let old_table = before.issued_table();
    let new_table = after.issued_table();
    lemma_position_bounds(old_table, id);
    match position_of(old_table, id) {
        Some(i) => {
            assert(new_table =~= old_table.update(i, new_table[i]));
            lemma_position_update(old_table, i, new_table[i], id);
        },
        None => {
            assert(new_table =~= old_table.push(new_table.last()));
            lemma_position_push(old_table, new_table.last(), id);
        },
    }
}

} // verus!
