use vstd::prelude::*;

use crate::authority::{Intent, Permit, Proposal};
use crate::canonical::JsonObject;
use crate::json_value::{JsonModel, JsonValue, json_equal, members_equal};
use crate::text::str_equal;

verus! {

/// Copy of an intent's content.
pub struct IntentModel {
    pub purpose: Seq<char>,
    pub fields: Seq<(Seq<char>, JsonModel)>,
    pub expires_at: Seq<char>,
}

/// Copy of a proposal's content.
pub struct ProposalModel {
    pub schema_version: u32,
    pub action: Seq<char>,
    pub arguments: Seq<(Seq<char>, JsonModel)>,
    pub intent: IntentModel,
    pub risk: Seq<char>,
    pub sensitivity: Seq<char>,
    pub capability_request: JsonModel,
    pub idempotency_key: Seq<char>,
    pub program_hash: Seq<char>,
    pub digest: Seq<char>,
}

/// Copy of a permit's content.
pub struct PermitModel {
    pub id: Seq<char>,
    pub sequence: u64,
    pub proposal_hash: Seq<char>,
    pub action: Seq<char>,
    pub grant_fingerprint: Seq<char>,
    pub policy: Seq<char>,
    pub issued_at: Seq<char>,
    pub expires_at: Seq<char>,
    pub decision_evidence: Seq<char>,
}

/// The content of an intent.
pub open spec fn intent_model(intent: Intent) -> IntentModel {
    IntentModel {
        purpose: intent.purpose@,
        fields: intent.fields.values(),
        expires_at: intent.expires_at@,
    }
}

/// The content of a proposal.
pub open spec fn proposal_model(p: Proposal) -> ProposalModel {
    ProposalModel {
        schema_version: p.schema_version,
        action: p.action@,
        arguments: p.arguments.values(),
        intent: intent_model(p.intent),
        risk: p.risk@,
        sensitivity: p.sensitivity@,
        capability_request: p.capability_request@,
        idempotency_key: p.idempotency_key@,
        program_hash: p.program_hash@,
        digest: p.digest@,
    }
}

/// The content of a permit.
pub open spec fn permit_model(p: Permit) -> PermitModel {
    PermitModel {
        id: p.spec_id(),
        sequence: p.spec_sequence(),
        proposal_hash: p.spec_proposal_hash(),
        action: p.spec_action(),
        grant_fingerprint: p.spec_grant_fingerprint(),
        policy: p.spec_policy(),
        issued_at: p.spec_issued_at(),
        expires_at: p.spec_expires_at(),
        decision_evidence: p.spec_decision_evidence(),
    }
}

/// A copy of an intent with the same content.
pub fn duplicate_intent(intent: &Intent) -> (copy: Intent)
    ensures
        intent_model(copy) == intent_model(*intent),
{
    Intent {
        purpose: intent.purpose.clone(),
        fields: intent.fields.duplicate(),
        expires_at: intent.expires_at.clone(),
    }
}

/// A copy of a proposal with the same content.
pub fn duplicate_proposal(p: &Proposal) -> (copy: Proposal)
    ensures
        proposal_model(copy) == proposal_model(*p),
{
    Proposal {
        schema_version: p.schema_version,
        action: p.action.clone(),
        arguments: p.arguments.duplicate(),
        intent: duplicate_intent(&p.intent),
        risk: p.risk.clone(),
        sensitivity: p.sensitivity.clone(),
        capability_request: p.capability_request.duplicate(),
        idempotency_key: p.idempotency_key.clone(),
        program_hash: p.program_hash.clone(),
        digest: p.digest.clone(),
    }
}

/// Opaque secret identity; its material never leaves the runtime.
#[derive(Debug, PartialEq, Eq)]
pub struct SecretHandle(String);

impl SecretHandle {
    /// The secret material.
    pub closed spec fn material(&self) -> Seq<char> {
        self.0@
    }

    /// A handle holding `material`.
    pub fn new(material: String) -> (handle: SecretHandle)
        ensures
            handle.material() == material@,
    {
        SecretHandle(material)
    }

    /// A copy of this handle.
    pub fn duplicate(&self) -> (copy: SecretHandle)
        ensures
            copy.material() == self.material(),
    {
        SecretHandle(self.0.clone())
    }

    /// Whether two handles hold the same material.
    pub fn same_as(&self, other: &SecretHandle) -> (same: bool)
        ensures
            same == (self.material() == other.material()),
    {
        str_equal(self.0.as_str(), other.0.as_str())
    }
}

/// Typed successful write response retained for reconciliation.
#[derive(Debug, PartialEq, Eq)]
pub struct ReceiptValue {
    /// Committed action identity.
    pub action: String,
    /// Bound proposal hash.
    pub proposal_hash: String,
    /// Decoded write result.
    pub value: Box<RuntimeValue>,
}

/// Runtime values, the typed wrappers of the trust boundary, the authority
/// values, and an opaque secret handle.
#[derive(Debug, PartialEq, Eq)]
pub enum RuntimeValue {
    Unit,
    Bool(bool),
    Int(i64),
    Text(String),
    List(Vec<RuntimeValue>),
    /// Members in byte order of their unique keys.
    Record(Vec<(String, RuntimeValue)>),
    Option(Option<Box<RuntimeValue>>),
    Result(Result<Box<RuntimeValue>, String>),
    Incoming(Box<RuntimeValue>),
    Untrusted(Box<RuntimeValue>),
    Candidate(Box<RuntimeValue>),
    Checked(Box<RuntimeValue>),
    Observation(Box<RuntimeValue>),
    Intent(Intent),
    Proposal(Proposal),
    Permit(Permit),
    Receipt(ReceiptValue),
    Reconciled(ReceiptValue),
    Secret(SecretHandle),
}

/// The content of a runtime value.
pub enum ValueModel {
    Unit,
    Bool(bool),
    Int(i64),
    Text(Seq<char>),
    List(Seq<ValueModel>),
    Record(Seq<(Seq<char>, ValueModel)>),
    Optional(Option<Box<ValueModel>>),
    Outcome(Result<Box<ValueModel>, Seq<char>>),
    Incoming(Box<ValueModel>),
    Untrusted(Box<ValueModel>),
    Candidate(Box<ValueModel>),
    Checked(Box<ValueModel>),
    Observation(Box<ValueModel>),
    Intent(IntentModel),
    Proposal(ProposalModel),
    Permit(PermitModel),
    Receipt(Seq<char>, Seq<char>, Box<ValueModel>),
    Reconciled(Seq<char>, Seq<char>, Box<ValueModel>),
    Secret(Seq<char>),
}

/// The content of a runtime value.
pub open spec fn value_view(value: RuntimeValue) -> ValueModel
    decreases value, 1nat,
{
    match value {
        RuntimeValue::Unit => ValueModel::Unit,
        RuntimeValue::Bool(b) => ValueModel::Bool(b),
        RuntimeValue::Int(n) => ValueModel::Int(n),
        RuntimeValue::Text(t) => ValueModel::Text(t@),
        RuntimeValue::List(items) => ValueModel::List(list_view(items@)),
        RuntimeValue::Record(members) => ValueModel::Record(record_view(members@)),
        RuntimeValue::Option(inner) => ValueModel::Optional(
            match inner {
                Some(p) => Some(Box::new(value_view(*p))),
                None => None,
            },
        ),
        RuntimeValue::Result(outcome) => ValueModel::Outcome(
            match outcome {
                Ok(p) => Ok(Box::new(value_view(*p))),
                Err(message) => Err(message@),
            },
        ),
        RuntimeValue::Incoming(p) => ValueModel::Incoming(Box::new(value_view(*p))),
        RuntimeValue::Untrusted(p) => ValueModel::Untrusted(Box::new(value_view(*p))),
        RuntimeValue::Candidate(p) => ValueModel::Candidate(Box::new(value_view(*p))),
        RuntimeValue::Checked(p) => ValueModel::Checked(Box::new(value_view(*p))),
        RuntimeValue::Observation(p) => ValueModel::Observation(Box::new(value_view(*p))),
        RuntimeValue::Intent(i) => ValueModel::Intent(intent_model(i)),
        RuntimeValue::Proposal(p) => ValueModel::Proposal(proposal_model(p)),
        RuntimeValue::Permit(p) => ValueModel::Permit(permit_model(p)),
        RuntimeValue::Receipt(r) => ValueModel::Receipt(
            r.action@,
            r.proposal_hash@,
            Box::new(value_view(*r.value)),
        ),
        RuntimeValue::Reconciled(r) => ValueModel::Reconciled(
            r.action@,
            r.proposal_hash@,
            Box::new(value_view(*r.value)),
        ),
        RuntimeValue::Secret(h) => ValueModel::Secret(h.material()),
    }
}

/// The contents of a list of runtime values.
pub open spec fn list_view(items: Seq<RuntimeValue>) -> Seq<ValueModel>
    decreases items, 0nat,
{
    if items.len() == 0 {
        Seq::empty()
    } else {
        list_view(items.drop_last()).push(value_view(items.last()))
    }
}

/// The contents of record members.
pub open spec fn record_view(members: Seq<(String, RuntimeValue)>) -> Seq<(Seq<char>, ValueModel)>
    decreases members, 0nat,
{
    if members.len() == 0 {
        Seq::empty()
    } else {
        record_view(members.drop_last()).push((members.last().0@, value_view(members.last().1)))
    }
}

impl View for RuntimeValue {
    type V = ValueModel;

    open spec fn view(&self) -> ValueModel {
        value_view(*self)
    }
}

/// Each element of a viewed list is the view of the element.
pub proof fn lemma_list_view(items: Seq<RuntimeValue>)
    ensures
        list_view(items).len() == items.len(),
        forall|i: int| 0 <= i < items.len() ==> #[trigger] list_view(items)[i] == value_view(items[i]),
    decreases items.len(),
{
    if items.len() > 0 {
        lemma_list_view(items.drop_last());
    }
}

/// Each viewed member is the key's text and the value's view.
pub proof fn lemma_record_view(members: Seq<(String, RuntimeValue)>)
    ensures
        record_view(members).len() == members.len(),
        forall|i: int|
            0 <= i < members.len() ==> #[trigger] record_view(members)[i] == (
                members[i].0@,
                value_view(members[i].1),
            ),
    decreases members.len(),
{
    if members.len() > 0 {
        lemma_record_view(members.drop_last());
    }
}

/// Whether two intents have the same content.
pub fn intent_equal(a: &Intent, b: &Intent) -> (equal: bool)
    ensures
        equal == (intent_model(*a) == intent_model(*b)),
{
    str_equal(a.purpose.as_str(), b.purpose.as_str()) && members_equal(
        a.fields.members(),
        b.fields.members(),
    ) && str_equal(a.expires_at.as_str(), b.expires_at.as_str())
}

/// Whether two proposals have the same content.
pub fn proposal_equal(a: &Proposal, b: &Proposal) -> (equal: bool)
    ensures
        equal == (proposal_model(*a) == proposal_model(*b)),
{
    a.schema_version == b.schema_version && str_equal(a.action.as_str(), b.action.as_str())
        && members_equal(a.arguments.members(), b.arguments.members()) && intent_equal(
        &a.intent,
        &b.intent,
    ) && str_equal(a.risk.as_str(), b.risk.as_str()) && str_equal(
        a.sensitivity.as_str(),
        b.sensitivity.as_str(),
    ) && json_equal(&a.capability_request, &b.capability_request) && str_equal(
        a.idempotency_key.as_str(),
        b.idempotency_key.as_str(),
    ) && str_equal(a.program_hash.as_str(), b.program_hash.as_str()) && str_equal(
        a.digest.as_str(),
        b.digest.as_str(),
    )
}

impl RuntimeValue {
    /// A copy with the same content.
    pub fn duplicate(&self) -> (copy: RuntimeValue)
        ensures
            copy@ == self@,
        decreases self, 1nat,
    {
        match self {
            RuntimeValue::Unit => RuntimeValue::Unit,
            RuntimeValue::Bool(b) => RuntimeValue::Bool(*b),
            RuntimeValue::Int(n) => RuntimeValue::Int(*n),
            RuntimeValue::Text(t) => RuntimeValue::Text(t.clone()),
            RuntimeValue::List(items) => RuntimeValue::List(duplicate_list(items)),
            RuntimeValue::Record(members) => RuntimeValue::Record(duplicate_record(members)),
            RuntimeValue::Option(inner) => RuntimeValue::Option(
                match inner {
                    Some(p) => Some(Box::new((**p).duplicate())),
                    None => None,
                },
            ),
            RuntimeValue::Result(outcome) => RuntimeValue::Result(
                match outcome {
                    Ok(p) => Ok(Box::new((**p).duplicate())),
                    Err(message) => Err(message.clone()),
                },
            ),
            RuntimeValue::Incoming(p) => RuntimeValue::Incoming(Box::new((**p).duplicate())),
            RuntimeValue::Untrusted(p) => RuntimeValue::Untrusted(Box::new((**p).duplicate())),
            RuntimeValue::Candidate(p) => RuntimeValue::Candidate(Box::new((**p).duplicate())),
            RuntimeValue::Checked(p) => RuntimeValue::Checked(Box::new((**p).duplicate())),
            RuntimeValue::Observation(p) => RuntimeValue::Observation(Box::new((**p).duplicate())),
            RuntimeValue::Intent(i) => RuntimeValue::Intent(duplicate_intent(i)),
            RuntimeValue::Proposal(p) => RuntimeValue::Proposal(duplicate_proposal(p)),
            RuntimeValue::Permit(p) => {
                let copy = p.duplicate();
                RuntimeValue::Permit(copy)
            },
            RuntimeValue::Receipt(r) => RuntimeValue::Receipt(
                ReceiptValue {
                    action: r.action.clone(),
                    proposal_hash: r.proposal_hash.clone(),
                    value: Box::new((*r.value).duplicate()),
                },
            ),
            RuntimeValue::Reconciled(r) => RuntimeValue::Reconciled(
                ReceiptValue {
                    action: r.action.clone(),
                    proposal_hash: r.proposal_hash.clone(),
                    value: Box::new((*r.value).duplicate()),
                },
            ),
            RuntimeValue::Secret(h) => RuntimeValue::Secret(h.duplicate()),
        }
    }

    /// A value holding a secret handle, for tests of what must never leak.
    pub fn secret_for_test(sentinel: String) -> (value: RuntimeValue)
        ensures
            value@ == ValueModel::Secret(sentinel@),
    {
        RuntimeValue::Secret(SecretHandle::new(sentinel))
    }
}

/// Copies of runtime values with the same contents.
pub fn duplicate_list(items: &Vec<RuntimeValue>) -> (copy: Vec<RuntimeValue>)
    ensures
        list_view(copy@) == list_view(items@),
    decreases items@, 0nat,
{
    let mut copy: Vec<RuntimeValue> = Vec::new();
    let mut i: usize = 0;
    while i < items.len()
        invariant
            i <= items@.len(),
            copy@.len() == i,
            forall|k: int| 0 <= k < i ==> value_view(#[trigger] copy@[k]) == value_view(items@[k]),
        decreases items@.len() - i,
    {
        let element = items[i].duplicate();
        copy.push(element);
        i = i + 1;
    }
    proof {
        lemma_list_view(copy@);
        lemma_list_view(items@);
        assert(list_view(copy@) =~= list_view(items@));
    }
    copy
}

/// Copies of record members with the same keys and contents.
pub fn duplicate_record(members: &Vec<(String, RuntimeValue)>) -> (copy: Vec<(String, RuntimeValue)>)
    ensures
        record_view(copy@) == record_view(members@),
    decreases members@, 0nat,
{
    let mut copy: Vec<(String, RuntimeValue)> = Vec::new();
    let mut i: usize = 0;
    while i < members.len()
        invariant
            i <= members@.len(),
            copy@.len() == i,
            forall|k: int|
                0 <= k < i ==> (#[trigger] copy@[k]).0@ == members@[k].0@ && value_view(copy@[k].1)
                    == value_view(members@[k].1),
        decreases members@.len() - i,
    {
        let key = members[i].0.clone();
        let value = members[i].1.duplicate();
        copy.push((key, value));
        i = i + 1;
    }
    proof {
        lemma_record_view(copy@);
        lemma_record_view(members@);
        assert(record_view(copy@) =~= record_view(members@));
    }
    copy
}

/// Whether two optional payloads have the same content.
fn payload_equal(a: &Option<Box<RuntimeValue>>, b: &Option<Box<RuntimeValue>>) -> (equal: bool)
    ensures
        equal == (match a {
            Some(p) => Some(Box::new(value_view(**p))),
            None => None::<Box<ValueModel>>,
        } == match b {
            Some(p) => Some(Box::new(value_view(**p))),
            None => None::<Box<ValueModel>>,
        }),
    decreases a, 2nat,
{
    match (a, b) {
        (Some(x), Some(y)) => values_equal(&**x, &**y),
        (None, None) => true,
        _ => false,
    }
}

/// Whether two runtime values have the same content: the `==` of values.
pub fn values_equal(a: &RuntimeValue, b: &RuntimeValue) -> (equal: bool)
    ensures
        equal == (a@ == b@),
    decreases a, 1nat,
{
    match (a, b) {
        (RuntimeValue::Unit, RuntimeValue::Unit) => true,
        (RuntimeValue::Bool(x), RuntimeValue::Bool(y)) => *x == *y,
        (RuntimeValue::Int(x), RuntimeValue::Int(y)) => *x == *y,
        (RuntimeValue::Text(x), RuntimeValue::Text(y)) => str_equal(x.as_str(), y.as_str()),
        (RuntimeValue::List(x), RuntimeValue::List(y)) => lists_equal(x, y),
        (RuntimeValue::Record(x), RuntimeValue::Record(y)) => records_equal(x, y),
        (RuntimeValue::Option(p), RuntimeValue::Option(q)) => payload_equal(p, q),
        (RuntimeValue::Result(p), RuntimeValue::Result(q)) => match (p, q) {
            (Ok(x), Ok(y)) => values_equal(&**x, &**y),
            (Err(x), Err(y)) => str_equal(x.as_str(), y.as_str()),
            _ => false,
        },
        (RuntimeValue::Incoming(x), RuntimeValue::Incoming(y)) => values_equal(&**x, &**y),
        (RuntimeValue::Untrusted(x), RuntimeValue::Untrusted(y)) => values_equal(&**x, &**y),
        (RuntimeValue::Candidate(x), RuntimeValue::Candidate(y)) => values_equal(&**x, &**y),
        (RuntimeValue::Checked(x), RuntimeValue::Checked(y)) => values_equal(&**x, &**y),
        (RuntimeValue::Observation(x), RuntimeValue::Observation(y)) => values_equal(&**x, &**y),
        (RuntimeValue::Intent(x), RuntimeValue::Intent(y)) => intent_equal(x, y),
        (RuntimeValue::Proposal(x), RuntimeValue::Proposal(y)) => proposal_equal(x, y),
        (RuntimeValue::Permit(x), RuntimeValue::Permit(y)) => x.same_as(y),
        (RuntimeValue::Receipt(x), RuntimeValue::Receipt(y)) => str_equal(
            x.action.as_str(),
            y.action.as_str(),
        ) && str_equal(x.proposal_hash.as_str(), y.proposal_hash.as_str()) && values_equal(
            &*x.value,
            &*y.value,
        ),
        (RuntimeValue::Reconciled(x), RuntimeValue::Reconciled(y)) => str_equal(
            x.action.as_str(),
            y.action.as_str(),
        ) && str_equal(x.proposal_hash.as_str(), y.proposal_hash.as_str()) && values_equal(
            &*x.value,
            &*y.value,
        ),
        (RuntimeValue::Secret(x), RuntimeValue::Secret(y)) => x.same_as(y),
        _ => false,
    }
}

/// Whether two lists have the same contents.
pub fn lists_equal(a: &Vec<RuntimeValue>, b: &Vec<RuntimeValue>) -> (equal: bool)
    ensures
        equal == (list_view(a@) == list_view(b@)),
    decreases a@, 0nat,
{
    proof {
        lemma_list_view(a@);
        lemma_list_view(b@);
    }
    if a.len() != b.len() {
        return false;
    }
    let mut i: usize = 0;
    while i < a.len()
        invariant
            i <= a@.len(),
            a@.len() == b@.len(),
            list_view(a@).len() == a@.len(),
            list_view(b@).len() == b@.len(),
            forall|k: int| 0 <= k < a@.len() ==> #[trigger] list_view(a@)[k] == value_view(a@[k]),
            forall|k: int| 0 <= k < b@.len() ==> #[trigger] list_view(b@)[k] == value_view(b@[k]),
            forall|k: int| 0 <= k < i ==> value_view(#[trigger] a@[k]) == value_view(b@[k]),
        decreases a@.len() - i,
    {
        if !values_equal(&a[i], &b[i]) {
            proof {
                assert(list_view(a@)[i as int] != list_view(b@)[i as int]);
            }
            return false;
        }
        i = i + 1;
    }
    proof {
        assert(list_view(a@) =~= list_view(b@));
    }
    true
}

/// Whether two records have the same keys and contents.
pub fn records_equal(a: &Vec<(String, RuntimeValue)>, b: &Vec<(String, RuntimeValue)>) -> (equal:
    bool)
    ensures
        equal == (record_view(a@) == record_view(b@)),
    decreases a@, 0nat,
{
    proof {
        lemma_record_view(a@);
        lemma_record_view(b@);
    }
    if a.len() != b.len() {
        return false;
    }
    let mut i: usize = 0;
    while i < a.len()
        invariant
            i <= a@.len(),
            a@.len() == b@.len(),
            record_view(a@).len() == a@.len(),
            record_view(b@).len() == b@.len(),
            forall|k: int|
                0 <= k < a@.len() ==> #[trigger] record_view(a@)[k] == (a@[k].0@, value_view(a@[k].1)),
            forall|k: int|
                0 <= k < b@.len() ==> #[trigger] record_view(b@)[k] == (b@[k].0@, value_view(b@[k].1)),
            forall|k: int| 0 <= k < i ==> #[trigger] record_view(a@)[k] == record_view(b@)[k],
        decreases a@.len() - i,
    {
        if !str_equal(a[i].0.as_str(), b[i].0.as_str()) || !values_equal(&a[i].1, &b[i].1) {
            proof {
                assert(record_view(a@)[i as int] != record_view(b@)[i as int]);
            }
            return false;
        }
        i = i + 1;
    }
    proof {
        assert(record_view(a@) =~= record_view(b@));
    }
    true
}

} // verus!
