use vstd::prelude::*;

use crate::boundary::{EffectRequest, EffectResolution};
use crate::fixture::{clone_usage, usage_view};
use crate::json_value::{
    JsonModel, JsonValue, canonical_digest, canonical_sha256, json_equal, lemma_members_view,
    members_view,
};
use crate::machine::MachineSnapshot;
use crate::table::{find, lemma_position_bounds, lookup};
use crate::text::{decimal, push_decimal, str_equal};

verus! {

/// Stable protocol name.
pub const HOST_PROTOCOL_NAME: &'static str = "aster-host";

/// Supported protocol version.
pub const HOST_PROTOCOL_VERSION: u32 = 1;

/// Maximum bytes of one protocol line.
pub const HOST_PROTOCOL_MAX_LINE_BYTES: usize = 1048576;

/// Initial protocol and run identity announcement.
#[derive(Clone, Debug, PartialEq, Eq)]
pub struct Hello {
    /// Stable protocol name.
    pub protocol: String,
    /// Supported protocol version.
    pub protocol_version: u32,
    /// ASTER runtime package version.
    pub runtime_version: String,
    /// Exact compiled program fingerprint.
    pub program_hash: String,
    /// Deterministic run identity, equal to the envelope session ID.
    pub run_id: String,
}

impl Hello {
    /// Builds an announcement for the current host protocol.
    pub fn new(runtime_version: String, program_hash: String, run_id: String) -> (hello: Hello)
        ensures
            hello.protocol@ == "aster-host"@,
            hello.protocol_version == HOST_PROTOCOL_VERSION,
            hello.runtime_version == runtime_version,
            hello.program_hash == program_hash,
            hello.run_id == run_id,
    {
        Hello {
            protocol: String::from_str("aster-host"),
            protocol_version: HOST_PROTOCOL_VERSION,
            runtime_version,
            program_hash,
            run_id,
        }
    }
}

/// Exact protocol acknowledgement required before any effect preview.
#[derive(Clone, Debug, PartialEq, Eq)]
pub struct HelloAck {
    /// Stable protocol name.
    pub protocol: String,
    /// Supported protocol version.
    pub protocol_version: u32,
}

impl HelloAck {
    /// Builds an acknowledgement for the current host protocol.
    pub fn current() -> (ack: HelloAck)
        ensures
            ack.protocol@ == "aster-host"@,
            ack.protocol_version == HOST_PROTOCOL_VERSION,
    {
        HelloAck { protocol: String::from_str("aster-host"), protocol_version: HOST_PROTOCOL_VERSION }
    }

    /// Whether this acknowledgement names the current protocol and version.
    pub fn is_current(&self) -> (current: bool)
        ensures
            current == (self.protocol@ == "aster-host"@ && self.protocol_version
                == HOST_PROTOCOL_VERSION),
    {
        str_equal(self.protocol.as_str(), "aster-host") && self.protocol_version
            == HOST_PROTOCOL_VERSION
    }
}

/// Host-declared variable maximums for one previewed request.
#[derive(Clone, Debug, PartialEq, Eq)]
pub struct EffectAdmission {
    /// Exact hash of the previewed request.
    pub request_hash: String,
    /// Variable usage to reserve before granting execution, by dimension name.
    pub max_usage: Vec<(String, u64)>,
}

/// Usage dimensions a host may declare: `model_tokens` and `money_microunits`.
pub open spec fn host_usage_dimension(name: Seq<char>) -> bool {
    name == "model_tokens"@ || name == "money_microunits"@
}

/// Rejects any declared dimension other than the variable ones.
pub fn validate_usage_dimensions(usage: &Vec<(String, u64)>) -> (result: Result<
    (),
    HostProtocolError,
>)
    ensures
        result is Ok <==> forall|i: int|
            0 <= i < usage@.len() ==> host_usage_dimension(#[trigger] usage@[i].0@),
        result matches Err(e) ==> e == HostProtocolError::InvalidUsage,
{
    let mut i: usize = 0;
    while i < usage.len()
        invariant
            i <= usage@.len(),
            forall|j: int| 0 <= j < i ==> host_usage_dimension(#[trigger] usage@[j].0@),
        decreases usage@.len() - i,
    {
        let name = usage[i].0.as_str();
        if !str_equal(name, "model_tokens") && !str_equal(name, "money_microunits") {
            return Err(HostProtocolError::InvalidUsage);
        }
        i = i + 1;
    }
    Ok(())
}

impl EffectAdmission {
    /// Validates that only host-declared variable dimensions are present.
    pub fn validate(&self) -> (result: Result<(), HostProtocolError>)
        ensures
            result is Ok <==> forall|i: int|
                0 <= i < self.max_usage@.len() ==> host_usage_dimension(
                    #[trigger] self.max_usage@[i].0@,
                ),
            result matches Err(e) ==> e == HostProtocolError::InvalidUsage,
    {
        validate_usage_dimensions(&self.max_usage)
    }
}

/// Successful terminal state and trace fingerprints.
#[derive(Clone, Debug, PartialEq, Eq)]
pub struct HostCompleted {
    /// Canonical hash of the committed final state artifact.
    pub final_state_hash: String,
    /// Current trace chain head.
    pub trace_hash: String,
}

/// Stable payload-free controlled failure summary.
#[derive(Clone, Debug, PartialEq, Eq)]
pub struct HostFailed {
    /// Stable public diagnostic code.
    pub code: String,
    /// Redacted non-payload summary.
    pub summary: String,
}

/// Safe host protocol failure classes.
#[derive(Clone, Copy, Debug, PartialEq, Eq, Structural)]
pub enum HostProtocolError {
    /// Malformed or unsupported frame.
    MalformedFrame,
    /// Reply out of sequence.
    OutOfSequence,
    /// Binding mismatch.
    BindingMismatch,
    /// Invalid usage declaration.
    InvalidUsage,
    /// Protocol ended before a required reply.
    UnexpectedEof,
    /// Frame could not be written.
    WriteFailure,
}

/// Stable public diagnostic code of each failure class.
pub open spec fn host_error_code(error: HostProtocolError) -> Seq<char> {
    match error {
        HostProtocolError::MalformedFrame => "ASTER-HOST-11001"@,
        HostProtocolError::OutOfSequence => "ASTER-HOST-11002"@,
        HostProtocolError::BindingMismatch => "ASTER-HOST-11003"@,
        HostProtocolError::InvalidUsage => "ASTER-HOST-11004"@,
        HostProtocolError::UnexpectedEof => "ASTER-HOST-11005"@,
        HostProtocolError::WriteFailure => "ASTER-HOST-11006"@,
    }
}

/// Human-readable description of each failure class.
pub open spec fn host_error_message(error: HostProtocolError) -> Seq<char> {
    match error {
        HostProtocolError::MalformedFrame => "malformed or unsupported host protocol frame"@,
        HostProtocolError::OutOfSequence => "host protocol reply is out of sequence"@,
        HostProtocolError::BindingMismatch => "host protocol binding mismatch"@,
        HostProtocolError::InvalidUsage => "invalid host usage declaration"@,
        HostProtocolError::UnexpectedEof => "host protocol ended before a required reply"@,
        HostProtocolError::WriteFailure => "host protocol frame could not be written"@,
    }
}

impl HostProtocolError {
    /// Returns the stable public diagnostic code for this failure class.
    pub fn diagnostic_code(&self) -> (code: &'static str)
        ensures
            code@ == host_error_code(*self),
    {
        match self {
            HostProtocolError::MalformedFrame => "ASTER-HOST-11001",
            HostProtocolError::OutOfSequence => "ASTER-HOST-11002",
            HostProtocolError::BindingMismatch => "ASTER-HOST-11003",
            HostProtocolError::InvalidUsage => "ASTER-HOST-11004",
            HostProtocolError::UnexpectedEof => "ASTER-HOST-11005",
            HostProtocolError::WriteFailure => "ASTER-HOST-11006",
        }
    }

    /// Returns the human-readable description of this failure class.
    pub fn message(&self) -> (text: &'static str)
        ensures
            text@ == host_error_message(*self),
    {
        match self {
            HostProtocolError::MalformedFrame => "malformed or unsupported host protocol frame",
            HostProtocolError::OutOfSequence => "host protocol reply is out of sequence",
            HostProtocolError::BindingMismatch => "host protocol binding mismatch",
            HostProtocolError::InvalidUsage => "invalid host usage declaration",
            HostProtocolError::UnexpectedEof => "host protocol ended before a required reply",
            HostProtocolError::WriteFailure => "host protocol frame could not be written",
        }
    }
}

/// One effect admitted after its variable usage has been reserved.
pub struct AdmittedEffect {
    /// Exact request produced by the machine.
    pub request: EffectRequest,
    /// Variable usage maximums reserved before execution, by dimension name
    /// in key order.
    pub maximums: Vec<(String, u64)>,
    /// Sealed continuation captured before execution.
    pub snapshot: MachineSnapshot,
    /// Canonical hash of the sealed continuation.
    pub snapshot_hash: String,
    /// Next trace position bound into the continuation.
    pub trace_position: u64,
    /// Trace chain head bound into the continuation.
    pub trace_hash: String,
}

/// Durable sequencing grant for one admitted effect.
pub struct ExecutionGrant {
    /// Complete immutable effect request.
    pub request: EffectRequest,
    /// Exact reserved variable maximums.
    pub max_usage: Vec<(String, u64)>,
    /// Canonical hash of the sealed pending continuation.
    pub snapshot_hash: String,
    /// Canonical binding of run, request, checkpoint, continuation and usage.
    pub execution_grant_hash: String,
}

/// Host result bound to one exact execution grant.
pub struct HostEffectResolution {
    /// Exact admitted request hash.
    pub request_hash: String,
    /// Exact execution grant hash.
    pub execution_grant_hash: String,
    /// Typed result payload, decoded later by the machine boundary.
    pub payload: JsonValue,
    /// Actual usage for every declared maximum dimension, in key order.
    pub actual_usage: Vec<(String, u64)>,
}

/// Two requests agree in kind, identity, payload and hash.
pub open spec fn same_request(a: EffectRequest, b: EffectRequest) -> bool {
    &&& a.kind == b.kind
    &&& a.identity@ == b.identity@
    &&& a.payload@ == b.payload@
    &&& a.request_hash@ == b.request_hash@
}

/// Whether two requests agree in every field.
pub fn requests_equal(a: &EffectRequest, b: &EffectRequest) -> (equal: bool)
    ensures
        equal == same_request(*a, *b),
{
    a.kind == b.kind && str_equal(a.identity.as_str(), b.identity.as_str()) && json_equal(
        &a.payload,
        &b.payload,
    ) && str_equal(a.request_hash.as_str(), b.request_hash.as_str())
}

/// A copy of a request.
pub fn duplicate_request(request: &EffectRequest) -> (copy: EffectRequest)
    ensures
        same_request(copy, *request),
{
    EffectRequest {
        kind: request.kind,
        identity: request.identity.clone(),
        payload: request.payload.duplicate(),
        request_hash: request.request_hash.clone(),
    }
}

/// Whether two usage tables hold the same entries in the same order.
pub fn usage_equal(a: &Vec<(String, u64)>, b: &Vec<(String, u64)>) -> (equal: bool)
    ensures
        equal == (usage_view(a@) == usage_view(b@)),
{
    if a.len() != b.len() {
        proof {
            assert(usage_view(a@).len() != usage_view(b@).len());
        }
        return false;
    }
    let mut i: usize = 0;
    while i < a.len()
        invariant
            i <= a@.len(),
            a@.len() == b@.len(),
            forall|k: int| 0 <= k < i ==> #[trigger] usage_view(a@)[k] == usage_view(b@)[k],
        decreases a@.len() - i,
    {
        if !str_equal(a[i].0.as_str(), b[i].0.as_str()) || a[i].1 != b[i].1 {
            proof {
                assert(usage_view(a@)[i as int] != usage_view(b@)[i as int]);
            }
            return false;
        }
        i = i + 1;
    }
    proof {
        assert(usage_view(a@) =~= usage_view(b@));
    }
    true
}

/// The JSON number of an unsigned integer: a 64-bit signed integer where it
/// fits, else its decimal spelling.
pub open spec fn unsigned_model(n: u64) -> JsonModel {
    if n <= i64::MAX {
        JsonModel::Int(n as i64)
    } else {
        JsonModel::OtherNumber(decimal(n as nat))
    }
}

/// The JSON number of an unsigned integer.
pub fn unsigned_json(n: u64) -> (document: JsonValue)
    ensures
        document@ == unsigned_model(n),
{
    if n <= i64::MAX as u64 {
        JsonValue::Int(n as i64)
    } else {
        let mut text = String::new();
        push_decimal(&mut text, n);
        JsonValue::OtherNumber(text)
    }
}

/// The JSON object of a usage table.
pub open spec fn usage_document(usage: Seq<(String, u64)>) -> JsonModel {
    JsonModel::Object(usage.map_values(|e: (String, u64)| (e.0@, unsigned_model(e.1))))
}

/// The JSON object of a usage table.
pub fn usage_json(usage: &Vec<(String, u64)>) -> (document: JsonValue)
    ensures
        document@ == usage_document(usage@),
{
    let mut members: Vec<(String, JsonValue)> = Vec::new();
    let mut i: usize = 0;
    while i < usage.len()
        invariant
            i <= usage@.len(),
            members@.len() == i,
            forall|k: int| 0 <= k < i ==> (#[trigger] members@[k]).0@ == usage@[k].0@ && members@[k].1@
                == unsigned_model(usage@[k].1),
        decreases usage@.len() - i,
    {
        members.push((usage[i].0.clone(), unsigned_json(usage[i].1)));
        i = i + 1;
    }
    proof {
        lemma_members_view(members@);
        assert(members_view(members@) =~= usage@.map_values(
            |e: (String, u64)| (e.0@, unsigned_model(e.1)),
        ));
    }
    JsonValue::Object(members)
}

/// The document whose canonical hash binds an execution grant: protocol
/// version, run, request hash, trace checkpoint, continuation hash and the
/// reserved maximums.
pub open spec fn grant_binding_document(run_id: Seq<char>, admitted: AdmittedEffect) -> JsonModel {
    JsonModel::Object(
        seq![
            ("protocol_version"@, JsonModel::Int(1)),
            ("run_id"@, JsonModel::Text(run_id)),
            ("request_hash"@, JsonModel::Text(admitted.request.request_hash@)),
            ("trace_position"@, unsigned_model(admitted.trace_position)),
            ("trace_hash"@, JsonModel::Text(admitted.trace_hash@)),
            ("snapshot_hash"@, JsonModel::Text(admitted.snapshot_hash@)),
            ("max_usage"@, usage_document(admitted.maximums@)),
        ],
    )
}

/// Canonical hash binding a grant to its run and admitted effect.
fn execution_grant_hash(run_id: &str, admitted: &AdmittedEffect) -> (hash: String)
    ensures
        hash@ == canonical_digest(grant_binding_document(run_id@, *admitted)),
{
    let document = JsonValue::Object(
        vec![
            (String::from_str("protocol_version"), JsonValue::Int(1)),
            (String::from_str("run_id"), JsonValue::String(run_id.to_owned())),
            (String::from_str("request_hash"), JsonValue::String(admitted.request.request_hash.clone())),
            (String::from_str("trace_position"), unsigned_json(admitted.trace_position)),
            (String::from_str("trace_hash"), JsonValue::String(admitted.trace_hash.clone())),
            (String::from_str("snapshot_hash"), JsonValue::String(admitted.snapshot_hash.clone())),
            (String::from_str("max_usage"), usage_json(&admitted.maximums)),
        ],
    );
    proof {
        match &document {
            JsonValue::Object(members) => {
                lemma_members_view(members@);
                assert(members_view(members@) =~= seq![
                    ("protocol_version"@, JsonModel::Int(1)),
                    ("run_id"@, JsonModel::Text(run_id@)),
                    ("request_hash"@, JsonModel::Text(admitted.request.request_hash@)),
                    ("trace_position"@, unsigned_model(admitted.trace_position)),
                    ("trace_hash"@, JsonModel::Text(admitted.trace_hash@)),
                    ("snapshot_hash"@, JsonModel::Text(admitted.snapshot_hash@)),
                    ("max_usage"@, usage_document(admitted.maximums@)),
                ]);
            },
            _ => {},
        }
    }
    canonical_sha256(&document)
}

/// Whether a grant carries exactly the admitted request, maximums and
/// continuation hash, and the binding hash of the run and admission.
pub open spec fn grant_matches(grant: ExecutionGrant, run_id: Seq<char>, admitted: AdmittedEffect) -> bool {
    &&& same_request(grant.request, admitted.request)
    &&& usage_view(grant.max_usage@) == usage_view(admitted.maximums@)
    &&& grant.snapshot_hash@ == admitted.snapshot_hash@
    &&& grant.execution_grant_hash@ == canonical_digest(grant_binding_document(run_id, admitted))
}

impl ExecutionGrant {
    /// Builds the grant of an admitted effect; only host-declared usage
    /// dimensions may be reserved.
    pub fn for_admitted(run_id: &str, admitted: &AdmittedEffect) -> (result: Result<
        ExecutionGrant,
        HostProtocolError,
    >)
        ensures
            result is Ok <==> forall|i: int|
                0 <= i < admitted.maximums@.len() ==> host_usage_dimension(
                    #[trigger] admitted.maximums@[i].0@,
                ),
            result matches Err(e) ==> e == HostProtocolError::InvalidUsage,
            result matches Ok(grant) ==> grant_matches(grant, run_id@, *admitted),
    {
        match validate_usage_dimensions(&admitted.maximums) {
            Ok(()) => {},
            Err(e) => {
                return Err(e);
            },
        }
        let execution_grant_hash = execution_grant_hash(run_id, admitted);
        Ok(
            ExecutionGrant {
                request: duplicate_request(&admitted.request),
                max_usage: clone_usage(&admitted.maximums),
                snapshot_hash: admitted.snapshot_hash.clone(),
                execution_grant_hash,
            },
        )
    }

    /// Checks every grant field against the admission it claims.
    pub fn validate(&self, run_id: &str, admitted: &AdmittedEffect) -> (result: Result<
        (),
        HostProtocolError,
    >)
        ensures
            result is Ok <==> grant_matches(*self, run_id@, *admitted),
            result matches Err(e) ==> e == HostProtocolError::BindingMismatch,
    {
        if !requests_equal(&self.request, &admitted.request) || !usage_equal(
            &self.max_usage,
            &admitted.maximums,
        ) || !str_equal(self.snapshot_hash.as_str(), admitted.snapshot_hash.as_str()) {
            return Err(HostProtocolError::BindingMismatch);
        }
        let expected = execution_grant_hash(run_id, admitted);
        if !str_equal(self.execution_grant_hash.as_str(), expected.as_str()) {
            return Err(HostProtocolError::BindingMismatch);
        }
        Ok(())
    }
}

/// Dimension names of a usage table, in order.
pub open spec fn usage_names(usage: Seq<(String, u64)>) -> Seq<Seq<char>> {
    usage.map_values(|e: (String, u64)| e.0@)
}

/// Actual usage names exactly the reserved dimensions, in order, and each
/// entry is within the maximum filed under its name.
pub open spec fn usage_bounded(actual: Seq<(String, u64)>, maximums: Seq<(String, u64)>) -> bool {
    &&& usage_names(actual) == usage_names(maximums)
    &&& forall|i: int|
        0 <= i < actual.len() ==> match lookup(maximums, #[trigger] actual[i].0@) {
            Some(maximum) => actual[i].1 <= maximum,
            None => false,
        }
}

/// Verdict on a host resolution: the grant must match its admission, the
/// resolution must name the admitted request and the grant, its usage may
/// only name host-declared dimensions, and it must name exactly the reserved
/// ones, each within its maximum.
pub open spec fn resolution_verdict(
    resolution: HostEffectResolution,
    run_id: Seq<char>,
    admitted: AdmittedEffect,
    grant: ExecutionGrant,
) -> Result<(), HostProtocolError> {
    if !grant_matches(grant, run_id, admitted) {
        Err(HostProtocolError::BindingMismatch)
    } else if resolution.request_hash@ != admitted.request.request_hash@
        || resolution.execution_grant_hash@ != grant.execution_grant_hash@ {
        Err(HostProtocolError::BindingMismatch)
    } else if !(forall|i: int|
        0 <= i < resolution.actual_usage@.len() ==> host_usage_dimension(
            #[trigger] resolution.actual_usage@[i].0@,
        )) {
        Err(HostProtocolError::InvalidUsage)
    } else if !usage_bounded(resolution.actual_usage@, admitted.maximums@) {
        Err(HostProtocolError::InvalidUsage)
    } else {
        Ok(())
    }
}

/// Whether two usage tables name the same dimensions in the same order.
fn same_names(a: &Vec<(String, u64)>, b: &Vec<(String, u64)>) -> (same: bool)
    ensures
        same == (usage_names(a@) == usage_names(b@)),
{
    if a.len() != b.len() {
        proof {
            assert(usage_names(a@).len() != usage_names(b@).len());
        }
        return false;
    }
    let mut i: usize = 0;
    while i < a.len()
        invariant
            i <= a@.len(),
            a@.len() == b@.len(),
            forall|k: int| 0 <= k < i ==> #[trigger] usage_names(a@)[k] == usage_names(b@)[k],
        decreases a@.len() - i,
    {
        if !str_equal(a[i].0.as_str(), b[i].0.as_str()) {
            proof {
                assert(usage_names(a@)[i as int] != usage_names(b@)[i as int]);
            }
            return false;
        }
        i = i + 1;
    }
    proof {
        assert(usage_names(a@) =~= usage_names(b@));
    }
    true
}

impl HostEffectResolution {
    /// Checks the grant and request bindings and exact bounded actual usage.
    pub fn validate_against(
        &self,
        run_id: &str,
        admitted: &AdmittedEffect,
        grant: &ExecutionGrant,
    ) -> (result: Result<(), HostProtocolError>)
        ensures
            result == resolution_verdict(*self, run_id@, *admitted, *grant),
    {
        match grant.validate(run_id, admitted) {
            Ok(()) => {},
            Err(e) => {
                return Err(e);
            },
        }
        if !str_equal(self.request_hash.as_str(), admitted.request.request_hash.as_str())
            || !str_equal(self.execution_grant_hash.as_str(), grant.execution_grant_hash.as_str()) {
            return Err(HostProtocolError::BindingMismatch);
        }
        match validate_usage_dimensions(&self.actual_usage) {
            Ok(()) => {},
            Err(e) => {
                return Err(e);
            },
        }
        if !same_names(&self.actual_usage, &admitted.maximums) {
            return Err(HostProtocolError::InvalidUsage);
        }
        let mut i: usize = 0;
        while i < self.actual_usage.len()
            invariant
                i <= self.actual_usage@.len(),
                grant_matches(*grant, run_id@, *admitted),
                self.request_hash@ == admitted.request.request_hash@,
                self.execution_grant_hash@ == grant.execution_grant_hash@,
                forall|k: int|
                    0 <= k < self.actual_usage@.len() ==> host_usage_dimension(
                        #[trigger] self.actual_usage@[k].0@,
                    ),
                usage_names(self.actual_usage@) == usage_names(admitted.maximums@),
                forall|k: int|
                    0 <= k < i ==> match lookup(admitted.maximums@, #[trigger] self.actual_usage@[k].0@) {
                        Some(maximum) => self.actual_usage@[k].1 <= maximum,
                        None => false,
                    },
            decreases self.actual_usage@.len() - i,
        {
            let name = self.actual_usage[i].0.as_str();
            proof {
                lemma_position_bounds(admitted.maximums@, name@);
            }
            match find(&admitted.maximums, name) {
                Some(m) => {
                    if self.actual_usage[i].1 > admitted.maximums[m].1 {
                        return Err(HostProtocolError::InvalidUsage);
                    }
                },
                None => {
                    return Err(HostProtocolError::InvalidUsage);
                },
            }
            i = i + 1;
        }
        Ok(())
    }

    /// Drops the grant evidence and hands the machine its resolution.
    pub fn into_runtime(self) -> (resolution: EffectResolution)
        ensures
            resolution.request_hash == self.request_hash,
            resolution.payload == self.payload,
            resolution.actual_usage == self.actual_usage,
    {
        EffectResolution {
            request_hash: self.request_hash,
            payload: self.payload,
            actual_usage: self.actual_usage,
        }
    }
}

} // verus!