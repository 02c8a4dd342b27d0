use vstd::prelude::*;

use crate::json_value::{
    JsonModel, JsonValue, canonical_digest, canonical_sha256, duplicate_items, items_view,
    lemma_items_view, lemma_members_view, members_view,
};
use crate::text::str_equal;

verus! {

/// One exact runtime-issued capability scope.
#[derive(Clone, Debug, PartialEq, Eq)]
pub struct CapabilityGrant {
    /// Capability declaration identity.
    pub capability: String,
    /// Exact typed scope arguments.
    pub arguments: Vec<JsonValue>,
}

/// Versioned runtime grants loaded at the external boundary.
#[derive(Clone, Debug, PartialEq, Eq)]
pub struct CapabilityGrants {
    /// Grant file schema version.
    pub schema_version: u32,
    /// Runtime-issued exact grants.
    pub grants: Vec<CapabilityGrant>,
}

/// Opaque request identities of the grants plus a fingerprint of the set.
#[derive(Clone, Debug, PartialEq, Eq)]
pub struct CompiledGrants {
    /// Canonical hash of the whole grant file.
    pub fingerprint: String,
    /// Canonical hash of each granted request, in grant order.
    pub request_hashes: Vec<String>,
}

/// Capability grant file or exact-match failure.
#[derive(Clone, Copy, Debug, PartialEq, Eq, Structural)]
pub enum CapabilityError {
    /// Unsupported grant schema.
    SchemaMismatch,
    /// Canonical hashing failed.
    Canonical,
}

impl CapabilityError {
    /// The stable message of this failure.
    pub fn message(&self) -> (text: &'static str)
        ensures
            text@ == match *self {
                CapabilityError::SchemaMismatch => "capability grant schema mismatch"@,
                CapabilityError::Canonical => "capability canonicalization failed"@,
            },
    {
        match self {
            CapabilityError::SchemaMismatch => "capability grant schema mismatch",
            CapabilityError::Canonical => "capability canonicalization failed",
        }
    }
}

/// The JSON document of a capability request: its arguments and capability.
pub open spec fn request_document(capability: Seq<char>, arguments: Seq<JsonModel>) -> JsonModel {
    JsonModel::Object(
        seq![("arguments"@, JsonModel::Array(arguments)), ("capability"@, JsonModel::Text(capability))],
    )
}

/// The JSON documents of grants in order.
pub open spec fn grant_documents(grants: Seq<CapabilityGrant>) -> Seq<JsonModel> {
    grants.map_values(
        |g: CapabilityGrant| request_document(g.capability@, items_view(g.arguments@)),
    )
}

/// The JSON document of a grant file.
pub open spec fn grants_document(grants: CapabilityGrants) -> JsonModel {
    JsonModel::Object(
        seq![
            ("grants"@, JsonModel::Array(grant_documents(grants.grants@))),
            ("schema_version"@, JsonModel::Int(grants.schema_version as i64)),
        ],
    )
}

/// The canonical request identity of each grant, in order.
pub open spec fn grant_hashes(grants: Seq<CapabilityGrant>) -> Seq<Seq<char>> {
    grants.map_values(
        |g: CapabilityGrant| canonical_digest(request_document(g.capability@, items_view(g.arguments@))),
    )
}

/// Texts of strings.
pub open spec fn texts(strings: Seq<String>) -> Seq<Seq<char>> {
    strings.map_values(|s: String| s@)
}

/// The JSON document of a capability request.
pub fn request_json(capability: &str, arguments: Vec<JsonValue>) -> (document: JsonValue)
    ensures
        document@ == request_document(capability@, items_view(arguments@)),
{
    let ghost items = items_view(arguments@);
    let document = JsonValue::Object(
        vec![
            (String::from_str("arguments"), JsonValue::Array(arguments)),
            (String::from_str("capability"), JsonValue::String(capability.to_owned())),
        ],
    );
    proof {
        match &document {
            JsonValue::Object(members) => {
                lemma_members_view(members@);
                assert(members_view(members@) =~= seq![
                    ("arguments"@, JsonModel::Array(items)),
                    ("capability"@, JsonModel::Text(capability@)),
                ]);
            },
            _ => {},
        }
    }
    document
}

/// The JSON document of a grant file.
pub fn grants_json(grants: &CapabilityGrants) -> (document: JsonValue)
    ensures
        document@ == grants_document(*grants),
{
    let mut documents: Vec<JsonValue> = Vec::new();
    let mut i: usize = 0;
    while i < grants.grants.len()
        invariant
            i <= grants.grants@.len(),
            documents@.len() == i,
            forall|k: int| 0 <= k < i ==> json_view_of(#[trigger] documents@[k]) == request_document(
                grants.grants@[k].capability@,
                items_view(grants.grants@[k].arguments@),
            ),
        decreases grants.grants@.len() - i,
    {
        let grant = &grants.grants[i];
        documents.push(request_json(grant.capability.as_str(), duplicate_items(&grant.arguments)));
        i = i + 1;
    }
    let file = JsonValue::Object(
        vec![
            (String::from_str("grants"), JsonValue::Array(documents)),
            (String::from_str("schema_version"), JsonValue::Int(grants.schema_version as i64)),
        ],
    );
    proof {
        match &file {
            JsonValue::Object(members) => {
                lemma_members_view(members@);
                match &members@[0].1 {
                    JsonValue::Array(items) => {
                        lemma_items_view(items@);
                        assert(items_view(items@) =~= grant_documents(grants.grants@));
                    },
                    _ => {},
                }
                assert(members_view(members@) =~= seq![
                    ("grants"@, JsonModel::Array(grant_documents(grants.grants@))),
                    ("schema_version"@, JsonModel::Int(grants.schema_version as i64)),
                ]);
            },
            _ => {},
        }
    }
    file
}

impl CapabilityGrants {
    /// Validates the schema and computes each grant's request identity and
    /// the fingerprint of the whole file.
    pub fn compile(&self) -> (result: Result<CompiledGrants, CapabilityError>)
        ensures
            self.schema_version != 1 <==> result == Err::<CompiledGrants, CapabilityError>(
                CapabilityError::SchemaMismatch,
            ),
            self.schema_version == 1 ==> result is Ok,
            result matches Ok(compiled) ==> compiled.fingerprint@ == canonical_digest(
                grants_document(*self),
            ) && texts(compiled.request_hashes@) == grant_hashes(self.grants@),
    {
        if self.schema_version != 1 {
            return Err(CapabilityError::SchemaMismatch);
        }
        let mut hashes: Vec<String> = Vec::new();
        let mut i: usize = 0;
        while i < self.grants.len()
            invariant
                i <= self.grants@.len(),
                hashes@.len() == i,
                forall|k: int| 0 <= k < i ==> (#[trigger] hashes@[k])@ == canonical_digest(
                    request_document(self.grants@[k].capability@, items_view(self.grants@[k].arguments@)),
                ),
            decreases self.grants@.len() - i,
        {
            let grant = &self.grants[i];
            let document = request_json(grant.capability.as_str(), duplicate_items(&grant.arguments));
            hashes.push(canonical_sha256(&document));
            i = i + 1;
        }
        let file = grants_json(self);
        proof {
            assert(texts(hashes@) =~= grant_hashes(self.grants@));
        }
        Ok(CompiledGrants { fingerprint: canonical_sha256(&file), request_hashes: hashes })
    }
}

/// The content of a document.
pub open spec fn json_view_of(document: JsonValue) -> JsonModel {
    document@
}

impl CompiledGrants {
    /// Whether a capability request is exactly one of the grants.
    pub fn permits(&self, request: &JsonValue) -> (permitted: bool)
        ensures
            permitted == texts(self.request_hashes@).contains(canonical_digest(request@)),
    {
        let hash = canonical_sha256(request);
        let mut i: usize = 0;
        while i < self.request_hashes.len()
            invariant
                i <= self.request_hashes@.len(),
                hash@ == canonical_digest(request@),
                forall|k: int| 0 <= k < i ==> self.request_hashes@[k]@ != hash@,
            decreases self.request_hashes@.len() - i,
        {
            if str_equal(self.request_hashes[i].as_str(), hash.as_str()) {
                proof {
                    assert(texts(self.request_hashes@)[i as int] == hash@);
                }
                return true;
            }
            i = i + 1;
        }
        proof {
            if texts(self.request_hashes@).contains(hash@) {
                let k = choose|k: int| 0 <= k < texts(self.request_hashes@).len() && texts(self.request_hashes@)[k] == hash@;
                assert(self.request_hashes@[k]@ == hash@);
            }
        }
        false
    }
}

} // verus!
