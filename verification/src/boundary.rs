use vstd::prelude::*;

use crate::budget::BudgetDimension;
use crate::capability::{CompiledGrants, request_document, request_json, texts};
use crate::evaluation::{
    ALIAS_LIMIT, EffectKind, Failure, MAX_CALL_DEPTH, MachineError, argument_key, argument_name,
    budget_dimension, decode_json, decode_value, dimension_named, effect_kind_name, eval_expression,
    eval_pure, failure, json_to_runtime, json_to_value, lemma_member_position, member_index, member_position,
    names_field, outcome, record_insert, runtime_to_json, slot_lookup, slots_get, slots_view,
    value_json,
};
use crate::ir::{Agent, CapabilitySpec, NamedExpression, NamedValue, Program, StateFieldSpec, ValueId};
use crate::json_value::{
    JsonModel, JsonValue, canonical_digest, canonical_sha256, items_view, json_member_insert,
    json_view, lemma_items_view, lemma_members_view, members_view,
};
use crate::ordered::model_insert;
use crate::runtime_value::{RuntimeValue, ValueModel, record_view};
use crate::text::str_equal;

verus! {

/// Complete deterministic external request identity.
#[derive(Debug, PartialEq, Eq)]
pub struct EffectRequest {
    pub kind: EffectKind,
    pub identity: String,
    pub payload: JsonValue,
    pub request_hash: String,
}

/// Typed driver or replay response bound to one request hash.
#[derive(Debug, PartialEq, Eq)]
pub struct EffectResolution {
    pub request_hash: String,
    pub payload: JsonValue,
    /// Actual usage by dimension name, in key order.
    pub actual_usage: Vec<(String, u64)>,
}

/// The JSON document whose canonical hash identifies an effect request.
pub open spec fn request_identity_document(kind: EffectKind, identity: Seq<char>, payload: JsonModel) -> JsonModel {
    JsonModel::Object(
        seq![
            ("identity"@, JsonModel::Text(identity)),
            ("kind"@, JsonModel::Text(effect_kind_name(kind))),
            ("payload"@, payload),
        ],
    )
}

/// Builds an effect request identified by the canonical hash of its kind,
/// identity and payload.
pub fn effect_request(kind: EffectKind, identity: String, payload: JsonValue) -> (result: Result<
    EffectRequest,
    MachineError,
>)
    ensures
        result matches Ok(request) && request.kind == kind && request.identity@ == identity@
            && request.payload@ == payload@ && request.request_hash@ == canonical_digest(
            request_identity_document(kind, identity@, payload@),
        ),
{
    let document = JsonValue::Object(
        vec![
            (String::from_str("identity"), JsonValue::String(identity.clone())),
            (String::from_str("kind"), JsonValue::String(String::from_str(kind.name()))),
            (String::from_str("payload"), payload.duplicate()),
        ],
    );
    proof {
        match &document {
            JsonValue::Object(members) => {
                lemma_members_view(members@);
                assert(members_view(members@) =~= seq![
                    ("identity"@, JsonModel::Text(identity@)),
                    ("kind"@, JsonModel::Text(effect_kind_name(kind))),
                    ("payload"@, payload@),
                ]);
            },
            _ => {},
        }
    }
    let request_hash = canonical_sha256(&document);
    Ok(EffectRequest { kind, identity, payload, request_hash })
}

/// Locals extended with tool arguments converted to runtime values, each
/// replacing a local of its name; the first failing conversion stops.
pub open spec fn with_tool_arguments(
    locals: Seq<(Seq<char>, ValueModel)>,
    arguments: Seq<(Seq<char>, JsonModel)>,
) -> Result<Seq<(Seq<char>, ValueModel)>, Failure>
    decreases arguments.len(),
{
    if arguments.len() == 0 {
        Ok(locals)
    } else {
        match with_tool_arguments(locals, arguments.drop_last()) {
            Ok(scope) => match json_to_value(arguments.last().1) {
                Ok(v) => Ok(model_insert(scope, arguments.last().0, v)),
                Err(e) => Err(e),
            },
            Err(e) => Err(e),
        }
    }
}

/// JSON documents of capability argument expressions in order; the first
/// failure stops.
pub open spec fn capability_arguments(
    arguments: Seq<NamedExpression>,
    locals: Seq<(Seq<char>, ValueModel)>,
    slots: Seq<(u32, ValueModel)>,
    program: Program,
) -> Result<Seq<JsonModel>, Failure>
    decreases arguments.len(),
{
    if arguments.len() == 0 {
        Ok(Seq::empty())
    } else {
        match capability_arguments(arguments.drop_last(), locals, slots, program) {
            Ok(documents) => match eval_pure(
                arguments.last().value,
                locals,
                slots,
                program,
                MAX_CALL_DEPTH as nat,
            ) {
                Ok(v) => match value_json(v) {
                    Ok(d) => Ok(documents.push(d)),
                    Err(e) => Err(e),
                },
                Err(e) => Err(e),
            },
            Err(e) => Err(e),
        }
    }
}

proof fn lemma_tool_arguments_failure_persists(
    locals: Seq<(Seq<char>, ValueModel)>,
    arguments: Seq<(Seq<char>, JsonModel)>,
    n: int,
)
    requires
        0 <= n <= arguments.len(),
        with_tool_arguments(locals, arguments.take(n)) is Err,
    ensures
        with_tool_arguments(locals, arguments) == with_tool_arguments(locals, arguments.take(n)),
    decreases arguments.len() - n,
{
    if n < arguments.len() {
        assert(arguments.take(n + 1).drop_last() =~= arguments.take(n));
        lemma_tool_arguments_failure_persists(locals, arguments, n + 1);
    } else {
        assert(arguments.take(n) =~= arguments);
    }
}

proof fn lemma_capability_arguments_failure_persists(
    arguments: Seq<NamedExpression>,
    locals: Seq<(Seq<char>, ValueModel)>,
    slots: Seq<(u32, ValueModel)>,
    program: Program,
    n: int,
)
    requires
        0 <= n <= arguments.len(),
        capability_arguments(arguments.take(n), locals, slots, program) is Err,
    ensures
        capability_arguments(arguments, locals, slots, program) == capability_arguments(
            arguments.take(n),
            locals,
            slots,
            program,
        ),
    decreases arguments.len() - n,
{
    if n < arguments.len() {
        assert(arguments.take(n + 1).drop_last() =~= arguments.take(n));
        lemma_capability_arguments_failure_persists(arguments, locals, slots, program, n + 1);
    } else {
        assert(arguments.take(n) =~= arguments);
    }
}

/// Evaluates capability argument expressions to JSON documents.
pub fn evaluate_capability_arguments(
    arguments: &Vec<NamedExpression>,
    locals: &Vec<(String, RuntimeValue)>,
    slots: &Vec<(ValueId, RuntimeValue)>,
    program: &Program,
) -> (result: Result<Vec<JsonValue>, MachineError>)
    ensures
        match result {
            Ok(documents) => capability_arguments(
                arguments@,
                record_view(locals@),
                slots_view(slots@),
                *program,
            ) == Ok::<Seq<JsonModel>, Failure>(items_view(documents@)),
            Err(e) => capability_arguments(
                arguments@,
                record_view(locals@),
                slots_view(slots@),
                *program,
            ) == Err::<Seq<JsonModel>, Failure>(failure(e)),
        },
{
    let ghost l = record_view(locals@);
    let ghost sl = slots_view(slots@);
    let mut documents: Vec<JsonValue> = Vec::new();
    let mut i: usize = 0;
    proof {
        assert(arguments@.take(0) =~= Seq::<NamedExpression>::empty());
        assert(items_view(documents@) =~= Seq::<JsonModel>::empty());
    }
    while i < arguments.len()
        invariant
            i <= arguments@.len(),
            l == record_view(locals@),
            sl == slots_view(slots@),
            capability_arguments(arguments@.take(i as int), l, sl, *program) == Ok::<
                Seq<JsonModel>,
                Failure,
            >(items_view(documents@)),
        decreases arguments@.len() - i,
    {
        proof {
            assert(arguments@.take(i + 1).drop_last() =~= arguments@.take(i as int));
            assert(arguments@.take(i + 1).last() == arguments@[i as int]);
        }
        let value = match eval_expression(&arguments[i].value, locals, slots, program) {
            Ok(v) => v,
            Err(e) => {
                proof {
                    lemma_capability_arguments_failure_persists(arguments@, l, sl, *program, i + 1);
                }
                return Err(e);
            },
        };
        match runtime_to_json(&value) {
            Ok(d) => {
                let ghost before = documents@;
                documents.push(d);
                proof {
                    assert(documents@.drop_last() =~= before);
                }
            },
            Err(e) => {
                proof {
                    lemma_capability_arguments_failure_persists(arguments@, l, sl, *program, i + 1);
                }
                return Err(e);
            },
        }
        i = i + 1;
    }
    proof {
        assert(arguments@.take(arguments@.len() as int) =~= arguments@);
    }
    Ok(documents)
}

/// The exact capability request a tool boundary makes: none without a
/// capability, else its name and its arguments evaluated with the tool's
/// arguments in scope.
pub open spec fn capability_request_value(
    capability: Option<CapabilitySpec>,
    tool_arguments: Seq<(Seq<char>, JsonModel)>,
    locals: Seq<(Seq<char>, ValueModel)>,
    slots: Seq<(u32, ValueModel)>,
    program: Program,
) -> Result<JsonModel, Failure> {
    match capability {
        None => Ok(JsonModel::Null),
        Some(c) => match with_tool_arguments(locals, tool_arguments) {
            Err(e) => Err(e),
            Ok(scope) => match capability_arguments(c.arguments@, scope, slots, program) {
                Ok(documents) => Ok(request_document(c.name@, documents)),
                Err(e) => Err(e),
            },
        },
    }
}

/// Builds the capability request of a tool boundary.
pub fn capability_request(
    capability: &Option<CapabilitySpec>,
    tool_arguments: &Vec<(String, JsonValue)>,
    locals: &Vec<(String, RuntimeValue)>,
    slots: &Vec<(ValueId, RuntimeValue)>,
    program: &Program,
) -> (result: Result<JsonValue, MachineError>)
    ensures
        match result {
            Ok(d) => capability_request_value(
                *capability,
                members_view(tool_arguments@),
                record_view(locals@),
                slots_view(slots@),
                *program,
            ) == Ok::<JsonModel, Failure>(d@),
            Err(e) => capability_request_value(
                *capability,
                members_view(tool_arguments@),
                record_view(locals@),
                slots_view(slots@),
                *program,
            ) == Err::<JsonModel, Failure>(failure(e)),
        },
{
    let c = match capability {
        None => {
            return Ok(JsonValue::Null);
        },
        Some(c) => c,
    };
    let ghost arguments = members_view(tool_arguments@);
    proof {
        lemma_members_view(tool_arguments@);
        assert(arguments.take(0) =~= Seq::<(Seq<char>, JsonModel)>::empty());
    }
    let mut scope = crate::runtime_value::duplicate_record(locals);
    let mut i: usize = 0;
    while i < tool_arguments.len()
        invariant
            i <= tool_arguments@.len(),
            *capability == Some(*c),
            arguments == members_view(tool_arguments@),
            arguments.len() == tool_arguments@.len(),
            forall|k: int| 0 <= k < tool_arguments@.len() ==> #[trigger] arguments[k] == (
                tool_arguments@[k].0@,
                json_view(tool_arguments@[k].1),
            ),
            with_tool_arguments(record_view(locals@), arguments.take(i as int)) == Ok::<
                Seq<(Seq<char>, ValueModel)>,
                Failure,
            >(record_view(scope@)),
        decreases tool_arguments@.len() - i,
    {
        proof {
            assert(arguments.take(i + 1).drop_last() =~= arguments.take(i as int));
            assert(arguments.take(i + 1).last() == arguments[i as int]);
        }
        match json_to_runtime(&tool_arguments[i].1) {
            Ok(v) => {
                record_insert(&mut scope, tool_arguments[i].0.clone(), v);
            },
            Err(e) => {
                proof {
                    lemma_tool_arguments_failure_persists(record_view(locals@), arguments, i + 1);
                }
                return Err(e);
            },
        }
        i = i + 1;
    }
    proof {
        assert(arguments.take(tool_arguments@.len() as int) =~= arguments);
    }
    match evaluate_capability_arguments(&c.arguments, &scope, slots, program) {
        Ok(documents) => Ok(request_json(c.name.as_str(), documents)),
        Err(e) => Err(e),
    }
}

/// Whether every declared capability, its arguments evaluated over the
/// locals, is exactly granted; capabilities are checked in order.
pub open spec fn capabilities_verdict(
    capabilities: Seq<CapabilitySpec>,
    locals: Seq<(Seq<char>, ValueModel)>,
    program: Program,
    granted: Seq<Seq<char>>,
) -> Result<(), Failure>
    decreases capabilities.len(),
{
    if capabilities.len() == 0 {
        Ok(())
    } else {
        match capabilities_verdict(capabilities.drop_last(), locals, program, granted) {
            Ok(()) => match capability_arguments(
                capabilities.last().arguments@,
                locals,
                Seq::empty(),
                program,
            ) {
                Ok(documents) => if granted.contains(
                    canonical_digest(request_document(capabilities.last().name@, documents)),
                ) {
                    Ok(())
                } else {
                    Err(Failure::MissingCapability)
                },
                Err(e) => Err(e),
            },
            Err(e) => Err(e),
        }
    }
}

proof fn lemma_capabilities_failure_persists(
    capabilities: Seq<CapabilitySpec>,
    locals: Seq<(Seq<char>, ValueModel)>,
    program: Program,
    granted: Seq<Seq<char>>,
    n: int,
)
    requires
        0 <= n <= capabilities.len(),
        capabilities_verdict(capabilities.take(n), locals, program, granted) is Err,
    ensures
        capabilities_verdict(capabilities, locals, program, granted) == capabilities_verdict(
            capabilities.take(n),
            locals,
            program,
            granted,
        ),
    decreases capabilities.len() - n,
{
    if n < capabilities.len() {
        assert(capabilities.take(n + 1).drop_last() =~= capabilities.take(n));
        lemma_capabilities_failure_persists(capabilities, locals, program, granted, n + 1);
    } else {
        assert(capabilities.take(n) =~= capabilities);
    }
}

/// Checks that each declared capability is exactly granted.
pub fn validate_declared_capabilities(
    capabilities: &Vec<CapabilitySpec>,
    locals: &Vec<(String, RuntimeValue)>,
    program: &Program,
    grants: &CompiledGrants,
) -> (result: Result<(), MachineError>)
    ensures
        match result {
            Ok(()) => capabilities_verdict(
                capabilities@,
                record_view(locals@),
                *program,
                texts(grants.request_hashes@),
            ) == Ok::<(), Failure>(()),
            Err(e) => capabilities_verdict(
                capabilities@,
                record_view(locals@),
                *program,
                texts(grants.request_hashes@),
            ) == Err::<(), Failure>(failure(e)),
        },
{
    let ghost l = record_view(locals@);
    let ghost granted = texts(grants.request_hashes@);
    let slots: Vec<(ValueId, RuntimeValue)> = Vec::new();
    proof {
        assert(slots_view(slots@) =~= Seq::<(u32, ValueModel)>::empty());
        assert(capabilities@.take(0) =~= Seq::<CapabilitySpec>::empty());
    }
    let mut i: usize = 0;
    while i < capabilities.len()
        invariant
            i <= capabilities@.len(),
            l == record_view(locals@),
            granted == texts(grants.request_hashes@),
            slots_view(slots@) == Seq::<(u32, ValueModel)>::empty(),
            capabilities_verdict(capabilities@.take(i as int), l, *program, granted) == Ok::<
                (),
                Failure,
            >(()),
        decreases capabilities@.len() - i,
    {
        proof {
            assert(capabilities@.take(i + 1).drop_last() =~= capabilities@.take(i as int));
            assert(capabilities@.take(i + 1).last() == capabilities@[i as int]);
        }
        let capability = &capabilities[i];
        let documents = match evaluate_capability_arguments(&capability.arguments, locals, &slots, program) {
            Ok(d) => d,
            Err(e) => {
                proof {
                    lemma_capabilities_failure_persists(capabilities@, l, *program, granted, i + 1);
                }
                return Err(e);
            },
        };
        let request = request_json(capability.name.as_str(), documents);
        if !grants.permits(&request) {
            proof {
                lemma_capabilities_failure_persists(capabilities@, l, *program, granted, i + 1);
            }
            return Err(MachineError::MissingCapability);
        }
        i = i + 1;
    }
    proof {
        assert(capabilities@.take(capabilities@.len() as int) =~= capabilities@);
    }
    Ok(())
}

/// Whether some supplied key names no state field.
pub open spec fn has_unknown_state(supplied: Seq<(Seq<char>, JsonModel)>, state: Seq<StateFieldSpec>) -> bool {
    exists|i: int| 0 <= i < supplied.len() && !names_state_field(state, #[trigger] supplied[i].0)
}

/// Whether some state field is named `key`.
pub open spec fn names_state_field(state: Seq<StateFieldSpec>, key: Seq<char>) -> bool {
    exists|j: int| 0 <= j < state.len() && #[trigger] state[j].name@ == key
}

/// Initial state fields in field order: a supplied value decoded at the
/// field's type, else the field's default evaluated over the locals;
/// collected in key order, the first failure stopping.
pub open spec fn state_fields(
    fields: Seq<StateFieldSpec>,
    supplied: Seq<(Seq<char>, JsonModel)>,
    locals: Seq<(Seq<char>, ValueModel)>,
    program: Program,
) -> Result<Seq<(Seq<char>, ValueModel)>, Failure>
    decreases fields.len(),
{
    if fields.len() == 0 {
        Ok(Seq::empty())
    } else {
        match state_fields(fields.drop_last(), supplied, locals, program) {
            Ok(values) => {
                let field = fields.last();
                let value = match member_position(supplied, field.name@) {
                    Some(i) => decode_value(supplied[i].1, field.ty, program, ALIAS_LIMIT as nat),
                    None => eval_pure(field.default, locals, Seq::empty(), program, MAX_CALL_DEPTH as nat),
                };
                match value {
                    Ok(v) => Ok(model_insert(values, field.name@, v)),
                    Err(e) => Err(e),
                }
            },
            Err(e) => Err(e),
        }
    }
}

/// The initial state of an agent: every supplied field must be declared.
pub open spec fn initial_state_value(
    agent: Agent,
    supplied: Seq<(Seq<char>, JsonModel)>,
    locals: Seq<(Seq<char>, ValueModel)>,
    program: Program,
) -> Result<Seq<(Seq<char>, ValueModel)>, Failure> {
    if has_unknown_state(supplied, agent.state@) {
        Err(Failure::UnknownStateField)
    } else {
        state_fields(agent.state@, supplied, locals, program)
    }
}

proof fn lemma_state_fields_failure_persists(
    fields: Seq<StateFieldSpec>,
    supplied: Seq<(Seq<char>, JsonModel)>,
    locals: Seq<(Seq<char>, ValueModel)>,
    program: Program,
    n: int,
)
    requires
        0 <= n <= fields.len(),
        state_fields(fields.take(n), supplied, locals, program) is Err,
    ensures
        state_fields(fields, supplied, locals, program) == state_fields(
            fields.take(n),
            supplied,
            locals,
            program,
        ),
    decreases fields.len() - n,
{
    if n < fields.len() {
        assert(fields.take(n + 1).drop_last() =~= fields.take(n));
        lemma_state_fields_failure_persists(fields, supplied, locals, program, n + 1);
    } else {
        assert(fields.take(n) =~= fields);
    }
}

fn state_field_named(fields: &Vec<StateFieldSpec>, key: &str) -> (named: bool)
    ensures
        named == names_state_field(fields@, key@),
{
    let mut j: usize = 0;
    while j < fields.len()
        invariant
            j <= fields@.len(),
            forall|k: int| 0 <= k < j ==> fields@[k].name@ != key@,
        decreases fields@.len() - j,
    {
        if str_equal(fields[j].name.as_str(), key) {
            return true;
        }
        j = j + 1;
    }
    false
}

/// Builds an agent's initial state from supplied values and defaults.
pub fn initial_state(
    agent: &Agent,
    supplied: &Vec<(String, JsonValue)>,
    locals: &Vec<(String, RuntimeValue)>,
    program: &Program,
) -> (result: Result<Vec<(String, RuntimeValue)>, MachineError>)
    ensures
        match result {
            Ok(state) => initial_state_value(
                *agent,
                members_view(supplied@),
                record_view(locals@),
                *program,
            ) == Ok::<Seq<(Seq<char>, ValueModel)>, Failure>(record_view(state@)),
            Err(e) => initial_state_value(
                *agent,
                members_view(supplied@),
                record_view(locals@),
                *program,
            ) == Err::<Seq<(Seq<char>, ValueModel)>, Failure>(failure(e)),
        },
{
    let ghost view = members_view(supplied@);
    proof {
        lemma_members_view(supplied@);
    }
    let mut k: usize = 0;
    while k < supplied.len()
        invariant
            k <= supplied@.len(),
            view == members_view(supplied@),
            view.len() == supplied@.len(),
            forall|j: int| 0 <= j < supplied@.len() ==> #[trigger] view[j] == (
                supplied@[j].0@,
                json_view(supplied@[j].1),
            ),
            forall|j: int| 0 <= j < k ==> names_state_field(agent.state@, #[trigger] view[j].0),
        decreases supplied@.len() - k,
    {
        if !state_field_named(&agent.state, supplied[k].0.as_str()) {
            proof {
                assert(!names_state_field(agent.state@, view[k as int].0));
            }
            return Err(MachineError::UnknownStateField);
        }
        k = k + 1;
    }
    let ghost l = record_view(locals@);
    let ghost fields = agent.state@;
    let slots: Vec<(ValueId, RuntimeValue)> = Vec::new();
    let mut state: Vec<(String, RuntimeValue)> = Vec::new();
    proof {
        assert(slots_view(slots@) =~= Seq::<(u32, ValueModel)>::empty());
        assert(fields.take(0) =~= Seq::<StateFieldSpec>::empty());
        assert(record_view(state@) =~= Seq::<(Seq<char>, ValueModel)>::empty());
    }
    let mut i: usize = 0;
    while i < agent.state.len()
        invariant
            i <= fields.len(),
            fields == agent.state@,
            l == record_view(locals@),
            view == members_view(supplied@),
            view.len() == supplied@.len(),
            forall|j: int| 0 <= j < supplied@.len() ==> #[trigger] view[j] == (
                supplied@[j].0@,
                json_view(supplied@[j].1),
            ),
            !has_unknown_state(view, fields),
            slots_view(slots@) == Seq::<(u32, ValueModel)>::empty(),
            state_fields(fields.take(i as int), view, l, *program) == Ok::<
                Seq<(Seq<char>, ValueModel)>,
                Failure,
            >(record_view(state@)),
        decreases fields.len() - i,
    {
        proof {
            assert(fields.take(i + 1).drop_last() =~= fields.take(i as int));
            assert(fields.take(i + 1).last() == fields[i as int]);
            lemma_member_position(view, fields[i as int].name@);
        }
        let field = &agent.state[i];
        let value = match member_index(supplied, field.name.as_str()) {
            Some(p) => decode_json(&supplied[p].1, &field.ty, program),
            None => eval_expression(&field.default, locals, &slots, program),
        };
        match value {
            Ok(v) => {
                record_insert(&mut state, field.name.clone(), v);
            },
            Err(e) => {
                proof {
                    lemma_state_fields_failure_persists(fields, view, l, *program, i + 1);
                }
                return Err(e);
            },
        }
        i = i + 1;
    }
    proof {
        assert(fields.take(fields.len() as int) =~= fields);
    }
    Ok(state)
}

/// Budget limits whose names are known dimensions, in order.
pub open spec fn known_limits(values: Seq<(String, u64)>) -> Seq<(BudgetDimension, u64)>
    decreases values.len(),
{
    if values.len() == 0 {
        Seq::empty()
    } else {
        let prior = known_limits(values.drop_last());
        match dimension_named(values.last().0@) {
            Some(d) => prior.push((d, values.last().1)),
            None => prior,
        }
    }
}

/// The per-event limits of an agent's named budget entries.
pub fn budget_limits(values: &Vec<(String, u64)>) -> (limits: Vec<(BudgetDimension, u64)>)
    ensures
        limits@ == known_limits(values@),
{
    let mut limits: Vec<(BudgetDimension, u64)> = Vec::new();
    let mut i: usize = 0;
    proof {
        assert(values@.take(0) =~= Seq::<(String, u64)>::empty());
    }
    while i < values.len()
        invariant
            i <= values@.len(),
            limits@ == known_limits(values@.take(i as int)),
        decreases values@.len() - i,
    {
        proof {
            assert(values@.take(i + 1).drop_last() =~= values@.take(i as int));
            assert(values@.take(i + 1).last() == values@[i as int]);
        }
        match budget_dimension(values[i].0.as_str()) {
            Some(d) => limits.push((d, values[i].1)),
            None => {},
        }
        i = i + 1;
    }
    proof {
        assert(values@.take(values@.len() as int) =~= values@);
    }
    limits
}

/// The JSON object of named argument slots: each under its name or
/// position, collected in key order; a missing slot is an unknown value.
pub open spec fn named_values_document(values: Seq<NamedValue>, slots: Seq<(u32, ValueModel)>) -> Result<
    Seq<(Seq<char>, JsonModel)>,
    Failure,
>
    decreases values.len(),
{
    if values.len() == 0 {
        Ok(Seq::empty())
    } else {
        match named_values_document(values.drop_last(), slots) {
            Ok(members) => match slot_lookup(slots, values.last().value.0) {
                Some(v) => match value_json(v) {
                    Ok(d) => Ok(
                        model_insert(members, argument_key(values.last().name, values.len() - 1), d),
                    ),
                    Err(e) => Err(e),
                },
                None => Err(Failure::UnknownValue),
            },
            Err(e) => Err(e),
        }
    }
}

proof fn lemma_named_values_failure_persists(values: Seq<NamedValue>, slots: Seq<(u32, ValueModel)>, n: int)
    requires
        0 <= n <= values.len(),
        named_values_document(values.take(n), slots) is Err,
    ensures
        named_values_document(values, slots) == named_values_document(values.take(n), slots),
    decreases values.len() - n,
{
    if n < values.len() {
        assert(values.take(n + 1).drop_last() =~= values.take(n));
        lemma_named_values_failure_persists(values, slots, n + 1);
    } else {
        assert(values.take(n) =~= values);
    }
}

/// The JSON members of named argument slots.
pub fn named_values_json(values: &Vec<NamedValue>, slots: &Vec<(ValueId, RuntimeValue)>) -> (result: Result<
    Vec<(String, JsonValue)>,
    MachineError,
>)
    ensures
        match result {
            Ok(members) => named_values_document(values@, slots_view(slots@)) == Ok::<
                Seq<(Seq<char>, JsonModel)>,
                Failure,
            >(members_view(members@)),
            Err(e) => named_values_document(values@, slots_view(slots@)) == Err::<
                Seq<(Seq<char>, JsonModel)>,
                Failure,
            >(failure(e)),
        },
{
    let ghost sl = slots_view(slots@);
    let mut members: Vec<(String, JsonValue)> = Vec::new();
    let mut i: usize = 0;
    proof {
        assert(values@.take(0) =~= Seq::<NamedValue>::empty());
        assert(members_view(members@) =~= Seq::<(Seq<char>, JsonModel)>::empty());
    }
    while i < values.len()
        invariant
            i <= values@.len(),
            sl == slots_view(slots@),
            named_values_document(values@.take(i as int), sl) == Ok::<
                Seq<(Seq<char>, JsonModel)>,
                Failure,
            >(members_view(members@)),
        decreases values@.len() - i,
    {
        proof {
            assert(values@.take(i + 1).drop_last() =~= values@.take(i as int));
            assert(values@.take(i + 1).last() == values@[i as int]);
        }
        let value = match slots_get(slots, values[i].value) {
            Some(v) => v,
            None => {
                proof {
                    lemma_named_values_failure_persists(values@, sl, i + 1);
                }
                return Err(MachineError::UnknownValue);
            },
        };
        match runtime_to_json(value) {
            Ok(d) => {
                let key = argument_name(&values[i].name, i);
                json_member_insert(&mut members, key, d);
            },
            Err(e) => {
                proof {
                    lemma_named_values_failure_persists(values@, sl, i + 1);
                }
                return Err(e);
            },
        }
        i = i + 1;
    }
    proof {
        assert(values@.take(values@.len() as int) =~= values@);
    }
    Ok(members)
}

} // verus!
