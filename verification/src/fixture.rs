use vstd::prelude::*;

use crate::boundary::{EffectRequest, EffectResolution};
use crate::evaluation::EffectKind;
use crate::json_value::{
    JsonModel, JsonValue, items_view, json_equal, json_view, lemma_items_view, lemma_members_view,
    member_lookup, members_view,
};
use crate::table::{find, lemma_position_bounds, lookup};
use crate::text::str_equal;

verus! {

/// One exact effect kind and identity plus an explicit request-field match.
#[derive(Debug, PartialEq, Eq)]
pub struct FixtureEntry {
    /// External effect category.
    pub kind: EffectKind,
    /// Prompt, tool, or policy identity.
    pub identity: String,
    /// Recursive subset that the complete request payload must contain.
    pub match_request: JsonValue,
    /// Typed synthetic response payload.
    pub response: JsonValue,
    /// Variable usage reserved before driver invocation, by name in key order.
    pub max_usage: Vec<(String, u64)>,
    /// Deterministic actual usage settled after the response, by name in key order.
    pub actual_usage: Vec<(String, u64)>,
}

/// Versioned deterministic fixture collection.
#[derive(Debug, PartialEq, Eq)]
pub struct FixtureSet {
    /// Fixture schema version.
    pub schema_version: u32,
    /// Source-ordered deterministic responses.
    pub entries: Vec<FixtureEntry>,
}

/// Pure pre-driver fixture match result.
#[derive(Debug, PartialEq, Eq)]
pub struct FixturePreview {
    index: usize,
    /// Maximum variable resource usage.
    pub max_usage: Vec<(String, u64)>,
}

impl FixturePreview {
    /// Position of the matched fixture.
    pub closed spec fn spec_index(&self) -> usize {
        self.index
    }

    /// The previewed maximum usage.
    pub closed spec fn spec_max_usage(&self) -> Seq<(String, u64)> {
        self.max_usage@
    }

    /// The previewed maximum usage, by dimension name.
    pub fn maximums(&self) -> (usage: &Vec<(String, u64)>)
        ensures
            usage@ == self.spec_max_usage(),
    {
        &self.max_usage
    }
}

/// Fixture matching or driver response failure.
#[derive(Clone, Copy, Debug, PartialEq, Eq, Structural)]
pub enum DriverError {
    SchemaMismatch,
    LooseFixture,
    NoMatchingFixture,
    AmbiguousFixture,
    PreviewMismatch,
    ActualExceedsMaximum,
}

impl DriverError {
    /// The stable message of this failure.
    pub fn message(&self) -> (text: &'static str)
        ensures
            text@ == match *self {
                DriverError::SchemaMismatch => "fixture schema mismatch"@,
                DriverError::LooseFixture => "fixture request match must contain explicit fields"@,
                DriverError::NoMatchingFixture => "no matching fixture"@,
                DriverError::AmbiguousFixture => "fixture request match is ambiguous"@,
                DriverError::PreviewMismatch => "fixture preview no longer matches"@,
                DriverError::ActualExceedsMaximum => "driver actual usage exceeds declared maximum"@,
            },
    {
        match self {
            DriverError::SchemaMismatch => "fixture schema mismatch",
            DriverError::LooseFixture => "fixture request match must contain explicit fields",
            DriverError::NoMatchingFixture => "no matching fixture",
            DriverError::AmbiguousFixture => "fixture request match is ambiguous",
            DriverError::PreviewMismatch => "fixture preview no longer matches",
            DriverError::ActualExceedsMaximum => "driver actual usage exceeds declared maximum",
        }
    }
}

/// Whether `expected` is a recursive subset of `actual`: every member of an
/// expected object is present in the actual object with a subset value,
/// arrays match element by element, and anything else is equal.
pub open spec fn json_subset(expected: JsonModel, actual: JsonModel) -> bool
    decreases expected, 1nat,
{
    match (expected, actual) {
        (JsonModel::Object(e), JsonModel::Object(a)) => members_subset(e, a),
        (JsonModel::Array(e), JsonModel::Array(a)) => e.len() == a.len() && items_subset(e, a),
        _ => expected == actual,
    }
}

/// Whether every expected member has a subset value under its key.
pub open spec fn members_subset(expected: Seq<(Seq<char>, JsonModel)>, actual: Seq<(Seq<char>, JsonModel)>) -> bool
    decreases expected, 0nat,
{
    if expected.len() == 0 {
        true
    } else {
        members_subset(expected.drop_last(), actual) && match member_lookup(
            actual,
            expected.last().0,
        ) {
            Some(v) => json_subset(expected.last().1, v),
            None => false,
        }
    }
}

/// Whether the expected elements are subsets of the actual ones pairwise.
pub open spec fn items_subset(expected: Seq<JsonModel>, actual: Seq<JsonModel>) -> bool
    decreases expected, 0nat,
{
    if expected.len() == 0 {
        true
    } else {
        items_subset(expected.drop_last(), actual) && json_subset(
            expected.last(),
            actual[expected.len() - 1],
        )
    }
}

/// Whether `expected` is a recursive subset of `actual`.
pub fn is_json_subset(expected: &JsonValue, actual: &JsonValue) -> (subset: bool)
    ensures
        subset == json_subset(expected@, actual@),
    decreases expected, 1nat,
{
    match (expected, actual) {
        (JsonValue::Object(e), JsonValue::Object(a)) => object_subset(e, a),
        (JsonValue::Array(e), JsonValue::Array(a)) => {
            proof {
                lemma_items_view(e@);
                lemma_items_view(a@);
            }
            e.len() == a.len() && array_subset(e, a)
        },
        (JsonValue::Object(_), _) => false,
        (JsonValue::Array(_), _) => false,
        _ => json_equal(expected, actual),
    }
}

fn object_subset(expected: &Vec<(String, JsonValue)>, actual: &Vec<(String, JsonValue)>) -> (subset: bool)
    ensures
        subset == members_subset(members_view(expected@), members_view(actual@)),
    decreases expected@, 0nat,
{
    let ghost e = members_view(expected@);
    let ghost a = members_view(actual@);
    proof {
        lemma_members_view(expected@);
        assert(e.take(0) =~= Seq::<(Seq<char>, JsonModel)>::empty());
    }
    let mut i: usize = 0;
    while i < expected.len()
        invariant
            i <= expected@.len(),
            e == members_view(expected@),
            a == members_view(actual@),
            e.len() == expected@.len(),
            forall|k: int| 0 <= k < expected@.len() ==> #[trigger] e[k] == (
                expected@[k].0@,
                json_view(expected@[k].1),
            ),
            members_subset(e.take(i as int), a),
        decreases expected@.len() - i,
    {
        proof {
            assert(e.take(i + 1).drop_last() =~= e.take(i as int));
            assert(e.take(i + 1).last() == e[i as int]);
        }
        let found = match crate::json_value::find_member(actual, expected[i].0.as_str()) {
            Some(j) => is_json_subset(&expected[i].1, &actual[j].1),
            None => false,
        };
        if !found {
            proof {
                lemma_members_subset_prefix(e, a, i + 1);
            }
            return false;
        }
        i = i + 1;
    }
    proof {
        assert(e.take(expected@.len() as int) =~= e);
    }
    true
}

proof fn lemma_members_subset_prefix(
    expected: Seq<(Seq<char>, JsonModel)>,
    actual: Seq<(Seq<char>, JsonModel)>,
    n: int,
)
    requires
        0 <= n <= expected.len(),
        !members_subset(expected.take(n), actual),
    ensures
        !members_subset(expected, actual),
    decreases expected.len() - n,
{
    if n < expected.len() {
        assert(expected.take(n + 1).drop_last() =~= expected.take(n));
        lemma_members_subset_prefix(expected, actual, n + 1);
    } else {
        assert(expected.take(n) =~= expected);
    }
}

proof fn lemma_items_subset_prefix(expected: Seq<JsonModel>, actual: Seq<JsonModel>, n: int)
    requires
        0 <= n <= expected.len(),
        !items_subset(expected.take(n), actual),
    ensures
        !items_subset(expected, actual),
    decreases expected.len() - n,
{
    if n < expected.len() {
        assert(expected.take(n + 1).drop_last() =~= expected.take(n));
        lemma_items_subset_prefix(expected, actual, n + 1);
    } else {
        assert(expected.take(n) =~= expected);
    }
}

fn array_subset(expected: &Vec<JsonValue>, actual: &Vec<JsonValue>) -> (subset: bool)
    requires
        expected@.len() == actual@.len(),
    ensures
        subset == items_subset(items_view(expected@), items_view(actual@)),
    decreases expected@, 0nat,
{
    let ghost e = items_view(expected@);
    let ghost a = items_view(actual@);
    proof {
        lemma_items_view(expected@);
        lemma_items_view(actual@);
        assert(e.take(0) =~= Seq::<JsonModel>::empty());
    }
    let mut i: usize = 0;
    while i < expected.len()
        invariant
            i <= expected@.len(),
            expected@.len() == actual@.len(),
            e == items_view(expected@),
            a == items_view(actual@),
            e.len() == expected@.len(),
            a.len() == actual@.len(),
            forall|k: int| 0 <= k < expected@.len() ==> #[trigger] e[k] == json_view(expected@[k]),
            forall|k: int| 0 <= k < actual@.len() ==> #[trigger] a[k] == json_view(actual@[k]),
            items_subset(e.take(i as int), a),
        decreases expected@.len() - i,
    {
        proof {
            assert(e.take(i + 1).drop_last() =~= e.take(i as int));
            assert(e.take(i + 1).last() == e[i as int]);
        }
        if !is_json_subset(&expected[i], &actual[i]) {
            proof {
                lemma_items_subset_prefix(e, a, i + 1);
            }
            return false;
        }
        i = i + 1;
    }
    proof {
        assert(e.take(expected@.len() as int) =~= e);
    }
    true
}

/// Whether a fixture entry answers a request: not yet consumed, the same
/// kind and identity, and its match a subset of the request payload.
pub open spec fn entry_matches(
    entry: FixtureEntry,
    index: int,
    consumed: Seq<usize>,
    request: EffectRequest,
) -> bool {
    &&& !consumed.contains(index as usize)
    &&& entry.kind == request.kind
    &&& entry.identity@ == request.identity@
    &&& json_subset(entry.match_request@, request.payload@)
}

/// Positions of the entries answering a request, ascending.
pub open spec fn matching_positions(
    entries: Seq<FixtureEntry>,
    consumed: Seq<usize>,
    request: EffectRequest,
) -> Seq<int>
    decreases entries.len(),
{
    if entries.len() == 0 {
        Seq::empty()
    } else {
        let prior = matching_positions(entries.drop_last(), consumed, request);
        if entry_matches(entries.last(), entries.len() - 1, consumed, request) {
            prior.push(entries.len() - 1)
        } else {
            prior
        }
    }
}

/// Whether an object document has at least one member.
pub open spec fn explicit_match(document: JsonModel) -> bool {
    match document {
        JsonModel::Object(members) => members.len() > 0,
        _ => false,
    }
}

/// Whether a document is an object with at least one member.
fn has_members(document: &JsonValue) -> (explicit: bool)
    ensures
        explicit == explicit_match(document@),
{
    match document {
        JsonValue::Object(members) => {
            proof {
                lemma_members_view(members@);
            }
            members.len() > 0
        },
        _ => false,
    }
}

/// The deterministic synthetic-fixture driver.
pub struct FixtureDriver {
    fixtures: FixtureSet,
    consumed: Vec<usize>,
    calls: Vec<u64>,
}

/// Position of an effect kind in the call counters.
pub open spec fn kind_slot(kind: EffectKind) -> int {
    match kind {
        EffectKind::Model => 0,
        EffectKind::Read => 1,
        EffectKind::Approval => 2,
        EffectKind::Write => 3,
    }
}

fn slot(kind: EffectKind) -> (index: usize)
    ensures
        index == kind_slot(kind),
{
    match kind {
        EffectKind::Model => 0,
        EffectKind::Read => 1,
        EffectKind::Approval => 2,
        EffectKind::Write => 3,
    }
}

impl FixtureDriver {
    /// The fixture entries.
    pub closed spec fn entries(&self) -> Seq<FixtureEntry> {
        self.fixtures.entries@
    }

    /// Positions of the entries already resolved.
    pub closed spec fn consumed_positions(&self) -> Seq<usize> {
        self.consumed@
    }

    /// Invocations counted for a kind of effect.
    pub closed spec fn calls_of(&self, kind: EffectKind) -> u64 {
        self.calls@[kind_slot(kind)]
    }

    /// The driver's counters cover every kind.
    pub closed spec fn wf(&self) -> bool {
        self.calls@.len() == 4
    }

    /// Validates and constructs a fixture driver.
    pub fn new(fixtures: FixtureSet) -> (result: Result<FixtureDriver, DriverError>)
        ensures
            match result {
                Ok(driver) => fixtures.schema_version == 1 && (forall|i: int|
                    0 <= i < fixtures.entries@.len() ==> explicit_match(
                        #[trigger] fixtures.entries@[i].match_request@,
                    )) && driver.wf() && driver.entries() == fixtures.entries@
                    && driver.consumed_positions() == Seq::<usize>::empty() && forall|
                    kind: EffectKind,
                | driver.calls_of(kind) == 0,
                Err(e) => (fixtures.schema_version != 1 && e == DriverError::SchemaMismatch) || (
                fixtures.schema_version == 1 && e == DriverError::LooseFixture && exists|i: int|
                    0 <= i < fixtures.entries@.len() && !explicit_match(
                        #[trigger] fixtures.entries@[i].match_request@,
                    )),
            },
    {
        if fixtures.schema_version != 1 {
            return Err(DriverError::SchemaMismatch);
        }
        let mut i: usize = 0;
        while i < fixtures.entries.len()
            invariant
                i <= fixtures.entries@.len(),
                fixtures.schema_version == 1,
                forall|k: int| 0 <= k < i ==> explicit_match(#[trigger] fixtures.entries@[k].match_request@),
            decreases fixtures.entries@.len() - i,
        {
            let explicit = has_members(&fixtures.entries[i].match_request);
            if !explicit {
                proof {
                    assert(!explicit_match(fixtures.entries@[i as int].match_request@));
                }
                return Err(DriverError::LooseFixture);
            }
            i = i + 1;
        }
        Ok(FixtureDriver { fixtures, consumed: Vec::new(), calls: vec![0, 0, 0, 0] })
    }

    /// Returns the driver invocation count of a kind of effect.
    pub fn call_count(&self, kind: EffectKind) -> (count: u64)
        requires
            self.wf(),
        ensures
            count == self.calls_of(kind),
    {
        self.calls[slot(kind)]
    }

    fn is_consumed(&self, index: usize) -> (consumed: bool)
        ensures
            consumed == self.consumed@.contains(index),
    {
        let mut k: usize = 0;
        while k < self.consumed.len()
            invariant
                k <= self.consumed@.len(),
                forall|j: int| 0 <= j < k ==> self.consumed@[j] != index,
            decreases self.consumed@.len() - k,
        {
            if self.consumed[k] == index {
                proof {
                    assert(self.consumed@[k as int] == index);
                }
                return true;
            }
            k = k + 1;
        }
        false
    }

    fn matching_indices(&self, request: &EffectRequest) -> (indices: Vec<usize>)
        ensures
            indices@.map_values(|i: usize| i as int) == matching_positions(
                self.fixtures.entries@,
                self.consumed@,
                *request,
            ),
    {
        let ghost entries = self.fixtures.entries@;
        let mut indices: Vec<usize> = Vec::new();
        let mut i: usize = 0;
        proof {
            assert(entries.take(0) =~= Seq::<FixtureEntry>::empty());
            assert(indices@.map_values(|i: usize| i as int) =~= Seq::<int>::empty());
        }
        while i < self.fixtures.entries.len()
            invariant
                i <= entries.len(),
                entries == self.fixtures.entries@,
                indices@.map_values(|i: usize| i as int) == matching_positions(
                    entries.take(i as int),
                    self.consumed@,
                    *request,
                ),
            decreases entries.len() - i,
        {
            proof {
                assert(entries.take(i + 1).drop_last() =~= entries.take(i as int));
                assert(entries.take(i + 1).last() == entries[i as int]);
            }
            let entry = &self.fixtures.entries[i];
            let matches = !self.is_consumed(i) && entry.kind == request.kind && str_equal(
                entry.identity.as_str(),
                request.identity.as_str(),
            ) && is_json_subset(&entry.match_request, &request.payload);
            if matches {
                let ghost before = indices@;
                indices.push(i);
                proof {
                    assert(indices@.map_values(|i: usize| i as int) =~= before.map_values(
                        |i: usize| i as int,
                    ).push(i as int));
                }
            }
            i = i + 1;
        }
        proof {
            assert(entries.take(entries.len() as int) =~= entries);
        }
        indices
    }
}

/// The fixture a request previews: the first match, unless another match
/// asks for a different request subset.
pub open spec fn preview_outcome(
    entries: Seq<FixtureEntry>,
    consumed: Seq<usize>,
    request: EffectRequest,
) -> Result<int, DriverError> {
    let positions = matching_positions(entries, consumed, request);
    if positions.len() == 0 {
        Err(DriverError::NoMatchingFixture)
    } else if exists|k: int|
        1 <= k < positions.len() && entries[#[trigger] positions[k]].match_request@
            != entries[positions[0]].match_request@ {
        Err(DriverError::AmbiguousFixture)
    } else {
        Ok(positions[0])
    }
}

/// Whether every actual usage stays within the maximum of its name (a
/// missing maximum is zero).
pub open spec fn usage_within(actual: Seq<(String, u64)>, maximum: Seq<(String, u64)>) -> bool {
    forall|i: int|
        0 <= i < actual.len() ==> #[trigger] actual[i].1 <= match lookup(maximum, actual[i].0@) {
            Some(m) => m,
            None => 0,
        }
}

proof fn lemma_positions_in_range(entries: Seq<FixtureEntry>, consumed: Seq<usize>, request: EffectRequest)
    ensures
        forall|k: int|
            0 <= k < matching_positions(entries, consumed, request).len() ==> 0 <= #[trigger] matching_positions(
                entries,
                consumed,
                request,
            )[k] < entries.len(),
    decreases entries.len(),
{
    if entries.len() > 0 {
        let prior = matching_positions(entries.drop_last(), consumed, request);
        lemma_positions_in_range(entries.drop_last(), consumed, request);
        assert forall|k: int| 0 <= k < prior.len() implies 0 <= #[trigger] prior[k] < entries.len() by {
        }
    }
}

/// Whether every actual usage stays within its maximum.
fn usage_fits(actual: &Vec<(String, u64)>, maximum: &Vec<(String, u64)>) -> (fits: bool)
    ensures
        fits == usage_within(actual@, maximum@),
{
    let mut i: usize = 0;
    while i < actual.len()
        invariant
            i <= actual@.len(),
            forall|j: int| 0 <= j < i ==> #[trigger] actual@[j].1 <= match lookup(
                maximum@,
                actual@[j].0@,
            ) {
                Some(m) => m,
                None => 0,
            },
        decreases actual@.len() - i,
    {
        let limit = match find(maximum, actual[i].0.as_str()) {
            Some(m) => {
                proof {
                    lemma_position_bounds(maximum@, actual@[i as int].0@);
                }
                maximum[m].1
            },
            None => 0,
        };
        if actual[i].1 > limit {
            proof {
                assert(!(actual@[i as int].1 <= match lookup(maximum@, actual@[i as int].0@) {
                    Some(m) => m,
                    None => 0,
                }));
            }
            return false;
        }
        i = i + 1;
    }
    true
}

/// Position of `target` among indices.
fn position_in(indices: &Vec<usize>, target: usize) -> (position: Option<usize>)
    ensures
        match position {
            Some(k) => k < indices@.len() && indices@[k as int] == target,
            None => forall|k: int| 0 <= k < indices@.len() ==> indices@[k] != target,
        },
{
    let mut k: usize = 0;
    while k < indices.len()
        invariant
            k <= indices@.len(),
            forall|j: int| 0 <= j < k ==> indices@[j] != target,
        decreases indices@.len() - k,
    {
        if indices[k] == target {
            return Some(k);
        }
        k = k + 1;
    }
    None
}

impl FixtureDriver {
    /// Finds the fixture answering a request without counting an invocation.
    pub fn preview(&self, request: &EffectRequest) -> (result: Result<FixturePreview, DriverError>)
        ensures
            match result {
                Ok(p) => preview_outcome(self.entries(), self.consumed_positions(), *request) == Ok::<
                    int,
                    DriverError,
                >(p.spec_index() as int) && usage_view(p.spec_max_usage()) == usage_view(
                    self.entries()[p.spec_index() as int].max_usage@,
                ),
                Err(e) => preview_outcome(self.entries(), self.consumed_positions(), *request) == Err::<
                    int,
                    DriverError,
                >(e),
            },
    {
        let matches = self.matching_indices(request);
        let ghost positions = matching_positions(self.fixtures.entries@, self.consumed@, *request);
        proof {
            lemma_positions_in_range(self.fixtures.entries@, self.consumed@, *request);
            assert(matches@.len() == positions.len());
            assert(forall|k: int| 0 <= k < matches@.len() ==> matches@[k] as int == #[trigger] positions[k]);
        }
        if matches.len() == 0 {
            return Err(DriverError::NoMatchingFixture);
        }
        let index = matches[0];
        let mut k: usize = 1;
        while k < matches.len()
            invariant
                1 <= k <= matches@.len(),
                matches@.len() == positions.len(),
                positions == matching_positions(self.fixtures.entries@, self.consumed@, *request),
                forall|j: int| 0 <= j < matches@.len() ==> matches@[j] as int == #[trigger] positions[j],
                forall|j: int| 0 <= j < positions.len() ==> 0 <= #[trigger] positions[j] < self.fixtures.entries@.len(),
                index == matches@[0],
                forall|j: int|
                    1 <= j < k ==> self.fixtures.entries@[#[trigger] positions[j]].match_request@
                        == self.fixtures.entries@[positions[0]].match_request@,
            decreases matches@.len() - k,
        {
            if !json_equal(
                &self.fixtures.entries[matches[k]].match_request,
                &self.fixtures.entries[index].match_request,
            ) {
                proof {
                    assert(self.fixtures.entries@[positions[k as int]].match_request@
                        != self.fixtures.entries@[positions[0]].match_request@);
                }
                return Err(DriverError::AmbiguousFixture);
            }
            k = k + 1;
        }
        let max_usage = clone_usage(&self.fixtures.entries[index].max_usage);
        Ok(FixturePreview { index, max_usage })
    }

    /// Resolves an admitted request with the previewed fixture and counts
    /// the invocation.
    pub fn resolve(&mut self, request: &EffectRequest, preview: &FixturePreview) -> (result: Result<
        EffectResolution,
        DriverError,
    >)
        requires
            old(self).wf(),
        ensures
            final(self).wf(),
            final(self).entries() == old(self).entries(),
            !matching_positions(old(self).entries(), old(self).consumed_positions(), *request).contains(
                preview.spec_index() as int,
            ) ==> result == Err::<EffectResolution, DriverError>(DriverError::PreviewMismatch)
                && *final(self) == *old(self),
            matching_positions(old(self).entries(), old(self).consumed_positions(), *request).contains(
                preview.spec_index() as int,
            ) ==> {
                let entry = old(self).entries()[preview.spec_index() as int];
                &&& final(self).consumed_positions() == old(self).consumed_positions().push(
                    preview.spec_index(),
                )
                &&& final(self).calls_of(request.kind) == if old(self).calls_of(request.kind)
                    == u64::MAX {
                    u64::MAX
                } else {
                    (old(self).calls_of(request.kind) + 1) as u64
                }
                &&& forall|kind: EffectKind|
                    kind != request.kind ==> final(self).calls_of(kind) == old(self).calls_of(kind)
                &&& match result {
                    Ok(r) => usage_within(entry.actual_usage@, entry.max_usage@)
                        && r.request_hash@ == request.request_hash@ && r.payload@
                        == entry.response@ && usage_view(r.actual_usage@) == usage_view(
                        entry.actual_usage@,
                    ),
                    Err(e) => e == DriverError::ActualExceedsMaximum && !usage_within(
                        entry.actual_usage@,
                        entry.max_usage@,
                    ),
                }
            },
    {
        let matches = self.matching_indices(request);
        let ghost positions = matching_positions(self.fixtures.entries@, self.consumed@, *request);
        proof {
            lemma_positions_in_range(self.fixtures.entries@, self.consumed@, *request);
            assert(matches@.len() == positions.len());
            assert(forall|k: int| 0 <= k < matches@.len() ==> matches@[k] as int == #[trigger] positions[k]);
        }
        let position = position_in(&matches, preview.index);
        if position.is_none() {
            proof {
                if positions.contains(preview.index as int) {
                    let j = choose|j: int| 0 <= j < positions.len() && positions[j] == preview.index as int;
                    assert(matches@[j] != preview.index);
                }
            }
            return Err(DriverError::PreviewMismatch);
        }
        proof {
            let k = position->Some_0;
            assert(positions[k as int] == preview.index as int);
            assert(positions.contains(preview.index as int));
        }
        let index = preview.index;
        let fits = usage_fits(
            &self.fixtures.entries[index].actual_usage,
            &self.fixtures.entries[index].max_usage,
        );
        self.consumed.push(index);
        let s = slot(request.kind);
        let count = self.calls[s];
        self.calls.set(s, count.saturating_add(1));
        if !fits {
            return Err(DriverError::ActualExceedsMaximum);
        }
        let entry = &self.fixtures.entries[index];
        Ok(
            EffectResolution {
                request_hash: request.request_hash.clone(),
                payload: entry.response.duplicate(),
                actual_usage: clone_usage(&entry.actual_usage),
            },
        )
    }
}

/// Usage entries with their names as texts.
pub open spec fn usage_view(usage: Seq<(String, u64)>) -> Seq<(Seq<char>, u64)> {
    usage.map_values(|e: (String, u64)| (e.0@, e.1))
}

/// A copy of usage entries.
pub fn clone_usage(usage: &Vec<(String, u64)>) -> (copy: Vec<(String, u64)>)
    ensures
        usage_view(copy@) == usage_view(usage@),
{
    let mut copy: Vec<(String, u64)> = Vec::new();
    let mut i: usize = 0;
    while i < usage.len()
        invariant
            i <= usage@.len(),
            copy@.len() == i,
            forall|k: int| 0 <= k < i ==> (#[trigger] copy@[k]).0@ == usage@[k].0@ && copy@[k].1 == usage@[k].1,
        decreases usage@.len() - i,
    {
        copy.push((usage[i].0.clone(), usage[i].1));
        i = i + 1;
    }
    proof {
        assert(usage_view(copy@) =~= usage_view(usage@));
    }
    copy
}

/// Every matching position answers the request.
proof fn lemma_positions_match(entries: Seq<FixtureEntry>, consumed: Seq<usize>, request: EffectRequest)
    ensures
        forall|k: int|
            0 <= k < matching_positions(entries, consumed, request).len() ==> entry_matches(
                entries[#[trigger] matching_positions(entries, consumed, request)[k]],
                matching_positions(entries, consumed, request)[k],
                consumed,
                request,
            ),
    decreases entries.len(),
{
    if entries.len() > 0 {
        let prior = matching_positions(entries.drop_last(), consumed, request);
        lemma_positions_match(entries.drop_last(), consumed, request);
        lemma_positions_in_range(entries.drop_last(), consumed, request);
        assert forall|k: int| 0 <= k < prior.len() implies entries[#[trigger] prior[k]] == entries.drop_last()[prior[k]] by {}
    }
}

/// A fixture, once resolved, never answers a request again: resolution
/// consumes it.
pub proof fn lemma_resolved_fixture_is_consumed(
    entries: Seq<FixtureEntry>,
    consumed: Seq<usize>,
    index: usize,
    request: EffectRequest,
)
    ensures
        !matching_positions(entries, consumed.push(index), request).contains(index as int),
{
    let positions = matching_positions(entries, consumed.push(index), request);
    lemma_positions_match(entries, consumed.push(index), request);
    if positions.contains(index as int) {
        let k = choose|k: int| 0 <= k < positions.len() && positions[k] == index as int;
        assert(entry_matches(entries[positions[k]], positions[k], consumed.push(index), request));
        assert(consumed.push(index)[consumed.len() as int] == index);
        assert(consumed.push(index).contains(index));
    }
}

} // verus!
