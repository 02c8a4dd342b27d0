use vstd::prelude::*;

use crate::json::json_quoted;
use crate::text::{push_signed_decimal, push_str, signed_decimal, str_equal, str_less};
use crate::trace::write_json_text;
use crate::ordered::{
    key_less, keys_distinct, lemma_ascending_unique, lemma_collect_ascending, lemma_collect_contents,
    lemma_model_insert_at, model_collect, model_insert,
};
use crate::digest::{hex_text, sha256_hex, sha256_of};
use crate::span::utf8_of;

verus! {

/// A JSON document as the runtime boundary carries it: numbers that are
/// 64-bit signed integers are held as such, every other number keeps the
/// spelling it arrived with, and object members keep their order.
#[derive(Debug, PartialEq, Eq)]
pub enum JsonValue {
    Null,
    Bool(bool),
    Int(i64),
    OtherNumber(String),
    String(String),
    Array(Vec<JsonValue>),
    Object(Vec<(String, JsonValue)>),
}

/// The mathematical content of a JSON document.
pub enum JsonModel {
    Null,
    Bool(bool),
    Int(i64),
    OtherNumber(Seq<char>),
    Text(Seq<char>),
    Array(Seq<JsonModel>),
    Object(Seq<(Seq<char>, JsonModel)>),
}

/// The content of a document.
pub open spec fn json_view(value: JsonValue) -> JsonModel
    decreases value, 1nat,
{
    match value {
        JsonValue::Null => JsonModel::Null,
        JsonValue::Bool(b) => JsonModel::Bool(b),
        JsonValue::Int(n) => JsonModel::Int(n),
        JsonValue::OtherNumber(t) => JsonModel::OtherNumber(t@),
        JsonValue::String(s) => JsonModel::Text(s@),
        JsonValue::Array(items) => JsonModel::Array(items_view(items@)),
        JsonValue::Object(members) => JsonModel::Object(members_view(members@)),
    }
}

/// The contents of a sequence of documents.
pub open spec fn items_view(items: Seq<JsonValue>) -> Seq<JsonModel>
    decreases items, 0nat,
{
    if items.len() == 0 {
        Seq::empty()
    } else {
        items_view(items.drop_last()).push(json_view(items.last()))
    }
}

/// The contents of object members.
pub open spec fn members_view(members: Seq<(String, JsonValue)>) -> Seq<(Seq<char>, JsonModel)>
    decreases members, 0nat,
{
    if members.len() == 0 {
        Seq::empty()
    } else {
        members_view(members.drop_last()).push(
            (members.last().0@, json_view(members.last().1)),
        )
    }
}

impl View for JsonValue {
    type V = JsonModel;

    open spec fn view(&self) -> JsonModel {
        json_view(*self)
    }
}

/// The canonical JSON text of a document: no spacing, strings escaped as
/// serde_json escapes them, members in the order held.
pub open spec fn canonical_text(model: JsonModel) -> Seq<char>
    decreases model, 1nat,
{
    match model {
        JsonModel::Null => "null"@,
        JsonModel::Bool(b) => if b {
            "true"@
        } else {
            "false"@
        },
        JsonModel::Int(n) => signed_decimal(n as int),
        JsonModel::OtherNumber(t) => t,
        JsonModel::Text(s) => json_quoted(s),
        JsonModel::Array(items) => "["@ + items_text(items) + "]"@,
        JsonModel::Object(members) => "{"@ + members_text(members) + "}"@,
    }
}

/// Canonical texts of documents separated by commas.
pub open spec fn items_text(items: Seq<JsonModel>) -> Seq<char>
    decreases items, 0nat,
{
    if items.len() == 0 {
        Seq::empty()
    } else if items.len() == 1 {
        canonical_text(items[0])
    } else {
        items_text(items.drop_last()) + ","@ + canonical_text(items.last())
    }
}

/// Canonical texts of members, each a quoted key, a colon and a value,
/// separated by commas.
pub open spec fn members_text(members: Seq<(Seq<char>, JsonModel)>) -> Seq<char>
    decreases members, 0nat,
{
    if members.len() == 0 {
        Seq::empty()
    } else if members.len() == 1 {
        json_quoted(members[0].0) + ":"@ + canonical_text(members[0].1)
    } else {
        members_text(members.drop_last()) + ","@ + json_quoted(members.last().0) + ":"@
            + canonical_text(members.last().1)
    }
}

/// Each element of a viewed sequence is the view of the element.
pub proof fn lemma_items_view(items: Seq<JsonValue>)
    ensures
        items_view(items).len() == items.len(),
        forall|i: int| 0 <= i < items.len() ==> #[trigger] items_view(items)[i] == json_view(items[i]),
    decreases items.len(),
{
    if items.len() > 0 {
        lemma_items_view(items.drop_last());
    }
}

/// Each viewed member is the key's text and the value's view.
pub proof fn lemma_members_view(members: Seq<(String, JsonValue)>)
    ensures
        members_view(members).len() == members.len(),
        forall|i: int|
            0 <= i < members.len() ==> #[trigger] members_view(members)[i] == (
                members[i].0@,
                json_view(members[i].1),
            ),
    decreases members.len(),
{
    if members.len() > 0 {
        lemma_members_view(members.drop_last());
    }
}

/// A viewed prefix is the prefix of the view.
pub proof fn lemma_items_view_take(items: Seq<JsonValue>, n: int)
    requires
        0 <= n <= items.len(),
    ensures
        items_view(items.take(n)) == items_view(items).take(n),
{
    lemma_items_view(items.take(n));
    lemma_items_view(items);
    assert(items_view(items.take(n)) =~= items_view(items).take(n));
}

/// A viewed member prefix is the prefix of the view.
pub proof fn lemma_members_view_take(members: Seq<(String, JsonValue)>, n: int)
    requires
        0 <= n <= members.len(),
    ensures
        members_view(members.take(n)) == members_view(members).take(n),
{
    lemma_members_view(members.take(n));
    lemma_members_view(members);
    assert(members_view(members.take(n)) =~= members_view(members).take(n));
}

impl JsonValue {
    /// A copy with the same content.
    pub fn duplicate(&self) -> (copy: JsonValue)
        ensures
            copy@ == self@,
        decreases self, 1nat,
    {
        match self {
            JsonValue::Null => JsonValue::Null,
            JsonValue::Bool(b) => JsonValue::Bool(*b),
            JsonValue::Int(n) => JsonValue::Int(*n),
            JsonValue::OtherNumber(t) => JsonValue::OtherNumber(t.clone()),
            JsonValue::String(s) => JsonValue::String(s.clone()),
            JsonValue::Array(items) => JsonValue::Array(duplicate_items(items)),
            JsonValue::Object(members) => JsonValue::Object(duplicate_members(members)),
        }
    }
}

impl Clone for JsonValue {
    fn clone(&self) -> (copy: JsonValue)
        ensures
            copy@ == self@,
    {
        self.duplicate()
    }
}

/// Copies of documents with the same contents.
pub fn duplicate_items(items: &Vec<JsonValue>) -> (copy: Vec<JsonValue>)
    ensures
        items_view(copy@) == items_view(items@),
    decreases items@, 0nat,
{
    let mut copy: Vec<JsonValue> = Vec::new();
    let mut i: usize = 0;
    while i < items.len()
        invariant
            i <= items@.len(),
            copy@.len() == i,
            forall|k: int| 0 <= k < i ==> json_view(#[trigger] copy@[k]) == json_view(items@[k]),
        decreases items@.len() - i,
    {
        let element = items[i].duplicate();
        copy.push(element);
        i = i + 1;
    }
    proof {
        lemma_items_view(copy@);
        lemma_items_view(items@);
        assert(items_view(copy@) =~= items_view(items@));
    }
    copy
}

/// Copies of members with the same keys and contents.
pub fn duplicate_members(members: &Vec<(String, JsonValue)>) -> (copy: Vec<(String, JsonValue)>)
    ensures
        members_view(copy@) == members_view(members@),
    decreases members@, 0nat,
{
    let mut copy: Vec<(String, JsonValue)> = Vec::new();
    let mut i: usize = 0;
    while i < members.len()
        invariant
            i <= members@.len(),
            copy@.len() == i,
            forall|k: int|
                0 <= k < i ==> (#[trigger] copy@[k]).0@ == members@[k].0@ && json_view(copy@[k].1)
                    == json_view(members@[k].1),
        decreases members@.len() - i,
    {
        let key = members[i].0.clone();
        let value = members[i].1.duplicate();
        copy.push((key, value));
        i = i + 1;
    }
    proof {
        lemma_members_view(copy@);
        lemma_members_view(members@);
        assert(members_view(copy@) =~= members_view(members@));
    }
    copy
}

/// Appends the canonical JSON text of a document.
pub fn write_canonical(out: &mut String, value: &JsonValue)
    ensures
        final(out)@ == old(out)@ + canonical_text(value@),
    decreases value, 1nat,
{
    match value {
        JsonValue::Null => push_str(out, "null"),
        JsonValue::Bool(b) => {
            if *b {
                push_str(out, "true");
            } else {
                push_str(out, "false");
            }
        },
        JsonValue::Int(n) => push_signed_decimal(out, *n),
        JsonValue::OtherNumber(t) => push_str(out, t.as_str()),
        JsonValue::String(s) => write_json_text(out, s.as_str()),
        JsonValue::Array(items) => {
            let ghost before = out@;
            push_str(out, "[");
            write_items(out, items);
            push_str(out, "]");
            proof {
                assert(out@ =~= before + canonical_text(value@));
            }
        },
        JsonValue::Object(members) => {
            let ghost before = out@;
            push_str(out, "{");
            write_members(out, members);
            push_str(out, "}");
            proof {
                assert(out@ =~= before + canonical_text(value@));
            }
        },
    }
}

/// Appends the canonical texts of documents separated by commas.
fn write_items(out: &mut String, items: &Vec<JsonValue>)
    ensures
        final(out)@ == old(out)@ + items_text(items_view(items@)),
    decreases items@, 0nat,
{
    let ghost base = out@;
    let mut i: usize = 0;
    while i < items.len()
        invariant
            i <= items@.len(),
            out@ == base + items_text(items_view(items@.take(i as int))),
        decreases items@.len() - i,
    {
        let ghost prefix = items@.take(i as int);
        let ghost next = items@.take(i + 1);
        if i > 0 {
            push_str(out, ",");
        }
        write_canonical(out, &items[i]);
        proof {
            assert(next.drop_last() =~= prefix);
            assert(next.last() == items@[i as int]);
            lemma_items_view(next);
            lemma_items_view(prefix);
            let vn = items_view(next);
            assert(vn.drop_last() =~= items_view(prefix));
            if i == 0 {
                assert(items_view(prefix) =~= Seq::<JsonModel>::empty());
                assert(out@ =~= base + items_text(vn));
            } else {
                assert(out@ =~= base + items_text(vn));
            }
        }
        i = i + 1;
    }
    proof {
        assert(items@.take(items@.len() as int) =~= items@);
    }
}

/// Appends the canonical texts of members separated by commas.
fn write_members(out: &mut String, members: &Vec<(String, JsonValue)>)
    ensures
        final(out)@ == old(out)@ + members_text(members_view(members@)),
    decreases members@, 0nat,
{
    let ghost base = out@;
    let mut i: usize = 0;
    while i < members.len()
        invariant
            i <= members@.len(),
            out@ == base + members_text(members_view(members@.take(i as int))),
        decreases members@.len() - i,
    {
        let ghost prefix = members@.take(i as int);
        let ghost next = members@.take(i + 1);
        if i > 0 {
            push_str(out, ",");
        }
        write_json_text(out, members[i].0.as_str());
        push_str(out, ":");
        write_canonical(out, &members[i].1);
        proof {
            assert(next.drop_last() =~= prefix);
            assert(next.last() == members@[i as int]);
            lemma_members_view(next);
            lemma_members_view(prefix);
            let vn = members_view(next);
            assert(vn.drop_last() =~= members_view(prefix));
            if i == 0 {
                assert(members_view(prefix) =~= Seq::<(Seq<char>, JsonModel)>::empty());
                assert(out@ =~= base + members_text(vn));
            } else {
                assert(out@ =~= base + members_text(vn));
            }
        }
        i = i + 1;
    }
    proof {
        assert(members@.take(members@.len() as int) =~= members@);
    }
}

/// The canonical JSON text of a document.
pub fn canonical_json(value: &JsonValue) -> (text: String)
    ensures
        text@ == canonical_text(value@),
{
    let mut out = String::new();
    write_canonical(&mut out, value);
    proof {
        assert(Seq::<char>::empty() + canonical_text(value@) =~= canonical_text(value@));
    }
    out
}

/// Value of the first member filed under `key`, if any.
pub open spec fn member_lookup(members: Seq<(Seq<char>, JsonModel)>, key: Seq<char>) -> Option<
    JsonModel,
>
    decreases members.len(),
{
    if members.len() == 0 {
        None
    } else {
        match member_lookup(members.drop_last(), key) {
            Some(v) => Some(v),
            None => if members.last().0 == key {
                Some(members.last().1)
            } else {
                None
            },
        }
    }
}

/// Index of the first member filed under `key`.
pub fn find_member(members: &Vec<(String, JsonValue)>, key: &str) -> (index: Option<usize>)
    ensures
        match index {
            Some(i) => i < members@.len() && member_lookup(members_view(members@), key@) == Some(
                json_view(members@[i as int].1),
            ),
            None => member_lookup(members_view(members@), key@) is None,
        },
{
    let mut i: usize = 0;
    while i < members.len()
        invariant
            i <= members@.len(),
            member_lookup(members_view(members@.take(i as int)), key@) is None,
        decreases members@.len() - i,
    {
        proof {
            let next = members@.take(i + 1);
            assert(next.drop_last() =~= members@.take(i as int));
            assert(next.last() == members@[i as int]);
            assert(members_view(next).drop_last() =~= members_view(members@.take(i as int)));
        }
        if str_equal(members[i].0.as_str(), key) {
            proof {
                lemma_member_lookup_prefix(members@, key@, i as int);
            }
            return Some(i);
        }
        i = i + 1;
    }
    proof {
        assert(members@.take(members@.len() as int) =~= members@);
    }
    None
}

proof fn lemma_member_lookup_prefix(members: Seq<(String, JsonValue)>, key: Seq<char>, i: int)
    requires
        0 <= i < members.len(),
        member_lookup(members_view(members.take(i)), key) is None,
        members[i].0@ == key,
    ensures
        member_lookup(members_view(members), key) == Some(json_view(members[i].1)),
    decreases members.len(),
{
    assert(members_view(members).drop_last() =~= members_view(members.drop_last()));
    if i < members.len() - 1 {
        assert(members.drop_last().take(i) =~= members.take(i));
        lemma_member_lookup_prefix(members.drop_last(), key, i);
    } else {
        assert(members.drop_last() =~= members.take(i));
    }
}

/// Whether two documents have the same content.
pub fn json_equal(a: &JsonValue, b: &JsonValue) -> (equal: bool)
    ensures
        equal == (a@ == b@),
    decreases a, 1nat,
{
    match (a, b) {
        (JsonValue::Null, JsonValue::Null) => true,
        (JsonValue::Bool(x), JsonValue::Bool(y)) => *x == *y,
        (JsonValue::Int(x), JsonValue::Int(y)) => *x == *y,
        (JsonValue::OtherNumber(x), JsonValue::OtherNumber(y)) => str_equal(x.as_str(), y.as_str()),
        (JsonValue::String(x), JsonValue::String(y)) => str_equal(x.as_str(), y.as_str()),
        (JsonValue::Array(x), JsonValue::Array(y)) => items_equal(x, y),
        (JsonValue::Object(x), JsonValue::Object(y)) => members_equal(x, y),
        _ => false,
    }
}

/// Whether two sequences of documents have the same contents.
pub fn items_equal(a: &Vec<JsonValue>, b: &Vec<JsonValue>) -> (equal: bool)
    ensures
        equal == (items_view(a@) == items_view(b@)),
    decreases a@, 0nat,
{
    proof {
        lemma_items_view(a@);
        lemma_items_view(b@);
    }
    if a.len() != b.len() {
        return false;
    }
    let mut i: usize = 0;
    while i < a.len()
        invariant
            i <= a@.len(),
            a@.len() == b@.len(),
            items_view(a@).len() == a@.len(),
            items_view(b@).len() == b@.len(),
            forall|k: int| 0 <= k < a@.len() ==> #[trigger] items_view(a@)[k] == json_view(a@[k]),
            forall|k: int| 0 <= k < b@.len() ==> #[trigger] items_view(b@)[k] == json_view(b@[k]),
            forall|k: int| 0 <= k < i ==> json_view(#[trigger] a@[k]) == json_view(b@[k]),
        decreases a@.len() - i,
    {
        if !json_equal(&a[i], &b[i]) {
            proof {
                assert(items_view(a@)[i as int] != items_view(b@)[i as int]);
            }
            return false;
        }
        i = i + 1;
    }
    proof {
        assert(items_view(a@) =~= items_view(b@));
    }
    true
}

/// Whether two member sequences have the same keys and contents.
pub fn members_equal(a: &Vec<(String, JsonValue)>, b: &Vec<(String, JsonValue)>) -> (equal: bool)
    ensures
        equal == (members_view(a@) == members_view(b@)),
    decreases a@, 0nat,
{
    proof {
        lemma_members_view(a@);
        lemma_members_view(b@);
    }
    if a.len() != b.len() {
        return false;
    }
    let mut i: usize = 0;
    while i < a.len()
        invariant
            i <= a@.len(),
            a@.len() == b@.len(),
            members_view(a@).len() == a@.len(),
            members_view(b@).len() == b@.len(),
            forall|k: int|
                0 <= k < a@.len() ==> #[trigger] members_view(a@)[k] == (a@[k].0@, json_view(a@[k].1)),
            forall|k: int|
                0 <= k < b@.len() ==> #[trigger] members_view(b@)[k] == (b@[k].0@, json_view(b@[k].1)),
            forall|k: int| 0 <= k < i ==> #[trigger] members_view(a@)[k] == members_view(b@)[k],
        decreases a@.len() - i,
    {
        if !str_equal(a[i].0.as_str(), b[i].0.as_str()) || !json_equal(&a[i].1, &b[i].1) {
            proof {
                assert(members_view(a@)[i as int] != members_view(b@)[i as int]);
            }
            return false;
        }
        i = i + 1;
    }
    proof {
        assert(members_view(a@) =~= members_view(b@));
    }
    true
}

/// Files `value` under `key` in JSON object members, as a `BTreeMap` files it.
pub fn json_member_insert(members: &mut Vec<(String, JsonValue)>, key: String, value: JsonValue)
    ensures
        members_view(final(members)@) == model_insert(members_view(old(members)@), key@, value@),
{
    let ghost before = members_view(members@);
    proof {
        lemma_members_view(members@);
    }
    let mut i: usize = 0;
    while i < members.len() && str_less(members[i].0.as_str(), key.as_str())
        invariant
            i <= members@.len(),
            members@ == old(members)@,
            before == members_view(members@),
            before.len() == members@.len(),
            forall|k: int|
                0 <= k < members@.len() ==> #[trigger] before[k] == (
                    members@[k].0@,
                    json_view(members@[k].1),
                ),
            forall|j: int| 0 <= j < i ==> key_less(#[trigger] before[j].0, key@),
        decreases members@.len() - i,
    {
        i = i + 1;
    }
    proof {
        lemma_model_insert_at(before, key@, value@, i as int);
    }
    if i < members.len() && str_equal(members[i].0.as_str(), key.as_str()) {
        members.set(i, (key, value));
        proof {
            lemma_members_view(members@);
            assert(members_view(members@) =~= before.update(i as int, (key@, value@)));
        }
    } else {
        members.insert(i, (key, value));
        proof {
            lemma_members_view(members@);
            assert(members_view(members@) =~= before.insert(i as int, (key@, value@)));
        }
    }
}

/// A document with the members of every object collected into key order, as
/// a `BTreeMap` collects them: a later member replaces an earlier one with
/// the same key.
pub open spec fn canonicalize(document: JsonModel) -> JsonModel
    decreases document, 1nat,
{
    match document {
        JsonModel::Array(items) => JsonModel::Array(canonical_items(items)),
        JsonModel::Object(members) => JsonModel::Object(model_collect(canonical_members(members))),
        _ => document,
    }
}

/// Documents canonicalized in order.
pub open spec fn canonical_items(items: Seq<JsonModel>) -> Seq<JsonModel>
    decreases items, 0nat,
{
    if items.len() == 0 {
        Seq::empty()
    } else {
        canonical_items(items.drop_last()).push(canonicalize(items.last()))
    }
}

/// Members with canonicalized values, in order.
pub open spec fn canonical_members(members: Seq<(Seq<char>, JsonModel)>) -> Seq<(Seq<char>, JsonModel)>
    decreases members, 0nat,
{
    if members.len() == 0 {
        Seq::empty()
    } else {
        canonical_members(members.drop_last()).push(
            (members.last().0, canonicalize(members.last().1)),
        )
    }
}

/// The canonical form of a document.
pub fn canonicalize_json(document: &JsonValue) -> (canonical: JsonValue)
    ensures
        canonical@ == canonicalize(document@),
    decreases document, 1nat,
{
    match document {
        JsonValue::Array(items) => JsonValue::Array(canonicalize_items(items)),
        JsonValue::Object(members) => JsonValue::Object(canonicalize_members(members)),
        _ => document.duplicate(),
    }
}

fn canonicalize_items(items: &Vec<JsonValue>) -> (out: Vec<JsonValue>)
    ensures
        items_view(out@) == canonical_items(items_view(items@)),
    decreases items@, 0nat,
{
    let mut out: Vec<JsonValue> = Vec::new();
    let mut i: usize = 0;
    proof {
        assert(items_view(out@) =~= Seq::<JsonModel>::empty());
        assert(items_view(items@).take(0) =~= Seq::<JsonModel>::empty());
        lemma_items_view(items@);
    }
    while i < items.len()
        invariant
            i <= items@.len(),
            items_view(items@).len() == items@.len(),
            forall|k: int| 0 <= k < items@.len() ==> #[trigger] items_view(items@)[k] == json_view(items@[k]),
            items_view(out@) == canonical_items(items_view(items@).take(i as int)),
        decreases items@.len() - i,
    {
        let c = canonicalize_json(&items[i]);
        let ghost before = out@;
        out.push(c);
        proof {
            let v = items_view(items@);
            assert(v.take(i + 1).drop_last() =~= v.take(i as int));
            assert(v.take(i + 1).last() == json_view(items@[i as int]));
            assert(out@.drop_last() =~= before);
        }
        i = i + 1;
    }
    proof {
        assert(items_view(items@).take(items@.len() as int) =~= items_view(items@));
    }
    out
}

fn canonicalize_members(members: &Vec<(String, JsonValue)>) -> (out: Vec<(String, JsonValue)>)
    ensures
        members_view(out@) == model_collect(canonical_members(members_view(members@))),
    decreases members@, 0nat,
{
    let mut out: Vec<(String, JsonValue)> = Vec::new();
    let mut i: usize = 0;
    let ghost canon = canonical_members(members_view(members@));
    proof {
        assert(members_view(out@) =~= Seq::<(Seq<char>, JsonModel)>::empty());
        lemma_members_view(members@);
        lemma_canonical_members(members_view(members@));
        assert(canon.take(0) =~= Seq::<(Seq<char>, JsonModel)>::empty());
    }
    while i < members.len()
        invariant
            i <= members@.len(),
            canon == canonical_members(members_view(members@)),
            canon.len() == members@.len(),
            forall|k: int| 0 <= k < members@.len() ==> #[trigger] canon[k] == (
                members@[k].0@,
                canonicalize(json_view(members@[k].1)),
            ),
            members_view(out@) == model_collect(canon.take(i as int)),
        decreases members@.len() - i,
    {
        let c = canonicalize_json(&members[i].1);
        json_member_insert(&mut out, members[i].0.clone(), c);
        proof {
            assert(canon.take(i + 1).drop_last() =~= canon.take(i as int));
            assert(canon.take(i + 1).last() == canon[i as int]);
        }
        i = i + 1;
    }
    proof {
        assert(canon.take(members@.len() as int) =~= canon);
    }
    out
}

/// Each canonicalized member keeps its key and canonicalizes its value.
pub proof fn lemma_canonical_members(members: Seq<(Seq<char>, JsonModel)>)
    ensures
        canonical_members(members).len() == members.len(),
        forall|i: int|
            0 <= i < members.len() ==> #[trigger] canonical_members(members)[i] == (
                members[i].0,
                canonicalize(members[i].1),
            ),
    decreases members.len(),
{
    if members.len() > 0 {
        lemma_canonical_members(members.drop_last());
    }
}

/// Lower-case hexadecimal SHA-256 of a document's canonical JSON: object
/// keys sorted at every depth, no spacing.
pub open spec fn canonical_digest(document: JsonModel) -> Seq<char> {
    hex_text(sha256_of(utf8_of(canonical_text(canonicalize(document)))))
}

/// Hashes a document through its canonical JSON.
pub fn canonical_sha256(document: &JsonValue) -> (digest: String)
    ensures
        digest@ == canonical_digest(document@),
{
    let canonical = canonicalize_json(document);
    let text = canonical_json(&canonical);
    sha256_hex(text.as_str())
}

/// Canonical members of an object with distinct keys are its members with
/// canonical values, keys still distinct.
proof fn lemma_canonical_members_contents(members: Seq<(Seq<char>, JsonModel)>)
    requires
        keys_distinct(members),
    ensures
        keys_distinct(canonical_members(members)),
        forall|x: (Seq<char>, JsonModel)|
            #[trigger] canonical_members(members).contains(x) <==> exists|i: int|
                0 <= i < members.len() && x == (members[i].0, canonicalize(members[i].1)),
{
    lemma_canonical_members(members);
    let c = canonical_members(members);
    assert forall|x: (Seq<char>, JsonModel)|
        #[trigger] c.contains(x) <==> exists|i: int|
            0 <= i < members.len() && x == (members[i].0, canonicalize(members[i].1)) by {
        if c.contains(x) {
            let i = choose|i: int| 0 <= i < c.len() && c[i] == x;
            assert(x == (members[i].0, canonicalize(members[i].1)));
        }
        if exists|i: int| 0 <= i < members.len() && x == (members[i].0, canonicalize(members[i].1)) {
            let i = choose|i: int|
                0 <= i < members.len() && x == (members[i].0, canonicalize(members[i].1));
            assert(c[i] == x);
        }
    }
    assert forall|i: int, j: int| 0 <= i < j < c.len() implies #[trigger] c[i].0 != #[trigger] c[j].0 by {
        assert(c[i].0 == members[i].0 && c[j].0 == members[j].0);
    }
}

/// The canonical form of an object does not depend on the order in which
/// its members arrive: two objects with distinct keys and the same members
/// have the same canonical form, and so the same canonical digest.
pub proof fn lemma_canonical_form_ignores_member_order(
    first: Seq<(Seq<char>, JsonModel)>,
    second: Seq<(Seq<char>, JsonModel)>,
)
    requires
        keys_distinct(first),
        keys_distinct(second),
        forall|x: (Seq<char>, JsonModel)| first.contains(x) <==> second.contains(x),
    ensures
        canonicalize(JsonModel::Object(first)) == canonicalize(JsonModel::Object(second)),
        canonical_digest(JsonModel::Object(first)) == canonical_digest(JsonModel::Object(second)),
{
    let c1 = canonical_members(first);
    let c2 = canonical_members(second);
    lemma_canonical_members_contents(first);
    lemma_canonical_members_contents(second);
    assert forall|x: (Seq<char>, JsonModel)| c1.contains(x) <==> c2.contains(x) by {
        if c1.contains(x) {
            let i = choose|i: int| 0 <= i < first.len() && x == (first[i].0, canonicalize(first[i].1));
            assert(first.contains(first[i]));
            let j = choose|j: int| 0 <= j < second.len() && second[j] == first[i];
            assert(x == (second[j].0, canonicalize(second[j].1)));
        }
        if c2.contains(x) {
            let i = choose|i: int| 0 <= i < second.len() && x == (second[i].0, canonicalize(second[i].1));
            assert(second.contains(second[i]));
            let j = choose|j: int| 0 <= j < first.len() && first[j] == second[i];
            assert(x == (first[j].0, canonicalize(first[j].1)));
        }
    }
    lemma_collect_contents(c1);
    lemma_collect_contents(c2);
    lemma_collect_ascending(c1);
    lemma_collect_ascending(c2);
    assert forall|x: (Seq<char>, JsonModel)| model_collect(c1).contains(x) <==> model_collect(c2).contains(x) by {
        assert(model_collect(c1).contains(x) <==> c1.contains(x));
        assert(model_collect(c2).contains(x) <==> c2.contains(x));
    }
    lemma_ascending_unique(model_collect(c1), model_collect(c2));
}

} // verus!
