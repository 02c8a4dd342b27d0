use vstd::prelude::*;

use crate::json::json_quoted;
use crate::json_value::{
    JsonModel, JsonValue, canonical_text, duplicate_members, json_view, lemma_members_view,
    members_view, write_canonical,
};
use crate::span::utf8_of;
use crate::text::{
    bytes_less, lemma_bytes_less_irreflexive, lemma_bytes_less_total, lemma_bytes_less_transitive,
    lemma_utf8_injective, push_str, str_equal, str_less,
};

verus! {

/// Whether keys strictly increase in byte order, the order of a `BTreeMap<String, _>`.
pub open spec fn keys_ascending(members: Seq<(Seq<char>, Seq<char>)>) -> bool {
    forall|i: int, j: int|
        0 <= i < j < members.len() ==> bytes_less(
            utf8_of(#[trigger] members[i].0),
            utf8_of(#[trigger] members[j].0),
        )
}

/// Canonical JSON of an object whose members are given in key order, each
/// value already canonical JSON: keys as JSON strings, no spacing.
pub open spec fn object_json(members: Seq<(Seq<char>, Seq<char>)>) -> Seq<char> {
    "{"@ + object_body(members) + "}"@
}

/// Members of an object separated by commas.
pub open spec fn object_body(members: Seq<(Seq<char>, Seq<char>)>) -> Seq<char>
    decreases members.len(),
{
    if members.len() == 0 {
        Seq::empty()
    } else if members.len() == 1 {
        json_quoted(members[0].0) + ":"@ + members[0].1
    } else {
        object_body(members.drop_last()) + ","@ + json_quoted(members.last().0) + ":"@
            + members.last().1
    }
}

/// Keys and canonical texts of viewed members.
pub open spec fn member_texts(members: Seq<(Seq<char>, JsonModel)>) -> Seq<(Seq<char>, Seq<char>)> {
    members.map_values(|m: (Seq<char>, JsonModel)| (m.0, canonical_text(m.1)))
}

/// A JSON object whose keys are unique and kept in byte order.
#[derive(Clone, Debug, PartialEq, Eq)]
pub struct JsonObject {
    members: Vec<(String, JsonValue)>,
}

impl JsonObject {
    /// Members in key order, each value by its content.
    pub closed spec fn values(&self) -> Seq<(Seq<char>, JsonModel)> {
        members_view(self.members@)
    }

    /// Members in key order, each value as canonical JSON text.
    pub open spec fn entries(&self) -> Seq<(Seq<char>, Seq<char>)> {
        member_texts(self.values())
    }

    /// Keys are unique and ascending.
    pub open spec fn wf(&self) -> bool {
        keys_ascending(self.entries())
    }

    /// An empty object.
    pub fn new() -> (object: JsonObject)
        ensures
            object.wf(),
            object.values() == Seq::<(Seq<char>, JsonModel)>::empty(),
    {
        let object = JsonObject { members: Vec::new() };
        proof {
            assert(object.values() =~= Seq::<(Seq<char>, JsonModel)>::empty());
            assert(object.entries() =~= Seq::<(Seq<char>, Seq<char>)>::empty());
        }
        object
    }

    /// A copy with the same members.
    pub fn duplicate(&self) -> (copy: JsonObject)
        ensures
            copy.values() == self.values(),
    {
        JsonObject { members: duplicate_members(&self.members) }
    }

    /// Sets `key` to `value`, returning the value it replaced.
    pub fn insert(&mut self, key: &str, value: JsonValue) -> (previous: Option<JsonValue>)
        requires
            old(self).wf(),
        ensures
            final(self).wf(),
            match previous {
                Some(p) => exists|i: int|
                    0 <= i < old(self).values().len() && old(self).values()[i].0 == key@ && p@
                        == old(self).values()[i].1 && final(self).values() == old(
                        self,
                    ).values().update(i, (key@, value@)),
                None => (forall|i: int|
                    0 <= i < old(self).values().len() ==> old(self).values()[i].0 != key@)
                    && exists|p: int|
                    0 <= p <= old(self).values().len() && final(self).values() == old(
                        self,
                    ).values().insert(p, (key@, value@)),
            },
    {
        let ghost before = self.values();
        let ghost texts = self.entries();
        proof {
            lemma_members_view(self.members@);
        }
        let mut i: usize = 0;
        while i < self.members.len() && str_less(self.members[i].0.as_str(), key)
            invariant
                i <= self.members@.len(),
                before == self.values(),
                texts == self.entries(),
                before == members_view(self.members@),
                before.len() == self.members@.len(),
                forall|k: int| 0 <= k < before.len() ==> #[trigger] before[k] == (
                    self.members@[k].0@,
                    json_view(self.members@[k].1),
                ),
                keys_ascending(texts),
                forall|j: int| 0 <= j < i ==> bytes_less(utf8_of(#[trigger] before[j].0), utf8_of(key@)),
            decreases self.members@.len() - i,
        {
            i = i + 1;
        }
        proof {
            assert forall|k: int| 0 <= k < before.len() implies #[trigger] texts[k].0 == before[k].0 by {}
        }
        if i < self.members.len() && str_equal(self.members[i].0.as_str(), key) {
            let existing = self.members[i].0.clone();
            let replaced = self.members[i].1.duplicate();
            self.members.set(i, (existing, value));
            proof {
                lemma_members_view(self.members@);
                assert(self.values() =~= before.update(i as int, (key@, value@)));
                assert(keys_ascending(self.entries())) by {
                    assert forall|a: int, b: int| 0 <= a < b < self.entries().len() implies bytes_less(
                        utf8_of(#[trigger] self.entries()[a].0),
                        utf8_of(#[trigger] self.entries()[b].0),
                    ) by {
                        assert(self.entries()[a].0 == texts[a].0);
                        assert(self.entries()[b].0 == texts[b].0);
                    }
                }
            }
            Some(replaced)
        } else {
            proof {
                assert forall|j: int| 0 <= j < before.len() implies before[j].0 != key@ by {
                    if j < i {
                        lemma_bytes_less_irreflexive(utf8_of(key@));
                    } else {
                        if before[j].0 == key@ {
                            if j > i {
                                assert(texts[i as int].0 == before[i as int].0);
                                assert(texts[j].0 == before[j].0);
                                lemma_bytes_less_transitive(
                                    utf8_of(key@),
                                    utf8_of(before[i as int].0),
                                    utf8_of(before[j].0),
                                );
                                lemma_bytes_less_irreflexive(utf8_of(key@));
                                assert(false);
                            }
                        }
                    }
                }
                if i < before.len() {
                    if utf8_of(before[i as int].0) == utf8_of(key@) {
                        lemma_utf8_injective(before[i as int].0, key@);
                    }
                    lemma_bytes_less_total(utf8_of(before[i as int].0), utf8_of(key@));
                }
            }
            self.members.insert(i, (key.to_owned(), value));
            proof {
                lemma_members_view(self.members@);
                let after = self.values();
                assert(after =~= before.insert(i as int, (key@, value@)));
                let after_texts = self.entries();
                assert(keys_ascending(after_texts)) by {
                    assert forall|a: int, b: int| 0 <= a < b < after_texts.len() implies bytes_less(
                        utf8_of(#[trigger] after_texts[a].0),
                        utf8_of(#[trigger] after_texts[b].0),
                    ) by {
                        assert(after_texts[a].0 == after[a].0);
                        assert(after_texts[b].0 == after[b].0);
                        if b < i {
                            assert(texts[a].0 == before[a].0);
                            assert(texts[b].0 == before[b].0);
                        } else if b == i {
                        } else if a < i {
                            assert(after[b].0 == before[b - 1].0);
                            assert(after[a].0 == before[a].0);
                            assert(texts[a].0 == before[a].0);
                            assert(texts[b - 1].0 == before[b - 1].0);
                        } else if a == i {
                            assert(after[b].0 == before[b - 1].0);
                            if b - 1 > i {
                                assert(texts[i as int].0 == before[i as int].0);
                                assert(texts[b - 1].0 == before[b - 1].0);
                                lemma_bytes_less_transitive(
                                    utf8_of(key@),
                                    utf8_of(before[i as int].0),
                                    utf8_of(before[b - 1].0),
                                );
                            }
                        } else {
                            assert(after[a].0 == before[a - 1].0);
                            assert(after[b].0 == before[b - 1].0);
                            assert(texts[a - 1].0 == before[a - 1].0);
                            assert(texts[b - 1].0 == before[b - 1].0);
                        }
                    }
                }
            }
            None
        }
    }

    /// Returns the value of `key`, if present.
    pub fn get(&self, key: &str) -> (value: Option<&JsonValue>)
        ensures
            match value {
                Some(v) => exists|i: int|
                    0 <= i < self.values().len() && self.values()[i].0 == key@
                        && self.values()[i].1 == v@,
                None => forall|i: int|
                    0 <= i < self.values().len() ==> self.values()[i].0 != key@,
            },
    {
        proof {
            lemma_members_view(self.members@);
        }
        let mut i: usize = 0;
        while i < self.members.len()
            invariant
                i <= self.members@.len(),
                self.values().len() == self.members@.len(),
                forall|k: int| 0 <= k < self.members@.len() ==> #[trigger] self.values()[k] == (
                    self.members@[k].0@,
                    json_view(self.members@[k].1),
                ),
                forall|j: int| 0 <= j < i ==> self.values()[j].0 != key@,
            decreases self.members@.len() - i,
        {
            if str_equal(self.members[i].0.as_str(), key) {
                proof {
                    assert(self.values()[i as int].0 == key@);
                }
                return Some(&self.members[i].1);
            }
            i = i + 1;
        }
        None
    }

    /// Members in key order.
    pub fn members(&self) -> (members: &Vec<(String, JsonValue)>)
        ensures
            members_view(members@) == self.values(),
    {
        &self.members
    }

    /// Appends the canonical JSON of this object.
    pub fn write_json(&self, out: &mut String)
        ensures
            final(out)@ == old(out)@ + object_json(self.entries()),
    {
        let ghost before = out@;
        proof {
            lemma_members_view(self.members@);
        }
        push_str(out, "{");
        let ghost base = out@;
        let mut i: usize = 0;
        while i < self.members.len()
            invariant
                i <= self.members@.len(),
                self.values().len() == self.members@.len(),
                forall|k: int| 0 <= k < self.members@.len() ==> #[trigger] self.values()[k] == (
                    self.members@[k].0@,
                    json_view(self.members@[k].1),
                ),
                out@ == base + object_body(self.entries().take(i as int)),
            decreases self.members@.len() - i,
        {
            if i > 0 {
                push_str(out, ",");
            }
            crate::trace::write_json_text(out, self.members[i].0.as_str());
            push_str(out, ":");
            write_canonical(out, &self.members[i].1);
            proof {
                let next = self.entries().take(i + 1);
                assert(next.drop_last() =~= self.entries().take(i as int));
                assert(next.last() == self.entries()[i as int]);
                assert(self.entries()[i as int] == (
                    self.members@[i as int].0@,
                    canonical_text(json_view(self.members@[i as int].1)),
                ));
                assert(out@ =~= base + object_body(next));
            }
            i = i + 1;
        }
        push_str(out, "}");
        proof {
            assert(self.entries().take(self.entries().len() as int) =~= self.entries());
            assert(out@ =~= before + object_json(self.entries()));
        }
    }
}

} // verus!
