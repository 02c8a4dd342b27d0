use vstd::prelude::*;

use crate::span::utf8_of;
use crate::text::{
    bytes_less, lemma_bytes_less_irreflexive, lemma_bytes_less_total, lemma_bytes_less_transitive,
    lemma_utf8_injective,
};

verus! {

/// The key order of a `BTreeMap<String, _>`: byte order of the UTF-8 text.
pub open spec fn key_less(a: Seq<char>, b: Seq<char>) -> bool {
    bytes_less(utf8_of(a), utf8_of(b))
}

/// Members after filing `value` under `key` as a `BTreeMap` files it: the
/// member with that key is replaced, otherwise the member goes before the
/// first larger key.
pub open spec fn model_insert<M>(members: Seq<(Seq<char>, M)>, key: Seq<char>, value: M) -> Seq<
    (Seq<char>, M),
>
    decreases members.len(),
{
    if members.len() == 0 {
        seq![(key, value)]
    } else if key_less(members[0].0, key) {
        seq![members[0]] + model_insert(members.drop_first(), key, value)
    } else if members[0].0 == key {
        seq![(key, value)] + members.drop_first()
    } else {
        seq![(key, value)] + members
    }
}

/// Filing a member where the scan for its key stops.
pub proof fn lemma_model_insert_at<M>(
    members: Seq<(Seq<char>, M)>,
    key: Seq<char>,
    value: M,
    i: int,
)
    requires
        0 <= i <= members.len(),
        forall|j: int| 0 <= j < i ==> key_less(#[trigger] members[j].0, key),
        i < members.len() ==> !key_less(members[i].0, key),
    ensures
        model_insert(members, key, value) == if i < members.len() && members[i].0 == key {
            members.update(i, (key, value))
        } else {
            members.insert(i, (key, value))
        },
    decreases i,
{
    if i == 0 {
        if members.len() == 0 {
            assert(members.insert(0, (key, value)) =~= seq![(key, value)]);
        } else if members[0].0 == key {
            assert(members.update(0, (key, value)) =~= seq![(key, value)] + members.drop_first());
        } else {
            assert(members.insert(0, (key, value)) =~= seq![(key, value)] + members);
        }
    } else {
        let rest = members.drop_first();
        assert forall|j: int| 0 <= j < i - 1 implies key_less(#[trigger] rest[j].0, key) by {
            assert(rest[j] == members[j + 1]);
        }
        lemma_model_insert_at(rest, key, value, i - 1);
        if i < members.len() && members[i].0 == key {
            assert(members.update(i, (key, value)) =~= seq![members[0]] + rest.update(
                i - 1,
                (key, value),
            ));
        } else {
            assert(members.insert(i, (key, value)) =~= seq![members[0]] + rest.insert(
                i - 1,
                (key, value),
            ));
        }
    }
}

/// Members collected into a `BTreeMap` one after another: later members
/// with an earlier key replace it.
pub open spec fn model_collect<M>(members: Seq<(Seq<char>, M)>) -> Seq<(Seq<char>, M)>
    decreases members.len(),
{
    if members.len() == 0 {
        Seq::empty()
    } else {
        model_insert(model_collect(members.drop_last()), members.last().0, members.last().1)
    }
}

/// Value of the first member filed under `key`, if any.
pub open spec fn model_lookup<M>(members: Seq<(Seq<char>, M)>, key: Seq<char>) -> Option<M>
    decreases members.len(),
{
    if members.len() == 0 {
        None
    } else if members[0].0 == key {
        Some(members[0].1)
    } else {
        model_lookup(members.drop_first(), key)
    }
}

/// Keys strictly increase along the members.
pub open spec fn keys_ascending_model<M>(members: Seq<(Seq<char>, M)>) -> bool {
    forall|i: int, j: int|
        0 <= i < j < members.len() ==> key_less(#[trigger] members[i].0, #[trigger] members[j].0)
}

/// No two members share a key.
pub open spec fn keys_distinct<M>(members: Seq<(Seq<char>, M)>) -> bool {
    forall|i: int, j: int| 0 <= i < j < members.len() ==> #[trigger] members[i].0 != #[trigger] members[j].0
}

/// Key order is irreflexive.
pub proof fn lemma_key_less_irreflexive(a: Seq<char>)
    ensures
        !key_less(a, a),
{
    lemma_bytes_less_irreflexive(utf8_of(a));
}

/// Key order is transitive.
pub proof fn lemma_key_less_transitive(a: Seq<char>, b: Seq<char>, c: Seq<char>)
    requires
        key_less(a, b),
        key_less(b, c),
    ensures
        key_less(a, c),
{
    lemma_bytes_less_transitive(utf8_of(a), utf8_of(b), utf8_of(c));
}

/// Distinct keys are ordered one way or the other.
pub proof fn lemma_key_less_total(a: Seq<char>, b: Seq<char>)
    requires
        a != b,
    ensures
        key_less(a, b) || key_less(b, a),
{
    if utf8_of(a) == utf8_of(b) {
        lemma_utf8_injective(a, b);
    }
    lemma_bytes_less_total(utf8_of(a), utf8_of(b));
}

/// Key order is asymmetric.
pub proof fn lemma_key_less_asymmetric(a: Seq<char>, b: Seq<char>)
    requires
        key_less(a, b),
    ensures
        !key_less(b, a),
{
    if key_less(b, a) {
        lemma_key_less_transitive(a, b, a);
        lemma_key_less_irreflexive(a);
    }
}

/// Where the scan for a key stops: the first member whose key is not less.
pub open spec fn insert_position<M>(members: Seq<(Seq<char>, M)>, key: Seq<char>) -> int
    decreases members.len(),
{
    if members.len() == 0 {
        0
    } else if key_less(members[0].0, key) {
        1 + insert_position(members.drop_first(), key)
    } else {
        0
    }
}

proof fn lemma_insert_position<M>(members: Seq<(Seq<char>, M)>, key: Seq<char>)
    ensures
        0 <= insert_position(members, key) <= members.len(),
        forall|j: int| 0 <= j < insert_position(members, key) ==> key_less(#[trigger] members[j].0, key),
        insert_position(members, key) < members.len() ==> !key_less(
            members[insert_position(members, key)].0,
            key,
        ),
    decreases members.len(),
{
    if members.len() > 0 && key_less(members[0].0, key) {
        let rest = members.drop_first();
        lemma_insert_position(rest, key);
        assert forall|j: int| 0 <= j < insert_position(members, key) implies key_less(
            #[trigger] members[j].0,
            key,
        ) by {
            if j > 0 {
                assert(members[j] == rest[j - 1]);
            }
        }
        if insert_position(members, key) < members.len() {
            assert(members[insert_position(members, key)] == rest[insert_position(rest, key)]);
        }
    }
}

/// Filing a member keeps keys ascending.
pub proof fn lemma_insert_keeps_ascending<M>(members: Seq<(Seq<char>, M)>, key: Seq<char>, value: M)
    requires
        keys_ascending_model(members),
    ensures
        keys_ascending_model(model_insert(members, key, value)),
{
    let p = insert_position(members, key);
    lemma_insert_position(members, key);
    lemma_model_insert_at(members, key, value, p);
    let t = model_insert(members, key, value);
    if p < members.len() && members[p].0 == key {
        assert forall|a: int, b: int| 0 <= a < b < t.len() implies key_less(
            #[trigger] t[a].0,
            #[trigger] t[b].0,
        ) by {
            assert(t[a].0 == members[a].0);
            assert(t[b].0 == members[b].0);
        }
    } else {
        if p < members.len() {
            lemma_key_less_total(members[p].0, key);
        }
        assert forall|a: int, b: int| 0 <= a < b < t.len() implies key_less(
            #[trigger] t[a].0,
            #[trigger] t[b].0,
        ) by {
            if b < p {
                assert(t[a] == members[a] && t[b] == members[b]);
            } else if b == p {
                assert(t[a] == members[a]);
            } else if a < p {
                assert(t[a] == members[a] && t[b] == members[b - 1]);
            } else if a == p {
                assert(t[b] == members[b - 1]);
                if b - 1 > p {
                    lemma_key_less_transitive(key, members[p].0, members[b - 1].0);
                }
            } else {
                assert(t[a] == members[a - 1] && t[b] == members[b - 1]);
            }
        }
    }
}

/// Members collected one after another come out with ascending keys.
pub proof fn lemma_collect_ascending<M>(members: Seq<(Seq<char>, M)>)
    ensures
        keys_ascending_model(model_collect(members)),
    decreases members.len(),
{
    if members.len() > 0 {
        lemma_collect_ascending(members.drop_last());
        lemma_insert_keeps_ascending(
            model_collect(members.drop_last()),
            members.last().0,
            members.last().1,
        );
    }
}

/// What filing a member holds: the member, and every earlier member under
/// another key.
pub proof fn lemma_insert_contents<M>(members: Seq<(Seq<char>, M)>, key: Seq<char>, value: M)
    requires
        keys_ascending_model(members),
    ensures
        forall|x: (Seq<char>, M)|
            #[trigger] model_insert(members, key, value).contains(x) <==> (x == (key, value) || (
            members.contains(x) && x.0 != key)),
{
    let p = insert_position(members, key);
    lemma_insert_position(members, key);
    lemma_model_insert_at(members, key, value, p);
    let t = model_insert(members, key, value);
    if p < members.len() && members[p].0 == key {
        assert forall|x: (Seq<char>, M)| #[trigger] t.contains(x) <==> (x == (key, value) || (
        members.contains(x) && x.0 != key)) by {
            if t.contains(x) {
                let i = choose|i: int| 0 <= i < t.len() && t[i] == x;
                if i != p {
                    assert(members[i] == x);
                    if i < p {
                        assert(key_less(members[i].0, members[p].0));
                        lemma_key_less_irreflexive(key);
                    } else {
                        assert(key_less(members[p].0, members[i].0));
                        lemma_key_less_irreflexive(key);
                    }
                }
            }
            if x == (key, value) {
                assert(t[p] == x);
            } else if members.contains(x) && x.0 != key {
                let i = choose|i: int| 0 <= i < members.len() && members[i] == x;
                assert(i != p);
                assert(t[i] == x);
            }
        }
    } else {
        if p < members.len() {
            lemma_key_less_total(members[p].0, key);
        }
        assert forall|x: (Seq<char>, M)| #[trigger] t.contains(x) <==> (x == (key, value) || (
        members.contains(x) && x.0 != key)) by {
            if t.contains(x) {
                let i = choose|i: int| 0 <= i < t.len() && t[i] == x;
                if i < p {
                    assert(t[i] == members[i]);
                    lemma_key_less_irreflexive(key);
                } else if i > p {
                    assert(t[i] == members[i - 1]);
                    if members[i - 1].0 == key {
                        if i - 1 > p {
                            lemma_key_less_transitive(key, members[p].0, members[i - 1].0);
                        }
                        lemma_key_less_irreflexive(key);
                    }
                }
            }
            if x == (key, value) {
                assert(t[p] == x);
            } else if members.contains(x) && x.0 != key {
                let i = choose|i: int| 0 <= i < members.len() && members[i] == x;
                if i < p {
                    assert(t[i] == x);
                } else {
                    assert(t[i + 1] == x);
                }
            }
        }
    }
}

/// Collecting members with distinct keys keeps exactly those members.
pub proof fn lemma_collect_contents<M>(members: Seq<(Seq<char>, M)>)
    requires
        keys_distinct(members),
    ensures
        forall|x: (Seq<char>, M)| #[trigger] model_collect(members).contains(x) <==> members.contains(x),
    decreases members.len(),
{
    if members.len() == 0 {
        assert forall|x: (Seq<char>, M)| #[trigger] model_collect(members).contains(x) <==> members.contains(x) by {}
    } else {
        let rest = members.drop_last();
        let last = members.last();
        assert(keys_distinct(rest)) by {
            assert forall|i: int, j: int| 0 <= i < j < rest.len() implies #[trigger] rest[i].0 != #[trigger] rest[j].0 by {
                assert(rest[i] == members[i] && rest[j] == members[j]);
            }
        }
        lemma_collect_contents(rest);
        lemma_collect_ascending(rest);
        lemma_insert_contents(model_collect(rest), last.0, last.1);
        assert forall|x: (Seq<char>, M)| #[trigger] model_collect(members).contains(x) <==> members.contains(x) by {
            if rest.contains(x) {
                let i = choose|i: int| 0 <= i < rest.len() && rest[i] == x;
                assert(members[i] == x);
                assert(members[i].0 != members[members.len() - 1].0);
            }
            if members.contains(x) {
                let i = choose|i: int| 0 <= i < members.len() && members[i] == x;
                if i < members.len() - 1 {
                    assert(rest[i] == x);
                }
            }
        }
    }
}

/// Two member sequences with ascending keys and the same members are equal.
pub proof fn lemma_ascending_unique<M>(a: Seq<(Seq<char>, M)>, b: Seq<(Seq<char>, M)>)
    requires
        keys_ascending_model(a),
        keys_ascending_model(b),
        forall|x: (Seq<char>, M)| a.contains(x) <==> b.contains(x),
    ensures
        a == b,
    decreases a.len() + b.len(),
{
    if a.len() == 0 {
        if b.len() > 0 {
            assert(b.contains(b[0]));
        }
        assert(a =~= b);
    } else if b.len() == 0 {
        assert(a.contains(a[0]));
    } else {
        assert(a.contains(a[0]));
        assert(b.contains(b[0]));
        let j = choose|j: int| 0 <= j < b.len() && b[j] == a[0];
        let i = choose|i: int| 0 <= i < a.len() && a[i] == b[0];
        if j > 0 {
            assert(key_less(b[0].0, b[j].0));
            if i > 0 {
                assert(key_less(a[0].0, a[i].0));
                lemma_key_less_asymmetric(a[0].0, a[i].0);
            } else {
                lemma_key_less_irreflexive(a[0].0);
            }
        }
        assert(a[0] == b[0]);
        let ra = a.drop_first();
        let rb = b.drop_first();
        assert forall|x: (Seq<char>, M)| ra.contains(x) <==> rb.contains(x) by {
            if ra.contains(x) {
                let k = choose|k: int| 0 <= k < ra.len() && ra[k] == x;
                assert(a[k + 1] == x);
                assert(key_less(a[0].0, a[k + 1].0));
                assert(b.contains(x));
                let m = choose|m: int| 0 <= m < b.len() && b[m] == x;
                if m == 0 {
                    lemma_key_less_irreflexive(a[0].0);
                }
                assert(rb[m - 1] == x);
            }
            if rb.contains(x) {
                let k = choose|k: int| 0 <= k < rb.len() && rb[k] == x;
                assert(b[k + 1] == x);
                assert(key_less(b[0].0, b[k + 1].0));
                assert(a.contains(x));
                let m = choose|m: int| 0 <= m < a.len() && a[m] == x;
                if m == 0 {
                    lemma_key_less_irreflexive(b[0].0);
                }
                assert(ra[m - 1] == x);
            }
        }
        assert forall|p: int, q: int| 0 <= p < q < ra.len() implies key_less(
            #[trigger] ra[p].0,
            #[trigger] ra[q].0,
        ) by {
            assert(ra[p] == a[p + 1] && ra[q] == a[q + 1]);
        }
        assert forall|p: int, q: int| 0 <= p < q < rb.len() implies key_less(
            #[trigger] rb[p].0,
            #[trigger] rb[q].0,
        ) by {
            assert(rb[p] == b[p + 1] && rb[q] == b[q + 1]);
        }
        lemma_ascending_unique(ra, rb);
        assert(a =~= b) by {
            assert forall|k: int| 0 <= k < a.len() implies a[k] == b[k] by {
                if k > 0 {
                    assert(a[k] == ra[k - 1] && b[k] == rb[k - 1]);
                }
            }
        }
    }
}

} // verus!
