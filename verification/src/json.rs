//! JSON documents as the library handles them.

use vstd::prelude::*;

use crate::text::characters;

verus! {

/// `serde_json::Number`, carried through and never looked into.
#[verifier::external_type_specification]
#[verifier::external_body]
pub struct ExNumber(serde_json::Number);

/// A JSON document. The members of an object are listed in the order in which they are
/// walked, which is ascending by key in a document that is `ordered`.
#[derive(Debug, PartialEq)]
pub enum Json {
    Null,
    Bool(bool),
    Number(serde_json::Number),
    Text(String),
    Array(Vec<Json>),
    Object(Vec<Member>),
}

/// A key of an object with its value.
#[derive(Debug, PartialEq)]
pub struct Member {
    pub key: String,
    pub value: Json,
}

/// What a document says: texts and keys as sequences of characters.
pub enum JsonTree {
    Null,
    Bool(bool),
    Number(serde_json::Number),
    Text(Seq<char>),
    Array(Seq<JsonTree>),
    Object(Seq<(Seq<char>, JsonTree)>),
}

impl Json {
    /// What the document says.
    pub open spec fn tree(self) -> JsonTree
        decreases self,
    {
        match self {
            Json::Null => JsonTree::Null,
            Json::Bool(value) => JsonTree::Bool(value),
            Json::Number(value) => JsonTree::Number(value),
            Json::Text(text) => JsonTree::Text(text@),
            Json::Array(items) => JsonTree::Array(
                Seq::new(
                    items@.len(),
                    |i: int|
                        if 0 <= i < items@.len() {
                            items[i].tree()
                        } else {
                            JsonTree::Null
                        },
                ),
            ),
            Json::Object(members) => JsonTree::Object(
                Seq::new(
                    members@.len(),
                    |i: int|
                        if 0 <= i < members@.len() {
                            (members[i].key@, members[i].value.tree())
                        } else {
                            (Seq::empty(), JsonTree::Null)
                        },
                ),
            ),
        }
    }
}

/// Whether a key comes before another: by the code point of the first character in which
/// they differ, and a key before its own extensions.
pub open spec fn precedes(left: Seq<char>, right: Seq<char>) -> bool
    decreases left.len(),
{
    if right.len() == 0 {
        false
    } else if left.len() == 0 {
        true
    } else if left[0] != right[0] {
        (left[0] as int) < (right[0] as int)
    } else {
        precedes(left.drop_first(), right.drop_first())
    }
}

/// Whether entries are listed by ascending key, no key twice.
pub open spec fn ascending<V>(entries: Seq<(Seq<char>, V)>) -> bool {
    forall|i: int, j: int|
        0 <= i < j < entries.len() ==> precedes(#[trigger] entries[i].0, #[trigger] entries[j].0)
}

/// The number of leading entries whose key comes before `key`.
pub open spec fn slot<V>(entries: Seq<(Seq<char>, V)>, key: Seq<char>) -> nat
    decreases entries.len(),
{
    if entries.len() == 0 || !precedes(entries[0].0, key) {
        0
    } else {
        1 + slot(entries.drop_first(), key)
    }
}

/// Entries with `value` under `key`: in the place of an equal key, or else in order.
pub open spec fn with_entry<V>(entries: Seq<(Seq<char>, V)>, key: Seq<char>, value: V) -> Seq<
    (Seq<char>, V),
> {
    let at = slot(entries, key) as int;
    if at < entries.len() && entries[at].0 == key {
        entries.update(at, (key, value))
    } else {
        entries.insert(at, (key, value))
    }
}

/// The ordered map that results from inserting the entries one after the other.
pub open spec fn collected<V>(entries: Seq<(Seq<char>, V)>) -> Seq<(Seq<char>, V)>
    decreases entries.len(),
{
    if entries.len() == 0 {
        Seq::empty()
    } else {
        with_entry(collected(entries.drop_last()), entries.last().0, entries.last().1)
    }
}

/// The members of an object as keys with the trees of their values.
pub open spec fn entries(members: Seq<Member>) -> Seq<(Seq<char>, JsonTree)> {
    Seq::new(members.len(), |i: int| (members[i].key@, members[i].value.tree()))
}

fn code_point(c: char) -> (code: u32)
    ensures
        code == c as int,
{
    c as u32
}

/// Whether a key comes before another.
fn chars_precede(left: &Vec<char>, right: &Vec<char>) -> (before: bool)
    ensures
        before == precedes(left@, right@),
{
    let mut at: usize = 0;
    assert(left@.skip(0) == left@);
    assert(right@.skip(0) == right@);
    while at < left.len() && at < right.len() && left[at] == right[at]
        invariant
            at <= left@.len(),
            at <= right@.len(),
            precedes(left@, right@) == precedes(left@.skip(at as int), right@.skip(at as int)),
        decreases left@.len() - at,
    {
        assert(left@.skip(at as int).drop_first() == left@.skip(at + 1));
        assert(right@.skip(at as int).drop_first() == right@.skip(at + 1));
        at += 1;
    }
    if at == right.len() {
        false
    } else if at == left.len() {
        true
    } else {
        code_point(left[at]) < code_point(right[at])
    }
}

/// Puts a member where its key belongs, in the place of an equal key if there is one.
pub fn put_member(members: &mut Vec<Member>, key: String, value: Json)
    ensures
        entries(final(members)@) == with_entry(entries(old(members)@), key@, value.tree()),
{
    let wanted: Vec<char> = characters(key.as_str());
    let ghost listed = entries(members@);
    let mut at: usize = 0;
    assert(listed.skip(0) == listed);
    while at < members.len() && chars_precede(
        &characters(members[at].key.as_str()),
        &wanted,
    )
        invariant
            *members == *old(members),
            listed == entries(members@),
            wanted@ == key@,
            at <= members@.len(),
            slot(listed, key@) == at + slot(listed.skip(at as int), key@),
        decreases members@.len() - at,
    {
        assert(listed.skip(at as int)[0] == listed[at as int]);
        assert(listed.skip(at as int).drop_first() == listed.skip(at + 1));
        at += 1;
    }
    assert(at < listed.len() ==> listed.skip(at as int)[0] == listed[at as int]);
    if at < members.len() && members[at].key == key {
        members[at] = Member { key, value };
    } else {
        members.insert(at, Member { key, value });
    }
    assert(entries(members@) =~= with_entry(listed, key@, value.tree()));
}

/// Applies a function to the value of an entry and leaves the key as it is.
pub open spec fn mapped<A, B>(entries: Seq<(Seq<char>, A)>, f: spec_fn(Seq<char>, A) -> B) -> Seq<
    (Seq<char>, B),
> {
    entries.map_values(|entry: (Seq<char>, A)| (entry.0, f(entry.0, entry.1)))
}

proof fn lemma_slot_of_mapped<A, B>(
    entries: Seq<(Seq<char>, A)>,
    key: Seq<char>,
    f: spec_fn(Seq<char>, A) -> B,
)
    ensures
        slot(mapped(entries, f), key) == slot(entries, key),
        slot(entries, key) <= entries.len(),
    decreases entries.len(),
{
    if entries.len() > 0 {
        assert(mapped(entries, f)[0].0 == entries[0].0);
        assert(mapped(entries, f).drop_first() == mapped(entries.drop_first(), f));
        lemma_slot_of_mapped(entries.drop_first(), key, f);
    }
}

/// A key's place lies inside the entries or right behind them.
pub proof fn lemma_slot_is_inside<V>(entries: Seq<(Seq<char>, V)>, key: Seq<char>)
    ensures
        slot(entries, key) <= entries.len(),
    decreases entries.len(),
{
    if entries.len() > 0 {
        lemma_slot_is_inside(entries.drop_first(), key);
    }
}

/// Building an ordered map and then changing its values is the same as changing the values
/// first.
pub proof fn lemma_collected_of_mapped<A, B>(
    entries: Seq<(Seq<char>, A)>,
    f: spec_fn(Seq<char>, A) -> B,
)
    ensures
        collected(mapped(entries, f)) == mapped(collected(entries), f),
    decreases entries.len(),
{
    if entries.len() > 0 {
        let rest = entries.drop_last();
        let last = entries.last();
        lemma_collected_of_mapped(rest, f);
        assert(mapped(entries, f).drop_last() == mapped(rest, f));
        lemma_slot_of_mapped(collected(rest), last.0, f);
        let at = slot(collected(rest), last.0) as int;
        assert(at < collected(rest).len() ==> mapped(collected(rest), f)[at].0 == collected(
            rest,
        )[at].0);
        assert(collected(mapped(entries, f)) =~= mapped(collected(entries), f));
    } else {
        assert(collected(mapped(entries, f)) =~= mapped(collected(entries), f));
    }
}

/// An ordered map holds nothing but the entries that it was built from.
pub proof fn lemma_collected_holds_only_entries<V>(entries: Seq<(Seq<char>, V)>, j: int)
    requires
        0 <= j < collected(entries).len(),
    ensures
        entries.contains(collected(entries)[j]),
    decreases entries.len(),
{
    if entries.len() > 0 {
        let rest = entries.drop_last();
        let last = entries.last();
        lemma_slot_is_inside(collected(rest), last.0);
        let at = slot(collected(rest), last.0) as int;
        assert(entries[entries.len() - 1] == last);
        if collected(entries)[j] != last {
            let k = if at < collected(rest).len() && collected(rest)[at].0 == last.0 || j < at {
                j
            } else {
                j - 1
            };
            assert(collected(rest)[k] == collected(entries)[j]);
            lemma_collected_holds_only_entries(rest, k);
            let i = choose|i: int| 0 <= i < rest.len() && rest[i] == collected(rest)[k];
            assert(entries[i] == rest[i]);
        }
    }
}

/// Keys are in a strict total order: no key comes before itself, of two different keys
/// exactly one comes first, and coming first carries over.
pub proof fn law_keys_are_totally_ordered(a: Seq<char>, b: Seq<char>, c: Seq<char>)
    ensures
        !precedes(a, a),
        a != b ==> precedes(a, b) != precedes(b, a),
        precedes(a, b) && precedes(b, c) ==> precedes(a, c),
    decreases a.len(),
{
    if a.len() == 0 {
        assert(b.len() == 0 ==> a =~= b);
    } else {
        law_keys_are_totally_ordered(a.drop_first(), b.drop_first(), c.drop_first());
        if b.len() > 0 && a[0] == b[0] && a.drop_first() == b.drop_first() {
            assert(a =~= b) by {
                assert forall|i: int| 0 < i < a.len() implies a[i] == b[i] by {
                    assert(a[i] == a.drop_first()[i - 1]);
                    assert(b[i] == b.drop_first()[i - 1]);
                }
                assert(a.len() == a.drop_first().len() + 1);
            }
        }
    }
}

proof fn lemma_slot<V>(entries: Seq<(Seq<char>, V)>, key: Seq<char>)
    requires
        ascending(entries),
    ensures
        slot(entries, key) <= entries.len(),
        forall|i: int| 0 <= i < slot(entries, key) ==> precedes((#[trigger] entries[i]).0, key),
        forall|i: int|
            slot(entries, key) <= i < entries.len() ==> !precedes((#[trigger] entries[i]).0, key),
    decreases entries.len(),
{
    if entries.len() > 0 {
        if precedes(entries[0].0, key) {
            let rest = entries.drop_first();
            assert(ascending(rest)) by {
                assert forall|i: int, j: int| 0 <= i < j < rest.len() implies precedes(
                    #[trigger] rest[i].0,
                    #[trigger] rest[j].0,
                ) by {
                    assert(rest[i] == entries[i + 1] && rest[j] == entries[j + 1]);
                }
            }
            lemma_slot(rest, key);
            assert forall|i: int| 0 <= i < slot(entries, key) implies precedes(
                (#[trigger] entries[i]).0,
                key,
            ) by {
                if i > 0 {
                    assert(rest[i - 1] == entries[i]);
                }
            }
            assert forall|i: int| slot(entries, key) <= i < entries.len() implies !precedes(
                (#[trigger] entries[i]).0,
                key,
            ) by {
                assert(rest[i - 1] == entries[i]);
            }
        } else {
            assert forall|i: int| 0 <= i < entries.len() implies !precedes(
                (#[trigger] entries[i]).0,
                key,
            ) by {
                if i > 0 {
                    assert(precedes(entries[0].0, entries[i].0));
                    law_keys_are_totally_ordered(entries[0].0, entries[i].0, key);
                }
            }
        }
    }
}

/// Inserting into an ordered map keeps it ordered, stores the value under its key, and
/// keeps every entry under another key.
pub proof fn lemma_with_entry<V>(entries: Seq<(Seq<char>, V)>, key: Seq<char>, value: V)
    requires
        ascending(entries),
    ensures
        ascending(with_entry(entries, key, value)),
        with_entry(entries, key, value).contains((key, value)),
        forall|i: int|
            0 <= i < entries.len() && (#[trigger] entries[i]).0 != key ==> with_entry(
                entries,
                key,
                value,
            ).contains(entries[i]),
        with_entry(entries, key, value).len() == entries.len() + if (exists|i: int|
            0 <= i < entries.len() && (#[trigger] entries[i]).0 == key) {
            0int
        } else {
            1int
        },
{
    lemma_slot(entries, key);
    let at = slot(entries, key) as int;
    let result = with_entry(entries, key, value);
    let replaces = at < entries.len() && entries[at].0 == key;
    assert(result[at] == (key, value));
    // Past the slot come the key itself or keys after it.
    assert forall|i: int| at <= i < entries.len() implies (#[trigger] entries[i]).0 == key
        || precedes(key, entries[i].0) by {
        law_keys_are_totally_ordered(key, entries[i].0, key);
    }
    assert forall|i: int, j: int| 0 <= i < j < result.len() implies precedes(
        #[trigger] result[i].0,
        #[trigger] result[j].0,
    ) by {
        if replaces {
            assert(result[i].0 == entries[i].0 && result[j].0 == entries[j].0);
        } else {
            let from_i = if i < at {
                i
            } else {
                i - 1
            };
            let from_j = if j < at {
                j
            } else {
                j - 1
            };
            assert(i != at ==> result[i] == entries[from_i]);
            assert(j != at ==> result[j] == entries[from_j]);
            if j == at {
                assert(precedes(entries[i].0, key));
            } else if i == at {
                if entries[from_j].0 == key {
                    assert(at < from_j);
                    assert(precedes(entries[at].0, entries[from_j].0));
                    assert(!precedes(entries[at].0, key));
                }
            } else {
                assert(precedes(entries[from_i].0, entries[from_j].0));
            }
        }
    }
    assert forall|i: int| 0 <= i < entries.len() && (#[trigger] entries[i]).0 != key implies result.contains(
    entries[i]) by {
        if replaces || i < at {
            assert(result[i] == entries[i]);
        } else {
            assert(result[i + 1] == entries[i]);
        }
    }
    if exists|i: int| 0 <= i < entries.len() && (#[trigger] entries[i]).0 == key {
        let i = choose|i: int| 0 <= i < entries.len() && (#[trigger] entries[i]).0 == key;
        law_keys_are_totally_ordered(key, key, key);
        assert(i >= at);
        if i > at {
            assert(precedes(entries[at].0, entries[i].0));
            assert(!precedes(entries[at].0, key));
        }
        assert(replaces);
    }
}

/// Whether no two entries have the same key.
pub open spec fn distinct_keys<V>(entries: Seq<(Seq<char>, V)>) -> bool {
    forall|i: int, j: int|
        0 <= i < j < entries.len() ==> #[trigger] entries[i].0 != #[trigger] entries[j].0
}

proof fn lemma_collected_is_ascending<V>(entries: Seq<(Seq<char>, V)>)
    ensures
        ascending(collected(entries)),
    decreases entries.len(),
{
    if entries.len() > 0 {
        lemma_collected_is_ascending(entries.drop_last());
        lemma_with_entry(collected(entries.drop_last()), entries.last().0, entries.last().1);
    }
}

proof fn lemma_rest_is_distinct<V>(entries: Seq<(Seq<char>, V)>)
    requires
        distinct_keys(entries),
        entries.len() > 0,
    ensures
        distinct_keys(entries.drop_last()),
        forall|j: int|
            0 <= j < collected(entries.drop_last()).len() ==> (#[trigger] collected(
                entries.drop_last(),
            )[j]).0 != entries.last().0,
{
    let rest = entries.drop_last();
    assert forall|i: int, j: int| 0 <= i < j < rest.len() implies #[trigger] rest[i].0
        != #[trigger] rest[j].0 by {
        assert(rest[i] == entries[i] && rest[j] == entries[j]);
    }
    assert forall|j: int| 0 <= j < collected(rest).len() implies (#[trigger] collected(rest)[j]).0
        != entries.last().0 by {
        lemma_collected_holds_only_entries(rest, j);
        let i = choose|i: int| 0 <= i < rest.len() && rest[i] == collected(rest)[j];
        assert(entries[i] == rest[i]);
        assert(entries[i].0 != entries[entries.len() - 1].0);
    }
}

proof fn lemma_collected_holds_all_entries<V>(entries: Seq<(Seq<char>, V)>)
    requires
        distinct_keys(entries),
    ensures
        collected(entries).len() == entries.len(),
        forall|i: int|
            0 <= i < entries.len() ==> collected(entries).contains(#[trigger] entries[i]),
    decreases entries.len(),
{
    if entries.len() > 0 {
        let rest = entries.drop_last();
        let last = entries.last();
        let built = collected(rest);
        lemma_rest_is_distinct(entries);
        lemma_collected_holds_all_entries(rest);
        lemma_collected_is_ascending(rest);
        lemma_with_entry(built, last.0, last.1);
        assert forall|i: int| 0 <= i < entries.len() implies collected(entries).contains(
            #[trigger] entries[i],
        ) by {
            if i < rest.len() {
                assert(rest[i] == entries[i]);
                let j = choose|j: int| 0 <= j < built.len() && built[j] == rest[i];
                assert(built[j].0 != last.0);
            }
        }
    }
}

/// An ordered map is ordered; built from entries with different keys it holds all of them
/// and nothing else.
pub proof fn law_collecting_loses_nothing<V>(entries: Seq<(Seq<char>, V)>)
    ensures
        ascending(collected(entries)),
        distinct_keys(entries) ==> collected(entries).len() == entries.len(),
        distinct_keys(entries) ==> forall|i: int|
            0 <= i < entries.len() ==> collected(entries).contains(#[trigger] entries[i]),
        forall|j: int|
            0 <= j < collected(entries).len() ==> entries.contains(
                #[trigger] collected(entries)[j],
            ),
{
    lemma_collected_is_ascending(entries);
    if distinct_keys(entries) {
        lemma_collected_holds_all_entries(entries);
    }
    assert forall|j: int| 0 <= j < collected(entries).len() implies entries.contains(
        #[trigger] collected(entries)[j],
    ) by {
        lemma_collected_holds_only_entries(entries, j);
    }
}

/// The first character in which two keys differ decides their order, by its code point,
/// whatever stands before it and behind it; a key comes before everything that extends it.
pub proof fn law_the_first_difference_orders_keys(
    common: Seq<char>,
    a: char,
    b: char,
    left: Seq<char>,
    right: Seq<char>,
)
    ensures
        a != b ==> (precedes(common.push(a) + left, common.push(b) + right) <==> (a as int) < (
        b as int)),
        precedes(common, common.push(a) + left),
        !precedes(common.push(a) + left, common),
    decreases common.len(),
{
    let l = common.push(a) + left;
    let r = common.push(b) + right;
    if common.len() > 0 {
        let rest = common.drop_first();
        law_the_first_difference_orders_keys(rest, a, b, left, right);
        assert(l.drop_first() =~= rest.push(a) + left);
        assert(r.drop_first() =~= rest.push(b) + right);
        assert(l[0] == common[0] && r[0] == common[0]);
    } else {
        assert(l[0] == a && r[0] == b);
    }
}

/// An ordered map with an entry put in holds that entry, every entry under another key, and
/// nothing else, in order.
pub proof fn law_inserting_changes_one_key<V>(
    entries: Seq<(Seq<char>, V)>,
    key: Seq<char>,
    value: V,
    entry: (Seq<char>, V),
)
    requires
        ascending(entries),
    ensures
        ascending(with_entry(entries, key, value)),
        with_entry(entries, key, value).contains(entry) <==> entry == (key, value) || (
        entries.contains(entry) && entry.0 != key),
{
    let result = with_entry(entries, key, value);
    lemma_with_entry(entries, key, value);
    lemma_slot(entries, key);
    let at = slot(entries, key) as int;
    assert(result[at] == (key, value));
    if result.contains(entry) && entry != (key, value) {
        let j = choose|j: int| 0 <= j < result.len() && result[j] == entry;
        assert(j != at);
        assert(result[j].0 != key) by {
            law_keys_are_totally_ordered(key, key, key);
            if j < at {
                assert(precedes(result[j].0, result[at].0));
            } else {
                assert(precedes(result[at].0, result[j].0));
            }
        }
        let replaces = at < entries.len() && entries[at].0 == key;
        let from = if replaces || j < at {
            j
        } else {
            j - 1
        };
        assert(entries[from] == entry);
    }
    if entries.contains(entry) && entry.0 != key {
        let i = choose|i: int| 0 <= i < entries.len() && entries[i] == entry;
        assert(entries[i].0 != key);
    }
}

/// Documents that say the same hold the same: equal texts, numbers and truth values, and as many
/// items and members, which say the same one by one, under the same keys.
pub proof fn law_documents_that_say_the_same_hold_the_same(left: Json, right: Json)
    requires
        left.tree() == right.tree(),
    ensures
        left is Null <==> right is Null,
        left matches Json::Bool(value) ==> right == Json::Bool(value),
        left matches Json::Number(value) ==> right == Json::Number(value),
        left matches Json::Text(text) ==> right is Text && right->Text_0@ == text@,
        left matches Json::Array(items) ==> {
            &&& right is Array
            &&& right->Array_0@.len() == items@.len()
            &&& forall|i: int|
                0 <= i < items@.len() ==> (#[trigger] items@[i]).tree()
                    == right->Array_0@[i].tree()
        },
        left matches Json::Object(members) ==> {
            &&& right is Object
            &&& right->Object_0@.len() == members@.len()
            &&& forall|i: int|
                0 <= i < members@.len() ==> (#[trigger] members@[i]).key@
                    == right->Object_0@[i].key@ && members@[i].value.tree()
                    == right->Object_0@[i].value.tree()
        },
{
    match left {
        Json::Array(items) => {
            let others = right->Array_0;
            assert(left.tree()->Array_0.len() == items@.len());
            assert(right.tree()->Array_0.len() == others@.len());
            assert forall|i: int| 0 <= i < items@.len() implies (#[trigger] items@[i]).tree()
                == others@[i].tree() by {
                assert(left.tree()->Array_0[i] == items@[i].tree());
                assert(right.tree()->Array_0[i] == others@[i].tree());
            }
        },
        Json::Object(members) => {
            let others = right->Object_0;
            assert(left.tree()->Object_0.len() == members@.len());
            assert(right.tree()->Object_0.len() == others@.len());
            assert forall|i: int| 0 <= i < members@.len() implies (#[trigger] members@[i]).key@
                == others@[i].key@ && members@[i].value.tree() == others@[i].value.tree() by {
                assert(left.tree()->Object_0[i] == (members@[i].key@, members@[i].value.tree()));
                assert(right.tree()->Object_0[i] == (others@[i].key@, others@[i].value.tree()));
            }
        },
        _ => {},
    }
}

/// The entries of an object are its members, key by key and value by value, in their order.
pub proof fn law_entries_are_the_members(members: Seq<Member>, i: int)
    ensures
        entries(members).len() == members.len(),
        0 <= i < members.len() ==> entries(members)[i].0 == members[i].key@
            && entries(members)[i].1 == members[i].value.tree(),
{
}

} // verus!
