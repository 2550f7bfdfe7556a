//! Repairs documents that PostgreSQL cannot store because a text holds a NUL character.

use vstd::prelude::*;

use crate::json::ascending;
use crate::json::collected;
use crate::json::distinct_keys;
use crate::json::entries;
use crate::json::law_collecting_loses_nothing;
use crate::json::law_keys_are_totally_ordered;
use crate::json::lemma_collected_holds_only_entries;
use crate::json::lemma_collected_of_mapped;
use crate::json::lemma_slot_is_inside;
use crate::json::mapped;
use crate::json::precedes;
use crate::json::put_member;
use crate::json::slot;
use crate::json::Json;
use crate::json::JsonTree;
use crate::json::Member;
use crate::text::characters;
use crate::text::decimal;
use crate::text::push_decimal;

verus! {

/// How many locations a report lists at most.
pub const MAX_LOCATIONS: usize = 16;

/// How many characters of a location a report keeps.
pub const MAX_PATH_CHARS: usize = 256;

/// What a repair changed. The locations are JSON pointers.
#[derive(Debug)]
pub struct JsonNulRepair {
    pub nul_characters: usize,
    pub affected_values: usize,
    pub escaped_keys: usize,
    pub locations: Vec<String>,
}

/// One change that a repair makes: where, how many NUL characters it concerns, and
/// whether it concerns a key (else a text value).
pub struct Finding {
    pub path: Seq<char>,
    pub nuls: nat,
    pub in_key: bool,
}

/// The number of NUL characters in a text.
pub open spec fn nul_count(text: Seq<char>) -> nat {
    text.filter(|c: char| c == '\0').len()
}

/// A text without its NUL characters.
pub open spec fn without_nuls(text: Seq<char>) -> Seq<char> {
    text.filter(|c: char| c != '\0')
}

/// A character as it stands in an escaped key.
pub open spec fn escaped_char(c: char) -> Seq<char> {
    if c == '\\' {
        seq!['\\', '\\']
    } else if c == '\0' {
        seq!['\\', 'u', '0', '0', '0', '0']
    } else {
        seq![c]
    }
}

/// A key with its backslashes doubled and its NUL characters written out.
pub open spec fn escaped_key(key: Seq<char>) -> Seq<char>
    decreases key.len(),
{
    if key.len() == 0 {
        Seq::empty()
    } else {
        escaped_key(key.drop_last()) + escaped_char(key.last())
    }
}

/// A character as it stands in a JSON pointer.
pub open spec fn pointer_char(c: char) -> Seq<char> {
    if c == '~' {
        seq!['~', '0']
    } else if c == '/' {
        seq!['~', '1']
    } else {
        seq![c]
    }
}

/// A key as it stands in a JSON pointer.
pub open spec fn pointer_token(key: Seq<char>) -> Seq<char>
    decreases key.len(),
{
    if key.len() == 0 {
        Seq::empty()
    } else {
        pointer_token(key.drop_last()) + pointer_char(key.last())
    }
}

/// The JSON pointer to a member of the object at `path`.
pub open spec fn member_path(path: Seq<char>, key: Seq<char>) -> Seq<char> {
    path.push('/') + pointer_token(key)
}

/// The JSON pointer to an item of the array at `path`.
pub open spec fn item_path(path: Seq<char>, index: int) -> Seq<char> {
    path.push('/') + decimal(index as nat)
}

/// Whether a key of the object holds a NUL character.
pub open spec fn has_nul_key(members: Seq<(Seq<char>, JsonTree)>) -> bool {
    exists|i: int| 0 <= i < members.len() && nul_count(#[trigger] members[i].0) > 0
}

/// The key under which a member stands after the repair.
pub open spec fn new_key(members: Seq<(Seq<char>, JsonTree)>, i: int) -> Seq<char> {
    if has_nul_key(members) {
        escaped_key(members[i].0)
    } else {
        members[i].0
    }
}

/// The members in the order of the repaired object: their own where no key changes, else
/// the order of the new keys.
pub open spec fn new_order<V>(
    members: Seq<(Seq<char>, JsonTree)>,
    renamed: Seq<(Seq<char>, V)>,
) -> Seq<(Seq<char>, V)> {
    if has_nul_key(members) {
        collected(renamed)
    } else {
        renamed
    }
}

/// A document without NUL characters: text values lose theirs, and an object with a NUL in
/// a key has all its keys escaped. Everything else stays.
pub open spec fn repaired(tree: JsonTree) -> JsonTree
    decreases tree, 1nat,
{
    match tree {
        JsonTree::Text(text) => JsonTree::Text(without_nuls(text)),
        JsonTree::Array(items) => JsonTree::Array(repaired_items(items)),
        JsonTree::Object(members) => JsonTree::Object(
            new_order(members, repaired_members(members)),
        ),
        other => other,
    }
}

/// Each item of an array, repaired.
pub open spec fn repaired_items(items: Seq<JsonTree>) -> Seq<JsonTree>
    decreases items, 0nat,
{
    Seq::new(
        items.len(),
        |i: int|
            if 0 <= i < items.len() {
                repaired(items[i])
            } else {
                JsonTree::Null
            },
    )
}

/// Each member of an object, repaired, in the object's old order.
pub open spec fn repaired_members(members: Seq<(Seq<char>, JsonTree)>) -> Seq<
    (Seq<char>, JsonTree),
>
    decreases members, 0nat,
{
    Seq::new(
        members.len(),
        |i: int|
            (
                new_key(members, i),
                if 0 <= i < members.len() {
                    repaired(members[i].1)
                } else {
                    JsonTree::Null
                },
            ),
    )
}

/// The keys of an object that change, in the object's order.
pub open spec fn key_findings(members: Seq<(Seq<char>, JsonTree)>, path: Seq<char>) -> Seq<
    Finding,
>
    decreases members.len(),
{
    if members.len() == 0 {
        Seq::empty()
    } else {
        let key = members.last().0;
        let rest = key_findings(members.drop_last(), path);
        if escaped_key(key) != key {
            rest.push(
                Finding {
                    path: member_path(path, escaped_key(key)),
                    nuls: nul_count(key),
                    in_key: true,
                },
            )
        } else {
            rest
        }
    }
}

/// Every change that the repair of the document at `path` makes, in the order in which a
/// walk meets them: keys of an object before its values, values in their new order.
pub open spec fn findings(tree: JsonTree, path: Seq<char>) -> Seq<Finding>
    decreases tree, 1nat,
{
    match tree {
        JsonTree::Text(text) => if nul_count(text) > 0 {
            seq![Finding { path, nuls: nul_count(text), in_key: false }]
        } else {
            Seq::empty()
        },
        JsonTree::Array(items) => item_findings(items, path).flatten(),
        JsonTree::Object(members) => {
            let in_values = listed_findings(new_order(members, member_findings(members, path)));
            if has_nul_key(members) {
                key_findings(members, path) + in_values
            } else {
                in_values
            }
        },
        _ => Seq::empty(),
    }
}

/// The changes in each item of an array.
pub open spec fn item_findings(items: Seq<JsonTree>, path: Seq<char>) -> Seq<Seq<Finding>>
    decreases items, 0nat,
{
    Seq::new(
        items.len(),
        |i: int|
            if 0 <= i < items.len() {
                findings(items[i], item_path(path, i))
            } else {
                Seq::empty()
            },
    )
}

/// The changes in the value of each member, under its new key, in the object's old order.
pub open spec fn member_findings(members: Seq<(Seq<char>, JsonTree)>, path: Seq<char>) -> Seq<
    (Seq<char>, Seq<Finding>),
>
    decreases members, 0nat,
{
    Seq::new(
        members.len(),
        |i: int|
            (
                new_key(members, i),
                if 0 <= i < members.len() {
                    findings(members[i].1, member_path(path, new_key(members, i)))
                } else {
                    Seq::empty()
                },
            ),
    )
}

/// The changes that are listed under the keys, one after the other.
pub open spec fn listed_findings(members: Seq<(Seq<char>, Seq<Finding>)>) -> Seq<Finding> {
    members.map_values(|member: (Seq<char>, Seq<Finding>)| member.1).flatten()
}

/// The NUL characters that some changes concern, in all.
pub open spec fn nul_total(changes: Seq<Finding>) -> nat
    decreases changes.len(),
{
    if changes.len() == 0 {
        0
    } else {
        nul_total(changes.drop_last()) + changes.last().nuls
    }
}

/// How many of the changes concern keys (`in_key`) or text values.
pub open spec fn change_count(changes: Seq<Finding>, in_key: bool) -> nat
    decreases changes.len(),
{
    if changes.len() == 0 {
        0
    } else {
        change_count(changes.drop_last(), in_key) + if changes.last().in_key == in_key {
            1nat
        } else {
            0nat
        }
    }
}

/// A count as the report holds it: it stops at the largest number.
pub open spec fn counted(count: nat) -> usize {
    if count <= usize::MAX {
        count as usize
    } else {
        usize::MAX
    }
}

/// As much of a path as a report keeps.
pub open spec fn clipped(path: Seq<char>) -> Seq<char> {
    if path.len() <= MAX_PATH_CHARS {
        path
    } else {
        path.take(MAX_PATH_CHARS as int)
    }
}

impl JsonNulRepair {
    /// Whether the report is the one on exactly these changes: it counts all of them and
    /// lists where the first of them are.
    pub open spec fn reports(self, changes: Seq<Finding>) -> bool {
        &&& self.nul_characters == counted(nul_total(changes))
        &&& self.affected_values == counted(change_count(changes, false))
        &&& self.escaped_keys == counted(change_count(changes, true))
        &&& self.locations@.len() == if changes.len() <= MAX_LOCATIONS {
            changes.len()
        } else {
            MAX_LOCATIONS as nat
        }
        &&& forall|i: int|
            0 <= i < self.locations@.len() ==> (#[trigger] self.locations@[i])@ == clipped(
                changes[i].path,
            )
    }
}

impl Default for JsonNulRepair {
    /// The report on no change at all.
    fn default() -> (report: Self)
        ensures
            report.reports(Seq::empty()),
    {
        JsonNulRepair {
            nul_characters: 0,
            affected_values: 0,
            escaped_keys: 0,
            locations: Vec::new(),
        }
    }
}

/// Removes NUL characters from text values and escapes the keys of objects that have one in
/// a key, so that no NUL is left. The report says what was changed.
pub fn remove_nuls(rows: &mut Json) -> (report: JsonNulRepair)
    ensures
        final(rows).tree() == repaired(old(rows).tree()),
        report.reports(findings(old(rows).tree(), Seq::empty())),
{
    let mut report = JsonNulRepair::default();
    proof {
        reveal_strlit("");
    }
    let ghost tree = rows.tree();
    visit(rows, "", &mut report, Ghost(Seq::empty()));
    assert(""@ =~= Seq::<char>::empty());
    assert(Seq::empty() + findings(tree, ""@) == findings(tree, ""@));
    report
}

/// Lists a location, as long as the report has room for one.
fn record_location(path: &str, report: &mut JsonNulRepair)
    ensures
        final(report).nul_characters == old(report).nul_characters,
        final(report).affected_values == old(report).affected_values,
        final(report).escaped_keys == old(report).escaped_keys,
        if old(report).locations@.len() < MAX_LOCATIONS {
            &&& final(report).locations@.len() == old(report).locations@.len() + 1
            &&& final(report).locations@.drop_last() == old(report).locations@
            &&& final(report).locations@.last()@ == clipped(path@)
        } else {
            final(report).locations@ == old(report).locations@
        },
{
    if report.locations.len() < MAX_LOCATIONS {
        let chars: Vec<char> = characters(path);
        let kept: usize = if chars.len() < MAX_PATH_CHARS {
            chars.len()
        } else {
            MAX_PATH_CHARS
        };
        let mut location = String::new();
        for at in 0..kept
            invariant
                kept <= chars@.len(),
                location@ == chars@.take(at as int),
        {
            location.push(chars[at]);
        }
        assert(chars@.take(chars@.len() as int) == chars@);
        report.locations.push(location);
        assert(report.locations@.drop_last() == old(report).locations@);
    }
}

/// Notes one change in the report.
fn record(
    path: &str,
    nuls: usize,
    in_key: bool,
    report: &mut JsonNulRepair,
    Ghost(before): Ghost<Seq<Finding>>,
)
    requires
        old(report).reports(before),
    ensures
        final(report).reports(before.push(Finding { path: path@, nuls: nuls as nat, in_key })),
{
    let ghost after = before.push(Finding { path: path@, nuls: nuls as nat, in_key });
    report.nul_characters = report.nul_characters.saturating_add(nuls);
    if in_key {
        report.escaped_keys = report.escaped_keys.saturating_add(1);
    } else {
        report.affected_values = report.affected_values.saturating_add(1);
    }
    record_location(path, report);
    assert(after.drop_last() == before);
    assert forall|i: int| 0 <= i < report.locations@.len() implies (
    #[trigger] report.locations@[i])@ == clipped(after[i].path) by {
        if i < old(report).locations@.len() {
            assert(report.locations@[i] == old(report).locations@[i]);
        }
    }
}

/// Appends the pointer token of a key.
fn push_key(path: &mut String, key: &str)
    ensures
        final(path)@ == member_path(old(path)@, key@),
{
    path.push('/');
    let chars: Vec<char> = characters(key);
    for at in 0..chars.len()
        invariant
            chars@ == key@,
            path@ == old(path)@.push('/') + pointer_token(chars@.take(at as int)),
    {
        assert(chars@.take(at + 1).drop_last() == chars@.take(at as int));
        let c: char = chars[at];
        if c == '~' {
            path.push('~');
            path.push('0');
        } else if c == '/' {
            path.push('~');
            path.push('1');
        } else {
            path.push(c);
        }
    }
    assert(chars@.take(chars@.len() as int) == chars@);
}

/// A text without its NUL characters, and how many it had.
fn strip(text: &str) -> (stripped: (String, usize))
    ensures
        stripped.0@ == without_nuls(text@),
        stripped.1 == nul_count(text@),
{
    let chars: Vec<char> = characters(text);
    let mut kept = String::new();
    let mut removed: usize = 0;
    reveal(Seq::filter);
    for at in 0..chars.len()
        invariant
            kept@ == without_nuls(chars@.take(at as int)),
            removed == nul_count(chars@.take(at as int)),
            removed <= at,
    {
        reveal(Seq::filter);
        assert(chars@.take(at + 1).drop_last() == chars@.take(at as int));
        if chars[at] == '\0' {
            removed += 1;
        } else {
            kept.push(chars[at]);
        }
    }
    assert(chars@.take(chars@.len() as int) == chars@);
    (kept, removed)
}

/// A key with its backslashes doubled and its NUL characters written out.
fn escape(key: &str) -> (escaped: String)
    ensures
        escaped@ == escaped_key(key@),
{
    let chars: Vec<char> = characters(key);
    let mut escaped = String::new();
    for at in 0..chars.len()
        invariant
            escaped@ == escaped_key(chars@.take(at as int)),
    {
        assert(chars@.take(at + 1).drop_last() == chars@.take(at as int));
        let c: char = chars[at];
        if c == '\\' {
            escaped.push('\\');
            escaped.push('\\');
        } else if c == '\0' {
            escaped.push('\\');
            escaped.push('u');
            escaped.push('0');
            escaped.push('0');
            escaped.push('0');
            escaped.push('0');
        } else {
            escaped.push(c);
        }
    }
    assert(chars@.take(chars@.len() as int) == chars@);
    escaped
}

/// Repairs a document in place and notes the changes.
fn visit(
    value: &mut Json,
    path: &str,
    report: &mut JsonNulRepair,
    Ghost(before): Ghost<Seq<Finding>>,
)
    requires
        old(report).reports(before),
    ensures
        final(value).tree() == repaired(old(value).tree()),
        final(report).reports(before + findings(old(value).tree(), path@)),
    decreases old(value).tree(), 1nat,
{
    let ghost tree = value.tree();
    match value {
        Json::Text(text) => {
            let stripped: (String, usize) = strip(text.as_str());
            if stripped.1 > 0 {
                *text = stripped.0;
                record(path, stripped.1, false, report, Ghost(before));
                assert(before + findings(tree, path@) == before.push(findings(tree, path@)[0]));
            } else {
                proof {
                    lemma_clean_text(text@);
                }
                assert(before + findings(tree, path@) == before);
            }
        },
        Json::Array(items) => {
            assert(item_trees(items@) =~= tree->Array_0);
            visit_items(items, path, report, Ghost(before), Ghost(item_trees(items@)));
            assert(JsonTree::Array(item_trees(items@)) == repaired(tree));
            assert(item_trees(items@) =~= Json::Array(*items).tree()->Array_0);
        },
        Json::Object(members) => {
            let ghost listed = entries(members@);
            assert(listed =~= tree->Object_0);
            let renames: bool = any_nul_key(members);
            let ghost in_keys = if renames {
                key_findings(listed, path@)
            } else {
                Seq::empty()
            };
            if renames {
                escape_keys(members, path, report, Ghost(before));
            } else {
                assert(before + in_keys == before);
                assert(relabelled(listed) =~= listed);
            }
            visit_members(members, path, report, Ghost(before + in_keys), Ghost(listed));
            assert(entries(members@) =~= Json::Object(*members).tree()->Object_0);
            assert(before + findings(tree, path@) == before + in_keys + listed_findings(
                new_order(listed, member_findings(listed, path@)),
            ));
        },
        _ => {
            assert(before + findings(tree, path@) == before);
        },
    }
}

/// The members of an object after its keys are repaired, their values as they were.
spec fn relabelled(members: Seq<(Seq<char>, JsonTree)>) -> Seq<(Seq<char>, JsonTree)> {
    new_order(
        members,
        Seq::new(members.len(), |i: int| (new_key(members, i), members[i].1)),
    )
}

spec fn item_trees(items: Seq<Json>) -> Seq<JsonTree> {
    Seq::new(items.len(), |i: int| items[i].tree())
}

proof fn lemma_clean_text(text: Seq<char>)
    requires
        nul_count(text) == 0,
    ensures
        without_nuls(text) == text,
    decreases text.len(),
{
    reveal(Seq::filter);
    if text.len() > 0 {
        lemma_clean_text(text.drop_last());
    }
}

proof fn lemma_relabelled_maps<V>(
    members: Seq<(Seq<char>, JsonTree)>,
    renamed: Seq<(Seq<char>, V)>,
    f: spec_fn(Seq<char>, JsonTree) -> V,
)
    requires
        renamed.len() == members.len(),
        forall|i: int|
            0 <= i < members.len() ==> #[trigger] renamed[i] == (
                new_key(members, i),
                f(new_key(members, i), members[i].1),
            ),
    ensures
        new_order(members, renamed) == mapped(relabelled(members), f),
{
    let kept = Seq::new(members.len(), |i: int| (new_key(members, i), members[i].1));
    assert(renamed =~= mapped(kept, f));
    if has_nul_key(members) {
        lemma_collected_of_mapped(kept, f);
    }
}

proof fn lemma_relabelled_values(members: Seq<(Seq<char>, JsonTree)>, j: int)
    requires
        0 <= j < relabelled(members).len(),
    ensures
        exists|i: int|
            0 <= i < members.len() && (#[trigger] members[i]).1 == relabelled(members)[j].1,
{
    let renamed = Seq::new(members.len(), |i: int| (new_key(members, i), members[i].1));
    if has_nul_key(members) {
        lemma_collected_holds_only_entries(renamed, j);
        let i = choose|i: int| 0 <= i < renamed.len() && renamed[i] == collected(renamed)[j];
        assert(members[i].1 == relabelled(members)[j].1);
    } else {
        assert(members[j].1 == relabelled(members)[j].1);
    }
}

/// Whether a key of the object holds a NUL character.
fn any_nul_key(members: &Vec<Member>) -> (found: bool)
    ensures
        found == has_nul_key(entries(members@)),
{
    let ghost listed = entries(members@);
    for at in 0..members.len()
        invariant
            listed == entries(members@),
            forall|i: int| 0 <= i < at ==> nul_count(#[trigger] listed[i].0) == 0,
    {
        if strip(members[at].key.as_str()).1 > 0 {
            assert(nul_count(listed[at as int].0) > 0);
            return true;
        }
    }
    false
}

/// Escapes every key of an object and puts the members in the order of the new keys.
fn escape_keys(
    members: &mut Vec<Member>,
    path: &str,
    report: &mut JsonNulRepair,
    Ghost(before): Ghost<Seq<Finding>>,
)
    requires
        has_nul_key(entries(old(members)@)),
        old(report).reports(before),
    ensures
        entries(final(members)@) == relabelled(entries(old(members)@)),
        final(report).reports(before + key_findings(entries(old(members)@), path@)),
{
    let ghost listed = entries(members@);
    let ghost renamed = Seq::new(listed.len(), |i: int| (new_key(listed, i), listed[i].1));
    let mut taken: Vec<Member> = Vec::new();
    std::mem::swap(members, &mut taken);
    assert(entries(members@) == collected(renamed.take(0)));
    assert(before + key_findings(listed.take(0), path@) == before);
    for member in iter: taken
        invariant
            has_nul_key(listed),
            listed == entries(iter.seq()),
            renamed == Seq::new(listed.len(), |i: int| (new_key(listed, i), listed[i].1)),
            entries(members@) == collected(renamed.take(iter.index() as int)),
            report.reports(before + key_findings(listed.take(iter.index() as int), path@)),
    {
        let ghost at = iter.index() as int;
        assert(listed[at] == (member.key@, member.value.tree()));
        assert(renamed.take(at + 1).drop_last() == renamed.take(at));
        assert(listed.take(at + 1).drop_last() == listed.take(at));
        let nuls: usize = strip(member.key.as_str()).1;
        let escaped: String = escape(member.key.as_str());
        let ghost noted = before + key_findings(listed.take(at), path@);
        if escaped != member.key {
            let mut location: String = path.to_owned();
            push_key(&mut location, escaped.as_str());
            record(location.as_str(), nuls, true, report, Ghost(noted));
            assert(before + key_findings(listed.take(at + 1), path@) == noted.push(
                key_findings(listed.take(at + 1), path@).last(),
            ));
        }
        put_member(members, escaped, member.value);
    }
    assert(renamed.take(renamed.len() as int) == renamed);
    assert(listed.take(listed.len() as int) == listed);
}

/// Repairs the items of an array in place.
fn visit_items(
    items: &mut Vec<Json>,
    path: &str,
    report: &mut JsonNulRepair,
    Ghost(before): Ghost<Seq<Finding>>,
    Ghost(listed): Ghost<Seq<JsonTree>>,
)
    requires
        listed == item_trees(old(items)@),
        old(report).reports(before),
    ensures
        item_trees(final(items)@) == repaired_items(listed),
        final(report).reports(before + item_findings(listed, path@).flatten()),
    decreases listed, 0nat,
{
    let ghost parts = item_findings(listed, path@);
    assert(parts.take(0).flatten() == Seq::<Finding>::empty());
    assert(before + parts.take(0).flatten() == before);
    let count: usize = items.len();
    for at in 0..count
        invariant
            listed.len() == items@.len(),
            count == items@.len(),
            parts == item_findings(listed, path@),
            forall|i: int| 0 <= i < at ==> (#[trigger] items@[i]).tree() == repaired(listed[i]),
            forall|i: int| at <= i < items@.len() ==> (#[trigger] items@[i]).tree() == listed[i],
            report.reports(before + parts.take(at as int).flatten()),
    {
        let ghost noted = before + parts.take(at as int).flatten();
        let mut child: String = path.to_owned();
        child.push('/');
        push_decimal(&mut child, at as u128);
        assert(items@[at as int].tree() == listed[at as int]);
        visit(&mut items[at], child.as_str(), report, Ghost(noted));
        proof {
            assert(parts.take(at + 1) == parts.take(at as int).push(parts[at as int]));
            parts.take(at as int).lemma_flatten_push(parts[at as int]);
        }
        assert(noted + parts[at as int] == before + parts.take(at + 1).flatten());
    }
    assert(parts.take(parts.len() as int) == parts);
    assert(item_trees(items@) =~= repaired_items(listed));
}

/// Repairs the values of an object in place, in the order of its members.
fn visit_members(
    members: &mut Vec<Member>,
    path: &str,
    report: &mut JsonNulRepair,
    Ghost(before): Ghost<Seq<Finding>>,
    Ghost(listed): Ghost<Seq<(Seq<char>, JsonTree)>>,
)
    requires
        entries(old(members)@) == relabelled(listed),
        old(report).reports(before),
    ensures
        entries(final(members)@) == new_order(listed, repaired_members(listed)),
        final(report).reports(
            before + listed_findings(new_order(listed, member_findings(listed, path@))),
        ),
    decreases listed, 0nat,
{
    let ghost started = entries(members@);
    let ghost parts = Seq::new(
        started.len(),
        |i: int| findings(started[i].1, member_path(path@, started[i].0)),
    );
    assert(parts.take(0).flatten() == Seq::<Finding>::empty());
    assert(before + parts.take(0).flatten() == before);
    let count: usize = members.len();
    for at in 0..count
        invariant
            started == relabelled(listed),
            started.len() == members@.len(),
            count == members@.len(),
            parts == Seq::new(
                started.len(),
                |i: int| findings(started[i].1, member_path(path@, started[i].0)),
            ),
            forall|i: int|
                0 <= i < members@.len() ==> (#[trigger] members@[i]).key@ == started[i].0,
            forall|i: int|
                0 <= i < at ==> (#[trigger] members@[i]).value.tree() == repaired(started[i].1),
            forall|i: int|
                at <= i < members@.len() ==> (#[trigger] members@[i]).value.tree() == started[i].1,
            report.reports(before + parts.take(at as int).flatten()),
    {
        let ghost noted = before + parts.take(at as int).flatten();
        let mut child: String = path.to_owned();
        push_key(&mut child, members[at].key.as_str());
        assert(members@[at as int].value.tree() == started[at as int].1);
        proof {
            lemma_relabelled_values(listed, at as int);
            let i = choose|i: int|
                0 <= i < listed.len() && (#[trigger] listed[i]).1 == started[at as int].1;
            assert(decreases_to!(listed => listed[i].1));
        }
        visit(&mut members[at].value, child.as_str(), report, Ghost(noted));
        proof {
            assert(parts.take(at + 1) == parts.take(at as int).push(parts[at as int]));
            parts.take(at as int).lemma_flatten_push(parts[at as int]);
        }
        assert(noted + parts[at as int] == before + parts.take(at + 1).flatten());
    }
    assert(parts.take(parts.len() as int) == parts);
    proof {
        let repair = |key: Seq<char>, value: JsonTree| repaired(value);
        lemma_relabelled_maps(listed, repaired_members(listed), repair);
        assert(entries(members@) =~= mapped(started, repair));
        let find = |key: Seq<char>, value: JsonTree| findings(value, member_path(path@, key));
        lemma_relabelled_maps(listed, member_findings(listed, path@), find);
        assert(parts =~= mapped(started, find).map_values(
            |entry: (Seq<char>, Seq<Finding>)| entry.1,
        ));
    }
}

/// Whether a document holds no NUL character, neither in a text value nor in a key.
pub open spec fn nul_free(tree: JsonTree) -> bool
    decreases tree,
{
    match tree {
        JsonTree::Text(text) => nul_count(text) == 0,
        JsonTree::Array(items) => forall|i: int|
            0 <= i < items.len() ==> nul_free(#[trigger] items[i]),
        JsonTree::Object(members) => forall|i: int|
            0 <= i < members.len() ==> nul_count((#[trigger] members[i]).0) == 0 && nul_free(
                members[i].1,
            ),
        _ => true,
    }
}

/// Whether the members of every object in a document are listed by ascending key.
pub open spec fn ordered(tree: JsonTree) -> bool
    decreases tree,
{
    match tree {
        JsonTree::Array(items) => forall|i: int|
            0 <= i < items.len() ==> ordered(#[trigger] items[i]),
        JsonTree::Object(members) => ascending(members) && forall|i: int|
            0 <= i < members.len() ==> ordered((#[trigger] members[i]).1),
        _ => true,
    }
}

proof fn lemma_no_nul(text: Seq<char>)
    requires
        forall|i: int| 0 <= i < text.len() ==> text[i] != '\0',
    ensures
        nul_count(text) == 0,
    decreases text.len(),
{
    reveal(Seq::filter);
    if text.len() > 0 {
        lemma_no_nul(text.drop_last());
    }
}

proof fn lemma_escaped_key_has_no_nul(key: Seq<char>)
    ensures
        nul_count(escaped_key(key)) == 0,
    decreases key.len(),
{
    if key.len() > 0 {
        lemma_escaped_key_has_no_nul(key.drop_last());
        lemma_no_nul(escaped_char(key.last()));
        Seq::filter_distributes_over_add(
            escaped_key(key.drop_last()),
            escaped_char(key.last()),
            |c: char| c == '\0',
        );
    } else {
        lemma_no_nul(escaped_key(key));
    }
}

proof fn lemma_stripped_text_has_no_nul(text: Seq<char>)
    ensures
        nul_count(without_nuls(text)) == 0,
{
    assert forall|i: int| 0 <= i < without_nuls(text).len() implies without_nuls(text)[i] != '\0' by {
        text.lemma_filter_pred(|c: char| c != '\0', i);
    }
    lemma_no_nul(without_nuls(text));
}

/// A repaired document holds no NUL character anywhere.
pub proof fn law_repair_leaves_no_nul(tree: JsonTree)
    ensures
        nul_free(repaired(tree)),
    decreases tree,
{
    match tree {
        JsonTree::Text(text) => {
            lemma_stripped_text_has_no_nul(text);
        },
        JsonTree::Array(items) => {
            assert forall|i: int| 0 <= i < items.len() implies nul_free(
                #[trigger] repaired_items(items)[i],
            ) by {
                law_repair_leaves_no_nul(items[i]);
            }
            assert(nul_free(JsonTree::Array(repaired_items(items))));
        },
        JsonTree::Object(members) => {
            let renamed = repaired_members(members);
            assert forall|i: int| 0 <= i < renamed.len() implies nul_count(
                (#[trigger] renamed[i]).0,
            ) == 0 && nul_free(renamed[i].1) by {
                law_repair_leaves_no_nul(members[i].1);
                lemma_escaped_key_has_no_nul(members[i].0);
                assert(!has_nul_key(members) ==> nul_count(members[i].0) == 0);
            }
            let result = new_order(members, renamed);
            assert forall|j: int| 0 <= j < result.len() implies nul_count((#[trigger] result[j]).0)
                == 0 && nul_free(result[j].1) by {
                if has_nul_key(members) {
                    lemma_collected_holds_only_entries(renamed, j);
                    let i = choose|i: int| 0 <= i < renamed.len() && renamed[i] == result[j];
                    assert(renamed[i] == result[j]);
                }
            }
            assert(nul_free(JsonTree::Object(result)));
        },
        _ => {},
    }
}

/// A document without NUL characters is left as it is, literal backslashes in its keys
/// included, and nothing is reported.
pub proof fn law_clean_documents_stay(tree: JsonTree, path: Seq<char>)
    requires
        nul_free(tree),
    ensures
        repaired(tree) == tree,
        findings(tree, path) == Seq::<Finding>::empty(),
    decreases tree,
{
    match tree {
        JsonTree::Text(text) => {
            lemma_clean_text(text);
        },
        JsonTree::Array(items) => {
            assert forall|i: int| 0 <= i < items.len() implies repaired(#[trigger] items[i])
                == items[i] && findings(items[i], item_path(path, i)) == Seq::<
                Finding,
            >::empty() by {
                law_clean_documents_stay(items[i], item_path(path, i));
            }
            assert(repaired_items(items) =~= items);
            lemma_flatten_of_empty(item_findings(items, path));
        },
        JsonTree::Object(members) => {
            assert(!has_nul_key(members));
            assert forall|i: int| 0 <= i < members.len() implies repaired(
                (#[trigger] members[i]).1,
            ) == members[i].1 && findings(members[i].1, member_path(path, members[i].0)) == Seq::<
                Finding,
            >::empty() by {
                law_clean_documents_stay(members[i].1, member_path(path, members[i].0));
            }
            assert(repaired_members(members) =~= members);
            lemma_flatten_of_empty(
                member_findings(members, path).map_values(
                    |member: (Seq<char>, Seq<Finding>)| member.1,
                ),
            );
        },
        _ => {},
    }
}

proof fn lemma_flatten_of_empty(parts: Seq<Seq<Finding>>)
    requires
        forall|i: int| 0 <= i < parts.len() ==> parts[i] == Seq::<Finding>::empty(),
    ensures
        parts.flatten() == Seq::<Finding>::empty(),
    decreases parts.len(),
{
    if parts.len() > 0 {
        assert(forall|i: int|
            0 <= i < parts.drop_first().len() ==> parts.drop_first()[i] == parts[i + 1]);
        lemma_flatten_of_empty(parts.drop_first());
    }
}

/// Repairing twice is repairing once, and the second time finds nothing.
pub proof fn law_repair_is_idempotent(tree: JsonTree, path: Seq<char>)
    ensures
        repaired(repaired(tree)) == repaired(tree),
        findings(repaired(tree), path) == Seq::<Finding>::empty(),
{
    law_repair_leaves_no_nul(tree);
    law_clean_documents_stay(repaired(tree), path);
}

/// Two keys that are escaped to the same key are the same key.
pub proof fn law_escaping_keeps_keys_apart(left: Seq<char>, right: Seq<char>)
    requires
        escaped_key(left) == escaped_key(right),
    ensures
        left == right,
    decreases left.len() + right.len(),
{
    lemma_escaped_from_front(left);
    lemma_escaped_from_front(right);
    if left.len() == 0 || right.len() == 0 {
        assert(left =~= right);
    } else {
        let both = escaped_key(left);
        let l = escaped_char(left[0]);
        let r = escaped_char(right[0]);
        assert(both[0] == l[0] && both[0] == r[0]);
        if both[0] == '\\' {
            assert(both[1] == l[1] && both[1] == r[1]);
        }
        assert(left[0] == right[0]);
        assert(escaped_key(left.drop_first()) =~= both.skip(l.len() as int));
        assert(escaped_key(right.drop_first()) =~= both.skip(r.len() as int));
        law_escaping_keeps_keys_apart(left.drop_first(), right.drop_first());
        assert(left =~= seq![left[0]] + left.drop_first());
        assert(right =~= seq![right[0]] + right.drop_first());
    }
}

proof fn lemma_escaped_from_front(key: Seq<char>)
    ensures
        key.len() == 0 ==> escaped_key(key) == Seq::<char>::empty(),
        key.len() > 0 ==> escaped_key(key) == escaped_char(key[0]) + escaped_key(key.drop_first()),
    decreases key.len(),
{
    if key.len() == 1 {
        assert(key.drop_last() =~= Seq::<char>::empty());
        assert(key.drop_first() =~= Seq::<char>::empty());
        assert(escaped_key(key) =~= escaped_char(key[0]) + escaped_key(key.drop_first()));
    } else if key.len() > 1 {
        lemma_escaped_from_front(key.drop_last());
        assert(key.drop_last().drop_first() =~= key.drop_first().drop_last());
        assert(escaped_key(key) =~= escaped_char(key[0]) + escaped_key(key.drop_first()));
    }
}

/// The repaired object has a member for every member of the object, under its new key and
/// with its repaired value, and no others: escaping never makes two members collide. Its
/// members are in order.
pub proof fn law_repair_keeps_every_member(members: Seq<(Seq<char>, JsonTree)>)
    requires
        ascending(members),
    ensures
        ({
            let after = new_order(members, repaired_members(members));
            &&& ascending(after)
            &&& after.len() == members.len()
            &&& forall|i: int|
                0 <= i < members.len() ==> after.contains(
                    (new_key(members, i), repaired((#[trigger] members[i]).1)),
                )
            &&& forall|j: int|
                0 <= j < after.len() ==> repaired_members(members).contains(#[trigger] after[j])
        }),
{
    let renamed = repaired_members(members);
    let after = new_order(members, renamed);
    assert forall|i: int| 0 <= i < members.len() implies renamed[i] == (
        new_key(members, i),
        repaired((#[trigger] members[i]).1),
    ) by {}
    if has_nul_key(members) {
        assert forall|i: int, j: int| 0 <= i < j < renamed.len() implies #[trigger] renamed[i].0
            != #[trigger] renamed[j].0 by {
            assert(precedes(members[i].0, members[j].0));
            law_keys_are_totally_ordered(members[i].0, members[j].0, members[i].0);
            if renamed[i].0 == renamed[j].0 {
                law_escaping_keeps_keys_apart(members[i].0, members[j].0);
            }
        }
        law_collecting_loses_nothing(renamed);
        assert forall|i: int| 0 <= i < members.len() implies after.contains(
            (new_key(members, i), repaired((#[trigger] members[i]).1)),
        ) by {
            assert(after.contains(renamed[i]));
        }
    } else {
        assert forall|i: int, j: int| 0 <= i < j < after.len() implies precedes(
            #[trigger] after[i].0,
            #[trigger] after[j].0,
        ) by {
            assert(precedes(members[i].0, members[j].0));
        }
        assert forall|i: int| 0 <= i < members.len() implies after.contains(
            (new_key(members, i), repaired((#[trigger] members[i]).1)),
        ) by {
            assert(after[i] == renamed[i]);
        }
        assert forall|j: int| 0 <= j < after.len() implies renamed.contains(#[trigger] after[j]) by {
            assert(renamed[j] == after[j]);
        }
    }
}

/// Repairing keeps a document ordered.
pub proof fn law_repair_keeps_order(tree: JsonTree)
    requires
        ordered(tree),
    ensures
        ordered(repaired(tree)),
    decreases tree,
{
    match tree {
        JsonTree::Array(items) => {
            assert forall|i: int| 0 <= i < items.len() implies ordered(
                #[trigger] repaired_items(items)[i],
            ) by {
                law_repair_keeps_order(items[i]);
            }
            assert(ordered(JsonTree::Array(repaired_items(items))));
        },
        JsonTree::Object(members) => {
            law_repair_keeps_every_member(members);
            let renamed = repaired_members(members);
            let after = new_order(members, renamed);
            assert forall|j: int| 0 <= j < after.len() implies ordered((#[trigger] after[j]).1) by {
                let i = choose|i: int| 0 <= i < renamed.len() && renamed[i] == after[j];
                assert(renamed[i] == after[j]);
                assert(ordered(members[i].1));
                law_repair_keeps_order(members[i].1);
            }
            assert(ordered(JsonTree::Object(after)));
        },
        _ => {},
    }
}

/// The sum of numbers.
pub open spec fn sum(counts: Seq<nat>) -> nat
    decreases counts.len(),
{
    if counts.len() == 0 {
        0
    } else {
        sum(counts.drop_last()) + counts.last()
    }
}

/// A measure of a document: the sum of what `in_text` says of its text values and `in_keys` of
/// its objects' keys.
pub open spec fn measured(
    tree: JsonTree,
    in_text: spec_fn(Seq<char>) -> nat,
    in_keys: spec_fn(Seq<(Seq<char>, JsonTree)>) -> nat,
) -> nat
    decreases tree, 1nat,
{
    match tree {
        JsonTree::Text(text) => in_text(text),
        JsonTree::Array(items) => sum(measured_items(items, in_text, in_keys)),
        JsonTree::Object(members) => in_keys(members) + sum(
            measured_values(members, in_text, in_keys),
        ),
        _ => 0,
    }
}

/// The measure of each item of an array.
pub open spec fn measured_items(
    items: Seq<JsonTree>,
    in_text: spec_fn(Seq<char>) -> nat,
    in_keys: spec_fn(Seq<(Seq<char>, JsonTree)>) -> nat,
) -> Seq<nat>
    decreases items, 0nat,
{
    Seq::new(
        items.len(),
        |i: int|
            if 0 <= i < items.len() {
                measured(items[i], in_text, in_keys)
            } else {
                0
            },
    )
}

/// The measure of each value of an object.
pub open spec fn measured_values(
    members: Seq<(Seq<char>, JsonTree)>,
    in_text: spec_fn(Seq<char>) -> nat,
    in_keys: spec_fn(Seq<(Seq<char>, JsonTree)>) -> nat,
) -> Seq<nat>
    decreases members, 0nat,
{
    Seq::new(
        members.len(),
        |i: int|
            if 0 <= i < members.len() {
                measured(members[i].1, in_text, in_keys)
            } else {
                0
            },
    )
}

/// The number of NUL characters in each key of an object.
pub open spec fn key_nuls(members: Seq<(Seq<char>, JsonTree)>) -> Seq<nat> {
    members.map_values(|member: (Seq<char>, JsonTree)| nul_count(member.0))
}

/// For each key of an object, whether escaping changes it.
pub open spec fn key_changes(members: Seq<(Seq<char>, JsonTree)>) -> Seq<nat> {
    members.map_values(
        |member: (Seq<char>, JsonTree)|
            if escaped_key(member.0) != member.0 {
                1nat
            } else {
                0nat
            },
    )
}

/// The number of NUL characters in a document, those in its keys included.
pub open spec fn nuls_in(tree: JsonTree) -> nat {
    measured(
        tree,
        |text: Seq<char>| nul_count(text),
        |members: Seq<(Seq<char>, JsonTree)>| sum(key_nuls(members)),
    )
}

/// The number of text values in a document that hold a NUL character.
pub open spec fn texts_with_nuls(tree: JsonTree) -> nat {
    measured(
        tree,
        |text: Seq<char>|
            if nul_count(text) > 0 {
                1
            } else {
                0
            },
        |members: Seq<(Seq<char>, JsonTree)>| 0,
    )
}

/// The number of keys in a document that stand in an object with a NUL character in a key and
/// hold a NUL character or a backslash, so that escaping changes them.
pub open spec fn keys_to_escape(tree: JsonTree) -> nat {
    measured(
        tree,
        |text: Seq<char>| 0,
        |members: Seq<(Seq<char>, JsonTree)>|
            if has_nul_key(members) {
                sum(key_changes(members))
            } else {
                0
            },
    )
}

proof fn lemma_sum_of_insert(counts: Seq<nat>, at: int, count: nat)
    requires
        0 <= at <= counts.len(),
    ensures
        sum(counts.insert(at, count)) == sum(counts) + count,
    decreases counts.len(),
{
    let longer = counts.insert(at, count);
    if at == counts.len() {
        assert(longer.drop_last() == counts);
    } else {
        assert(longer.drop_last() == counts.drop_last().insert(at, count));
        lemma_sum_of_insert(counts.drop_last(), at, count);
    }
}

/// The sum of what `weight` says of changes.
spec fn weighed(changes: Seq<Finding>, weight: spec_fn(Finding) -> nat) -> nat
    decreases changes.len(),
{
    if changes.len() == 0 {
        0
    } else {
        weighed(changes.drop_last(), weight) + weight(changes.last())
    }
}

/// The weight of the changes under each key.
spec fn totals(
    entries: Seq<(Seq<char>, Seq<Finding>)>,
    weight: spec_fn(Finding) -> nat,
) -> Seq<nat> {
    entries.map_values(|entry: (Seq<char>, Seq<Finding>)| weighed(entry.1, weight))
}

proof fn lemma_totals_of_collected(
    entries: Seq<(Seq<char>, Seq<Finding>)>,
    weight: spec_fn(Finding) -> nat,
)
    requires
        distinct_keys(entries),
    ensures
        sum(totals(collected(entries), weight)) == sum(totals(entries, weight)),
    decreases entries.len(),
{
    if entries.len() > 0 {
        let rest = entries.drop_last();
        let last = entries.last();
        let built = collected(rest);
        assert(distinct_keys(rest)) by {
            assert forall|i: int, j: int| 0 <= i < j < rest.len() implies #[trigger] rest[i].0
                != #[trigger] rest[j].0 by {
                assert(rest[i] == entries[i] && rest[j] == entries[j]);
            }
        }
        lemma_totals_of_collected(rest, weight);
        law_collecting_loses_nothing(rest);
        law_collecting_loses_nothing(entries);
        let at = slot(built, last.0) as int;
        lemma_slot_is_inside(built, last.0);
        assert(totals(entries, weight).drop_last() == totals(rest, weight));
        assert(collected(entries) == built.insert(at, last)) by {
            assert(collected(entries).len() == built.len() + 1);
        }
        let longer = totals(built, weight).insert(at, weighed(last.1, weight));
        assert(totals(built.insert(at, last), weight) =~= longer);
        lemma_sum_of_insert(totals(built, weight), at, weighed(last.1, weight));
    } else {
        assert(totals(collected(entries), weight) =~= totals(entries, weight));
    }
}

proof fn lemma_weighed_of_concat(
    left: Seq<Finding>,
    right: Seq<Finding>,
    weight: spec_fn(Finding) -> nat,
)
    ensures
        weighed(left + right, weight) == weighed(left, weight) + weighed(right, weight),
    decreases right.len(),
{
    if right.len() == 0 {
        assert(left + right == left);
    } else {
        lemma_weighed_of_concat(left, right.drop_last(), weight);
        assert((left + right).drop_last() == left + right.drop_last());
    }
}

proof fn lemma_weighed_of_flatten(parts: Seq<Seq<Finding>>, weight: spec_fn(Finding) -> nat)
    ensures
        weighed(parts.flatten(), weight) == sum(
            parts.map_values(|part: Seq<Finding>| weighed(part, weight)),
        ),
    decreases parts.len(),
{
    let counts = parts.map_values(|part: Seq<Finding>| weighed(part, weight));
    if parts.len() == 0 {
        assert(parts.flatten() == Seq::<Finding>::empty());
    } else {
        let rest = parts.drop_last();
        lemma_weighed_of_flatten(rest, weight);
        rest.lemma_flatten_push(parts.last());
        assert(rest.push(parts.last()) == parts);
        lemma_weighed_of_concat(rest.flatten(), parts.last(), weight);
        assert(counts.drop_last() =~= rest.map_values(
            |part: Seq<Finding>| weighed(part, weight),
        ));
    }
}

proof fn lemma_weighed_counts(changes: Seq<Finding>, in_key: bool)
    ensures
        nul_total(changes) == weighed(changes, |change: Finding| change.nuls),
        change_count(changes, in_key) == weighed(
            changes,
            |change: Finding|
                if change.in_key == in_key {
                    1
                } else {
                    0
                },
        ),
    decreases changes.len(),
{
    if changes.len() > 0 {
        lemma_weighed_counts(changes.drop_last(), in_key);
    }
}

proof fn lemma_changes_of_keys(members: Seq<(Seq<char>, JsonTree)>, path: Seq<char>)
    ensures
        nul_total(key_findings(members, path)) == sum(key_nuls(members)),
        change_count(key_findings(members, path), true) == sum(key_changes(members)),
        change_count(key_findings(members, path), false) == 0,
    decreases members.len(),
{
    if members.len() > 0 {
        let rest = members.drop_last();
        let key = members.last().0;
        lemma_changes_of_keys(rest, path);
        assert(key_nuls(members).drop_last() =~= key_nuls(rest));
        assert(key_changes(members).drop_last() =~= key_changes(rest));
        let found = key_findings(members, path);
        if escaped_key(key) != key {
            assert(found.drop_last() == key_findings(rest, path));
        } else {
            lemma_escaped_key_has_no_nul(key);
        }
    }
}

proof fn lemma_sum_of_zeros(counts: Seq<nat>)
    requires
        forall|i: int| 0 <= i < counts.len() ==> counts[i] == 0,
    ensures
        sum(counts) == 0,
    decreases counts.len(),
{
    if counts.len() > 0 {
        lemma_sum_of_zeros(counts.drop_last());
    }
}

proof fn lemma_new_keys_are_distinct(members: Seq<(Seq<char>, JsonTree)>, path: Seq<char>)
    requires
        ascending(members),
    ensures
        distinct_keys(member_findings(members, path)),
{
    let renamed = member_findings(members, path);
    assert forall|i: int, j: int| 0 <= i < j < renamed.len() implies #[trigger] renamed[i].0
        != #[trigger] renamed[j].0 by {
        assert(precedes(members[i].0, members[j].0));
        law_keys_are_totally_ordered(members[i].0, members[j].0, members[i].0);
        if renamed[i].0 == renamed[j].0 && has_nul_key(members) {
            law_escaping_keeps_keys_apart(members[i].0, members[j].0);
        }
    }
}

/// Whether a measure of texts is what the change of a text weighs.
spec fn agrees_on_text(
    text: Seq<char>,
    path: Seq<char>,
    weight: spec_fn(Finding) -> nat,
    in_text: spec_fn(Seq<char>) -> nat,
) -> bool {
    weighed(findings(JsonTree::Text(text), path), weight) == in_text(text)
}

/// Whether a measure of keys is what the changes of an object's keys weigh.
spec fn agrees_on_keys(
    members: Seq<(Seq<char>, JsonTree)>,
    path: Seq<char>,
    weight: spec_fn(Finding) -> nat,
    in_keys: spec_fn(Seq<(Seq<char>, JsonTree)>) -> nat,
) -> bool {
    in_keys(members) == if has_nul_key(members) {
        weighed(key_findings(members, path), weight)
    } else {
        0
    }
}

/// What changes weigh together is the measure of the document that agrees with their weight on
/// texts and on keys.
proof fn lemma_changes_weigh_the_document(
    tree: JsonTree,
    path: Seq<char>,
    weight: spec_fn(Finding) -> nat,
    in_text: spec_fn(Seq<char>) -> nat,
    in_keys: spec_fn(Seq<(Seq<char>, JsonTree)>) -> nat,
)
    requires
        ordered(tree),
        forall|text: Seq<char>, path: Seq<char>| #[trigger]
            agrees_on_text(text, path, weight, in_text),
        forall|members: Seq<(Seq<char>, JsonTree)>, path: Seq<char>| #[trigger]
            agrees_on_keys(members, path, weight, in_keys),
    ensures
        weighed(findings(tree, path), weight) == measured(tree, in_text, in_keys),
    decreases tree,
{
    match tree {
        JsonTree::Text(text) => {
            assert(agrees_on_text(text, path, weight, in_text));
        },
        JsonTree::Array(items) => {
            let parts = item_findings(items, path);
            assert forall|i: int| 0 <= i < items.len() implies weighed(
                #[trigger] parts[i],
                weight,
            ) == measured(items[i], in_text, in_keys) by {
                assert(ordered(items[i]));
                lemma_changes_weigh_the_document(
                    items[i],
                    item_path(path, i),
                    weight,
                    in_text,
                    in_keys,
                );
            }
            lemma_weighed_of_flatten(parts, weight);
            assert(parts.map_values(|part: Seq<Finding>| weighed(part, weight))
                =~= measured_items(items, in_text, in_keys));
        },
        JsonTree::Object(members) => {
            let renamed = member_findings(members, path);
            assert forall|i: int| 0 <= i < members.len() implies weighed(
                (#[trigger] renamed[i]).1,
                weight,
            ) == measured(members[i].1, in_text, in_keys) by {
                assert(ordered(members[i].1));
                lemma_changes_weigh_the_document(
                    members[i].1,
                    member_path(path, new_key(members, i)),
                    weight,
                    in_text,
                    in_keys,
                );
            }
            assert(totals(renamed, weight) =~= measured_values(members, in_text, in_keys));
            let after = new_order(members, renamed);
            let parts = after.map_values(|member: (Seq<char>, Seq<Finding>)| member.1);
            lemma_weighed_of_flatten(parts, weight);
            assert(parts.map_values(|part: Seq<Finding>| weighed(part, weight)) =~= totals(
                after,
                weight,
            ));
            let in_the_keys = key_findings(members, path);
            assert(agrees_on_keys(members, path, weight, in_keys));
            if has_nul_key(members) {
                lemma_new_keys_are_distinct(members, path);
                lemma_totals_of_collected(renamed, weight);
                lemma_weighed_of_concat(in_the_keys, listed_findings(after), weight);
            }
        },
        _ => {},
    }
}

proof fn lemma_changes_in_text(text: Seq<char>, path: Seq<char>)
    ensures
        ({
            let found = findings(JsonTree::Text(text), path);
            let affected: nat = if nul_count(text) > 0 {
                1
            } else {
                0
            };
            &&& nul_total(found) == nul_count(text)
            &&& change_count(found, false) == affected
            &&& change_count(found, true) == 0
        }),
{
    let found = findings(JsonTree::Text(text), path);
    if found.len() > 0 {
        assert(found.drop_last() == Seq::<Finding>::empty());
        assert(nul_total(found.drop_last()) == 0);
        assert(change_count(found.drop_last(), false) == 0);
        assert(change_count(found.drop_last(), true) == 0);
    }
}

/// The report counts every NUL character of the document, in values and keys, exactly once.
pub proof fn law_report_counts_every_nul(tree: JsonTree, path: Seq<char>)
    requires
        ordered(tree),
    ensures
        nul_total(findings(tree, path)) == nuls_in(tree),
{
    let weight = |change: Finding| change.nuls;
    let in_text = |text: Seq<char>| nul_count(text);
    let in_keys = |members: Seq<(Seq<char>, JsonTree)>| sum(key_nuls(members));
    assert forall|text: Seq<char>, path: Seq<char>| #[trigger]
        agrees_on_text(text, path, weight, in_text) by {
        lemma_changes_in_text(text, path);
        lemma_weighed_counts(findings(JsonTree::Text(text), path), false);
    }
    assert forall|members: Seq<(Seq<char>, JsonTree)>, path: Seq<char>| #[trigger]
        agrees_on_keys(members, path, weight, in_keys) by {
        lemma_changes_of_keys(members, path);
        lemma_weighed_counts(key_findings(members, path), false);
        if !has_nul_key(members) {
            assert forall|i: int| 0 <= i < members.len() implies key_nuls(members)[i] == 0 by {
                assert(nul_count(members[i].0) == 0);
            }
            lemma_sum_of_zeros(key_nuls(members));
        }
    }
    lemma_weighed_counts(findings(tree, path), false);
    lemma_changes_weigh_the_document(tree, path, weight, in_text, in_keys);
}

/// The report counts every text value that holds a NUL character, and no other.
pub proof fn law_report_counts_every_affected_value(tree: JsonTree, path: Seq<char>)
    requires
        ordered(tree),
    ensures
        change_count(findings(tree, path), false) == texts_with_nuls(tree),
{
    let weight = |change: Finding|
        if change.in_key == false {
            1nat
        } else {
            0nat
        };
    let in_text = |text: Seq<char>|
        if nul_count(text) > 0 {
            1nat
        } else {
            0nat
        };
    let in_keys = |members: Seq<(Seq<char>, JsonTree)>| 0nat;
    assert forall|text: Seq<char>, path: Seq<char>| #[trigger]
        agrees_on_text(text, path, weight, in_text) by {
        lemma_changes_in_text(text, path);
        lemma_weighed_counts(findings(JsonTree::Text(text), path), false);
    }
    assert forall|members: Seq<(Seq<char>, JsonTree)>, path: Seq<char>| #[trigger]
        agrees_on_keys(members, path, weight, in_keys) by {
        lemma_changes_of_keys(members, path);
        lemma_weighed_counts(key_findings(members, path), false);
    }
    lemma_weighed_counts(findings(tree, path), false);
    lemma_changes_weigh_the_document(tree, path, weight, in_text, in_keys);
}

/// The report counts every key that escaping changes, and no other.
pub proof fn law_report_counts_every_escaped_key(tree: JsonTree, path: Seq<char>)
    requires
        ordered(tree),
    ensures
        change_count(findings(tree, path), true) == keys_to_escape(tree),
{
    let weight = |change: Finding|
        if change.in_key == true {
            1nat
        } else {
            0nat
        };
    let in_text = |text: Seq<char>| 0nat;
    let in_keys = |members: Seq<(Seq<char>, JsonTree)>|
        if has_nul_key(members) {
            sum(key_changes(members))
        } else {
            0
        };
    assert forall|text: Seq<char>, path: Seq<char>| #[trigger]
        agrees_on_text(text, path, weight, in_text) by {
        lemma_changes_in_text(text, path);
        lemma_weighed_counts(findings(JsonTree::Text(text), path), true);
    }
    assert forall|members: Seq<(Seq<char>, JsonTree)>, path: Seq<char>| #[trigger]
        agrees_on_keys(members, path, weight, in_keys) by {
        lemma_changes_of_keys(members, path);
        lemma_weighed_counts(key_findings(members, path), true);
    }
    lemma_weighed_counts(findings(tree, path), true);
    lemma_changes_weigh_the_document(tree, path, weight, in_text, in_keys);
}

/// How often a character occurs in a text.
pub open spec fn occurrences(text: Seq<char>, c: char) -> nat {
    text.to_multiset().count(c)
}

proof fn lemma_occurrences_of_push(text: Seq<char>, last: char, c: char)
    ensures
        occurrences(Seq::empty(), c) == 0,
        occurrences(text.push(last), c) == occurrences(text, c) + if last == c {
            1nat
        } else {
            0nat
        },
{
    broadcast use vstd::seq_lib::group_to_multiset_ensures;

    assert(text.push(last).to_multiset() =~= text.to_multiset().insert(last));
    assert(occurrences(Seq::<char>::empty(), c) == 0) by {
        Seq::<char>::empty().to_multiset_ensures();
        if Seq::<char>::empty().to_multiset().count(c) > 0 {
            assert(Seq::<char>::empty().contains(c));
        }
    }
}

proof fn lemma_occurs(text: Seq<char>, c: char)
    ensures
        text.contains(c) <==> occurrences(text, c) > 0,
{
    broadcast use vstd::seq_lib::group_to_multiset_ensures;

}

proof fn lemma_stripped_occurrences(text: Seq<char>, c: char)
    ensures
        nul_count(text) == occurrences(text, '\0'),
        occurrences(without_nuls(text), c) == if c == '\0' {
            0
        } else {
            occurrences(text, c)
        },
        without_nuls(text).len() == text.len() - occurrences(text, '\0'),
    decreases text.len(),
{
    reveal(Seq::filter);
    lemma_occurrences_of_push(text, 'x', c);
    lemma_occurrences_of_push(text, 'x', '\0');
    if text.len() > 0 {
        let rest = text.drop_last();
        lemma_stripped_occurrences(rest, c);
        assert(text =~= rest.push(text.last()));
        lemma_occurrences_of_push(rest, text.last(), c);
        lemma_occurrences_of_push(rest, text.last(), '\0');
        lemma_occurrences_of_push(without_nuls(rest), text.last(), c);
    } else {
        assert(text =~= Seq::<char>::empty());
        assert(without_nuls(text) =~= Seq::<char>::empty());
    }
}

/// A repaired text keeps every character that is not NUL as often as it occurs and loses only the
/// NUL characters, by which it gets shorter.
pub proof fn law_repaired_texts_lose_only_nuls(text: Seq<char>, c: char)
    ensures
        repaired(JsonTree::Text(text)) is Text,
        ({
            let after = repaired(JsonTree::Text(text))->Text_0;
            &&& after.len() == text.len() - text.to_multiset().count('\0')
            &&& c != '\0' ==> after.to_multiset().count(c) == text.to_multiset().count(c)
            &&& !after.contains('\0')
        }),
{
    lemma_stripped_occurrences(text, c);
    lemma_stripped_occurrences(text, '\0');
    lemma_occurs(without_nuls(text), '\0');
}

/// A text is repaired piece by piece, so what is kept stays in order: a character that is not
/// NUL is kept wherever it stands and whatever stands around it.
pub proof fn law_texts_are_repaired_piece_by_piece(left: Seq<char>, c: char, right: Seq<char>)
    ensures
        repaired(JsonTree::Text(left + right)) == JsonTree::Text(
            repaired(JsonTree::Text(left))->Text_0 + repaired(JsonTree::Text(right))->Text_0,
        ),
        repaired(JsonTree::Text(seq![c])) == JsonTree::Text(
            if c == '\0' {
                Seq::empty()
            } else {
                seq![c]
            },
        ),
        repaired(JsonTree::Text(Seq::empty())) == JsonTree::Text(Seq::<char>::empty()),
{
    Seq::filter_distributes_over_add(left, right, |c: char| c != '\0');
    reveal(Seq::filter);
    assert(seq![c].drop_last() =~= Seq::<char>::empty());
    assert(without_nuls(Seq::<char>::empty()) =~= Seq::<char>::empty());
    assert(without_nuls(seq![c]) =~= if c == '\0' {
        Seq::empty()
    } else {
        seq![c]
    });
}

/// Repair changes nothing but texts and keys: numbers, truth values and nulls stay, and an array
/// keeps its items, each repaired, in their places.
pub proof fn law_repair_keeps_everything_else(tree: JsonTree, items: Seq<JsonTree>, i: int)
    ensures
        !(tree is Text) && !(tree is Array) && !(tree is Object) ==> repaired(tree) == tree,
        repaired(JsonTree::Array(items)) is Array,
        repaired(JsonTree::Array(items))->Array_0.len() == items.len(),
        0 <= i < items.len() ==> repaired(JsonTree::Array(items))->Array_0[i] == repaired(items[i]),
{
}

/// A key is escaped character by character: a backslash is doubled, a NUL becomes `\u0000`
/// written out, and everything else stays.
pub proof fn law_keys_are_escaped_piece_by_piece(left: Seq<char>, c: char, right: Seq<char>)
    ensures
        escaped_key(left + right) == escaped_key(left) + escaped_key(right),
        escaped_key(seq!['\\']) == seq!['\\', '\\'],
        escaped_key(seq!['\0']) == seq!['\\', 'u', '0', '0', '0', '0'],
        c != '\\' && c != '\0' ==> escaped_key(seq![c]) == seq![c],
        escaped_key(Seq::empty()) == Seq::<char>::empty(),
    decreases right.len(),
{
    assert(forall|d: char| #![auto] seq![d].drop_last() =~= Seq::<char>::empty());
    reveal_with_fuel(escaped_key, 2);
    assert(escaped_key(seq!['\\']) =~= escaped_char('\\'));
    assert(escaped_key(seq!['\0']) =~= escaped_char('\0'));
    assert(escaped_key(seq![c]) =~= escaped_char(c));
    if right.len() == 0 {
        assert(left + right =~= left);
        assert(escaped_key(left) + escaped_key(right) =~= escaped_key(left));
    } else {
        law_keys_are_escaped_piece_by_piece(left, c, right.drop_last());
        assert((left + right).drop_last() =~= left + right.drop_last());
        assert(escaped_key(left + right) =~= escaped_key(left) + escaped_key(right));
    }
}

proof fn lemma_escaping_changes(key: Seq<char>)
    ensures
        escaped_key(key).len() >= key.len(),
        escaped_key(key) != key <==> key.contains('\0') || key.contains('\\'),
        escaped_key(key) != key ==> escaped_key(key).len() > key.len(),
    decreases key.len(),
{
    if key.len() > 0 {
        let rest = key.drop_last();
        lemma_escaping_changes(rest);
        assert(key =~= rest.push(key.last()));
        assert(key[key.len() - 1] == key.last());
        if rest.contains('\0') {
            assert(key[rest.index_of('\0')] == '\0');
        }
        if rest.contains('\\') {
            assert(key[rest.index_of('\\')] == '\\');
        }
        if key.contains('\0') && key.last() != '\0' {
            assert(rest[key.index_of('\0')] == '\0');
        }
        if key.contains('\\') && key.last() != '\\' {
            assert(rest[key.index_of('\\')] == '\\');
        }
        if !key.contains('\0') && !key.contains('\\') {
            assert(escaped_key(key) =~= key);
        }
    } else {
        assert(escaped_key(key) =~= key);
    }
}

/// The keys of an object stay as they are unless one of them holds a NUL character; then all are
/// escaped, which changes those with a NUL character or a backslash.
pub proof fn law_keys_change_only_beside_nul_keys(members: Seq<(Seq<char>, JsonTree)>, i: int)
    requires
        0 <= i < members.len(),
    ensures
        (forall|j: int| 0 <= j < members.len() ==> !(#[trigger] members[j]).0.contains('\0'))
            ==> new_key(members, i) == members[i].0,
        (exists|j: int| 0 <= j < members.len() && (#[trigger] members[j]).0.contains('\0'))
            ==> new_key(members, i) == escaped_key(members[i].0),
        escaped_key(members[i].0) == members[i].0 <==> !members[i].0.contains('\0')
            && !members[i].0.contains('\\'),
{
    assert forall|j: int| 0 <= j < members.len() implies ((#[trigger] members[j]).0.contains('\0')
        <==> nul_count(members[j].0) > 0) by {
        lemma_stripped_occurrences(members[j].0, 'x');
        lemma_occurs(members[j].0, '\0');
    }
    lemma_escaping_changes(members[i].0);
}

/// A key stands in a pointer character by character: `~` as `~0`, `/` as `~1`, everything else as
/// it is.
pub proof fn law_pointers_escape_piece_by_piece(left: Seq<char>, c: char, right: Seq<char>)
    ensures
        pointer_token(left + right) == pointer_token(left) + pointer_token(right),
        pointer_token(seq!['~']) == seq!['~', '0'],
        pointer_token(seq!['/']) == seq!['~', '1'],
        c != '~' && c != '/' ==> pointer_token(seq![c]) == seq![c],
        pointer_token(Seq::empty()) == Seq::<char>::empty(),
    decreases right.len(),
{
    assert(forall|d: char| #![auto] seq![d].drop_last() =~= Seq::<char>::empty());
    reveal_with_fuel(pointer_token, 2);
    assert(pointer_token(seq!['~']) =~= pointer_char('~'));
    assert(pointer_token(seq!['/']) =~= pointer_char('/'));
    assert(pointer_token(seq![c]) =~= pointer_char(c));
    if right.len() == 0 {
        assert(left + right =~= left);
        assert(pointer_token(left) + pointer_token(right) =~= pointer_token(left));
    } else {
        law_pointers_escape_piece_by_piece(left, c, right.drop_last());
        assert((left + right).drop_last() =~= left + right.drop_last());
        assert(pointer_token(left + right) =~= pointer_token(left) + pointer_token(right));
    }
}

/// A text is reported exactly if it holds a NUL character: once, where it stands, with the number
/// of its NUL characters. Numbers, truth values and nulls are never reported.
pub proof fn law_texts_with_nuls_are_reported(text: Seq<char>, tree: JsonTree, path: Seq<char>)
    ensures
        !text.contains('\0') ==> findings(JsonTree::Text(text), path).len() == 0,
        text.contains('\0') ==> findings(JsonTree::Text(text), path) == seq![
            Finding { path, nuls: text.to_multiset().count('\0'), in_key: false },
        ],
        !(tree is Text) && !(tree is Array) && !(tree is Object) ==> findings(tree, path).len()
            == 0,
{
    lemma_stripped_occurrences(text, 'x');
    lemma_occurs(text, '\0');
}

/// An array is reported item by item, in order, each at its own index.
pub proof fn law_arrays_are_reported_item_by_item(
    items: Seq<JsonTree>,
    last: JsonTree,
    path: Seq<char>,
)
    ensures
        findings(JsonTree::Array(Seq::empty()), path).len() == 0,
        findings(JsonTree::Array(items.push(last)), path) == findings(JsonTree::Array(items), path)
            + findings(last, path + seq!['/'] + decimal(items.len())),
{
    let parts = item_findings(items, path);
    let longer = item_findings(items.push(last), path);
    assert(item_findings(Seq::empty(), path) =~= Seq::<Seq<Finding>>::empty());
    assert(item_path(path, items.len() as int) =~= path + seq!['/'] + decimal(items.len()));
    assert forall|i: int| 0 <= i < parts.len() implies longer[i] == parts[i] by {
        assert(items.push(last)[i] == items[i]);
    }
    assert(items.push(last)[items.len() as int] == last);
    assert(longer =~= parts.push(findings(last, item_path(path, items.len() as int))));
    parts.lemma_flatten_push(findings(last, item_path(path, items.len() as int)));
}

/// An object without NUL characters in its keys is reported value by value, in order, each under
/// its key.
pub proof fn law_objects_are_reported_value_by_value(
    members: Seq<(Seq<char>, JsonTree)>,
    key: Seq<char>,
    value: JsonTree,
    path: Seq<char>,
)
    requires
        forall|i: int| 0 <= i < members.len() ==> !(#[trigger] members[i]).0.contains('\0'),
        !key.contains('\0'),
    ensures
        findings(JsonTree::Object(Seq::empty()), path).len() == 0,
        findings(JsonTree::Object(members.push((key, value))), path) == findings(
            JsonTree::Object(members),
            path,
        ) + findings(value, path + seq!['/'] + pointer_token(key)),
{
    let longer = members.push((key, value));
    lemma_no_nul_keys(members);
    assert forall|i: int| 0 <= i < longer.len() implies !(#[trigger] longer[i]).0.contains(
        '\0',
    ) by {
        if i < members.len() {
            assert(longer[i] == members[i]);
        }
    }
    lemma_no_nul_keys(longer);
    lemma_no_nul_keys(Seq::empty());
    let last = findings(value, member_path(path, key));
    assert(member_path(path, key) =~= path + seq!['/'] + pointer_token(key));
    let parts = member_findings(members, path).map_values(
        |member: (Seq<char>, Seq<Finding>)| member.1,
    );
    let more = member_findings(longer, path).map_values(
        |member: (Seq<char>, Seq<Finding>)| member.1,
    );
    assert forall|i: int| 0 <= i < parts.len() implies more[i] == parts[i] by {
        assert(longer[i] == members[i]);
    }
    assert(longer[members.len() as int] == (key, value));
    assert(more =~= parts.push(last));
    parts.lemma_flatten_push(last);
    assert(member_findings(Seq::empty(), path).map_values(
        |member: (Seq<char>, Seq<Finding>)| member.1,
    ) =~= Seq::<Seq<Finding>>::empty());
}

proof fn lemma_no_nul_keys(members: Seq<(Seq<char>, JsonTree)>)
    requires
        forall|i: int| 0 <= i < members.len() ==> !(#[trigger] members[i]).0.contains('\0'),
    ensures
        !has_nul_key(members),
{
    assert forall|i: int| 0 <= i < members.len() implies nul_count(
        (#[trigger] members[i]).0,
    ) == 0 by {
        lemma_stripped_occurrences(members[i].0, 'x');
        lemma_occurs(members[i].0, '\0');
    }
}

/// An object with a NUL character in a key is repaired and reported like the one with the escaped
/// keys, in their order, after a report on the keys that changed.
pub proof fn law_nul_keys_are_renamed_first(
    members: Seq<(Seq<char>, JsonTree)>,
    path: Seq<char>,
    nul_key: int,
)
    requires
        0 <= nul_key < members.len(),
        members[nul_key].0.contains('\0'),
    ensures
        ({
            let renamed = collected(
                Seq::new(members.len(), |i: int| (escaped_key(members[i].0), members[i].1)),
            );
            &&& repaired(JsonTree::Object(members)) == repaired(JsonTree::Object(renamed))
            &&& findings(JsonTree::Object(members), path) == key_findings(members, path)
                + findings(JsonTree::Object(renamed), path)
        }),
{
    lemma_stripped_occurrences(members[nul_key].0, 'x');
    lemma_occurs(members[nul_key].0, '\0');
    assert(has_nul_key(members));
    let pairs = Seq::new(members.len(), |i: int| (escaped_key(members[i].0), members[i].1));
    let renamed = collected(pairs);
    assert(pairs =~= Seq::new(members.len(), |i: int| (new_key(members, i), members[i].1)));
    assert(renamed == relabelled(members));
    assert forall|j: int| 0 <= j < renamed.len() implies nul_count(
        (#[trigger] renamed[j]).0,
    ) == 0 by {
        lemma_collected_holds_only_entries(pairs, j);
        let i = choose|i: int| 0 <= i < pairs.len() && pairs[i] == renamed[j];
        assert(pairs[i] == renamed[j]);
        lemma_escaped_key_has_no_nul(members[i].0);
    }
    assert(!has_nul_key(renamed));
    assert(relabelled(renamed) =~= renamed);
    let repair = |key: Seq<char>, value: JsonTree| repaired(value);
    lemma_relabelled_maps(members, repaired_members(members), repair);
    lemma_relabelled_maps(renamed, repaired_members(renamed), repair);
    let find = |key: Seq<char>, value: JsonTree| findings(value, member_path(path, key));
    lemma_relabelled_maps(members, member_findings(members, path), find);
    lemma_relabelled_maps(renamed, member_findings(renamed, path), find);
}

/// Keys are reported one by one, in order: those with a NUL character or a backslash, at the
/// place of their new form, with the number of their NUL characters.
pub proof fn law_changed_keys_are_reported(
    members: Seq<(Seq<char>, JsonTree)>,
    key: Seq<char>,
    value: JsonTree,
    path: Seq<char>,
)
    ensures
        key_findings(Seq::empty(), path).len() == 0,
        key_findings(members.push((key, value)), path) == key_findings(members, path) + if (
        key.contains('\0') || key.contains('\\')) {
            seq![
                Finding {
                    path: path + seq!['/'] + pointer_token(escaped_key(key)),
                    nuls: key.to_multiset().count('\0'),
                    in_key: true,
                },
            ]
        } else {
            Seq::empty()
        },
{
    lemma_stripped_occurrences(key, 'x');
    lemma_escaping_changes(key);
    assert(members.push((key, value)).drop_last() =~= members);
    assert(member_path(path, escaped_key(key)) =~= path + seq!['/'] + pointer_token(
        escaped_key(key),
    ));
    assert(key_findings(members.push((key, value)), path) =~= key_findings(members, path) + if (
    key.contains('\0') || key.contains('\\')) {
        seq![
            Finding {
                path: path + seq!['/'] + pointer_token(escaped_key(key)),
                nuls: key.to_multiset().count('\0'),
                in_key: true,
            },
        ]
    } else {
        Seq::empty()
    });
}

/// A report counts each change once, in its kind, and all its NUL characters.
pub proof fn law_reports_count_change_by_change(changes: Seq<Finding>, last: Finding, in_key: bool)
    ensures
        nul_total(Seq::empty()) == 0,
        nul_total(changes.push(last)) == nul_total(changes) + last.nuls,
        change_count(Seq::empty(), in_key) == 0,
        change_count(changes.push(last), in_key) == change_count(changes, in_key) + if last.in_key
            == in_key {
            1nat
        } else {
            0nat
        },
{
    assert(changes.push(last).drop_last() =~= changes);
}

/// A report gives exact counts as far as they fit, and lists where the first 16 changes are, in
/// order, by the first 256 characters of their pointers.
pub proof fn law_reports_are_exact_and_bounded(
    report: JsonNulRepair,
    changes: Seq<Finding>,
    i: int,
)
    requires
        report.reports(changes),
    ensures
        nul_total(changes) <= usize::MAX ==> report.nul_characters == nul_total(changes),
        change_count(changes, false) <= usize::MAX ==> report.affected_values == change_count(
            changes,
            false,
        ),
        change_count(changes, true) <= usize::MAX ==> report.escaped_keys == change_count(
            changes,
            true,
        ),
        report.locations@.len() <= 16,
        report.locations@.len() == changes.len() || (report.locations@.len() == 16
            && changes.len() > 16),
        0 <= i < report.locations@.len() ==> {
            &&& report.locations@[i]@.is_prefix_of(changes[i].path)
            &&& report.locations@[i]@.len() == changes[i].path.len() || (
            report.locations@[i]@.len() == 256 && changes[i].path.len() > 256)
        },
{
    if 0 <= i < report.locations@.len() {
        assert(report.locations@[i]@ == clipped(changes[i].path));
    }
}

} // verus!
