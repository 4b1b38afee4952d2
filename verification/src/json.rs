//! A JSON document as a tree of plain values, compared by structure.

use vstd::prelude::*;
use vstd::set_lib::lemma_subset_equality;

verus! {

broadcast use vstd::std_specs::vec::group_vec_axioms, vstd::seq::group_seq_axioms;

/// A JSON number: a non-negative integer, a negative integer, or a binary
/// floating-point number held by its IEEE 754 bit pattern. Two numbers are
/// the same when they are of the same kind and hold the same integer or the
/// same bits: the integer 1 and the floating-point 1.0 are different
/// numbers, and so are the two floating-point zeros.
#[derive(Clone, Copy, Debug, PartialEq, Eq, Structural)]
pub enum JsonNumber {
    PosInt(u64),
    NegInt(i64),
    Float(u64),
}

/// What a JSON document denotes: members of an object are a map from key to
/// value, so the order in which they were written is not part of it.
pub ghost enum Json {
    Null,
    Bool(bool),
    Number(JsonNumber),
    Text(Seq<char>),
    Array(Seq<Json>),
    Object(Map<Seq<char>, Json>),
}

/// A JSON document.
#[derive(Debug)]
pub enum JsonValue {
    Null,
    Bool(bool),
    Number(JsonNumber),
    Text(String),
    Array(Vec<JsonValue>),
    Object(JsonObject),
}

/// The members of a JSON object, in the order in which they were inserted.
/// No key occurs twice.
#[derive(Debug)]
pub struct JsonObject {
    entries: Vec<(String, JsonValue)>,
}

/// No two members of `entries` have the same key.
pub open spec fn distinct_keys(entries: Seq<(String, JsonValue)>) -> bool {
    forall|i: int, j: int|
        0 <= i < j < entries.len() ==> (#[trigger] entries[i]).0@ != (#[trigger] entries[j]).0@
}

/// Some member of `entries` has the key `key`.
pub open spec fn has_key(entries: Seq<(String, JsonValue)>, key: Seq<char>) -> bool {
    exists|i: int| 0 <= i < entries.len() && (#[trigger] entries[i]).0@ == key
}

/// The position of a member of `entries` with the key `key`.
pub open spec fn key_index(entries: Seq<(String, JsonValue)>, key: Seq<char>) -> int {
    choose|i: int| 0 <= i < entries.len() && (#[trigger] entries[i]).0@ == key
}

/// The keys of `entries`.
pub open spec fn key_set(entries: Seq<(String, JsonValue)>) -> Set<Seq<char>> {
    Set::new(|key: Seq<char>| has_key(entries, key))
}

/// The map from each key of `entries` to the document written under it.
pub open spec fn members_map(entries: Seq<(String, JsonValue)>) -> Map<Seq<char>, Json>
    decreases entries,
{
    Map::new(
        |key: Seq<char>| has_key(entries, key),
        |key: Seq<char>|
            if has_key(entries, key) {
                entries[key_index(entries, key)].1.view()
            } else {
                Json::Null
            },
    )
}

/// The keys of `entries` and the documents written under them, in order.
pub open spec fn listing_of(entries: Seq<(String, JsonValue)>) -> Seq<(Seq<char>, Json)> {
    Seq::new(entries.len(), |i: int| (entries[i].0@, entries[i].1@))
}

/// Some member of `listing` has the key `key`.
pub open spec fn lists_key(listing: Seq<(Seq<char>, Json)>, key: Seq<char>) -> bool {
    exists|i: int| 0 <= i < listing.len() && (#[trigger] listing[i]).0 == key
}

/// `listing` after `value` is put under `key`: in the place of the member
/// that had the key, or at the end where none had it.
pub open spec fn listing_with(listing: Seq<(Seq<char>, Json)>, key: Seq<char>, value: Json) -> Seq<
    (Seq<char>, Json),
> {
    if lists_key(listing, key) {
        listing.update(
            choose|i: int| 0 <= i < listing.len() && (#[trigger] listing[i]).0 == key,
            (key, value),
        )
    } else {
        listing.push((key, value))
    }
}

/// The documents that `items` denote, in order.
pub open spec fn items_seq(items: Seq<JsonValue>) -> Seq<Json>
    decreases items,
{
    Seq::new(
        items.len(),
        |i: int|
            if 0 <= i < items.len() {
                items[i].view()
            } else {
                Json::Null
            },
    )
}

impl View for JsonValue {
    type V = Json;

    open spec fn view(&self) -> Json
        decreases self,
    {
        match self {
            JsonValue::Null => Json::Null,
            JsonValue::Bool(b) => Json::Bool(*b),
            JsonValue::Number(n) => Json::Number(*n),
            JsonValue::Text(s) => Json::Text(s@),
            JsonValue::Array(items) => Json::Array(items_seq(items@)),
            JsonValue::Object(obj) => Json::Object(obj.view()),
        }
    }
}

impl View for JsonObject {
    type V = Map<Seq<char>, Json>;

    closed spec fn view(&self) -> Map<Seq<char>, Json>
        decreases self,
    {
        members_map(self.entries@)
    }
}

/// In a list without a repeated key, the member at `i` is the one its key
/// leads to.
pub proof fn lemma_member_at(entries: Seq<(String, JsonValue)>, i: int)
    requires
        distinct_keys(entries),
        0 <= i < entries.len(),
    ensures
        members_map(entries).contains_key(entries[i].0@),
        members_map(entries)[entries[i].0@] == entries[i].1@,
        key_index(entries, entries[i].0@) == i,
{
    let key = entries[i].0@;
    assert(has_key(entries, key));
    let j = key_index(entries, key);
    assert(entries[j].0@ == key);
    if j != i {
        if j < i {
            assert(entries[j].0@ != entries[i].0@);
        } else {
            assert(entries[i].0@ != entries[j].0@);
        }
    }
}

/// A list without a repeated key has as many keys as members.
pub proof fn lemma_key_count(entries: Seq<(String, JsonValue)>)
    requires
        distinct_keys(entries),
    ensures
        key_set(entries).finite(),
        key_set(entries).len() == entries.len(),
        members_map(entries).dom() == key_set(entries),
    decreases entries.len(),
{
    assert(members_map(entries).dom() =~= key_set(entries));
    if entries.len() == 0 {
        assert(key_set(entries) =~= Set::empty());
    } else {
        let front = entries.drop_last();
        let last_key = entries.last().0@;
        assert forall|i: int, j: int| 0 <= i < j < front.len() implies (#[trigger] front[i]).0@ != (
        #[trigger] front[j]).0@ by {
            assert(front[i] == entries[i]);
            assert(front[j] == entries[j]);
        }
        lemma_key_count(front);
        assert forall|key: Seq<char>| key_set(entries).contains(key) <==> key_set(front).insert(
            last_key,
        ).contains(key) by {
            if has_key(entries, key) {
                let i = key_index(entries, key);
                if i < front.len() {
                    assert(front[i].0@ == key);
                }
            }
            if has_key(front, key) {
                let i = key_index(front, key);
                assert(entries[i].0@ == key);
            }
            if key == last_key {
                assert(entries[entries.len() - 1].0@ == key);
            }
        }
        assert(key_set(entries) =~= key_set(front).insert(last_key));
        if has_key(front, last_key) {
            let i = key_index(front, last_key);
            assert(entries[i].0@ != entries[entries.len() - 1].0@);
        }
    }
}

impl JsonObject {
    #[verifier::type_invariant]
    spec fn keys_are_distinct(self) -> bool {
        distinct_keys(self.entries@)
    }

    /// The members as keys and documents, in the order in which their keys
    /// were first inserted.
    pub closed spec fn listing(&self) -> Seq<(Seq<char>, Json)> {
        listing_of(self.entries@)
    }

    /// An object without members.
    pub fn new() -> (object: JsonObject)
        ensures
            object@ == Map::<Seq<char>, Json>::empty(),
            object.listing() == Seq::<(Seq<char>, Json)>::empty(),
    {
        let object = JsonObject { entries: Vec::new() };
        assert(object@ =~= Map::<Seq<char>, Json>::empty());
        assert(object.listing() =~= Seq::<(Seq<char>, Json)>::empty());
        object
    }

    /// The members in the order in which their keys were first inserted:
    /// each key once, each with the document the object holds under it.
    pub fn members(&self) -> (entries: &Vec<(String, JsonValue)>)
        ensures
            distinct_keys(entries@),
            self@ == members_map(entries@),
            self.listing() == listing_of(entries@),
    {
        proof {
            use_type_invariant(self);
        }
        &self.entries
    }

    /// The number of members.
    pub fn len(&self) -> (count: usize)
        ensures
            self@.dom().finite(),
            count == self@.dom().len(),
    {
        proof {
            use_type_invariant(self);
            lemma_key_count(self.entries@);
        }
        self.entries.len()
    }

    /// The document held under `key`, if there is one.
    pub fn get(&self, key: &str) -> (found: Option<&JsonValue>)
        ensures
            match found {
                Some(value) => self@.contains_key(key@) && self@[key@] == value@,
                None => !self@.contains_key(key@),
            },
    {
        proof {
            use_type_invariant(self);
        }
        match position_in(&self.entries, key) {
            Some(i) => {
                proof {
                    lemma_member_at(self.entries@, i as int);
                }
                Some(&self.entries[i].1)
            },
            None => None,
        }
    }

    /// Puts `value` under `key`, in place of what was held there before. A
    /// key that is new comes last among the members; one that was there
    /// keeps its place.
    pub fn insert(&mut self, key: String, value: JsonValue)
        ensures
            final(self)@ == old(self)@.insert(key@, value@),
            final(self).listing() == listing_with(old(self).listing(), key@, value@),
    {
        proof {
            use_type_invariant(&*self);
        }
        let ghost before = self.entries@;
        let ghost new_key = key@;
        let ghost new_value = value@;
        let mut entries = Vec::new();
        std::mem::swap(&mut entries, &mut self.entries);
        match position_in(&entries, key.as_str()) {
            Some(i) => {
                entries.set(i, (key, value));
                proof {
                    let after = entries@;
                    assert forall|a: int, b: int| 0 <= a < b < after.len() implies (
                    #[trigger] after[a]).0@ != (#[trigger] after[b]).0@ by {
                        assert(after[a].0@ == before[a].0@);
                        assert(after[b].0@ == before[b].0@);
                    }
                    assert forall|k: Seq<char>| has_key(after, k) <==> (has_key(before, k) || k
                        == new_key) by {
                        if has_key(after, k) {
                            let j = key_index(after, k);
                            assert(before[j].0@ == k);
                        }
                        if has_key(before, k) {
                            let j = key_index(before, k);
                            assert(after[j].0@ == k);
                        }
                        if k == new_key {
                            assert(after[i as int].0@ == k);
                        }
                    }
                    assert forall|k: Seq<char>| has_key(after, k) implies #[trigger] members_map(
                        after,
                    )[k] == members_map(before).insert(new_key, new_value)[k] by {
                        let j = key_index(after, k);
                        lemma_member_at(after, j);
                        if j == i {
                        } else {
                            assert(before[j].0@ == k);
                            lemma_member_at(before, j);
                        }
                    }
                    assert(members_map(after) =~= members_map(before).insert(new_key, new_value));
                    let listed = listing_of(before);
                    assert(listed[i as int].0 == new_key);
                    let at = choose|j: int|
                        0 <= j < listed.len() && (#[trigger] listed[j]).0 == new_key;
                    if at != i {
                        if at < i {
                            assert(before[at].0@ != before[i as int].0@);
                        } else {
                            assert(before[i as int].0@ != before[at].0@);
                        }
                    }
                    assert(listing_of(after) =~= listed.update(at, (new_key, new_value)));
                }
            },
            None => {
                entries.push((key, value));
                proof {
                    let after = entries@;
                    let n = before.len() as int;
                    assert forall|a: int, b: int| 0 <= a < b < after.len() implies (
                    #[trigger] after[a]).0@ != (#[trigger] after[b]).0@ by {
                        assert(after[a] == before[a]);
                        if b < n {
                            assert(after[b] == before[b]);
                        } else {
                            assert(before[a].0@ != new_key);
                        }
                    }
                    assert forall|k: Seq<char>| has_key(after, k) <==> (has_key(before, k) || k
                        == new_key) by {
                        if has_key(after, k) {
                            let j = key_index(after, k);
                            if j < n {
                                assert(before[j].0@ == k);
                            }
                        }
                        if has_key(before, k) {
                            let j = key_index(before, k);
                            assert(after[j].0@ == k);
                        }
                        if k == new_key {
                            assert(after[n].0@ == k);
                        }
                    }
                    assert forall|k: Seq<char>| has_key(after, k) implies #[trigger] members_map(
                        after,
                    )[k] == members_map(before).insert(new_key, new_value)[k] by {
                        let j = key_index(after, k);
                        lemma_member_at(after, j);
                        if j == n {
                        } else {
                            assert(before[j].0@ == k);
                            lemma_member_at(before, j);
                        }
                    }
                    assert(members_map(after) =~= members_map(before).insert(new_key, new_value));
                    let listed = listing_of(before);
                    if lists_key(listed, new_key) {
                        let at = choose|j: int|
                            0 <= j < listed.len() && (#[trigger] listed[j]).0 == new_key;
                        assert(before[at].0@ == new_key);
                    }
                    assert(listing_of(after) =~= listed.push((new_key, new_value)));
                }
            },
        }
        self.entries = entries;
    }
}

fn position_in(entries: &Vec<(String, JsonValue)>, key: &str) -> (found: Option<usize>)
    ensures
        match found {
            Some(i) => i < entries@.len() && entries@[i as int].0@ == key@,
            None => !has_key(entries@, key@),
        },
{
    let mut i: usize = 0;
    while i < entries.len()
        invariant
            i <= entries@.len(),
            forall|j: int| 0 <= j < i ==> (#[trigger] entries@[j]).0@ != key@,
        decreases entries@.len() - i,
    {
        if entries[i].0.as_str().eq(key) {
            return Some(i);
        }
        i += 1;
    }
    None
}

/// Two lists with the same keys and the same documents at each position
/// denote the same members.
proof fn lemma_same_listing(a: Seq<(String, JsonValue)>, b: Seq<(String, JsonValue)>)
    requires
        distinct_keys(a),
        a.len() == b.len(),
        forall|i: int| 0 <= i < a.len() ==> (#[trigger] a[i]).0@ == b[i].0@ && a[i].1@ == b[i].1@,
    ensures
        distinct_keys(b),
        members_map(a) == members_map(b),
{
    assert forall|i: int, j: int| 0 <= i < j < b.len() implies (#[trigger] b[i]).0@ != (
    #[trigger] b[j]).0@ by {
        assert(a[i].0@ == b[i].0@);
        assert(a[j].0@ == b[j].0@);
    }
    assert forall|k: Seq<char>| has_key(a, k) <==> has_key(b, k) by {
        if has_key(a, k) {
            let i = key_index(a, k);
            assert(a[i].0@ == b[i].0@);
        }
        if has_key(b, k) {
            let i = key_index(b, k);
            assert(a[i].0@ == b[i].0@);
        }
    }
    assert forall|k: Seq<char>| has_key(a, k) implies #[trigger] members_map(a)[k] == members_map(
        b,
    )[k] by {
        let i = key_index(a, k);
        lemma_member_at(a, i);
        assert(a[i].0@ == b[i].0@);
        lemma_member_at(b, i);
    }
    assert(members_map(a) =~= members_map(b));
}

/// The order in which the members of an object are listed is no part of
/// what it denotes: two lists without a repeated key, of which the second
/// holds every member of the first and no more members than it, denote the
/// same members.
pub proof fn lemma_member_order(a: Seq<(String, JsonValue)>, b: Seq<(String, JsonValue)>)
    requires
        distinct_keys(a),
        distinct_keys(b),
        a.len() == b.len(),
        forall|i: int|
            0 <= i < a.len() ==> exists|j: int|
                0 <= j < b.len() && (#[trigger] b[j]).0@ == (#[trigger] a[i]).0@ && b[j].1@
                    == a[i].1@,
    ensures
        members_map(a) == members_map(b),
{
    lemma_key_count(a);
    lemma_key_count(b);
    assert forall|k: Seq<char>| members_map(a).dom().contains(k) implies members_map(
        b,
    ).dom().contains(k) && members_map(a)[k] == members_map(b)[k] by {
        let i = key_index(a, k);
        lemma_member_at(a, i);
        let j = choose|j: int|
            0 <= j < b.len() && (#[trigger] b[j]).0@ == (#[trigger] a[i]).0@ && b[j].1@ == a[i].1@;
        lemma_member_at(b, j);
    }
    assert(members_map(a).dom().subset_of(members_map(b).dom()));
    lemma_subset_equality(members_map(a).dom(), members_map(b).dom());
    assert(members_map(a) =~= members_map(b));
}

fn same_value(a: &JsonValue, b: &JsonValue) -> (same: bool)
    ensures
        same == (a@ == b@),
    decreases a,
{
    match a {
        JsonValue::Null => match b {
            JsonValue::Null => true,
            _ => false,
        },
        JsonValue::Bool(x) => match b {
            JsonValue::Bool(y) => *x == *y,
            _ => false,
        },
        JsonValue::Number(x) => match b {
            JsonValue::Number(y) => *x == *y,
            _ => false,
        },
        JsonValue::Text(x) => match b {
            JsonValue::Text(y) => x.as_str().eq(y.as_str()),
            _ => false,
        },
        JsonValue::Array(x) => match b {
            JsonValue::Array(y) => same_items(x, y),
            _ => false,
        },
        JsonValue::Object(x) => match b {
            JsonValue::Object(y) => same_members(x, y),
            _ => false,
        },
    }
}

fn same_items(a: &Vec<JsonValue>, b: &Vec<JsonValue>) -> (same: bool)
    ensures
        same == (items_seq(a@) == items_seq(b@)),
    decreases a,
{
    if a.len() != b.len() {
        assert(items_seq(a@).len() != items_seq(b@).len());
        return false;
    }
    let mut i: usize = 0;
    while i < a.len()
        invariant
            i <= a@.len(),
            a@.len() == b@.len(),
            forall|j: int| 0 <= j < i ==> (#[trigger] a@[j])@ == b@[j]@,
        decreases a@.len() - i,
    {
        if !same_value(&a[i], &b[i]) {
            assert(items_seq(a@)[i as int] != items_seq(b@)[i as int]);
            return false;
        }
        i += 1;
    }
    assert(items_seq(a@) =~= items_seq(b@));
    true
}

fn same_members(a: &JsonObject, b: &JsonObject) -> (same: bool)
    ensures
        same == (a@ == b@),
    decreases a,
{
    proof {
        use_type_invariant(a);
        use_type_invariant(b);
        lemma_key_count(a.entries@);
        lemma_key_count(b.entries@);
    }
    if a.entries.len() != b.entries.len() {
        return false;
    }
    let mut i: usize = 0;
    while i < a.entries.len()
        invariant
            i <= a.entries@.len(),
            distinct_keys(a.entries@),
            forall|j: int|
                0 <= j < i ==> b@.contains_key((#[trigger] a.entries@[j]).0@) && b@[a.entries@[j].0@]
                    == a.entries@[j].1@,
        decreases a.entries@.len() - i,
    {
        proof {
            lemma_member_at(a.entries@, i as int);
        }
        match b.get(a.entries[i].0.as_str()) {
            None => {
                return false;
            },
            Some(value) => {
                if !same_value(&a.entries[i].1, value) {
                    return false;
                }
            },
        }
        i += 1;
    }
    proof {
        assert forall|k: Seq<char>| a@.dom().contains(k) implies b@.dom().contains(k) && a@[k]
            == b@[k] by {
            let j = key_index(a.entries@, k);
            lemma_member_at(a.entries@, j);
        }
        assert(a@.dom().subset_of(b@.dom()));
        lemma_subset_equality(a@.dom(), b@.dom());
        assert(a@ =~= b@);
    }
    true
}

fn copy_value(value: &JsonValue) -> (copy: JsonValue)
    ensures
        copy@ == value@,
    decreases value,
{
    match value {
        JsonValue::Null => JsonValue::Null,
        JsonValue::Bool(b) => JsonValue::Bool(*b),
        JsonValue::Number(n) => JsonValue::Number(*n),
        JsonValue::Text(s) => JsonValue::Text(s.clone()),
        JsonValue::Array(items) => JsonValue::Array(copy_items(items)),
        JsonValue::Object(object) => JsonValue::Object(copy_members(object)),
    }
}

fn copy_items(items: &Vec<JsonValue>) -> (copy: Vec<JsonValue>)
    ensures
        items_seq(copy@) == items_seq(items@),
    decreases items,
{
    let mut copy: Vec<JsonValue> = Vec::new();
    let mut i: usize = 0;
    while i < items.len()
        invariant
            i <= items@.len(),
            copy@.len() == i,
            forall|j: int| 0 <= j < i ==> (#[trigger] copy@[j])@ == items@[j]@,
        decreases items@.len() - i,
    {
        copy.push(copy_value(&items[i]));
        i += 1;
    }
    assert(items_seq(copy@) =~= items_seq(items@));
    copy
}

fn copy_members(object: &JsonObject) -> (copy: JsonObject)
    ensures
        copy@ == object@,
        copy.listing() == object.listing(),
    decreases object,
{
    proof {
        use_type_invariant(object);
    }
    let mut entries: Vec<(String, JsonValue)> = Vec::new();
    let mut i: usize = 0;
    while i < object.entries.len()
        invariant
            i <= object.entries@.len(),
            entries@.len() == i,
            forall|j: int|
                0 <= j < i ==> (#[trigger] entries@[j]).0@ == object.entries@[j].0@ && entries@[j].1@
                    == object.entries@[j].1@,
        decreases object.entries@.len() - i,
    {
        entries.push((object.entries[i].0.clone(), copy_value(&object.entries[i].1)));
        i += 1;
    }
    proof {
        lemma_same_listing(object.entries@, entries@);
        assert(listing_of(entries@) =~= listing_of(object.entries@));
    }
    JsonObject { entries }
}

impl Clone for JsonValue {
    fn clone(&self) -> (copy: JsonValue)
        ensures
            copy@ == self@,
    {
        copy_value(self)
    }
}

impl Clone for JsonObject {
    fn clone(&self) -> (copy: JsonObject)
        ensures
            copy@ == self@,
            copy.listing() == self.listing(),
    {
        copy_members(self)
    }
}

impl PartialEq for JsonValue {
    fn eq(&self, other: &JsonValue) -> (same: bool) {
        same_value(self, other)
    }
}

impl vstd::std_specs::cmp::PartialEqSpecImpl for JsonValue {
    open spec fn obeys_eq_spec() -> bool {
        true
    }

    open spec fn eq_spec(&self, other: &JsonValue) -> bool {
        self@ == other@
    }
}

impl PartialEq for JsonObject {
    fn eq(&self, other: &JsonObject) -> (same: bool) {
        same_members(self, other)
    }
}

impl vstd::std_specs::cmp::PartialEqSpecImpl for JsonObject {
    open spec fn obeys_eq_spec() -> bool {
        true
    }

    open spec fn eq_spec(&self, other: &JsonObject) -> bool {
        self@ == other@
    }
}

impl Json {
    /// The document under `key`, where this is an object that has the key.
    pub open spec fn member(self, key: Seq<char>) -> Option<Json> {
        match self {
            Json::Object(members) => if members.contains_key(key) {
                Some(members[key])
            } else {
                None
            },
            _ => None,
        }
    }

    /// The characters of this document, where it is a string.
    pub open spec fn text(self) -> Option<Seq<char>> {
        match self {
            Json::Text(chars) => Some(chars),
            _ => None,
        }
    }
}

impl JsonValue {
    /// The member under `key`; `None` where this is no object or has no such
    /// member.
    pub fn get(&self, key: &str) -> (found: Option<&JsonValue>)
        ensures
            match found {
                Some(value) => self@.member(key@) == Some(value@),
                None => self@.member(key@) is None,
            },
    {
        match self {
            JsonValue::Object(object) => object.get(key),
            _ => None,
        }
    }

    /// The string this document is; `None` where it is none.
    pub fn as_str(&self) -> (found: Option<&str>)
        ensures
            match found {
                Some(text) => self@.text() == Some(text@),
                None => self@.text() is None,
            },
    {
        match self {
            JsonValue::Text(text) => Some(text.as_str()),
            _ => None,
        }
    }
}

} // verus!
