//! JSON values: the tree that metadata, receipts and responses are made of.
use vstd::prelude::*;

use crate::lexical::put_ascending;
#[allow(unused_imports)]
use crate::lexical::{least_distinct, lemma_least_distinct_unique, strictly_ascending};
#[allow(unused_imports)]
use crate::seqs::lemma_texts_push;
use crate::text::{fixed_point, same};
#[allow(unused_imports)]
use crate::text::{fixed_text, texts};

verus! {

/// A JSON number.
#[derive(Debug)]
pub enum Number {
    /// An integer that is at least zero.
    Natural(u64),
    /// An integer below zero.
    Negative(i64),
    /// Any other number, by the shortest numeral that is read as the same number.
    Decimal(String),
}

/// What a JSON number is.
pub enum NumberV {
    Natural(u64),
    Negative(i64),
    Decimal(Seq<char>),
}

impl View for Number {
    type V = NumberV;

    open spec fn view(&self) -> NumberV {
        match self {
            Number::Natural(n) => NumberV::Natural(*n),
            Number::Negative(n) => NumberV::Negative(*n),
            Number::Decimal(t) => NumberV::Decimal(t@),
        }
    }
}

impl Number {
    /// The number again.
    pub fn copy(&self) -> (r: Number)
        ensures
            r@ == self@,
    {
        match self {
            Number::Natural(n) => Number::Natural(*n),
            Number::Negative(n) => Number::Negative(*n),
            Number::Decimal(t) => Number::Decimal(t.clone()),
        }
    }

    fn settle(&self) -> (r: Number)
        ensures
            r@ == settled_number(self@),
    {
        match self {
            Number::Decimal(t) => {
                if same(t.as_str(), "-0.0") {
                    Number::Decimal("0.0".to_owned())
                } else {
                    Number::Decimal(t.clone())
                }
            },
            other => other.copy(),
        }
    }

    fn same(&self, other: &Number) -> (r: bool)
        ensures
            r == (self@ == other@),
    {
        match (self, other) {
            (Number::Natural(a), Number::Natural(b)) => *a == *b,
            (Number::Negative(a), Number::Negative(b)) => *a == *b,
            (Number::Decimal(a), Number::Decimal(b)) => *a == *b,
            _ => false,
        }
    }
}

/// A number of billionths as a decimal fraction.
pub open spec fn billionths(n: int) -> JsonV {
    JsonV::Number(NumberV::Decimal(fixed_text(n)))
}

/// A JSON value. Where a key of an object stands twice, its first value counts.
#[derive(Debug)]
pub enum Json {
    Null,
    Bool(bool),
    Number(Number),
    Text(String),
    Array(Vec<Json>),
    Object(Vec<(String, Json)>),
}

/// What a JSON value is: objects are finite maps, arrays are sequences.
#[verifier::ext_equal]
pub enum JsonV {
    Null,
    Bool(bool),
    Number(NumberV),
    Text(Seq<char>),
    Array(Seq<JsonV>),
    Object(Map<Seq<char>, JsonV>),
}

impl View for Json {
    type V = JsonV;

    open spec fn view(&self) -> JsonV {
        json_view(*self)
    }
}

pub open spec fn json_view(value: Json) -> JsonV
    decreases value,
{
    match value {
        Json::Null => JsonV::Null,
        Json::Bool(b) => JsonV::Bool(b),
        Json::Number(n) => JsonV::Number(n@),
        Json::Text(t) => JsonV::Text(t@),
        Json::Array(items) => JsonV::Array(
            Seq::new(
                items@.len(),
                |i: int|
                    if 0 <= i < items@.len() {
                        json_view(items@[i])
                    } else {
                        JsonV::Null
                    },
            ),
        ),
        Json::Object(entries) => JsonV::Object(entries_view(entries@)),
    }
}

/// The views of the elements of a sequence of values.
pub open spec fn items_view(items: Seq<Json>) -> Seq<JsonV> {
    Seq::new(items.len(), |i: int| items[i]@)
}

pub open spec fn entries_view(entries: Seq<(String, Json)>) -> Map<Seq<char>, JsonV>
    decreases entries,
{
    if entries.len() == 0 {
        Map::empty()
    } else {
        entries_view(entries.drop_first()).insert(entries[0].0@, json_view(entries[0].1))
    }
}

impl JsonV {
    /// The member of an object under a key; nothing where the value is no object.
    pub open spec fn get(self, key: Seq<char>) -> Option<JsonV> {
        match self {
            JsonV::Object(m) => if m.dom().contains(key) {
                Some(m[key])
            } else {
                None
            },
            _ => None,
        }
    }

    pub open spec fn text(self) -> Option<Seq<char>> {
        match self {
            JsonV::Text(t) => Some(t),
            _ => None,
        }
    }

    /// The member under a key, where it is a text.
    pub open spec fn get_text(self, key: Seq<char>) -> Option<Seq<char>> {
        match self.get(key) {
            Some(v) => v.text(),
            None => None,
        }
    }

    pub open spec fn items(self) -> Option<Seq<JsonV>> {
        match self {
            JsonV::Array(items) => Some(items),
            _ => None,
        }
    }

    /// The value as a signed integer of 64 bits.
    pub open spec fn integer(self) -> Option<int> {
        match self {
            JsonV::Number(NumberV::Natural(n)) => if n <= i64::MAX {
                Some(n as int)
            } else {
                None
            },
            JsonV::Number(NumberV::Negative(n)) => Some(n as int),
            _ => None,
        }
    }

    pub open spec fn get_integer(self, key: Seq<char>) -> Option<int> {
        match self.get(key) {
            Some(v) => v.integer(),
            None => None,
        }
    }

    /// The object with a member put in, or put in the place of an earlier one.
    pub open spec fn with(self, key: Seq<char>, value: JsonV) -> JsonV {
        match self {
            JsonV::Object(m) => JsonV::Object(m.insert(key, value)),
            other => other,
        }
    }

    pub open spec fn without(self, key: Seq<char>) -> JsonV {
        match self {
            JsonV::Object(m) => JsonV::Object(m.remove(key)),
            other => other,
        }
    }
}

/// A number with the sign of zero taken away.
pub open spec fn settled_number(n: NumberV) -> NumberV {
    if n == NumberV::Decimal("-0.0"@) {
        NumberV::Decimal("0.0"@)
    } else {
        n
    }
}

/// A value with the sign of every zero in it taken away.
pub open spec fn settled(value: JsonV) -> JsonV
    decreases value,
{
    match value {
        JsonV::Number(n) => JsonV::Number(settled_number(n)),
        JsonV::Array(items) => JsonV::Array(
            Seq::new(
                items.len(),
                |i: int|
                    if 0 <= i < items.len() {
                        settled(items[i])
                    } else {
                        JsonV::Null
                    },
            ),
        ),
        JsonV::Object(m) => JsonV::Object(
            Map::new(
                |k: Seq<char>| m.dom().contains(k),
                |k: Seq<char>|
                    if m.dom().contains(k) {
                        settled(m[k])
                    } else {
                        JsonV::Null
                    },
            ),
        ),
        other => other,
    }
}

/// Whether two values are equal, as JSON values are: zero has no sign.
pub open spec fn alike(a: JsonV, b: JsonV) -> bool {
    settled(a) == settled(b)
}

proof fn lemma_settled_insert(m: Map<Seq<char>, JsonV>, key: Seq<char>, value: JsonV)
    ensures
        settled(JsonV::Object(m.insert(key, value))) == settled(JsonV::Object(m)).with(
            key,
            settled(value),
        ),
{
    let a = settled(JsonV::Object(m.insert(key, value)))->Object_0;
    let b = settled(JsonV::Object(m))->Object_0.insert(key, settled(value));
    assert(a =~= b);
}

/// The keys of an object in ascending order.
pub open spec fn lists_keys(keys: Seq<Seq<char>>, all: Set<Seq<char>>) -> bool {
    &&& strictly_ascending(keys)
    &&& forall|k: Seq<char>| #[trigger] keys.contains(k) <==> all.contains(k)
}

/// The keys of an object in ascending order.
pub open spec fn keys_in_order(all: Set<Seq<char>>) -> Seq<Seq<char>> {
    choose|keys: Seq<Seq<char>>| #[trigger] lists_keys(keys, all)
}

/// The order of the keys is settled by the keys.
proof fn lemma_keys_in_order(keys: Seq<Seq<char>>, all: Set<Seq<char>>)
    requires
        lists_keys(keys, all),
    ensures
        keys_in_order(all) == keys,
{
    let other = keys_in_order(all);
    let limit = keys.len() + other.len();
    assert forall|i: int| 0 <= i < keys.len() implies keys.contains(#[trigger] keys[i]) by {}
    assert forall|i: int| 0 <= i < other.len() implies keys.contains(#[trigger] other[i]) by {
        assert(other.contains(other[i]));
    }
    assert(least_distinct(keys, keys, limit as int));
    assert(least_distinct(other, keys, limit as int));
    lemma_least_distinct_unique(keys, other, keys, limit as int);
}

/// The texts that stand in a value, as the value or inside it: the items of an array
/// in their order, and the members of an object in the order of their keys, which do
/// not count themselves.
pub open spec fn text_leaves(value: JsonV) -> Seq<Seq<char>>
    decreases value, 1nat, 0nat,
{
    match value {
        JsonV::Text(t) => seq![t],
        JsonV::Array(items) => item_leaves(value, items.len()),
        JsonV::Object(m) => member_leaves(value, keys_in_order(m.dom())),
        _ => Seq::empty(),
    }
}

/// The texts in the first `n` items of an array.
pub open spec fn item_leaves(array: JsonV, n: nat) -> Seq<Seq<char>>
    decreases array, 0nat, n,
{
    match array {
        JsonV::Array(items) => if 0 < n <= items.len() {
            item_leaves(array, (n - 1) as nat) + text_leaves(items[n - 1])
        } else {
            Seq::empty()
        },
        _ => Seq::empty(),
    }
}

/// The texts in the members of an object under keys.
pub open spec fn member_leaves(value: JsonV, keys: Seq<Seq<char>>) -> Seq<Seq<char>>
    decreases value, 0nat, keys.len(),
{
    match value {
        JsonV::Object(m) => if keys.len() == 0 {
            Seq::empty()
        } else {
            member_leaves(value, keys.drop_last()) + (if m.dom().contains(keys.last()) {
                text_leaves(m[keys.last()])
            } else {
                Seq::empty()
            })
        },
        _ => Seq::empty(),
    }
}

/// The empty object.
pub open spec fn object() -> JsonV {
    JsonV::Object(Map::empty())
}

/// An integer as a JSON number.
pub open spec fn integer(n: int) -> JsonV {
    if n >= 0 {
        JsonV::Number(NumberV::Natural(n as u64))
    } else {
        JsonV::Number(NumberV::Negative(n as i64))
    }
}

/// An optional text, `null` where it is absent.
pub open spec fn optional_text(t: Option<Seq<char>>) -> JsonV {
    match t {
        Some(t) => JsonV::Text(t),
        None => JsonV::Null,
    }
}

pub open spec fn optional_integer(n: Option<i64>) -> JsonV {
    match n {
        Some(n) => integer(n as int),
        None => JsonV::Null,
    }
}

proof fn lemma_entries_absent(entries: Seq<(String, Json)>, key: Seq<char>)
    requires
        forall|i: int| 0 <= i < entries.len() ==> (#[trigger] entries[i]).0@ != key,
    ensures
        !entries_view(entries).dom().contains(key),
    decreases entries.len(),
{
    if entries.len() > 0 {
        let rest = entries.drop_first();
        assert forall|i: int| 0 <= i < rest.len() implies (#[trigger] rest[i]).0@ != key by {
            assert(rest[i] == entries[i + 1]);
        }
        lemma_entries_absent(rest, key);
        assert(entries[0].0@ != key);
    }
}

proof fn lemma_entries_first(entries: Seq<(String, Json)>, key: Seq<char>, at: int)
    requires
        0 <= at < entries.len(),
        entries[at].0@ == key,
        forall|i: int| 0 <= i < at ==> (#[trigger] entries[i]).0@ != key,
    ensures
        entries_view(entries).dom().contains(key),
        entries_view(entries)[key] == entries[at].1@,
    decreases entries.len(),
{
    if at > 0 {
        let rest = entries.drop_first();
        assert forall|i: int| 0 <= i < at - 1 implies (#[trigger] rest[i]).0@ != key by {
            assert(rest[i] == entries[i + 1]);
        }
        assert(rest[at - 1] == entries[at]);
        assert(entries[0].0@ != key);
        lemma_entries_first(rest, key, at - 1);
    }
}

proof fn lemma_entries_push(entries: Seq<(String, Json)>, entry: (String, Json))
    requires
        forall|i: int| 0 <= i < entries.len() ==> (#[trigger] entries[i]).0@ != entry.0@,
    ensures
        entries_view(entries.push(entry)) == entries_view(entries).insert(entry.0@, entry.1@),
    decreases entries.len(),
{
    let all = entries.push(entry);
    if entries.len() == 0 {
        assert(all.drop_first() =~= Seq::<(String, Json)>::empty());
        assert(entries_view(all.drop_first()) =~= Map::<Seq<char>, JsonV>::empty());
    } else {
        let rest = entries.drop_first();
        assert forall|i: int| 0 <= i < rest.len() implies (#[trigger] rest[i]).0@ != entry.0@ by {
            assert(rest[i] == entries[i + 1]);
        }
        assert(all.drop_first() =~= rest.push(entry));
        lemma_entries_push(rest, entry);
        assert(entries[0].0@ != entry.0@);
        assert(entries_view(all) =~= entries_view(entries).insert(entry.0@, entry.1@));
    }
}

/// Pushing at the back never changes what is found under another key.
proof fn lemma_entries_push_other(entries: Seq<(String, Json)>, entry: (String, Json))
    ensures
        entries_view(entries.push(entry)) == if entries_view(entries).dom().contains(entry.0@) {
            entries_view(entries)
        } else {
            entries_view(entries).insert(entry.0@, entry.1@)
        },
    decreases entries.len(),
{
    let all = entries.push(entry);
    if entries.len() == 0 {
        assert(all.drop_first() =~= Seq::<(String, Json)>::empty());
        assert(entries_view(all.drop_first()) =~= Map::<Seq<char>, JsonV>::empty());
        assert(entries_view(all) =~= Map::<Seq<char>, JsonV>::empty().insert(entry.0@, entry.1@));
    } else {
        let rest = entries.drop_first();
        assert(all.drop_first() =~= rest.push(entry));
        lemma_entries_push_other(rest, entry);
        let k = entries[0].0@;
        let v = entries[0].1@;
        assert(entries_view(all) == entries_view(rest.push(entry)).insert(k, v));
        if entries_view(entries).dom().contains(entry.0@) {
            assert(entries_view(all) =~= entries_view(entries));
        } else {
            assert(entries_view(all) =~= entries_view(entries).insert(entry.0@, entry.1@));
        }
    }
}

/// The position of the first entry under a key.
fn position(entries: &Vec<(String, Json)>, key: &str) -> (r: Option<usize>)
    ensures
        match r {
            Some(at) => at < entries@.len() && entries@[at as int].0@ == key@
                && entries_view(entries@).dom().contains(key@)
                && entries_view(entries@)[key@] == entries@[at as int].1@
                && forall|i: int| 0 <= i < at ==> (#[trigger] entries@[i]).0@ != key@,
            None => !entries_view(entries@).dom().contains(key@)
                && forall|i: int| 0 <= i < entries@.len() ==> (#[trigger] entries@[i]).0@ != key@,
        },
{
    let wanted: String = key.to_owned();
    let mut at: usize = 0;
    while at < entries.len()
        invariant
            at <= entries@.len(),
            wanted@ == key@,
            forall|i: int| 0 <= i < at ==> (#[trigger] entries@[i]).0@ != key@,
        decreases entries@.len() - at,
    {
        if entries[at].0 == wanted {
            proof {
                lemma_entries_first(entries@, key@, at as int);
            }
            return Some(at);
        }
        at = at + 1;
    }
    proof {
        lemma_entries_absent(entries@, key@);
    }
    None
}

/// The keys of an object in ascending order, each once.
fn ordered_keys(entries: &Vec<(String, Json)>) -> (r: Vec<String>)
    ensures
        lists_keys(texts(r@), entries_view(entries@).dom()),
{
    let mut keys: Vec<String> = Vec::new();
    let mut i: usize = 0;
    assert(entries@.take(0) =~= Seq::<(String, Json)>::empty());
    while i < entries.len()
        invariant
            i <= entries@.len(),
            lists_keys(texts(keys@), entries_view(entries@.take(i as int)).dom()),
        decreases entries@.len() - i,
    {
        let ghost front = entries@.take(i as int);
        proof {
            lemma_entries_push_other(front, entries@[i as int]);
            assert(front.push(entries@[i as int]) =~= entries@.take(i + 1));
        }
        put_ascending(&mut keys, entries[i].0.clone());
        i = i + 1;
    }
    assert(entries@.take(i as int) =~= entries@);
    keys
}

impl Json {
    /// A text value.
    pub fn text(t: &str) -> (r: Json)
        ensures
            r@ == JsonV::Text(t@),
    {
        Json::Text(t.to_owned())
    }

    /// An integer value.
    pub fn integer(n: i64) -> (r: Json)
        ensures
            r@ == integer(n as int),
    {
        if n >= 0 {
            Json::Number(Number::Natural(n as u64))
        } else {
            Json::Number(Number::Negative(n))
        }
    }

    /// A count.
    pub fn count(n: usize) -> (r: Json)
        ensures
            r@ == integer(n as int),
    {
        Json::Number(Number::Natural(n as u64))
    }

    /// A natural number of 64 bits.
    pub fn natural(n: u64) -> (r: Json)
        ensures
            r@ == integer(n as int),
    {
        Json::Number(Number::Natural(n))
    }

    /// A number of billionths as a decimal fraction.
    pub fn billionths(n: i64) -> (r: Json)
        ensures
            r@ == billionths(n as int),
    {
        Json::Number(Number::Decimal(fixed_point(n)))
    }

    /// A text, or `null`.
    pub fn optional_text(t: &Option<String>) -> (r: Json)
        ensures
            r@ == optional_text(
                match t {
                    Some(t) => Some(t@),
                    None => None,
                },
            ),
    {
        match t {
            Some(t) => Json::Text(t.clone()),
            None => Json::Null,
        }
    }

    /// An integer, or `null`.
    pub fn optional_integer(n: Option<i64>) -> (r: Json)
        ensures
            r@ == optional_integer(n),
    {
        match n {
            Some(n) => Json::integer(n),
            None => Json::Null,
        }
    }

    /// The object without members.
    pub fn object() -> (r: Json)
        ensures
            r@ == object(),
    {
        let entries: Vec<(String, Json)> = Vec::new();
        assert(entries_view(entries@) =~= Map::<Seq<char>, JsonV>::empty());
        Json::Object(entries)
    }

    /// An array.
    pub fn array(items: Vec<Json>) -> (r: Json)
        ensures
            r@ == JsonV::Array(items_view(items@)),
    {
        let r = Json::Array(items);
        assert(r@->Array_0 =~= items_view(items@));
        r
    }

    /// The value again.
    pub fn copy(&self) -> (r: Json)
        ensures
            r@ == self@,
        decreases self,
    {
        match self {
            Json::Null => Json::Null,
            Json::Bool(b) => Json::Bool(*b),
            Json::Number(n) => Json::Number(n.copy()),
            Json::Text(t) => Json::Text(t.clone()),
            Json::Array(items) => {
                let mut out: Vec<Json> = Vec::new();
                let mut i: usize = 0;
                while i < items.len()
                    invariant
                        i <= items@.len(),
                        out@.len() == i,
                        *self == Json::Array(*items),
                        forall|k: int| 0 <= k < i ==> (#[trigger] out@[k])@ == items@[k]@,
                    decreases items@.len() - i,
                {
                    let item = &items[i];
                    proof {
                        assert(self->Array_0@[i as int] == items@[i as int]);
                        assert(decreases_to!(*self => self->Array_0@[i as int]));
                    }
                    out.push(item.copy());
                    i = i + 1;
                }
                let r = Json::Array(out);
                assert(r@->Array_0 =~= self@->Array_0);
                r
            },
            Json::Object(entries) => {
                let mut out: Vec<(String, Json)> = Vec::new();
                let mut i: usize = 0;
                while i < entries.len()
                    invariant
                        i <= entries@.len(),
                        out@.len() == i,
                        *self == Json::Object(*entries),
                        entries_view(out@) == entries_view(entries@.take(i as int)),
                    decreases entries@.len() - i,
                {
                    let entry = &entries[i];
                    proof {
                        assert(self->Object_0@[i as int] == entries@[i as int]);
                        assert(decreases_to!(*self => self->Object_0@[i as int]));
                        assert(decreases_to!(*self => self->Object_0@[i as int].1));
                    }
                    let value = entry.1.copy();
                    let ghost before = out@;
                    out.push((entry.0.clone(), value));
                    proof {
                        lemma_entries_push_other(before, out@[i as int]);
                        lemma_entries_push_other(entries@.take(i as int), entries@[i as int]);
                        assert(entries@.take(i as int).push(entries@[i as int]) =~= entries@.take(
                            i + 1,
                        ));
                        assert(out@ =~= before.push(out@[i as int]));
                    }
                    i = i + 1;
                }
                assert(entries@.take(i as int) =~= entries@);
                Json::Object(out)
            },
        }
    }

    /// The member of an object under a key.
    pub fn get(&self, key: &str) -> (r: Option<&Json>)
        ensures
            match r {
                Some(v) => self@.get(key@) == Some(v@),
                None => self@.get(key@) is None,
            },
    {
        match self {
            Json::Object(entries) => match position(entries, key) {
                Some(at) => Some(&entries[at].1),
                None => None,
            },
            _ => None,
        }
    }

    /// The characters of a text value.
    pub fn as_text(&self) -> (r: Option<&String>)
        ensures
            match r {
                Some(t) => self@.text() == Some(t@),
                None => self@.text() is None,
            },
    {
        match self {
            Json::Text(t) => Some(t),
            _ => None,
        }
    }

    /// The member under a key, where it is a text.
    pub fn get_text(&self, key: &str) -> (r: Option<&String>)
        ensures
            match r {
                Some(t) => self@.get_text(key@) == Some(t@),
                None => self@.get_text(key@) is None,
            },
    {
        match self.get(key) {
            Some(v) => v.as_text(),
            None => None,
        }
    }

    /// The value as a signed integer of 64 bits.
    pub fn as_integer(&self) -> (r: Option<i64>)
        ensures
            match r {
                Some(n) => self@.integer() == Some(n as int),
                None => self@.integer() is None,
            },
    {
        match self {
            Json::Number(Number::Natural(n)) => if *n <= 0x7fff_ffff_ffff_ffffu64 {
                Some(*n as i64)
            } else {
                None
            },
            Json::Number(Number::Negative(n)) => Some(*n),
            _ => None,
        }
    }

    /// The member under a key, where it is a signed integer of 64 bits.
    pub fn get_integer(&self, key: &str) -> (r: Option<i64>)
        ensures
            match r {
                Some(n) => self@.get_integer(key@) == Some(n as int),
                None => self@.get_integer(key@) is None,
            },
    {
        match self.get(key) {
            Some(v) => v.as_integer(),
            None => None,
        }
    }

    pub fn is_object(&self) -> (r: bool)
        ensures
            r == (self@ is Object),
    {
        match self {
            Json::Object(_) => true,
            _ => false,
        }
    }

    pub fn is_null(&self) -> (r: bool)
        ensures
            r == (self@ is Null),
    {
        match self {
            Json::Null => true,
            _ => false,
        }
    }

    /// The elements of an array.
    pub fn as_array(&self) -> (r: Option<&Vec<Json>>)
        ensures
            match r {
                Some(items) => self@ == JsonV::Array(items_view(items@)),
                None => self@.items() is None,
            },
    {
        match self {
            Json::Array(items) => {
                assert(self@->Array_0 =~= items_view(items@));
                Some(items)
            },
            _ => None,
        }
    }

    /// The object with a member put in, or put in the place of an earlier one. A
    /// value that is no object stays as it is.
    pub fn with(self, key: &str, value: Json) -> (r: Json)
        ensures
            r@ == self@.with(key@, value@),
    {
        let ghost before = self@;
        match self.without(key) {
            Json::Object(entries) => {
                let mut entries = entries;
                let ghost kept = entries@;
                entries.push((key.to_owned(), value));
                proof {
                    lemma_entries_push_other(kept, entries@[kept.len() as int]);
                    assert(entries@ =~= kept.push(entries@[kept.len() as int]));
                    assert(entries_view(entries@) =~= before->Object_0.insert(key@, value@));
                }
                Json::Object(entries)
            },
            other => other,
        }
    }

    /// The object without the member under a key. A value that is no object stays
    /// as it is.
    pub fn without(self, key: &str) -> (r: Json)
        ensures
            r@ == self@.without(key@),
    {
        match self {
            Json::Object(entries) => {
                let wanted: String = key.to_owned();
                let mut out: Vec<(String, Json)> = Vec::new();
                let ghost all = entries@;
                let mut rest = entries;
                while rest.len() > 0
                    invariant
                        wanted@ == key@,
                        entries_view(all).remove(key@) == entries_view(rest@).remove(
                            key@,
                        ).union_prefer_right(entries_view(out@)),
                        !entries_view(out@).dom().contains(key@),
                    decreases rest@.len(),
                {
                    let ghost before = rest@;
                    let ghost kept = out@;
                    let entry = rest.remove(0);
                    assert(rest@ =~= before.drop_first());
                    assert(entry == before[0]);
                    if !(entry.0 == wanted) {
                        out.push(entry);
                        proof {
                            lemma_entries_push_other(kept, entry);
                            assert(out@ =~= kept.push(entry));
                        }
                    }
                    assert(entries_view(before) == entries_view(rest@).insert(
                        before[0].0@,
                        before[0].1@,
                    ));
                    assert(entries_view(before).remove(key@).union_prefer_right(entries_view(kept))
                        =~= entries_view(rest@).remove(key@).union_prefer_right(
                        entries_view(out@),
                    ));
                }
                assert(entries_view(all).remove(key@) =~= entries_view(out@));
                Json::Object(out)
            },
            other => other,
        }
    }

    /// Adds the texts that stand in the value to a list.
    pub fn collect_texts(&self, out: &mut Vec<String>)
        ensures
            texts(final(out)@) == texts(old(out)@) + text_leaves(self@),
        decreases self,
    {
        let ghost start = texts(out@);
        match self {
            Json::Text(text) => {
                let ghost held = out@;
                out.push(text.clone());
                proof {
                    lemma_texts_push(held, out@[held.len() as int]);
                    assert(texts(out@) =~= start + seq![text@]);
                }
            },
            Json::Array(items) => {
                let mut i: usize = 0;
                assert(texts(out@) =~= start + item_leaves(self@, 0));
                while i < items.len()
                    invariant
                        i <= items@.len(),
                        *self == Json::Array(*items),
                        texts(out@) == start + item_leaves(self@, i as nat),
                    decreases items@.len() - i,
                {
                    proof {
                        assert(self->Array_0@[i as int] == items@[i as int]);
                        assert(decreases_to!(*self => self->Array_0@[i as int]));
                        assert(self@->Array_0[i as int] == items@[i as int]@);
                    }
                    items[i].collect_texts(out);
                    assert(texts(out@) =~= start + item_leaves(self@, (i + 1) as nat));
                    i = i + 1;
                }
            },
            Json::Object(entries) => {
                let keys = ordered_keys(entries);
                let ghost all = texts(keys@);
                let ghost m = entries_view(entries@);
                proof {
                    lemma_keys_in_order(all, m.dom());
                }
                let mut i: usize = 0;
                assert(texts(out@) =~= start + member_leaves(self@, all.take(0)));
                while i < keys.len()
                    invariant
                        i <= keys@.len(),
                        *self == Json::Object(*entries),
                        m == entries_view(entries@),
                        all == texts(keys@),
                        forall|k: Seq<char>| #[trigger] all.contains(k) <==> m.dom().contains(k),
                        texts(out@) == start + member_leaves(self@, all.take(i as int)),
                    decreases keys@.len() - i,
                {
                    proof {
                        assert(all.take(i + 1).drop_last() =~= all.take(i as int));
                        assert(all.take(i + 1).last() == keys@[i as int]@);
                        assert(all[i as int] == keys@[i as int]@);
                        assert(all.contains(all[i as int]));
                    }
                    match position(entries, keys[i].as_str()) {
                        Some(at) => {
                            proof {
                                assert(self->Object_0@[at as int] == entries@[at as int]);
                                assert(decreases_to!(*self => self->Object_0@[at as int]));
                                assert(decreases_to!(*self => self->Object_0@[at as int].1));
                            }
                            entries[at].1.collect_texts(out);
                        },
                        None => {},
                    }
                    assert(texts(out@) =~= start + member_leaves(self@, all.take(i + 1)));
                    i = i + 1;
                }
                assert(all.take(i as int) =~= all);
            },
            _ => {
                assert(texts(out@) =~= start + text_leaves(self@));
            },
        }
    }

    /// Whether the value is the object without members.
    pub fn is_empty_object(&self) -> (r: bool)
        ensures
            r == (self@ == object()),
    {
        match self {
            Json::Object(entries) => {
                proof {
                    if entries@.len() > 0 {
                        assert(entries_view(entries@).dom().contains(entries@[0].0@));
                        assert(!Map::<Seq<char>, JsonV>::empty().dom().contains(entries@[0].0@));
                    } else {
                        assert(entries_view(entries@) =~= Map::<Seq<char>, JsonV>::empty());
                    }
                }
                entries.len() == 0
            },
            _ => false,
        }
    }

    /// The value with the sign of every zero in it taken away.
    fn settle(&self) -> (r: Json)
        ensures
            r@ == settled(self@),
        decreases self,
    {
        match self {
            Json::Null => Json::Null,
            Json::Bool(b) => Json::Bool(*b),
            Json::Number(n) => Json::Number(n.settle()),
            Json::Text(t) => Json::Text(t.clone()),
            Json::Array(items) => {
                let mut out: Vec<Json> = Vec::new();
                let mut i: usize = 0;
                while i < items.len()
                    invariant
                        i <= items@.len(),
                        out@.len() == i,
                        *self == Json::Array(*items),
                        forall|k: int| 0 <= k < i ==> (#[trigger] out@[k])@ == settled(items@[k]@),
                    decreases items@.len() - i,
                {
                    let item = &items[i];
                    proof {
                        assert(self->Array_0@[i as int] == items@[i as int]);
                        assert(decreases_to!(*self => self->Array_0@[i as int]));
                    }
                    out.push(item.settle());
                    i = i + 1;
                }
                let r = Json::Array(out);
                assert(r@->Array_0 =~= settled(self@)->Array_0);
                r
            },
            Json::Object(entries) => {
                let mut out: Vec<(String, Json)> = Vec::new();
                let mut i: usize = 0;
                assert(entries@.take(0) =~= Seq::<(String, Json)>::empty());
                assert(settled(JsonV::Object(entries_view(entries@.take(0))))->Object_0
                    =~= entries_view(out@));
                while i < entries.len()
                    invariant
                        i <= entries@.len(),
                        out@.len() == i,
                        *self == Json::Object(*entries),
                        JsonV::Object(entries_view(out@)) == settled(
                            JsonV::Object(entries_view(entries@.take(i as int))),
                        ),
                    decreases entries@.len() - i,
                {
                    let entry = &entries[i];
                    proof {
                        assert(self->Object_0@[i as int] == entries@[i as int]);
                        assert(decreases_to!(*self => self->Object_0@[i as int]));
                        assert(decreases_to!(*self => self->Object_0@[i as int].1));
                    }
                    let value = entry.1.settle();
                    let ghost before = out@;
                    out.push((entry.0.clone(), value));
                    proof {
                        let front = entries@.take(i as int);
                        lemma_entries_push_other(before, out@[i as int]);
                        lemma_entries_push_other(front, entries@[i as int]);
                        lemma_settled_insert(
                            entries_view(front),
                            entries@[i as int].0@,
                            entries@[i as int].1@,
                        );
                        assert(front.push(entries@[i as int]) =~= entries@.take(i + 1));
                        assert(out@ =~= before.push(out@[i as int]));
                    }
                    i = i + 1;
                }
                assert(entries@.take(i as int) =~= entries@);
                Json::Object(out)
            },
        }
    }

    /// Whether two values are the same: zero has no sign.
    pub fn same(&self, other: &Json) -> (r: bool)
        ensures
            r == alike(self@, other@),
    {
        self.settle().identical(&other.settle())
    }

    fn identical(&self, other: &Json) -> (r: bool)
        ensures
            r == (self@ == other@),
        decreases self,
    {
        match (self, other) {
            (Json::Null, Json::Null) => true,
            (Json::Bool(a), Json::Bool(b)) => *a == *b,
            (Json::Number(a), Json::Number(b)) => a.same(b),
            (Json::Text(a), Json::Text(b)) => *a == *b,
            (Json::Array(a), Json::Array(b)) => {
                let ghost x = self@->Array_0;
                let ghost y = other@->Array_0;
                if a.len() != b.len() {
                    assert(x.len() != y.len());
                    return false;
                }
                let mut i: usize = 0;
                while i < a.len()
                    invariant
                        i <= a@.len(),
                        a@.len() == b@.len(),
                        *self == Json::Array(*a),
                        *other == Json::Array(*b),
                        x == self@->Array_0,
                        y == other@->Array_0,
                        forall|k: int| 0 <= k < i ==> #[trigger] x[k] == y[k],
                    decreases a@.len() - i,
                {
                    proof {
                        assert(self->Array_0@[i as int] == a@[i as int]);
                        assert(decreases_to!(*self => self->Array_0@[i as int]));
                        assert(x[i as int] == a@[i as int]@);
                        assert(y[i as int] == b@[i as int]@);
                    }
                    if !a[i].identical(&b[i]) {
                        return false;
                    }
                    i = i + 1;
                }
                assert(x =~= y);
                true
            },
            (Json::Object(a), Json::Object(b)) => {
                let ghost x = entries_view(a@);
                let ghost y = entries_view(b@);
                let mut i: usize = 0;
                while i < a.len()
                    invariant
                        i <= a@.len(),
                        *self == Json::Object(*a),
                        *other == Json::Object(*b),
                        x == entries_view(a@),
                        y == entries_view(b@),
                        forall|k: int|
                            0 <= k < i ==> y.dom().contains((#[trigger] a@[k]).0@) && y[a@[k].0@]
                                == x[a@[k].0@],
                    decreases a@.len() - i,
                {
                    let key = a[i].0.as_str();
                    proof {
                        lemma_entries_contains(a@, i as int);
                    }
                    let first = match position(a, key) {
                        Some(at) => at,
                        None => {
                            return false;
                        },
                    };
                    let there = match position(b, key) {
                        Some(at) => at,
                        None => {
                            assert(x.dom().contains(key@) && !y.dom().contains(key@));
                            return false;
                        },
                    };
                    proof {
                        assert(self->Object_0@[first as int] == a@[first as int]);
                        assert(decreases_to!(*self => self->Object_0@[first as int]));
                        assert(decreases_to!(*self => self->Object_0@[first as int].1));
                    }
                    if !a[first].1.identical(&b[there].1) {
                        assert(x[key@] != y[key@]);
                        return false;
                    }
                    i = i + 1;
                }
                let mut k: usize = 0;
                while k < b.len()
                    invariant
                        k <= b@.len(),
                        *self == Json::Object(*a),
                        *other == Json::Object(*b),
                        x == entries_view(a@),
                        y == entries_view(b@),
                        forall|j: int| 0 <= j < k ==> x.dom().contains((#[trigger] b@[j]).0@),
                    decreases b@.len() - k,
                {
                    proof {
                        lemma_entries_contains(b@, k as int);
                    }
                    match position(a, b[k].0.as_str()) {
                        Some(_) => {},
                        None => {
                            assert(y.dom().contains(b@[k as int].0@) && !x.dom().contains(
                                b@[k as int].0@,
                            ));
                            return false;
                        },
                    }
                    k = k + 1;
                }
                proof {
                    assert forall|key: Seq<char>| #[trigger] x.dom().contains(key) implies y.dom().contains(
                        key,
                    ) && x[key] == y[key] by {
                        let j = lemma_entries_key(a@, key);
                        assert(y.dom().contains(a@[j].0@));
                    }
                    assert forall|key: Seq<char>| #[trigger] y.dom().contains(key) implies x.dom().contains(
                        key,
                    ) by {
                        let j = lemma_entries_key(b@, key);
                        assert(x.dom().contains(b@[j].0@));
                    }
                    assert(x.dom() =~= y.dom());
                    assert(x =~= y);
                }
                true
            },
            _ => false,
        }
    }
}

proof fn lemma_entries_contains(entries: Seq<(String, Json)>, i: int)
    requires
        0 <= i < entries.len(),
    ensures
        entries_view(entries).dom().contains(entries[i].0@),
    decreases i,
{
    if i > 0 {
        lemma_entries_contains(entries.drop_first(), i - 1);
        assert(entries.drop_first()[i - 1] == entries[i]);
    }
}

proof fn lemma_entries_key(entries: Seq<(String, Json)>, key: Seq<char>) -> (i: int)
    requires
        entries_view(entries).dom().contains(key),
    ensures
        0 <= i < entries.len(),
        entries[i].0@ == key,
    decreases entries.len(),
{
    if entries[0].0@ == key {
        0
    } else {
        let j = lemma_entries_key(entries.drop_first(), key);
        assert(entries.drop_first()[j] == entries[j + 1]);
        j + 1
    }
}

}
