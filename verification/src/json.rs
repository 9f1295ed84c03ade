//! JSON values as the contract logic sees them, with a mathematical model.
//!
//! Objects keep their members sorted by key with no key twice, so a value has
//! one representation and its members come out in canonical order.

use vstd::prelude::*;

use crate::pointer::{
    array_index, array_index_spec, path_get, path_set, token_models, JsonPointerError,
};
use crate::text::{
    append_str, char_from_ascii_code, chars_of, i64_text, int_text, key_lt, lemma_key_lt_asymmetric,
    lemma_key_lt_irreflexive, lemma_key_lt_total, lemma_key_lt_transitive, nat_text, string_less,
    u64_text,
};

verus! {

/// Model of a JSON number: serde_json's three representations. A float is
/// held as the shortest decimal text that round-trips it.
pub enum NumberModel {
    PosInt(u64),
    NegInt(i64),
    Float(Seq<char>),
}

/// Model of a JSON value. Object members are (key, value) pairs in storage
/// order.
pub enum Json {
    Null,
    Bool(bool),
    Number(NumberModel),
    Str(Seq<char>),
    Array(Seq<Json>),
    Object(Seq<(Seq<char>, Json)>),
}

/// Index of the first member of `pairs` whose key is `key`.
pub open spec fn find_index(pairs: Seq<(Seq<char>, Json)>, key: Seq<char>) -> Option<int>
    decreases pairs.len(),
{
    if pairs.len() == 0 {
        None
    } else if pairs[0].0 == key {
        Some(0)
    } else {
        match find_index(pairs.drop_first(), key) {
            Some(i) => Some(i + 1),
            None => None,
        }
    }
}

/// The value of member `key` in `pairs`, if any.
pub open spec fn find_key(pairs: Seq<(Seq<char>, Json)>, key: Seq<char>) -> Option<Json> {
    match find_index(pairs, key) {
        Some(i) => Some(pairs[i].1),
        None => None,
    }
}

/// Keys strictly increasing (so no key occurs twice).
pub open spec fn keys_sorted(pairs: Seq<(Seq<char>, Json)>) -> bool {
    forall|i: int, j: int| 0 <= i < j < pairs.len() ==> key_lt(#[trigger] pairs[i].0, #[trigger] pairs[j].0)
}

/// Number of leading members whose key sorts before `key`.
pub open spec fn insert_position(pairs: Seq<(Seq<char>, Json)>, key: Seq<char>) -> int
    decreases pairs.len(),
{
    if pairs.len() > 0 && key_lt(pairs[0].0, key) {
        1 + insert_position(pairs.drop_first(), key)
    } else {
        0
    }
}

/// `pairs` with member `key` set to `value`: replaced in place when present,
/// otherwise added at its sorted position.
pub open spec fn insert_member(pairs: Seq<(Seq<char>, Json)>, key: Seq<char>, value: Json) -> Seq<
    (Seq<char>, Json),
> {
    match find_index(pairs, key) {
        Some(i) => pairs.update(i, (key, value)),
        None => pairs.insert(insert_position(pairs, key), (key, value)),
    }
}

pub proof fn lemma_find_index(pairs: Seq<(Seq<char>, Json)>, key: Seq<char>)
    ensures
        match find_index(pairs, key) {
            Some(k) => 0 <= k < pairs.len() && pairs[k].0 == key && forall|j: int|
                0 <= j < k ==> #[trigger] pairs[j].0 != key,
            None => forall|j: int| 0 <= j < pairs.len() ==> #[trigger] pairs[j].0 != key,
        },
    decreases pairs.len(),
{
    if pairs.len() > 0 && pairs[0].0 != key {
        lemma_find_index(pairs.drop_first(), key);
        match find_index(pairs.drop_first(), key) {
            Some(k) => {
                assert forall|j: int| 0 <= j < k + 1 implies #[trigger] pairs[j].0 != key by {
                    if j > 0 {
                        assert(pairs[j] == pairs.drop_first()[j - 1]);
                    }
                }
            },
            None => {
                assert forall|j: int| 0 <= j < pairs.len() implies #[trigger] pairs[j].0 != key by {
                    if j > 0 {
                        assert(pairs[j] == pairs.drop_first()[j - 1]);
                    }
                }
            },
        }
    }
}

/// `find_index` is determined by the first matching position.
pub proof fn lemma_find_index_at(pairs: Seq<(Seq<char>, Json)>, key: Seq<char>, k: int)
    requires
        0 <= k <= pairs.len(),
        forall|j: int| 0 <= j < k ==> #[trigger] pairs[j].0 != key,
        k == pairs.len() || pairs[k].0 == key,
    ensures
        find_index(pairs, key) == (if k < pairs.len() { Some(k) } else { None::<int> }),
{
    lemma_find_index(pairs, key);
    match find_index(pairs, key) {
        Some(m) => {
            if m < k {
                assert(pairs[m].0 != key);
            }
            if m > k {
                assert(pairs[k].0 != key);
            }
        },
        None => {
            if k < pairs.len() {
                assert(pairs[k].0 != key);
            }
        },
    }
}

pub proof fn lemma_insert_position(pairs: Seq<(Seq<char>, Json)>, key: Seq<char>, p: int)
    requires
        0 <= p <= pairs.len(),
        forall|j: int| 0 <= j < p ==> key_lt(#[trigger] pairs[j].0, key),
        p == pairs.len() || !key_lt(pairs[p].0, key),
    ensures
        insert_position(pairs, key) == p,
    decreases p,
{
    if p > 0 {
        assert forall|j: int| 0 <= j < p - 1 implies key_lt(#[trigger] pairs.drop_first()[j].0, key) by {
            assert(pairs.drop_first()[j] == pairs[j + 1]);
        }
        assert(key_lt(pairs[0].0, key));
        if p - 1 < pairs.drop_first().len() {
            assert(pairs.drop_first()[p - 1] == pairs[p]);
        }
        lemma_insert_position(pairs.drop_first(), key, p - 1);
    }
}

/// In sorted pairs the first match is the only match.
pub proof fn lemma_sorted_unique(pairs: Seq<(Seq<char>, Json)>, key: Seq<char>, k: int)
    requires
        keys_sorted(pairs),
        0 <= k < pairs.len(),
        pairs[k].0 == key,
    ensures
        find_index(pairs, key) == Some(k),
{
    assert forall|j: int| 0 <= j < k implies #[trigger] pairs[j].0 != key by {
        assert(key_lt(pairs[j].0, pairs[k].0));
        lemma_key_lt_irreflexive(key);
    }
    lemma_find_index_at(pairs, key, k);
}

/// Setting a member changes only that member's lookup.
pub proof fn lemma_insert_member_lookup(
    pairs: Seq<(Seq<char>, Json)>,
    key: Seq<char>,
    value: Json,
    other: Seq<char>,
)
    requires
        keys_sorted(pairs),
    ensures
        keys_sorted(insert_member(pairs, key, value)),
        find_key(insert_member(pairs, key, value), other) == (if other == key {
            Some(value)
        } else {
            find_key(pairs, other)
        }),
{
    let r = insert_member(pairs, key, value);
    lemma_find_index(pairs, key);
    lemma_find_index(pairs, other);
    match find_index(pairs, key) {
        Some(i) => {
            assert(r == pairs.update(i, (key, value)));
            assert forall|a: int, b: int| 0 <= a < b < r.len() implies key_lt(
                #[trigger] r[a].0,
                #[trigger] r[b].0,
            ) by {
                assert(key_lt(pairs[a].0, pairs[b].0));
            }
            if other == key {
                lemma_sorted_unique(r, key, i);
            } else {
                match find_index(pairs, other) {
                    Some(m) => {
                        assert(r[m] == pairs[m]);
                        lemma_sorted_unique(r, other, m);
                    },
                    None => {
                        assert forall|j: int| 0 <= j < r.len() implies #[trigger] r[j].0 != other by {
                            if j != i {
                                assert(r[j] == pairs[j]);
                            }
                        }
                        lemma_find_index_at(r, other, r.len() as int);
                    },
                }
            }
        },
        None => {
            let p = insert_position(pairs, key);
            lemma_insert_position_props(pairs, key);
            assert(r == pairs.insert(p, (key, value)));
            assert forall|a: int, b: int| 0 <= a < b < r.len() implies key_lt(
                #[trigger] r[a].0,
                #[trigger] r[b].0,
            ) by {
                if b < p {
                    assert(key_lt(pairs[a].0, pairs[b].0));
                } else if b == p {
                    assert(r[a] == pairs[a]);
                } else if a < p {
                    assert(r[b] == pairs[b - 1]);
                    assert(key_lt(pairs[a].0, key));
                    assert(!key_lt(pairs[p].0, key));
                    lemma_key_lt_total(pairs[p].0, key);
                    assert(key_lt(key, pairs[p].0));
                    if p < b - 1 {
                        assert(key_lt(pairs[p].0, pairs[b - 1].0));
                        lemma_key_lt_transitive(key, pairs[p].0, pairs[b - 1].0);
                    }
                    lemma_key_lt_transitive(pairs[a].0, key, pairs[b - 1].0);
                } else if a == p {
                    assert(r[b] == pairs[b - 1]);
                    assert(!key_lt(pairs[p].0, key));
                    lemma_key_lt_total(pairs[p].0, key);
                    if p < b - 1 {
                        assert(key_lt(pairs[p].0, pairs[b - 1].0));
                        lemma_key_lt_transitive(key, pairs[p].0, pairs[b - 1].0);
                    }
                } else {
                    assert(r[a] == pairs[a - 1]);
                    assert(r[b] == pairs[b - 1]);
                    assert(key_lt(pairs[a - 1].0, pairs[b - 1].0));
                }
            }
            if other == key {
                lemma_sorted_unique(r, key, p);
            } else {
                match find_index(pairs, other) {
                    Some(m) => {
                        if m < p {
                            assert(r[m] == pairs[m]);
                            lemma_sorted_unique(r, other, m);
                        } else {
                            assert(r[m + 1] == pairs[m]);
                            lemma_sorted_unique(r, other, m + 1);
                        }
                    },
                    None => {
                        assert forall|j: int| 0 <= j < r.len() implies #[trigger] r[j].0 != other by {
                            if j < p {
                                assert(r[j] == pairs[j]);
                            } else if j > p {
                                assert(r[j] == pairs[j - 1]);
                            }
                        }
                        lemma_find_index_at(r, other, r.len() as int);
                    },
                }
            }
        },
    }
}

proof fn lemma_insert_position_props(pairs: Seq<(Seq<char>, Json)>, key: Seq<char>)
    requires
        keys_sorted(pairs),
    ensures
        0 <= insert_position(pairs, key) <= pairs.len(),
        forall|j: int|
            0 <= j < insert_position(pairs, key) ==> key_lt(#[trigger] pairs[j].0, key),
        insert_position(pairs, key) == pairs.len() || !key_lt(
            pairs[insert_position(pairs, key)].0,
            key,
        ),
    decreases pairs.len(),
{
    if pairs.len() > 0 && key_lt(pairs[0].0, key) {
        let d = pairs.drop_first();
        assert(keys_sorted(d)) by {
            assert forall|a: int, b: int| 0 <= a < b < d.len() implies key_lt(
                #[trigger] d[a].0,
                #[trigger] d[b].0,
            ) by {
                assert(d[a] == pairs[a + 1]);
                assert(d[b] == pairs[b + 1]);
            }
        }
        lemma_insert_position_props(d, key);
        let p = insert_position(d, key);
        assert forall|j: int| 0 <= j < p + 1 implies key_lt(#[trigger] pairs[j].0, key) by {
            if j > 0 {
                assert(pairs[j] == d[j - 1]);
            }
        }
        if p + 1 < pairs.len() {
            assert(pairs[p + 1] == d[p]);
        }
    }
}

/// A JSON number as serde_json holds it. `Float` carries the shortest decimal
/// text that round-trips the float.
#[derive(Debug, Clone, PartialEq, Eq)]
pub enum JsonNumber {
    PosInt(u64),
    NegInt(i64),
    Float(String),
}

impl View for JsonNumber {
    type V = NumberModel;

    open spec fn view(&self) -> NumberModel {
        match self {
            JsonNumber::PosInt(n) => NumberModel::PosInt(*n),
            JsonNumber::NegInt(n) => NumberModel::NegInt(*n),
            JsonNumber::Float(s) => NumberModel::Float(s@),
        }
    }
}

impl JsonNumber {
    /// An integer in the representation serde_json picks for it.
    pub fn from_i64(n: i64) -> (r: JsonNumber)
        ensures
            r@ == (if n >= 0 { NumberModel::PosInt(n as u64) } else { NumberModel::NegInt(n) }),
    {
        if n >= 0 {
            JsonNumber::PosInt(n as u64)
        } else {
            JsonNumber::NegInt(n)
        }
    }

    pub fn duplicate(&self) -> (r: JsonNumber)
        ensures
            r@ == self@,
    {
        match self {
            JsonNumber::PosInt(n) => JsonNumber::PosInt(*n),
            JsonNumber::NegInt(n) => JsonNumber::NegInt(*n),
            JsonNumber::Float(s) => JsonNumber::Float(s.clone()),
        }
    }

    /// `true` for the two integer representations.
    pub fn is_integer(&self) -> (r: bool)
        ensures
            r == !(self@ is Float),
    {
        !matches!(self, JsonNumber::Float(_))
    }
}

/// A JSON value (`serde_json::Value`).
#[derive(Debug, PartialEq, Eq)]
pub enum JsonValue {
    Null,
    Bool(bool),
    Number(JsonNumber),
    String(String),
    Array(Vec<JsonValue>),
    Object(JsonObject),
}

/// The members of a JSON object, sorted by key, each key once.
#[derive(Debug, PartialEq, Eq)]
pub struct JsonObject {
    entries: Vec<(String, JsonValue)>,
}

pub closed spec fn model_of(v: JsonValue) -> Json
    decreases v,
{
    match v {
        JsonValue::Null => Json::Null,
        JsonValue::Bool(b) => Json::Bool(b),
        JsonValue::Number(n) => Json::Number(n@),
        JsonValue::String(s) => Json::Str(s@),
        JsonValue::Array(items) => Json::Array(models_of(items@)),
        JsonValue::Object(o) => Json::Object(pairs_model(o.entries@)),
    }
}

pub closed spec fn models_of(s: Seq<JsonValue>) -> Seq<Json>
    decreases s,
{
    if s.len() == 0 {
        Seq::empty()
    } else {
        models_of(s.drop_last()).push(model_of(s.last()))
    }
}

pub closed spec fn pairs_model(s: Seq<(String, JsonValue)>) -> Seq<(Seq<char>, Json)>
    decreases s,
{
    if s.len() == 0 {
        Seq::empty()
    } else {
        pairs_model(s.drop_last()).push((s.last().0@, model_of(s.last().1)))
    }
}

proof fn lemma_models_of(s: Seq<JsonValue>)
    ensures
        models_of(s).len() == s.len(),
        forall|i: int| 0 <= i < s.len() ==> #[trigger] models_of(s)[i] == model_of(s[i]),
    decreases s.len(),
{
    if s.len() > 0 {
        lemma_models_of(s.drop_last());
        assert forall|i: int| 0 <= i < s.len() implies #[trigger] models_of(s)[i] == model_of(
            s[i],
        ) by {
            if i < s.len() - 1 {
                assert(s.drop_last()[i] == s[i]);
            }
        }
    }
}

proof fn lemma_models_of_ext(s: Seq<JsonValue>, m: Seq<Json>)
    requires
        m.len() == s.len(),
        forall|i: int| 0 <= i < s.len() ==> #[trigger] m[i] == model_of(s[i]),
    ensures
        models_of(s) == m,
{
    lemma_models_of(s);
    assert(models_of(s) =~= m);
}

proof fn lemma_pairs_model(s: Seq<(String, JsonValue)>)
    ensures
        pairs_model(s).len() == s.len(),
        forall|i: int|
            0 <= i < s.len() ==> #[trigger] pairs_model(s)[i] == (s[i].0@, model_of(s[i].1)),
    decreases s.len(),
{
    if s.len() > 0 {
        lemma_pairs_model(s.drop_last());
        assert forall|i: int| 0 <= i < s.len() implies #[trigger] pairs_model(s)[i] == (
            s[i].0@,
            model_of(s[i].1),
        ) by {
            if i < s.len() - 1 {
                assert(s.drop_last()[i] == s[i]);
            }
        }
    }
}

proof fn lemma_pairs_model_ext(s: Seq<(String, JsonValue)>, m: Seq<(Seq<char>, Json)>)
    requires
        m.len() == s.len(),
        forall|i: int| 0 <= i < s.len() ==> #[trigger] m[i] == (s[i].0@, model_of(s[i].1)),
    ensures
        pairs_model(s) == m,
{
    lemma_pairs_model(s);
    assert(pairs_model(s) =~= m);
}

impl View for JsonValue {
    type V = Json;

    closed spec fn view(&self) -> Json {
        model_of(*self)
    }
}

impl JsonObject {
    /// The members, as (key, value) models in storage order.
    pub closed spec fn model(&self) -> Seq<(Seq<char>, Json)> {
        pairs_model(self.entries@)
    }

    #[verifier::type_invariant]
    spec fn entries_sorted(&self) -> bool {
        forall|i: int, j: int|
            0 <= i < j < self.entries@.len() ==> key_lt(
                #[trigger] self.entries@[i].0@,
                #[trigger] self.entries@[j].0@,
            )
    }

    /// Members always come in strictly increasing key order.
    pub fn sorted_model(&self)
        ensures
            keys_sorted(self.model()),
    {
        proof {
            use_type_invariant(self);
            lemma_pairs_model(self.entries@);
        }
    }

    pub fn new() -> (o: Self)
        ensures
            o.model().len() == 0,
    {
        JsonObject { entries: Vec::new() }
    }

    pub fn len(&self) -> (n: usize)
        ensures
            n == self.model().len(),
    {
        proof {
            lemma_pairs_model(self.entries@);
        }
        self.entries.len()
    }

    /// The members in key order.
    pub fn members(&self) -> (r: &Vec<(String, JsonValue)>)
        ensures
            r@.len() == self.model().len(),
            forall|i: int|
                0 <= i < r@.len() ==> #[trigger] self.model()[i] == (r@[i].0@, r@[i].1@),
    {
        proof {
            lemma_pairs_model(self.entries@);
        }
        &self.entries
    }

    /// Where member `key` is stored.
    pub fn position(&self, key: &String) -> (r: Option<usize>)
        ensures
            match r {
                Some(k) => find_index(self.model(), key@) == Some(k as int) && k < self.model().len()
                    && self.model()[k as int].0 == key@,
                None => find_index(self.model(), key@).is_none(),
            },
    {
        proof {
            lemma_pairs_model(self.entries@);
        }
        let mut i: usize = 0;
        while i < self.entries.len()
            invariant
                i <= self.entries@.len(),
                self.model() == pairs_model(self.entries@),
                pairs_model(self.entries@).len() == self.entries@.len(),
                forall|k: int|
                    0 <= k < self.entries@.len() ==> #[trigger] pairs_model(self.entries@)[k] == (
                        self.entries@[k].0@,
                        model_of(self.entries@[k].1),
                    ),
                forall|k: int| 0 <= k < i ==> #[trigger] self.model()[k].0 != key@,
            decreases self.entries@.len() - i,
        {
            if self.entries[i].0 == *key {
                proof {
                    lemma_find_index_at(self.model(), key@, i as int);
                }
                return Some(i);
            }
            i = i + 1;
        }
        proof {
            lemma_find_index_at(self.model(), key@, i as int);
        }
        None
    }

    /// The value of member `key`.
    pub fn get(&self, key: &String) -> (r: Option<&JsonValue>)
        ensures
            match r {
                Some(v) => find_key(self.model(), key@) == Some(v@),
                None => find_key(self.model(), key@).is_none(),
            },
    {
        match self.position(key) {
            Some(k) => {
                proof {
                    lemma_pairs_model(self.entries@);
                }
                Some(&self.entries[k].1)
            },
            None => None,
        }
    }

    /// Sets member `key` to `value`, keeping keys sorted.
    pub fn insert(&mut self, key: String, value: JsonValue)
        ensures
            final(self).model() == insert_member(old(self).model(), key@, value@),
    {
        proof {
            use_type_invariant(&*self);
            lemma_pairs_model(self.entries@);
        }
        let ghost old_entries = self.entries@;
        let ghost m = self.model();
        proof {
            assert(keys_sorted(m));
        }
        let mut i: usize = 0;
        while i < self.entries.len() && string_less(&self.entries[i].0, &key)
            invariant
                i <= self.entries@.len(),
                self.entries@ == old_entries,
                m == pairs_model(old_entries),
                m.len() == old_entries.len(),
                forall|k: int|
                    0 <= k < old_entries.len() ==> #[trigger] m[k] == (
                        old_entries[k].0@,
                        model_of(old_entries[k].1),
                    ),
                forall|k: int| 0 <= k < i ==> key_lt(#[trigger] m[k].0, key@),
            decreases self.entries@.len() - i,
        {
            i = i + 1;
        }
        proof {
            assert forall|k: int| 0 <= k < i implies #[trigger] m[k].0 != key@ by {
                lemma_key_lt_irreflexive(key@);
            }
        }
        if i < self.entries.len() && self.entries[i].0 == key {
            proof {
                lemma_find_index_at(m, key@, i as int);
            }
            let ghost value_model = value@;
            let ghost key_model = key@;
            proof {
                assert(key_model == m[i as int].0);
            }
            let ghost pair = (key, value);
            let mut entries: Vec<(String, JsonValue)> = Vec::new();
            std::mem::swap(&mut entries, &mut self.entries);
            let _ = entries.remove(i);
            entries.insert(i, (key, value));
            proof {
                assert(entries@ =~= old_entries.update(i as int, pair));
                assert forall|a: int, b: int|
                    0 <= a < b < entries@.len() implies key_lt(
                    #[trigger] entries@[a].0@,
                    #[trigger] entries@[b].0@,
                ) by {
                    if a == i {
                        assert(entries@[a] == pair);
                    } else {
                        assert(entries@[a] == old_entries[a]);
                    }
                    if b == i {
                        assert(entries@[b] == pair);
                    } else {
                        assert(entries@[b] == old_entries[b]);
                    }
                    assert(entries@[a].0@ == m[a].0);
                    assert(entries@[b].0@ == m[b].0);
                    assert(key_lt(m[a].0, m[b].0));
                }
                lemma_pairs_model_ext(entries@, m.update(i as int, (key_model, value_model)));
            }
            self.entries = entries;
        } else {
            proof {
                if i < m.len() {
                    lemma_key_lt_total(m[i as int].0, key@);
                }
                assert forall|k: int| 0 <= k < m.len() implies #[trigger] m[k].0 != key@ by {
                    if k > i {
                        assert(key_lt(m[i as int].0, m[k].0));
                        lemma_key_lt_asymmetric(key@, m[i as int].0);
                        lemma_key_lt_transitive(key@, m[i as int].0, m[k].0);
                        lemma_key_lt_irreflexive(key@);
                    }
                }
                lemma_find_index_at(m, key@, m.len() as int);
                lemma_insert_position(m, key@, i as int);
            }
            let ghost value_model = value@;
            let ghost key_model = key@;
            let ghost pair = (key, value);
            let mut entries: Vec<(String, JsonValue)> = Vec::new();
            std::mem::swap(&mut entries, &mut self.entries);
            entries.insert(i, (key, value));
            proof {
                assert(entries@ =~= old_entries.insert(i as int, pair));
                assert forall|k: int| 0 <= k < entries@.len() implies #[trigger] entries@[k].0@ == (
                if k < i {
                    m[k].0
                } else if k == i {
                    key_model
                } else {
                    m[k - 1].0
                }) by {
                    if k < i {
                        assert(entries@[k] == old_entries[k]);
                    } else if k == i {
                        assert(entries@[k] == pair);
                    } else {
                        assert(entries@[k] == old_entries[k - 1]);
                    }
                }
                if i < m.len() {
                    lemma_key_lt_total(m[i as int].0, key_model);
                    assert(key_lt(key_model, m[i as int].0));
                }
                assert forall|a: int, b: int|
                    0 <= a < b < entries@.len() implies key_lt(
                    #[trigger] entries@[a].0@,
                    #[trigger] entries@[b].0@,
                ) by {
                    if b < i {
                        assert(key_lt(m[a].0, m[b].0));
                    } else if b == i {
                        assert(key_lt(m[a].0, key_model));
                    } else if a < i {
                        if i < b - 1 {
                            assert(key_lt(m[i as int].0, m[b - 1].0));
                            lemma_key_lt_transitive(key_model, m[i as int].0, m[b - 1].0);
                        }
                        assert(key_lt(key_model, m[b - 1].0));
                        lemma_key_lt_transitive(m[a].0, key_model, m[b - 1].0);
                    } else if a == i {
                        if i < b - 1 {
                            assert(key_lt(m[i as int].0, m[b - 1].0));
                            lemma_key_lt_transitive(key_model, m[i as int].0, m[b - 1].0);
                        }
                    } else {
                        assert(key_lt(m[a - 1].0, m[b - 1].0));
                    }
                }
                lemma_pairs_model_ext(entries@, m.insert(i as int, (key_model, value_model)));
            }
            self.entries = entries;
        }
    }

    /// An object holding `pairs`; a later pair replaces an earlier one with
    /// the same key (as `serde_json::Map::from_iter` does).
    pub fn from_pairs(pairs: Vec<(String, JsonValue)>) -> (o: JsonObject)
        ensures
            o.model() == fold_members(pairs_model(pairs@)),
    {
        let ghost pm = pairs_model(pairs@);
        proof {
            lemma_pairs_model(pairs@);
        }
        let mut o = JsonObject::new();
        let n = pairs.len();
        let mut rest = pairs;
        let mut done: usize = 0;
        proof {
            assert(pm.take(0) =~= Seq::<(Seq<char>, Json)>::empty());
            assert(rest@ =~= pairs@.skip(0));
        }
        while rest.len() > 0
            invariant
                done <= pairs@.len(),
                n == pairs@.len(),
                rest@ == pairs@.skip(done as int),
                pm == pairs_model(pairs@),
                pm.len() == pairs@.len(),
                forall|k: int|
                    0 <= k < pairs@.len() ==> #[trigger] pm[k] == (
                        pairs@[k].0@,
                        model_of(pairs@[k].1),
                    ),
                o.model() == fold_members(pm.take(done as int)),
            decreases rest@.len(),
        {
            proof {
                assert(done < pairs@.len());
            }
            let (k, v) = rest.remove(0);
            proof {
                assert(pairs@[done as int] == (k, v));
                assert(pm.take(done + 1).drop_last() == pm.take(done as int));
                assert(pm.take(done + 1).last() == (k@, v@));
            }
            o.insert(k, v);
            done = done + 1;
            proof {
                assert(rest@ =~= pairs@.skip(done as int));
            }
        }
        proof {
            assert(pm.take(done as int) =~= pm);
        }
        o
    }
}

/// Members set one after the other into an empty object.
pub open spec fn fold_members(pairs: Seq<(Seq<char>, Json)>) -> Seq<(Seq<char>, Json)>
    decreases pairs.len(),
{
    if pairs.len() == 0 {
        Seq::empty()
    } else {
        insert_member(fold_members(pairs.drop_last()), pairs.last().0, pairs.last().1)
    }
}

/// The value the last member named `key` carries in `pairs`.
pub open spec fn last_value(pairs: Seq<(Seq<char>, Json)>, key: Seq<char>) -> Option<Json>
    decreases pairs.len(),
{
    if pairs.len() == 0 {
        None
    } else if pairs.last().0 == key {
        Some(pairs.last().1)
    } else {
        last_value(pairs.drop_last(), key)
    }
}

/// No key occurs twice.
pub open spec fn distinct_keys(pairs: Seq<(Seq<char>, Json)>) -> bool {
    forall|i: int, j: int| 0 <= i < j < pairs.len() ==> #[trigger] pairs[i].0 != #[trigger] pairs[j].0
}

/// Setting members one after the other gives sorted members in which each
/// key has the value its last setting gave it.
pub proof fn lemma_fold_members(pairs: Seq<(Seq<char>, Json)>)
    ensures
        keys_sorted(fold_members(pairs)),
        forall|key: Seq<char>| #[trigger] find_key(fold_members(pairs), key) == last_value(pairs, key),
    decreases pairs.len(),
{
    if pairs.len() > 0 {
        let init = pairs.drop_last();
        lemma_fold_members(init);
        assert forall|key: Seq<char>| #[trigger] find_key(fold_members(pairs), key) == last_value(
            pairs,
            key,
        ) by {
            lemma_insert_member_lookup(fold_members(init), pairs.last().0, pairs.last().1, key);
        }
        lemma_insert_member_lookup(fold_members(init), pairs.last().0, pairs.last().1, pairs.last().0);
    }
}

proof fn lemma_last_value_distinct(pairs: Seq<(Seq<char>, Json)>, key: Seq<char>, value: Json)
    requires
        distinct_keys(pairs),
    ensures
        last_value(pairs, key) == Some(value) <==> pairs.contains((key, value)),
    decreases pairs.len(),
{
    if pairs.len() > 0 {
        let init = pairs.drop_last();
        assert(distinct_keys(init)) by {
            assert forall|i: int, j: int| 0 <= i < j < init.len() implies #[trigger] init[i].0
                != #[trigger] init[j].0 by {
                assert(init[i] == pairs[i] && init[j] == pairs[j]);
            }
        }
        lemma_last_value_distinct(init, key, value);
        if pairs.contains((key, value)) {
            let w = choose|w: int| 0 <= w < pairs.len() && pairs[w] == (key, value);
            if w < pairs.len() - 1 {
                assert(init[w] == pairs[w]);
                assert(pairs[w].0 != pairs[pairs.len() - 1].0);
            }
        }
        if init.contains((key, value)) {
            let w = choose|w: int| 0 <= w < init.len() && init[w] == (key, value);
            assert(pairs[w] == init[w]);
        }
    }
}

/// The members after the first of sorted members are found as before,
/// except the first key.
proof fn lemma_find_key_rest(pairs: Seq<(Seq<char>, Json)>, key: Seq<char>)
    requires
        keys_sorted(pairs),
        pairs.len() > 0,
    ensures
        keys_sorted(pairs.drop_first()),
        find_key(pairs.drop_first(), key) == (if key == pairs[0].0 {
            None
        } else {
            find_key(pairs, key)
        }),
{
    let d = pairs.drop_first();
    assert forall|a: int, b: int| 0 <= a < b < d.len() implies key_lt(#[trigger] d[a].0, #[trigger] d[b].0) by {
        assert(d[a] == pairs[a + 1] && d[b] == pairs[b + 1]);
    }
    lemma_find_index(d, key);
    lemma_find_index(pairs, key);
    if key == pairs[0].0 {
        match find_index(d, key) {
            Some(k) => {
                assert(d[k] == pairs[k + 1]);
                lemma_key_lt_irreflexive(key);
            },
            None => {},
        }
    } else {
        match find_index(d, key) {
            Some(k) => {
                assert(d[k] == pairs[k + 1]);
                lemma_sorted_unique(pairs, key, k + 1);
            },
            None => {
                assert forall|j: int| 0 <= j < pairs.len() implies #[trigger] pairs[j].0 != key by {
                    if j > 0 {
                        assert(pairs[j] == d[j - 1]);
                    }
                }
                lemma_find_index_at(pairs, key, pairs.len() as int);
            },
        }
    }
}

/// Sorted members are determined by what each key finds.
proof fn lemma_sorted_members_ext(a: Seq<(Seq<char>, Json)>, b: Seq<(Seq<char>, Json)>)
    requires
        keys_sorted(a),
        keys_sorted(b),
        forall|key: Seq<char>| #[trigger] find_key(a, key) == find_key(b, key),
    ensures
        a == b,
    decreases a.len() + b.len(),
{
    if a.len() == 0 || b.len() == 0 {
        if a.len() > 0 {
            let k = a[0].0;
            lemma_sorted_unique(a, k, 0);
            assert(find_key(a, k) == Some(a[0].1));
            assert(find_index(b, k) is None);
            assert(find_key(b, k) is None);
        } else if b.len() > 0 {
            let k = b[0].0;
            lemma_sorted_unique(b, k, 0);
            assert(find_key(b, k) == Some(b[0].1));
            assert(find_index(a, k) is None);
            assert(find_key(a, k) is None);
        } else {
            assert(a =~= b);
        }
    } else {
        let ka = a[0].0;
        let kb = b[0].0;
        lemma_sorted_unique(a, ka, 0);
        lemma_sorted_unique(b, kb, 0);
        assert(find_key(a, ka) == find_key(b, ka));
        assert(find_key(a, kb) == find_key(b, kb));
        lemma_find_index(b, ka);
        lemma_find_index(a, kb);
        if ka != kb {
            let i = find_index(a, kb).unwrap();
            let j = find_index(b, ka).unwrap();
            assert(i > 0 && j > 0);
            assert(key_lt(a[0].0, a[i].0));
            assert(key_lt(b[0].0, b[j].0));
            lemma_key_lt_asymmetric(ka, kb);
            assert(false);
        }
        assert(a[0] == b[0]);
        assert forall|key: Seq<char>| #[trigger] find_key(a.drop_first(), key) == find_key(
            b.drop_first(),
            key,
        ) by {
            lemma_find_key_rest(a, key);
            lemma_find_key_rest(b, key);
        }
        lemma_find_key_rest(a, ka);
        lemma_find_key_rest(b, ka);
        lemma_sorted_members_ext(a.drop_first(), b.drop_first());
        assert(a =~= seq![a[0]] + a.drop_first());
        assert(b =~= seq![b[0]] + b.drop_first());
    }
}

/// The order in which members are given does not change the object they
/// build: two member lists, neither naming a key twice, that hold the same
/// members give the same object.
pub proof fn lemma_member_order_irrelevant(p: Seq<(Seq<char>, Json)>, q: Seq<(Seq<char>, Json)>)
    requires
        distinct_keys(p),
        distinct_keys(q),
        forall|m: (Seq<char>, Json)| #[trigger] p.contains(m) <==> q.contains(m),
    ensures
        fold_members(p) == fold_members(q),
{
    lemma_fold_members(p);
    lemma_fold_members(q);
    assert forall|key: Seq<char>| #[trigger] find_key(fold_members(p), key) == find_key(
        fold_members(q),
        key,
    ) by {
        match last_value(p, key) {
            Some(v) => {
                lemma_last_value_distinct(p, key, v);
                lemma_last_value_distinct(q, key, v);
            },
            None => {
                match last_value(q, key) {
                    Some(w) => {
                        lemma_last_value_distinct(p, key, w);
                        lemma_last_value_distinct(q, key, w);
                    },
                    None => {},
                }
            },
        }
    }
    lemma_sorted_members_ext(fold_members(p), fold_members(q));
}

impl JsonValue {
    pub fn null() -> (r: JsonValue)
        ensures
            r@ == Json::Null,
    {
        JsonValue::Null
    }

    pub fn from_bool(b: bool) -> (r: JsonValue)
        ensures
            r@ == Json::Bool(b),
    {
        JsonValue::Bool(b)
    }

    pub fn from_number(n: JsonNumber) -> (r: JsonValue)
        ensures
            r@ == Json::Number(n@),
    {
        JsonValue::Number(n)
    }

    pub fn from_string(s: String) -> (r: JsonValue)
        ensures
            r@ == Json::Str(s@),
    {
        JsonValue::String(s)
    }

    pub fn from_str(s: &str) -> (r: JsonValue)
        ensures
            r@ == Json::Str(s@),
    {
        JsonValue::String(s.to_owned())
    }

    pub fn from_array(items: Vec<JsonValue>) -> (r: JsonValue)
        ensures
            r@ is Array,
            r@->Array_0.len() == items@.len(),
            forall|i: int| 0 <= i < items@.len() ==> #[trigger] r@->Array_0[i] == items@[i]@,
    {
        proof {
            lemma_models_of(items@);
        }
        JsonValue::Array(items)
    }

    pub fn from_object(o: JsonObject) -> (r: JsonValue)
        ensures
            r@ == Json::Object(o.model()),
    {
        JsonValue::Object(o)
    }

    pub fn is_null(&self) -> (r: bool)
        ensures
            r == (self@ is Null),
    {
        matches!(self, JsonValue::Null)
    }

    pub fn as_str(&self) -> (r: Option<&String>)
        ensures
            match r {
                Some(s) => self@ == Json::Str(s@),
                None => !(self@ is Str),
            },
    {
        match self {
            JsonValue::String(s) => Some(s),
            _ => None,
        }
    }

    pub fn as_number(&self) -> (r: Option<&JsonNumber>)
        ensures
            match r {
                Some(n) => self@ == Json::Number(n@),
                None => !(self@ is Number),
            },
    {
        match self {
            JsonValue::Number(n) => Some(n),
            _ => None,
        }
    }

    pub fn as_bool(&self) -> (r: Option<bool>)
        ensures
            match r {
                Some(b) => self@ == Json::Bool(b),
                None => !(self@ is Bool),
            },
    {
        match self {
            JsonValue::Bool(b) => Some(*b),
            _ => None,
        }
    }

    pub fn as_array(&self) -> (r: Option<&Vec<JsonValue>>)
        ensures
            match r {
                Some(items) => self@ is Array && self@->Array_0.len() == items@.len() && forall|
                    i: int,
                | 0 <= i < items@.len() ==> #[trigger] self@->Array_0[i] == items@[i]@,
                None => !(self@ is Array),
            },
    {
        match self {
            JsonValue::Array(items) => {
                proof {
                    lemma_models_of(items@);
                }
                Some(items)
            },
            _ => None,
        }
    }

    pub fn as_object(&self) -> (r: Option<&JsonObject>)
        ensures
            match r {
                Some(o) => self@ == Json::Object(o.model()),
                None => !(self@ is Object),
            },
    {
        match self {
            JsonValue::Object(o) => Some(o),
            _ => None,
        }
    }

    /// An independent copy with the same model.
    pub fn duplicate(&self) -> (r: JsonValue)
        ensures
            r@ == self@,
        decreases self,
    {
        match self {
            JsonValue::Null => JsonValue::Null,
            JsonValue::Bool(b) => JsonValue::Bool(*b),
            JsonValue::Number(n) => JsonValue::Number(n.duplicate()),
            JsonValue::String(s) => JsonValue::String(s.clone()),
            JsonValue::Array(items) => {
                let mut out: Vec<JsonValue> = Vec::new();
                let mut i: usize = 0;
                while i < items.len()
                    invariant
                        *self == JsonValue::Array(*items),
                        i <= items@.len(),
                        out@.len() == i,
                        forall|k: int| 0 <= k < i ==> #[trigger] out@[k]@ == items@[k]@,
                    decreases items@.len() - i,
                {
                    proof {
                        assert(*self == JsonValue::Array(*items));
                        assert(decreases_to!(*self => self->Array_0));
                        assert(decreases_to!(self->Array_0 => self->Array_0@));
                        assert(decreases_to!(self->Array_0@ => self->Array_0@[i as int]));
                        assert(decreases_to!(*items => items@[i as int]));
                        assert(decreases_to!(*self => items@[i as int]));
                    }
                    let c = items[i].duplicate();
                    out.push(c);
                    i = i + 1;
                }
                proof {
                    lemma_models_of(items@);
                    assert forall|k: int| 0 <= k < out@.len() implies #[trigger] models_of(items@)[k]
                        == model_of(out@[k]) by {
                        assert(out@[k]@ == items@[k]@);
                    }
                    lemma_models_of_ext(out@, models_of(items@));
                }
                JsonValue::Array(out)
            },
            JsonValue::Object(o) => {
                proof {
                    use_type_invariant(o);
                }
                let mut out: Vec<(String, JsonValue)> = Vec::new();
                let mut i: usize = 0;
                while i < o.entries.len()
                    invariant
                        *self == JsonValue::Object(*o),
                        i <= o.entries@.len(),
                        out@.len() == i,
                        forall|k: int|
                            0 <= k < i ==> #[trigger] out@[k].0@ == o.entries@[k].0@ && out@[k].1@
                                == o.entries@[k].1@,
                    decreases o.entries@.len() - i,
                {
                    proof {
                        assert(*self == JsonValue::Object(*o));
                        assert(decreases_to!(*self => self->Object_0));
                        assert(decreases_to!(self->Object_0 => self->Object_0.entries));
                        assert(decreases_to!(self->Object_0.entries => self->Object_0.entries@));
                        assert(decreases_to!(self->Object_0.entries@ => self->Object_0.entries@[i as int]));
                        assert(decreases_to!(o.entries => o.entries@[i as int]));
                        assert(decreases_to!(o.entries@[i as int] => o.entries@[i as int].1));
                        assert(decreases_to!(*self => o.entries@[i as int].1));
                    }
                    let c = o.entries[i].1.duplicate();
                    out.push((o.entries[i].0.clone(), c));
                    i = i + 1;
                }
                proof {
                    lemma_pairs_model(o.entries@);
                    lemma_pairs_model_ext(out@, pairs_model(o.entries@));
                }
                JsonValue::Object(JsonObject { entries: out })
            },
        }
    }
}

impl JsonValue {
    /// Resolves `tokens` against this value (see [`path_get`]).
    pub fn get_path(&self, tokens: &Vec<String>) -> (r: Result<Option<&JsonValue>, JsonPointerError>)
        ensures
            match r {
                Ok(Some(v)) => path_get(self@, token_models(tokens@)) == Ok::<
                    Option<Json>,
                    JsonPointerError,
                >(Some(v@)),
                Ok(None) => path_get(self@, token_models(tokens@)) == Ok::<
                    Option<Json>,
                    JsonPointerError,
                >(None),
                Err(e) => path_get(self@, token_models(tokens@)) == Err::<
                    Option<Json>,
                    JsonPointerError,
                >(e),
            },
    {
        let ghost tm = token_models(tokens@);
        let mut current: &JsonValue = self;
        let mut i: usize = 0;
        proof {
            assert(tm.skip(0) == tm);
        }
        while i < tokens.len()
            invariant
                i <= tokens@.len(),
                tm == token_models(tokens@),
                path_get(self@, tm) == path_get(current@, tm.skip(i as int)),
            decreases tokens@.len() - i,
        {
            let token = &tokens[i];
            proof {
                assert(tm.skip(i as int)[0] == token@);
                assert(tm.skip(i as int).drop_first() == tm.skip(i + 1));
            }
            match current {
                JsonValue::Object(o) => {
                    proof {
                        assert(current@ == Json::Object(o.model()));
                    }
                    match o.position(token) {
                        Some(k) => {
                            proof {
                                lemma_pairs_model(o.entries@);
                                assert(path_get(current@, tm.skip(i as int)) == path_get(
                                    o.model()[k as int].1,
                                    tm.skip(i + 1),
                                ));
                            }
                            current = &o.entries[k].1;
                        },
                        None => {
                            proof {
                                assert(path_get(current@, tm.skip(i as int)) == Ok::<
                                    Option<Json>,
                                    JsonPointerError,
                                >(None));
                            }
                            return Ok(None);
                        },
                    }
                },
                JsonValue::Array(items) => {
                    proof {
                        lemma_models_of(items@);
                        assert(current@ == Json::Array(models_of(items@)));
                    }
                    let idx = match array_index(token) {
                        Ok(idx) => idx,
                        Err(e) => {
                            return Err(e);
                        },
                    };
                    if idx < items.len() {
                        proof {
                            assert(path_get(current@, tm.skip(i as int)) == path_get(
                                models_of(items@)[idx as int],
                                tm.skip(i + 1),
                            ));
                        }
                        current = &items[idx];
                    } else {
                        proof {
                            assert(path_get(current@, tm.skip(i as int)) == Ok::<
                                Option<Json>,
                                JsonPointerError,
                            >(None));
                        }
                        return Ok(None);
                    }
                },
                _ => {
                    proof {
                        assert(!(current@ is Object) && !(current@ is Array));
                    }
                    return Err(JsonPointerError::CannotTraverse);
                },
            }
            i = i + 1;
        }
        proof {
            assert(tm.skip(i as int).len() == 0);
        }
        Ok(Some(current))
    }

    /// This value with the target of `tokens[from..]` replaced (see
    /// [`path_set`]).
    pub fn set_path(self, tokens: &Vec<String>, from: usize, replacement: JsonValue) -> (r: Result<
        JsonValue,
        JsonPointerError,
    >)
        requires
            from <= tokens@.len(),
        ensures
            match r {
                Ok(v) => path_set(self@, token_models(tokens@).skip(from as int), replacement@)
                    == Ok::<Json, JsonPointerError>(v@),
                Err(e) => path_set(self@, token_models(tokens@).skip(from as int), replacement@)
                    == Err::<Json, JsonPointerError>(e),
            },
        decreases tokens@.len() - from,
    {
        let ghost tm = token_models(tokens@);
        let ghost before = self@;
        let ghost rep = replacement@;
        if from == tokens.len() {
            proof {
                assert(tm.skip(from as int).len() == 0);
            }
            return Ok(replacement);
        }
        let token = &tokens[from];
        proof {
            assert(tm.skip(from as int)[0] == token@);
            assert(tm.skip(from as int).drop_first() == tm.skip(from + 1));
        }
        match self {
            JsonValue::Object(mut o) => {
                proof {
                    use_type_invariant(&o);
                    lemma_pairs_model(o.entries@);
                }
                let ghost m = o.model();
                proof {
                    assert(before == Json::Object(m));
                }
                match o.position(token) {
                    Some(k) => {
                        let mut entries: Vec<(String, JsonValue)> = Vec::new();
                        std::mem::swap(&mut entries, &mut o.entries);
                        let ghost old_entries = entries@;
                        let (key, child) = entries.remove(k);
                        let ghost key_model = key@;
                        proof {
                            assert(old_entries[k as int] == (key, child));
                            assert(child@ == m[k as int].1);
                        }
                        let c = match child.set_path(tokens, from + 1, replacement) {
                            Ok(c) => c,
                            Err(e) => {
                                proof {
                                    assert(path_set(before, tm.skip(from as int), rep) == Err::<
                                        Json,
                                        JsonPointerError,
                                    >(e));
                                }
                                return Err(e);
                            },
                        };
                        proof {
                            assert(path_set(before, tm.skip(from as int), rep) == Ok::<
                                Json,
                                JsonPointerError,
                            >(Json::Object(m.update(k as int, (m[k as int].0, c@)))));
                        }
                        let ghost pair = (key, c);
                        entries.insert(k, (key, c));
                        proof {
                            assert(entries@ =~= old_entries.update(k as int, pair));
                            assert forall|a: int, b: int|
                                0 <= a < b < entries@.len() implies key_lt(
                                #[trigger] entries@[a].0@,
                                #[trigger] entries@[b].0@,
                            ) by {
                                if a == k {
                                    assert(entries@[a] == pair);
                                } else {
                                    assert(entries@[a] == old_entries[a]);
                                }
                                if b == k {
                                    assert(entries@[b] == pair);
                                } else {
                                    assert(entries@[b] == old_entries[b]);
                                }
                                assert(entries@[a].0@ == m[a].0);
                                assert(entries@[b].0@ == m[b].0);
                                assert(key_lt(m[a].0, m[b].0));
                            }
                            lemma_pairs_model_ext(entries@, m.update(k as int, (m[k as int].0, pair.1@)));
                        }
                        o.entries = entries;
                        Ok(JsonValue::Object(o))
                    },
                    None => Err(JsonPointerError::CannotTraverse),
                }
            },
            JsonValue::Array(mut items) => {
                proof {
                    lemma_models_of(items@);
                }
                let ghost old_items = items@;
                proof {
                    assert(before == Json::Array(models_of(old_items)));
                }
                let idx = match array_index(token) {
                    Ok(idx) => idx,
                    Err(e) => {
                        return Err(e);
                    },
                };
                if idx < items.len() {
                    let child = items.remove(idx);
                    proof {
                        assert(child@ == models_of(old_items)[idx as int]);
                    }
                    let c = match child.set_path(tokens, from + 1, replacement) {
                        Ok(c) => c,
                        Err(e) => {
                            proof {
                                assert(path_set(before, tm.skip(from as int), rep) == Err::<
                                    Json,
                                    JsonPointerError,
                                >(e));
                            }
                            return Err(e);
                        },
                    };
                    let ghost cm = c@;
                    let ghost cv = c;
                    items.insert(idx, c);
                    proof {
                        assert(items@ =~= old_items.update(idx as int, cv));
                        lemma_models_of_ext(items@, models_of(old_items).update(idx as int, cm));
                    }
                    Ok(JsonValue::Array(items))
                } else {
                    Err(JsonPointerError::CannotTraverse)
                }
            },
            _ => {
                proof {
                    assert(!(before is Object) && !(before is Array));
                }
                Err(JsonPointerError::CannotTraverse)
            },
        }
    }
}


// ---------------------------------------------------------------------------
// Compact JSON text
// ---------------------------------------------------------------------------

/// The lowercase hexadecimal digit for `n` in `0..16`.
pub open spec fn hex_digit(n: int) -> char {
    if n < 10 {
        (n + 48) as char
    } else {
        (n + 87) as char
    }
}

/// How a JSON string writes the character `c`: `"` and `\` backslashed,
/// the usual short escapes for backspace, form feed, newline, carriage return
/// and tab, other control characters as `\u00XX`, everything else as is.
pub open spec fn escape_json_char(c: char) -> Seq<char> {
    if c == '"' {
        seq!['\\', '"']
    } else if c == '\\' {
        seq!['\\', '\\']
    } else if c == '\u{8}' {
        seq!['\\', 'b']
    } else if c == '\u{c}' {
        seq!['\\', 'f']
    } else if c == '\n' {
        seq!['\\', 'n']
    } else if c == '\r' {
        seq!['\\', 'r']
    } else if c == '\t' {
        seq!['\\', 't']
    } else if (c as u32) < 0x20 {
        seq!['\\', 'u', '0', '0', hex_digit(((c as u32) / 16) as int), hex_digit(((c as u32) % 16) as int)]
    } else {
        seq![c]
    }
}

pub open spec fn escape_json(s: Seq<char>) -> Seq<char>
    decreases s.len(),
{
    if s.len() == 0 {
        Seq::empty()
    } else {
        escape_json(s.drop_last()) + escape_json_char(s.last())
    }
}

/// A string as a JSON string literal.
pub open spec fn quote_json(s: Seq<char>) -> Seq<char> {
    seq!['"'] + escape_json(s) + seq!['"']
}

/// A number as serde_json displays it.
pub open spec fn number_text(n: NumberModel) -> Seq<char> {
    match n {
        NumberModel::PosInt(u) => nat_text(u as nat),
        NumberModel::NegInt(i) => int_text(i as int),
        NumberModel::Float(t) => t,
    }
}

/// Compact JSON text: no whitespace, members in stored order.
pub open spec fn json_text(j: Json) -> Seq<char>
    decreases j,
{
    match j {
        Json::Null => "null"@,
        Json::Bool(b) => if b {
            "true"@
        } else {
            "false"@
        },
        Json::Number(n) => number_text(n),
        Json::Str(s) => quote_json(s),
        Json::Array(items) => seq!['['] + items_text(items) + seq![']'],
        Json::Object(pairs) => seq!['{'] + members_text(pairs) + seq!['}'],
    }
}

/// Array elements separated by commas.
pub open spec fn items_text(items: Seq<Json>) -> Seq<char>
    decreases items,
{
    if items.len() == 0 {
        Seq::empty()
    } else if items.len() == 1 {
        json_text(items[0])
    } else {
        items_text(items.drop_last()) + seq![','] + json_text(items.last())
    }
}

/// `"key":value` members separated by commas.
pub open spec fn members_text(pairs: Seq<(Seq<char>, Json)>) -> Seq<char>
    decreases pairs,
{
    if pairs.len() == 0 {
        Seq::empty()
    } else {
        proof {
            assert(decreases_to!(pairs => pairs[pairs.len() - 1]));
            assert(decreases_to!(pairs[pairs.len() - 1] => pairs[pairs.len() - 1].1));
        }
        let m = quote_json(pairs.last().0) + seq![':'] + json_text(pairs.last().1);
        if pairs.len() == 1 {
            m
        } else {
            members_text(pairs.drop_last()) + seq![','] + m
        }
    }
}

/// Appends `s` as a JSON string literal.
pub fn write_quoted(s: &str, out: &mut Vec<char>)
    ensures
        final(out)@ == old(out)@ + quote_json(s@),
{
    let v = chars_of(s);
    let ghost start = out@;
    out.push('"');
    let mut i: usize = 0;
    while i < v.len()
        invariant
            i <= v@.len(),
            v@ == s@,
            out@ == start + seq!['"'] + escape_json(v@.take(i as int)),
        decreases v@.len() - i,
    {
        let c = v[i];
        let ghost before = out@;
        proof {
            assert(v@.take(i + 1).drop_last() == v@.take(i as int));
            assert(v@.take(i + 1).last() == c);
        }
        if c == '"' {
            out.push('\\');
            out.push('"');
        } else if c == '\\' {
            out.push('\\');
            out.push('\\');
        } else if c == '\u{8}' {
            out.push('\\');
            out.push('b');
        } else if c == '\u{c}' {
            out.push('\\');
            out.push('f');
        } else if c == '\n' {
            out.push('\\');
            out.push('n');
        } else if c == '\r' {
            out.push('\\');
            out.push('r');
        } else if c == '\t' {
            out.push('\\');
            out.push('t');
        } else if (c as u32) < 0x20 {
            let n = c as u32;
            let hi = n / 16;
            let lo = n % 16;
            out.push('\\');
            out.push('u');
            out.push('0');
            out.push('0');
            out.push(if hi < 10 { char_from_ascii_code(hi + 48) } else { char_from_ascii_code(hi + 87) });
            out.push(if lo < 10 { char_from_ascii_code(lo + 48) } else { char_from_ascii_code(lo + 87) });
        } else {
            out.push(c);
        }
        proof {
            assert(out@ == before + escape_json_char(c));
        }
        i = i + 1;
    }
    out.push('"');
    proof {
        assert(v@.take(v@.len() as int) == v@);
    }
}

fn write_number(n: &JsonNumber, out: &mut Vec<char>)
    ensures
        final(out)@ == old(out)@ + number_text(n@),
{
    match n {
        JsonNumber::PosInt(u) => {
            let d = u64_text(*u);
            let ghost start = out@;
            let mut i: usize = 0;
            while i < d.len()
                invariant
                    i <= d@.len(),
                    out@ == start + d@.take(i as int),
                decreases d@.len() - i,
            {
                out.push(d[i]);
                i = i + 1;
                proof {
                    assert(d@.take(i as int) == d@.take(i - 1).push(d@[i - 1]));
                }
            }
            proof {
                assert(d@.take(i as int) == d@);
            }
        },
        JsonNumber::NegInt(v) => {
            let t = i64_text(*v);
            append_str(out, t.as_str());
        },
        JsonNumber::Float(t) => {
            append_str(out, t.as_str());
        },
    }
}

impl JsonValue {
    /// Appends this value's compact JSON text; object members come in key
    /// order.
    pub fn write_json(&self, out: &mut Vec<char>)
        ensures
            final(out)@ == old(out)@ + json_text(self@),
        decreases self,
    {
        match self {
            JsonValue::Null => {
                append_str(out, "null");
                proof {
                    reveal_strlit("null");
                }
            },
            JsonValue::Bool(b) => {
                if *b {
                    append_str(out, "true");
                } else {
                    append_str(out, "false");
                }
                proof {
                    reveal_strlit("true");
                    reveal_strlit("false");
                }
            },
            JsonValue::Number(n) => write_number(n, out),
            JsonValue::String(s) => write_quoted(s.as_str(), out),
            JsonValue::Array(items) => {
                let ghost start = out@;
                out.push('[');
                let mut i: usize = 0;
                proof {
                    lemma_models_of(items@);
                    assert(models_of(items@).take(0) =~= Seq::<Json>::empty());
                }
                while i < items.len()
                    invariant
                        *self == JsonValue::Array(*items),
                        i <= items@.len(),
                        models_of(items@).len() == items@.len(),
                        forall|k: int| 0 <= k < items@.len() ==> #[trigger] models_of(items@)[k] == model_of(items@[k]),
                        out@ == start + seq!['['] + items_text(models_of(items@).take(i as int)),
                    decreases items@.len() - i,
                {
                    proof {
                        assert(decreases_to!(*self => self->Array_0));
                        assert(decreases_to!(self->Array_0 => self->Array_0@));
                        assert(decreases_to!(self->Array_0@ => self->Array_0@[i as int]));
                        assert(decreases_to!(*self => items@[i as int]));
                    }
                    let ghost m = models_of(items@);
                    proof {
                        assert(m.take(i + 1).drop_last() == m.take(i as int));
                        assert(m.take(i + 1).last() == items@[i as int]@);
                    }
                    if i > 0 {
                        out.push(',');
                    }
                    items[i].write_json(out);
                    i = i + 1;
                }
                out.push(']');
                proof {
                    assert(models_of(items@).take(i as int) == models_of(items@));
                }
            },
            JsonValue::Object(o) => {
                proof {
                    use_type_invariant(o);
                }
                let ghost start = out@;
                out.push('{');
                let mut i: usize = 0;
                proof {
                    lemma_pairs_model(o.entries@);
                    assert(pairs_model(o.entries@).take(0) =~= Seq::<(Seq<char>, Json)>::empty());
                }
                while i < o.entries.len()
                    invariant
                        *self == JsonValue::Object(*o),
                        i <= o.entries@.len(),
                        pairs_model(o.entries@).len() == o.entries@.len(),
                        forall|k: int|
                            0 <= k < o.entries@.len() ==> #[trigger] pairs_model(o.entries@)[k] == (
                                o.entries@[k].0@,
                                model_of(o.entries@[k].1),
                            ),
                        out@ == start + seq!['{'] + members_text(pairs_model(o.entries@).take(i as int)),
                    decreases o.entries@.len() - i,
                {
                    proof {
                        assert(decreases_to!(*self => self->Object_0));
                        assert(decreases_to!(self->Object_0 => self->Object_0.entries));
                        assert(decreases_to!(self->Object_0.entries => self->Object_0.entries@));
                        assert(decreases_to!(self->Object_0.entries@ => self->Object_0.entries@[i as int]));
                        assert(decreases_to!(o.entries@[i as int] => o.entries@[i as int].1));
                        assert(decreases_to!(*self => o.entries@[i as int].1));
                    }
                    let ghost m = pairs_model(o.entries@);
                    proof {
                        assert(m.take(i + 1).drop_last() == m.take(i as int));
                        assert(m.take(i + 1).last() == (o.entries@[i as int].0@, o.entries@[i as int].1@));
                    }
                    if i > 0 {
                        out.push(',');
                    }
                    write_quoted(o.entries[i].0.as_str(), out);
                    out.push(':');
                    o.entries[i].1.write_json(out);
                    i = i + 1;
                }
                out.push('}');
                proof {
                    assert(pairs_model(o.entries@).take(i as int) == pairs_model(o.entries@));
                }
            },
        }
    }
}


// ---------------------------------------------------------------------------
// Equality
// ---------------------------------------------------------------------------

/// Two numbers are equal as serde_json compares them: the same
/// representation and value, where the two float zeros are equal.
pub open spec fn number_eq(a: NumberModel, b: NumberModel) -> bool {
    a == b || (a is Float && b is Float && (a->Float_0 == "0.0"@ || a->Float_0 == "-0.0"@) && (
    b->Float_0 == "0.0"@ || b->Float_0 == "-0.0"@))
}

/// JSON equality (`serde_json::Value`'s `==`): numbers by `number_eq`,
/// arrays element by element, objects member by member in key order.
pub open spec fn json_eq(a: Json, b: Json) -> bool
    decreases a,
{
    match (a, b) {
        (Json::Null, Json::Null) => true,
        (Json::Bool(x), Json::Bool(y)) => x == y,
        (Json::Number(x), Json::Number(y)) => number_eq(x, y),
        (Json::Str(x), Json::Str(y)) => x == y,
        (Json::Array(x), Json::Array(y)) => x.len() == y.len() && forall|i: int|
            0 <= i < x.len() ==> json_eq(#[trigger] x[i], y[i]),
        (Json::Object(x), Json::Object(y)) => x.len() == y.len() && forall|i: int|
            0 <= i < x.len() ==> (#[trigger] x[i]).0 == y[i].0 && json_eq(x[i].1, y[i].1),
        _ => false,
    }
}

fn is_float_zero(t: &String) -> (r: bool)
    ensures
        r == (t@ == "0.0"@ || t@ == "-0.0"@),
{
    let v = chars_of(t.as_str());
    crate::text::chars_eq_str(v.as_slice(), "0.0") || crate::text::chars_eq_str(v.as_slice(), "-0.0")
}

fn number_equal(a: &JsonNumber, b: &JsonNumber) -> (r: bool)
    ensures
        r == number_eq(a@, b@),
{
    match (a, b) {
        (JsonNumber::PosInt(x), JsonNumber::PosInt(y)) => *x == *y,
        (JsonNumber::NegInt(x), JsonNumber::NegInt(y)) => *x == *y,
        (JsonNumber::Float(x), JsonNumber::Float(y)) => {
            let vx = chars_of(x.as_str());
            let vy = chars_of(y.as_str());
            crate::text::chars_eq(vx.as_slice(), vy.as_slice()) || (is_float_zero(x) && is_float_zero(y))
        },
        _ => false,
    }
}

impl JsonValue {
    /// Whether two values are equal as JSON (see [`json_eq`]).
    pub fn equals(&self, other: &JsonValue) -> (r: bool)
        ensures
            r == json_eq(self@, other@),
        decreases self,
    {
        match (self, other) {
            (JsonValue::Null, JsonValue::Null) => true,
            (JsonValue::Bool(x), JsonValue::Bool(y)) => *x == *y,
            (JsonValue::Number(x), JsonValue::Number(y)) => number_equal(x, y),
            (JsonValue::String(x), JsonValue::String(y)) => *x == *y,
            (JsonValue::Array(x), JsonValue::Array(y)) => {
                proof {
                    lemma_models_of(x@);
                    lemma_models_of(y@);
                }
                if x.len() != y.len() {
                    return false;
                }
                let mut i: usize = 0;
                while i < x.len()
                    invariant
                        *self == JsonValue::Array(*x),
                        *other == JsonValue::Array(*y),
                        i <= x@.len(),
                        x@.len() == y@.len(),
                        models_of(x@).len() == x@.len(),
                        models_of(y@).len() == y@.len(),
                        forall|k: int| 0 <= k < x@.len() ==> #[trigger] models_of(x@)[k] == model_of(x@[k]),
                        forall|k: int| 0 <= k < y@.len() ==> #[trigger] models_of(y@)[k] == model_of(y@[k]),
                        forall|k: int| 0 <= k < i ==> json_eq(#[trigger] models_of(x@)[k], models_of(y@)[k]),
                    decreases x@.len() - i,
                {
                    proof {
                        assert(decreases_to!(*self => self->Array_0));
                        assert(decreases_to!(self->Array_0 => self->Array_0@));
                        assert(decreases_to!(self->Array_0@ => self->Array_0@[i as int]));
                        assert(decreases_to!(*self => x@[i as int]));
                    }
                    if !x[i].equals(&y[i]) {
                        proof {
                            assert(!json_eq(models_of(x@)[i as int], models_of(y@)[i as int]));
                        }
                        return false;
                    }
                    i = i + 1;
                }
                true
            },
            (JsonValue::Object(x), JsonValue::Object(y)) => {
                proof {
                    lemma_pairs_model(x.entries@);
                    lemma_pairs_model(y.entries@);
                }
                if x.entries.len() != y.entries.len() {
                    return false;
                }
                let mut i: usize = 0;
                while i < x.entries.len()
                    invariant
                        *self == JsonValue::Object(*x),
                        *other == JsonValue::Object(*y),
                        i <= x.entries@.len(),
                        x.entries@.len() == y.entries@.len(),
                        pairs_model(x.entries@).len() == x.entries@.len(),
                        pairs_model(y.entries@).len() == y.entries@.len(),
                        forall|k: int|
                            0 <= k < x.entries@.len() ==> #[trigger] pairs_model(x.entries@)[k] == (
                                x.entries@[k].0@,
                                model_of(x.entries@[k].1),
                            ),
                        forall|k: int|
                            0 <= k < y.entries@.len() ==> #[trigger] pairs_model(y.entries@)[k] == (
                                y.entries@[k].0@,
                                model_of(y.entries@[k].1),
                            ),
                        forall|k: int|
                            0 <= k < i ==> (#[trigger] pairs_model(x.entries@)[k]).0 == pairs_model(
                                y.entries@,
                            )[k].0 && json_eq(pairs_model(x.entries@)[k].1, pairs_model(y.entries@)[k].1),
                    decreases x.entries@.len() - i,
                {
                    proof {
                        assert(decreases_to!(*self => self->Object_0));
                        assert(decreases_to!(self->Object_0 => self->Object_0.entries));
                        assert(decreases_to!(self->Object_0.entries => self->Object_0.entries@));
                        assert(decreases_to!(self->Object_0.entries@ => self->Object_0.entries@[i as int]));
                        assert(decreases_to!(x.entries@[i as int] => x.entries@[i as int].1));
                        assert(decreases_to!(*self => x.entries@[i as int].1));
                    }
                    if x.entries[i].0 != y.entries[i].0 {
                        proof {
                            assert(pairs_model(x.entries@)[i as int].0 != pairs_model(y.entries@)[i as int].0);
                        }
                        return false;
                    }
                    if !x.entries[i].1.equals(&y.entries[i].1) {
                        proof {
                            assert(!json_eq(pairs_model(x.entries@)[i as int].1, pairs_model(y.entries@)[i as int].1));
                        }
                        return false;
                    }
                    i = i + 1;
                }
                true
            },
            _ => false,
        }
    }
}


// ---------------------------------------------------------------------------
// Small objects
// ---------------------------------------------------------------------------

impl JsonValue {
    /// The object `{key: value}`.
    pub fn object1(key: String, value: JsonValue) -> (r: JsonValue)
        ensures
            r@ == Json::Object(seq![(key@, value@)]),
    {
        let mut o = JsonObject::new();
        let ghost k = key@;
        let ghost v = value@;
        proof {
            assert(o.model() =~= Seq::<(Seq<char>, Json)>::empty());
        }
        o.insert(key, value);
        proof {
            let e = Seq::<(Seq<char>, Json)>::empty();
            assert(find_index(e, k).is_none());
            assert(insert_position(e, k) == 0);
            assert(e.insert(0, (k, v)) =~= seq![(k, v)]);
        }
        JsonValue::from_object(o)
    }

    /// The object `{k1: v1, k2: v2}`, where `k1` sorts before `k2`.
    pub fn object2(k1: String, v1: JsonValue, k2: String, v2: JsonValue) -> (r: JsonValue)
        requires
            key_lt(k1@, k2@),
        ensures
            r@ == Json::Object(seq![(k1@, v1@), (k2@, v2@)]),
    {
        let mut o = JsonObject::new();
        let ghost a = k1@;
        let ghost b = k2@;
        let ghost va = v1@;
        let ghost vb = v2@;
        proof {
            assert(o.model() =~= Seq::<(Seq<char>, Json)>::empty());
        }
        o.insert(k1, v1);
        let ghost m1 = o.model();
        proof {
            let e = Seq::<(Seq<char>, Json)>::empty();
            assert(find_index(e, a).is_none());
            assert(insert_position(e, a) == 0);
            assert(m1 =~= seq![(a, va)]);
            lemma_key_lt_irreflexive(a);
            assert(m1[0].0 != b);
            assert(m1.drop_first() =~= e);
            assert(find_index(m1.drop_first(), b).is_none());
            assert(find_index(m1, b).is_none());
            assert(insert_position(m1.drop_first(), b) == 0);
            assert(insert_position(m1, b) == 1);
        }
        o.insert(k2, v2);
        proof {
            assert(o.model() =~= seq![(a, va), (b, vb)]);
        }
        JsonValue::from_object(o)
    }

    /// The array `[items...]`.
    pub fn array_of(items: Vec<JsonValue>) -> (r: JsonValue)
        ensures
            r@ == Json::Array(items@.map_values(|v: JsonValue| v@)),
    {
        let ghost m = items@.map_values(|v: JsonValue| v@);
        let r = JsonValue::from_array(items);
        proof {
            assert(r@->Array_0 =~= m);
        }
        r
    }
}

} // verus!
