//! The telemetry record and its tags.
use vstd::prelude::*;
use vstd::std_specs::cmp::PartialEqSpecImpl;
use crate::number::Decimal;

verus! {

/// Tags as a mathematical map from key to value.
pub type Tags = Map<Seq<char>, Seq<char>>;

/// `i` is a place in `s` that holds the key `k`.
pub open spec fn has_key_at(s: Seq<(String, String)>, k: Seq<char>, i: int) -> bool {
    0 <= i < s.len() && s[i].0@ == k
}

/// No key stands at two places of `s`.
pub open spec fn distinct_keys(s: Seq<(String, String)>) -> bool {
    forall|i: int, j: int| 0 <= i < j < s.len() ==> #[trigger] s[i].0@ != #[trigger] s[j].0@
}

/// The map that a sequence of key and value pairs stands for.
pub open spec fn pairs_map(s: Seq<(String, String)>) -> Tags {
    Map::new(
        |k: Seq<char>| exists|i: int| has_key_at(s, k, i),
        |k: Seq<char>| s[choose|i: int| has_key_at(s, k, i)].1@,
    )
}

/// With distinct keys, the map holds at each key the value that stands
/// beside it.
pub proof fn lemma_pairs_map_at(s: Seq<(String, String)>, i: int)
    requires
        distinct_keys(s),
        0 <= i < s.len(),
    ensures
        pairs_map(s).contains_key(s[i].0@),
        pairs_map(s)[s[i].0@] == s[i].1@,
{
    let k = s[i].0@;
    assert(has_key_at(s, k, i));
    let j = choose|j: int| has_key_at(s, k, j);
    assert(j == i);
}

/// With distinct keys, the map has as many keys as there are pairs.
pub proof fn lemma_pairs_map_len(s: Seq<(String, String)>)
    requires
        distinct_keys(s),
    ensures
        pairs_map(s).dom().finite(),
        pairs_map(s).dom().len() == s.len(),
    decreases s.len(),
{
    if s.len() == 0 {
        assert(pairs_map(s).dom() =~= Set::<Seq<char>>::empty());
    } else {
        let init = s.drop_last();
        let k = s.last().0@;
        lemma_pairs_map_len(init);
        assert(!pairs_map(init).dom().contains(k)) by {
            if pairs_map(init).dom().contains(k) {
                let j = choose|j: int| has_key_at(init, k, j);
                assert(init[j].0@ == s[j].0@);
            }
        }
        assert(pairs_map(s).dom() =~= pairs_map(init).dom().insert(k)) by {
            assert forall|q: Seq<char>| #[trigger]
                pairs_map(s).dom().contains(q) == pairs_map(init).dom().insert(k).contains(q) by {
                if pairs_map(s).dom().contains(q) {
                    let j = choose|j: int| has_key_at(s, q, j);
                    if j < init.len() {
                        assert(has_key_at(init, q, j));
                    }
                }
                if pairs_map(init).dom().contains(q) {
                    let j = choose|j: int| has_key_at(init, q, j);
                    assert(has_key_at(s, q, j));
                }
                if q == k {
                    assert(has_key_at(s, q, s.len() - 1));
                }
            }
        }
    }
}

/// One more pair with a new key adds that key to the map.
pub proof fn lemma_pairs_map_push(s: Seq<(String, String)>, i: int)
    requires
        distinct_keys(s),
        0 <= i < s.len(),
    ensures
        distinct_keys(s.take(i)),
        distinct_keys(s.take(i + 1)),
        pairs_map(s.take(i + 1)) == pairs_map(s.take(i)).insert(s[i].0@, s[i].1@),
{
    let a = s.take(i);
    let b = s.take(i + 1);
    assert forall|q: Seq<char>| #[trigger]
        pairs_map(b).contains_key(q) == pairs_map(a).insert(s[i].0@, s[i].1@).contains_key(
            q,
        ) by {
        if pairs_map(b).contains_key(q) {
            let j = choose|j: int| has_key_at(b, q, j);
            if j < i {
                assert(has_key_at(a, q, j));
            }
        }
        if pairs_map(a).contains_key(q) {
            let j = choose|j: int| has_key_at(a, q, j);
            assert(has_key_at(b, q, j));
        }
        if q == s[i].0@ {
            assert(has_key_at(b, q, i));
        }
    }
    assert forall|q: Seq<char>| #[trigger] pairs_map(b).contains_key(q) implies pairs_map(b)[q]
        == pairs_map(a).insert(s[i].0@, s[i].1@)[q] by {
        let j = choose|j: int| has_key_at(b, q, j);
        lemma_pairs_map_at(b, j);
        if j < i {
            lemma_pairs_map_at(a, j);
        }
    }
    assert(pairs_map(b) =~= pairs_map(a).insert(s[i].0@, s[i].1@));
}

/// In an overlay the upper map decides every key that it holds, the lower
/// map the others, and no further key appears.
pub proof fn lemma_overlay_prefers_upper(lower: Tags, upper: Tags, k: Seq<char>)
    ensures
        lower.union_prefer_right(upper).contains_key(k) <==> lower.contains_key(k)
            || upper.contains_key(k),
        upper.contains_key(k) ==> lower.union_prefer_right(upper)[k] == upper[k],
        !upper.contains_key(k) && lower.contains_key(k) ==> lower.union_prefer_right(upper)[k]
            == lower[k],
{
}

/// Laying the same map over twice gives what laying it over once gives.
pub proof fn lemma_overlay_idempotent(lower: Tags, upper: Tags)
    ensures
        lower.union_prefer_right(upper).union_prefer_right(upper) == lower.union_prefer_right(
            upper,
        ),
{
    assert(lower.union_prefer_right(upper).union_prefer_right(upper) =~= lower.union_prefer_right(
        upper,
    ));
}

/// A new value beside a key that is held replaces the old value.
pub proof fn lemma_pairs_map_update(s: Seq<(String, String)>, i: int, pair: (String, String))
    requires
        distinct_keys(s),
        has_key_at(s, pair.0@, i),
    ensures
        distinct_keys(s.update(i, pair)),
        pairs_map(s.update(i, pair)) == pairs_map(s).insert(pair.0@, pair.1@),
{
    let after = s.update(i, pair);
    let k = pair.0@;
    assert forall|a: int, b: int| 0 <= a < b < after.len() implies #[trigger] after[a].0@
        != #[trigger] after[b].0@ by {
        assert(after[a].0@ == s[a].0@);
        assert(after[b].0@ == s[b].0@);
    }
    assert forall|q: Seq<char>| #[trigger]
        pairs_map(after).contains_key(q) == pairs_map(s).insert(k, pair.1@).contains_key(q) by {
        if pairs_map(after).contains_key(q) {
            let j = choose|j: int| has_key_at(after, q, j);
            assert(has_key_at(s, q, j));
        }
        if pairs_map(s).contains_key(q) {
            let j = choose|j: int| has_key_at(s, q, j);
            assert(has_key_at(after, q, j));
        }
        if q == k {
            assert(has_key_at(after, q, i));
        }
    }
    assert forall|q: Seq<char>| #[trigger] pairs_map(after).contains_key(q) implies pairs_map(
        after,
    )[q] == pairs_map(s).insert(k, pair.1@)[q] by {
        let j = choose|j: int| has_key_at(after, q, j);
        lemma_pairs_map_at(after, j);
        if j != i {
            assert(after[j] == s[j]);
            lemma_pairs_map_at(s, j);
        }
    }
    assert(pairs_map(after) =~= pairs_map(s).insert(k, pair.1@));
}

/// A pair with a key that is not held adds that key.
pub proof fn lemma_pairs_map_append(s: Seq<(String, String)>, pair: (String, String))
    requires
        distinct_keys(s),
        forall|i: int| !has_key_at(s, pair.0@, i),
    ensures
        distinct_keys(s.push(pair)),
        pairs_map(s.push(pair)) == pairs_map(s).insert(pair.0@, pair.1@),
{
    let after = s.push(pair);
    let n = s.len() as int;
    assert forall|a: int, b: int| 0 <= a < b < after.len() implies #[trigger] after[a].0@
        != #[trigger] after[b].0@ by {
        assert(after[a] == s[a]);
        if b < n {
            assert(after[b] == s[b]);
        } else {
            assert(!has_key_at(s, pair.0@, a));
        }
    }
    assert(after.take(n) == s);
    assert(after.take(n + 1) == after);
    lemma_pairs_map_push(after, n);
}

/// A map from tag key to tag value. Each key is held once; the order in
/// which the keys were inserted plays no part in what the map means.
#[derive(Debug)]
pub struct TagMap {
    entries: Vec<(String, String)>,
}

impl TagMap {
    #[verifier::type_invariant]
    spec fn well_formed(&self) -> bool {
        distinct_keys(self.entries@)
    }

    /// The map that these tags stand for.
    pub closed spec fn view(&self) -> Tags {
        pairs_map(self.entries@)
    }

    /// The empty map.
    pub fn new() -> (m: TagMap)
        ensures
            m@ == Tags::empty(),
    {
        let m = TagMap { entries: Vec::new() };
        assert(m@ =~= Tags::empty());
        m
    }

    /// Where `key` stands among the entries, if it does.
    fn position(&self, key: &String) -> (r: Option<usize>)
        ensures
            match r {
                Some(i) => has_key_at(self.entries@, key@, i as int),
                None => forall|i: int| !has_key_at(self.entries@, key@, i),
            },
    {
        let mut i: usize = 0;
        while i < self.entries.len()
            invariant
                i <= self.entries.len(),
                forall|k: int| 0 <= k < i ==> !has_key_at(self.entries@, key@, k),
            decreases self.entries.len() - i,
        {
            if self.entries[i].0 == *key {
                return Some(i);
            }
            i += 1;
        }
        None
    }

    /// The value held at `key`.
    pub fn get(&self, key: &str) -> (r: Option<&String>)
        ensures
            r is Some <==> self@.contains_key(key@),
            r is Some ==> r->0@ == self@[key@],
    {
        proof {
            use_type_invariant(self);
        }
        let owned: String = key.to_owned();
        match self.position(&owned) {
            Some(i) => {
                proof {
                    lemma_pairs_map_at(self.entries@, i as int);
                }
                Some(&self.entries[i].1)
            },
            None => None,
        }
    }

    /// Whether the map holds `key`.
    pub fn contains_key(&self, key: &str) -> (b: bool)
        ensures
            b == self@.contains_key(key@),
    {
        self.get(key).is_some()
    }

    /// Sets the value at `key`, whether or not the key was held before.
    pub fn insert(&mut self, key: String, value: String)
        ensures
            final(self)@ == old(self)@.insert(key@, value@),
    {
        proof {
            use_type_invariant(&*self);
        }
        let ghost before = self.entries@;
        let found = self.position(&key);
        let mut entries: Vec<(String, String)> = Vec::new();
        core::mem::swap(&mut self.entries, &mut entries);
        match found {
            Some(i) => {
                proof {
                    lemma_pairs_map_update(before, i as int, (key, value));
                }
                entries.set(i, (key, value));
            },
            None => {
                proof {
                    lemma_pairs_map_append(before, (key, value));
                }
                entries.push((key, value));
            },
        }
        self.entries = entries;
    }

    /// How many keys the map holds.
    pub fn len(&self) -> (n: usize)
        ensures
            self@.dom().finite(),
            n == self@.dom().len(),
    {
        proof {
            use_type_invariant(self);
            lemma_pairs_map_len(self.entries@);
        }
        self.entries.len()
    }

    /// Whether the map holds no key at all.
    pub fn is_empty(&self) -> (b: bool)
        ensures
            b == (self@ == Tags::empty()),
    {
        proof {
            use_type_invariant(self);
            lemma_pairs_map_len(self.entries@);
            if self.entries@.len() == 0 {
                assert(self@ =~= Tags::empty());
            }
        }
        self.entries.len() == 0
    }

    /// Lays `other` over this map: every key of `other` takes the value
    /// that `other` gives it; the keys that only this map holds stay.
    pub fn overlay(&mut self, other: &TagMap)
        ensures
            final(self)@ == old(self)@.union_prefer_right(other@),
    {
        proof {
            use_type_invariant(other);
        }
        let mut i: usize = 0;
        assert(pairs_map(other.entries@.take(0)) =~= Tags::empty());
        assert(self@ =~= self@.union_prefer_right(Tags::empty()));
        while i < other.entries.len()
            invariant
                i <= other.entries.len(),
                distinct_keys(other.entries@),
                self@ == old(self)@.union_prefer_right(pairs_map(other.entries@.take(i as int))),
            decreases other.entries.len() - i,
        {
            let key: String = other.entries[i].0.clone();
            let value: String = other.entries[i].1.clone();
            proof {
                lemma_pairs_map_push(other.entries@, i as int);
                let done = pairs_map(other.entries@.take(i as int));
                assert(old(self)@.union_prefer_right(done).insert(key@, value@) =~= old(
                    self,
                )@.union_prefer_right(done.insert(key@, value@)));
            }
            self.insert(key, value);
            i += 1;
        }
        assert(other.entries@.take(i as int) == other.entries@);
    }

    /// The pairs of the map, each key once, in no order that means anything.
    pub fn to_vec(&self) -> (v: Vec<(String, String)>)
        ensures
            distinct_keys(v@),
            pairs_map(v@) == self@,
    {
        proof {
            use_type_invariant(self);
        }
        let mut v: Vec<(String, String)> = Vec::new();
        let mut i: usize = 0;
        while i < self.entries.len()
            invariant
                i <= self.entries.len(),
                v@ == self.entries@.take(i as int),
            decreases self.entries.len() - i,
        {
            v.push((self.entries[i].0.clone(), self.entries[i].1.clone()));
            i += 1;
        }
        assert(self.entries@.take(i as int) == self.entries@);
        v
    }
}

impl Default for TagMap {
    fn default() -> (m: TagMap)
        ensures
            m@ == Tags::empty(),
    {
        TagMap::new()
    }
}

impl Clone for TagMap {
    fn clone(&self) -> (m: TagMap)
        ensures
            m@ == self@,
    {
        let entries = self.to_vec();
        TagMap { entries }
    }
}

impl PartialEq for TagMap {
    /// Two maps are equal where they hold the same keys with the same
    /// values.
    fn eq(&self, other: &TagMap) -> (r: bool) {
        proof {
            use_type_invariant(self);
            use_type_invariant(other);
            lemma_pairs_map_len(self.entries@);
            lemma_pairs_map_len(other.entries@);
        }
        if self.entries.len() != other.entries.len() {
            return false;
        }
        let mut i: usize = 0;
        while i < self.entries.len()
            invariant
                i <= self.entries.len(),
                distinct_keys(self.entries@),
                distinct_keys(other.entries@),
                forall|k: int|
                    0 <= k < i ==> other@.contains_key(#[trigger] self.entries@[k].0@) && other@[self.entries@[k].0@]
                        == self.entries@[k].1@,
            decreases self.entries.len() - i,
        {
            proof {
                lemma_pairs_map_at(self.entries@, i as int);
            }
            match other.position(&self.entries[i].0) {
                Some(j) => {
                    proof {
                        lemma_pairs_map_at(other.entries@, j as int);
                    }
                    if !(self.entries[i].1 == other.entries[j].1) {
                        return false;
                    }
                },
                None => {
                    return false;
                },
            }
            i += 1;
        }
        proof {
            assert forall|q: Seq<char>| self@.contains_key(q) implies other@.contains_key(q)
                && other@[q] == self@[q] by {
                let j = choose|j: int| has_key_at(self.entries@, q, j);
                lemma_pairs_map_at(self.entries@, j);
                assert(other@.contains_key(self.entries@[j].0@));
            }
            assert(self@.dom().subset_of(other@.dom()));
            vstd::set_lib::lemma_subset_equality(self@.dom(), other@.dom());
            assert(self@ =~= other@);
        }
        true
    }
}

impl PartialEqSpecImpl for TagMap {
    open spec fn obeys_eq_spec() -> bool {
        true
    }

    open spec fn eq_spec(&self, other: &TagMap) -> bool {
        self@ == other@
    }
}

/// What a telemetry record holds, as mathematical values.
pub struct TelemetryView {
    pub name: Option<Seq<char>>,
    pub value: Option<Seq<char>>,
    pub timestamp: Option<i64>,
    pub tags: Tags,
}

/// One telemetry record: a named value at a point in time, with tags. A
/// record without name, value and timestamp serves as a template that
/// carries only tags.
#[derive(Debug)]
pub struct Telemetry {
    pub name: Option<String>,
    pub value: Option<Decimal>,
    pub timestamp: Option<i64>,
    pub tags: TagMap,
}

impl View for Telemetry {
    type V = TelemetryView;

    open spec fn view(&self) -> TelemetryView {
        TelemetryView {
            name: match self.name {
                Some(n) => Some(n@),
                None => None,
            },
            value: match self.value {
                Some(v) => Some(v@),
                None => None,
            },
            timestamp: self.timestamp,
            tags: self.tags@,
        }
    }
}

/// The views of a sequence of records.
pub open spec fn events_view(events: Seq<Telemetry>) -> Seq<TelemetryView> {
    events.map_values(|t: Telemetry| t@)
}

impl Telemetry {
    /// The record that holds nothing.
    pub fn new() -> (t: Telemetry)
        ensures
            t@ == (TelemetryView { name: None, value: None, timestamp: None, tags: Tags::empty() }),
    {
        Telemetry { name: None, value: None, timestamp: None, tags: TagMap::new() }
    }

    /// This record under the name `name`.
    pub fn name(self, name: &str) -> (t: Telemetry)
        ensures
            t@ == (TelemetryView { name: Some(name@), ..self@ }),
    {
        Telemetry {
            name: Some(name.to_owned()),
            value: self.value,
            timestamp: self.timestamp,
            tags: self.tags,
        }
    }

    /// This record with the value `value`.
    pub fn value(self, value: Decimal) -> (t: Telemetry)
        ensures
            t@ == (TelemetryView { value: Some(value@), ..self@ }),
    {
        Telemetry {
            name: self.name,
            value: Some(value),
            timestamp: self.timestamp,
            tags: self.tags,
        }
    }

    /// This record at the time `timestamp`.
    pub fn timestamp(self, timestamp: i64) -> (t: Telemetry)
        ensures
            t@ == (TelemetryView { timestamp: Some(timestamp), ..self@ }),
    {
        Telemetry {
            name: self.name,
            value: self.value,
            timestamp: Some(timestamp),
            tags: self.tags,
        }
    }

    /// This record with the tag `key` set to `value`, whatever it held at
    /// that key before.
    pub fn overlay_tag(self, key: &str, value: &str) -> (t: Telemetry)
        ensures
            t@ == (TelemetryView { tags: self@.tags.insert(key@, value@), ..self@ }),
    {
        let mut tags = self.tags;
        tags.insert(key.to_owned(), value.to_owned());
        Telemetry { name: self.name, value: self.value, timestamp: self.timestamp, tags }
    }

    /// This record with the tags of `map` laid over its own: on a key that
    /// both hold, the value of `map` wins.
    pub fn overlay_tags_from_map(self, map: &TagMap) -> (t: Telemetry)
        ensures
            t@ == (TelemetryView { tags: self@.tags.union_prefer_right(map@), ..self@ }),
    {
        let mut tags = self.tags;
        tags.overlay(map);
        Telemetry { name: self.name, value: self.value, timestamp: self.timestamp, tags }
    }
}

impl Default for Telemetry {
    fn default() -> (t: Telemetry)
        ensures
            t@ == (TelemetryView { name: None, value: None, timestamp: None, tags: Tags::empty() }),
    {
        Telemetry::new()
    }
}

impl Clone for Telemetry {
    fn clone(&self) -> (t: Telemetry)
        ensures
            t@ == self@,
    {
        Telemetry {
            name: match &self.name {
                Some(n) => Some(n.clone()),
                None => None,
            },
            value: match &self.value {
                Some(v) => Some(v.clone()),
                None => None,
            },
            timestamp: self.timestamp,
            tags: self.tags.clone(),
        }
    }
}

impl PartialEq for Telemetry {
    /// Two records are equal where name, value, timestamp and tags are.
    fn eq(&self, other: &Telemetry) -> (r: bool) {
        let names: bool = match (&self.name, &other.name) {
            (Some(a), Some(b)) => *a == *b,
            (None, None) => true,
            _ => false,
        };
        let values: bool = match (&self.value, &other.value) {
            (Some(a), Some(b)) => *a == *b,
            (None, None) => true,
            _ => false,
        };
        let timestamps: bool = match (self.timestamp, other.timestamp) {
            (Some(a), Some(b)) => a == b,
            (None, None) => true,
            _ => false,
        };
        names && values && timestamps && self.tags == other.tags
    }
}

impl PartialEqSpecImpl for Telemetry {
    open spec fn obeys_eq_spec() -> bool {
        true
    }

    open spec fn eq_spec(&self, other: &Telemetry) -> bool {
        self@ == other@
    }
}

} // verus!
