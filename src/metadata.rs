//! The metadata mapping attached to every record: an ordered mapping from
//! keys to values in which every key occurs once.
use vstd::prelude::*;

verus! {

/// A JSON value as the JSON library holds it; the library carries such
/// values through without looking inside them.
#[verifier::external_type_specification]
#[verifier::external_body]
pub struct ExJsonValue(serde_json::Value);

/// Relies on the derived `Clone` of `serde_json::Value`: a structural copy.
pub assume_specification[ <serde_json::Value as Clone>::clone ](v: &serde_json::Value) -> (r:
    serde_json::Value)
    ensures
        r == *v,
;

/// A metadata value: a JSON string, which the store reads, or any other JSON
/// value, which it only carries.
pub enum MetaValue {
    Text(String),
    Other(serde_json::Value),
}

/// What a metadata value stands for.
pub enum MetaValueView {
    Text(Seq<char>),
    Other(serde_json::Value),
}

impl View for MetaValue {
    type V = MetaValueView;

    open spec fn view(&self) -> MetaValueView {
        match self {
            MetaValue::Text(s) => MetaValueView::Text(s@),
            MetaValue::Other(v) => MetaValueView::Other(*v),
        }
    }
}

impl MetaValue {
    pub fn duplicate(&self) -> (r: MetaValue)
        ensures
            r@ == self@,
    {
        match self {
            MetaValue::Text(s) => MetaValue::Text(s.clone()),
            MetaValue::Other(v) => MetaValue::Other(v.clone()),
        }
    }
}

/// The entries of a metadata object, in order.
pub type Entries = Seq<(Seq<char>, MetaValueView)>;

/// Every key occurs at most once.
pub open spec fn keys_unique(s: Entries) -> bool {
    forall|i: int, j: int| 0 <= i < s.len() && 0 <= j < s.len() && s[i].0 == s[j].0 ==> i == j
}

pub open spec fn has_key(s: Entries, k: Seq<char>) -> bool {
    exists|i: int| 0 <= i < s.len() && s[i].0 == k
}

/// The position of key `k`, where it occurs.
pub open spec fn key_position(s: Entries, k: Seq<char>) -> int
    recommends
        has_key(s, k),
{
    choose|i: int| 0 <= i < s.len() && s[i].0 == k
}

/// The value stored under `k`.
pub open spec fn lookup(s: Entries, k: Seq<char>) -> Option<MetaValueView> {
    if has_key(s, k) {
        Some(s[key_position(s, k)].1)
    } else {
        None
    }
}

/// `s` with `k` set to `v`: replaced in place where `k` occurs, else added at
/// the end.
pub open spec fn inserted(s: Entries, k: Seq<char>, v: MetaValueView) -> Entries {
    if has_key(s, k) {
        s.update(key_position(s, k), (k, v))
    } else {
        s.push((k, v))
    }
}

/// `s` without the entry of `k`, the others in their order.
pub open spec fn removed(s: Entries, k: Seq<char>) -> Entries {
    if has_key(s, k) {
        s.remove(key_position(s, k))
    } else {
        s
    }
}

pub proof fn lemma_position_unique(s: Entries, k: Seq<char>, i: int)
    requires
        keys_unique(s),
        0 <= i < s.len(),
        s[i].0 == k,
    ensures
        has_key(s, k),
        key_position(s, k) == i,
{
    assert(has_key(s, k));
}

pub proof fn lemma_inserted_unique(s: Entries, k: Seq<char>, v: MetaValueView)
    requires
        keys_unique(s),
    ensures
        keys_unique(inserted(s, k, v)),
        lookup(inserted(s, k, v), k) == Some(v),
{
    let r = inserted(s, k, v);
    if has_key(s, k) {
        let p = key_position(s, k);
        assert(keys_unique(r));
        lemma_position_unique(r, k, p);
    } else {
        assert(keys_unique(r));
        lemma_position_unique(r, k, s.len() as int);
    }
}

pub proof fn lemma_removed_unique(s: Entries, k: Seq<char>)
    requires
        keys_unique(s),
    ensures
        keys_unique(removed(s, k)),
        !has_key(removed(s, k), k),
{
    let r = removed(s, k);
    if has_key(s, k) {
        let p = key_position(s, k);
        assert forall|i: int, j: int|
            0 <= i < r.len() && 0 <= j < r.len() && r[i].0 == r[j].0 implies i == j by {
            let si = if i < p { i } else { i + 1 };
            let sj = if j < p { j } else { j + 1 };
            assert(r[i] == s[si]);
            assert(r[j] == s[sj]);
        }
        assert forall|i: int| 0 <= i < r.len() implies r[i].0 != k by {
            let si = if i < p { i } else { i + 1 };
            assert(r[i] == s[si]);
        }
    }
}

/// Setting one key leaves what every other key holds unchanged.
pub proof fn lemma_inserted_other(s: Entries, k: Seq<char>, v: MetaValueView, other: Seq<char>)
    requires
        keys_unique(s),
        k != other,
    ensures
        lookup(inserted(s, k, v), other) == lookup(s, other),
{
    let r = inserted(s, k, v);
    lemma_inserted_unique(s, k, v);
    if has_key(s, other) {
        let p = key_position(s, other);
        lemma_position_unique(r, other, p);
    } else {
        assert forall|i: int| 0 <= i < r.len() implies r[i].0 != other by {
            if i < s.len() && !(has_key(s, k) && i == key_position(s, k)) {
                assert(r[i] == s[i]);
            }
        }
    }
}

/// Taking one key out leaves what every other key holds unchanged.
pub proof fn lemma_removed_other(s: Entries, k: Seq<char>, other: Seq<char>)
    requires
        keys_unique(s),
        k != other,
    ensures
        lookup(removed(s, k), other) == lookup(s, other),
{
    let r = removed(s, k);
    lemma_removed_unique(s, k);
    if has_key(s, k) {
        let p = key_position(s, k);
        if has_key(s, other) {
            let q = key_position(s, other);
            let rq = if q < p { q } else { q - 1 };
            assert(r[rq] == s[q]);
            lemma_position_unique(r, other, rq);
        } else {
            assert forall|i: int| 0 <= i < r.len() implies r[i].0 != other by {
                let si = if i < p { i } else { i + 1 };
                assert(r[i] == s[si]);
            }
        }
    }
}

/// A metadata object: keys in the order in which they were first set, each
/// key once.
pub struct Metadata {
    entries: Vec<(String, MetaValue)>,
}

pub open spec fn entry_view(e: (String, MetaValue)) -> (Seq<char>, MetaValueView) {
    (e.0@, e.1@)
}

impl View for Metadata {
    type V = Entries;

    closed spec fn view(&self) -> Entries {
        self.entries@.map_values(|e: (String, MetaValue)| entry_view(e))
    }
}

impl Metadata {
    #[verifier::type_invariant]
    pub open spec fn unique_keys(self) -> bool {
        keys_unique(self@)
    }

    /// The empty object.
    pub fn new() -> (r: Metadata)
        ensures
            r@ == Seq::<(Seq<char>, MetaValueView)>::empty(),
    {
        let r = Metadata { entries: Vec::new() };
        assert(r@ =~= Seq::<(Seq<char>, MetaValueView)>::empty());
        r
    }

    pub fn len(&self) -> (r: usize)
        ensures
            r == self@.len(),
    {
        self.entries.len()
    }

    /// The entries in order.
    pub fn entries(&self) -> (r: &Vec<(String, MetaValue)>)
        ensures
            r@.map_values(|e: (String, MetaValue)| entry_view(e)) == self@,
    {
        &self.entries
    }

    /// The position of `key`, or `None` where it does not occur.
    fn find(&self, key: &String) -> (r: Option<usize>)
        ensures
            r is None <==> !has_key(self@, key@),
            r is Some ==> r->0 == key_position(self@, key@),
    {
        proof {
            use_type_invariant(self);
        }
        let mut i: usize = 0;
        while i < self.entries.len()
            invariant
                i <= self.entries@.len(),
                self@.len() == self.entries@.len(),
                keys_unique(self@),
                forall|j: int| 0 <= j < i ==> self@[j].0 != key@,
            decreases self.entries.len() - i,
        {
            if self.entries[i].0 == *key {
                proof {
                    lemma_position_unique(self@, key@, i as int);
                }
                return Some(i);
            }
            i = i + 1;
        }
        None
    }

    /// The value stored under `key`.
    pub fn get(&self, key: &String) -> (r: Option<&MetaValue>)
        ensures
            r is None <==> lookup(self@, key@) is None,
            r is Some ==> lookup(self@, key@) == Some(r->0@),
    {
        match self.find(key) {
            Some(i) => Some(&self.entries[i].1),
            None => None,
        }
    }

    /// Sets `key` to `value`, in place where the key occurs, else at the end.
    pub fn insert(&mut self, key: String, value: MetaValue)
        ensures
            final(self)@ == inserted(old(self)@, key@, value@),
    {
        proof {
            use_type_invariant(&*self);
            lemma_inserted_unique(self@, key@, value@);
        }
        let ghost k = key@;
        let ghost v = value@;
        let pos = self.find(&key);
        let mut this = Metadata::new();
        core::mem::swap(&mut this, self);
        let Metadata { mut entries } = this;
        match pos {
            Some(i) => {
                entries.set(i, (key, value));
            },
            None => {
                entries.push((key, value));
            },
        }
        assert(entries@.map_values(|e: (String, MetaValue)| entry_view(e)) =~= inserted(
            old(self)@,
            k,
            v,
        ));
        let r = Metadata { entries };
        *self = r;
    }

    /// Takes the entry of `key` out, and hands back its value.
    pub fn remove(&mut self, key: &String) -> (r: Option<MetaValue>)
        ensures
            final(self)@ == removed(old(self)@, key@),
            r is None <==> lookup(old(self)@, key@) is None,
            r is Some ==> lookup(old(self)@, key@) == Some(r->0@),
    {
        proof {
            use_type_invariant(&*self);
            lemma_removed_unique(self@, key@);
        }
        match self.find(key) {
            Some(i) => {
                let mut this = Metadata::new();
                core::mem::swap(&mut this, self);
                let Metadata { mut entries } = this;
                let e = entries.remove(i);
                assert(entries@.map_values(|e: (String, MetaValue)| entry_view(e)) =~= removed(
                    old(self)@,
                    key@,
                ));
                let r = Metadata { entries };
                *self = r;
                Some(e.1)
            },
            None => None,
        }
    }

    /// A copy with the same entries.
    pub fn duplicate(&self) -> (r: Metadata)
        ensures
            r@ == self@,
    {
        proof {
            use_type_invariant(self);
        }
        let mut entries: Vec<(String, MetaValue)> = Vec::new();
        let mut i: usize = 0;
        while i < self.entries.len()
            invariant
                i <= self.entries@.len(),
                entries@.len() == i,
                forall|j: int| 0 <= j < i ==> entry_view(entries@[j]) == entry_view(self.entries@[j]),
            decreases self.entries.len() - i,
        {
            let e = &self.entries[i];
            entries.push((e.0.clone(), e.1.duplicate()));
            i = i + 1;
        }
        assert(entries@.map_values(|e: (String, MetaValue)| entry_view(e)) =~= self@);
        let r = Metadata { entries };
        r
    }
}

/// The key under which a record keeps the name of its document.
pub open spec fn name_key() -> Seq<char> {
    "name"@
}

/// The key under which a record keeps the description of its document.
pub open spec fn description_key() -> Seq<char> {
    "description"@
}

pub proof fn lemma_keys_distinct()
    ensures
        name_key() != description_key(),
{
    reveal_strlit("name");
    reveal_strlit("description");
    assert(name_key().len() != description_key().len());
}

pub fn name_key_string() -> (r: String)
    ensures
        r@ == name_key(),
{
    proof {
        reveal_strlit("name");
    }
    "name".to_string()
}

pub fn description_key_string() -> (r: String)
    ensures
        r@ == description_key(),
{
    proof {
        reveal_strlit("description");
    }
    "description".to_string()
}

/// The compact JSON text of an object with these entries.
pub uninterp spec fn json_text_of(m: Entries) -> Seq<char>;

/// The entries of the JSON object that `s` holds, or `None` where `s` is not
/// the text of a JSON object.
pub uninterp spec fn json_object_of(s: Seq<char>) -> Option<Entries>;

/// Relies on the `Display` of `serde_json::Value`: the compact JSON text of
/// an object, which depends on the object alone.
#[verifier::external_body]
pub(crate) fn encode_metadata(m: &Metadata) -> (r: String)
    ensures
        r@ == json_text_of(m@),
{
    let mut map = serde_json::Map::new();
    for (k, v) in m.entries.iter() {
        let value = match v {
            MetaValue::Text(t) => serde_json::Value::String(t.clone()),
            MetaValue::Other(x) => x.clone(),
        };
        map.insert(k.clone(), value);
    }
    serde_json::Value::Object(map).to_string()
}

/// Relies on `serde_json::from_str`: the object that the text holds, one
/// entry per key; `None` where the text is no JSON object.
#[verifier::external_body]
pub(crate) fn decode_metadata(s: &str) -> (r: Option<Metadata>)
    ensures
        r is Some <==> json_object_of(s@) is Some,
        r is Some ==> json_object_of(s@) == Some(r->0@),
{
    match serde_json::from_str::<serde_json::Value>(s) {
        Ok(serde_json::Value::Object(map)) => {
            let mut entries = Vec::new();
            for (k, v) in map.into_iter() {
                match v {
                    serde_json::Value::String(t) => entries.push((k, MetaValue::Text(t))),
                    other => entries.push((k, MetaValue::Other(other))),
                }
            }
            Some(Metadata { entries })
        },
        _ => None,
    }
}

} // verus!
