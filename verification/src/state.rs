//! The desired replica count of each workload, as the UI last requested it:
//! kept in memory, written to a ConfigMap as JSON so that it survives
//! restarts and workload recreation, and re-applied on startup.

use vstd::prelude::*;
use crate::kube::{json_string_at, read_json_string, KubeError, KubeErrorView};
use crate::models::{Target, TargetView};
use crate::text::{
    chars_of, find_char_from, first_index_of, has_char, join3, lemma_first_index_of,
    lemma_first_index_of_exact, lemma_no_index, owned, slice_chars, str_eq, string_of,
};

verus! {

/// The key under which the ConfigMap holds the desired state.
pub const DATA_KEY: &'static str = "desired.json";

// ----------------------------------------------------------------------
// Keys
// ----------------------------------------------------------------------

/// The lower-case kind that starts a key: `statefulset` for a StatefulSet,
/// `deployment` for anything else.
pub open spec fn kind_lower(kind: Seq<char>) -> Seq<char> {
    if kind == "StatefulSet"@ {
        "statefulset"@
    } else {
        "deployment"@
    }
}

/// The kind that a key names: `StatefulSet` for `statefulset`, `Deployment`
/// for anything else.
pub open spec fn kind_named(lower: Seq<char>) -> Seq<char> {
    if lower == "statefulset"@ {
        "StatefulSet"@
    } else {
        "Deployment"@
    }
}

/// The key of a workload: `{kind_lower}/{namespace}/{name}`.
pub open spec fn key_spec(kind: Seq<char>, ns: Seq<char>, name: Seq<char>) -> Seq<char> {
    kind_lower(kind) + "/"@ + ns + "/"@ + name
}

/// A key cut at its first two slashes, as `splitn(3, '/')` cuts it: none
/// when it has fewer than two slashes.
pub open spec fn split_key(k: Seq<char>) -> Option<(Seq<char>, Seq<char>, Seq<char>)> {
    match first_index_of(k, '/') {
        None => None,
        Some(i) => {
            let r = k.subrange(i + 1, k.len() as int);
            match first_index_of(r, '/') {
                None => None,
                Some(j) => Some((k.subrange(0, i), r.subrange(0, j), r.subrange(j + 1, r.len() as int))),
            }
        },
    }
}

/// A workload to scale: its kind, namespace and name, and the replica count.
#[derive(Debug, Clone)]
pub struct ScaleAction {
    pub kind: String,
    pub namespace: String,
    pub name: String,
    pub replicas: u8,
}

/// The mathematical form of a [`ScaleAction`].
pub struct ScaleActionView {
    pub kind: Seq<char>,
    pub namespace: Seq<char>,
    pub name: Seq<char>,
    pub replicas: u8,
}

impl View for ScaleAction {
    type V = ScaleActionView;

    open spec fn view(&self) -> ScaleActionView {
        ScaleActionView {
            kind: self.kind@,
            namespace: self.namespace@,
            name: self.name@,
            replicas: self.replicas,
        }
    }
}

/// The views of a sequence of actions.
pub open spec fn action_views(s: Seq<ScaleAction>) -> Seq<ScaleActionView> {
    s.map_values(|a: ScaleAction| a@)
}

/// A replica count clamped to `0..=1`: a workload never runs more than one
/// replica through this scaler.
pub open spec fn clamp01(r: i64) -> u8 {
    if r <= 0 {
        0
    } else {
        1
    }
}

/// A replica count clamped to `0..=1`.
pub fn clamp_replicas(r: i64) -> (c: u8)
    ensures
        c == clamp01(r),
        c <= 1,
{
    if r <= 0 {
        0
    } else {
        1
    }
}

/// The workload that a key names, with the kind spelt as a kind.
pub open spec fn key_target(k: Seq<char>) -> Option<(Seq<char>, Seq<char>, Seq<char>)> {
    match split_key(k) {
        Some((a, b, c)) => Some((kind_named(a), b, c)),
        None => None,
    }
}

// ----------------------------------------------------------------------
// The desired state
// ----------------------------------------------------------------------

/// Whether `k` is the key of entry `i`.
pub open spec fn key_at(es: Seq<(Seq<char>, i64)>, k: Seq<char>, i: int) -> bool {
    0 <= i < es.len() && es[i].0 == k
}

/// Whether no two entries share a key.
pub open spec fn unique_keys(es: Seq<(Seq<char>, i64)>) -> bool {
    forall|i: int, j: int| 0 <= i < j < es.len() ==> #[trigger] es[i].0 != #[trigger] es[j].0
}

/// The map that a list of entries with distinct keys stands for.
pub open spec fn as_map(es: Seq<(Seq<char>, i64)>) -> Map<Seq<char>, i64> {
    Map::new(
        |k: Seq<char>| exists|i: int| key_at(es, k, i),
        |k: Seq<char>| es[choose|i: int| key_at(es, k, i)].1,
    )
}

/// The views of the entries.
pub open spec fn entry_views(es: Seq<(String, i64)>) -> Seq<(Seq<char>, i64)> {
    es.map_values(|e: (String, i64)| (e.0@, e.1))
}

proof fn lemma_as_map_at(es: Seq<(Seq<char>, i64)>, i: int)
    requires
        unique_keys(es),
        0 <= i < es.len(),
    ensures
        as_map(es).contains_key(es[i].0),
        as_map(es)[es[i].0] == es[i].1,
{
    let k = es[i].0;
    assert(key_at(es, k, i));
    let j = choose|j: int| key_at(es, k, j);
    if j != i {
        if j < i {
            assert(es[j].0 != es[i].0);
        } else {
            assert(es[i].0 != es[j].0);
        }
    }
}

proof fn lemma_as_map_absent(es: Seq<(Seq<char>, i64)>, k: Seq<char>)
    requires
        forall|i: int| 0 <= i < es.len() ==> es[i].0 != k,
    ensures
        !as_map(es).contains_key(k),
{
}

proof fn lemma_as_map_update(es: Seq<(Seq<char>, i64)>, i: int, v: i64)
    requires
        unique_keys(es),
        0 <= i < es.len(),
    ensures
        unique_keys(es.update(i, (es[i].0, v))),
        as_map(es.update(i, (es[i].0, v))) == as_map(es).insert(es[i].0, v),
{
    let ne = es.update(i, (es[i].0, v));
    let k = es[i].0;
    assert forall|a: int, b: int| 0 <= a < b < ne.len() implies #[trigger] ne[a].0 != #[trigger] ne[b].0 by {
        assert(ne[a].0 == es[a].0);
        assert(ne[b].0 == es[b].0);
    }
    assert forall|k2: Seq<char>| #[trigger] as_map(ne).contains_key(k2) <==> as_map(es).insert(
        k,
        v,
    ).contains_key(k2) by {
        if as_map(ne).contains_key(k2) {
            let j = choose|j: int| key_at(ne, k2, j);
            assert(key_at(es, k2, j));
        }
        if as_map(es).contains_key(k2) {
            let j = choose|j: int| key_at(es, k2, j);
            assert(key_at(ne, k2, j));
        }
        if k2 == k {
            assert(key_at(ne, k2, i));
        }
    }
    assert forall|k2: Seq<char>| #[trigger] as_map(ne).contains_key(k2) implies as_map(ne)[k2]
        == as_map(es).insert(k, v)[k2] by {
        let j = choose|j: int| key_at(ne, k2, j);
        lemma_as_map_at(ne, j);
        if k2 != k {
            assert(key_at(es, k2, j));
            lemma_as_map_at(es, j);
        } else {
            lemma_as_map_at(ne, i);
        }
    }
    assert(as_map(ne) =~= as_map(es).insert(k, v));
}

proof fn lemma_as_map_push(es: Seq<(Seq<char>, i64)>, k: Seq<char>, v: i64)
    requires
        unique_keys(es),
        forall|i: int| 0 <= i < es.len() ==> es[i].0 != k,
    ensures
        unique_keys(es.push((k, v))),
        as_map(es.push((k, v))) == as_map(es).insert(k, v),
{
    let ne = es.push((k, v));
    assert forall|a: int, b: int| 0 <= a < b < ne.len() implies #[trigger] ne[a].0 != #[trigger] ne[b].0 by {
        assert(ne[a].0 == es[a].0);
        if b < es.len() {
            assert(ne[b].0 == es[b].0);
        }
    }
    assert forall|k2: Seq<char>| #[trigger] as_map(ne).contains_key(k2) <==> as_map(es).insert(
        k,
        v,
    ).contains_key(k2) by {
        if as_map(ne).contains_key(k2) {
            let j = choose|j: int| key_at(ne, k2, j);
            if j < es.len() {
                assert(key_at(es, k2, j));
            }
        }
        if as_map(es).contains_key(k2) {
            let j = choose|j: int| key_at(es, k2, j);
            assert(key_at(ne, k2, j));
        }
        if k2 == k {
            assert(key_at(ne, k2, es.len() as int));
        }
    }
    assert forall|k2: Seq<char>| #[trigger] as_map(ne).contains_key(k2) implies as_map(ne)[k2]
        == as_map(es).insert(k, v)[k2] by {
        let j = choose|j: int| key_at(ne, k2, j);
        lemma_as_map_at(ne, j);
        if k2 != k {
            assert(j < es.len());
            assert(key_at(es, k2, j));
            lemma_as_map_at(es, j);
        } else {
            lemma_as_map_at(ne, es.len() as int);
        }
    }
    assert(as_map(ne) =~= as_map(es).insert(k, v));
}

/// What a stored document adds to a map: each entry with an integer value
/// is written in, in document order; the others are skipped.
pub open spec fn with_entries(m: Map<Seq<char>, i64>, es: Seq<(Seq<char>, Option<i64>)>) -> Map<
    Seq<char>,
    i64,
>
    decreases es.len(),
{
    if es.len() == 0 {
        m
    } else {
        let prev = with_entries(m, es.drop_last());
        match es.last().1 {
            Some(v) => prev.insert(es.last().0, v),
            None => prev,
        }
    }
}

// ----------------------------------------------------------------------
// The stored document
// ----------------------------------------------------------------------

/// What `serde_json` makes of a stored document: `None` when it is not
/// JSON, `Some(None)` when it is JSON but not an object, else the entries of
/// the object in the order `serde_json` keeps them, each value as an `i64`
/// when it is an integer that fits.
pub uninterp spec fn stored_entries(raw: Seq<char>) -> Option<Option<Seq<(Seq<char>, Option<i64>)>>>;

/// A stored document, as `serde_json` read it.
pub enum StoredDocument {
    /// The text is not JSON.
    Malformed,
    /// The text is JSON, but not an object.
    NotAnObject,
    /// The entries of the object: each key with its value as an `i64`, when
    /// it is an integer that fits in one.
    Entries(Vec<(String, Option<i64>)>),
}

/// The views of the entries of a stored document.
pub open spec fn doc_entry_views(es: Seq<(String, Option<i64>)>) -> Seq<(Seq<char>, Option<i64>)> {
    es.map_values(|e: (String, Option<i64>)| (e.0@, e.1))
}

/// Whether `text` is a document whose object holds exactly the entries of
/// `m`, each key once and each value an integer.
pub open spec fn stores(text: Seq<char>, m: Map<Seq<char>, i64>) -> bool {
    match stored_entries(text) {
        Some(Some(es)) => {
            &&& forall|i: int, j: int| 0 <= i < j < es.len() ==> #[trigger] es[i].0 != #[trigger] es[j].0
            &&& forall|i: int|
                0 <= i < es.len() ==> m.contains_key(#[trigger] es[i].0) && es[i].1 == Some(
                    m[es[i].0],
                )
            &&& forall|k: Seq<char>|
                #[trigger] m.contains_key(k) ==> exists|i: int| 0 <= i < es.len() && es[i].0 == k
        },
        _ => false,
    }
}

/// Reads a stored document with `serde_json::from_str` into a
/// `serde_json::Value`, and for an object takes `Value::as_i64` of each
/// value. The contract names what comes back (`stored_entries`) and claims
/// only that the keys of an object are distinct (`serde_json::Map` is a
/// `BTreeMap`).
#[verifier::external_body]
fn read_document(raw: &str) -> (doc: StoredDocument)
    ensures
        match doc {
            StoredDocument::Malformed => stored_entries(raw@) is None,
            StoredDocument::NotAnObject => stored_entries(raw@) == Some(
                None::<Seq<(Seq<char>, Option<i64>)>>,
            ),
            StoredDocument::Entries(es) => stored_entries(raw@) == Some(Some(doc_entry_views(es@)))
                && forall|i: int, j: int|
                0 <= i < j < es@.len() ==> #[trigger] es@[i].0@ != #[trigger] es@[j].0@,
        },
{
    match serde_json::from_str::<serde_json::Value>(raw) {
        Err(_) => StoredDocument::Malformed,
        Ok(serde_json::Value::Object(obj)) => StoredDocument::Entries(
            obj.into_iter().map(|(k, v)| (k, v.as_i64())).collect(),
        ),
        Ok(_) => StoredDocument::NotAnObject,
    }
}

/// Writes the entries as a JSON object with `serde_json`: a
/// `serde_json::Map` of `Value::from(i64)` values, shown with the `Display`
/// of `serde_json::Value`. The contract claims that `serde_json::from_str`
/// reads the text back as an object with the same keys, each once, and the
/// same integers (`serde_json` escapes and unescapes strings, and writes and
/// reads back every `i64`); it claims nothing about the text itself.
#[verifier::external_body]
fn write_document(entries: &Vec<(String, i64)>) -> (text: String)
    requires
        unique_keys(entry_views(entries@)),
    ensures
        stores(text@, as_map(entry_views(entries@))),
{
    let obj: serde_json::Map<String, serde_json::Value> = entries.iter().map(
        |(k, v)| (k.clone(), serde_json::Value::from(*v)),
    ).collect();
    serde_json::Value::Object(obj).to_string()
}

/// The stored document of the ConfigMap whose body is `configmap`: an API
/// error with the parser's message when the body is not JSON, else the
/// string at `data` / `desired.json`, if there is one.
pub fn stored_document_of(configmap: &str) -> (r: Result<Option<String>, KubeError>)
    ensures
        match r {
            Ok(Some(d)) => json_string_at(configmap@, "/data/desired.json"@) == Ok::<
                _,
                Seq<char>,
            >(Some(d@)),
            Ok(None) => json_string_at(configmap@, "/data/desired.json"@) == Ok::<_, Seq<char>>(
                None::<Seq<char>>,
            ),
            Err(e) => json_string_at(configmap@, "/data/desired.json"@) matches Err(m) && e@
                == KubeErrorView::Api(m),
        },
{
    match read_json_string(configmap, "/data/desired.json") {
        Ok(d) => Ok(d),
        Err(m) => Err(KubeError::Api(m)),
    }
}

/// How loading a stored document went.
#[derive(Debug, Clone, Copy, PartialEq, Eq, Structural)]
pub enum LoadOutcome {
    /// The document was read; the store now holds this many entries.
    Loaded(usize),
    /// The document is not JSON; the store is unchanged.
    Unreadable,
}

// ----------------------------------------------------------------------
// The store
// ----------------------------------------------------------------------

/// Persists the desired replica count per workload so it survives restarts and
/// workload recreation (e.g. a Deployment deleted and recreated by Flux defaults
/// back to 1 replica — the persisted value is re-applied on startup).
pub struct StateStore {
    configmap: String,
    namespace: String,
    /// key: "{kind_lower}/{namespace}/{name}" -> replicas, each key once.
    entries: Vec<(String, i64)>,
}

impl View for StateStore {
    type V = Map<Seq<char>, i64>;

    closed spec fn view(&self) -> Map<Seq<char>, i64> {
        as_map(entry_views(self.entries@))
    }
}

impl StateStore {
    #[verifier::type_invariant]
    spec fn keys_unique(self) -> bool {
        unique_keys(entry_views(self.entries@))
    }

    /// The stored entries in the store's order, each key once.
    pub closed spec fn ordered_entries(&self) -> Seq<(Seq<char>, i64)> {
        entry_views(self.entries@)
    }

    /// The name of the ConfigMap that holds the state.
    pub closed spec fn configmap_spec(&self) -> Seq<char> {
        self.configmap@
    }

    /// The namespace of the ConfigMap that holds the state.
    pub closed spec fn namespace_spec(&self) -> Seq<char> {
        self.namespace@
    }

    /// An empty store kept in ConfigMap `configmap` of namespace `namespace`.
    pub fn new(configmap: String, namespace: String) -> (s: Self)
        ensures
            s@ == Map::<Seq<char>, i64>::empty(),
            s.configmap_spec() == configmap@,
            s.namespace_spec() == namespace@,
    {
        let s = StateStore { configmap, namespace, entries: Vec::new() };
        assert(s@ =~= Map::<Seq<char>, i64>::empty());
        s
    }

    /// The name of the ConfigMap that holds the state.
    pub fn configmap(&self) -> (c: &String)
        ensures
            c@ == self.configmap_spec(),
    {
        &self.configmap
    }

    /// The namespace of the ConfigMap that holds the state.
    pub fn namespace(&self) -> (n: &String)
        ensures
            n@ == self.namespace_spec(),
    {
        &self.namespace
    }

    /// The key of a workload: `{kind_lower}/{namespace}/{name}`.
    pub fn key(kind: &str, ns: &str, name: &str) -> (k: String)
        ensures
            k@ == key_spec(kind@, ns@, name@),
    {
        let kind_lower = if str_eq(kind, "StatefulSet") {
            "statefulset"
        } else {
            "deployment"
        };
        let mut k = join3(kind_lower, "/", ns);
        k.append("/");
        k.append(name);
        k
    }

    /// How many workloads have a desired state.
    pub fn len(&self) -> (n: usize)
        ensures
            n == self@.len(),
    {
        proof {
            use_type_invariant(self);
            self.lemma_len();
        }
        self.entries.len()
    }

    proof fn lemma_len(&self)
        requires
            unique_keys(entry_views(self.entries@)),
        ensures
            self@.len() == self.entries@.len(),
    {
        let es = entry_views(self.entries@);
        let ks = es.map_values(|e: (Seq<char>, i64)| e.0);
        assert forall|i: int, j: int| 0 <= i < j < ks.len() implies ks[i] != ks[j] by {
            assert(ks[i] == es[i].0 && ks[j] == es[j].0);
        }
        ks.unique_seq_to_set();
        assert(self@.dom() =~= ks.to_set()) by {
            assert forall|k: Seq<char>| self@.dom().contains(k) implies ks.to_set().contains(k) by {
                let i = choose|i: int| key_at(es, k, i);
                assert(ks[i] == k);
            }
            assert forall|k: Seq<char>| ks.to_set().contains(k) implies self@.dom().contains(k) by {
                let i = choose|i: int| 0 <= i < ks.len() && ks[i] == k;
                assert(key_at(es, k, i));
            }
        }
    }

    fn index_of(&self, key: &str) -> (r: Option<usize>)
        ensures
            match r {
                Some(i) => i < self.entries@.len() && self.entries@[i as int].0@ == key@,
                None => forall|i: int|
                    0 <= i < self.entries@.len() ==> self.entries@[i].0@ != key@,
            },
    {
        let mut i: usize = 0;
        while i < self.entries.len()
            invariant
                i <= self.entries@.len(),
                forall|k: int| 0 <= k < i ==> self.entries@[k].0@ != key@,
            decreases self.entries@.len() - i,
        {
            if str_eq(self.entries[i].0.as_str(), key) {
                return Some(i);
            }
            i = i + 1;
        }
        None
    }

    /// The desired replica count stored under `key`, if any.
    pub fn get(&self, key: &str) -> (r: Option<i64>)
        ensures
            r == (if self@.contains_key(key@) {
                Some(self@[key@])
            } else {
                None
            }),
    {
        proof {
            use_type_invariant(self);
        }
        let ghost es = entry_views(self.entries@);
        match self.index_of(key) {
            Some(i) => {
                proof {
                    assert(es[i as int].0 == key@);
                    lemma_as_map_at(es, i as int);
                }
                Some(self.entries[i].1)
            },
            None => {
                proof {
                    assert forall|j: int| 0 <= j < es.len() implies es[j].0 != key@ by {
                        assert(es[j].0 == self.entries@[j].0@);
                    }
                    lemma_as_map_absent(es, key@);
                }
                None
            },
        }
    }

    /// Record `replicas` as the desired state of `key`.
    pub fn set(&mut self, key: &str, replicas: i64)
        ensures
            final(self)@ == old(self)@.insert(key@, replicas),
            final(self).configmap_spec() == old(self).configmap_spec(),
            final(self).namespace_spec() == old(self).namespace_spec(),
    {
        proof {
            use_type_invariant(&*self);
        }
        let ghost es = entry_views(self.entries@);
        match self.index_of(key) {
            Some(i) => {
                let k = self.entries[i].0.clone();
                let mut entries: Vec<(String, i64)> = Vec::new();
                std::mem::swap(&mut entries, &mut self.entries);
                entries.set(i, (k, replicas));
                proof {
                    lemma_as_map_update(es, i as int, replicas);
                    assert(entry_views(entries@) =~= es.update(i as int, (es[i as int].0, replicas)));
                }
                self.entries = entries;
            },
            None => {
                let mut entries: Vec<(String, i64)> = Vec::new();
                std::mem::swap(&mut entries, &mut self.entries);
                entries.push((owned(key), replicas));
                proof {
                    assert forall|j: int| 0 <= j < es.len() implies es[j].0 != key@ by {
                        assert(es[j].0 == old(self).entries@[j].0@);
                    }
                    lemma_as_map_push(es, key@, replicas);
                    assert(entry_views(entries@) =~= es.push((key@, replicas)));
                }
                self.entries = entries;
            },
        }
    }

    /// Load a stored document (the `desired.json` value of the ConfigMap):
    /// each integer entry of its object is written into the store; a
    /// document that is JSON but no object adds nothing; an unreadable one
    /// leaves the store as it was.
    pub fn load_document(&mut self, raw: &str) -> (r: LoadOutcome)
        ensures
            final(self).configmap_spec() == old(self).configmap_spec(),
            final(self).namespace_spec() == old(self).namespace_spec(),
            match stored_entries(raw@) {
                None => final(self)@ == old(self)@ && r == LoadOutcome::Unreadable,
                Some(None) => final(self)@ == old(self)@ && r == LoadOutcome::Loaded(
                    final(self)@.len() as usize,
                ),
                Some(Some(es)) => final(self)@ == with_entries(old(self)@, es) && r
                    == LoadOutcome::Loaded(final(self)@.len() as usize),
            },
    {
        match read_document(raw) {
            StoredDocument::Malformed => LoadOutcome::Unreadable,
            StoredDocument::NotAnObject => LoadOutcome::Loaded(self.len()),
            StoredDocument::Entries(es) => {
                let ghost start = self@;
                let ghost ev = doc_entry_views(es@);
                let mut i: usize = 0;
                while i < es.len()
                    invariant
                        i <= es.len(),
                        ev == doc_entry_views(es@),
                        self@ == with_entries(start, ev.subrange(0, i as int)),
                        self.configmap_spec() == old(self).configmap_spec(),
                        self.namespace_spec() == old(self).namespace_spec(),
                    decreases es.len() - i,
                {
                    proof {
                        let pre = ev.subrange(0, i + 1);
                        assert(pre.drop_last() =~= ev.subrange(0, i as int));
                        assert(pre.last() == ev[i as int]);
                    }
                    match es[i].1 {
                        Some(v) => {
                            self.set(es[i].0.as_str(), v);
                        },
                        None => {},
                    }
                    i = i + 1;
                }
                proof {
                    assert(ev.subrange(0, es.len() as int) =~= ev);
                }
                LoadOutcome::Loaded(self.len())
            },
        }
    }

    /// The document to store in the ConfigMap: every entry of the store as
    /// a JSON object.
    pub fn document(&self) -> (text: String)
        ensures
            stores(text@, self@),
    {
        proof {
            use_type_invariant(self);
        }
        write_document(&self.entries)
    }

    /// The workloads to scale on startup: each stored key that names a
    /// workload, in the store's order, with its desired count clamped to
    /// `0..=1`. Keys that do not name a workload are skipped.
    pub fn desired_actions(&self) -> (acts: Vec<ScaleAction>)
        ensures
            action_views(acts@) == actions_for(self.ordered_entries()),
            unique_keys(self.ordered_entries()),
            as_map(self.ordered_entries()) == self@,
            forall|i: int| 0 <= i < acts@.len() ==> #[trigger] acts@[i].replicas <= 1,
            forall|k: Seq<char>|
                #[trigger] self@.contains_key(k) && key_target(k) is Some ==> exists|i: int|
                    0 <= i < acts@.len() && acts@[i]@ == action_for(k, self@[k]),
    {
        proof {
            use_type_invariant(self);
        }
        let ghost es = entry_views(self.entries@);
        let mut acts: Vec<ScaleAction> = Vec::new();
        let mut i: usize = 0;
        while i < self.entries.len()
            invariant
                i <= self.entries@.len(),
                es == entry_views(self.entries@),
                action_views(acts@) == actions_for(es.subrange(0, i as int)),
            decreases self.entries@.len() - i,
        {
            let ghost before = action_views(acts@);
            proof {
                let pre = es.subrange(0, i + 1);
                assert(pre.drop_last() =~= es.subrange(0, i as int));
                assert(pre.last() == es[i as int]);
            }
            match parse_key(self.entries[i].0.as_str()) {
                Some((kind, ns, name)) => {
                    let a = ScaleAction {
                        kind,
                        namespace: ns,
                        name,
                        replicas: clamp_replicas(self.entries[i].1),
                    };
                    acts.push(a);
                    proof {
                        assert(action_views(acts@) =~= before.push(a@));
                    }
                },
                None => {},
            }
            i = i + 1;
        }
        proof {
            assert(es.subrange(0, es.len() as int) =~= es);
            lemma_actions_bounded(es);
            assert forall|i: int| 0 <= i < acts@.len() implies #[trigger] acts@[i].replicas <= 1 by {
                assert(action_views(acts@) == actions_for(es));
                assert(action_views(acts@)[i] == acts@[i]@);
                assert(actions_for(es)[i].replicas <= 1);
            }
            assert forall|k: Seq<char>|
                #[trigger] self@.contains_key(k) && key_target(k) is Some implies exists|j: int|
                    0 <= j < acts@.len() && acts@[j]@ == action_for(k, self@[k]) by {
                let idx = choose|idx: int| key_at(es, k, idx);
                lemma_as_map_at(es, idx);
                lemma_actions_cover(es, idx);
                let j = choose|j: int|
                    0 <= j < actions_for(es).len() && actions_for(es)[j] == action_for(
                        es[idx].0,
                        es[idx].1,
                    );
                assert(action_views(acts@)[j] == acts@[j]@);
            }
        }
        acts
    }

    /// The workloads to bring to their default state: each target that has
    /// no desired state stored yet and has a default, with that default
    /// clamped to `0..=1`, in the order of the targets.
    pub fn pending_defaults(&self, targets: &Vec<Target>) -> (acts: Vec<ScaleAction>)
        ensures
            action_views(acts@) == defaults_for(self@, target_views(targets@)),
            forall|i: int| 0 <= i < acts@.len() ==> #[trigger] acts@[i].replicas <= 1,
    {
        let mut acts: Vec<ScaleAction> = Vec::new();
        let ghost tv = target_views(targets@);
        let mut i: usize = 0;
        while i < targets.len()
            invariant
                i <= targets@.len(),
                tv == target_views(targets@),
                action_views(acts@) == defaults_for(self@, tv.subrange(0, i as int)),
                forall|j: int| 0 <= j < acts@.len() ==> #[trigger] acts@[j].replicas <= 1,
            decreases targets@.len() - i,
        {
            let ghost before = action_views(acts@);
            proof {
                let pre = tv.subrange(0, i + 1);
                assert(pre.drop_last() =~= tv.subrange(0, i as int));
                assert(pre.last() == tv[i as int]);
            }
            let t = &targets[i];
            let key = StateStore::key(t.kind.as_str(), t.namespace.as_str(), t.name.as_str());
            if self.get(key.as_str()).is_none() {
                match t.default_replicas {
                    Some(d) => {
                        let a = ScaleAction {
                            kind: t.kind.clone(),
                            namespace: t.namespace.clone(),
                            name: t.name.clone(),
                            replicas: clamp_replicas(d),
                        };
                        acts.push(a);
                        proof {
                            assert(action_views(acts@) =~= before.push(a@));
                        }
                    },
                    None => {},
                }
            }
            i = i + 1;
        }
        proof {
            assert(tv.subrange(0, tv.len() as int) =~= tv);
        }
        acts
    }
}

/// The action for a stored entry whose key names a workload.
pub open spec fn action_for(k: Seq<char>, r: i64) -> ScaleActionView {
    let t = key_target(k)->0;
    ScaleActionView { kind: t.0, namespace: t.1, name: t.2, replicas: clamp01(r) }
}

/// The actions for stored entries, in their order: one per entry whose key
/// names a workload.
pub open spec fn actions_for(es: Seq<(Seq<char>, i64)>) -> Seq<ScaleActionView>
    decreases es.len(),
{
    if es.len() == 0 {
        Seq::empty()
    } else {
        let prev = actions_for(es.drop_last());
        if key_target(es.last().0) is Some {
            prev.push(action_for(es.last().0, es.last().1))
        } else {
            prev
        }
    }
}

proof fn lemma_actions_bounded(es: Seq<(Seq<char>, i64)>)
    ensures
        forall|i: int| 0 <= i < actions_for(es).len() ==> #[trigger] actions_for(es)[i].replicas <= 1,
    decreases es.len(),
{
    if es.len() > 0 {
        lemma_actions_bounded(es.drop_last());
        let prev = actions_for(es.drop_last());
        assert forall|i: int| 0 <= i < actions_for(es).len() implies #[trigger] actions_for(
            es,
        )[i].replicas <= 1 by {
            if i < prev.len() {
                assert(actions_for(es)[i] == prev[i]);
            }
        }
    }
}

proof fn lemma_actions_cover(es: Seq<(Seq<char>, i64)>, idx: int)
    requires
        0 <= idx < es.len(),
        key_target(es[idx].0) is Some,
    ensures
        exists|j: int|
            0 <= j < actions_for(es).len() && actions_for(es)[j] == action_for(es[idx].0, es[idx].1),
    decreases es.len(),
{
    let prev = actions_for(es.drop_last());
    if idx == es.len() - 1 {
        assert(actions_for(es)[prev.len() as int] == action_for(es[idx].0, es[idx].1));
    } else {
        assert(es.drop_last()[idx] == es[idx]);
        lemma_actions_cover(es.drop_last(), idx);
        let j = choose|j: int|
            0 <= j < prev.len() && prev[j] == action_for(es[idx].0, es[idx].1);
        assert(actions_for(es)[j] == prev[j]);
    }
}

/// The default actions for targets, in their order: one per target that has
/// no stored desired state and has a default.
pub open spec fn defaults_for(m: Map<Seq<char>, i64>, ts: Seq<TargetView>) -> Seq<ScaleActionView>
    decreases ts.len(),
{
    if ts.len() == 0 {
        Seq::empty()
    } else {
        let prev = defaults_for(m, ts.drop_last());
        let t = ts.last();
        if !m.contains_key(key_spec(t.kind, t.namespace, t.name)) && t.default_replicas is Some {
            prev.push(
                ScaleActionView {
                    kind: t.kind,
                    namespace: t.namespace,
                    name: t.name,
                    replicas: clamp01(t.default_replicas->0),
                },
            )
        } else {
            prev
        }
    }
}

/// The views of a sequence of targets.
pub open spec fn target_views(ts: Seq<Target>) -> Seq<TargetView> {
    ts.map_values(|t: Target| t@)
}

/// The workload that a key names, if it has at least two slashes: the kind
/// (`StatefulSet` for `statefulset`, else `Deployment`), the namespace and
/// the name (which may hold further slashes).
pub fn parse_key(key: &str) -> (r: Option<(String, String, String)>)
    ensures
        match r {
            Some((kind, ns, name)) => key_target(key@) == Some((kind@, ns@, name@)),
            None => key_target(key@) is None,
        },
{
    let cs = chars_of(key);
    let n = cs.len();
    let i = find_char_from(&cs, '/', 0);
    proof {
        lemma_first_index_of(cs@, '/');
    }
    if i == n {
        proof {
            lemma_no_index(cs@, '/');
        }
        return None;
    }
    proof {
        lemma_first_index_of_exact(cs@, '/', i as int);
    }
    let j = find_char_from(&cs, '/', i + 1);
    let ghost r = cs@.subrange(i + 1, n as int);
    if j == n {
        proof {
            assert forall|k: int| 0 <= k < r.len() implies r[k] != '/' by {
                assert(r[k] == cs@[i + 1 + k]);
            }
            lemma_no_index(r, '/');
        }
        return None;
    }
    proof {
        assert forall|k: int| 0 <= k < j - i - 1 implies r[k] != '/' by {
            assert(r[k] == cs@[i + 1 + k]);
        }
        lemma_first_index_of_exact(r, '/', j - i - 1);
    }
    let first = slice_chars(&cs, 0, i);
    let second = slice_chars(&cs, i + 1, j);
    let third = slice_chars(&cs, j + 1, n);
    proof {
        assert(r.subrange(0, j - i - 1) =~= second@);
        assert(r.subrange(j - i, r.len() as int) =~= third@);
    }
    let kind = if crate::text::chars_eq_str(&first, "statefulset") {
        owned("StatefulSet")
    } else {
        owned("Deployment")
    };
    Some((kind, string_of(&second), string_of(&third)))
}

/// A key read back names the workload it was made for, as long as the
/// namespace holds no slash (a Kubernetes namespace never does); the kind
/// comes back as `StatefulSet` or, for any other kind, `Deployment`.
pub proof fn lemma_key_round_trip(kind: Seq<char>, ns: Seq<char>, name: Seq<char>)
    requires
        !has_char(ns, '/'),
    ensures
        key_target(key_spec(kind, ns, name)) == Some(
            (
                if kind == "StatefulSet"@ {
                    "StatefulSet"@
                } else {
                    "Deployment"@
                },
                ns,
                name,
            ),
        ),
{
    reveal_strlit("statefulset");
    reveal_strlit("deployment");
    reveal_strlit("/");
    let kl = kind_lower(kind);
    let k = key_spec(kind, ns, name);
    assert(!has_char(kl, '/'));
    assert(k[kl.len() as int] == '/');
    assert forall|x: int| 0 <= x < kl.len() implies k[x] != '/' by {
        assert(k[x] == kl[x]);
    }
    lemma_first_index_of_exact(k, '/', kl.len() as int);
    let r = k.subrange(kl.len() as int + 1, k.len() as int);
    assert(r =~= ns + "/"@ + name);
    assert(r[ns.len() as int] == '/');
    assert forall|x: int| 0 <= x < ns.len() implies r[x] != '/' by {
        assert(r[x] == ns[x]);
    }
    lemma_first_index_of_exact(r, '/', ns.len() as int);
    assert(k.subrange(0, kl.len() as int) =~= kl);
    assert(r.subrange(0, ns.len() as int) =~= ns);
    assert(r.subrange(ns.len() as int + 1, r.len() as int) =~= name);
}

// ----------------------------------------------------------------------
// Laws
// ----------------------------------------------------------------------

/// Whether some entry of a stored document has key `k`.
pub open spec fn doc_has_key(es: Seq<(Seq<char>, Option<i64>)>, k: Seq<char>) -> bool {
    exists|i: int| 0 <= i < es.len() && es[i].0 == k
}

proof fn lemma_with_entries(m0: Map<Seq<char>, i64>, es: Seq<(Seq<char>, Option<i64>)>)
    requires
        forall|i: int, j: int| 0 <= i < j < es.len() ==> #[trigger] es[i].0 != #[trigger] es[j].0,
        forall|i: int| 0 <= i < es.len() ==> (#[trigger] es[i]).1 is Some,
    ensures
        forall|k: Seq<char>|
            #[trigger] with_entries(m0, es).contains_key(k) <==> (m0.contains_key(k) || doc_has_key(
                es,
                k,
            )),
        forall|i: int| 0 <= i < es.len() ==> with_entries(m0, es)[(#[trigger] es[i]).0] == es[i].1->0,
    decreases es.len(),
{
    if es.len() > 0 {
        let p = es.drop_last();
        let l = es.last();
        assert forall|i: int, j: int| 0 <= i < j < p.len() implies #[trigger] p[i].0 != #[trigger] p[j].0 by {
            assert(p[i] == es[i] && p[j] == es[j]);
        }
        assert forall|i: int| 0 <= i < p.len() implies (#[trigger] p[i]).1 is Some by {
            assert(p[i] == es[i]);
        }
        lemma_with_entries(m0, p);
        assert(es[es.len() - 1] == l);
        assert(with_entries(m0, es) == with_entries(m0, p).insert(l.0, l.1->0));
        assert forall|k: Seq<char>| #[trigger] with_entries(m0, es).contains_key(k) <==> (
        m0.contains_key(k) || doc_has_key(es, k)) by {
            if doc_has_key(p, k) {
                let i = choose|i: int| 0 <= i < p.len() && p[i].0 == k;
                assert(es[i] == p[i]);
            }
            if k == l.0 {
                assert(es[es.len() - 1].0 == k);
            }
            if doc_has_key(es, k) && k != l.0 {
                let i = choose|i: int| 0 <= i < es.len() && es[i].0 == k;
                assert(p[i] == es[i]);
            }
        }
        assert forall|i: int| 0 <= i < es.len() implies with_entries(m0, es)[(
        #[trigger] es[i]).0] == es[i].1->0 by {
            if i < es.len() - 1 {
                assert(es[i].0 != es[es.len() - 1].0);
                assert(p[i] == es[i]);
            }
        }
    }
}

/// Reading back the document of a store gives the store: a fresh store that
/// loads the document that `document` wrote for a store holding `m` holds
/// `m` again. This is what makes the desired state survive a restart.
pub proof fn law_document_round_trip(m: Map<Seq<char>, i64>, text: Seq<char>)
    requires
        stores(text, m),
    ensures
        stored_entries(text) matches Some(Some(es)) && with_entries(
            Map::<Seq<char>, i64>::empty(),
            es,
        ) == m,
{
    let es = stored_entries(text)->0->0;
    assert forall|i: int| 0 <= i < es.len() implies (#[trigger] es[i]).1 is Some by {
        assert(m.contains_key(es[i].0));
    }
    lemma_with_entries(Map::<Seq<char>, i64>::empty(), es);
    let w = with_entries(Map::<Seq<char>, i64>::empty(), es);
    assert forall|k: Seq<char>| #[trigger] w.contains_key(k) <==> m.contains_key(k) by {
        if doc_has_key(es, k) {
            let i = choose|i: int| 0 <= i < es.len() && es[i].0 == k;
            assert(m.contains_key(es[i].0));
        }
        if m.contains_key(k) {
            let i = choose|i: int| 0 <= i < es.len() && es[i].0 == k;
            assert(doc_has_key(es, k));
        }
    }
    assert forall|k: Seq<char>| #[trigger] w.contains_key(k) implies w[k] == m[k] by {
        let i = choose|i: int| 0 <= i < es.len() && es[i].0 == k;
        assert(w[es[i].0] == es[i].1->0);
        assert(m.contains_key(es[i].0) && es[i].1 == Some(m[es[i].0]));
    }
    assert(w =~= m);
}

/// A read gives back what was written: after `set(key, r)`, `get(key)` is
/// `r`, and every other key keeps what it had.
pub proof fn law_read_after_write(m: Map<Seq<char>, i64>, key: Seq<char>, r: i64, other: Seq<char>)
    ensures
        m.insert(key, r).contains_key(key) && m.insert(key, r)[key] == r,
        other != key ==> m.insert(key, r).contains_key(other) == m.contains_key(other),
        other != key && m.contains_key(other) ==> m.insert(key, r)[other] == m[other],
{
}

/// The default state applies once: a target whose desired state has been
/// stored (after its default was applied, or after a Start/Stop) is never
/// brought to its default again.
pub proof fn law_default_applies_once(m: Map<Seq<char>, i64>, t: TargetView, r: i64)
    ensures
        defaults_for(m.insert(key_spec(t.kind, t.namespace, t.name), r), seq![t]).len() == 0,
{
    let s = seq![t];
    let m2 = m.insert(key_spec(t.kind, t.namespace, t.name), r);
    assert(s.drop_last() =~= Seq::<TargetView>::empty());
    assert(s.last() == t);
    assert(defaults_for(m2, s.drop_last()) == Seq::<ScaleActionView>::empty());
    assert(m2.contains_key(key_spec(t.kind, t.namespace, t.name)));
}

/// Whether a target is brought to its default: it has no stored desired
/// state and it has a default.
pub open spec fn needs_default(m: Map<Seq<char>, i64>, t: TargetView) -> bool {
    !m.contains_key(key_spec(t.kind, t.namespace, t.name)) && t.default_replicas is Some
}

/// How many targets are brought to their default.
pub open spec fn count_needing_default(m: Map<Seq<char>, i64>, ts: Seq<TargetView>) -> nat
    decreases ts.len(),
{
    if ts.len() == 0 {
        0
    } else {
        count_needing_default(m, ts.drop_last()) + if needs_default(m, ts.last()) {
            1nat
        } else {
            0nat
        }
    }
}

/// Default actions go exactly to the targets without a stored desired
/// state that have a default, one each and in target order, and each asks
/// for the target's declared default (0 for inactive or below, 1 for active
/// or above), whatever the workload runs at now.
pub proof fn law_defaults_ask_for_the_declared_default(m: Map<Seq<char>, i64>, ts: Seq<TargetView>)
    ensures
        defaults_for(m, ts).len() == count_needing_default(m, ts),
        forall|i: int|
            0 <= i < ts.len() && needs_default(m, #[trigger] ts[i]) ==> {
                let a = defaults_for(m, ts)[count_needing_default(m, ts.take(i)) as int];
                &&& count_needing_default(m, ts.take(i)) < defaults_for(m, ts).len()
                &&& a.kind == ts[i].kind
                &&& a.namespace == ts[i].namespace
                &&& a.name == ts[i].name
                &&& a.replicas == if ts[i].default_replicas->0 <= 0 {
                    0u8
                } else {
                    1u8
                }
            },
    decreases ts.len(),
{
    if ts.len() > 0 {
        let p = ts.drop_last();
        law_defaults_ask_for_the_declared_default(m, p);
        let prev = defaults_for(m, p);
        assert forall|i: int| 0 <= i < ts.len() && needs_default(m, #[trigger] ts[i]) implies {
            let a = defaults_for(m, ts)[count_needing_default(m, ts.take(i)) as int];
            &&& count_needing_default(m, ts.take(i)) < defaults_for(m, ts).len()
            &&& a.kind == ts[i].kind
            &&& a.namespace == ts[i].namespace
            &&& a.name == ts[i].name
            &&& a.replicas == if ts[i].default_replicas->0 <= 0 {
                0u8
            } else {
                1u8
            }
        } by {
            if i < p.len() {
                assert(ts.take(i) =~= p.take(i));
                assert(p[i] == ts[i]);
                assert(needs_default(m, p[i]));
                let k = count_needing_default(m, p.take(i)) as int;
                assert(defaults_for(m, ts)[k] == prev[k]);
            } else {
                assert(ts.take(i) =~= p);
                assert(ts[i] == ts.last());
            }
        }
    }
}

/// Clamping never asks for more than one replica and keeps a count that is
/// already 0 or 1.
pub proof fn law_clamp_keeps_valid_counts(r: i64)
    ensures
        clamp01(r) <= 1,
        0 <= r <= 1 ==> clamp01(r) == r,
        r < 0 ==> clamp01(r) == 0,
        r > 1 ==> clamp01(r) == 1,
{
}

/// A workload scaled through the UI is scaled again on startup: its key
/// names it (the kind spelt `StatefulSet` or `Deployment`), and the action
/// for it asks for the stored count clamped to `0..=1`.
pub proof fn law_scaled_workload_reapplied(kind: Seq<char>, ns: Seq<char>, name: Seq<char>, r: i64)
    requires
        !has_char(ns, '/'),
    ensures
        key_target(key_spec(kind, ns, name)) is Some,
        action_for(key_spec(kind, ns, name), r) == (ScaleActionView {
            kind: if kind == "StatefulSet"@ {
                "StatefulSet"@
            } else {
                "Deployment"@
            },
            namespace: ns,
            name,
            replicas: clamp01(r),
        }),
{
    lemma_key_round_trip(kind, ns, name);
}

} // verus!
