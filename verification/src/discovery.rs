//! Discovery of the managed workloads: what is listed, how a listed workload
//! becomes a [`Target`], and the order in which targets are shown.

use vstd::prelude::*;
use crate::config::{parse_state, parsed_state, Config};
use crate::kube::{list_urls, list_urls_spec, selector_query, views, KubeError, KubeErrorView};
use serde_json::Value;
use crate::models::{Target, TargetView};
use crate::text::{
    join2, join3, lemma_seq_lt_irreflexive, lemma_seq_lt_total,
    lemma_seq_lt_transitive, owned, seq_lt, str_eq, str_lt,
};

verus! {

// ----------------------------------------------------------------------
// Listed workloads
// ----------------------------------------------------------------------

/// What the scaler reads of a listed Deployment or StatefulSet.
#[derive(Debug, Clone)]
pub struct Workload {
    /// `metadata.name`, when it is a string.
    pub name: Option<String>,
    /// `metadata.namespace`, when it is a string.
    pub namespace: Option<String>,
    /// `metadata.labels`, when it is an object: each key with its value when
    /// that value is a string.
    pub labels: Option<Vec<(String, Option<String>)>>,
    /// `spec.replicas`, when it is an integer.
    pub replicas: Option<i64>,
    /// `status.readyReplicas`, when it is an integer.
    pub ready_replicas: Option<i64>,
    /// `status.availableReplicas`, when it is an integer.
    pub available_replicas: Option<i64>,
}

/// The mathematical form of a [`Workload`].
pub struct WorkloadView {
    pub name: Option<Seq<char>>,
    pub namespace: Option<Seq<char>>,
    pub labels: Option<Seq<(Seq<char>, Option<Seq<char>>)>>,
    pub replicas: Option<i64>,
    pub ready_replicas: Option<i64>,
    pub available_replicas: Option<i64>,
}

/// The view of one label entry.
pub open spec fn label_view(l: (String, Option<String>)) -> (Seq<char>, Option<Seq<char>>) {
    (
        l.0@,
        match l.1 {
            Some(v) => Some(v@),
            None => None,
        },
    )
}

impl View for Workload {
    type V = WorkloadView;

    open spec fn view(&self) -> WorkloadView {
        WorkloadView {
            name: match self.name {
                Some(v) => Some(v@),
                None => None,
            },
            namespace: match self.namespace {
                Some(v) => Some(v@),
                None => None,
            },
            labels: match self.labels {
                Some(ls) => Some(ls@.map_values(|l: (String, Option<String>)| label_view(l))),
                None => None,
            },
            replicas: self.replicas,
            ready_replicas: self.ready_replicas,
            available_replicas: self.available_replicas,
        }
    }
}

/// The entry of the first label with key `key`, if any.
pub open spec fn label_lookup(labels: Seq<(Seq<char>, Option<Seq<char>>)>, key: Seq<char>) -> Option<
    Option<Seq<char>>,
>
    decreases labels.len(),
{
    if labels.len() == 0 {
        None
    } else if labels[0].0 == key {
        Some(labels[0].1)
    } else {
        label_lookup(labels.drop_first(), key)
    }
}

/// The string value of label `key` of a workload, if it has one.
pub open spec fn label_str(w: WorkloadView, key: Seq<char>) -> Option<Seq<char>> {
    match w.labels {
        Some(ls) => match label_lookup(ls, key) {
            Some(Some(v)) => Some(v),
            _ => None,
        },
        None => None,
    }
}

proof fn lemma_label_lookup_skip(labels: Seq<(Seq<char>, Option<Seq<char>>)>, key: Seq<char>, i: int)
    requires
        0 <= i < labels.len(),
        labels[i].0 != key,
    ensures
        label_lookup(labels.skip(i), key) == label_lookup(labels.skip(i + 1), key),
{
    assert(labels.skip(i).drop_first() =~= labels.skip(i + 1));
}

/// The string value of label `key` of a workload, if it has one.
pub fn label_value(w: &Workload, key: &str) -> (v: Option<String>)
    ensures
        match v {
            Some(s) => label_str(w@, key@) == Some(s@),
            None => label_str(w@, key@) is None,
        },
{
    match &w.labels {
        None => None,
        Some(ls) => {
            let ghost lv = w@.labels->0;
            let mut i: usize = 0;
            proof {
                assert(lv.skip(0) =~= lv);
            }
            while i < ls.len()
                invariant
                    i <= ls.len(),
                    lv == w@.labels->0,
                    w.labels == Some(*ls),
                    label_lookup(lv, key@) == label_lookup(lv.skip(i as int), key@),
                decreases ls.len() - i,
            {
                if str_eq(ls[i].0.as_str(), key) {
                    assert(lv.skip(i as int)[0] == lv[i as int]);
                    assert(lv[i as int] == label_view(ls@[i as int]));
                    assert(label_lookup(lv.skip(i as int), key@) == Some(lv[i as int].1));
                    return match &ls[i].1 {
                        Some(s) => Some(s.clone()),
                        None => None,
                    };
                }
                proof {
                    lemma_label_lookup_skip(lv, key@, i as int);
                }
                i = i + 1;
            }
            None
        },
    }
}

/// What `serde_json` makes of the body of a list request: the text of its
/// error when the body is not JSON, none when it has no `items` array, else
/// each item as the scaler reads it (see [`Workload`]).
pub uninterp spec fn listed_items(text: Seq<char>) -> Result<Option<Seq<WorkloadView>>, Seq<char>>;

/// Calls `serde_json::from_str` into a `serde_json::Value` and picks, by
/// indexing a `Value` with keys (which gives `Null` for a missing key or a
/// value that is not an object) and with `Value::as_array`,
/// `Value::as_object`, `Value::as_str` and `Value::as_i64`, the fields of
/// each item that [`Workload`] holds. The contract names what comes back and claims
/// nothing more of it.
#[verifier::external_body]
fn read_listing(text: &str) -> (r: Result<Option<Vec<Workload>>, String>)
    ensures
        match r {
            Ok(Some(ws)) => listed_items(text@) == Ok::<_, Seq<char>>(Some(workload_views(ws@))),
            Ok(None) => listed_items(text@) == Ok::<_, Seq<char>>(None::<Seq<WorkloadView>>),
            Err(e) => listed_items(text@) == Err::<Option<Seq<WorkloadView>>, _>(e@),
        },
{
    let v: Value = serde_json::from_str(text).map_err(|e| e.to_string())?;
    Ok(v["items"].as_array().map(|ws| ws.iter().map(|w| Workload {
        name: w["metadata"]["name"].as_str().map(String::from),
        namespace: w["metadata"]["namespace"].as_str().map(String::from),
        labels: w["metadata"]["labels"].as_object().map(|m| m.iter().map(|(k, x)| (k.clone(), x.as_str().map(String::from))).collect()),
        replicas: w["spec"]["replicas"].as_i64(),
        ready_replicas: w["status"]["readyReplicas"].as_i64(),
        available_replicas: w["status"]["availableReplicas"].as_i64(),
    }).collect()))
}

/// The workloads of the body of a list request: an API error with the
/// parser's message when the body is not JSON, none when it has no `items`
/// array (the listing is then skipped), else its items.
pub fn listing_workloads(text: &str) -> (r: Result<Option<Vec<Workload>>, KubeError>)
    ensures
        match r {
            Ok(Some(ws)) => listed_items(text@) == Ok::<_, Seq<char>>(Some(workload_views(ws@))),
            Ok(None) => listed_items(text@) == Ok::<_, Seq<char>>(None::<Seq<WorkloadView>>),
            Err(e) => listed_items(text@) matches Err(m) && e@ == KubeErrorView::Api(m),
        },
{
    match read_listing(text) {
        Ok(items) => Ok(items),
        Err(m) => Err(KubeError::Api(m)),
    }
}

// ----------------------------------------------------------------------
// Selection and default state
// ----------------------------------------------------------------------

/// Whether a workload carries `selector_key=selector_value`, and why.
pub open spec fn selector_match(w: WorkloadView, key: Seq<char>, value: Seq<char>) -> (
    bool,
    Seq<char>,
) {
    if label_str(w, key) == Some(value) {
        (true, "label "@ + key + "="@ + value)
    } else {
        (false, Seq::empty())
    }
}

/// The selection heuristic: a workload is manageable when its `metadata.labels`
/// contains `selector_key=selector_value`. Returns (selected, reason).
pub fn matches_selector(workload: &Workload, selector_key: &str, selector_value: &str) -> (r: (
    bool,
    String,
))
    ensures
        (r.0, r.1@) == selector_match(workload@, selector_key@, selector_value@),
{
    match label_value(workload, selector_key) {
        Some(v) => {
            if str_eq(v.as_str(), selector_value) {
                let mut reason = join3("label ", selector_key, "=");
                reason.append(selector_value);
                return (true, reason);
            }
        },
        None => {},
    }
    (false, String::new())
}

/// The default state that a workload's label names, if it names one.
pub open spec fn default_state_of(w: WorkloadView, label_key: Seq<char>) -> Option<i64> {
    match label_str(w, label_key) {
        Some(v) => parsed_state(v),
        None => None,
    }
}

/// Read the per-workload default state from its labels, if present and valid.
pub fn default_state(workload: &Workload, label_key: &str) -> (r: Option<i64>)
    ensures
        r == default_state_of(workload@, label_key@),
{
    match label_value(workload, label_key) {
        Some(v) => parse_state(v.as_str()),
        None => None,
    }
}

/// The state that the table shows: stopped at zero replicas, running once
/// the ready replicas reach the replicas, pending before that (an absent
/// count counts as zero).
pub open spec fn state_spec(replicas: Option<i64>, ready: Option<i64>) -> Seq<char> {
    let r = match replicas {
        Some(v) => v,
        None => 0,
    };
    let rd = match ready {
        Some(v) => v,
        None => 0,
    };
    if r == 0 {
        "stopped"@
    } else if rd >= r {
        "running"@
    } else {
        "pending"@
    }
}

/// The state of a workload from its replicas and ready replicas.
pub fn compute_state(replicas: Option<i64>, ready: Option<i64>) -> (s: String)
    ensures
        s@ == state_spec(replicas, ready),
{
    let r = match replicas {
        Some(v) => v,
        None => 0,
    };
    let rd = match ready {
        Some(v) => v,
        None => 0,
    };
    if r == 0 {
        owned("stopped")
    } else if rd >= r {
        owned("running")
    } else {
        owned("pending")
    }
}

// ----------------------------------------------------------------------
// Targets
// ----------------------------------------------------------------------

/// The settings that shape a target.
pub struct TargetSettings {
    pub selector_key: Seq<char>,
    pub selector_value: Seq<char>,
    pub default_state_label: Seq<char>,
    pub default_state: i64,
}

/// The settings of a configuration that shape a target.
pub open spec fn target_settings(cfg: &Config) -> TargetSettings {
    TargetSettings {
        selector_key: cfg.selector_key@,
        selector_value: cfg.selector_value@,
        default_state_label: cfg.default_state_label@,
        default_state: cfg.default_state,
    }
}

/// The target of a listed workload of kind `kind`, or none when the workload
/// lacks a name or a namespace. Its default is its own default-state label,
/// else the global default.
pub open spec fn target_of(kind: Seq<char>, w: WorkloadView, s: TargetSettings) -> Option<TargetView> {
    match (w.name, w.namespace) {
        (Some(name), Some(ns)) => {
            let sel = selector_match(w, s.selector_key, s.selector_value);
            Some(
                TargetView {
                    kind,
                    name,
                    namespace: ns,
                    replicas: w.replicas,
                    ready_replicas: w.ready_replicas,
                    available_replicas: w.available_replicas,
                    desired_replicas: None,
                    default_replicas: match default_state_of(w, s.default_state_label) {
                        Some(d) => Some(d),
                        None => Some(s.default_state),
                    },
                    selected: sel.0,
                    match_reason: sel.1,
                    state: state_spec(w.replicas, w.ready_replicas),
                },
            )
        },
        _ => None,
    }
}

/// The target of one listed workload.
pub fn target_from(kind: &str, w: &Workload, cfg: &Config) -> (t: Option<Target>)
    ensures
        match t {
            Some(t) => target_of(kind@, w@, target_settings(cfg)) == Some(t@),
            None => target_of(kind@, w@, target_settings(cfg)) is None,
        },
{
    let name = match &w.name {
        Some(n) => n.clone(),
        None => {
            return None;
        },
    };
    let ns = match &w.namespace {
        Some(n) => n.clone(),
        None => {
            return None;
        },
    };
    let (selected, reason) = matches_selector(
        w,
        cfg.selector_key.as_str(),
        cfg.selector_value.as_str(),
    );
    let default_replicas = match default_state(w, cfg.default_state_label.as_str()) {
        Some(d) => Some(d),
        None => Some(cfg.default_state),
    };
    Some(
        Target {
            kind: owned(kind),
            name,
            namespace: ns,
            replicas: w.replicas,
            ready_replicas: w.ready_replicas,
            available_replicas: w.available_replicas,
            desired_replicas: None,
            default_replicas,
            selected,
            match_reason: reason,
            state: compute_state(w.replicas, w.ready_replicas),
        },
    )
}

/// The views of a sequence of targets.
pub open spec fn target_views(ts: Seq<Target>) -> Seq<TargetView> {
    ts.map_values(|t: Target| t@)
}

/// The views of a sequence of workloads.
pub open spec fn workload_views(ws: Seq<Workload>) -> Seq<WorkloadView> {
    ws.map_values(|w: Workload| w@)
}

/// The targets of the workloads of one listing, in listing order; workloads
/// without a name or a namespace are left out.
pub open spec fn targets_of(kind: Seq<char>, ws: Seq<WorkloadView>, s: TargetSettings) -> Seq<
    TargetView,
>
    decreases ws.len(),
{
    if ws.len() == 0 {
        Seq::empty()
    } else {
        let prev = targets_of(kind, ws.drop_last(), s);
        match target_of(kind, ws.last(), s) {
            Some(t) => prev.push(t),
            None => prev,
        }
    }
}

/// Append the targets of the workloads of one listing to `out`.
pub fn push_targets(out: &mut Vec<Target>, kind: &str, items: &Vec<Workload>, cfg: &Config)
    ensures
        target_views(final(out)@) == target_views(old(out)@) + targets_of(
            kind@,
            workload_views(items@),
            target_settings(cfg),
        ),
{
    let ghost start = target_views(out@);
    let mut i: usize = 0;
    while i < items.len()
        invariant
            i <= items.len(),
            target_views(out@) == start + targets_of(
                kind@,
                workload_views(items@.subrange(0, i as int)),
                target_settings(cfg),
            ),
        decreases items.len() - i,
    {
        let ghost before = target_views(out@);
        let t = target_from(kind, &items[i], cfg);
        proof {
            let pre = workload_views(items@.subrange(0, i + 1));
            assert(pre.drop_last() =~= workload_views(items@.subrange(0, i as int)));
            assert(pre.last() == items@[i as int]@);
        }
        match t {
            Some(t) => {
                let ghost tv = t@;
                out.push(t);
                proof {
                    assert(target_views(out@) =~= before.push(tv));
                }
            },
            None => {},
        }
        proof {
            assert(target_views(out@) =~= start + targets_of(
                kind@,
                workload_views(items@.subrange(0, i + 1)),
                target_settings(cfg),
            ));
        }
        i = i + 1;
    }
    proof {
        assert(items@.subrange(0, items.len() as int) =~= items@);
    }
}

// ----------------------------------------------------------------------
// Order of the targets
// ----------------------------------------------------------------------

/// Whether target `a` comes strictly before target `b`: by namespace, then
/// kind, then name.
pub open spec fn target_lt(a: TargetView, b: TargetView) -> bool {
    ||| seq_lt(a.namespace, b.namespace)
    ||| a.namespace == b.namespace && seq_lt(a.kind, b.kind)
    ||| a.namespace == b.namespace && a.kind == b.kind && seq_lt(a.name, b.name)
}

/// Whether two targets share namespace, kind and name.
pub open spec fn same_key(a: TargetView, b: TargetView) -> bool {
    a.namespace == b.namespace && a.kind == b.kind && a.name == b.name
}

proof fn lemma_target_lt_transitive(a: TargetView, b: TargetView, c: TargetView)
    requires
        target_lt(a, b),
        target_lt(b, c),
    ensures
        target_lt(a, c),
{
    if seq_lt(a.namespace, b.namespace) && seq_lt(b.namespace, c.namespace) {
        lemma_seq_lt_transitive(a.namespace, b.namespace, c.namespace);
    }
    if a.namespace == b.namespace && b.namespace == c.namespace {
        if seq_lt(a.kind, b.kind) && seq_lt(b.kind, c.kind) {
            lemma_seq_lt_transitive(a.kind, b.kind, c.kind);
        }
        if a.kind == b.kind && b.kind == c.kind && seq_lt(a.name, b.name) && seq_lt(
            b.name,
            c.name,
        ) {
            lemma_seq_lt_transitive(a.name, b.name, c.name);
        }
    }
}

proof fn lemma_target_lt_total(a: TargetView, b: TargetView)
    ensures
        target_lt(a, b) || same_key(a, b) || target_lt(b, a),
{
    lemma_seq_lt_total(a.namespace, b.namespace);
    lemma_seq_lt_total(a.kind, b.kind);
    lemma_seq_lt_total(a.name, b.name);
}

proof fn lemma_target_lt_irreflexive_key(a: TargetView, b: TargetView)
    requires
        same_key(a, b),
    ensures
        !target_lt(a, b),
{
    lemma_seq_lt_irreflexive(a.namespace);
    lemma_seq_lt_irreflexive(a.kind);
    lemma_seq_lt_irreflexive(a.name);
}

proof fn lemma_target_lt_asymmetric(a: TargetView, b: TargetView)
    ensures
        !(target_lt(a, b) && target_lt(b, a)),
{
    if target_lt(a, b) && target_lt(b, a) {
        lemma_target_lt_transitive(a, b, a);
        lemma_target_lt_irreflexive_key(a, a);
    }
}

/// Whether `a` comes strictly before `b`.
pub fn target_before(a: &Target, b: &Target) -> (r: bool)
    ensures
        r == target_lt(a@, b@),
{
    if str_lt(a.namespace.as_str(), b.namespace.as_str()) {
        return true;
    }
    if !str_eq(a.namespace.as_str(), b.namespace.as_str()) {
        return false;
    }
    if str_lt(a.kind.as_str(), b.kind.as_str()) {
        return true;
    }
    if !str_eq(a.kind.as_str(), b.kind.as_str()) {
        return false;
    }
    str_lt(a.name.as_str(), b.name.as_str())
}

/// Whether the targets are in order.
pub open spec fn sorted(s: Seq<TargetView>) -> bool {
    forall|i: int, j: int| 0 <= i < j < s.len() ==> !target_lt(#[trigger] s[j], #[trigger] s[i])
}

/// `out` holds the elements of `input` in the order given by `origin`:
/// `out[k]` is `input[origin[k]]`, and `origin` names each position of
/// `input` exactly once.
pub open spec fn rearranges<T>(input: Seq<T>, out: Seq<T>, origin: Seq<int>) -> bool {
    &&& out.len() == input.len()
    &&& origin.len() == input.len()
    &&& forall|k: int| 0 <= k < origin.len() ==> 0 <= #[trigger] origin[k] < input.len()
    &&& forall|k: int, l: int|
        0 <= k < l < origin.len() ==> #[trigger] origin[k] != #[trigger] origin[l]
    &&& forall|k: int| 0 <= k < out.len() ==> #[trigger] out[k] == input[origin[k]]
}

/// `out` is `input` sorted by namespace, kind and name, with targets that
/// share all three kept in the order they had (a stable sort).
pub open spec fn stable_sorted(input: Seq<Target>, out: Seq<Target>) -> bool {
    exists|origin: Seq<int>|
        {
            &&& rearranges(input, out, origin)
            &&& sorted(target_views(out))
            &&& forall|k: int, l: int|
                0 <= k < l < out.len() && same_key(out[k]@, out[l]@) ==> #[trigger] origin[k]
                    < #[trigger] origin[l]
        }
}

/// Sort the targets by namespace, then kind, then name, keeping the order
/// of targets that share all three.
pub fn sort_targets(input: Vec<Target>) -> (out: Vec<Target>)
    ensures
        stable_sorted(input@, out@),
{
    let ghost orig = input@;
    let n = input.len();
    let mut rest = input;
    let mut out: Vec<Target> = Vec::new();
    let ghost mut origin: Seq<int> = Seq::empty();
    let mut i: usize = 0;
    while i < n
        invariant
            n == orig.len(),
            i <= n,
            rest@ == orig.subrange(i as int, n as int),
            out@.len() == i,
            origin.len() == i,
            forall|k: int| 0 <= k < i ==> 0 <= #[trigger] origin[k] < i,
            forall|k: int, l: int| 0 <= k < l < i ==> #[trigger] origin[k] != #[trigger] origin[l],
            forall|k: int| 0 <= k < i ==> #[trigger] out@[k] == orig[origin[k]],
            sorted(target_views(out@)),
            forall|k: int, l: int|
                0 <= k < l < i && same_key(out@[k]@, out@[l]@) ==> #[trigger] origin[k]
                    < #[trigger] origin[l],
        decreases n - i,
    {
        let t = rest.remove(0);
        assert(t == orig[i as int]);
        let mut pos: usize = 0;
        while pos < out.len() && !target_before(&t, &out[pos])
            invariant
                pos <= out@.len(),
                forall|k: int| 0 <= k < pos ==> !target_lt(t@, #[trigger] out@[k]@),
            decreases out@.len() - pos,
        {
            pos = pos + 1;
        }
        let ghost old_out = out@;
        let ghost old_origin = origin;
        out.insert(pos, t);
        proof {
            origin = old_origin.insert(pos as int, i as int);
            old_out.insert_ensures(pos as int, t);
            old_origin.insert_ensures(pos as int, i as int);
            let tv = t@;
            let ov = target_views(old_out);
            let nv = target_views(out@);
            // Everything from `pos` on comes strictly after `t`.
            assert forall|k: int| pos <= k < old_out.len() implies target_lt(
                tv,
                #[trigger] old_out[k]@,
            ) by {
                assert(target_lt(tv, old_out[pos as int]@));
                if k > pos {
                    assert(!target_lt(ov[k], ov[pos as int]));
                    lemma_target_lt_total(old_out[pos as int]@, old_out[k]@);
                    if target_lt(old_out[pos as int]@, old_out[k]@) {
                        lemma_target_lt_transitive(tv, old_out[pos as int]@, old_out[k]@);
                    }
                }
            }
            assert forall|a: int, b: int| 0 <= a < b < nv.len() implies !target_lt(
                #[trigger] nv[b],
                #[trigger] nv[a],
            ) by {
                if b < pos {
                    assert(nv[a] == ov[a] && nv[b] == ov[b]);
                } else if b == pos {
                    assert(nv[a] == ov[a]);
                    assert(nv[b] == tv);
                } else if a == pos {
                    assert(nv[b] == ov[b - 1]);
                    assert(target_lt(tv, old_out[b - 1]@));
                    lemma_target_lt_asymmetric(tv, old_out[b - 1]@);
                } else if a < pos {
                    assert(nv[a] == ov[a] && nv[b] == ov[b - 1]);
                } else {
                    assert(nv[a] == ov[a - 1] && nv[b] == ov[b - 1]);
                }
            }
            assert forall|k: int| 0 <= k < i + 1 implies 0 <= #[trigger] origin[k] < i + 1 by {
                if k < pos {
                } else if k > pos {
                    assert(origin[k] == old_origin[k - 1]);
                }
            }
            assert forall|k: int, l: int| 0 <= k < l < i + 1 implies #[trigger] origin[k]
                != #[trigger] origin[l] by {
                if k < pos && l < pos {
                } else if k < pos && l == pos {
                } else if k < pos {
                    assert(origin[l] == old_origin[l - 1]);
                } else if k == pos {
                    assert(origin[l] == old_origin[l - 1]);
                } else {
                    assert(origin[k] == old_origin[k - 1]);
                    assert(origin[l] == old_origin[l - 1]);
                }
            }
            assert forall|k: int| 0 <= k < i + 1 implies #[trigger] out@[k] == orig[origin[k]] by {
                if k > pos {
                    assert(out@[k] == old_out[k - 1]);
                    assert(origin[k] == old_origin[k - 1]);
                }
            }
            assert forall|k: int, l: int|
                0 <= k < l < i + 1 && same_key(out@[k]@, out@[l]@) implies #[trigger] origin[k]
                < #[trigger] origin[l] by {
                if k < pos && l < pos {
                } else if k < pos && l == pos {
                } else if k < pos {
                    assert(origin[l] == old_origin[l - 1]);
                    assert(out@[l] == old_out[l - 1]);
                } else if k == pos {
                    assert(out@[l] == old_out[l - 1]);
                    assert(target_lt(tv, old_out[l - 1]@));
                    lemma_target_lt_irreflexive_key(tv, old_out[l - 1]@);
                } else {
                    assert(origin[k] == old_origin[k - 1]);
                    assert(origin[l] == old_origin[l - 1]);
                    assert(out@[k] == old_out[k - 1]);
                    assert(out@[l] == old_out[l - 1]);
                }
            }
        }
        i = i + 1;
    }
    proof {
        assert(rearranges(orig, out@, origin));
    }
    out
}

// ----------------------------------------------------------------------
// What discovery lists
// ----------------------------------------------------------------------

/// The label selector that the list requests carry: `key=value`.
pub open spec fn selector_spec(key: Seq<char>, value: Seq<char>) -> Seq<char> {
    key + "="@ + value
}

/// The list requests of a discovery, each with the kind it lists:
/// Deployments first, then StatefulSets, each over the configured
/// namespaces (or the whole cluster).
pub open spec fn discovery_plan_spec(
    namespaces: Seq<Seq<char>>,
    key: Seq<char>,
    value: Seq<char>,
) -> Seq<(Seq<char>, Seq<char>)> {
    let sel = selector_spec(key, value);
    list_urls_spec("deployments"@, namespaces, sel).map_values(
        |p: Seq<char>| ("Deployment"@, p),
    ) + list_urls_spec("statefulsets"@, namespaces, sel).map_values(
        |p: Seq<char>| ("StatefulSet"@, p),
    )
}

/// The list requests of a discovery: each is a kind and the path to list.
pub fn discovery_plan(cfg: &Config) -> (plan: Vec<(String, String)>)
    ensures
        crate::kube::pair_views(plan@) == discovery_plan_spec(
            views(cfg.namespaces@),
            cfg.selector_key@,
            cfg.selector_value@,
        ),
{
    let mut selector = join2(cfg.selector_key.as_str(), "=");
    selector.append(cfg.selector_value.as_str());
    let mut plan: Vec<(String, String)> = Vec::new();
    let dep = list_urls("deployments", &cfg.namespaces, selector.as_str());
    let sts = list_urls("statefulsets", &cfg.namespaces, selector.as_str());
    let mut i: usize = 0;
    while i < dep.len()
        invariant
            i <= dep.len(),
            plan@.len() == i,
            forall|k: int|
                0 <= k < i ==> (#[trigger] plan@[k]).0@ == "Deployment"@ && plan@[k].1@
                    == dep@[k]@,
        decreases dep.len() - i,
    {
        plan.push((owned("Deployment"), dep[i].clone()));
        i = i + 1;
    }
    let mut j: usize = 0;
    while j < sts.len()
        invariant
            j <= sts.len(),
            dep@.len() == i,
            plan@.len() == i + j,
            forall|k: int|
                0 <= k < i ==> (#[trigger] plan@[k]).0@ == "Deployment"@ && plan@[k].1@
                    == dep@[k]@,
            forall|k: int|
                i <= k < i + j ==> (#[trigger] plan@[k]).0@ == "StatefulSet"@ && plan@[k].1@
                    == sts@[k - i]@,
        decreases sts.len() - j,
    {
        plan.push((owned("StatefulSet"), sts[j].clone()));
        j = j + 1;
    }
    proof {
        let sel = selector_spec(cfg.selector_key@, cfg.selector_value@);
        let d = list_urls_spec("deployments"@, views(cfg.namespaces@), sel);
        let t = list_urls_spec("statefulsets"@, views(cfg.namespaces@), sel);
        assert(views(dep@) == d);
        assert(views(sts@) == t);
        assert forall|k: int| 0 <= k < i + j implies crate::kube::pair_views(plan@)[k]
            == discovery_plan_spec(
            views(cfg.namespaces@),
            cfg.selector_key@,
            cfg.selector_value@,
        )[k] by {
            if k < i {
                assert(views(dep@)[k] == dep@[k]@);
            } else {
                assert(views(sts@)[k - i] == sts@[k - i]@);
            }
        }
        assert(crate::kube::pair_views(plan@) =~= discovery_plan_spec(
            views(cfg.namespaces@),
            cfg.selector_key@,
            cfg.selector_value@,
        ));
    }
    plan
}

/// The targets of all listings, in the order of the listings, before sorting.
pub open spec fn all_targets(listings: Seq<(Seq<char>, Seq<WorkloadView>)>, s: TargetSettings) -> Seq<
    TargetView,
>
    decreases listings.len(),
{
    if listings.len() == 0 {
        Seq::empty()
    } else {
        all_targets(listings.drop_last(), s) + targets_of(
            listings.last().0,
            listings.last().1,
            s,
        )
    }
}

/// The views of the listings of a discovery.
pub open spec fn listing_views(ls: Seq<(String, Vec<Workload>)>) -> Seq<
    (Seq<char>, Seq<WorkloadView>),
> {
    ls.map_values(|l: (String, Vec<Workload>)| (l.0@, workload_views(l.1@)))
}

/// The targets of a discovery: the targets of each successful listing (a
/// kind and the workloads it listed), sorted by namespace, kind and name.
pub fn discovered_targets(listings: Vec<(String, Vec<Workload>)>, cfg: &Config) -> (out: Vec<Target>)
    ensures
        exists|unsorted: Seq<Target>|
            #![trigger stable_sorted(unsorted, out@)]
            target_views(unsorted) == all_targets(listing_views(listings@), target_settings(cfg))
                && stable_sorted(unsorted, out@),
{
    let mut all: Vec<Target> = Vec::new();
    let mut i: usize = 0;
    while i < listings.len()
        invariant
            i <= listings.len(),
            target_views(all@) == all_targets(
                listing_views(listings@.subrange(0, i as int)),
                target_settings(cfg),
            ),
        decreases listings.len() - i,
    {
        push_targets(&mut all, listings[i].0.as_str(), &listings[i].1, cfg);
        proof {
            let pre = listing_views(listings@.subrange(0, i + 1));
            assert(pre.drop_last() =~= listing_views(listings@.subrange(0, i as int)));
        }
        i = i + 1;
    }
    proof {
        assert(listings@.subrange(0, listings.len() as int) =~= listings@);
    }
    let ghost unsorted = all@;
    let out = sort_targets(all);
    assert(stable_sorted(unsorted, out@));
    out
}

// ----------------------------------------------------------------------
// Laws
// ----------------------------------------------------------------------

/// Every listed workload with a name and a namespace becomes a target,
/// whatever its replica count (a workload at zero replicas is listed too),
/// and its default is resolved in order: its own default-state label when
/// that names a state, else the global default.
pub proof fn law_every_named_workload_is_listed(kind: Seq<char>, w: WorkloadView, s: TargetSettings)
    requires
        w.name is Some,
        w.namespace is Some,
    ensures
        target_of(kind, w, s) matches Some(t) && t.name == w.name->0 && t.namespace
            == w.namespace->0 && t.replicas == w.replicas && t.default_replicas == Some(
            match default_state_of(w, s.default_state_label) {
                Some(d) => d,
                None => s.default_state,
            },
        ),
{
}

/// Whether a listed workload has both a name and a namespace.
pub open spec fn named(w: WorkloadView) -> bool {
    w.name is Some && w.namespace is Some
}

/// How many listed workloads have both a name and a namespace.
pub open spec fn count_named(ws: Seq<WorkloadView>) -> nat
    decreases ws.len(),
{
    if ws.len() == 0 {
        0
    } else {
        count_named(ws.drop_last()) + if named(ws.last()) {
            1nat
        } else {
            0nat
        }
    }
}

/// A listing gives exactly one target per listed workload that has a name
/// and a namespace, in listing order, whatever its replica count: the
/// target of the `i`-th such workload has the listing's kind, the
/// workload's name, namespace and replica counts, no desired state yet, and
/// is stopped exactly when its replica count is zero or absent.
pub proof fn law_every_named_workload_becomes_a_target(
    kind: Seq<char>,
    ws: Seq<WorkloadView>,
    s: TargetSettings,
)
    ensures
        targets_of(kind, ws, s).len() == count_named(ws),
        forall|i: int|
            0 <= i < ws.len() && named(#[trigger] ws[i]) ==> {
                let t = targets_of(kind, ws, s)[count_named(ws.take(i)) as int];
                &&& count_named(ws.take(i)) < targets_of(kind, ws, s).len()
                &&& t.kind == kind
                &&& t.name == ws[i].name->0
                &&& t.namespace == ws[i].namespace->0
                &&& t.replicas == ws[i].replicas
                &&& t.ready_replicas == ws[i].ready_replicas
                &&& t.available_replicas == ws[i].available_replicas
                &&& t.desired_replicas is None
                &&& (t.state == "stopped"@ <==> (ws[i].replicas is None || ws[i].replicas == Some(
                    0i64,
                )))
            },
    decreases ws.len(),
{
    reveal_strlit("stopped");
    reveal_strlit("running");
    reveal_strlit("pending");
    assert("running"@ != "stopped"@) by {
        assert("running"@[0] != "stopped"@[0]);
    }
    assert("pending"@ != "stopped"@) by {
        assert("pending"@[0] != "stopped"@[0]);
    }
    if ws.len() > 0 {
        let p = ws.drop_last();
        law_every_named_workload_becomes_a_target(kind, p, s);
        assert forall|i: int| 0 <= i < ws.len() && named(#[trigger] ws[i]) implies {
            let t = targets_of(kind, ws, s)[count_named(ws.take(i)) as int];
            &&& count_named(ws.take(i)) < targets_of(kind, ws, s).len()
            &&& t.kind == kind
            &&& t.name == ws[i].name->0
            &&& t.namespace == ws[i].namespace->0
            &&& t.replicas == ws[i].replicas
            &&& t.ready_replicas == ws[i].ready_replicas
            &&& t.available_replicas == ws[i].available_replicas
            &&& t.desired_replicas is None
            &&& (t.state == "stopped"@ <==> (ws[i].replicas is None || ws[i].replicas == Some(0i64)))
        } by {
            let prev = targets_of(kind, p, s);
            if i < p.len() {
                assert(ws.take(i) =~= p.take(i));
                assert(p[i] == ws[i]);
                assert(named(p[i]));
                let k = count_named(p.take(i)) as int;
                assert(k < prev.len());
                assert(targets_of(kind, ws, s)[k] == prev[k]);
            } else {
                assert(ws.take(i) =~= p);
                assert(ws[i] == ws.last());
                let w = ws.last();
                assert(target_of(kind, w, s) is Some);
                assert(targets_of(kind, ws, s) == prev.push(target_of(kind, w, s)->0));
            }
        }
    }
}

/// Every list request of a discovery carries the label selector in its
/// query, so that only selected workloads are ever transferred.
pub proof fn law_listing_is_filtered_by_label(namespaces: Seq<Seq<char>>, key: Seq<char>, value: Seq<char>)
    ensures
        forall|i: int|
            0 <= i < discovery_plan_spec(namespaces, key, value).len() ==> (#[trigger] discovery_plan_spec(
                namespaces,
                key,
                value,
            )[i]).1.len() >= selector_query(selector_spec(key, value)).len() && discovery_plan_spec(
                namespaces,
                key,
                value,
            )[i].1.subrange(
                discovery_plan_spec(namespaces, key, value)[i].1.len() - selector_query(
                    selector_spec(key, value),
                ).len(),
                discovery_plan_spec(namespaces, key, value)[i].1.len() as int,
            ) == selector_query(selector_spec(key, value)),
        selector_query(selector_spec(key, value)).len() > 0,
{
    let sel = selector_spec(key, value);
    let q = selector_query(sel);
    let plan = discovery_plan_spec(namespaces, key, value);
    reveal_strlit("=");
    assert(sel.len() > 0);
    let d = list_urls_spec("deployments"@, namespaces, sel);
    let t = list_urls_spec("statefulsets"@, namespaces, sel);
    assert forall|i: int| 0 <= i < plan.len() implies (#[trigger] plan[i]).1.len() >= q.len()
        && plan[i].1.subrange(plan[i].1.len() - q.len(), plan[i].1.len() as int) == q by {
        let p = if i < d.len() {
            d[i]
        } else {
            t[i - d.len()]
        };
        assert(plan[i].1 == p);
        let prefix = if i < d.len() {
            if namespaces.len() == 0 {
                "/apis/apps/v1/"@ + "deployments"@
            } else {
                "/apis/apps/v1/namespaces/"@ + namespaces[i] + "/"@ + "deployments"@
            }
        } else {
            if namespaces.len() == 0 {
                "/apis/apps/v1/"@ + "statefulsets"@
            } else {
                "/apis/apps/v1/namespaces/"@ + namespaces[i - d.len()] + "/"@ + "statefulsets"@
            }
        };
        assert(p == prefix + q);
        assert((prefix + q).subrange(prefix.len() as int, (prefix + q).len() as int) =~= q);
    }
}

} // verus!
