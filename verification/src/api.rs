//! The answers of the HTTP API: the list of targets with their desired
//! state, and the steps of a scale request.

use vstd::prelude::*;
use crate::kube::{error_text, KubeError};
use crate::models::{ErrorResponse, ScaleRequest, Target, TargetView};
use crate::state::{key_spec, StateStore};
use crate::text::{join3, str_eq};

verus! {

/// The replica count a scale request asks for, clamped to `0..=1`: a
/// workload never runs more than one replica through this API.
pub fn requested_replicas(req: ScaleRequest) -> (r: u8)
    ensures
        r == (if req.replicas >= 1 {
            1u8
        } else {
            0u8
        }),
        r <= 1,
{
    if req.replicas >= 1 {
        1
    } else {
        0
    }
}

/// A target with its desired state filled in from the store, when the store
/// holds one for it.
pub open spec fn with_desired(t: TargetView, m: Map<Seq<char>, i64>) -> TargetView {
    let k = key_spec(t.kind, t.namespace, t.name);
    if m.contains_key(k) {
        TargetView { desired_replicas: Some(m[k]), ..t }
    } else {
        t
    }
}

/// The targets of a listing with their stored desired state.
pub fn fill_desired(targets: Vec<Target>, state: &StateStore) -> (out: Vec<Target>)
    ensures
        out@.len() == targets@.len(),
        forall|i: int| 0 <= i < out@.len() ==> #[trigger] out@[i]@ == with_desired(targets@[i]@, state@),
{
    let n = targets.len();
    let mut rest = targets;
    let ghost orig = rest@;
    let mut out: Vec<Target> = Vec::new();
    let mut i: usize = 0;
    while i < n
        invariant
            n == orig.len(),
            i <= n,
            rest@ == orig.subrange(i as int, n as int),
            out@.len() == i,
            forall|k: int| 0 <= k < i ==> #[trigger] out@[k]@ == with_desired(orig[k]@, state@),
        decreases n - i,
    {
        let mut t = rest.remove(0);
        assert(t == orig[i as int]);
        let key = StateStore::key(t.kind.as_str(), t.namespace.as_str(), t.name.as_str());
        match state.get(key.as_str()) {
            Some(d) => {
                t.desired_replicas = Some(d);
            },
            None => {},
        }
        out.push(t);
        i = i + 1;
    }
    out
}

/// Listing shows the stored desired state: a target whose key the store
/// holds gets exactly the stored count as its desired state (zero, for a
/// workload stopped from the UI, included); a target the store does not
/// know keeps what it had; no other field changes.
pub proof fn law_listing_shows_stored_state(t: TargetView, m: Map<Seq<char>, i64>)
    ensures
        m.contains_key(key_spec(t.kind, t.namespace, t.name)) ==> with_desired(t, m).desired_replicas
            == Some(m[key_spec(t.kind, t.namespace, t.name)]),
        !m.contains_key(key_spec(t.kind, t.namespace, t.name)) ==> with_desired(t, m) == t,
        with_desired(t, m) == (TargetView { desired_replicas: with_desired(t, m).desired_replicas, ..t }),
{
}

/// The first target with the given namespace and name, if any.
pub open spec fn first_match(ts: Seq<TargetView>, ns: Seq<char>, name: Seq<char>) -> Option<int>
    decreases ts.len(),
{
    if ts.len() == 0 {
        None
    } else if ts[0].namespace == ns && ts[0].name == name {
        Some(0)
    } else {
        match first_match(ts.drop_first(), ns, name) {
            Some(i) => Some(i + 1),
            None => None,
        }
    }
}

proof fn lemma_first_match_exact(ts: Seq<TargetView>, ns: Seq<char>, name: Seq<char>, i: int)
    requires
        0 <= i <= ts.len(),
        i < ts.len() ==> ts[i].namespace == ns && ts[i].name == name,
        forall|k: int| 0 <= k < i ==> !(ts[k].namespace == ns && ts[k].name == name),
    ensures
        first_match(ts, ns, name) == (if i < ts.len() {
            Some(i)
        } else {
            None::<int>
        }),
    decreases i,
{
    if i > 0 {
        assert forall|k: int| 0 <= k < i - 1 implies !(ts.drop_first()[k].namespace == ns
            && ts.drop_first()[k].name == name) by {
            assert(ts.drop_first()[k] == ts[k + 1]);
        }
        lemma_first_match_exact(ts.drop_first(), ns, name, i - 1);
    }
}

/// The target a scale request finds has the namespace and name it asks
/// for, and comes before every other such target; when none is found, no
/// listed target has that namespace and name.
pub proof fn law_found_target_matches(ts: Seq<TargetView>, ns: Seq<char>, name: Seq<char>)
    ensures
        first_match(ts, ns, name) matches Some(i) ==> 0 <= i < ts.len() && ts[i].namespace == ns
            && ts[i].name == name && forall|k: int|
            0 <= k < i ==> !(ts[k].namespace == ns && ts[k].name == name),
        first_match(ts, ns, name) is None ==> forall|k: int|
            0 <= k < ts.len() ==> !(#[trigger] ts[k].namespace == ns && ts[k].name == name),
    decreases ts.len(),
{
    if ts.len() > 0 && !(ts[0].namespace == ns && ts[0].name == name) {
        law_found_target_matches(ts.drop_first(), ns, name);
        assert forall|k: int| 0 < k < ts.len() implies ts[k] == ts.drop_first()[k - 1] by {}
    }
}

/// The text of the error for a workload that is not (or no longer) listed.
pub open spec fn not_found_text(ns: Seq<char>, name: Seq<char>) -> Seq<char> {
    "Workload "@ + ns + "/"@ + name + " not found (or not managed by this scaler)"@
}

/// The target that a scale request names: the first listed target with that
/// namespace and name, or the error answer when there is none.
pub fn find_target(targets: Vec<Target>, ns: &str, name: &str) -> (r: Result<Target, ErrorResponse>)
    ensures
        match r {
            Ok(t) => first_match(targets@.map_values(|t: Target| t@), ns@, name@) matches Some(
                i,
            ) && t == targets@[i],
            Err(e) => first_match(targets@.map_values(|t: Target| t@), ns@, name@) is None
                && e.error@ == not_found_text(ns@, name@),
        },
{
    let ghost tv = targets@.map_values(|t: Target| t@);
    let mut i: usize = 0;
    while i < targets.len()
        invariant
            i <= targets@.len(),
            tv == targets@.map_values(|t: Target| t@),
            forall|k: int| 0 <= k < i ==> !(tv[k].namespace == ns@ && tv[k].name == name@),
        decreases targets@.len() - i,
    {
        if str_eq(targets[i].namespace.as_str(), ns) && str_eq(targets[i].name.as_str(), name) {
            proof {
                lemma_first_match_exact(tv, ns@, name@, i as int);
            }
            let mut targets = targets;
            return Ok(targets.remove(i));
        }
        i = i + 1;
    }
    proof {
        lemma_first_match_exact(tv, ns@, name@, i as int);
    }
    let mut error = join3("Workload ", ns, "/");
    error.append(name);
    error.append(" not found (or not managed by this scaler)");
    Err(ErrorResponse { error })
}

/// The error answer when the scale request to the API server failed.
pub fn scale_failure(kind: &str, ns: &str, name: &str, err: &KubeError) -> (e: ErrorResponse)
    ensures
        e.error@ == "Failed to scale "@ + kind@ + " "@ + ns@ + "/"@ + name@ + ": "@ + error_text(
            err@,
        ),
{
    let mut error = join3("Failed to scale ", kind, " ");
    error.append(ns);
    error.append("/");
    error.append(name);
    error.append(": ");
    let m = err.message();
    error.append(m.as_str());
    ErrorResponse { error }
}

/// What a scale request does once the API server answered the scale call:
/// after a failure it answers with the error and persists nothing; after a
/// success it persists the requested count under the workload's key (and
/// answers with the workload whether or not persisting works).
pub fn after_scale<T>(result: &Result<T, KubeError>, kind: &str, ns: &str, name: &str, replicas: u8) -> (r:
    Result<(String, i64), ErrorResponse>)
    ensures
        match r {
            Ok((k, v)) => result is Ok && k@ == key_spec(kind@, ns@, name@) && v == replicas as i64,
            Err(e) => result matches Err(err) && e.error@ == "Failed to scale "@ + kind@ + " "@
                + ns@ + "/"@ + name@ + ": "@ + error_text(err@),
        },
{
    match result {
        Ok(_) => Ok((StateStore::key(kind, ns, name), replicas as i64)),
        Err(e) => Err(scale_failure(kind, ns, name, e)),
    }
}

/// The answer to a scale request that went through: the workload as listed
/// again (or as it was found before the scale when it is no longer listed),
/// with the requested count as its desired state.
pub fn scaled_target(fresh: Vec<Target>, ns: &str, name: &str, before: Target, replicas: u8) -> (t:
    Target)
    ensures
        t@ == (match first_match(fresh@.map_values(|t: Target| t@), ns@, name@) {
            Some(i) => TargetView { desired_replicas: Some(replicas as i64), ..fresh@[i]@ },
            None => TargetView { desired_replicas: Some(replicas as i64), ..before@ },
        }),
{
    let mut t = match find_target(fresh, ns, name) {
        Ok(t) => t,
        Err(_) => before,
    };
    t.desired_replicas = Some(replicas as i64);
    t
}

} // verus!
