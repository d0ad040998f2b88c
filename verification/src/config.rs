//! Configuration of the scaler and the words that name a desired state.

use vstd::prelude::*;
use crate::text::{
    ascii_lowercase, chars_eq_str, chars_of, find_char_from, first_index_of, lemma_first_index_of,
    lemma_first_index_of_exact, lemma_lower_idempotent, lemma_no_index, lemma_trim_idempotent,
    lemma_trim_lower_commute, lowercase_chars, owned, slice_chars, string_of, trim,
    trim_chars, trimmed,
};
use crate::kube::views;

verus! {

/// The replica count that a (trimmed, lower-cased) state word names.
pub open spec fn state_word(w: Seq<char>) -> Option<i64> {
    if w == "active"@ || w == "1"@ || w == "true"@ || w == "on"@ {
        Some(1)
    } else if w == "inactive"@ || w == "0"@ || w == "false"@ || w == "off"@ {
        Some(0)
    } else {
        None
    }
}

/// What `parse_state` gives for a text: the word is trimmed and ASCII
/// lower-cased before it is looked up.
pub open spec fn parsed_state(s: Seq<char>) -> Option<i64> {
    state_word(ascii_lowercase(trim(s)))
}

/// Parse a default-state value. Accepts `active`/`inactive` and `1`/`0`
/// (also `true`/`false` and `on`/`off`), ignoring surrounding white space
/// and ASCII case.
pub fn parse_state(value: &str) -> (r: Option<i64>)
    ensures
        r == parsed_state(value@),
        r matches Some(v) ==> v == 0 || v == 1,
{
    let t = trimmed(value);
    let w = lowercase_chars(&t);
    if chars_eq_str(&w, "active") || chars_eq_str(&w, "1") || chars_eq_str(&w, "true")
        || chars_eq_str(&w, "on") {
        Some(1)
    } else if chars_eq_str(&w, "inactive") || chars_eq_str(&w, "0") || chars_eq_str(&w, "false")
        || chars_eq_str(&w, "off") {
        Some(0)
    } else {
        None
    }
}

/// A state word means the same with more white space around it or in
/// another ASCII case: `parse_state` gives the same result for a text, for
/// the text trimmed, and for the text lower-cased.
pub proof fn law_parse_state_ignores_space_and_case(s: Seq<char>)
    ensures
        parsed_state(trim(s)) == parsed_state(s),
        parsed_state(ascii_lowercase(s)) == parsed_state(s),
{
    lemma_trim_idempotent(s);
    lemma_trim_lower_commute(s);
    lemma_lower_idempotent(trim(s));
}

/// A piece of text kept as a namespace when it is not empty.
pub open spec fn keep_nonempty(x: Seq<char>) -> Seq<Seq<char>> {
    if x.len() > 0 {
        seq![x]
    } else {
        Seq::empty()
    }
}

/// The namespaces of a comma-separated list: each piece between commas,
/// trimmed, with the empty ones left out.
pub open spec fn namespace_pieces(t: Seq<char>) -> Seq<Seq<char>>
    decreases t.len(),
{
    match first_index_of(t, ',') {
        None => keep_nonempty(trim(t)),
        Some(i) => {
            proof {
                lemma_first_index_of(t, ',');
            }
            if 0 <= i < t.len() {
                keep_nonempty(trim(t.subrange(0, i))) + namespace_pieces(
                    t.subrange(i + 1, t.len() as int),
                )
            } else {
                Seq::empty()
            }
        },
    }
}

/// Every namespace read from a list is a non-empty piece of the list
/// without surrounding white space.
pub proof fn law_namespaces_are_clean(t: Seq<char>)
    ensures
        forall|i: int|
            0 <= i < namespace_pieces(t).len() ==> (#[trigger] namespace_pieces(t)[i]).len() > 0
                && trim(namespace_pieces(t)[i]) == namespace_pieces(t)[i],
    decreases t.len(),
{
    lemma_first_index_of(t, ',');
    match first_index_of(t, ',') {
        None => {
            lemma_trim_idempotent(t);
        },
        Some(j) => {
            let head = keep_nonempty(trim(t.subrange(0, j)));
            let rest = t.subrange(j + 1, t.len() as int);
            law_namespaces_are_clean(rest);
            lemma_trim_idempotent(t.subrange(0, j));
            assert(namespace_pieces(t) == head + namespace_pieces(rest));
            assert forall|i: int| 0 <= i < namespace_pieces(t).len() implies (
            #[trigger] namespace_pieces(t)[i]).len() > 0 && trim(namespace_pieces(t)[i])
                == namespace_pieces(t)[i] by {
                if i >= head.len() {
                    assert(namespace_pieces(t)[i] == namespace_pieces(rest)[i - head.len()]);
                }
            }
        },
    }
}

/// The namespaces that `NAMESPACES` names; none (all namespaces) when it is
/// unset or blank.
pub open spec fn namespaces_spec(value: Option<Seq<char>>) -> Seq<Seq<char>> {
    match value {
        Some(s) => if trim(s).len() == 0 {
            Seq::empty()
        } else {
            namespace_pieces(s)
        },
        None => Seq::empty(),
    }
}

/// The namespaces of a comma-separated list.
pub fn parse_namespaces(value: &str) -> (out: Vec<String>)
    ensures
        views(out@) == namespace_pieces(value@),
{
    let cs = chars_of(value);
    let n = cs.len();
    let mut out: Vec<String> = Vec::new();
    let mut pos: usize = 0;
    proof {
        assert(cs@.subrange(0, n as int) =~= cs@);
    }
    loop
        invariant
            pos <= n,
            n == cs@.len(),
            cs@ == value@,
            views(out@) + namespace_pieces(cs@.subrange(pos as int, n as int)) == namespace_pieces(
                cs@,
            ),
        decreases n - pos,
    {
        let ghost rest = cs@.subrange(pos as int, n as int);
        let j = find_char_from(&cs, ',', pos);
        let piece = slice_chars(&cs, pos, j);
        let t = trim_chars(&piece);
        let ghost before = views(out@);
        if t.len() > 0 {
            out.push(string_of(&t));
        }
        proof {
            assert(views(out@) =~= before + keep_nonempty(trim(piece@)));
        }
        if j == n {
            proof {
                assert forall|k: int| 0 <= k < rest.len() implies rest[k] != ',' by {
                    assert(rest[k] == cs@[pos + k]);
                }
                lemma_no_index(rest, ',');
                assert(piece@ =~= rest);
                assert(views(out@) =~= before + namespace_pieces(rest));
            }
            return out;
        }
        proof {
            assert forall|k: int| 0 <= k < j - pos implies rest[k] != ',' by {
                assert(rest[k] == cs@[pos + k]);
            }
            lemma_first_index_of_exact(rest, ',', j - pos);
            assert(rest.subrange(0, j - pos) =~= piece@);
            assert(rest.subrange(j - pos + 1, rest.len() as int) =~= cs@.subrange(
                j + 1,
                n as int,
            ));
            assert(namespace_pieces(rest) == keep_nonempty(trim(piece@)) + namespace_pieces(
                cs@.subrange(j + 1, n as int),
            ));
            assert(views(out@) + namespace_pieces(cs@.subrange(j + 1, n as int)) =~= before
                + namespace_pieces(rest));
        }
        pos = j + 1;
    }
}

/// The settings of the scaler.
pub struct Config {
    /// Namespaces to scan. Empty = all namespaces.
    pub namespaces: Vec<String>,
    /// Label key used to select manageable workloads.
    pub selector_key: String,
    /// Label value that a workload must carry to be manageable.
    pub selector_value: String,
    /// Label key describing the initial desired state ("active"/"inactive").
    pub default_state_label: String,
    /// Fallback desired replicas (0 or 1) for workloads with no default-state label.
    pub default_state: i64,
    /// Name of the ConfigMap that persists desired state.
    pub state_configmap: String,
    /// Namespace of the state ConfigMap (defaults to the pod's namespace).
    pub state_namespace: String,
}

/// The view of an optional string.
pub open spec fn opt_view(s: Option<String>) -> Option<Seq<char>> {
    match s {
        Some(v) => Some(v@),
        None => None,
    }
}

/// A setting, or its default when it is unset.
pub open spec fn or_default(s: Option<Seq<char>>, d: Seq<char>) -> Seq<char> {
    match s {
        Some(v) => v,
        None => d,
    }
}

/// The global default state: `DEFAULT_STATE` when it names a state, else
/// inactive (0).
pub open spec fn default_state_spec(s: Option<Seq<char>>) -> i64 {
    match s {
        Some(v) => match parsed_state(v) {
            Some(r) => r,
            None => 0,
        },
        None => 0,
    }
}

/// The namespace of the state ConfigMap: `STATE_NAMESPACE` when it is set
/// and not empty, else the pod's own namespace (trimmed), else `default`.
pub open spec fn state_namespace_spec(
    state_namespace: Option<Seq<char>>,
    pod_namespace: Option<Seq<char>>,
) -> Seq<char> {
    match state_namespace {
        Some(v) if v.len() > 0 => v,
        _ => match pod_namespace {
            Some(p) => trim(p),
            None => "default"@,
        },
    }
}

fn setting_or(value: Option<String>, default: &str) -> (out: String)
    ensures
        out@ == or_default(opt_view(value), default@),
{
    match value {
        Some(v) => v,
        None => owned(default),
    }
}

impl Config {
    /// The configuration from the values of `NAMESPACES`, `SELECTOR_KEY`,
    /// `SELECTOR_VALUE`, `DEFAULT_STATE_LABEL`, `DEFAULT_STATE`,
    /// `STATE_CONFIGMAP` and `STATE_NAMESPACE` (each `None` when unset) and
    /// the contents of the pod's namespace file (`None` when it cannot be
    /// read).
    pub fn from_values(
        namespaces: Option<String>,
        selector_key: Option<String>,
        selector_value: Option<String>,
        default_state_label: Option<String>,
        default_state: Option<String>,
        state_configmap: Option<String>,
        state_namespace: Option<String>,
        pod_namespace: Option<String>,
    ) -> (cfg: Config)
        ensures
            views(cfg.namespaces@) == namespaces_spec(opt_view(namespaces)),
            cfg.selector_key@ == or_default(
                opt_view(selector_key),
                "replica-scaler.webui.io/managed"@,
            ),
            cfg.selector_value@ == or_default(opt_view(selector_value), "true"@),
            cfg.default_state_label@ == or_default(
                opt_view(default_state_label),
                "replica-scaler.webui.io/default-state"@,
            ),
            cfg.default_state == default_state_spec(opt_view(default_state)),
            cfg.default_state == 0 || cfg.default_state == 1,
            cfg.state_configmap@ == or_default(opt_view(state_configmap), "replica-scaler-state"@),
            cfg.state_namespace@ == state_namespace_spec(
                opt_view(state_namespace),
                opt_view(pod_namespace),
            ),
    {
        let ns_list = match namespaces {
            Some(s) => {
                let t = trimmed(s.as_str());
                if t.len() == 0 {
                    Vec::new()
                } else {
                    parse_namespaces(s.as_str())
                }
            },
            None => Vec::new(),
        };
        proof {
            if opt_view(namespaces) is None || trim(opt_view(namespaces)->0).len() == 0 {
                assert(views(ns_list@) =~= Seq::<Seq<char>>::empty());
            }
        }
        let default_replicas = match default_state {
            Some(s) => match parse_state(s.as_str()) {
                Some(r) => r,
                None => 0,
            },
            None => 0,
        };
        let state_ns = match state_namespace {
            Some(v) if !v.as_str().is_empty() => v,
            _ => match pod_namespace {
                Some(p) => {
                    let t = trimmed(p.as_str());
                    string_of(&t)
                },
                None => owned("default"),
            },
        };
        Config {
            namespaces: ns_list,
            selector_key: setting_or(selector_key, "replica-scaler.webui.io/managed"),
            selector_value: setting_or(selector_value, "true"),
            default_state_label: setting_or(
                default_state_label,
                "replica-scaler.webui.io/default-state",
            ),
            default_state: default_replicas,
            state_configmap: setting_or(state_configmap, "replica-scaler-state"),
            state_namespace: state_ns,
        }
    }
}

} // verus!
