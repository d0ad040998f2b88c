//! Which static file of the web UI answers a request path, and with which
//! content type; every other path falls back to `index.html` so that the
//! single-page UI can route on the client.

use vstd::prelude::*;
use crate::text::{
    chars_eq_str, chars_of, contains_seq, contains_str, join2, occurs_at, owned, slice_chars, string_of,
};

verus! {

/// What answers a request for a static path.
#[derive(Debug, Clone)]
pub enum StaticRoute {
    /// `public/index.html`.
    Index,
    /// A file under `public/` with its content type.
    File { path: String, mime: String },
}

/// The mathematical form of a [`StaticRoute`].
pub enum StaticRouteView {
    Index,
    File { path: Seq<char>, mime: Seq<char> },
}

impl View for StaticRoute {
    type V = StaticRouteView;

    open spec fn view(&self) -> StaticRouteView {
        match self {
            StaticRoute::Index => StaticRouteView::Index,
            StaticRoute::File { path, mime } => StaticRouteView::File { path: path@, mime: mime@ },
        }
    }
}

/// `s` without its leading slashes (`trim_start_matches('/')`).
pub open spec fn strip_slashes(s: Seq<char>) -> Seq<char>
    decreases s.len(),
{
    if s.len() > 0 && s[0] == '/' {
        strip_slashes(s.drop_first())
    } else {
        s
    }
}

/// What follows the last `.` of `s`, or all of `s` when it has none
/// (`rsplit('.').next()`).
pub open spec fn after_last_dot(s: Seq<char>) -> Seq<char>
    decreases s.len(),
{
    if s.len() == 0 {
        s
    } else if s.last() == '.' {
        Seq::empty()
    } else {
        after_last_dot(s.drop_last()).push(s.last())
    }
}

/// The content type of a file extension.
pub open spec fn mime_spec(ext: Seq<char>) -> Seq<char> {
    if ext == "html"@ {
        "text/html"@
    } else if ext == "js"@ {
        "application/javascript"@
    } else if ext == "wasm"@ {
        "application/wasm"@
    } else if ext == "css"@ {
        "text/css"@
    } else {
        "application/octet-stream"@
    }
}

/// The route of a request path: a path holding `..` or naming nothing
/// falls back to the index; any other names the file under `public/`, typed
/// by its extension.
pub open spec fn route_spec(path: Seq<char>) -> StaticRouteView {
    let clean = strip_slashes(path);
    if contains_seq(path, ".."@) || clean.len() == 0 {
        StaticRouteView::Index
    } else {
        let file = "public/"@ + clean;
        StaticRouteView::File { path: file, mime: mime_spec(after_last_dot(file)) }
    }
}

proof fn lemma_strip_skip(s: Seq<char>, i: int)
    requires
        0 <= i <= s.len(),
        forall|k: int| 0 <= k < i ==> s[k] == '/',
    ensures
        strip_slashes(s) == strip_slashes(s.subrange(i, s.len() as int)),
    decreases i,
{
    if i > 0 {
        assert(s.drop_first().subrange(i - 1, s.drop_first().len() as int) =~= s.subrange(
            i,
            s.len() as int,
        ));
        lemma_strip_skip(s.drop_first(), i - 1);
    } else {
        assert(s.subrange(0, s.len() as int) =~= s);
    }
}

proof fn lemma_after_last_dot(s: Seq<char>, j: int)
    requires
        0 <= j <= s.len(),
        forall|k: int| j <= k < s.len() ==> s[k] != '.',
        j > 0 ==> s[j - 1] == '.',
    ensures
        after_last_dot(s) == s.subrange(j, s.len() as int),
    decreases s.len(),
{
    if s.len() > j {
        lemma_after_last_dot(s.drop_last(), j);
        assert(s.drop_last().subrange(j, s.len() - 1).push(s.last()) =~= s.subrange(
            j,
            s.len() as int,
        ));
    } else if j > 0 {
        assert(s.subrange(j, s.len() as int) =~= Seq::<char>::empty());
    } else {
        assert(s.subrange(j, s.len() as int) =~= s);
    }
}

/// The content type of a file extension.
pub fn mime_type(ext: &Vec<char>) -> (m: String)
    ensures
        m@ == mime_spec(ext@),
{
    if chars_eq_str(ext, "html") {
        owned("text/html")
    } else if chars_eq_str(ext, "js") {
        owned("application/javascript")
    } else if chars_eq_str(ext, "wasm") {
        owned("application/wasm")
    } else if chars_eq_str(ext, "css") {
        owned("text/css")
    } else {
        owned("application/octet-stream")
    }
}

/// The route of a request path of the web UI.
pub fn static_route(path: &str) -> (r: StaticRoute)
    ensures
        r@ == route_spec(path@),
{
    if contains_str(path, "..") {
        return StaticRoute::Index;
    }
    let cs = chars_of(path);
    let n = cs.len();
    let mut start: usize = 0;
    while start < n && cs[start] == '/'
        invariant
            start <= n,
            n == cs@.len(),
            forall|k: int| 0 <= k < start ==> cs@[k] == '/',
        decreases n - start,
    {
        start = start + 1;
    }
    let clean = slice_chars(&cs, start, n);
    proof {
        lemma_strip_skip(cs@, start as int);
        let c = cs@.subrange(start as int, n as int);
        assert(!(c.len() > 0 && c[0] == '/'));
        assert(strip_slashes(path@) == clean@);
    }
    if clean.len() == 0 {
        return StaticRoute::Index;
    }
    let clean_str = string_of(&clean);
    let file = join2("public/", clean_str.as_str());
    let fc = chars_of(file.as_str());
    let m = fc.len();
    let mut j: usize = m;
    while j > 0 && fc[j - 1] != '.'
        invariant
            j <= m,
            m == fc@.len(),
            forall|k: int| j <= k < m ==> fc@[k] != '.',
        decreases j,
    {
        j = j - 1;
    }
    let ext = slice_chars(&fc, j, m);
    proof {
        lemma_after_last_dot(fc@, j as int);
    }
    let mime = mime_type(&ext);
    StaticRoute::File { path: file, mime }
}

proof fn lemma_strip_suffix(s: Seq<char>) -> (k: int)
    ensures
        0 <= k <= s.len(),
        strip_slashes(s) == s.subrange(k, s.len() as int),
    decreases s.len(),
{
    if s.len() > 0 && s[0] == '/' {
        let k = lemma_strip_suffix(s.drop_first());
        assert(s.drop_first().subrange(k, s.drop_first().len() as int) =~= s.subrange(
            k + 1,
            s.len() as int,
        ));
        k + 1
    } else {
        assert(s.subrange(0, s.len() as int) =~= s);
        0
    }
}

/// A static file is only ever looked for under `public/`, and its path
/// never holds `..`: a request cannot reach a file outside the web UI's
/// directory. A request path that holds `..` always gets the index.
pub proof fn law_static_files_stay_in_public(path: Seq<char>)
    ensures
        route_spec(path) matches StaticRouteView::File { path: f, .. } ==> f.len() > 7
            && f.subrange(0, 7) == "public/"@ && !contains_seq(f, ".."@),
        contains_seq(path, ".."@) ==> route_spec(path) is Index,
{
    reveal_strlit("public/");
    reveal_strlit("..");
    if route_spec(path) is File {
        let c = strip_slashes(path);
        let k = lemma_strip_suffix(path);
        let f = "public/"@ + c;
        assert(f.subrange(0, 7) =~= "public/"@);
        assert forall|i: int| !occurs_at(f, ".."@, i) by {
            if occurs_at(f, ".."@, i) {
                assert(f.subrange(i, i + 2)[0] == f[i]);
                assert(f.subrange(i, i + 2)[1] == f[i + 1]);
                assert(f[i] == '.' && f[i + 1] == '.');
                if i >= 7 {
                    assert(f[i] == path[k + i - 7]);
                    assert(f[i + 1] == path[k + i - 6]);
                    assert(path.subrange(k + i - 7, k + i - 5) =~= ".."@);
                    assert(occurs_at(path, ".."@, k + i - 7));
                } else {
                    assert(f[6] == '/');
                    assert(f[i] == "public/"@[i]);
                }
            }
        }
    }
}

} // verus!
