//! What the Kubernetes client decides: the API base URL, the request paths
//! and query strings, the request headers, the retry policy of a request and
//! how the startup permission probes are judged. The HTTP exchange itself is
//! done by the application, which hands each answer back as an [`Outcome`].

use vstd::prelude::*;
use crate::text::{contains_seq, contains_str, join2, join3, occurs_at, owned, str_eq};

verus! {

/// An error of the Kubernetes client.
#[derive(Debug)]
pub enum KubeError {
    Api(String),
    NotFound(String),
    InvalidMethod(String),
}

/// The mathematical form of a [`KubeError`].
pub enum KubeErrorView {
    Api(Seq<char>),
    NotFound(Seq<char>),
    InvalidMethod(Seq<char>),
}

impl View for KubeError {
    type V = KubeErrorView;

    open spec fn view(&self) -> KubeErrorView {
        match self {
            KubeError::Api(s) => KubeErrorView::Api(s@),
            KubeError::NotFound(s) => KubeErrorView::NotFound(s@),
            KubeError::InvalidMethod(s) => KubeErrorView::InvalidMethod(s@),
        }
    }
}

/// The text that describes an error (its `Display` form).
pub open spec fn error_text(e: KubeErrorView) -> Seq<char> {
    match e {
        KubeErrorView::Api(s) => "Api error: "@ + s,
        KubeErrorView::NotFound(s) => "Not found: "@ + s,
        KubeErrorView::InvalidMethod(s) => "Invalid HTTP method: "@ + s,
    }
}

impl KubeError {
    /// The text that describes this error.
    pub fn message(&self) -> (m: String)
        ensures
            m@ == error_text(self@),
    {
        match self {
            KubeError::Api(s) => join2("Api error: ", s.as_str()),
            KubeError::NotFound(s) => join2("Not found: ", s.as_str()),
            KubeError::InvalidMethod(s) => join2("Invalid HTTP method: ", s.as_str()),
        }
    }

    /// Whether this is the not-found error.
    pub fn is_not_found(&self) -> (b: bool)
        ensures
            b == (self@ is NotFound),
    {
        match self {
            KubeError::NotFound(_) => true,
            _ => false,
        }
    }
}

// ----------------------------------------------------------------------
// Base URL
// ----------------------------------------------------------------------

/// The API server URL for a service host (empty outside a cluster) and an
/// optional port: plain HTTP on localhost outside a cluster, HTTPS inside,
/// with an IPv6 host in brackets. The port defaults to 8080 outside a cluster
/// and to 443 inside.
pub open spec fn base_url_spec(host: Seq<char>, port: Option<Seq<char>>) -> Seq<char> {
    let p = match port {
        Some(p) => p,
        None => if host.len() == 0 {
            "8080"@
        } else {
            "443"@
        },
    };
    if host.len() == 0 {
        "http://localhost:"@ + p
    } else if contains_seq(host, ":"@) {
        "https://["@ + host + "]:"@ + p
    } else {
        "https://"@ + host + ":"@ + p
    }
}

/// The API server URL from `KUBERNETES_SERVICE_HOST` (empty when unset) and
/// `KUBERNETES_SERVICE_PORT`.
pub fn base_url(host: &str, port: Option<String>) -> (url: String)
    ensures
        url@ == base_url_spec(
            host@,
            match port {
                Some(p) => Some(p@),
                None => None,
            },
        ),
{
    let p = match port {
        Some(p) => p,
        None => if host.is_empty() {
            owned("8080")
        } else {
            owned("443")
        },
    };
    if host.is_empty() {
        join2("http://localhost:", p.as_str())
    } else if contains_str(host, ":") {
        let mut url = join3("https://[", host, "]:");
        url.append(p.as_str());
        url
    } else {
        let mut url = join3("https://", host, ":");
        url.append(p.as_str());
        url
    }
}

/// `base` followed by `path`: the URL of a request.
pub fn request_url(base: &str, path: &str) -> (url: String)
    ensures
        url@ == base@ + path@,
{
    join2(base, path)
}

// ----------------------------------------------------------------------
// Percent-encoding of a label selector
// ----------------------------------------------------------------------

/// Bytes that a label selector keeps as they are in a query string.
pub open spec fn unreserved(b: u8) -> bool {
    ||| 65 <= b <= 90
    ||| 97 <= b <= 122
    ||| 48 <= b <= 57
    ||| b == 45 || b == 95 || b == 46 || b == 126 || b == 61 || b == 33 || b == 40 || b == 41
}

/// The upper-case hexadecimal digit of a value below 16.
pub open spec fn hex_digit(n: u8) -> char {
    if n < 10 {
        (48u8 + n) as char
    } else {
        (55u8 + n) as char
    }
}

/// One byte of a query value: kept when unreserved, else `%XX` in upper case.
pub open spec fn encode_byte(b: u8) -> Seq<char> {
    if unreserved(b) {
        seq![b as char]
    } else {
        seq!['%', hex_digit(b / 16), hex_digit(b % 16)]
    }
}

/// The percent-encoding of a byte sequence.
pub open spec fn url_encoded(bs: Seq<u8>) -> Seq<char>
    decreases bs.len(),
{
    if bs.len() == 0 {
        Seq::empty()
    } else {
        url_encoded(bs.drop_last()) + encode_byte(bs.last())
    }
}

fn hex_char(n: u8) -> (c: char)
    requires
        n < 16,
    ensures
        c == hex_digit(n),
{
    if n < 10 {
        (48u8 + n) as char
    } else {
        (55u8 + n) as char
    }
}

/// Percent-encode a labelSelector value (its UTF-8 bytes) for a query string.
pub fn urlencode(s: &str) -> (out: String)
    ensures
        out@ == url_encoded(vstd::utf8::encode_utf8(s@)),
{
    let bytes = s.as_bytes();
    let mut out = String::new();
    let mut i: usize = 0;
    while i < bytes.len()
        invariant
            bytes@ == vstd::utf8::encode_utf8(s@),
            i <= bytes@.len(),
            out@ == url_encoded(bytes@.subrange(0, i as int)),
        decreases bytes@.len() - i,
    {
        let b = bytes[i];
        let ghost before = out@;
        if (65 <= b && b <= 90) || (97 <= b && b <= 122) || (48 <= b && b <= 57) || b == 45 || b
            == 95 || b == 46 || b == 126 || b == 61 || b == 33 || b == 40 || b == 41 {
            out.push(b as char);
        } else {
            out.push('%');
            out.push(hex_char(b / 16));
            out.push(hex_char(b % 16));
        }
        proof {
            let pre = bytes@.subrange(0, i + 1);
            assert(pre.drop_last() =~= bytes@.subrange(0, i as int));
            assert(pre.last() == b);
            assert(out@ =~= before + encode_byte(b));
        }
        i = i + 1;
    }
    proof {
        assert(bytes@.subrange(0, bytes@.len() as int) =~= bytes@);
    }
    out
}

/// A character that a query value may hold as it is.
pub open spec fn plain_char(c: char) -> bool {
    ||| 'A' <= c <= 'Z'
    ||| 'a' <= c <= 'z'
    ||| '0' <= c <= '9'
    ||| c == '-' || c == '_' || c == '.' || c == '~' || c == '=' || c == '!' || c == '(' || c
        == ')'
}

/// An upper-case hexadecimal digit.
pub open spec fn upper_hex(c: char) -> bool {
    '0' <= c <= '9' || 'A' <= c <= 'F'
}

/// The value of an upper-case hexadecimal digit.
pub open spec fn hex_value(c: char) -> int {
    if '0' <= c <= '9' {
        c as int - 48
    } else {
        c as int - 55
    }
}

/// Percent-decoding: each `%XY` gives the byte `0xXY`, each other
/// character the byte of its code.
pub open spec fn url_decoded(s: Seq<char>) -> Seq<u8>
    decreases s.len(),
{
    if s.len() == 0 {
        Seq::empty()
    } else if s.len() >= 3 && s[s.len() - 3] == '%' {
        url_decoded(s.subrange(0, s.len() - 3)).push(
            (hex_value(s[s.len() - 2]) * 16 + hex_value(s[s.len() - 1])) as u8,
        )
    } else {
        url_decoded(s.drop_last()).push(s.last() as u8)
    }
}

/// Whether every `%` of `s` starts an escape `%XY` with upper-case hex
/// digits, and every other character may stand as it is.
pub open spec fn well_encoded(s: Seq<char>) -> bool {
    forall|i: int|
        0 <= i < s.len() ==> (plain_char(#[trigger] s[i]) || (s[i] == '%' && i + 2 < s.len()
            && upper_hex(s[i + 1]) && upper_hex(s[i + 2])))
}

proof fn lemma_hex_digit(n: u8)
    requires
        n < 16,
    ensures
        upper_hex(hex_digit(n)),
        hex_value(hex_digit(n)) == n,
        hex_digit(n) != '%',
{
}

proof fn lemma_encoded_shape(bs: Seq<u8>)
    ensures
        well_encoded(url_encoded(bs)),
        bs.len() <= url_encoded(bs).len() <= 3 * bs.len(),
        (exists|i: int| 0 <= i < bs.len() && !unreserved(bs[i])) ==> url_encoded(bs).len()
            >= bs.len() + 2,
    decreases bs.len(),
{
    if bs.len() > 0 {
        let p = bs.drop_last();
        let b = bs.last();
        lemma_encoded_shape(p);
        let ep = url_encoded(p);
        let e = encode_byte(b);
        let s = url_encoded(bs);
        assert(s == ep + e);
        if !unreserved(b) {
            lemma_hex_digit(b / 16);
            lemma_hex_digit(b % 16);
        }
        assert forall|i: int| 0 <= i < s.len() implies (plain_char(#[trigger] s[i]) || (s[i]
            == '%' && i + 2 < s.len() && upper_hex(s[i + 1]) && upper_hex(s[i + 2]))) by {
            if i < ep.len() {
                assert(s[i] == ep[i]);
                if !plain_char(ep[i]) {
                    assert(s[i + 1] == ep[i + 1] && s[i + 2] == ep[i + 2]);
                }
            } else {
                assert(s[i] == e[i - ep.len()]);
            }
        }
        if exists|i: int| 0 <= i < bs.len() && !unreserved(bs[i]) {
            if unreserved(b) {
                let i = choose|i: int| 0 <= i < bs.len() && !unreserved(bs[i]);
                assert(i < p.len() && p[i] == bs[i]);
            }
        }
    }
}

/// Percent-encoding keeps every byte that may stand in a query as it is
/// and writes every other as `%XY` in upper-case hexadecimal, so the text
/// is made of the plain characters and such escapes only; it is at least as
/// long as the bytes and at most three times as long; it is the bytes
/// themselves exactly when every byte may stand as it is; and decoding it
/// gives the bytes back.
pub proof fn law_urlencode(bs: Seq<u8>)
    ensures
        well_encoded(url_encoded(bs)),
        bs.len() <= url_encoded(bs).len() <= 3 * bs.len(),
        (forall|i: int| 0 <= i < bs.len() ==> unreserved(#[trigger] bs[i])) <==> url_encoded(bs)
            == bs.map_values(|b: u8| b as char),
        url_decoded(url_encoded(bs)) == bs,
    decreases bs.len(),
{
    lemma_encoded_shape(bs);
    if bs.len() > 0 {
        let p = bs.drop_last();
        let b = bs.last();
        law_urlencode(p);
        let ep = url_encoded(p);
        let e = encode_byte(b);
        let s = url_encoded(bs);
        assert(s == ep + e);
        // Decoding.
        if unreserved(b) {
            if ep.len() >= 2 {
                assert(s[s.len() - 3] == ep[ep.len() - 2]);
                assert(ep[ep.len() - 2] != '%');
            }
            assert(s.drop_last() =~= ep);
            assert((b as char) as u8 == b);
        } else {
            lemma_hex_digit(b / 16);
            lemma_hex_digit(b % 16);
            assert(s.subrange(0, s.len() - 3) =~= ep);
            assert(s[s.len() - 3] == '%');
            assert(s[s.len() - 2] == hex_digit(b / 16));
            assert(s[s.len() - 1] == hex_digit(b % 16));
        }
        assert(url_decoded(s) =~= bs);
        // Identity.
        let m = bs.map_values(|x: u8| x as char);
        let mp = p.map_values(|x: u8| x as char);
        if forall|i: int| 0 <= i < bs.len() ==> unreserved(#[trigger] bs[i]) {
            assert forall|i: int| 0 <= i < p.len() implies unreserved(#[trigger] p[i]) by {
                assert(p[i] == bs[i]);
            }
            assert(ep == mp);
            assert(unreserved(bs[bs.len() - 1]));
            assert(s =~= m);
        }
        if s == m {
            if exists|i: int| 0 <= i < bs.len() && !unreserved(bs[i]) {
                assert(s.len() >= bs.len() + 2);
            }
        }
    } else {
        assert(bs.map_values(|b: u8| b as char) =~= Seq::<char>::empty());
    }
}

// ----------------------------------------------------------------------
// Request paths
// ----------------------------------------------------------------------

/// The query string that selects by label, empty for an empty selector.
pub open spec fn selector_query(label_selector: Seq<char>) -> Seq<char> {
    if label_selector.len() == 0 {
        Seq::empty()
    } else {
        "?labelSelector="@ + url_encoded(vstd::utf8::encode_utf8(label_selector))
    }
}

/// The list URLs of a workload kind: one for the whole cluster when no
/// namespace is configured, else one per namespace, in the given order.
pub open spec fn list_urls_spec(
    kind_plural: Seq<char>,
    namespaces: Seq<Seq<char>>,
    label_selector: Seq<char>,
) -> Seq<Seq<char>> {
    let q = selector_query(label_selector);
    if namespaces.len() == 0 {
        seq!["/apis/apps/v1/"@ + kind_plural + q]
    } else {
        namespaces.map_values(
            |ns: Seq<char>| "/apis/apps/v1/namespaces/"@ + ns + "/"@ + kind_plural + q,
        )
    }
}

/// The views of a vector of strings.
pub open spec fn views(v: Seq<String>) -> Seq<Seq<char>> {
    v.map_values(|s: String| s@)
}

/// The list URLs of a workload kind.
pub fn list_urls(kind_plural: &str, namespaces: &Vec<String>, label_selector: &str) -> (urls: Vec<
    String,
>)
    ensures
        views(urls@) == list_urls_spec(kind_plural@, views(namespaces@), label_selector@),
{
    let query = if label_selector.is_empty() {
        String::new()
    } else {
        let enc = urlencode(label_selector);
        join2("?labelSelector=", enc.as_str())
    };
    let mut urls: Vec<String> = Vec::new();
    if namespaces.len() == 0 {
        let mut u = join2("/apis/apps/v1/", kind_plural);
        u.append(query.as_str());
        urls.push(u);
        assert(views(urls@) =~= list_urls_spec(
            kind_plural@,
            views(namespaces@),
            label_selector@,
        ));
        return urls;
    }
    let mut i: usize = 0;
    while i < namespaces.len()
        invariant
            i <= namespaces.len(),
            query@ == selector_query(label_selector@),
            urls@.len() == i,
            forall|k: int|
                0 <= k < i ==> #[trigger] urls@[k]@ == "/apis/apps/v1/namespaces/"@
                    + namespaces@[k]@ + "/"@ + kind_plural@ + query@,
        decreases namespaces.len() - i,
    {
        let mut u = join3("/apis/apps/v1/namespaces/", namespaces[i].as_str(), "/");
        u.append(kind_plural);
        u.append(query.as_str());
        urls.push(u);
        i = i + 1;
    }
    assert(views(urls@) =~= list_urls_spec(kind_plural@, views(namespaces@), label_selector@));
    urls
}

/// The plural resource name of a workload kind: `statefulsets` for
/// `StatefulSet`, `deployments` for anything else.
pub open spec fn kind_plural(kind: Seq<char>) -> Seq<char> {
    if kind == "StatefulSet"@ {
        "statefulsets"@
    } else {
        "deployments"@
    }
}

/// The scale subresource path of a workload.
pub open spec fn scale_path_spec(ns: Seq<char>, name: Seq<char>, kind: Seq<char>) -> Seq<char> {
    "/apis/apps/v1/namespaces/"@ + ns + "/"@ + kind_plural(kind) + "/"@ + name + "/scale"@
}

/// The scale subresource path of a workload.
pub fn scale_path(ns: &str, name: &str, kind: &str) -> (path: String)
    ensures
        path@ == scale_path_spec(ns@, name@, kind@),
{
    let plural = if str_eq(kind, "StatefulSet") {
        "statefulsets"
    } else {
        "deployments"
    };
    let mut path = join3("/apis/apps/v1/namespaces/", ns, "/");
    path.append(plural);
    path.append("/");
    path.append(name);
    path.append("/scale");
    path
}

/// A workload is scaled through the collection that discovery lists it
/// from: the scale path of a workload is the namespace list path of its
/// kind's resource, followed by `/`, its name and `/scale`.
pub proof fn law_scale_path_under_listing(ns: Seq<char>, name: Seq<char>, kind: Seq<char>)
    ensures
        scale_path_spec(ns, name, kind) == list_urls_spec(kind_plural(kind), seq![ns], Seq::empty())[0]
            + "/"@ + name + "/scale"@,
        kind == "StatefulSet"@ ==> kind_plural(kind) == "statefulsets"@,
        kind != "StatefulSet"@ ==> kind_plural(kind) == "deployments"@,
{
    let q = selector_query(Seq::<char>::empty());
    assert(q =~= Seq::<char>::empty());
    let u = "/apis/apps/v1/namespaces/"@ + ns + "/"@ + kind_plural(kind) + q;
    assert(seq![ns].map_values(
        |n: Seq<char>| "/apis/apps/v1/namespaces/"@ + n + "/"@ + kind_plural(kind) + q,
    )[0] == u);
    assert(u =~= "/apis/apps/v1/namespaces/"@ + ns + "/"@ + kind_plural(kind));
    assert(scale_path_spec(ns, name, kind) =~= u + "/"@ + name + "/scale"@);
}

/// The path of a ConfigMap.
pub fn configmap_path(ns: &str, name: &str) -> (path: String)
    ensures
        path@ == "/api/v1/namespaces/"@ + ns@ + "/configmaps/"@ + name@,
{
    let mut path = join3("/api/v1/namespaces/", ns, "/configmaps/");
    path.append(name);
    path
}

/// The path that creates a ConfigMap in a namespace.
pub fn configmaps_path(ns: &str) -> (path: String)
    ensures
        path@ == "/api/v1/namespaces/"@ + ns@ + "/configmaps"@,
{
    join3("/api/v1/namespaces/", ns, "/configmaps")
}

// ----------------------------------------------------------------------
// Request headers
// ----------------------------------------------------------------------

/// The content type of a request body: a merge patch for `PATCH`, plain
/// JSON for every other method.
pub open spec fn content_type_spec(method: Seq<char>) -> Seq<char> {
    if method == "PATCH"@ {
        "application/merge-patch+json"@
    } else {
        "application/json"@
    }
}

/// The headers of a request: the bearer token when there is one, and the
/// content type when there is a body.
pub open spec fn request_headers_spec(
    method: Seq<char>,
    token: Option<Seq<char>>,
    has_body: bool,
) -> Seq<(Seq<char>, Seq<char>)> {
    let auth: Seq<(Seq<char>, Seq<char>)> = match token {
        Some(t) => seq![("Authorization"@, "Bearer "@ + t)],
        None => Seq::empty(),
    };
    let ct: Seq<(Seq<char>, Seq<char>)> = if has_body {
        seq![("Content-Type"@, content_type_spec(method))]
    } else {
        Seq::empty()
    };
    auth + ct
}

/// The views of a vector of string pairs.
pub open spec fn pair_views(v: Seq<(String, String)>) -> Seq<(Seq<char>, Seq<char>)> {
    v.map_values(|p: (String, String)| (p.0@, p.1@))
}

/// The headers that a request carries.
pub fn request_headers(method: &str, token: &Option<String>, has_body: bool) -> (h: Vec<
    (String, String),
>)
    ensures
        pair_views(h@) == request_headers_spec(
            method@,
            match token {
                Some(t) => Some(t@),
                None => None,
            },
            has_body,
        ),
{
    let mut h: Vec<(String, String)> = Vec::new();
    match token {
        Some(t) => {
            h.push((owned("Authorization"), join2("Bearer ", t.as_str())));
        },
        None => {},
    }
    if has_body {
        let ct = if str_eq(method, "PATCH") {
            "application/merge-patch+json"
        } else {
            "application/json"
        };
        h.push((owned("Content-Type"), owned(ct)));
    }
    assert(pair_views(h@) =~= request_headers_spec(
        method@,
        match token {
            Some(t) => Some(t@),
            None => None,
        },
        has_body,
    ));
    h
}

/// The error of a method name that is not a valid HTTP method.
pub fn invalid_method(method: &str) -> (e: KubeError)
    ensures
        e@ == KubeErrorView::InvalidMethod("Invalid HTTP method: "@ + method@),
{
    KubeError::InvalidMethod(join2("Invalid HTTP method: ", method))
}

// ----------------------------------------------------------------------
// Retry policy
// ----------------------------------------------------------------------

/// How many times a request is tried.
pub const MAX_RETRIES: u32 = 3;

/// What one attempt of a request gave.
pub enum Outcome {
    /// The server answered with a status code and the body, or the error
    /// that reading the body gave.
    Reply { status: u16, body: Result<String, String> },
    /// The request could not be made.
    Failed(KubeError),
}

/// What a request does after an attempt.
pub enum Step {
    /// It ends with this result.
    Finish(Result<String, KubeError>),
    /// It waits this many seconds and tries again.
    RetryAfter(u64),
}

/// The mathematical form of an [`Outcome`].
pub enum OutcomeView {
    Reply { status: u16, body: Result<Seq<char>, Seq<char>> },
    Failed(KubeErrorView),
}

/// The mathematical form of a [`Step`].
pub enum StepView {
    Finish(Result<Seq<char>, KubeErrorView>),
    RetryAfter(u64),
}

impl View for Outcome {
    type V = OutcomeView;

    open spec fn view(&self) -> OutcomeView {
        match self {
            Outcome::Reply { status, body } => OutcomeView::Reply {
                status: *status,
                body: match body {
                    Ok(t) => Ok(t@),
                    Err(e) => Err(e@),
                },
            },
            Outcome::Failed(e) => OutcomeView::Failed(e@),
        }
    }
}

impl View for Step {
    type V = StepView;

    open spec fn view(&self) -> StepView {
        match self {
            Step::Finish(r) => StepView::Finish(
                match r {
                    Ok(t) => Ok(t@),
                    Err(e) => Err(e@),
                },
            ),
            Step::RetryAfter(d) => StepView::RetryAfter(*d),
        }
    }
}

/// The decimal digits of a number.
pub open spec fn decimal(n: nat) -> Seq<char>
    decreases n,
{
    if n < 10 {
        seq![(48 + n) as char]
    } else {
        decimal(n / 10).push((48 + n % 10) as char)
    }
}

/// Append the decimal digits of `n`.
fn push_decimal(out: &mut String, n: u16)
    ensures
        final(out)@ == old(out)@ + decimal(n as nat),
    decreases n,
{
    if n >= 10 {
        push_decimal(out, n / 10);
    }
    out.push(((48 + n % 10) as u8) as char);
    proof {
        assert(final(out)@ =~= old(out)@ + decimal(n as nat));
    }
}

/// The reason phrase that the `http` crate gives a status code, if it has
/// one.
pub uninterp spec fn canonical_reason(code: u16) -> Option<Seq<char>>;

/// Calls `reqwest::StatusCode::from_u16` (which accepts every code from 100
/// to 999) and `StatusCode::canonical_reason`; the contract names the
/// phrase and claims nothing more of it.
#[verifier::external_body]
fn reason_phrase(code: u16) -> (r: Option<String>)
    requires
        100 <= code <= 999,
    ensures
        match r {
            Some(s) => canonical_reason(code) == Some(s@),
            None => canonical_reason(code) is None,
        },
{
    reqwest::StatusCode::from_u16(code).ok().and_then(|c| c.canonical_reason()).map(String::from)
}

/// The text of a status code as `http` shows it: the code, a space and its
/// reason phrase (`<unknown status code>` when it has none).
pub open spec fn status_line_spec(code: u16) -> Seq<char> {
    decimal(code as nat) + " "@ + match canonical_reason(code) {
        Some(r) => r,
        None => "<unknown status code>"@,
    }
}

/// The text of a status code, such as `403 Forbidden`.
pub fn status_line(code: u16) -> (s: String)
    requires
        100 <= code <= 999,
    ensures
        s@ == status_line_spec(code),
{
    let mut s = String::new();
    let ghost e = s@;
    push_decimal(&mut s, code);
    proof {
        assert(e + decimal(code as nat) =~= decimal(code as nat));
    }
    s.append(" ");
    match reason_phrase(code) {
        Some(r) => s.append(r.as_str()),
        None => s.append("<unknown status code>"),
    }
    s
}

/// The wait before the next attempt: one second after the first attempt,
/// doubling after each further one.
pub open spec fn retry_delay(attempt: u32) -> u64 {
    1u64 << attempt
}

/// The body of an error reply, empty when it could not be read.
pub open spec fn body_or_empty(body: Result<Seq<char>, Seq<char>>) -> Seq<char> {
    match body {
        Ok(t) => t,
        Err(_) => Seq::empty(),
    }
}

/// The retry policy: after attempt `attempt` (counted from 0) of a request
/// on `path` gave `o`, what the request does.
/// - 404 ends the request with the not-found error, at once;
/// - 429 is retried while attempts remain, then ends as rate limited;
/// - another 4xx ends the request with a client error, at once;
/// - a 5xx is retried while attempts remain, then ends as a server error;
/// - any other status ends the request with its body (or the error of
///   reading it);
/// - a request that could not be made is retried while attempts remain.
pub open spec fn decide(attempt: u32, path: Seq<char>, o: OutcomeView) -> StepView {
    let more = attempt + 1 < MAX_RETRIES;
    match o {
        OutcomeView::Reply { status, body } => {
            let status_line = status_line_spec(status);
            if status == 404 {
                StepView::Finish(Err(KubeErrorView::NotFound("Resource not found at "@ + path)))
            } else if status == 429 {
                if more {
                    StepView::RetryAfter(retry_delay(attempt))
                } else {
                    StepView::Finish(
                        Err(
                            KubeErrorView::Api(
                                "Rate limited on "@ + path + " after 3 retries"@,
                            ),
                        ),
                    )
                }
            } else if 400 <= status <= 499 {
                StepView::Finish(
                    Err(
                        KubeErrorView::Api(
                            "Client error "@ + status_line + " on "@ + path + ": "@
                                + body_or_empty(body),
                        ),
                    ),
                )
            } else if 500 <= status <= 599 {
                if more {
                    StepView::RetryAfter(retry_delay(attempt))
                } else {
                    StepView::Finish(
                        Err(
                            KubeErrorView::Api(
                                "Server error "@ + status_line + " on "@ + path + ": "@
                                    + body_or_empty(body),
                            ),
                        ),
                    )
                }
            } else {
                match body {
                    Ok(t) => StepView::Finish(Ok(t)),
                    Err(e) => StepView::Finish(Err(KubeErrorView::Api(e))),
                }
            }
        },
        OutcomeView::Failed(e) => {
            if more {
                StepView::RetryAfter(retry_delay(attempt))
            } else {
                StepView::Finish(
                    Err(
                        KubeErrorView::Api(
                            "Request failed after 3 retries for "@ + path + ": "@ + error_text(e),
                        ),
                    ),
                )
            }
        },
    }
}

/// The error text of a reply with a failure status.
fn status_error(kind: &str, status_line: &str, path: &str, body: &Result<String, String>) -> (m:
    String)
    ensures
        m@ == kind@ + status_line@ + " on "@ + path@ + ": "@ + body_or_empty(
            match body {
                Ok(t) => Ok(t@),
                Err(e) => Err(e@),
            },
        ),
{
    let mut m = join3(kind, status_line, " on ");
    m.append(path);
    m.append(": ");
    match body {
        Ok(t) => {
            m.append(t.as_str());
        },
        Err(_) => {},
    }
    m
}

/// Decide what a request on `path` does after attempt `attempt` gave
/// `outcome`.
pub fn next_step(attempt: u32, path: &str, outcome: Outcome) -> (step: Step)
    requires
        attempt < MAX_RETRIES,
        outcome matches Outcome::Reply { status, .. } ==> 100 <= status <= 999,
    ensures
        step@ == decide(attempt, path@, outcome@),
{
    let more = attempt + 1 < MAX_RETRIES;
    match outcome {
        Outcome::Reply { status, body } => {
            let status_line = status_line(status);
            if status == 404 {
                Step::Finish(Err(KubeError::NotFound(join2("Resource not found at ", path))))
            } else if status == 429 {
                if more {
                    Step::RetryAfter(1u64 << attempt)
                } else {
                    Step::Finish(
                        Err(KubeError::Api(join3("Rate limited on ", path, " after 3 retries"))),
                    )
                }
            } else if 400 <= status && status <= 499 {
                Step::Finish(
                    Err(
                        KubeError::Api(
                            status_error("Client error ", status_line.as_str(), path, &body),
                        ),
                    ),
                )
            } else if 500 <= status && status <= 599 {
                if more {
                    Step::RetryAfter(1u64 << attempt)
                } else {
                    Step::Finish(
                        Err(
                            KubeError::Api(
                                status_error("Server error ", status_line.as_str(), path, &body),
                            ),
                        ),
                    )
                }
            } else {
                match body {
                    Ok(t) => Step::Finish(Ok(t)),
                    Err(e) => Step::Finish(Err(KubeError::Api(e))),
                }
            }
        },
        Outcome::Failed(e) => {
            if more {
                Step::RetryAfter(1u64 << attempt)
            } else {
                let mut m = join3("Request failed after 3 retries for ", path, ": ");
                let t = e.message();
                m.append(t.as_str());
                Step::Finish(Err(KubeError::Api(m)))
            }
        },
    }
}

/// A request ends at its last attempt whatever that attempt gave: no more
/// than `MAX_RETRIES` attempts are ever made.
pub proof fn lemma_last_attempt_finishes(path: Seq<char>, o: OutcomeView)
    ensures
        decide((MAX_RETRIES - 1) as u32, path, o) is Finish,
{
}

/// A request is only ever retried after a rate limit, a server error or a
/// failure to send; the wait is one second after the first attempt and two
/// after the second.
pub proof fn lemma_retry_only_transient(attempt: u32, path: Seq<char>, o: OutcomeView)
    requires
        attempt < MAX_RETRIES,
    ensures
        decide(attempt, path, o) is RetryAfter ==> {
            &&& attempt + 1 < MAX_RETRIES
            &&& match o {
                OutcomeView::Reply { status, .. } => status == 429 || 500 <= status <= 599,
                OutcomeView::Failed(_) => true,
            }
        },
        decide(attempt, path, o) matches StepView::RetryAfter(d) ==> (attempt == 0 && d == 1) || (
        attempt == 1 && d == 2),
{
    assert(1u64 << 0u32 == 1) by (bit_vector);
    assert(1u64 << 1u32 == 2) by (bit_vector);
}

/// A missing resource is never retried and is the only reply that gives the
/// not-found error.
pub proof fn lemma_not_found_is_final(attempt: u32, path: Seq<char>, o: OutcomeView)
    ensures
        (o matches OutcomeView::Reply { status, .. } && status == 404) <==> (decide(
            attempt,
            path,
            o,
        ) matches StepView::Finish(Err(KubeErrorView::NotFound(_)))),
{
}

/// Any answer that is neither a client nor a server error (in particular
/// every 2xx, such as 201 Created) ends the request at once with its body,
/// whatever the attempt and the path; a body that cannot be read ends it
/// with an API error holding the reason.
pub proof fn law_success_returns_body(attempt: u32, path: Seq<char>, status: u16, body: Result<Seq<char>, Seq<char>>)
    requires
        100 <= status <= 399,
    ensures
        decide(attempt, path, OutcomeView::Reply { status, body }) == match body {
            Ok(t) => StepView::Finish(Ok(t)),
            Err(e) => StepView::Finish(Err(KubeErrorView::Api(e))),
        },
{
}

/// A request never succeeds on a client or server error (400 to 599); when
/// it succeeds, it is with the body that was read.
pub proof fn law_no_success_on_error_status(attempt: u32, path: Seq<char>, o: OutcomeView)
    ensures
        decide(attempt, path, o) matches StepView::Finish(Ok(t)) ==> (o matches OutcomeView::Reply {
            status,
            body,
        } && !(400 <= status <= 599) && body == Ok::<Seq<char>, Seq<char>>(t)),
{
}

/// A 403 reply ends the request at once with an API error that names the
/// status, so the startup probes judge it a missing permission, whatever
/// the attempt, the path and the body.
pub proof fn law_forbidden_is_missing_permission(
    attempt: u32,
    path: Seq<char>,
    body: Result<Seq<char>, Seq<char>>,
)
    ensures
        decide(attempt, path, OutcomeView::Reply { status: 403, body }) matches StepView::Finish(
            r,
        ) && rbac_verdict_spec(r) == RbacVerdict::Missing,
{
    reveal_strlit("403");
    reveal_strlit("Client error ");
    reveal_with_fuel(decimal, 3);
    assert(decimal(403) =~= "403"@);
    let m = "Client error "@ + status_line_spec(403) + " on "@ + path + ": "@ + body_or_empty(body);
    assert(m.subrange(13, 16) =~= "403"@);
    assert(occurs_at(m, "403"@, 13));
}

// ----------------------------------------------------------------------
// Response bodies
// ----------------------------------------------------------------------

/// What `serde_json` makes of a text at a JSON pointer: the text of its
/// error when the text is not JSON, else the string that the pointer finds,
/// if it finds one.
pub uninterp spec fn json_string_at(text: Seq<char>, pointer: Seq<char>) -> Result<
    Option<Seq<char>>,
    Seq<char>,
>;

/// Calls `serde_json::from_str` into a `serde_json::Value`, then
/// `Value::pointer` and `Value::as_str`; the error is shown with its
/// `Display`. The contract names what comes back and claims nothing more.
#[verifier::external_body]
pub(crate) fn read_json_string(text: &str, pointer: &str) -> (r: Result<Option<String>, String>)
    ensures
        match r {
            Ok(Some(s)) => json_string_at(text@, pointer@) == Ok::<_, Seq<char>>(Some(s@)),
            Ok(None) => json_string_at(text@, pointer@) == Ok::<_, Seq<char>>(None::<Seq<char>>),
            Err(e) => json_string_at(text@, pointer@) == Err::<Option<Seq<char>>, _>(e@),
        },
{
    match serde_json::from_str::<serde_json::Value>(text) {
        Err(e) => Err(e.to_string()),
        Ok(v) => Ok(v.pointer(pointer).and_then(|x| x.as_str()).map(String::from)),
    }
}

/// Check that a response body is JSON, as every answer of the API server
/// must be: an API error with the parser's message when it is not.
pub fn check_response(text: &str) -> (r: Result<(), KubeError>)
    ensures
        match r {
            Ok(_) => json_string_at(text@, ""@) is Ok,
            Err(e) => json_string_at(text@, ""@) matches Err(m) && e@ == KubeErrorView::Api(m),
        },
{
    match read_json_string(text, "") {
        Ok(_) => Ok(()),
        Err(m) => Err(KubeError::Api(m)),
    }
}

/// Whether a failed write of a ConfigMap should create it instead: only
/// when the ConfigMap does not exist yet.
pub fn needs_create<T>(patch: &Result<T, KubeError>) -> (b: bool)
    ensures
        b == (patch matches Err(e) && e@ is NotFound),
{
    match patch {
        Err(e) => e.is_not_found(),
        Ok(_) => false,
    }
}

// ----------------------------------------------------------------------
// Startup permission probes
// ----------------------------------------------------------------------

/// The permission probes made at startup: a name and the path that is read.
pub open spec fn rbac_checks_spec(
    state_namespace: Seq<char>,
    state_configmap: Seq<char>,
    namespaces: Seq<Seq<char>>,
) -> Seq<(Seq<char>, Seq<char>)> {
    let base = seq![
        ("list Deployments"@, "/apis/apps/v1/deployments"@),
        ("list StatefulSets"@, "/apis/apps/v1/statefulsets"@),
        ("list Pods"@, "/api/v1/pods"@),
        ("list PVCs"@, "/api/v1/persistentvolumeclaims"@),
        (
            "state ConfigMap"@,
            "/api/v1/namespaces/"@ + state_namespace + "/configmaps/"@ + state_configmap,
        ),
    ];
    if namespaces.len() == 0 {
        base
    } else {
        base.push(
            (
                "list Deployments in namespace"@,
                "/apis/apps/v1/namespaces/"@ + namespaces[0] + "/deployments"@,
            ),
        )
    }
}

/// The permission probes made at startup.
pub fn rbac_checks(state_namespace: &str, state_configmap: &str, namespaces: &Vec<String>) -> (c:
    Vec<(String, String)>)
    ensures
        pair_views(c@) == rbac_checks_spec(state_namespace@, state_configmap@, views(namespaces@)),
{
    let mut c: Vec<(String, String)> = Vec::new();
    c.push((owned("list Deployments"), owned("/apis/apps/v1/deployments")));
    c.push((owned("list StatefulSets"), owned("/apis/apps/v1/statefulsets")));
    c.push((owned("list Pods"), owned("/api/v1/pods")));
    c.push((owned("list PVCs"), owned("/api/v1/persistentvolumeclaims")));
    c.push((owned("state ConfigMap"), configmap_path(state_namespace, state_configmap)));
    if namespaces.len() > 0 {
        c.push(
            (
                owned("list Deployments in namespace"),
                join3("/apis/apps/v1/namespaces/", namespaces[0].as_str(), "/deployments"),
            ),
        );
    }
    assert(pair_views(c@) =~= rbac_checks_spec(
        state_namespace@,
        state_configmap@,
        views(namespaces@),
    ));
    c
}

/// Each startup probe reads what it names: the Deployment, StatefulSet,
/// Pod and PVC probes read the cluster-wide lists of those resources (the
/// workload ones are exactly the paths discovery lists without namespaces
/// or selector), the state probe reads the state ConfigMap, and the
/// namespace probe reads the Deployments of the first configured namespace.
pub proof fn law_probes_read_what_they_name(
    state_namespace: Seq<char>,
    state_configmap: Seq<char>,
    namespaces: Seq<Seq<char>>,
)
    ensures
        ({
            let c = rbac_checks_spec(state_namespace, state_configmap, namespaces);
            &&& c.len() == if namespaces.len() == 0 {
                5int
            } else {
                6int
            }
            &&& c[0] == ("list Deployments"@, list_urls_spec("deployments"@, Seq::empty(), Seq::empty())[0])
            &&& c[1] == ("list StatefulSets"@, list_urls_spec("statefulsets"@, Seq::empty(), Seq::empty())[0])
            &&& c[0].1 == "/apis/apps/v1/deployments"@
            &&& c[1].1 == "/apis/apps/v1/statefulsets"@
            &&& c[2] == ("list Pods"@, "/api/v1/pods"@)
            &&& c[3] == ("list PVCs"@, "/api/v1/persistentvolumeclaims"@)
            &&& c[4] == ("state ConfigMap"@, "/api/v1/namespaces/"@ + state_namespace + "/configmaps/"@ + state_configmap)
            &&& namespaces.len() > 0 ==> c[5] == (
                "list Deployments in namespace"@,
                list_urls_spec("deployments"@, seq![namespaces[0]], Seq::empty())[0],
            )
        }),
{
    reveal_strlit("/apis/apps/v1/");
    reveal_strlit("deployments");
    reveal_strlit("statefulsets");
    reveal_strlit("/apis/apps/v1/deployments");
    reveal_strlit("/apis/apps/v1/statefulsets");
    reveal_strlit("/apis/apps/v1/namespaces/");
    reveal_strlit("/");
    reveal_strlit("/deployments");
    assert("/apis/apps/v1/"@ + "deployments"@ + Seq::<char>::empty() =~= "/apis/apps/v1/deployments"@);
    assert("/apis/apps/v1/"@ + "statefulsets"@ + Seq::<char>::empty() =~= "/apis/apps/v1/statefulsets"@);
    if namespaces.len() > 0 {
        let ns = seq![namespaces[0]];
        assert(ns.map_values(
            |n: Seq<char>| "/apis/apps/v1/namespaces/"@ + n + "/"@ + "deployments"@ + Seq::<char>::empty(),
        )[0] == "/apis/apps/v1/namespaces/"@ + namespaces[0] + "/"@ + "deployments"@ + Seq::<char>::empty());
        assert("/apis/apps/v1/namespaces/"@ + namespaces[0] + "/"@ + "deployments"@ + Seq::<char>::empty()
            =~= "/apis/apps/v1/namespaces/"@ + namespaces[0] + "/deployments"@);
    }
}

/// How a permission probe went.
#[derive(Debug, Clone, Copy, PartialEq, Eq, Structural)]
pub enum RbacVerdict {
    /// The path could be read.
    Granted,
    /// The API refused the request with 403.
    Missing,
    /// The resource does not exist.
    NotFound,
    /// Any other failure.
    Skipped,
}

/// The verdict on a probe: an API error whose text holds `403` is a missing
/// permission.
pub open spec fn rbac_verdict_spec(r: Result<Seq<char>, KubeErrorView>) -> RbacVerdict {
    match r {
        Ok(_) => RbacVerdict::Granted,
        Err(KubeErrorView::Api(m)) => if contains_seq(m, "403"@) {
            RbacVerdict::Missing
        } else {
            RbacVerdict::Skipped
        },
        Err(KubeErrorView::NotFound(_)) => RbacVerdict::NotFound,
        Err(KubeErrorView::InvalidMethod(_)) => RbacVerdict::Skipped,
    }
}

/// Judge the result of a permission probe.
pub fn rbac_verdict(r: &Result<String, KubeError>) -> (v: RbacVerdict)
    ensures
        v == rbac_verdict_spec(
            match r {
                Ok(t) => Ok(t@),
                Err(e) => Err(e@),
            },
        ),
{
    match r {
        Ok(_) => RbacVerdict::Granted,
        Err(KubeError::Api(m)) => if contains_str(m.as_str(), "403") {
            RbacVerdict::Missing
        } else {
            RbacVerdict::Skipped
        },
        Err(KubeError::NotFound(_)) => RbacVerdict::NotFound,
        Err(KubeError::InvalidMethod(_)) => RbacVerdict::Skipped,
    }
}

} // verus!
