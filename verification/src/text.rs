//! Text helpers with a specification over `Seq<char>`: building strings
//! character by character, trimming Unicode white space, ASCII lower-casing,
//! splitting at a separator and searching for a substring.

use vstd::prelude::*;

verus! {

/// `String::push` appends one character.
pub assume_specification[ String::push ](string: &mut String, ch: char)
    ensures
        final(string)@ == old(string)@.push(ch),
;

/// The characters of the Unicode `White_Space` property, which is what
/// `char::is_whitespace` (and hence `str::trim`) removes.
pub open spec fn is_whitespace(c: char) -> bool {
    let u = c as u32;
    ||| 0x9 <= u <= 0xd
    ||| u == 0x20
    ||| u == 0x85
    ||| u == 0xa0
    ||| u == 0x1680
    ||| 0x2000 <= u <= 0x200a
    ||| u == 0x2028
    ||| u == 0x2029
    ||| u == 0x202f
    ||| u == 0x205f
    ||| u == 0x3000
}

/// `s` without its leading white space.
pub open spec fn trim_start(s: Seq<char>) -> Seq<char>
    decreases s.len(),
{
    if s.len() > 0 && is_whitespace(s[0]) {
        trim_start(s.drop_first())
    } else {
        s
    }
}

/// `s` without its trailing white space.
pub open spec fn trim_end(s: Seq<char>) -> Seq<char>
    decreases s.len(),
{
    if s.len() > 0 && is_whitespace(s.last()) {
        trim_end(s.drop_last())
    } else {
        s
    }
}

/// `s` without leading and trailing white space, as `str::trim` gives it.
pub open spec fn trim(s: Seq<char>) -> Seq<char> {
    trim_end(trim_start(s))
}

proof fn lemma_trim_start_clean(s: Seq<char>)
    ensures
        !(trim_start(s).len() > 0 && is_whitespace(trim_start(s)[0])),
    decreases s.len(),
{
    if s.len() > 0 && is_whitespace(s[0]) {
        lemma_trim_start_clean(s.drop_first());
    }
}

proof fn lemma_trim_end_clean(s: Seq<char>)
    ensures
        !(trim_end(s).len() > 0 && is_whitespace(trim_end(s).last())),
    decreases s.len(),
{
    if s.len() > 0 && is_whitespace(s.last()) {
        lemma_trim_end_clean(s.drop_last());
    }
}

proof fn lemma_trim_end_prefix(s: Seq<char>)
    ensures
        trim_end(s).len() <= s.len(),
        trim_end(s) == s.subrange(0, trim_end(s).len() as int),
    decreases s.len(),
{
    if s.len() > 0 && is_whitespace(s.last()) {
        lemma_trim_end_prefix(s.drop_last());
        assert(s.drop_last().subrange(0, trim_end(s).len() as int) =~= s.subrange(
            0,
            trim_end(s).len() as int,
        ));
    } else {
        assert(s.subrange(0, s.len() as int) =~= s);
    }
}

/// Trimming twice is trimming once.
pub proof fn lemma_trim_idempotent(s: Seq<char>)
    ensures
        trim(trim(s)) == trim(s),
{
    let y = trim_start(s);
    let z = trim_end(y);
    lemma_trim_start_clean(s);
    lemma_trim_end_prefix(y);
    lemma_trim_end_clean(y);
    if z.len() > 0 {
        assert(z[0] == y[0]);
    }
    assert(trim_start(z) == z);
    assert(trim_end(z) == z);
}

proof fn lemma_lower_keeps_whitespace(c: char)
    ensures
        is_whitespace(ascii_lower(c)) == is_whitespace(c),
{
}

proof fn lemma_trim_start_lower(s: Seq<char>)
    ensures
        trim_start(ascii_lowercase(s)) == ascii_lowercase(trim_start(s)),
    decreases s.len(),
{
    let l = ascii_lowercase(s);
    if s.len() > 0 {
        lemma_lower_keeps_whitespace(s[0]);
        assert(l[0] == ascii_lower(s[0]));
        if is_whitespace(s[0]) {
            assert(l.drop_first() =~= ascii_lowercase(s.drop_first()));
            lemma_trim_start_lower(s.drop_first());
        }
    }
}

proof fn lemma_trim_end_lower(s: Seq<char>)
    ensures
        trim_end(ascii_lowercase(s)) == ascii_lowercase(trim_end(s)),
    decreases s.len(),
{
    let l = ascii_lowercase(s);
    if s.len() > 0 {
        lemma_lower_keeps_whitespace(s.last());
        assert(l.last() == ascii_lower(s.last()));
        if is_whitespace(s.last()) {
            assert(l.drop_last() =~= ascii_lowercase(s.drop_last()));
            lemma_trim_end_lower(s.drop_last());
        }
    }
}

/// Trimming and ASCII lower-casing can be done in either order.
pub proof fn lemma_trim_lower_commute(s: Seq<char>)
    ensures
        trim(ascii_lowercase(s)) == ascii_lowercase(trim(s)),
{
    lemma_trim_start_lower(s);
    lemma_trim_end_lower(trim_start(s));
}

/// Lower-casing twice is lower-casing once.
pub proof fn lemma_lower_idempotent(s: Seq<char>)
    ensures
        ascii_lowercase(ascii_lowercase(s)) == ascii_lowercase(s),
{
    assert(ascii_lowercase(ascii_lowercase(s)) =~= ascii_lowercase(s));
}

/// The ASCII lower-case form of one character; other characters are kept.
pub open spec fn ascii_lower(c: char) -> char {
    if 'A' <= c <= 'Z' {
        ((c as u8) + 32u8) as char
    } else {
        c
    }
}

/// `str::to_ascii_lowercase` on a whole sequence.
pub open spec fn ascii_lowercase(s: Seq<char>) -> Seq<char> {
    s.map_values(|c: char| ascii_lower(c))
}

/// Whether `needle` occurs in `hay` at position `i`.
pub open spec fn occurs_at(hay: Seq<char>, needle: Seq<char>, i: int) -> bool {
    0 <= i && i + needle.len() <= hay.len() && hay.subrange(i, i + needle.len()) == needle
}

/// Whether `needle` occurs anywhere in `hay` (`str::contains`).
pub open spec fn contains_seq(hay: Seq<char>, needle: Seq<char>) -> bool {
    exists|i: int| occurs_at(hay, needle, i)
}

/// Whether `c` occurs in `s`.
pub open spec fn has_char(s: Seq<char>, c: char) -> bool {
    exists|i: int| 0 <= i < s.len() && s[i] == c
}

/// Index of the first occurrence of `c` in `s`, if any.
pub open spec fn first_index_of(s: Seq<char>, c: char) -> Option<int>
    decreases s.len(),
{
    if s.len() == 0 {
        None
    } else if s[0] == c {
        Some(0)
    } else {
        match first_index_of(s.drop_first(), c) {
            Some(i) => Some(i + 1),
            None => None,
        }
    }
}

pub proof fn lemma_first_index_of(s: Seq<char>, c: char)
    ensures
        first_index_of(s, c) matches Some(i) ==> 0 <= i < s.len() && s[i] == c && forall|k: int|
            0 <= k < i ==> s[k] != c,
        first_index_of(s, c) is None ==> forall|k: int| 0 <= k < s.len() ==> s[k] != c,
    decreases s.len(),
{
    if s.len() > 0 && s[0] != c {
        lemma_first_index_of(s.drop_first(), c);
        assert forall|k: int| 0 < k < s.len() implies s[k] == s.drop_first()[k - 1] by {}
    }
}

/// Exact characterisation of `first_index_of`.
pub proof fn lemma_first_index_of_exact(s: Seq<char>, c: char, i: int)
    requires
        0 <= i < s.len(),
        s[i] == c,
        forall|k: int| 0 <= k < i ==> s[k] != c,
    ensures
        first_index_of(s, c) == Some(i),
    decreases i,
{
    if i > 0 {
        lemma_first_index_of_exact(s.drop_first(), c, i - 1);
    }
}

pub proof fn lemma_no_index(s: Seq<char>, c: char)
    requires
        forall|k: int| 0 <= k < s.len() ==> s[k] != c,
    ensures
        first_index_of(s, c) is None,
    decreases s.len(),
{
    if s.len() > 0 {
        lemma_no_index(s.drop_first(), c);
    }
}

/// The characters of a string slice, in order.
pub fn chars_of(s: &str) -> (out: Vec<char>)
    ensures
        out@ == s@,
{
    let n = s.unicode_len();
    let mut out: Vec<char> = Vec::new();
    let mut i: usize = 0;
    while i < n
        invariant
            n == s@.len(),
            i <= n,
            out@ == s@.subrange(0, i as int),
        decreases n - i,
    {
        out.push(s.get_char(i));
        i = i + 1;
    }
    out
}

/// A string made of the given characters.
pub fn string_of(chars: &Vec<char>) -> (out: String)
    ensures
        out@ == chars@,
{
    let mut out = String::new();
    let mut i: usize = 0;
    while i < chars.len()
        invariant
            i <= chars.len(),
            out@ == chars@.subrange(0, i as int),
        decreases chars.len() - i,
    {
        out.push(chars[i]);
        i = i + 1;
    }
    out
}

/// An owned copy of a string slice.
pub fn owned(s: &str) -> (out: String)
    ensures
        out@ == s@,
{
    String::from_str(s)
}

/// `a` followed by `b`.
pub fn join2(a: &str, b: &str) -> (out: String)
    ensures
        out@ == a@ + b@,
{
    let mut out = String::from_str(a);
    out.append(b);
    out
}

/// `a`, `b` and `c` one after the other.
pub fn join3(a: &str, b: &str, c: &str) -> (out: String)
    ensures
        out@ == a@ + b@ + c@,
{
    let mut out = String::from_str(a);
    out.append(b);
    out.append(c);
    out
}

/// Whether `c` belongs to the Unicode `White_Space` property.
pub fn char_is_whitespace(c: char) -> (b: bool)
    ensures
        b == is_whitespace(c),
{
    let u = c as u32;
    (0x9 <= u && u <= 0xd) || u == 0x20 || u == 0x85 || u == 0xa0 || u == 0x1680 || (0x2000 <= u
        && u <= 0x200a) || u == 0x2028 || u == 0x2029 || u == 0x202f || u == 0x205f || u == 0x3000
}

proof fn lemma_trim_start_skip(s: Seq<char>, i: int)
    requires
        0 <= i <= s.len(),
        forall|k: int| 0 <= k < i ==> is_whitespace(s[k]),
    ensures
        trim_start(s) == trim_start(s.subrange(i, s.len() as int)),
    decreases i,
{
    if i > 0 {
        assert(s.drop_first().subrange(i - 1, s.drop_first().len() as int) =~= s.subrange(
            i,
            s.len() as int,
        ));
        lemma_trim_start_skip(s.drop_first(), i - 1);
    } else {
        assert(s.subrange(0, s.len() as int) =~= s);
    }
}

proof fn lemma_trim_end_skip(s: Seq<char>, j: int)
    requires
        0 <= j <= s.len(),
        forall|k: int| j <= k < s.len() ==> is_whitespace(s[k]),
    ensures
        trim_end(s) == trim_end(s.subrange(0, j)),
    decreases s.len() - j,
{
    if j < s.len() {
        assert(s.drop_last().subrange(0, j) =~= s.subrange(0, j));
        lemma_trim_end_skip(s.drop_last(), j);
    } else {
        assert(s.subrange(0, j) =~= s);
    }
}

/// The string slice without leading and trailing white space (`str::trim`).
pub fn trimmed(s: &str) -> (out: Vec<char>)
    ensures
        out@ == trim(s@),
{
    let cs = chars_of(s);
    trim_chars(&cs)
}

/// The characters without leading and trailing white space.
pub fn trim_chars(cs: &Vec<char>) -> (out: Vec<char>)
    ensures
        out@ == trim(cs@),
{
    let n = cs.len();
    let mut start: usize = 0;
    while start < n && char_is_whitespace(cs[start])
        invariant
            n == cs@.len(),
            start <= n,
            forall|k: int| 0 <= k < start ==> is_whitespace(cs@[k]),
        decreases n - start,
    {
        start = start + 1;
    }
    let ghost rest = cs@.subrange(start as int, n as int);
    proof {
        lemma_trim_start_skip(cs@, start as int);
        assert(!(rest.len() > 0 && is_whitespace(rest[0])));
    }
    let mut end: usize = n;
    while end > start && char_is_whitespace(cs[end - 1])
        invariant
            n == cs@.len(),
            start <= end <= n,
            forall|k: int| end <= k < n ==> is_whitespace(cs@[k]),
        decreases end,
    {
        end = end - 1;
    }
    let mut out: Vec<char> = Vec::new();
    let mut i: usize = start;
    while i < end
        invariant
            start <= i <= end <= n,
            n == cs@.len(),
            out@ == cs@.subrange(start as int, i as int),
        decreases end - i,
    {
        out.push(cs[i]);
        i = i + 1;
    }
    proof {
        lemma_trim_end_skip(rest, end - start);
        assert(rest.subrange(0, end - start) =~= out@);
        let r = out@;
        assert(!(r.len() > 0 && is_whitespace(r.last())));
    }
    out
}

/// ASCII lower-casing of one character (`char::to_ascii_lowercase`).
pub fn lower_char(c: char) -> (out: char)
    ensures
        out == ascii_lower(c),
{
    if 'A' <= c && c <= 'Z' {
        ((c as u8) + 32u8) as char
    } else {
        c
    }
}

/// ASCII lower-casing of a sequence of characters.
pub fn lowercase_chars(cs: &Vec<char>) -> (out: Vec<char>)
    ensures
        out@ == ascii_lowercase(cs@),
{
    let mut out: Vec<char> = Vec::new();
    let mut i: usize = 0;
    while i < cs.len()
        invariant
            i <= cs.len(),
            out@ == ascii_lowercase(cs@.subrange(0, i as int)),
        decreases cs.len() - i,
    {
        out.push(lower_char(cs[i]));
        proof {
            assert(cs@.subrange(0, i + 1) =~= cs@.subrange(0, i as int).push(cs@[i as int]));
        }
        i = i + 1;
        proof {
            assert(out@ =~= ascii_lowercase(cs@.subrange(0, i as int)));
        }
    }
    proof {
        assert(cs@.subrange(0, cs.len() as int) =~= cs@);
    }
    out
}

/// Whether two character sequences are equal.
pub fn chars_eq(a: &Vec<char>, b: &Vec<char>) -> (r: bool)
    ensures
        r == (a@ == b@),
{
    if a.len() != b.len() {
        return false;
    }
    let mut i: usize = 0;
    while i < a.len()
        invariant
            a.len() == b.len(),
            i <= a.len(),
            forall|k: int| 0 <= k < i ==> a@[k] == b@[k],
        decreases a.len() - i,
    {
        if a[i] != b[i] {
            return false;
        }
        i = i + 1;
    }
    assert(a@ =~= b@);
    true
}

/// Whether a character sequence equals the characters of a string slice.
pub fn chars_eq_str(a: &Vec<char>, b: &str) -> (r: bool)
    ensures
        r == (a@ == b@),
{
    let bs = chars_of(b);
    chars_eq(a, &bs)
}

/// Whether a string equals a string slice.
pub fn str_eq(a: &str, b: &str) -> (r: bool)
    ensures
        r == (a@ == b@),
{
    let a_chars = chars_of(a);
    chars_eq_str(&a_chars, b)
}

/// Whether `needle` occurs in `hay` (`str::contains`).
pub fn contains_str(hay: &str, needle: &str) -> (r: bool)
    ensures
        r == contains_seq(hay@, needle@),
{
    let h = chars_of(hay);
    let nd = chars_of(needle);
    if nd.len() == 0 {
        assert(h@.subrange(0, 0) =~= nd@);
        assert(occurs_at(h@, nd@, 0));
        return true;
    }
    let mut i: usize = 0;
    while i < h.len() && nd.len() <= h.len() - i
        invariant
            h@ == hay@,
            nd@ == needle@,
            nd.len() > 0,
            i <= h.len(),
            forall|k: int| 0 <= k < i ==> !occurs_at(h@, nd@, k),
        decreases h.len() - i,
    {
        let mut j: usize = 0;
        let mut same = true;
        while j < nd.len()
            invariant
                i < h.len(),
                nd.len() <= h.len() - i,
                j <= nd.len(),
                same ==> forall|k: int| 0 <= k < j ==> h@[i + k] == nd@[k],
                !same ==> !occurs_at(h@, nd@, i as int),
            decreases nd.len() - j,
        {
            if h[i + j] != nd[j] {
                same = false;
                proof {
                    assert(h@.subrange(i as int, i + nd.len())[j as int] == h@[i + j]);
                }
            }
            j = j + 1;
        }
        if same {
            assert(h@.subrange(i as int, i + nd.len()) =~= nd@);
            assert(occurs_at(h@, nd@, i as int));
            return true;
        }
        i = i + 1;
    }
    proof {
        assert forall|k: int| !occurs_at(h@, nd@, k) by {
            if 0 <= k < i {
            }
        }
    }
    false
}

/// Index of the first occurrence of `c` in `cs` at or after `from`, or
/// `cs.len()` when there is none.
pub fn find_char_from(cs: &Vec<char>, c: char, from: usize) -> (r: usize)
    requires
        from <= cs.len(),
    ensures
        from <= r <= cs.len(),
        r < cs.len() ==> cs@[r as int] == c,
        forall|k: int| from <= k < r ==> cs@[k] != c,
{
    let mut i = from;
    while i < cs.len() && cs[i] != c
        invariant
            from <= i <= cs.len(),
            forall|k: int| from <= k < i ==> cs@[k] != c,
        decreases cs.len() - i,
    {
        i = i + 1;
    }
    i
}

/// The characters of `cs` from `lo` up to `hi`.
pub fn slice_chars(cs: &Vec<char>, lo: usize, hi: usize) -> (out: Vec<char>)
    requires
        lo <= hi <= cs.len(),
    ensures
        out@ == cs@.subrange(lo as int, hi as int),
{
    let mut out: Vec<char> = Vec::new();
    let mut i = lo;
    while i < hi
        invariant
            lo <= i <= hi <= cs.len(),
            out@ == cs@.subrange(lo as int, i as int),
        decreases hi - i,
    {
        out.push(cs[i]);
        i = i + 1;
    }
    out
}

/// Strict lexicographic order of character sequences by code point, which
/// is the order of `str`'s `Ord` (UTF-8 keeps the order of code points).
pub open spec fn seq_lt(a: Seq<char>, b: Seq<char>) -> bool
    decreases a.len(),
{
    if a.len() == 0 {
        b.len() > 0
    } else if b.len() == 0 {
        false
    } else if a[0] != b[0] {
        (a[0] as int) < (b[0] as int)
    } else {
        seq_lt(a.drop_first(), b.drop_first())
    }
}

pub proof fn lemma_seq_lt_transitive(a: Seq<char>, b: Seq<char>, c: Seq<char>)
    requires
        seq_lt(a, b),
        seq_lt(b, c),
    ensures
        seq_lt(a, c),
    decreases a.len(),
{
    if a.len() > 0 && b.len() > 0 && c.len() > 0 && a[0] == b[0] && b[0] == c[0] {
        lemma_seq_lt_transitive(a.drop_first(), b.drop_first(), c.drop_first());
    }
}

pub proof fn lemma_seq_lt_irreflexive(a: Seq<char>)
    ensures
        !seq_lt(a, a),
    decreases a.len(),
{
    if a.len() > 0 {
        lemma_seq_lt_irreflexive(a.drop_first());
    }
}

pub proof fn lemma_seq_lt_total(a: Seq<char>, b: Seq<char>)
    ensures
        seq_lt(a, b) || a == b || seq_lt(b, a),
    decreases a.len(),
{
    if a.len() > 0 && b.len() > 0 && a[0] == b[0] {
        lemma_seq_lt_total(a.drop_first(), b.drop_first());
        if a.drop_first() == b.drop_first() {
            assert forall|k: int| 0 < k < a.len() implies a[k] == b[k] by {
                assert(a[k] == a.drop_first()[k - 1]);
                assert(b[k] == b.drop_first()[k - 1]);
            }
            assert(a =~= b);
        }
    } else if a.len() == 0 && b.len() == 0 {
        assert(a =~= b);
    }
}

proof fn lemma_seq_lt_step(a: Seq<char>, b: Seq<char>, i: int)
    requires
        0 <= i < a.len(),
        i < b.len(),
        a[i] == b[i],
    ensures
        seq_lt(a.skip(i), b.skip(i)) == seq_lt(a.skip(i + 1), b.skip(i + 1)),
{
    assert(a.skip(i).drop_first() =~= a.skip(i + 1));
    assert(b.skip(i).drop_first() =~= b.skip(i + 1));
}

/// Whether `a` comes strictly before `b`.
pub fn chars_lt(a: &Vec<char>, b: &Vec<char>) -> (r: bool)
    ensures
        r == seq_lt(a@, b@),
{
    let mut i: usize = 0;
    proof {
        assert(a@.skip(0) =~= a@);
        assert(b@.skip(0) =~= b@);
    }
    while i < a.len() && i < b.len() && a[i] == b[i]
        invariant
            i <= a.len(),
            i <= b.len(),
            seq_lt(a@, b@) == seq_lt(a@.skip(i as int), b@.skip(i as int)),
        decreases a.len() - i,
    {
        proof {
            lemma_seq_lt_step(a@, b@, i as int);
        }
        i = i + 1;
    }
    if i == a.len() {
        i < b.len()
    } else if i == b.len() {
        false
    } else {
        assert(a@.skip(i as int)[0] == a@[i as int]);
        assert(b@.skip(i as int)[0] == b@[i as int]);
        a[i] < b[i]
    }
}

/// Whether string `a` comes strictly before string `b` (`<` on `str`).
pub fn str_lt(a: &str, b: &str) -> (r: bool)
    ensures
        r == seq_lt(a@, b@),
{
    let ac = chars_of(a);
    let bc = chars_of(b);
    chars_lt(&ac, &bc)
}

} // verus!
