//! Character-level text helpers shared by the filter, configuration and
//! symbol-name logic.  Every function works on the Unicode scalar values of a
//! string, which is exactly what `str@` exposes to specifications.
use vstd::prelude::*;

verus! {

/// Unicode `White_Space` property of a character, as decided by `char::is_whitespace`.
pub uninterp spec fn char_is_whitespace(c: char) -> bool;

/// Unicode `Alphabetic` property of a character, as decided by `char::is_alphabetic`.
pub uninterp spec fn char_is_alphabetic(c: char) -> bool;

/// `Alphabetic` or `Numeric` Unicode property, as decided by `char::is_alphanumeric`.
pub uninterp spec fn char_is_alphanumeric(c: char) -> bool;

/// Unicode `Cc` (control) category, as decided by `char::is_control`.
pub uninterp spec fn char_is_control(c: char) -> bool;

/// Full Unicode lower-case mapping of a string, as computed by `str::to_lowercase`.
pub uninterp spec fn str_to_lowercase(s: Seq<char>) -> Seq<char>;

/// Calls `char::is_whitespace`; its result is named `char_is_whitespace`.
#[verifier::external_body]
pub fn is_whitespace(c: char) -> (b: bool)
    ensures
        b == char_is_whitespace(c),
{
    c.is_whitespace()
}

/// Calls `char::is_alphabetic`; its result is named `char_is_alphabetic`.
#[verifier::external_body]
pub fn is_alphabetic(c: char) -> (b: bool)
    ensures
        b == char_is_alphabetic(c),
{
    c.is_alphabetic()
}

/// Calls `char::is_alphanumeric`; its result is named `char_is_alphanumeric`.
/// The standard library documents it as `is_alphabetic() || is_numeric()`;
/// only the alphabetic half is stated here.
#[verifier::external_body]
pub fn is_alphanumeric(c: char) -> (b: bool)
    ensures
        b == char_is_alphanumeric(c),
        char_is_alphabetic(c) ==> b,
{
    c.is_alphanumeric()
}

/// Calls `char::is_control`; its result is named `char_is_control`.
#[verifier::external_body]
pub fn is_control(c: char) -> (b: bool)
    ensures
        b == char_is_control(c),
{
    c.is_control()
}

/// Calls `str::to_lowercase`; its result is named `str_to_lowercase`.
#[verifier::external_body]
pub fn to_lowercase(s: &str) -> (r: String)
    ensures
        r@ == str_to_lowercase(s@),
{
    s.to_lowercase()
}

/// Calls `String::push`, which appends one character to the string.
#[verifier::external_body]
pub fn push_char(s: &mut String, c: char)
    ensures
        final(s)@ == old(s)@.push(c),
{
    s.push(c)
}

/// The characters of a string, in order.
pub fn chars_of(s: &str) -> (v: Vec<char>)
    ensures
        v@ == s@,
{
    let n = s.unicode_len();
    let mut v: Vec<char> = Vec::new();
    let mut i: usize = 0;
    while i < n
        invariant
            n == s@.len(),
            i <= n,
            v@ == s@.take(i as int),
        decreases n - i,
    {
        let c = s.get_char(i);
        v.push(c);
        i = i + 1;
        assert(v@ =~= s@.take(i as int));
    }
    assert(v@ =~= s@);
    v
}

/// A string holding the characters `v[from..to]`.
pub fn string_of(v: &[char], from: usize, to: usize) -> (s: String)
    requires
        from <= to <= v@.len(),
    ensures
        s@ == v@.subrange(from as int, to as int),
{
    let mut s = String::new();
    let mut i = from;
    while i < to
        invariant
            from <= i <= to <= v@.len(),
            s@ == v@.subrange(from as int, i as int),
        decreases to - i,
    {
        push_char(&mut s, v[i]);
        i = i + 1;
        assert(s@ =~= v@.subrange(from as int, i as int));
    }
    s
}

/// Whether `c` occurs in `s`.
pub fn contains_char(s: &[char], c: char) -> (b: bool)
    ensures
        b == s@.contains(c),
{
    let mut i: usize = 0;
    while i < s.len()
        invariant
            i <= s@.len(),
            forall|k: int| 0 <= k < i ==> s@[k] != c,
        decreases s@.len() - i,
    {
        if s[i] == c {
            assert(s@[i as int] == c);
            return true;
        }
        i = i + 1;
    }
    false
}

/// Whether two character slices hold the same characters.
pub fn chars_eq(a: &[char], b: &[char]) -> (r: bool)
    ensures
        r == (a@ == b@),
{
    if a.len() != b.len() {
        return false;
    }
    let mut i: usize = 0;
    while i < a.len()
        invariant
            a@.len() == b@.len(),
            i <= a@.len(),
            forall|k: int| 0 <= k < i ==> a@[k] == b@[k],
        decreases a@.len() - i,
    {
        if a[i] != b[i] {
            return false;
        }
        i = i + 1;
    }
    assert(a@ =~= b@);
    true
}

/// Whether two strings hold the same characters.
pub fn str_eq(a: &str, b: &str) -> (r: bool)
    ensures
        r == (a@ == b@),
{
    let av = chars_of(a);
    let bv = chars_of(b);
    chars_eq(av.as_slice(), bv.as_slice())
}

/// Whether `s` starts with `prefix`.
pub open spec fn has_prefix(s: Seq<char>, prefix: Seq<char>) -> bool {
    prefix.len() <= s.len() && s.take(prefix.len() as int) == prefix
}

/// Whether `s` ends with `suffix`.
pub open spec fn has_suffix(s: Seq<char>, suffix: Seq<char>) -> bool {
    suffix.len() <= s.len() && s.skip(s.len() - suffix.len()) == suffix
}

/// Whether `needle` occurs in `s` at character position `at`.
pub open spec fn occurs_at(s: Seq<char>, needle: Seq<char>, at: int) -> bool {
    0 <= at && at + needle.len() <= s.len() && s.subrange(at, at + needle.len()) == needle
}

/// Whether `needle` occurs in `s` at position `at` (exec form).
pub fn matches_at(s: &[char], needle: &[char], at: usize) -> (r: bool)
    ensures
        r == occurs_at(s@, needle@, at as int),
{
    if at > s.len() || needle.len() > s.len() - at {
        return false;
    }
    let mut i: usize = 0;
    let n = s.len();
    while i < needle.len()
        invariant
            n == s@.len(),
            at + needle@.len() <= s@.len(),
            i <= needle@.len(),
            forall|k: int| 0 <= k < i ==> s@[at + k] == needle@[k],
        decreases needle@.len() - i,
    {
        assert(at + i < s@.len());
        if s[at + i] != needle[i] {
            return false;
        }
        i = i + 1;
    }
    assert(s@.subrange(at as int, at + needle@.len()) =~= needle@);
    true
}

/// Whether `s` starts with `prefix` (exec form).
pub fn starts_with(s: &[char], prefix: &[char]) -> (r: bool)
    ensures
        r == has_prefix(s@, prefix@),
{
    let r = matches_at(s, prefix, 0);
    proof {
        if prefix@.len() <= s@.len() {
            assert(s@.take(prefix@.len() as int) =~= s@.subrange(0, prefix@.len() as int));
        }
    }
    r
}

/// Whether `s` ends with `suffix` (exec form).
pub fn ends_with(s: &[char], suffix: &[char]) -> (r: bool)
    ensures
        r == has_suffix(s@, suffix@),
{
    if suffix.len() > s.len() {
        return false;
    }
    let at = s.len() - suffix.len();
    let r = matches_at(s, suffix, at);
    assert(s@.skip(at as int) =~= s@.subrange(at as int, s@.len() as int));
    r
}

/// `s` without its leading characters that satisfy `p`.
pub open spec fn strip_leading(s: Seq<char>, p: spec_fn(char) -> bool) -> Seq<char>
    decreases s.len(),
{
    if s.len() > 0 && p(s[0]) {
        strip_leading(s.drop_first(), p)
    } else {
        s
    }
}

/// `s` without its trailing characters that satisfy `p`.
pub open spec fn strip_trailing(s: Seq<char>, p: spec_fn(char) -> bool) -> Seq<char>
    decreases s.len(),
{
    if s.len() > 0 && p(s.last()) {
        strip_trailing(s.drop_last(), p)
    } else {
        s
    }
}

/// The white-space predicate as a spec closure.
pub open spec fn ws() -> spec_fn(char) -> bool {
    |c: char| char_is_whitespace(c)
}

/// The predicate "is this character `x`" as a spec closure.
pub open spec fn is_char(x: char) -> spec_fn(char) -> bool {
    |c: char| c == x
}

/// `s` with leading and trailing white space removed (what `str::trim` returns).
pub open spec fn trimmed(s: Seq<char>) -> Seq<char> {
    strip_trailing(strip_leading(s, ws()), ws())
}

/// `s` with every leading and trailing `x` removed (what `str::trim_matches(x)` returns).
pub open spec fn trimmed_char(s: Seq<char>, x: char) -> Seq<char> {
    strip_trailing(strip_leading(s, is_char(x)), is_char(x))
}

proof fn lemma_strip_leading_skip(s: Seq<char>, i: int, p: spec_fn(char) -> bool)
    requires
        0 <= i < s.len(),
        p(s[i]),
    ensures
        strip_leading(s.skip(i), p) == strip_leading(s.skip(i + 1), p),
{
    assert(s.skip(i).drop_first() =~= s.skip(i + 1));
}

proof fn lemma_strip_trailing_take(s: Seq<char>, j: int, p: spec_fn(char) -> bool)
    requires
        0 < j <= s.len(),
        p(s[j - 1]),
    ensures
        strip_trailing(s.take(j), p) == strip_trailing(s.take(j - 1), p),
{
    assert(s.take(j).drop_last() =~= s.take(j - 1));
}

/// The range `[start, end)` of `s` that remains after stripping by `p` on both ends,
/// where the exec predicate result for each character is given in `flags`.
pub(crate) fn strip_range(s: &[char], flags: &[bool], Ghost(p): Ghost<spec_fn(char) -> bool>) -> (r: (
    usize,
    usize,
))
    requires
        flags@.len() == s@.len(),
        forall|k: int| 0 <= k < s@.len() ==> flags@[k] == p(s@[k]),
    ensures
        r.0 <= r.1 <= s@.len(),
        s@.subrange(r.0 as int, r.1 as int) == strip_trailing(strip_leading(s@, p), p),
{
    let mut i: usize = 0;
    assert(s@.skip(0) =~= s@);
    while i < s.len() && flags[i]
        invariant
            flags@.len() == s@.len(),
            forall|k: int| 0 <= k < s@.len() ==> flags@[k] == p(s@[k]),
            i <= s@.len(),
            strip_leading(s@, p) == strip_leading(s@.skip(i as int), p),
        decreases s@.len() - i,
    {
        proof {
            lemma_strip_leading_skip(s@, i as int, p);
        }
        i = i + 1;
    }
    let ghost rest = s@.skip(i as int);
    assert(strip_leading(rest, p) == rest);
    let mut j: usize = s.len();
    assert(rest.take(rest.len() as int) =~= rest);
    while j > i && flags[j - 1]
        invariant
            flags@.len() == s@.len(),
            forall|k: int| 0 <= k < s@.len() ==> flags@[k] == p(s@[k]),
            i <= j <= s@.len(),
            rest == s@.skip(i as int),
            strip_trailing(rest, p) == strip_trailing(rest.take(j - i), p),
        decreases j,
    {
        proof {
            assert(rest[j - i - 1] == s@[j - 1]);
            lemma_strip_trailing_take(rest, j - i, p);
        }
        j = j - 1;
    }
    assert(strip_trailing(rest.take(j - i), p) == rest.take(j - i));
    assert(rest.take(j - i) =~= s@.subrange(i as int, j as int));
    (i, j)
}

/// `s` with leading and trailing white space removed.
pub fn trim_chars(s: &[char]) -> (r: Vec<char>)
    ensures
        r@ == trimmed(s@),
{
    let mut flags: Vec<bool> = Vec::new();
    let mut k: usize = 0;
    while k < s.len()
        invariant
            k <= s@.len(),
            flags@.len() == k,
            forall|m: int| 0 <= m < k ==> flags@[m] == char_is_whitespace(s@[m]),
        decreases s@.len() - k,
    {
        flags.push(is_whitespace(s[k]));
        k = k + 1;
    }
    let (a, b) = strip_range(s, flags.as_slice(), Ghost(ws()));
    let mut out: Vec<char> = Vec::new();
    let mut i = a;
    while i < b
        invariant
            a <= i <= b <= s@.len(),
            out@ == s@.subrange(a as int, i as int),
        decreases b - i,
    {
        out.push(s[i]);
        i = i + 1;
        assert(out@ =~= s@.subrange(a as int, i as int));
    }
    out
}

/// `s` with every leading and trailing `x` removed.
pub fn trim_char(s: &[char], x: char) -> (r: Vec<char>)
    ensures
        r@ == trimmed_char(s@, x),
{
    let mut flags: Vec<bool> = Vec::new();
    let mut k: usize = 0;
    while k < s.len()
        invariant
            k <= s@.len(),
            flags@.len() == k,
            forall|m: int| 0 <= m < k ==> flags@[m] == (s@[m] == x),
        decreases s@.len() - k,
    {
        flags.push(s[k] == x);
        k = k + 1;
    }
    let (a, b) = strip_range(s, flags.as_slice(), Ghost(is_char(x)));
    let mut out: Vec<char> = Vec::new();
    let mut i = a;
    while i < b
        invariant
            a <= i <= b <= s@.len(),
            out@ == s@.subrange(a as int, i as int),
        decreases b - i,
    {
        out.push(s[i]);
        i = i + 1;
        assert(out@ =~= s@.subrange(a as int, i as int));
    }
    out
}

/// `str::trim`, returned as an owned string.
pub fn trim(s: &str) -> (r: String)
    ensures
        r@ == trimmed(s@),
{
    let v = chars_of(s);
    let t = trim_chars(v.as_slice());
    string_of(t.as_slice(), 0, t.len())
}

/// The pieces of `s` between occurrences of `sep`, continuing a piece `cur`
/// that has already been started (what `str::split(sep)` yields).
pub open spec fn split_from(s: Seq<char>, sep: char, cur: Seq<char>) -> Seq<Seq<char>>
    decreases s.len(),
{
    if s.len() == 0 {
        seq![cur]
    } else if s[0] == sep {
        seq![cur] + split_from(s.drop_first(), sep, seq![])
    } else {
        split_from(s.drop_first(), sep, cur.push(s[0]))
    }
}

/// The pieces of `s` between occurrences of `sep`.
pub open spec fn split_on(s: Seq<char>, sep: char) -> Seq<Seq<char>> {
    split_from(s, sep, seq![])
}

/// The character sequences held by a vector of character vectors.
pub open spec fn views(v: Seq<Vec<char>>) -> Seq<Seq<char>> {
    Seq::new(v.len(), |i: int| v[i]@)
}

/// Splits `s` at every `sep`, as `str::split(sep)` does.
pub fn split_chars(s: &[char], sep: char) -> (r: Vec<Vec<char>>)
    ensures
        views(r@) == split_on(s@, sep),
        r@.len() == split_on(s@, sep).len(),
        forall|k: int| 0 <= k < r@.len() ==> #[trigger] r@[k]@ == split_on(s@, sep)[k],
{
    let mut done: Vec<Vec<char>> = Vec::new();
    let ghost done_view: Seq<Seq<char>> = seq![];
    let mut cur: Vec<char> = Vec::new();
    let mut i: usize = 0;
    assert(s@.skip(0) =~= s@);
    while i < s.len()
        invariant
            i <= s@.len(),
            done@.len() == done_view.len(),
            forall|k: int| 0 <= k < done@.len() ==> #[trigger] done@[k]@ == done_view[k],
            split_on(s@, sep) == done_view + split_from(s@.skip(i as int), sep, cur@),
        decreases s@.len() - i,
    {
        assert(s@.skip(i as int).drop_first() =~= s@.skip(i + 1));
        if s[i] == sep {
            let finished = cur;
            cur = Vec::new();
            proof {
                assert(done_view + (seq![finished@] + split_from(s@.skip(i + 1), sep, seq![]))
                    =~= done_view.push(finished@) + split_from(s@.skip(i + 1), sep, seq![]));
                done_view = done_view.push(finished@);
            }
            done.push(finished);
            assert(cur@ =~= seq![]);
        } else {
            cur.push(s[i]);
        }
        i = i + 1;
    }
    assert(s@.skip(i as int) =~= seq![]);
    let ghost last = cur@;
    done.push(cur);
    proof {
        assert(done_view + seq![last] =~= done_view.push(last));
        assert(views(done@) =~= split_on(s@, sep));
    }
    done
}

/// `s` followed by `t`.
pub fn append_text(s: String, t: &str) -> (r: String)
    ensures
        r@ == s@ + t@,
{
    let tv = chars_of(t);
    let mut out = s;
    let mut i: usize = 0;
    let ghost s0 = out@;
    while i < tv.len()
        invariant
            i <= tv@.len(),
            tv@ == t@,
            out@ == s0 + tv@.take(i as int),
        decreases tv@.len() - i,
    {
        push_char(&mut out, tv[i]);
        assert(s0 + tv@.take(i + 1) =~= (s0 + tv@.take(i as int)).push(tv@[i as int]));
        i = i + 1;
    }
    assert(tv@.take(tv@.len() as int) =~= tv@);
    out
}

/// Calls `String::pop`, which takes off the last character, if any.
#[verifier::external_body]
pub fn pop_char(s: &mut String) -> (r: Option<char>)
    ensures
        old(s)@.len() == 0 ==> r is None && final(s)@ == old(s)@,
        old(s)@.len() > 0 ==> r == Some(old(s)@.last()) && final(s)@ == old(s)@.drop_last(),
{
    s.pop()
}

/// What `<str as Debug>::fmt` prints for a string: the text in double
/// quotes with quotes, backslashes and control characters escaped.
pub uninterp spec fn str_debug(s: Seq<char>) -> Seq<char>;

/// Formats a string with `{:?}`; the text is named `str_debug`.
#[verifier::external_body]
pub fn debug_text(s: &str) -> (r: String)
    ensures
        r@ == str_debug(s@),
{
    format!("{:?}", s)
}

} // verus!
