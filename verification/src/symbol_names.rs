//! Display names for symbols reported by language servers.
//!
//! Servers report a method's bare name and describe its owner in free text
//! (`impl worker::Worker`, `worker.Worker`, ...).  These functions turn such
//! pairs into qualified names (`Worker::run`, `Worker.run`) when the owner
//! text is unambiguous, and keep the bare name otherwise.
use vstd::prelude::*;
use crate::profile::{from_name, from_program, profile_of, ServerProfile};
use crate::text::{
    char_is_alphabetic, char_is_alphanumeric, char_is_whitespace, chars_eq, chars_of,
    has_prefix, has_suffix, is_alphabetic, is_alphanumeric, is_whitespace, matches_at, occurs_at,
    string_of, strip_leading, trim_chars, trimmed, ws,
};

verus! {

/// LSP `SymbolKind` values used by the naming rules.
pub const SYMBOL_KIND_CLASS: u32 = 5;
pub const SYMBOL_KIND_METHOD: u32 = 6;
pub const SYMBOL_KIND_CONSTRUCTOR: u32 = 9;
pub const SYMBOL_KIND_ENUM: u32 = 10;
pub const SYMBOL_KIND_INTERFACE: u32 = 11;
pub const SYMBOL_KIND_FUNCTION: u32 = 12;
pub const SYMBOL_KIND_STRUCT: u32 = 23;
pub const SYMBOL_KIND_TYPE_PARAMETER: u32 = 26;

/// Whether a symbol kind is a method or a constructor.
pub open spec fn is_method_kind(kind: u32) -> bool {
    kind == SYMBOL_KIND_METHOD || kind == SYMBOL_KIND_CONSTRUCTOR
}

/// How names reported by one server are qualified.
#[derive(Clone, Copy, Debug, PartialEq, Eq, Structural)]
pub enum SymbolNameAdapter {
    Standard,
    RustAnalyzer,
    Pyrefly,
}

/// The adapter a server profile uses.
pub open spec fn adapter_for(p: ServerProfile) -> SymbolNameAdapter {
    match p {
        ServerProfile::RustAnalyzer => SymbolNameAdapter::RustAnalyzer,
        ServerProfile::Pyrefly => SymbolNameAdapter::Pyrefly,
        _ => SymbolNameAdapter::Standard,
    }
}

// ---------------------------------------------------------------- character scans

/// Position of the last `c` in `s`, or -1.
pub open spec fn last_index_of(s: Seq<char>, c: char) -> int
    decreases s.len(),
{
    if s.len() == 0 {
        -1
    } else if s.last() == c {
        s.len() - 1
    } else {
        last_index_of(s.drop_last(), c)
    }
}

/// The text after the last `c` (all of `s` without one): `rsplit(c).next()`.
pub open spec fn after_last(s: Seq<char>, c: char) -> Seq<char> {
    s.skip(last_index_of(s, c) + 1)
}

/// The text before the last `c`, if there is one: `rsplit_once(c)`'s first half.
pub open spec fn before_last(s: Seq<char>, c: char) -> Option<Seq<char>> {
    if last_index_of(s, c) < 0 {
        None
    } else {
        Some(s.take(last_index_of(s, c)))
    }
}

pub proof fn lemma_last_index_bounds(s: Seq<char>, c: char)
    ensures
        -1 <= last_index_of(s, c) < s.len(),
        last_index_of(s, c) >= 0 ==> s[last_index_of(s, c)] == c,
        forall|k: int| last_index_of(s, c) < k < s.len() ==> s[k] != c,
        last_index_of(s, c) < 0 <==> !s.contains(c),
    decreases s.len(),
{
    if s.len() > 0 {
        lemma_last_index_bounds(s.drop_last(), c);
        if s.last() != c {
            assert forall|k: int| last_index_of(s, c) < k < s.len() implies s[k] != c by {
                if k < s.len() - 1 {
                    assert(s[k] == s.drop_last()[k]);
                }
            }
            if s.contains(c) {
                let k = choose|k: int| 0 <= k < s.len() && s[k] == c;
                assert(s.drop_last()[k] == c);
            }
            if s.drop_last().contains(c) {
                let k = choose|k: int| 0 <= k < s.drop_last().len() && s.drop_last()[k] == c;
                assert(s[k] == c);
            }
        } else {
            assert(s[s.len() - 1] == c);
        }
    }
}

pub fn find_last(s: &[char], c: char) -> (r: Option<usize>)
    ensures
        match r {
            Some(i) => i as int == last_index_of(s@, c) && i < s@.len(),
            None => last_index_of(s@, c) == -1,
        },
{
    let mut i = s.len();
    assert(s@.take(i as int) =~= s@);
    while i > 0
        invariant
            i <= s@.len(),
            last_index_of(s@, c) == last_index_of(s@.take(i as int), c),
        decreases i,
    {
        assert(s@.take(i as int).drop_last() =~= s@.take(i - 1));
        if s[i - 1] == c {
            return Some(i - 1);
        }
        i = i - 1;
    }
    None
}

/// `rsplit(c).next()`: the text after the last `c`.
pub fn text_after_last(s: &[char], c: char) -> (r: Vec<char>)
    ensures
        r@ == after_last(s@, c),
{
    proof {
        lemma_last_index_bounds(s@, c);
    }
    let n = s.len();
    let start = match find_last(s, c) {
        Some(i) => i + 1,
        None => 0,
    };
    let t = string_of(s, start, s.len());
    let v = chars_of(t.as_str());
    assert(v@ =~= after_last(s@, c));
    v
}

/// `rsplit_once(c)`'s first half.
pub fn text_before_last(s: &[char], c: char) -> (r: Option<Vec<char>>)
    ensures
        match (r, before_last(s@, c)) {
            (Some(x), Some(y)) => x@ == y,
            (None, None) => true,
            _ => false,
        },
{
    proof {
        lemma_last_index_bounds(s@, c);
    }
    match find_last(s, c) {
        Some(i) => {
            let t = string_of(s, 0, i);
            let v = chars_of(t.as_str());
            assert(v@ =~= s@.take(i as int));
            Some(v)
        },
        None => None,
    }
}

/// Whether `s` holds one of the characters that make owner text unsafe to
/// interpret: `/`, `\`, `(`, `)` or a line break.
pub open spec fn has_unsafe_char(s: Seq<char>) -> bool {
    s.contains('/') || s.contains('\\') || s.contains('(') || s.contains(')') || s.contains('\n')
}

fn unsafe_chars(s: &[char]) -> (b: bool)
    ensures
        b == has_unsafe_char(s@),
{
    crate::text::contains_char(s, '/') || crate::text::contains_char(s, '\\')
        || crate::text::contains_char(s, '(') || crate::text::contains_char(s, ')')
        || crate::text::contains_char(s, '\n')
}

/// Whether `s` holds a white-space character.
pub open spec fn has_whitespace(s: Seq<char>) -> bool {
    exists|k: int| 0 <= k < s.len() && #[trigger] char_is_whitespace(s[k])
}

fn any_whitespace(s: &[char]) -> (b: bool)
    ensures
        b == has_whitespace(s@),
{
    let mut i: usize = 0;
    while i < s.len()
        invariant
            i <= s@.len(),
            forall|k: int| 0 <= k < i ==> !char_is_whitespace(s@[k]),
        decreases s@.len() - i,
    {
        if is_whitespace(s[i]) {
            return true;
        }
        i = i + 1;
    }
    false
}

/// Whether `s` is an identifier: a letter or `_`, then letters, digits or `_`.
pub open spec fn identifier_chars(s: Seq<char>) -> bool {
    &&& s.len() > 0
    &&& (s[0] == '_' || char_is_alphabetic(s[0]))
    &&& forall|k: int| 1 <= k < s.len() ==> #[trigger] s[k] == '_' || char_is_alphanumeric(s[k])
}

fn identifier(s: &[char]) -> (b: bool)
    ensures
        b == identifier_chars(s@),
{
    if s.len() == 0 {
        return false;
    }
    if !(s[0] == '_' || is_alphabetic(s[0])) {
        return false;
    }
    let mut i: usize = 1;
    while i < s.len()
        invariant
            1 <= i <= s@.len(),
            forall|k: int| 1 <= k < i ==> #[trigger] s@[k] == '_' || char_is_alphanumeric(s@[k]),
        decreases s@.len() - i,
    {
        if !(s[i] == '_' || is_alphanumeric(s[i])) {
            return false;
        }
        i = i + 1;
    }
    true
}

/// Whether a Python name is an identifier.
pub fn is_python_identifier(value: &str) -> (b: bool)
    ensures
        b == identifier_chars(value@),
{
    let v = chars_of(value);
    identifier(v.as_slice())
}

/// Whether a Rust name is an identifier, raw identifiers (`r#name`) included.
pub open spec fn rust_identifier(s: Seq<char>) -> bool {
    identifier_chars(if has_prefix(s, seq!['r', '#']) { s.skip(2) } else { s })
}

/// Whether a Rust name is an identifier, raw identifiers (`r#name`) included.
pub fn is_rust_identifier(value: &[char]) -> (b: bool)
    ensures
        b == rust_identifier(value@),
{
    let raw = value.len() >= 2 && value[0] == 'r' && value[1] == '#';
    proof {
        if value@.len() >= 2 {
            if raw {
                assert(value@.take(2) =~= seq!['r', '#']);
            } else {
                assert(value@.take(2)[0] == value@[0] && value@.take(2)[1] == value@[1]);
            }
        }
    }
    if raw {
        let rest = string_of(value, 2, value.len());
        let v = chars_of(rest.as_str());
        assert(v@ =~= value@.skip(2));
        identifier(v.as_slice())
    } else {
        identifier(value)
    }
}

// ---------------------------------------------------------------- python

/// A workspace-symbol container usable as a Python owner: its last dotted
/// segment, when the trimmed text is safe and that segment is an identifier.
pub open spec fn python_container(value: Seq<char>) -> Option<Seq<char>> {
    let v = trimmed(value);
    if v.len() == 0 || has_unsafe_char(v) {
        None
    } else if identifier_chars(after_last(v, '.')) {
        Some(after_last(v, '.'))
    } else {
        None
    }
}

/// The container of a Python workspace symbol, when usable as its owner.
pub fn safe_python_container(value: &str) -> (r: Option<Vec<char>>)
    ensures
        match (r, python_container(value@)) {
            (Some(x), Some(y)) => x@ == y,
            (None, None) => true,
            _ => false,
        },
{
    let raw = chars_of(value);
    let v = trim_chars(raw.as_slice());
    if v.len() == 0 || unsafe_chars(v.as_slice()) {
        return None;
    }
    let last = text_after_last(v.as_slice(), '.');
    if identifier(last.as_slice()) {
        Some(last)
    } else {
        None
    }
}

/// A call-hierarchy detail usable as a Python owner path: the text before its
/// last dot, when the trimmed text is safe and that text is not empty.
pub open spec fn python_detail_owner(value: Seq<char>) -> Option<Seq<char>> {
    let v = trimmed(value);
    if v.len() == 0 || has_unsafe_char(v) {
        None
    } else {
        match before_last(v, '.') {
            Some(o) => if o.len() > 0 { Some(o) } else { None },
            None => None,
        }
    }
}

/// The owner path of a Python call-hierarchy detail, when usable.
pub fn safe_python_detail_owner(value: &str) -> (r: Option<Vec<char>>)
    ensures
        match (r, python_detail_owner(value@)) {
            (Some(x), Some(y)) => x@ == y,
            (None, None) => true,
            _ => false,
        },
{
    let raw = chars_of(value);
    let v = trim_chars(raw.as_slice());
    if v.len() == 0 || unsafe_chars(v.as_slice()) {
        return None;
    }
    match text_before_last(v.as_slice(), '.') {
        Some(o) => if o.len() > 0 {
            Some(o)
        } else {
            None
        },
        None => None,
    }
}

/// `owner.short` for a Python method whose owner is known, otherwise `name`.
pub open spec fn python_qualified(name: Seq<char>, kind: u32, owner_path: Option<Seq<char>>) -> Seq<
    char,
> {
    if !is_method_kind(kind) {
        name
    } else {
        let path = match owner_path {
            Some(o) => Some(o),
            None => before_last(name, '.'),
        };
        match path {
            Some(p) => if identifier_chars(after_last(p, '.')) {
                after_last(p, '.') + seq!['.'] + after_last(name, '.')
            } else {
                name
            },
            None => name,
        }
    }
}

fn python_qualify(name: &str, kind: u32, owner_path: Option<Vec<char>>) -> (r: String)
    ensures
        r@ == python_qualified(
            name@,
            kind,
            match owner_path {
                Some(o) => Some(o@),
                None => None,
            },
        ),
{
    if !(kind == SYMBOL_KIND_METHOD || kind == SYMBOL_KIND_CONSTRUCTOR) {
        return name.to_owned();
    }
    let n = chars_of(name);
    let path = match owner_path {
        Some(o) => Some(o),
        None => text_before_last(n.as_slice(), '.'),
    };
    match path {
        Some(p) => {
            let owner = text_after_last(p.as_slice(), '.');
            if identifier(owner.as_slice()) {
                let short = text_after_last(n.as_slice(), '.');
                let mut out = owner;
                out.push('.');
                let mut i: usize = 0;
                let ghost base = out@;
                while i < short.len()
                    invariant
                        i <= short@.len(),
                        out@ == base + short@.take(i as int),
                    decreases short@.len() - i,
                {
                    out.push(short[i]);
                    i = i + 1;
                    assert(out@ =~= base + short@.take(i as int));
                }
                assert(short@.take(i as int) =~= short@);
                let r = string_of(out.as_slice(), 0, out.len());
                assert(out@.subrange(0, out@.len() as int) =~= out@);
                r
            } else {
                name.to_owned()
            }
        },
        None => name.to_owned(),
    }
}

/// Qualifies a Python workspace symbol with its owner class.
pub fn python_workspace_callable(name: &str, kind: u32, container: Option<&str>) -> (r: String)
    ensures
        r@ == python_qualified(
            name@,
            kind,
            match container {
                Some(c) => python_container(c@),
                None => None,
            },
        ),
{
    let owner = match container {
        Some(c) => safe_python_container(c),
        None => None,
    };
    python_qualify(name, kind, owner)
}

/// Qualifies a Python call-hierarchy item with the owner named by its detail.
pub fn pyrefly_hierarchy_callable(name: &str, kind: u32, detail: Option<&str>) -> (r: String)
    ensures
        r@ == python_qualified(
            name@,
            kind,
            match detail {
                Some(d) => python_detail_owner(d@),
                None => None,
            },
        ),
{
    let owner = match detail {
        Some(d) => safe_python_detail_owner(d),
        None => None,
    };
    python_qualify(name, kind, owner)
}

// ---------------------------------------------------------------- generic servers

/// A container usable verbatim: trimmed, non-empty, safe and one word.
pub open spec fn plain_container(value: Seq<char>) -> Option<Seq<char>> {
    let v = trimmed(value);
    if v.len() > 0 && !has_unsafe_char(v) && !has_whitespace(v) {
        Some(v)
    } else {
        None
    }
}

/// The container text, when it is a single safe word.
pub fn safe_container(value: &str) -> (r: Option<Vec<char>>)
    ensures
        match (r, plain_container(value@)) {
            (Some(x), Some(y)) => x@ == y,
            (None, None) => true,
            _ => false,
        },
{
    let raw = chars_of(value);
    let v = trim_chars(raw.as_slice());
    if v.len() > 0 && !unsafe_chars(v.as_slice()) && !any_whitespace(v.as_slice()) {
        Some(v)
    } else {
        None
    }
}

/// `::`
pub open spec fn path_sep() -> Seq<char> {
    seq![':', ':']
}

/// Whether `s` holds `::`.
pub open spec fn has_path_sep(s: Seq<char>) -> bool {
    exists|i: int| #[trigger] occurs_at(s, path_sep(), i)
}

fn contains_path_sep(s: &[char]) -> (b: bool)
    ensures
        b == has_path_sep(s@),
{
    let sep = chars_of("::");
    proof {
        reveal_strlit("::");
    }
    assert(sep@ =~= path_sep());
    let mut i: usize = 0;
    while i < s.len()
        invariant
            i <= s@.len(),
            sep@ == path_sep(),
            forall|k: int| 0 <= k < i ==> !occurs_at(s@, path_sep(), k),
        decreases s@.len() - i,
    {
        if matches_at(s, sep.as_slice(), i) {
            return true;
        }
        i = i + 1;
    }
    proof {
        assert forall|k: int| !occurs_at(s@, path_sep(), k) by {
            if k >= s@.len() {
                assert(!(k + 2 <= s@.len()));
            }
        }
    }
    false
}

/// `container::name`.
pub open spec fn qualified(container: Seq<char>, name: Seq<char>) -> Seq<char> {
    container + path_sep() + name
}

fn qualify(container: &[char], name: &str) -> (r: String)
    ensures
        r@ == qualified(container@, name@),
{
    let mut out = string_of(container, 0, container.len());
    assert(container@.subrange(0, container@.len() as int) =~= container@);
    let sep = "::";
    proof {
        reveal_strlit("::");
    }
    out.append(sep);
    out.append(name);
    assert(out@ =~= qualified(container@, name@));
    out
}

/// `container::name` for a method or constructor whose name is not yet
/// qualified and whose container is given, otherwise `name`.
pub open spec fn qualified_callable(name: Seq<char>, kind: u32, container: Option<Seq<char>>) -> Seq<
    char,
> {
    if !is_method_kind(kind) || has_path_sep(name) {
        name
    } else {
        match container {
            Some(c) => qualified(c, name),
            None => name,
        }
    }
}

/// Qualifies a method with a safe container.
pub fn qualify_callable(name: &str, kind: u32, container: Option<&[char]>) -> (r: String)
    ensures
        r@ == qualified_callable(
            name@,
            kind,
            match container {
                Some(c) => Some(c@),
                None => None,
            },
        ),
{
    let n = chars_of(name);
    if !(kind == SYMBOL_KIND_METHOD || kind == SYMBOL_KIND_CONSTRUCTOR) || contains_path_sep(
        n.as_slice(),
    ) {
        return name.to_owned();
    }
    match container {
        Some(c) => qualify(c, name),
        None => name.to_owned(),
    }
}

// ---------------------------------------------------------------- rust owners

/// Generic-angle nesting after one more character (never below zero).
pub open spec fn angle_step(depth: nat, c: char) -> nat {
    if c == '<' {
        depth + 1
    } else if c == '>' {
        if depth > 0 {
            (depth - 1) as nat
        } else {
            0
        }
    } else {
        depth
    }
}

/// Generic-angle nesting before position `i` of `s`.
pub open spec fn depth_before(s: Seq<char>, i: int) -> nat
    decreases i,
{
    if i <= 0 {
        0
    } else {
        angle_step(depth_before(s, i - 1), s[i - 1])
    }
}

/// Whether `sep` starts at position `i` outside any generic angles.
pub open spec fn top_level_at(s: Seq<char>, sep: Seq<char>, i: int) -> bool {
    &&& 0 <= i < s.len()
    &&& s[i] != '<'
    &&& s[i] != '>'
    &&& depth_before(s, i) == 0
    &&& occurs_at(s, sep, i)
}

/// The first position at or after `i` where `sep` occurs at the top level.
pub open spec fn find_top_level(s: Seq<char>, sep: Seq<char>, i: int) -> Option<int>
    decreases s.len() - i,
{
    if i < 0 || i >= s.len() {
        None
    } else if top_level_at(s, sep, i) {
        Some(i)
    } else {
        find_top_level(s, sep, i + 1)
    }
}

/// `s` split at the first top-level `sep`.
pub open spec fn split_top(s: Seq<char>, sep: Seq<char>) -> Option<(Seq<char>, Seq<char>)> {
    match find_top_level(s, sep, 0) {
        Some(i) => Some((s.take(i), s.skip(i + sep.len()))),
        None => None,
    }
}

/// Splits `value` at the first `separator` outside generic angles.
pub fn split_top_level(value: &[char], separator: &[char]) -> (r: Option<(Vec<char>, Vec<char>)>)
    ensures
        match (r, split_top(value@, separator@)) {
            (Some((a, b)), Some((x, y))) => a@ == x && b@ == y,
            (None, None) => true,
            _ => false,
        },
{
    let mut depth: usize = 0;
    let mut i: usize = 0;
    while i < value.len()
        invariant
            i <= value@.len(),
            depth == depth_before(value@, i as int),
            depth <= i,
            find_top_level(value@, separator@, 0) == find_top_level(value@, separator@, i as int),
        decreases value@.len() - i,
    {
        let c = value[i];
        if c == '<' {
            depth = depth + 1;
        } else if c == '>' {
            if depth > 0 {
                depth = depth - 1;
            }
        } else if depth == 0 && matches_at(value, separator, i) {
            let a = string_of(value, 0, i);
            let end = i + separator.len();
            let b = string_of(value, end, value.len());
            let av = chars_of(a.as_str());
            let bv = chars_of(b.as_str());
            assert(av@ =~= value@.take(i as int));
            assert(bv@ =~= value@.skip(end as int));
            return Some((av, bv));
        }
        i = i + 1;
    }
    None
}

/// The position of the `>` closing the generics that open at position `i`
/// with nesting `depth` before it; `None` if they never close.
pub open spec fn closing_angle(s: Seq<char>, i: int, depth: nat) -> Option<int>
    decreases s.len() - i,
{
    if i < 0 || i >= s.len() {
        None
    } else if s[i] == '<' {
        closing_angle(s, i + 1, depth + 1)
    } else if s[i] == '>' {
        if depth == 0 {
            None
        } else if depth == 1 {
            Some(i)
        } else {
            closing_angle(s, i + 1, (depth - 1) as nat)
        }
    } else {
        closing_angle(s, i + 1, depth)
    }
}

/// The text after leading `<...>` generics, left-trimmed; unchanged text
/// without generics; `None` when the generics never close.
pub open spec fn after_impl_generics(s: Seq<char>) -> Option<Seq<char>> {
    if !(s.len() > 0 && s[0] == '<') {
        Some(s)
    } else {
        match closing_angle(s, 0, 0) {
            Some(i) => Some(strip_leading(s.skip(i + 1), ws())),
            None => None,
        }
    }
}

fn trim_start_chars(s: &[char]) -> (r: Vec<char>)
    ensures
        r@ == strip_leading(s@, ws()),
{
    let mut i: usize = 0;
    assert(s@.skip(0) =~= s@);
    while i < s.len() && is_whitespace(s[i])
        invariant
            i <= s@.len(),
            strip_leading(s@, ws()) == strip_leading(s@.skip(i as int), ws()),
        decreases s@.len() - i,
    {
        assert(s@.skip(i as int).drop_first() =~= s@.skip(i + 1));
        i = i + 1;
    }
    let t = string_of(s, i, s.len());
    let v = chars_of(t.as_str());
    assert(v@ =~= s@.skip(i as int));
    v
}

/// Removes the generics that follow `impl`.
pub fn strip_impl_generics(value: &[char]) -> (r: Option<Vec<char>>)
    ensures
        match (r, after_impl_generics(value@)) {
            (Some(x), Some(y)) => x@ == y,
            (None, None) => true,
            _ => false,
        },
{
    if !(value.len() > 0 && value[0] == '<') {
        let t = string_of(value, 0, value.len());
        let v = chars_of(t.as_str());
        assert(v@ =~= value@);
        return Some(v);
    }
    let mut depth: usize = 0;
    let mut i: usize = 0;
    while i < value.len()
        invariant
            i <= value@.len(),
            depth <= i,
            value@.len() > 0 && value@[0] == '<',
            closing_angle(value@, 0, 0) == closing_angle(value@, i as int, depth as nat),
        decreases value@.len() - i,
    {
        let c = value[i];
        if c == '<' {
            depth = depth + 1;
        } else if c == '>' {
            if depth == 0 {
                assert(closing_angle(value@, i as int, 0) == None::<int>);
                return None;
            }
            depth = depth - 1;
            if depth == 0 {
                assert(closing_angle(value@, i as int, 1) == Some(i as int));
                let rest = string_of(value, i + 1, value.len());
                let rv = chars_of(rest.as_str());
                assert(rv@ =~= value@.skip(i + 1));
                return Some(trim_start_chars(rv.as_slice()));
            }
        }
        i = i + 1;
    }
    None
}

/// Where the last `::`-separated path segment outside generics starts,
/// scanning from position `i` with nesting `depth` and current start `start`.
pub open spec fn segment_start(s: Seq<char>, i: int, depth: nat, start: int) -> int
    decreases s.len() - i,
{
    if i < 0 || i >= s.len() {
        start
    } else if s[i] == '<' {
        segment_start(s, i + 1, depth + 1, start)
    } else if s[i] == '>' {
        segment_start(s, i + 1, if depth > 0 { (depth - 1) as nat } else { 0 }, start)
    } else if s[i] == ':' && depth == 0 && i + 1 < s.len() && s[i + 1] == ':' {
        segment_start(s, i + 2, depth, i + 2)
    } else {
        segment_start(s, i + 1, depth, start)
    }
}

proof fn lemma_segment_start_bounds(s: Seq<char>, i: int, depth: nat, start: int)
    requires
        0 <= start <= s.len(),
        0 <= i,
    ensures
        0 <= segment_start(s, i, depth, start) <= s.len(),
    decreases s.len() - i,
{
    if i < s.len() {
        if s[i] == '<' {
            lemma_segment_start_bounds(s, i + 1, depth + 1, start);
        } else if s[i] == '>' {
            lemma_segment_start_bounds(s, i + 1, if depth > 0 { (depth - 1) as nat } else { 0 }, start);
        } else if s[i] == ':' && depth == 0 && i + 1 < s.len() && s[i + 1] == ':' {
            lemma_segment_start_bounds(s, i + 2, depth, i + 2);
        } else {
            lemma_segment_start_bounds(s, i + 1, depth, start);
        }
    }
}

/// The last `::`-separated path segment outside generics.
pub open spec fn last_segment(s: Seq<char>) -> Seq<char> {
    s.skip(segment_start(s, 0, 0, 0))
}

/// The last `::`-separated path segment outside generics.
pub fn last_path_segment(value: &[char]) -> (r: Vec<char>)
    ensures
        r@ == last_segment(value@),
{
    let mut depth: usize = 0;
    let mut start: usize = 0;
    let mut i: usize = 0;
    while i < value.len()
        invariant
            i <= value@.len(),
            start <= value@.len(),
            depth <= i,
            segment_start(value@, 0, 0, 0) == segment_start(value@, i as int, depth as nat, start as int),
        decreases value@.len() - i,
    {
        let c = value[i];
        if c == '<' {
            depth = depth + 1;
        } else if c == '>' {
            if depth > 0 {
                depth = depth - 1;
            }
        } else if c == ':' && depth == 0 && i + 1 < value.len() && value[i + 1] == ':' {
            start = i + 2;
            i = i + 1;
        }
        i = i + 1;
    }
    proof {
        lemma_segment_start_bounds(value@, 0, 0, 0);
    }
    let t = string_of(value, start, value.len());
    let v = chars_of(t.as_str());
    assert(v@ =~= value@.skip(start as int));
    v
}

/// The text before the first `c` (all of `s` without one): `split(c).next()`.
pub open spec fn before_first(s: Seq<char>, c: char) -> Seq<char>
    decreases s.len(),
{
    if s.len() == 0 || s[0] == c {
        seq![]
    } else {
        seq![s[0]] + before_first(s.drop_first(), c)
    }
}

pub fn text_before_first(s: &[char], c: char) -> (r: Vec<char>)
    ensures
        r@ == before_first(s@, c),
{
    let mut out: Vec<char> = Vec::new();
    let mut i: usize = 0;
    assert(s@.skip(0) =~= s@);
    while i < s.len() && s[i] != c
        invariant
            i <= s@.len(),
            before_first(s@, c) == out@ + before_first(s@.skip(i as int), c),
        decreases s@.len() - i,
    {
        assert(s@.skip(i as int).drop_first() =~= s@.skip(i + 1));
        out.push(s[i]);
        i = i + 1;
        assert(before_first(s@, c) =~= out@ + before_first(s@.skip(i as int), c));
    }
    assert(before_first(s@.skip(i as int), c) =~= Seq::<char>::empty());
    assert(out@ =~= before_first(s@, c));
    out
}

/// The type named by Rust owner text once its path and generics are removed.
pub open spec fn owner_type_of(v: Seq<char>) -> Option<Seq<char>> {
    let name = trimmed(before_first(last_segment(trimmed(v)), '<'));
    if rust_identifier(name) {
        Some(name)
    } else {
        None
    }
}

/// Owner text after the `<Type as Trait>` and `where` clauses are removed.
pub open spec fn without_qualifiers(v: Seq<char>) -> Seq<char> {
    let v1 = if v.len() >= 2 && v[0] == '<' && v.last() == '>' {
        match split_top(v.subrange(1, v.len() - 1), " as "@) {
            Some((self_type, _)) => self_type,
            None => v,
        }
    } else {
        v
    };
    match split_top(v1, " where "@) {
        Some((self_type, _)) => self_type,
        None => v1,
    }
}

/// The Rust type that owner text such as `impl<T> Job for worker::Worker<T>`,
/// `trait Job` or `<worker::Worker as Job>` names, if the text is safe.
pub open spec fn rust_owner(value: Seq<char>) -> Option<Seq<char>> {
    let v = trimmed(value);
    if v.len() == 0 || has_unsafe_char(v) {
        None
    } else if has_prefix(v, "impl"@) {
        match after_impl_generics(strip_leading(v.skip(4), ws())) {
            None => None,
            Some(g) => {
                let self_type = match split_top(g, " for "@) {
                    Some((_, t)) => t,
                    None => g,
                };
                owner_type_of(without_qualifiers(self_type))
            },
        }
    } else if has_prefix(v, "trait "@) {
        owner_type_of(without_qualifiers(v.skip(6)))
    } else {
        owner_type_of(without_qualifiers(v))
    }
}

fn lit(s: &str) -> (v: Vec<char>)
    ensures
        v@ == s@,
{
    chars_of(s)
}

fn owner_type(v: &[char]) -> (r: Option<Vec<char>>)
    ensures
        match (r, owner_type_of(v@)) {
            (Some(x), Some(y)) => x@ == y,
            (None, None) => true,
            _ => false,
        },
{
    let t = trim_chars(v);
    let seg = last_path_segment(t.as_slice());
    let before = text_before_first(seg.as_slice(), '<');
    let name = trim_chars(before.as_slice());
    if is_rust_identifier(name.as_slice()) {
        Some(name)
    } else {
        None
    }
}

fn strip_qualifiers(v: Vec<char>) -> (r: Vec<char>)
    ensures
        r@ == without_qualifiers(v@),
{
    let ghost start = v@;
    let mut cur = v;
    if cur.len() >= 2 && cur[0] == '<' && cur[cur.len() - 1] == '>' {
        let inner_s = string_of(cur.as_slice(), 1, cur.len() - 1);
        let inner = chars_of(inner_s.as_str());
        let as_sep = lit(" as ");
        match split_top_level(inner.as_slice(), as_sep.as_slice()) {
            Some((self_type, _)) => {
                cur = self_type;
            },
            None => {},
        }
    }
    let where_sep = lit(" where ");
    match split_top_level(cur.as_slice(), where_sep.as_slice()) {
        Some((self_type, _)) => self_type,
        None => cur,
    }
}

/// The Rust type that owner text names, if any.
pub fn rust_container(value: &str) -> (r: Option<Vec<char>>)
    ensures
        match (r, rust_owner(value@)) {
            (Some(x), Some(y)) => x@ == y,
            (None, None) => true,
            _ => false,
        },
{
    let raw = chars_of(value);
    let v = trim_chars(raw.as_slice());
    if v.len() == 0 || unsafe_chars(v.as_slice()) {
        return None;
    }
    let impl_kw = lit("impl");
    let trait_kw = lit("trait ");
    proof {
        reveal_strlit("impl");
        reveal_strlit("trait ");
    }
    if crate::text::starts_with(v.as_slice(), impl_kw.as_slice()) {
        let rest_s = string_of(v.as_slice(), 4, v.len());
        let rest = chars_of(rest_s.as_str());
        assert(rest@ =~= v@.skip(4));
        let trimmed_rest = trim_start_chars(rest.as_slice());
        let generic_free = match strip_impl_generics(trimmed_rest.as_slice()) {
            Some(g) => g,
            None => {
                return None;
            },
        };
        let for_sep = lit(" for ");
        let self_type = match split_top_level(generic_free.as_slice(), for_sep.as_slice()) {
            Some((_, t)) => t,
            None => generic_free,
        };
        owner_type(strip_qualifiers(self_type).as_slice())
    } else if crate::text::starts_with(v.as_slice(), trait_kw.as_slice()) {
        let rest_s = string_of(v.as_slice(), 6, v.len());
        let rest = chars_of(rest_s.as_str());
        assert(rest@ =~= v@.skip(6));
        owner_type(strip_qualifiers(rest).as_slice())
    } else {
        owner_type(strip_qualifiers(v).as_slice())
    }
}

/// Whether owner text describes an impl block, a trait or a qualified self type.
pub open spec fn rust_owner_description(value: Seq<char>) -> bool {
    let v = trimmed(value);
    has_prefix(v, "impl"@) || has_prefix(v, "trait "@) || has_prefix(v, "<"@)
}

/// Whether owner text describes an impl block, a trait or a qualified self type.
pub fn is_rust_owner_description(value: &str) -> (b: bool)
    ensures
        b == rust_owner_description(value@),
{
    let raw = chars_of(value);
    let v = trim_chars(raw.as_slice());
    let a = lit("impl");
    let b = lit("trait ");
    let c = lit("<");
    crate::text::starts_with(v.as_slice(), a.as_slice()) || crate::text::starts_with(
        v.as_slice(),
        b.as_slice(),
    ) || crate::text::starts_with(v.as_slice(), c.as_slice())
}

/// `Type::name` for a Rust method, constructor or associated function whose
/// owner text names a type; otherwise `name`.
pub open spec fn rust_qualified(name: Seq<char>, kind: u32, container: Option<Seq<char>>) -> Seq<char> {
    if has_path_sep(name) {
        name
    } else {
        match container {
            None => name,
            Some(text) => {
                let associated = kind == SYMBOL_KIND_FUNCTION && rust_owner_description(text);
                if !is_method_kind(kind) && !associated {
                    name
                } else {
                    match rust_owner(text) {
                        Some(t) => qualified(t, name),
                        None => name,
                    }
                }
            },
        }
    }
}

/// Qualifies a Rust callable with the type its owner text names.
pub fn rust_callable(name: &str, kind: u32, container: Option<&str>) -> (r: String)
    ensures
        r@ == rust_qualified(
            name@,
            kind,
            match container {
                Some(c) => Some(c@),
                None => None,
            },
        ),
{
    let n = chars_of(name);
    if contains_path_sep(n.as_slice()) {
        return name.to_owned();
    }
    let text = match container {
        None => {
            return name.to_owned();
        },
        Some(t) => t,
    };
    let associated = kind == SYMBOL_KIND_FUNCTION && is_rust_owner_description(text);
    if !(kind == SYMBOL_KIND_METHOD || kind == SYMBOL_KIND_CONSTRUCTOR) && !associated {
        return name.to_owned();
    }
    match rust_container(text) {
        Some(t) => qualify(t.as_slice(), name),
        None => name.to_owned(),
    }
}

// ---------------------------------------------------------------- adapters

/// The name a workspace symbol is shown under.
pub open spec fn workspace_symbol_name(
    adapter: SymbolNameAdapter,
    name: Seq<char>,
    kind: u32,
    container: Option<Seq<char>>,
) -> Seq<char> {
    match adapter {
        SymbolNameAdapter::Standard => qualified_callable(
            name,
            kind,
            match container {
                Some(c) => plain_container(c),
                None => None,
            },
        ),
        SymbolNameAdapter::RustAnalyzer => rust_qualified(name, kind, container),
        SymbolNameAdapter::Pyrefly => python_qualified(
            name,
            kind,
            match container {
                Some(c) => python_container(c),
                None => None,
            },
        ),
    }
}

/// The name a call-hierarchy item is shown under.  Generic servers keep the
/// bare name (their `detail` is free display text); rust-analyzer qualifies
/// with the document-symbol container first and the detail second.
pub open spec fn hierarchy_item_name(
    adapter: SymbolNameAdapter,
    name: Seq<char>,
    kind: u32,
    detail: Option<Seq<char>>,
    document_container: Option<Seq<char>>,
) -> Seq<char> {
    match adapter {
        SymbolNameAdapter::Standard => name,
        SymbolNameAdapter::RustAnalyzer => {
            let normalized = rust_qualified(name, kind, document_container);
            if normalized == name {
                rust_qualified(name, kind, detail)
            } else {
                normalized
            }
        },
        SymbolNameAdapter::Pyrefly => python_qualified(
            name,
            kind,
            match detail {
                Some(d) => python_detail_owner(d),
                None => None,
            },
        ),
    }
}

impl SymbolNameAdapter {
    /// The adapter for a server: by its name when given, else by its program.
    pub fn detect(program: &str, server_name: Option<&str>) -> (a: Self)
        ensures
            a == adapter_for(
                match server_name {
                    Some(n) => profile_of(n@),
                    None => profile_of(program@),
                },
            ),
    {
        let profile = match server_name {
            Some(n) => from_name(n),
            None => from_program(program),
        };
        match profile {
            ServerProfile::RustAnalyzer => SymbolNameAdapter::RustAnalyzer,
            ServerProfile::Pyrefly => SymbolNameAdapter::Pyrefly,
            ServerProfile::Clangd | ServerProfile::Standard => SymbolNameAdapter::Standard,
        }
    }

    /// The name a workspace symbol is shown under.
    pub fn workspace_symbol(self, name: &str, kind: u32, container_name: Option<&str>) -> (r: String)
        ensures
            r@ == workspace_symbol_name(
                self,
                name@,
                kind,
                match container_name {
                    Some(c) => Some(c@),
                    None => None,
                },
            ),
    {
        match self {
            SymbolNameAdapter::Standard => {
                let container = match container_name {
                    Some(c) => safe_container(c),
                    None => None,
                };
                match container {
                    Some(c) => qualify_callable(name, kind, Some(c.as_slice())),
                    None => qualify_callable(name, kind, None),
                }
            },
            SymbolNameAdapter::RustAnalyzer => rust_callable(name, kind, container_name),
            SymbolNameAdapter::Pyrefly => python_workspace_callable(name, kind, container_name),
        }
    }

    /// Whether hierarchy items need the document's symbols to find their owner.
    pub fn uses_document_symbols(self) -> (b: bool)
        ensures
            b == (self == SymbolNameAdapter::RustAnalyzer),
    {
        self == SymbolNameAdapter::RustAnalyzer
    }

    /// Whether the server is pyrefly.
    pub fn is_pyrefly(self) -> (b: bool)
        ensures
            b == (self == SymbolNameAdapter::Pyrefly),
    {
        self == SymbolNameAdapter::Pyrefly
    }

    /// The name a call-hierarchy item is shown under.
    pub fn call_hierarchy_item(
        self,
        name: &str,
        kind: u32,
        detail: Option<&str>,
        document_container: Option<&str>,
    ) -> (r: String)
        ensures
            r@ == hierarchy_item_name(
                self,
                name@,
                kind,
                match detail {
                    Some(d) => Some(d@),
                    None => None,
                },
                match document_container {
                    Some(c) => Some(c@),
                    None => None,
                },
            ),
    {
        match self {
            SymbolNameAdapter::Standard => name.to_owned(),
            SymbolNameAdapter::RustAnalyzer => {
                let normalized = rust_callable(name, kind, document_container);
                if crate::text::str_eq(normalized.as_str(), name) {
                    rust_callable(name, kind, detail)
                } else {
                    normalized
                }
            },
            SymbolNameAdapter::Pyrefly => pyrefly_hierarchy_callable(name, kind, detail),
        }
    }
}


/// A generic server's method or constructor whose name is not yet a path
/// is shown under its safe container, joined with `::`; constructors are
/// qualified exactly as methods are.
pub proof fn lemma_callables_take_their_container(name: Seq<char>, kind: u32, container: Seq<char>)
    requires
        kind == 6 || kind == 9,
        forall|i: int| 0 <= i < name.len() - 1 ==> !(name[i] == ':' && #[trigger] name[i + 1] == ':'),
    ensures
        plain_container(container) matches Some(c) ==> workspace_symbol_name(
            SymbolNameAdapter::Standard,
            name,
            kind,
            Some(container),
        ) == c + seq![':', ':'] + name,
        workspace_symbol_name(SymbolNameAdapter::Standard, name, 9, Some(container)) == workspace_symbol_name(
            SymbolNameAdapter::Standard,
            name,
            6,
            Some(container),
        ),
{
    assert(!has_path_sep(name)) by {
        if has_path_sep(name) {
            let i = choose|i: int| #[trigger] occurs_at(name, path_sep(), i);
            assert(name.subrange(i, i + 2) == path_sep());
            assert(name[i] == name.subrange(i, i + 2)[0]);
            assert(name[i + 1] == name.subrange(i, i + 2)[1]);
        }
    }
}

} // verus!
