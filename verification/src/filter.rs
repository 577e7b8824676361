//! Ordered project-local filtering rules.
//!
//! One ordered rule list holds both namespaces: a rule whose text (after an
//! optional leading `!`) starts with `#` is a symbol rule, every other rule is
//! a file-path rule.  A rule excludes what it matches; a leading `!` includes
//! it again.  Rules are evaluated in written order and the last matching rule
//! wins, as in `.gitignore`.
use vstd::prelude::*;
use crate::text::{
    chars_eq, chars_of, contains_char, split_chars, split_on, string_of, trim_char, trim_chars,
    trimmed, trimmed_char, views,
};

verus! {

/// Special pattern that matches every candidate in either namespace.
pub const FILTER_ALL: &'static str = "<all>";

/// Special path pattern that matches paths outside the workspace.
pub const FILTER_WORKSPACE: &'static str = "<workspace>";

/// The characters of `FILTER_ALL`.
pub open spec fn all_token() -> Seq<char> {
    seq!['<', 'a', 'l', 'l', '>']
}

/// The characters of `FILTER_WORKSPACE`.
pub open spec fn workspace_token() -> Seq<char> {
    seq!['<', 'w', 'o', 'r', 'k', 's', 'p', 'a', 'c', 'e', '>']
}

#[derive(Clone, Copy, Debug, PartialEq, Eq, Structural)]
pub enum FilterAction {
    Include,
    Exclude,
}

#[derive(Clone, Debug, PartialEq, Eq)]
pub enum FilterPattern {
    All,
    Workspace,
    Glob(String),
}

#[derive(Clone, Debug, PartialEq, Eq)]
pub enum FilterRule {
    FilePath { action: FilterAction, pattern: FilterPattern },
    Symbol { action: FilterAction, pattern: FilterPattern },
}

/// Which namespace a rule or a candidate belongs to.
#[derive(Clone, Copy, Debug, PartialEq, Eq, Structural)]
pub enum MatchKind {
    Symbol,
    Path,
}

/// Why a rule list was refused.
#[derive(Clone, Copy, Debug, PartialEq, Eq, Structural)]
pub enum FilterError {
    /// A rule is empty after trimming.
    EmptyPattern,
    /// A rule is a lone `!`.
    BareBang,
    /// `<workspace>` was used in a symbol rule.
    WorkspaceNotPath,
    /// A glob contains a NUL character.
    NulInPattern,
}

/// The human-readable message of a filter error.
pub open spec fn filter_error_message(e: FilterError) -> Seq<char> {
    match e {
        FilterError::EmptyPattern => "filter contains an empty pattern"@,
        FilterError::BareBang => "filter contains a bare ! pattern"@,
        FilterError::WorkspaceNotPath => "<workspace> is only valid for file-path rules"@,
        FilterError::NulInPattern => "filter pattern must not contain NUL"@,
    }
}

impl FilterError {
    /// The human-readable message of the error.
    pub fn message(&self) -> (s: String)
        ensures
            s@ == filter_error_message(*self),
    {
        match self {
            FilterError::EmptyPattern => "filter contains an empty pattern".to_string(),
            FilterError::BareBang => "filter contains a bare ! pattern".to_string(),
            FilterError::WorkspaceNotPath => "<workspace> is only valid for file-path rules".to_string(),
            FilterError::NulInPattern => "filter pattern must not contain NUL".to_string(),
        }
    }
}

/// Mathematical form of a pattern.
pub enum PatternSpec {
    All,
    Workspace,
    Glob(Seq<char>),
}

/// Mathematical form of a rule.
pub struct RuleSpec {
    pub kind: MatchKind,
    pub action: FilterAction,
    pub pattern: PatternSpec,
}

impl View for FilterPattern {
    type V = PatternSpec;

    open spec fn view(&self) -> PatternSpec {
        match self {
            FilterPattern::All => PatternSpec::All,
            FilterPattern::Workspace => PatternSpec::Workspace,
            FilterPattern::Glob(g) => PatternSpec::Glob(g@),
        }
    }
}

impl View for FilterRule {
    type V = RuleSpec;

    open spec fn view(&self) -> RuleSpec {
        match self {
            FilterRule::FilePath { action, pattern } => RuleSpec {
                kind: MatchKind::Path,
                action: *action,
                pattern: pattern@,
            },
            FilterRule::Symbol { action, pattern } => RuleSpec {
                kind: MatchKind::Symbol,
                action: *action,
                pattern: pattern@,
            },
        }
    }
}

// ---------------------------------------------------------------- parsing

/// The rule `raw` parsed in namespace `kind`.
pub open spec fn parse_rule_spec(raw: Seq<char>, kind: MatchKind) -> Result<RuleSpec, FilterError> {
    let r = trimmed(raw);
    if r.len() == 0 {
        Err(FilterError::EmptyPattern)
    } else {
        let reinclude = r[0] == '!';
        let action = if reinclude { FilterAction::Include } else { FilterAction::Exclude };
        let body = if reinclude { r.drop_first() } else { r };
        if body.len() == 0 {
            Err(FilterError::BareBang)
        } else if body == all_token() {
            Ok(RuleSpec { kind, action, pattern: PatternSpec::All })
        } else if body == workspace_token() {
            if kind == MatchKind::Path {
                Ok(RuleSpec { kind, action, pattern: PatternSpec::Workspace })
            } else {
                Err(FilterError::WorkspaceNotPath)
            }
        } else if body.contains('\0') {
            Err(FilterError::NulInPattern)
        } else {
            Ok(RuleSpec { kind, action, pattern: PatternSpec::Glob(body) })
        }
    }
}

/// The text and namespace that one written rule is parsed as: `#name` and
/// `!#name` select the symbol namespace (as `name` and `!name`).
pub open spec fn classify_rule(raw: Seq<char>) -> (Seq<char>, MatchKind) {
    let t = trimmed(raw);
    let negated = t.len() > 0 && t[0] == '!';
    let marker = if negated { t.drop_first() } else { t };
    if marker.len() > 0 && marker[0] == '#' {
        let name = marker.drop_first();
        (if negated { seq!['!'] + name } else { name }, MatchKind::Symbol)
    } else {
        (t, MatchKind::Path)
    }
}

/// One written rule parsed.
pub open spec fn written_rule_spec(raw: Seq<char>) -> Result<RuleSpec, FilterError> {
    parse_rule_spec(classify_rule(raw).0, classify_rule(raw).1)
}

/// The first error among the first `n` written rules, if any.
pub open spec fn first_error(raws: Seq<Seq<char>>, n: int) -> Option<FilterError>
    decreases n,
{
    if n <= 0 {
        None
    } else {
        match first_error(raws, n - 1) {
            Some(e) => Some(e),
            None => match written_rule_spec(raws[n - 1]) {
                Err(e) => Some(e),
                Ok(_) => None,
            },
        }
    }
}

fn chars_of_all() -> (v: Vec<char>)
    ensures
        v@ == all_token(),
{
    let v = chars_of("<all>");
    proof {
        reveal_strlit("<all>");
    }
    assert(v@ =~= all_token());
    v
}

fn chars_of_workspace() -> (v: Vec<char>)
    ensures
        v@ == workspace_token(),
{
    let v = chars_of("<workspace>");
    proof {
        reveal_strlit("<workspace>");
    }
    assert(v@ =~= workspace_token());
    v
}

/// Parses one rule of namespace `kind`.
pub fn parse_filter_rule(raw: &[char], kind: MatchKind) -> (r: Result<FilterRule, FilterError>)
    ensures
        match (r, parse_rule_spec(raw@, kind)) {
            (Ok(rule), Ok(spec)) => rule@ == spec,
            (Err(e), Err(es)) => e == es,
            _ => false,
        },
{
    let t = trim_chars(raw);
    if t.len() == 0 {
        return Err(FilterError::EmptyPattern);
    }
    let reinclude = t[0] == '!';
    let action = if reinclude { FilterAction::Include } else { FilterAction::Exclude };
    let start: usize = if reinclude { 1 } else { 0 };
    let body = string_of(t.as_slice(), start, t.len());
    let body_chars = chars_of(body.as_str());
    proof {
        if reinclude {
            assert(t@.subrange(1, t@.len() as int) =~= t@.drop_first());
        } else {
            assert(t@.subrange(0, t@.len() as int) =~= t@);
        }
    }
    if body_chars.len() == 0 {
        return Err(FilterError::BareBang);
    }
    let all = chars_of_all();
    let workspace = chars_of_workspace();
    let pattern = if chars_eq(body_chars.as_slice(), all.as_slice()) {
        FilterPattern::All
    } else if chars_eq(body_chars.as_slice(), workspace.as_slice()) {
        if kind == MatchKind::Path {
            FilterPattern::Workspace
        } else {
            return Err(FilterError::WorkspaceNotPath);
        }
    } else {
        validate_glob(body_chars.as_slice())?;
        FilterPattern::Glob(body)
    };
    match kind {
        MatchKind::Symbol => Ok(FilterRule::Symbol { action, pattern }),
        MatchKind::Path => Ok(FilterRule::FilePath { action, pattern }),
    }
}

/// Refuses a glob that contains NUL.
pub fn validate_glob(pattern: &[char]) -> (r: Result<(), FilterError>)
    ensures
        r is Ok <==> !pattern@.contains('\0'),
        r matches Err(e) ==> e == FilterError::NulInPattern,
{
    if contains_char(pattern, '\0') {
        Err(FilterError::NulInPattern)
    } else {
        Ok(())
    }
}

/// The text and namespace of one written rule (exec form of `classify_rule`).
fn classify(raw: &str) -> (r: (Vec<char>, MatchKind))
    ensures
        r.0@ == classify_rule(raw@).0,
        r.1 == classify_rule(raw@).1,
{
    let v = chars_of(raw);
    let t = trim_chars(v.as_slice());
    let negated = t.len() > 0 && t[0] == '!';
    let start: usize = if negated { 1 } else { 0 };
    proof {
        if negated {
            assert(t@.subrange(1, t@.len() as int) =~= t@.drop_first());
        } else {
            assert(t@.subrange(0, t@.len() as int) =~= t@);
        }
    }
    if start < t.len() && t[start] == '#' {
        let mut name: Vec<char> = Vec::new();
        if negated {
            name.push('!');
        }
        let mut i = start + 1;
        let ghost marker = t@.subrange(start as int, t@.len() as int);
        assert(name@ + marker.drop_first().take(0) =~= (if negated { seq!['!'] } else { seq![] }));
        while i < t.len()
            invariant
                start + 1 <= i <= t@.len(),
                marker == t@.subrange(start as int, t@.len() as int),
                name@ == (if negated { seq!['!'] } else { Seq::<char>::empty() }) + marker.drop_first().take(i - start - 1),
            decreases t@.len() - i,
        {
            name.push(t[i]);
            i = i + 1;
            assert(name@ =~= (if negated { seq!['!'] } else { Seq::<char>::empty() }) + marker.drop_first().take(i - start - 1));
        }
        assert(marker.drop_first().take(i - start - 1) =~= marker.drop_first());
        proof {
            if !negated {
                assert(name@ =~= marker.drop_first());
            }
        }
        (name, MatchKind::Symbol)
    } else {
        (t, MatchKind::Path)
    }
}

// ---------------------------------------------------------------- globs

/// The kind of one lexical element of a glob; a token is a kind with the
/// character it stands for (only meaningful for `Exact`).
pub enum GlobToken {
    Exact,
    /// `*`: any run of characters (not crossing `/` unless stars cross separators).
    Star,
    /// `**`: any run of characters, `/` included.
    DoubleStar,
}

/// The tokens of a glob, read left to right.
pub open spec fn glob_tokens(p: Seq<char>) -> Seq<(GlobToken, char)>
    decreases p.len(),
{
    if p.len() == 0 {
        seq![]
    } else if p[0] == '*' && p.len() > 1 && p[1] == '*' {
        seq![(GlobToken::DoubleStar, '*')] + glob_tokens(p.skip(2))
    } else if p[0] == '*' {
        seq![(GlobToken::Star, '*')] + glob_tokens(p.skip(1))
    } else {
        seq![(GlobToken::Exact, p[0])] + glob_tokens(p.skip(1))
    }
}

/// Whether the token sequence `t` matches all of `c`.
pub open spec fn tokens_match(t: Seq<(GlobToken, char)>, c: Seq<char>, star_crosses: bool) -> bool
    decreases t.len(), c.len(),
{
    if t.len() == 0 {
        c.len() == 0
    } else {
        match t.last().0 {
            GlobToken::Exact => c.len() > 0 && c.last() == t.last().1 && tokens_match(
                t.drop_last(),
                c.drop_last(),
                star_crosses,
            ),
            GlobToken::Star => tokens_match(t.drop_last(), c, star_crosses) || (c.len() > 0 && (
            star_crosses || c.last() != '/') && tokens_match(t, c.drop_last(), star_crosses)),
            GlobToken::DoubleStar => tokens_match(t.drop_last(), c, star_crosses) || (c.len() > 0
                && tokens_match(t, c.drop_last(), star_crosses)),
        }
    }
}

/// Whether glob `p` matches all of `c`; `star_crosses` lets a single `*` match `/`.
pub open spec fn glob_match(p: Seq<char>, c: Seq<char>, star_crosses: bool) -> bool {
    tokens_match(glob_tokens(p), c, star_crosses)
}

proof fn lemma_take_drop_last(c: Seq<char>, j: int)
    requires
        0 < j <= c.len(),
    ensures
        c.take(j).drop_last() == c.take(j - 1),
        c.take(j).last() == c[j - 1],
{
    assert(c.take(j).drop_last() =~= c.take(j - 1));
}

/// The next dynamic-programming row after appending token `tok` to `done`:
/// entry `j` tells whether `done + [tok]` matches the first `j` characters.
fn next_row(
    previous: &Vec<bool>,
    candidate: &[char],
    star_matches_separator: bool,
    is_star: bool,
    double_star: bool,
    x: char,
    Ghost(done): Ghost<Seq<(GlobToken, char)>>,
    Ghost(tok): Ghost<(GlobToken, char)>,
) -> (current: Vec<bool>)
    requires
        previous@.len() == candidate@.len() + 1,
        forall|j: int|
            0 <= j <= candidate@.len() ==> previous@[j] == tokens_match(
                done,
                candidate@.take(j),
                star_matches_separator,
            ),
        tok == (if !is_star {
            (GlobToken::Exact, x)
        } else if double_star {
            (GlobToken::DoubleStar, '*')
        } else {
            (GlobToken::Star, '*')
        }),
    ensures
        current@.len() == candidate@.len() + 1,
        forall|j: int|
            0 <= j <= candidate@.len() ==> current@[j] == tokens_match(
                done.push(tok),
                candidate@.take(j),
                star_matches_separator,
            ),
{
    let n = candidate.len();
    let ghost c = candidate@;
    let ghost next = done.push(tok);
    assert(next.drop_last() =~= done);
    assert(next.last() == tok);
    assert(c.take(0) =~= Seq::<char>::empty());
    let matches_separator = star_matches_separator || double_star;
    let mut current: Vec<bool> = Vec::new();
    if is_star {
        current.push(previous[0]);
    } else {
        current.push(false);
    }
    let mut m: usize = 0;
    while m < n
        invariant
            n == c.len(),
            c == candidate@,
            m <= n,
            previous@.len() == n + 1,
            current@.len() == m + 1,
            next == done.push(tok),
            next.drop_last() == done,
            next.last() == tok,
            next.len() > 0,
            matches_separator == (star_matches_separator || double_star),
            tok == (if !is_star {
                (GlobToken::Exact, x)
            } else if double_star {
                (GlobToken::DoubleStar, '*')
            } else {
                (GlobToken::Star, '*')
            }),
            forall|j: int|
                0 <= j <= n ==> previous@[j] == tokens_match(done, c.take(j), star_matches_separator),
            forall|j: int|
                0 <= j <= m ==> current@[j] == tokens_match(next, c.take(j), star_matches_separator),
        decreases n - m,
    {
        let value = if is_star {
            previous[m + 1] || (current[m] && (matches_separator || candidate[m] != '/'))
        } else {
            previous[m] && candidate[m] == x
        };
        proof {
            lemma_take_drop_last(c, m + 1);
        }
        current.push(value);
        m = m + 1;
    }
    current
}

/// Wildcard matching of a whole candidate: `*` matches any run of characters
/// (but not `/` unless `star_matches_separator`), `**` matches any run.
pub fn wildcard_matches(pattern: &[char], candidate: &[char], star_matches_separator: bool) -> (r:
    bool)
    ensures
        r == glob_match(pattern@, candidate@, star_matches_separator),
{
    let n = candidate.len();
    let ghost c = candidate@;
    let ghost p = pattern@;
    let mut previous: Vec<bool> = Vec::new();
    previous.push(true);
    let mut k: usize = 0;
    while k < n
        invariant
            n == c.len(),
            k <= n,
            previous@.len() == k + 1,
            forall|j: int|
                0 <= j <= k ==> previous@[j] == tokens_match(
                    seq![],
                    c.take(j),
                    star_matches_separator,
                ),
        decreases n - k,
    {
        previous.push(false);
        k = k + 1;
        assert(tokens_match(seq![], c.take(k as int), star_matches_separator) == false);
    }
    let ghost mut done: Seq<(GlobToken, char)> = seq![];
    let mut pattern_index: usize = 0;
    assert(p.skip(0) =~= p);
    while pattern_index < pattern.len()
        invariant
            n == c.len(),
            p == pattern@,
            c == candidate@,
            pattern_index <= p.len(),
            previous@.len() == n + 1,
            glob_tokens(p) == done + glob_tokens(p.skip(pattern_index as int)),
            forall|j: int|
                0 <= j <= n ==> previous@[j] == tokens_match(
                    done,
                    c.take(j),
                    star_matches_separator,
                ),
        decreases p.len() - pattern_index,
    {
        let ghost rest = p.skip(pattern_index as int);
        let x = pattern[pattern_index];
        let is_star = x == '*';
        let double_star = is_star && pattern_index + 1 < pattern.len() && pattern[pattern_index
            + 1] == '*';
        let ghost tok = if !is_star {
            (GlobToken::Exact, x)
        } else if double_star {
            (GlobToken::DoubleStar, '*')
        } else {
            (GlobToken::Star, '*')
        };
        let current = next_row(
            &previous,
            candidate,
            star_matches_separator,
            is_star,
            double_star,
            x,
            Ghost(done),
            Ghost(tok),
        );
        proof {
            assert(rest[0] == x);
            if double_star {
                assert(rest.len() > 1 && rest[1] == '*');
                assert(rest.skip(2) =~= p.skip(pattern_index + 2));
                assert(glob_tokens(rest) == seq![(GlobToken::DoubleStar, '*')] + glob_tokens(rest.skip(2)));
                assert(done + glob_tokens(rest) =~= done.push(tok) + glob_tokens(
                    p.skip(pattern_index + 2),
                ));
            } else {
                assert(rest.len() > 1 ==> rest[1] == p[pattern_index + 1]);
                assert(rest.len() > 0);
                if is_star {
                    assert(rest[0] == '*');
                    assert(!(rest.len() > 1 && rest[1] == '*'));
                    assert(tok == (GlobToken::Star, '*'));
                    assert(glob_tokens(rest) == seq![(GlobToken::Star, '*')] + glob_tokens(rest.skip(1)));
                } else {
                    assert(rest[0] != '*');
                    assert(tok == (GlobToken::Exact, rest[0]));
                    assert(glob_tokens(rest) == seq![(GlobToken::Exact, rest[0])] + glob_tokens(rest.skip(1)));
                }
                assert(rest.skip(1) =~= p.skip(pattern_index + 1));
                assert(done + glob_tokens(rest) =~= done.push(tok) + glob_tokens(
                    p.skip(pattern_index + 1),
                ));
            }
            done = done.push(tok);
        }
        previous = current;
        if double_star {
            pattern_index = pattern_index + 2;
        } else {
            pattern_index = pattern_index + 1;
        }
    }
    assert(p.skip(pattern_index as int) =~= Seq::<char>::empty());
    assert(done =~= glob_tokens(p));
    assert(c.take(n as int) =~= c);
    previous[n]
}

/// The `**` path segment.
pub open spec fn double_star_segment() -> Seq<char> {
    seq!['*', '*']
}

/// Whether the glob segments `p` match the path segments `c` one to one, a
/// `**` segment matching any number of path segments.
pub open spec fn segments_match(p: Seq<Seq<char>>, c: Seq<Seq<char>>) -> bool
    decreases p.len(), c.len(),
{
    if p.len() == 0 {
        c.len() == 0
    } else if p.last() == double_star_segment() {
        segments_match(p.drop_last(), c) || (c.len() > 0 && segments_match(p, c.drop_last()))
    } else {
        c.len() > 0 && glob_match(p.last(), c.last(), false) && segments_match(
            p.drop_last(),
            c.drop_last(),
        )
    }
}

/// Whether path glob `pattern` matches path `candidate`: leading and trailing
/// `/` are ignored; a glob without `/` matches any single path segment, other
/// globs match segment by segment.
pub open spec fn path_glob_spec(pattern: Seq<char>, candidate: Seq<char>) -> bool {
    let p = trimmed_char(pattern, '/');
    let c = trimmed_char(candidate, '/');
    if !p.contains('/') {
        exists|k: int|
            0 <= k < split_on(c, '/').len() && #[trigger] glob_match(
                p,
                split_on(c, '/')[k],
                false,
            )
    } else {
        segments_match(split_on(p, '/'), split_on(c, '/'))
    }
}

proof fn lemma_segs_take_drop_last(c: Seq<Seq<char>>, j: int)
    requires
        0 < j <= c.len(),
    ensures
        c.take(j).drop_last() == c.take(j - 1),
        c.take(j).last() == c[j - 1],
{
    assert(c.take(j).drop_last() =~= c.take(j - 1));
}

fn is_double_star(segment: &[char]) -> (r: bool)
    ensures
        r == (segment@ == double_star_segment()),
{
    let r = segment.len() == 2 && segment[0] == '*' && segment[1] == '*';
    proof {
        if r {
            assert(segment@ =~= double_star_segment());
        }
    }
    r
}

/// Matches a path against a path glob.
pub fn path_glob_matches(pattern: &[char], candidate: &[char]) -> (r: bool)
    ensures
        r == path_glob_spec(pattern@, candidate@),
{
    let p = trim_char(pattern, '/');
    let c = trim_char(candidate, '/');
    let candidate_segments = split_chars(c.as_slice(), '/');
    let ghost cs = split_on(c@, '/');
    if !contains_char(p.as_slice(), '/') {
        let mut k: usize = 0;
        while k < candidate_segments.len()
            invariant
                !p@.contains('/'),
                p@ == trimmed_char(pattern@, '/'),
                c@ == trimmed_char(candidate@, '/'),
                cs == split_on(c@, '/'),
                k <= candidate_segments@.len(),
                candidate_segments@.len() == cs.len(),
                forall|m: int|
                    0 <= m < candidate_segments@.len() ==> #[trigger] candidate_segments@[m]@
                        == cs[m],
                forall|m: int| 0 <= m < k ==> !glob_match(p@, #[trigger] cs[m], false),
            decreases candidate_segments@.len() - k,
        {
            if wildcard_matches(p.as_slice(), candidate_segments[k].as_slice(), false) {
                assert(candidate_segments@[k as int]@ == cs[k as int]);
                assert(glob_match(p@, cs[k as int], false));
                return true;
            }
            k = k + 1;
        }
        return false;
    }
    let pattern_segments = split_chars(p.as_slice(), '/');
    let ghost ps = split_on(p@, '/');
    let n = candidate_segments.len();
    let mut previous: Vec<bool> = Vec::new();
    previous.push(true);
    let mut k: usize = 0;
    while k < n
        invariant
            n == cs.len(),
            k <= n,
            previous@.len() == k + 1,
            forall|j: int|
                0 <= j <= k ==> previous@[j] == segments_match(seq![], cs.take(j)),
        decreases n - k,
    {
        previous.push(false);
        k = k + 1;
    }
    let mut i: usize = 0;
    assert(ps.take(0) =~= Seq::<Seq<char>>::empty());
    while i < pattern_segments.len()
        invariant
            n == cs.len(),
            i <= ps.len(),
            pattern_segments@.len() == ps.len(),
            candidate_segments@.len() == cs.len(),
            forall|m: int|
                0 <= m < pattern_segments@.len() ==> #[trigger] pattern_segments@[m]@ == ps[m],
            forall|m: int|
                0 <= m < candidate_segments@.len() ==> #[trigger] candidate_segments@[m]@ == cs[m],
            previous@.len() == n + 1,
            forall|j: int|
                0 <= j <= n ==> previous@[j] == segments_match(ps.take(i as int), cs.take(j)),
        decreases ps.len() - i,
    {
        let ghost done = ps.take(i as int);
        let ghost next = ps.take(i + 1);
        assert(next.drop_last() =~= done);
        assert(next.last() == ps[i as int]);
        assert(cs.take(0) =~= Seq::<Seq<char>>::empty());
        let segment = pattern_segments[i].as_slice();
        let double = is_double_star(segment);
        let mut current: Vec<bool> = Vec::new();
        if double {
            current.push(previous[0]);
        } else {
            current.push(false);
        }
        let mut m: usize = 0;
        while m < n
            invariant
                n == cs.len(),
                m <= n,
                i < ps.len(),
                candidate_segments@.len() == cs.len(),
                forall|q: int|
                    0 <= q < candidate_segments@.len() ==> #[trigger] candidate_segments@[q]@
                        == cs[q],
                segment@ == ps[i as int],
                double == (segment@ == double_star_segment()),
                next == ps.take(i + 1),
                done == ps.take(i as int),
                next.drop_last() == done,
                next.last() == ps[i as int],
                next.len() > 0,
                previous@.len() == n + 1,
                current@.len() == m + 1,
                forall|j: int| 0 <= j <= n ==> previous@[j] == segments_match(done, cs.take(j)),
                forall|j: int| 0 <= j <= m ==> current@[j] == segments_match(next, cs.take(j)),
            decreases n - m,
        {
            let value = if double {
                previous[m + 1] || current[m]
            } else {
                previous[m] && wildcard_matches(segment, candidate_segments[m].as_slice(), false)
            };
            proof {
                lemma_segs_take_drop_last(cs, m + 1);
            }
            current.push(value);
            m = m + 1;
        }
        previous = current;
        i = i + 1;
    }
    assert(ps.take(ps.len() as int) =~= ps);
    assert(cs.take(n as int) =~= cs);
    previous[n]
}

// ---------------------------------------------------------------- paths

/// A path piece that names something: not empty and not `.`.
pub open spec fn significant(segment: Seq<char>) -> bool {
    segment.len() > 0 && segment != seq!['.']
}

/// The significant pieces of `segments`, in order.
pub open spec fn keep_significant(segments: Seq<Seq<char>>) -> Seq<Seq<char>>
    decreases segments.len(),
{
    if segments.len() == 0 {
        seq![]
    } else if significant(segments.last()) {
        keep_significant(segments.drop_last()).push(segments.last())
    } else {
        keep_significant(segments.drop_last())
    }
}

/// The named components of a `/`-separated path.
pub open spec fn path_components(path: Seq<char>) -> Seq<Seq<char>> {
    keep_significant(split_on(path, '/'))
}

/// Whether a path is rooted.
pub open spec fn is_absolute(path: Seq<char>) -> bool {
    path.len() > 0 && path[0] == '/'
}

/// Whether `path` lies under `root`, component by component.
pub open spec fn within(path: Seq<char>, root: Seq<char>) -> bool {
    &&& is_absolute(path) == is_absolute(root)
    &&& path_components(root).len() <= path_components(path).len()
    &&& path_components(path).take(path_components(root).len() as int) == path_components(root)
}

/// The pieces of `segments` joined by `sep`.
pub open spec fn join_with(segments: Seq<Seq<char>>, sep: char) -> Seq<char>
    decreases segments.len(),
{
    if segments.len() == 0 {
        seq![]
    } else if segments.len() == 1 {
        segments[0]
    } else {
        join_with(segments.drop_last(), sep) + seq![sep] + segments.last()
    }
}

/// `s` with every backslash turned into a slash.
pub open spec fn with_slashes(s: Seq<char>) -> Seq<char> {
    s.map_values(|c: char| if c == '\\' { '/' } else { c })
}

/// The text a path is matched as relative to `root`: the components below
/// the root joined by `/`, or the whole path when it lies outside the root.
pub open spec fn relative_text(path: Seq<char>, root: Seq<char>) -> Seq<char> {
    if within(path, root) {
        with_slashes(
            join_with(
                path_components(path).skip(path_components(root).len() as int),
                '/',
            ),
        )
    } else {
        with_slashes(path)
    }
}

/// The named components of a `/`-separated path (exec form of `path_components`).
pub fn components(path: &[char]) -> (r: Vec<Vec<char>>)
    ensures
        views(r@) == path_components(path@),
{
    let pieces = split_chars(path, '/');
    let ghost all = split_on(path@, '/');
    let mut out: Vec<Vec<char>> = Vec::new();
    let mut i: usize = 0;
    assert(all.take(0) =~= Seq::<Seq<char>>::empty());
    assert(views(out@) =~= keep_significant(all.take(0)));
    while i < pieces.len()
        invariant
            i <= pieces@.len(),
            pieces@.len() == all.len(),
            forall|m: int| 0 <= m < pieces@.len() ==> #[trigger] pieces@[m]@ == all[m],
            views(out@) == keep_significant(all.take(i as int)),
        decreases pieces@.len() - i,
    {
        let piece = &pieces[i];
        let ghost before = views(out@);
        assert(all.take(i + 1).drop_last() =~= all.take(i as int));
        assert(all.take(i + 1).last() == all[i as int]);
        let dot = piece.len() == 1 && piece[0] == '.';
        proof {
            if dot {
                assert(piece@ =~= seq!['.']);
            }
            if piece@ == seq!['.'] {
                assert(piece@[0] == '.');
            }
        }
        if piece.len() > 0 && !dot {
            out.push(piece.clone());
            assert(views(out@) =~= before.push(all[i as int]));
        }
        i = i + 1;
    }
    assert(all.take(all.len() as int) =~= all);
    out
}

fn join_from(segments: &Vec<Vec<char>>, from: usize) -> (r: Vec<char>)
    requires
        from <= segments@.len(),
    ensures
        r@ == join_with(views(segments@).skip(from as int), '/'),
{
    let ghost all = views(segments@);
    let mut out: Vec<char> = Vec::new();
    let mut i = from;
    assert(all.subrange(from as int, from as int) =~= Seq::<Seq<char>>::empty());
    while i < segments.len()
        invariant
            from <= i <= segments@.len(),
            all == views(segments@),
            out@ == join_with(all.subrange(from as int, i as int), '/'),
        decreases segments@.len() - i,
    {
        let ghost prefix = all.subrange(from as int, i as int);
        let ghost next = all.subrange(from as int, i + 1);
        assert(next.drop_last() =~= prefix);
        assert(next.last() == segments@[i as int]@);
        if i > from {
            out.push('/');
        }
        let piece = &segments[i];
        let mut k: usize = 0;
        let ghost base = out@;
        while k < piece.len()
            invariant
                k <= piece@.len(),
                out@ == base + piece@.take(k as int),
            decreases piece@.len() - k,
        {
            out.push(piece[k]);
            k = k + 1;
            assert(out@ =~= base + piece@.take(k as int));
        }
        assert(piece@.take(k as int) =~= piece@);
        proof {
            if i > from {
                assert(out@ =~= join_with(prefix, '/') + seq!['/'] + piece@);
            } else {
                assert(prefix.len() == 0);
                assert(out@ =~= piece@);
            }
        }
        i = i + 1;
    }
    assert(all.subrange(from as int, segments@.len() as int) =~= all.skip(from as int));
    out
}

fn slashes(s: &[char]) -> (r: Vec<char>)
    ensures
        r@ == with_slashes(s@),
{
    let mut out: Vec<char> = Vec::new();
    let mut i: usize = 0;
    while i < s.len()
        invariant
            i <= s@.len(),
            out@ == with_slashes(s@.take(i as int)),
        decreases s@.len() - i,
    {
        let c = s[i];
        out.push(if c == '\\' { '/' } else { c });
        i = i + 1;
        assert(out@ =~= with_slashes(s@.take(i as int)));
    }
    assert(s@.take(i as int) =~= s@);
    out
}

fn segments_prefix(path: &Vec<Vec<char>>, root: &Vec<Vec<char>>) -> (r: bool)
    ensures
        r == (views(root@).len() <= views(path@).len() && views(path@).take(
            views(root@).len() as int,
        ) == views(root@)),
{
    if root.len() > path.len() {
        return false;
    }
    let mut i: usize = 0;
    while i < root.len()
        invariant
            root@.len() <= path@.len(),
            i <= root@.len(),
            forall|k: int| 0 <= k < i ==> path@[k]@ == root@[k]@,
        decreases root@.len() - i,
    {
        if !chars_eq(path[i].as_slice(), root[i].as_slice()) {
            assert(views(path@).take(root@.len() as int)[i as int] == path@[i as int]@);
            return false;
        }
        i = i + 1;
    }
    assert(views(path@).take(root@.len() as int) =~= views(root@));
    true
}

/// Whether `path` lies under `root` (exec form).
pub fn path_within(path: &[char], root: &[char]) -> (r: bool)
    ensures
        r == within(path@, root@),
{
    let path_absolute = path.len() > 0 && path[0] == '/';
    let root_absolute = root.len() > 0 && root[0] == '/';
    if path_absolute != root_absolute {
        return false;
    }
    let pc = components(path);
    let rc = components(root);
    segments_prefix(&pc, &rc)
}

/// The text a path is matched as, relative to `root` (exec form).
pub fn relative_path(path: &[char], root: &[char]) -> (r: Vec<char>)
    ensures
        r@ == relative_text(path@, root@),
{
    if path_within(path, root) {
        let pc = components(path);
        let rc = components(root);
        let joined = join_from(&pc, rc.len());
        slashes(joined.as_slice())
    } else {
        slashes(path)
    }
}

// ---------------------------------------------------------------- rules

/// Whether a pattern matches a candidate of namespace `kind`.
pub open spec fn pattern_matches_spec(
    pattern: PatternSpec,
    candidate: Seq<char>,
    kind: MatchKind,
    outside_workspace: bool,
) -> bool {
    match pattern {
        PatternSpec::All => true,
        PatternSpec::Workspace => outside_workspace,
        PatternSpec::Glob(g) => match kind {
            MatchKind::Symbol => glob_match(g, candidate, true),
            MatchKind::Path => path_glob_spec(g, candidate),
        },
    }
}

/// Whether a rule matches a candidate given by its symbol name and its path
/// (relative and absolute text).
pub open spec fn rule_matches_spec(
    rule: RuleSpec,
    symbol: Option<Seq<char>>,
    relative: Option<Seq<char>>,
    absolute: Option<Seq<char>>,
    outside_workspace: bool,
) -> bool {
    match rule.kind {
        MatchKind::Symbol => match symbol {
            Some(s) => pattern_matches_spec(rule.pattern, s, MatchKind::Symbol, outside_workspace),
            None => false,
        },
        MatchKind::Path => match relative {
            Some(rel) => pattern_matches_spec(rule.pattern, rel, MatchKind::Path, outside_workspace)
                || match absolute {
                Some(abs) => abs != rel && pattern_matches_spec(
                    rule.pattern,
                    abs,
                    MatchKind::Path,
                    outside_workspace,
                ),
                None => false,
            },
            None => false,
        },
    }
}

/// Whether a candidate is included after the first `n` rules, starting from
/// `initial`: the last matching rule decides.
pub open spec fn included_after(
    rules: Seq<RuleSpec>,
    n: int,
    initial: bool,
    symbol: Option<Seq<char>>,
    relative: Option<Seq<char>>,
    absolute: Option<Seq<char>>,
    outside_workspace: bool,
) -> bool
    decreases n,
{
    if n <= 0 {
        initial
    } else if rule_matches_spec(rules[n - 1], symbol, relative, absolute, outside_workspace) {
        rules[n - 1].action == FilterAction::Include
    } else {
        included_after(rules, n - 1, initial, symbol, relative, absolute, outside_workspace)
    }
}

/// Evaluates one pattern against a candidate.
pub fn pattern_matches(
    pattern: &FilterPattern,
    candidate: &[char],
    kind: MatchKind,
    outside_workspace: bool,
) -> (r: bool)
    ensures
        r == pattern_matches_spec(pattern@, candidate@, kind, outside_workspace),
{
    match pattern {
        FilterPattern::All => true,
        FilterPattern::Workspace => outside_workspace,
        FilterPattern::Glob(g) => {
            let gv = chars_of(g.as_str());
            match kind {
                MatchKind::Symbol => wildcard_matches(gv.as_slice(), candidate, true),
                MatchKind::Path => path_glob_matches(gv.as_slice(), candidate),
            }
        },
    }
}

fn opt_view(v: &Option<Vec<char>>) -> (r: Ghost<Option<Seq<char>>>)
    ensures
        r@ == (match v {
            Some(x) => Some(x@),
            None => None,
        }),
{
    Ghost(
        match v {
            Some(x) => Some(x@),
            None => None,
        },
    )
}

impl FilterRule {
    /// Whether the rule includes or excludes what it matches.
    pub fn action(&self) -> (a: FilterAction)
        ensures
            a == self@.action,
    {
        match self {
            FilterRule::FilePath { action, .. } => *action,
            FilterRule::Symbol { action, .. } => *action,
        }
    }

    /// Whether the rule matches a candidate.
    pub fn matches(
        &self,
        symbol: Option<&[char]>,
        relative_path: Option<&[char]>,
        absolute_path: Option<&[char]>,
        outside_workspace: bool,
    ) -> (r: bool)
        ensures
            r == rule_matches_spec(
                self@,
                match symbol {
                    Some(s) => Some(s@),
                    None => None,
                },
                match relative_path {
                    Some(s) => Some(s@),
                    None => None,
                },
                match absolute_path {
                    Some(s) => Some(s@),
                    None => None,
                },
                outside_workspace,
            ),
    {
        match self {
            FilterRule::Symbol { pattern, .. } => match symbol {
                Some(s) => pattern_matches(pattern, s, MatchKind::Symbol, outside_workspace),
                None => false,
            },
            FilterRule::FilePath { pattern, .. } => match relative_path {
                Some(rel) => {
                    if pattern_matches(pattern, rel, MatchKind::Path, outside_workspace) {
                        true
                    } else {
                        match absolute_path {
                            Some(abs) => !chars_eq(abs, rel) && pattern_matches(
                                pattern,
                                abs,
                                MatchKind::Path,
                                outside_workspace,
                            ),
                            None => false,
                        }
                    }
                },
                None => false,
            },
        }
    }
}

// ---------------------------------------------------------------- config

/// The ordered rules of one project, with the workspace-only default.
#[derive(Clone, Debug, PartialEq, Eq)]
pub struct FilterConfig {
    pub rules: Vec<FilterRule>,
    workspace_only: bool,
}

/// A configuration in mathematical form.
pub struct FilterConfigView {
    pub rules: Seq<RuleSpec>,
    pub workspace_only: bool,
}

impl View for FilterConfig {
    type V = FilterConfigView;

    closed spec fn view(&self) -> FilterConfigView {
        FilterConfigView { rules: rule_views(self.rules@), workspace_only: self.workspace_only }
    }
}

/// The rules of a configuration in mathematical form.
pub open spec fn rule_views(rules: Seq<FilterRule>) -> Seq<RuleSpec> {
    Seq::new(rules.len(), |i: int| rules[i]@)
}

/// Whether a candidate is ignored: paths outside the workspace start out
/// excluded when `workspace_only`, everything else starts out included, and
/// the last matching rule decides.
pub open spec fn ignored_spec(
    rules: Seq<RuleSpec>,
    workspace_only: bool,
    symbol: Option<Seq<char>>,
    path: Option<Seq<char>>,
    root: Seq<char>,
) -> bool {
    let inside = match path {
        Some(p) => within(p, root),
        None => true,
    };
    let relative = match path {
        Some(p) => Some(relative_text(p, root)),
        None => None,
    };
    let absolute = match path {
        Some(p) => Some(with_slashes(p)),
        None => None,
    };
    !included_after(
        rules,
        rules.len() as int,
        !workspace_only || inside,
        symbol,
        relative,
        absolute,
        !inside,
    )
}

/// The written rules as character sequences.
pub open spec fn written(rules: Seq<&str>) -> Seq<Seq<char>> {
    Seq::new(rules.len(), |i: int| rules[i]@)
}

impl FilterConfig {
    /// An empty rule list limited to the workspace.
    pub fn new_default() -> (c: Self)
        ensures
            c@.rules.len() == 0,
            c@.workspace_only,
    {
        FilterConfig { rules: Vec::new(), workspace_only: true }
    }

    /// Parses a written rule list; the first invalid rule decides the error.
    pub fn from_rules(rules: &[&str], workspace_only: bool) -> (r: Result<Self, FilterError>)
        ensures
            match first_error(written(rules@), rules@.len() as int) {
                Some(e) => r == Err::<Self, FilterError>(e),
                None => r matches Ok(c) && c@.workspace_only == workspace_only
                    && c@.rules.len() == rules@.len() && forall|k: int|
                    0 <= k < rules@.len() ==> written_rule_spec(#[trigger] rules@[k]@) == Ok::<
                        RuleSpec,
                        FilterError,
                    >(c@.rules[k]),
            },
    {
        let mut parsed: Vec<FilterRule> = Vec::new();
        let mut i: usize = 0;
        while i < rules.len()
            invariant
                i <= rules@.len(),
                first_error(written(rules@), i as int) is None,
                parsed@.len() == i,
                forall|k: int|
                    0 <= k < i ==> written_rule_spec(#[trigger] rules@[k]@) == Ok::<
                        RuleSpec,
                        FilterError,
                    >(parsed@[k]@),
            decreases rules@.len() - i,
        {
            let (text, kind) = classify(rules[i]);
            let rule = parse_filter_rule(text.as_slice(), kind);
            assert(written(rules@)[i as int] == rules@[i as int]@);
            match rule {
                Ok(rule) => {
                    parsed.push(rule);
                },
                Err(e) => {
                    proof {
                        lemma_first_error_stays(written(rules@), i as int + 1, rules@.len() as int);
                    }
                    return Err(e);
                },
            }
            i = i + 1;
        }
        let c = FilterConfig { rules: parsed, workspace_only };
        assert(c@.rules =~= rule_views(parsed@));
        Ok(c)
    }

    /// Whether rules only admit workspace paths by default.
    pub fn workspace_only(&self) -> (b: bool)
        ensures
            b == self@.workspace_only,
    {
        self.workspace_only
    }

    /// Whether a symbol name is ignored.
    pub fn is_ignored_symbol(&self, symbol: &str) -> (b: bool)
        ensures
            b == ignored_spec(self@.rules, self@.workspace_only, Some(symbol@), None, seq!['.']),
    {
        self.is_ignored(Some(symbol), None, ".")
    }

    /// Whether a path is ignored.
    pub fn is_ignored_path(&self, path: &str, workspace_root: &str) -> (b: bool)
        ensures
            b == ignored_spec(self@.rules, self@.workspace_only, None, Some(path@), workspace_root@),
    {
        self.is_ignored(None, Some(path), workspace_root)
    }

    /// Whether a symbol defined at a path is kept.
    pub fn is_visible_symbol_path(&self, symbol: &str, path: &str, workspace_root: &str) -> (b: bool)
        ensures
            b == !ignored_spec(self@.rules, self@.workspace_only, Some(symbol@), Some(path@), workspace_root@),
    {
        !self.is_ignored(Some(symbol), Some(path), workspace_root)
    }

    /// Evaluates all matching file and symbol rules in written order; the
    /// last matching rule decides.  Paths are matched as written: callers
    /// resolve relative paths against the working directory first.
    pub fn is_ignored(&self, symbol: Option<&str>, path: Option<&str>, workspace_root: &str) -> (b:
        bool)
        ensures
            b == ignored_spec(
                self@.rules,
                self@.workspace_only,
                match symbol {
                    Some(s) => Some(s@),
                    None => None,
                },
                match path {
                    Some(p) => Some(p@),
                    None => None,
                },
                workspace_root@,
            ),
    {
        let root = chars_of(workspace_root);
        let symbol_chars: Option<Vec<char>> = match symbol {
            Some(s) => Some(chars_of(s)),
            None => None,
        };
        let path_chars: Option<Vec<char>> = match path {
            Some(p) => Some(chars_of(p)),
            None => None,
        };
        let inside = match &path_chars {
            Some(p) => path_within(p.as_slice(), root.as_slice()),
            None => true,
        };
        let absolute: Option<Vec<char>> = match &path_chars {
            Some(p) => Some(slashes(p.as_slice())),
            None => None,
        };
        let relative: Option<Vec<char>> = match &path_chars {
            Some(p) => Some(relative_path(p.as_slice(), root.as_slice())),
            None => None,
        };
        let ghost sym_v = match symbol {
            Some(s) => Some(s@),
            None => None::<Seq<char>>,
        };
        let ghost rel_v = match &relative {
            Some(x) => Some(x@),
            None => None::<Seq<char>>,
        };
        let ghost abs_v = match &absolute {
            Some(x) => Some(x@),
            None => None::<Seq<char>>,
        };
        let ghost rules_v = rule_views(self.rules@);
        let initial = !self.workspace_only || inside;
        let mut included = initial;
        let mut i: usize = 0;
        while i < self.rules.len()
            invariant
                i <= self.rules@.len(),
                rules_v == rule_views(self.rules@),
                included == included_after(rules_v, i as int, initial, sym_v, rel_v, abs_v, !inside),
                sym_v == (match &symbol_chars {
                    Some(x) => Some(x@),
                    None => None::<Seq<char>>,
                }),
                rel_v == (match &relative {
                    Some(x) => Some(x@),
                    None => None::<Seq<char>>,
                }),
                abs_v == (match &absolute {
                    Some(x) => Some(x@),
                    None => None::<Seq<char>>,
                }),
            decreases self.rules@.len() - i,
        {
            let sym_slice: Option<&[char]> = match &symbol_chars {
                Some(v) => Some(v.as_slice()),
                None => None,
            };
            let rel_slice: Option<&[char]> = match &relative {
                Some(v) => Some(v.as_slice()),
                None => None,
            };
            let abs_slice: Option<&[char]> = match &absolute {
                Some(v) => Some(v.as_slice()),
                None => None,
            };
            let rule = &self.rules[i];
            assert(rules_v[i as int] == rule@);
            if rule.matches(sym_slice, rel_slice, abs_slice, !inside) {
                included = rule.action() == FilterAction::Include;
            }
            i = i + 1;
        }
        !included
    }
}

proof fn lemma_first_error_stays(raws: Seq<Seq<char>>, from: int, to: int)
    requires
        0 < from <= to,
        first_error(raws, from) is Some,
    ensures
        first_error(raws, to) == first_error(raws, from),
    decreases to - from,
{
    if to > from {
        lemma_first_error_stays(raws, from, to - 1);
    }
}


/// Splitting a text without the separator gives one piece: the text so far
/// and the rest.
proof fn lemma_split_no_sep(s: Seq<char>, sep: char, cur: Seq<char>)
    requires
        !s.contains(sep),
    ensures
        crate::text::split_from(s, sep, cur) == seq![cur + s],
    decreases s.len(),
{
    if s.len() == 0 {
        assert(cur + s =~= cur);
    } else {
        assert(s.drop_first().len() < s.len());
        assert(!s.drop_first().contains(sep)) by {
            if s.drop_first().contains(sep) {
                let k = choose|k: int| 0 <= k < s.drop_first().len() && s.drop_first()[k] == sep;
                assert(s[k + 1] == sep);
            }
        }
        assert(s[0] != sep) by {
            if s[0] == sep {
                assert(s.contains(sep));
            }
        }
        lemma_split_no_sep(s.drop_first(), sep, cur.push(s[0]));
        assert(cur.push(s[0]) + s.drop_first() =~= cur + s);
    }
}

/// The last piece of `x + sep + name`, where `name` has no separator, is
/// `name`.
proof fn lemma_split_last(x: Seq<char>, sep: char, name: Seq<char>, cur: Seq<char>)
    requires
        !name.contains(sep),
    ensures
        crate::text::split_from(x + seq![sep] + name, sep, cur).len() > 0,
        crate::text::split_from(x + seq![sep] + name, sep, cur).last() == name,
    decreases x.len(),
{
    let s = x + seq![sep] + name;
    if x.len() == 0 {
        assert(s[0] == sep);
        assert(s.drop_first() =~= name);
        lemma_split_no_sep(name, sep, seq![]);
        assert(seq![] + name =~= name);
    } else {
        assert(s.drop_first() =~= x.drop_first() + seq![sep] + name);
        assert(s[0] == x[0]);
        if x[0] == sep {
            lemma_split_last(x.drop_first(), sep, name, seq![]);
        } else {
            lemma_split_last(x.drop_first(), sep, name, cur.push(x[0]));
        }
    }
}

/// A path glob without `/` matches a path whose last segment it matches, as
/// it matches a path of that one segment: a file-name glob such as `*.pb.go`
/// catches the file in any directory.
pub proof fn lemma_glob_without_slash_matches_the_file_name(
    pattern: Seq<char>,
    candidate: Seq<char>,
    directory: Seq<char>,
    name: Seq<char>,
)
    requires
        !trimmed_char(pattern, '/').contains('/'),
        !name.contains('/'),
        trimmed_char(candidate, '/') == directory + seq!['/'] + name || trimmed_char(candidate, '/') == name,
        glob_match(trimmed_char(pattern, '/'), name, false),
    ensures
        path_glob_spec(pattern, candidate),
{
    let c = trimmed_char(candidate, '/');
    if c == directory + seq!['/'] + name {
        lemma_split_last(directory, '/', name, seq![]);
        let k = split_on(c, '/').len() - 1;
        assert(split_on(c, '/')[k] == name);
    } else {
        lemma_split_no_sep(name, '/', seq![]);
        assert(seq![] + name =~= name);
        assert(split_on(c, '/')[0] == name);
    }
}

} // verus!
