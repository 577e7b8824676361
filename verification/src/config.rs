//! Project-local configuration: symbol filters and the optional
//! language-server command, normalised and validated after parsing.
use vstd::prelude::*;
use crate::filter::{components, path_components};
use crate::text::views;
use crate::text::{
    chars_eq, chars_of, contains_char, ends_with, has_suffix, is_char, push_char, str_to_lowercase,
    string_of, strip_leading, to_lowercase, trim, trim_chars, trimmed,
};

verus! {

/// Name of the project configuration file inside the workspace root.
pub const PROJECT_CONFIG_FILE: &'static str = ".cgraph.toml";

/// Why a configuration was refused.
#[derive(Clone, Copy, Debug, PartialEq, Eq, Structural)]
pub enum ConfigError {
    /// A symbol filter is empty after trimming.
    EmptySymbolPattern,
    /// `lsp.name` is blank.
    EmptyName,
    /// `lsp.command` is blank.
    EmptyCommand,
    /// `lsp.args` holds an empty argument.
    EmptyArgument,
    /// `lsp.file_extensions` is an empty list.
    NoExtensions,
    /// An extension is empty after normalisation.
    EmptyExtension,
    /// An extension holds a path separator, a wildcard or a dot.
    NotPlainExtension,
}

/// The human-readable message of a configuration error.
pub open spec fn config_error_message(e: ConfigError) -> Seq<char> {
    match e {
        ConfigError::EmptySymbolPattern => "symbol filter contains an empty pattern"@,
        ConfigError::EmptyName => "lsp.name must not be empty"@,
        ConfigError::EmptyCommand => "lsp.command must not be empty"@,
        ConfigError::EmptyArgument => "lsp.args must not contain empty arguments"@,
        ConfigError::NoExtensions => "lsp.file_extensions must contain at least one extension"@,
        ConfigError::EmptyExtension => "lsp.file_extensions must not contain empty extensions"@,
        ConfigError::NotPlainExtension => "lsp.file_extensions entries must be plain extensions without paths or wildcards"@,
    }
}

impl ConfigError {
    /// The human-readable message of the error.
    pub fn message(&self) -> (s: String)
        ensures
            s@ == config_error_message(*self),
    {
        match self {
            ConfigError::EmptySymbolPattern => "symbol filter contains an empty pattern".to_string(),
            ConfigError::EmptyName => "lsp.name must not be empty".to_string(),
            ConfigError::EmptyCommand => "lsp.command must not be empty".to_string(),
            ConfigError::EmptyArgument => "lsp.args must not contain empty arguments".to_string(),
            ConfigError::NoExtensions => "lsp.file_extensions must contain at least one extension".to_string(),
            ConfigError::EmptyExtension => "lsp.file_extensions must not contain empty extensions".to_string(),
            ConfigError::NotPlainExtension => "lsp.file_extensions entries must be plain extensions without paths or wildcards".to_string(),
        }
    }
}

/// The characters held by a sequence of strings.
pub open spec fn string_views(v: Seq<String>) -> Seq<Seq<char>> {
    Seq::new(v.len(), |i: int| v[i]@)
}

/// The characters held by a sequence of string slices.
pub open spec fn str_views(v: Seq<&str>) -> Seq<Seq<char>> {
    Seq::new(v.len(), |i: int| v[i]@)
}

// ---------------------------------------------------------------- symbol filter

/// Whether pattern `p` matches all of `c`, each `*` matching any run of characters.
pub open spec fn star_match(p: Seq<char>, c: Seq<char>) -> bool
    decreases p.len(), c.len(),
{
    if p.len() == 0 {
        c.len() == 0
    } else if p.last() == '*' {
        star_match(p.drop_last(), c) || (c.len() > 0 && star_match(p, c.drop_last()))
    } else {
        c.len() > 0 && c.last() == p.last() && star_match(p.drop_last(), c.drop_last())
    }
}

proof fn lemma_take_last(s: Seq<char>, j: int)
    requires
        0 < j <= s.len(),
    ensures
        s.take(j).drop_last() == s.take(j - 1),
        s.take(j).last() == s[j - 1],
{
    assert(s.take(j).drop_last() =~= s.take(j - 1));
}

/// Whole-string wildcard match where `*` matches any run of characters.
pub fn wildcard_matches(pattern: &[char], candidate: &[char]) -> (r: bool)
    ensures
        r == star_match(pattern@, candidate@),
{
    let n = candidate.len();
    let ghost c = candidate@;
    let ghost p = pattern@;
    let mut previous: Vec<bool> = Vec::new();
    previous.push(true);
    let mut k: usize = 0;
    while k < n
        invariant
            n == c.len(),
            k <= n,
            previous@.len() == k + 1,
            forall|j: int| 0 <= j <= k ==> previous@[j] == star_match(seq![], c.take(j)),
        decreases n - k,
    {
        previous.push(false);
        k = k + 1;
    }
    let mut i: usize = 0;
    assert(p.take(0) =~= Seq::<char>::empty());
    while i < pattern.len()
        invariant
            n == c.len(),
            c == candidate@,
            p == pattern@,
            i <= p.len(),
            previous@.len() == n + 1,
            forall|j: int| 0 <= j <= n ==> previous@[j] == star_match(p.take(i as int), c.take(j)),
        decreases p.len() - i,
    {
        let x = pattern[i];
        proof {
            lemma_take_last(p, i + 1);
        }
        assert(c.take(0) =~= Seq::<char>::empty());
        let mut current: Vec<bool> = Vec::new();
        if x == '*' {
            current.push(previous[0]);
        } else {
            current.push(false);
        }
        let mut m: usize = 0;
        while m < n
            invariant
                n == c.len(),
                c == candidate@,
                p == pattern@,
                i < p.len(),
                x == p[i as int],
                m <= n,
                previous@.len() == n + 1,
                current@.len() == m + 1,
                p.take(i + 1).drop_last() == p.take(i as int),
                p.take(i + 1).last() == x,
                forall|j: int| 0 <= j <= n ==> previous@[j] == star_match(p.take(i as int), c.take(j)),
                forall|j: int| 0 <= j <= m ==> current@[j] == star_match(p.take(i + 1), c.take(j)),
            decreases n - m,
        {
            let value = if x == '*' {
                previous[m + 1] || current[m]
            } else {
                previous[m] && candidate[m] == x
            };
            proof {
                lemma_take_last(c, m + 1);
            }
            current.push(value);
            m = m + 1;
        }
        previous = current;
        i = i + 1;
    }
    assert(p.take(p.len() as int) =~= p);
    assert(c.take(n as int) =~= c);
    previous[n]
}

/// Symbol names to hide, as trimmed and de-duplicated wildcard patterns.
#[derive(Clone, Debug, PartialEq, Eq)]
pub struct SymbolFilter {
    patterns: Vec<String>,
}

/// The de-duplicated trimmed patterns of the first `n` written patterns.
pub open spec fn normalized_patterns(raw: Seq<Seq<char>>, n: int) -> Seq<Seq<char>>
    decreases n,
{
    if n <= 0 {
        seq![]
    } else {
        let before = normalized_patterns(raw, n - 1);
        let t = trimmed(raw[n - 1]);
        if before.contains(t) {
            before
        } else {
            before.push(t)
        }
    }
}

/// Whether one of the first `n` written patterns is blank.
pub open spec fn has_blank(raw: Seq<Seq<char>>, n: int) -> bool {
    exists|k: int| 0 <= k < n && #[trigger] trimmed(raw[k]).len() == 0
}

impl View for SymbolFilter {
    type V = Seq<Seq<char>>;

    closed spec fn view(&self) -> Seq<Seq<char>> {
        string_views(self.patterns@)
    }
}

fn contains_string(list: &Vec<String>, item: &[char]) -> (r: bool)
    ensures
        r == string_views(list@).contains(item@),
{
    let mut i: usize = 0;
    while i < list.len()
        invariant
            i <= list@.len(),
            forall|k: int| 0 <= k < i ==> list@[k]@ != item@,
        decreases list@.len() - i,
    {
        let v = chars_of(list[i].as_str());
        if chars_eq(v.as_slice(), item) {
            assert(string_views(list@)[i as int] == item@);
            return true;
        }
        i = i + 1;
    }
    proof {
        if string_views(list@).contains(item@) {
            let k = choose|k: int| 0 <= k < string_views(list@).len() && string_views(list@)[k] == item@;
            assert(list@[k]@ == item@);
        }
    }
    false
}

impl SymbolFilter {
    /// A filter that hides nothing.
    pub fn empty() -> (f: Self)
        ensures
            f@.len() == 0,
    {
        let f = SymbolFilter { patterns: Vec::new() };
        assert(f@ =~= Seq::<Seq<char>>::empty());
        f
    }

    /// Trims every pattern, refuses a blank one and drops repeats.
    pub fn from_patterns(patterns: &[&str]) -> (r: Result<Self, ConfigError>)
        ensures
            has_blank(str_views(patterns@), patterns@.len() as int) ==> r == Err::<Self, ConfigError>(ConfigError::EmptySymbolPattern),
            !has_blank(str_views(patterns@), patterns@.len() as int) ==> (r matches Ok(f) && f@
                == normalized_patterns(str_views(patterns@), patterns@.len() as int)),
    {
        let ghost raw = str_views(patterns@);
        let mut normalized: Vec<String> = Vec::new();
        let mut i: usize = 0;
        while i < patterns.len()
            invariant
                i <= patterns@.len(),
                raw == str_views(patterns@),
                !has_blank(raw, i as int),
                string_views(normalized@) == normalized_patterns(raw, i as int),
            decreases patterns@.len() - i,
        {
            let pattern = trim(patterns[i]);
            let pv = chars_of(pattern.as_str());
            assert(raw[i as int] == patterns@[i as int]@);
            if pv.len() == 0 {
                proof {
                    assert(trimmed(raw[i as int]).len() == 0);
                    assert(has_blank(raw, patterns@.len() as int));
                }
                return Err(ConfigError::EmptySymbolPattern);
            }
            if !contains_string(&normalized, pv.as_slice()) {
                let ghost before = string_views(normalized@);
                normalized.push(pattern);
                assert(string_views(normalized@) =~= before.push(pv@));
            }
            i = i + 1;
        }
        let f = SymbolFilter { patterns: normalized };
        Ok(f)
    }

    /// Whether a symbol name matches one of the patterns.
    pub fn is_ignored(&self, symbol_name: &str) -> (b: bool)
        ensures
            b == exists|k: int| 0 <= k < self@.len() && #[trigger] star_match(self@[k], symbol_name@),
    {
        let candidate = chars_of(symbol_name);
        let mut i: usize = 0;
        while i < self.patterns.len()
            invariant
                i <= self.patterns@.len(),
                candidate@ == symbol_name@,
                self@ == string_views(self.patterns@),
                forall|k: int| 0 <= k < i ==> !star_match(self@[k], symbol_name@),
            decreases self.patterns@.len() - i,
        {
            let p = chars_of(self.patterns[i].as_str());
            if wildcard_matches(p.as_slice(), candidate.as_slice()) {
                assert(star_match(self@[i as int], symbol_name@));
                return true;
            }
            i = i + 1;
        }
        false
    }
}

// ---------------------------------------------------------------- language server

/// The language-server section of the project configuration.
#[derive(Clone, Debug, PartialEq, Eq)]
pub struct LspSettings {
    pub name: String,
    pub command: String,
    pub args: Vec<String>,
    pub file_extensions: Option<Vec<String>>,
}

/// Marker for "no name was written": the name is then derived from the command.
pub open spec fn missing_name_chars() -> Seq<char> {
    seq![
        '_', '_', 'c', 'g', 'r', 'a', 'p', 'h', '_', 'm', 'i', 's', 's', 'i', 'n', 'g', '_', 'n',
        'a', 'm', 'e', '_', '_',
    ]
}

/// The placeholder name that stands for "no name written".
pub fn missing_name() -> (s: String)
    ensures
        s@ == missing_name_chars(),
{
    let s = "__cgraph_missing_name__".to_string();
    proof {
        reveal_strlit("__cgraph_missing_name__");
    }
    assert(s@ =~= missing_name_chars());
    s
}

/// `s` with every trailing copy of `suffix` removed (`str::trim_end_matches`).
pub open spec fn strip_suffix_all(s: Seq<char>, suffix: Seq<char>) -> Seq<char>
    decreases s.len(),
{
    if suffix.len() > 0 && has_suffix(s, suffix) {
        strip_suffix_all(s.take(s.len() - suffix.len()), suffix)
    } else {
        s
    }
}

/// `.exe`
pub open spec fn exe_suffix() -> Seq<char> {
    seq!['.', 'e', 'x', 'e']
}

/// The last named component of a path, unless it is `..`.
pub open spec fn file_name(path: Seq<char>) -> Option<Seq<char>> {
    let parts = path_components(path);
    if parts.len() == 0 || parts.last() == seq!['.', '.'] {
        None
    } else {
        Some(parts.last())
    }
}

/// The server name derived from a command: the executable's file name
/// without any `.exe` suffix.
pub open spec fn name_from_command(command: Seq<char>) -> Seq<char> {
    strip_suffix_all(
        match file_name(command) {
            Some(n) => n,
            None => command,
        },
        exe_suffix(),
    )
}

/// Removes every trailing copy of `suffix`.
pub fn trim_end_matches(s: &[char], suffix: &[char]) -> (r: Vec<char>)
    ensures
        r@ == strip_suffix_all(s@, suffix@),
{
    let mut end = s.len();
    let ghost sv = s@;
    assert(sv.take(end as int) =~= sv);
    loop
        invariant
            end <= sv.len(),
            sv == s@,
            strip_suffix_all(sv, suffix@) == strip_suffix_all(sv.take(end as int), suffix@),
        decreases end,
    {
        let cur = string_of(s, 0, end);
        let cv = chars_of(cur.as_str());
        assert(cv@ =~= sv.take(end as int));
        if suffix.len() > 0 && ends_with(cv.as_slice(), suffix) {
            assert(sv.take(end as int).take(end - suffix@.len()) =~= sv.take(end - suffix@.len()));
            end = end - suffix.len();
        } else {
            return cv;
        }
    }
}

/// The last named component of a path (exec form of `file_name`).
pub fn path_file_name(path: &[char]) -> (r: Option<Vec<char>>)
    ensures
        match (r, file_name(path@)) {
            (Some(x), Some(y)) => x@ == y,
            (None, None) => true,
            _ => false,
        },
{
    let parts = components(path);
    if parts.len() == 0 {
        return None;
    }
    let last = &parts[parts.len() - 1];
    assert(views(parts@).last() == last@);
    if last.len() == 2 && last[0] == '.' && last[1] == '.' {
        assert(last@ =~= seq!['.', '.']);
        return None;
    }
    proof {
        if last@ == seq!['.', '.'] {
            assert(last@[0] == '.' && last@[1] == '.');
        }
    }
    Some(last.clone())
}

fn exe() -> (v: Vec<char>)
    ensures
        v@ == exe_suffix(),
{
    let v = chars_of(".exe");
    proof {
        reveal_strlit(".exe");
    }
    assert(v@ =~= exe_suffix());
    v
}

/// The settings after normalisation, or the error that refuses them.
pub open spec fn normalized_settings(
    name: Seq<char>,
    command: Seq<char>,
    args: Seq<Seq<char>>,
    extensions: Option<Seq<Seq<char>>>,
) -> Result<(Seq<char>, Seq<char>, Option<Seq<Seq<char>>>), ConfigError> {
    if name != missing_name_chars() && trimmed(name).len() == 0 {
        Err(ConfigError::EmptyName)
    } else if trimmed(command).len() == 0 {
        Err(ConfigError::EmptyCommand)
    } else if exists|k: int| 0 <= k < args.len() && #[trigger] args[k].len() == 0 {
        Err(ConfigError::EmptyArgument)
    } else {
        let new_name = if name == missing_name_chars() {
            name_from_command(trimmed(command))
        } else {
            trimmed(name)
        };
        match extensions {
            None => Ok((new_name, trimmed(command), None)),
            Some(e) => match normalized_extensions(e) {
                Ok(n) => Ok((new_name, trimmed(command), Some(n))),
                Err(err) => Err(err),
            },
        }
    }
}

impl LspSettings {
    /// All fields empty, with the name marked as not written.
    pub fn empty() -> (s: Self)
        ensures
            s.name@ == missing_name_chars(),
            s.command@.len() == 0,
            s.args@.len() == 0,
            s.file_extensions is None,
    {
        LspSettings {
            name: missing_name(),
            command: String::new(),
            args: Vec::new(),
            file_extensions: None,
        }
    }

    /// The commented template written into a new project configuration:
    /// the default settings.
    pub fn template() -> (s: Self)
        ensures
            is_default_settings(s),
    {
        Self::default()
    }
}

/// rust-analyzer
pub open spec fn rust_analyzer_chars() -> Seq<char> {
    seq!['r', 'u', 's', 't', '-', 'a', 'n', 'a', 'l', 'y', 'z', 'e', 'r']
}

/// The default settings: rust-analyzer for `.rs` files.
pub open spec fn is_default_settings(s: LspSettings) -> bool {
    &&& s.name@ == rust_analyzer_chars()
    &&& s.command@ == rust_analyzer_chars()
    &&& s.args@.len() == 0
    &&& s.file_extensions matches Some(e) && string_views(e@) == seq![seq!['r', 's']]
}

impl Default for LspSettings {
    /// The default settings: rust-analyzer for `.rs` files.
    fn default() -> (s: Self)
        ensures
            is_default_settings(s),
    {
        let mut ext: Vec<String> = Vec::new();
        let rs = "rs".to_string();
        proof {
            reveal_strlit("rs");
        }
        assert(rs@ =~= seq!['r', 's']);
        ext.push(rs);
        assert(string_views(ext@) =~= seq![seq!['r', 's']]);
        let s = LspSettings {
            name: "rust-analyzer".to_string(),
            command: "rust-analyzer".to_string(),
            args: Vec::new(),
            file_extensions: Some(ext),
        };
        proof {
            reveal_strlit("rust-analyzer");
            reveal_strlit("rs");
        }
        assert(s.name@ =~= rust_analyzer_chars());
        s
    }
}

impl LspSettings {

    /// Validates and normalises parsed settings: trims the command and the
    /// name, derives a missing name from the command, refuses blank names,
    /// commands and arguments, and normalises file extensions.
    pub fn normalize(self) -> (r: Result<Self, ConfigError>)
        ensures
            match (r, normalized_settings(
                self.name@,
                self.command@,
                string_views(self.args@),
                match self.file_extensions {
                    Some(e) => Some(string_views(e@)),
                    None => None,
                },
            )) {
                (Ok(s), Ok((name, command, extensions))) => s.name@ == name && s.command@ == command
                    && s.args == self.args && match (s.file_extensions, extensions) {
                    (Some(a), Some(b)) => string_views(a@) == b,
                    (None, None) => true,
                    _ => false,
                },
                (Err(e), Err(f)) => e == f,
                _ => false,
            },
    {
        let name_chars = chars_of(self.name.as_str());
        let missing = missing_name();
        let missing_chars = chars_of(missing.as_str());
        let is_missing = chars_eq(name_chars.as_slice(), missing_chars.as_slice());
        let trimmed_name = trim(self.name.as_str());
        if !is_missing && trimmed_name.unicode_len() == 0 {
            return Err(ConfigError::EmptyName);
        }
        let command = trim(self.command.as_str());
        if command.unicode_len() == 0 {
            return Err(ConfigError::EmptyCommand);
        }
        let mut i: usize = 0;
        while i < self.args.len()
            invariant
                i <= self.args@.len(),
                forall|k: int| 0 <= k < i ==> self.args@[k]@.len() != 0,
                is_missing == (self.name@ == missing_name_chars()),
                !is_missing ==> trimmed(self.name@).len() != 0,
                trimmed(self.command@).len() != 0,
            decreases self.args@.len() - i,
        {
            let arg_len = self.args[i].as_str().unicode_len();
            if arg_len == 0 {
                assert(self.args@[i as int]@.len() == 0);
                assert(string_views(self.args@)[i as int].len() == 0);
                assert(self.name@ != missing_name_chars() ==> trimmed(self.name@).len() != 0);
                assert(trimmed(self.command@).len() != 0);
                return Err(ConfigError::EmptyArgument);
            }
            i = i + 1;
        }
        proof {
            if exists|k: int| 0 <= k < string_views(self.args@).len() && #[trigger] string_views(self.args@)[k].len() == 0 {
                let k = choose|k: int| 0 <= k < string_views(self.args@).len() && #[trigger] string_views(self.args@)[k].len() == 0;
                assert(self.args@[k]@.len() == 0);
            }
        }
        let name = if is_missing {
            let command_chars = chars_of(command.as_str());
            let base = match path_file_name(command_chars.as_slice()) {
                Some(n) => n,
                None => command_chars,
            };
            let e = exe();
            let stripped = trim_end_matches(base.as_slice(), e.as_slice());
            string_of(stripped.as_slice(), 0, stripped.len())
        } else {
            trimmed_name
        };
        let file_extensions = match self.file_extensions {
            None => None,
            Some(e) => Some(normalize_file_extensions(e)?),
        };
        Ok(LspSettings { name, command, args: self.args, file_extensions })
    }
}

// ---------------------------------------------------------------- extensions

/// One extension normalised: trimmed, leading dots removed, lower-cased.
pub open spec fn normalized_extension(e: Seq<char>) -> Seq<char> {
    str_to_lowercase(strip_leading(trimmed(e), is_char('.')))
}

/// Whether a normalised extension is refused, and why.
pub open spec fn extension_error(n: Seq<char>) -> Option<ConfigError> {
    if n.len() == 0 {
        Some(ConfigError::EmptyExtension)
    } else if n.contains('/') || n.contains('\\') || n.contains('*') || n.contains('.') {
        Some(ConfigError::NotPlainExtension)
    } else {
        None
    }
}

/// The first `k` extensions normalised and de-duplicated, or the first error.
pub open spec fn extensions_prefix(e: Seq<Seq<char>>, k: int) -> Result<Seq<Seq<char>>, ConfigError>
    decreases k,
{
    if k <= 0 {
        Ok(seq![])
    } else {
        match extensions_prefix(e, k - 1) {
            Err(err) => Err(err),
            Ok(before) => {
                let n = normalized_extension(e[k - 1]);
                match extension_error(n) {
                    Some(err) => Err(err),
                    None => Ok(if before.contains(n) { before } else { before.push(n) }),
                }
            },
        }
    }
}

/// All extensions normalised and de-duplicated; an empty list is refused.
pub open spec fn normalized_extensions(e: Seq<Seq<char>>) -> Result<Seq<Seq<char>>, ConfigError> {
    if e.len() == 0 {
        Err(ConfigError::NoExtensions)
    } else {
        extensions_prefix(e, e.len() as int)
    }
}

fn strip_leading_dots(s: &[char]) -> (r: Vec<char>)
    ensures
        r@ == strip_leading(s@, is_char('.')),
{
    let mut i: usize = 0;
    assert(s@.skip(0) =~= s@);
    while i < s.len() && s[i] == '.'
        invariant
            i <= s@.len(),
            strip_leading(s@, is_char('.')) == strip_leading(s@.skip(i as int), is_char('.')),
        decreases s@.len() - i,
    {
        assert(s@.skip(i as int).drop_first() =~= s@.skip(i + 1));
        i = i + 1;
    }
    let r = string_of(s, i, s.len());
    let v = chars_of(r.as_str());
    assert(v@ =~= s@.skip(i as int));
    v
}

/// Normalises configured file extensions: trims them, drops leading dots,
/// lower-cases them, refuses empty ones and ones holding `/`, `\`, `*` or
/// `.`, and drops repeats.
pub fn normalize_file_extensions(extensions: Vec<String>) -> (r: Result<Vec<String>, ConfigError>)
    ensures
        match (r, normalized_extensions(string_views(extensions@))) {
            (Ok(v), Ok(n)) => string_views(v@) == n,
            (Err(e), Err(f)) => e == f,
            _ => false,
        },
{
    let ghost e = string_views(extensions@);
    if extensions.len() == 0 {
        return Err(ConfigError::NoExtensions);
    }
    let mut normalized: Vec<String> = Vec::new();
    let mut i: usize = 0;
    assert(string_views(normalized@) =~= Seq::<Seq<char>>::empty());
    while i < extensions.len()
        invariant
            i <= extensions@.len(),
            e == string_views(extensions@),
            extensions_prefix(e, i as int) == Ok::<Seq<Seq<char>>, ConfigError>(string_views(normalized@)),
        decreases extensions@.len() - i,
    {
        assert(e[i as int] == extensions@[i as int]@);
        let t = trim(extensions[i].as_str());
        let tv = chars_of(t.as_str());
        let stripped = strip_leading_dots(tv.as_slice());
        let s = string_of(stripped.as_slice(), 0, stripped.len());
        assert(stripped@.subrange(0, stripped@.len() as int) =~= stripped@);
        let lower = to_lowercase(s.as_str());
        let lv = chars_of(lower.as_str());
        if lv.len() == 0 {
            proof { lemma_extensions_error_stays(e, i as int + 1, e.len() as int); }
            return Err(ConfigError::EmptyExtension);
        }
        if contains_char(lv.as_slice(), '/') || contains_char(lv.as_slice(), '\\')
            || contains_char(lv.as_slice(), '*') || contains_char(lv.as_slice(), '.') {
            proof { lemma_extensions_error_stays(e, i as int + 1, e.len() as int); }
            return Err(ConfigError::NotPlainExtension);
        }
        if !contains_string(&normalized, lv.as_slice()) {
            let ghost before = string_views(normalized@);
            normalized.push(lower);
            assert(string_views(normalized@) =~= before.push(lv@));
        }
        i = i + 1;
    }
    Ok(normalized)
}

proof fn lemma_extensions_error_stays(e: Seq<Seq<char>>, from: int, to: int)
    requires
        0 < from <= to,
        extensions_prefix(e, from) is Err,
    ensures
        extensions_prefix(e, to) == extensions_prefix(e, from),
    decreases to - from,
{
    if to > from {
        lemma_extensions_error_stays(e, from, to - 1);
    }
}

// ---------------------------------------------------------------- project

/// The project configuration after validation.
#[derive(Clone, Debug, PartialEq, Eq)]
pub struct ProjectConfig {
    pub symbol_filter: SymbolFilter,
    pub workspace_only: bool,
    pub lsp: Option<LspSettings>,
}

/// `root` joined with `name` the way `Path::join` joins a relative name.
pub open spec fn joined_path(root: Seq<char>, name: Seq<char>) -> Seq<char> {
    if root.len() == 0 || root.last() == '/' {
        root + name
    } else {
        root + seq!['/'] + name
    }
}

/// `.cgraph.toml`
pub open spec fn config_file_chars() -> Seq<char> {
    seq!['.', 'c', 'g', 'r', 'a', 'p', 'h', '.', 't', 'o', 'm', 'l']
}

impl ProjectConfig {
    /// The configuration used when no file exists: no filters, workspace only, no server.
    pub fn default_config() -> (c: Self)
        ensures
            c.symbol_filter@.len() == 0,
            c.workspace_only,
            c.lsp is None,
    {
        ProjectConfig { symbol_filter: SymbolFilter::empty(), workspace_only: true, lsp: None }
    }

    /// Path of the configuration file inside a workspace root.
    pub fn path(workspace_root: &str) -> (p: String)
        ensures
            p@ == joined_path(workspace_root@, config_file_chars()),
    {
        let mut p = workspace_root.to_string();
        let root = chars_of(workspace_root);
        if root.len() > 0 && root[root.len() - 1] != '/' {
            push_char(&mut p, '/');
        }
        let name = PROJECT_CONFIG_FILE;
        proof {
            reveal_strlit(".cgraph.toml");
        }
        let ghost before = p@;
        p.append(name);
        assert(name@ =~= config_file_chars());
        p
    }

    /// Validates the parts of a parsed configuration file.
    pub fn from_parts(symbols: &[&str], workspace_only: bool, lsp: Option<LspSettings>) -> (r:
        Result<Self, ConfigError>)
        ensures
            has_blank(str_views(symbols@), symbols@.len() as int) ==> r == Err::<Self, ConfigError>(ConfigError::EmptySymbolPattern),
            !has_blank(str_views(symbols@), symbols@.len() as int) ==> match lsp {
                None => (r matches Ok(c) && c.lsp is None && c.workspace_only == workspace_only
                    && c.symbol_filter@ == normalized_patterns(str_views(symbols@), symbols@.len() as int)),
                Some(l) => match (r, normalized_settings(
                    l.name@,
                    l.command@,
                    string_views(l.args@),
                    match l.file_extensions {
                        Some(e) => Some(string_views(e@)),
                        None => None,
                    },
                )) {
                    (Ok(c), Ok((name, command, _))) => c.workspace_only == workspace_only
                        && c.symbol_filter@ == normalized_patterns(str_views(symbols@), symbols@.len() as int)
                        && (c.lsp matches Some(s) && s.name@ == name && s.command@ == command),
                    (Err(e), Err(f)) => e == f,
                    _ => false,
                },
            },
    {
        let symbol_filter = SymbolFilter::from_patterns(symbols)?;
        let lsp = match lsp {
            None => None,
            Some(l) => Some(l.normalize()?),
        };
        Ok(ProjectConfig { symbol_filter, workspace_only, lsp })
    }
}

} // verus!
