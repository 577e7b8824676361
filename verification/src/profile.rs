//! Language-server profiles: which server a command names, which file
//! extensions it serves and which default arguments it needs.
use vstd::prelude::*;
use crate::config::{file_name, name_from_command, string_views};
use crate::filter::FilterConfig;
use crate::text::{chars_eq, chars_of, starts_with, has_prefix};

verus! {

/// The servers whose behaviour the client adapts to.
#[derive(Clone, Copy, Debug, PartialEq, Eq, Structural)]
pub enum ServerProfile {
    Standard,
    RustAnalyzer,
    Clangd,
    Pyrefly,
}

/// ASCII lower-casing of one character (`char::to_ascii_lowercase`).
pub open spec fn ascii_lower(c: char) -> char {
    if 'A' <= c && c <= 'Z' {
        ((c as u32) + 32) as char
    } else {
        c
    }
}

/// ASCII lower-casing of a string (`str::to_ascii_lowercase`).
pub open spec fn ascii_lowercase(s: Seq<char>) -> Seq<char> {
    s.map_values(|c: char| ascii_lower(c))
}

/// Lower-cases the ASCII letters of `s`.
pub fn to_ascii_lowercase(s: &[char]) -> (r: Vec<char>)
    ensures
        r@ == ascii_lowercase(s@),
{
    let mut out: Vec<char> = Vec::new();
    let mut i: usize = 0;
    while i < s.len()
        invariant
            i <= s@.len(),
            out@ == ascii_lowercase(s@.take(i as int)),
        decreases s@.len() - i,
    {
        let c = s[i];
        let lower = if 'A' <= c && c <= 'Z' {
            let code = (c as u32) + 32;
            char_from_ascii(code)
        } else {
            c
        };
        out.push(lower);
        i = i + 1;
        assert(out@ =~= ascii_lowercase(s@.take(i as int)));
    }
    assert(s@.take(i as int) =~= s@);
    out
}

/// The character with an ASCII code.
fn char_from_ascii(code: u32) -> (c: char)
    requires
        code < 128,
    ensures
        c as u32 == code,
        c == code as char,
{
    let c = (code as u8) as char;
    c
}

/// The name a server is recognised by: the executable's file name without
/// `.exe`, ASCII lower-cased.
pub open spec fn profile_key(name: Seq<char>) -> Seq<char> {
    ascii_lowercase(name_from_command(name))
}

/// The profile that a server name or command selects.
pub open spec fn profile_of(name: Seq<char>) -> ServerProfile {
    let key = profile_key(name);
    if key == "rust-analyzer"@ || key == "rust_analyzer"@ {
        ServerProfile::RustAnalyzer
    } else if key == "clangd"@ {
        ServerProfile::Clangd
    } else if key == "pyrefly"@ || key == "pyrefly-lsp"@ || key == "pyrefly_lsp"@ {
        ServerProfile::Pyrefly
    } else {
        ServerProfile::Standard
    }
}

fn is(key: &[char], literal: &str) -> (b: bool)
    ensures
        b == (key@ == literal@),
{
    let l = chars_of(literal);
    chars_eq(key, l.as_slice())
}

/// The profile selected by a server name, e.g. `rust-analyzer` or `/usr/bin/clangd.exe`.
pub fn from_name(name: &str) -> (p: ServerProfile)
    ensures
        p == profile_of(name@),
{
    let v = chars_of(name);
    let base = match crate::config::path_file_name(v.as_slice()) {
        Some(n) => n,
        None => v,
    };
    let exe = chars_of(".exe");
    proof {
        reveal_strlit(".exe");
    }
    assert(exe@ =~= crate::config::exe_suffix());
    let stripped = crate::config::trim_end_matches(base.as_slice(), exe.as_slice());
    let key = to_ascii_lowercase(stripped.as_slice());
    if is(key.as_slice(), "rust-analyzer") || is(key.as_slice(), "rust_analyzer") {
        ServerProfile::RustAnalyzer
    } else if is(key.as_slice(), "clangd") {
        ServerProfile::Clangd
    } else if is(key.as_slice(), "pyrefly") || is(key.as_slice(), "pyrefly-lsp") || is(
        key.as_slice(),
        "pyrefly_lsp",
    ) {
        ServerProfile::Pyrefly
    } else {
        ServerProfile::Standard
    }
}

/// The profile selected by a server executable path.
pub fn from_program(program: &str) -> (p: ServerProfile)
    ensures
        p == profile_of(program@),
{
    from_name(program)
}

/// The file extensions a profile serves by default.
pub open spec fn profile_extensions(p: ServerProfile) -> Seq<Seq<char>> {
    match p {
        ServerProfile::RustAnalyzer => seq!["rs"@],
        ServerProfile::Clangd => seq!["c"@, "cc"@, "cpp"@, "cxx"@, "h"@, "hh"@, "hpp"@, "hxx"@],
        ServerProfile::Pyrefly => seq!["py"@, "pyi"@],
        ServerProfile::Standard => seq![],
    }
}

fn push_str_value(v: &mut Vec<String>, s: &str)
    ensures
        string_views(final(v)@) == string_views(old(v)@).push(s@),
{
    let ghost before = string_views(v@);
    v.push(s.to_owned());
    assert(string_views(v@) =~= before.push(s@));
}

/// The file extensions a server serves by default.
pub fn file_extensions(server_name: &str) -> (r: Vec<String>)
    ensures
        string_views(r@) == profile_extensions(profile_of(server_name@)),
{
    let mut r: Vec<String> = Vec::new();
    assert(string_views(r@) =~= Seq::<Seq<char>>::empty());
    match from_name(server_name) {
        ServerProfile::RustAnalyzer => {
            push_str_value(&mut r, "rs");
        },
        ServerProfile::Clangd => {
            push_str_value(&mut r, "c");
            push_str_value(&mut r, "cc");
            push_str_value(&mut r, "cpp");
            push_str_value(&mut r, "cxx");
            push_str_value(&mut r, "h");
            push_str_value(&mut r, "hh");
            push_str_value(&mut r, "hpp");
            push_str_value(&mut r, "hxx");
        },
        ServerProfile::Pyrefly => {
            push_str_value(&mut r, "py");
            push_str_value(&mut r, "pyi");
        },
        ServerProfile::Standard => {},
    }
    assert(string_views(r@) =~= profile_extensions(profile_of(server_name@)));
    r
}

/// The file extensions that a built-in profile serves.
pub fn builtin_file_extensions(server_name: &str) -> (r: Vec<String>)
    ensures
        string_views(r@) == profile_extensions(profile_of(server_name@)),
{
    file_extensions(server_name)
}

/// Whether an argument sets clangd's background-index policy.
pub open spec fn is_background_index_arg(a: Seq<char>) -> bool {
    a == "--background-index"@ || a == "--no-background-index"@ || has_prefix(
        a,
        "--background-index="@,
    )
}

/// Whether some argument sets clangd's background-index policy.
pub open spec fn has_background_index(args: Seq<Seq<char>>) -> bool {
    exists|k: int| 0 <= k < args.len() && #[trigger] is_background_index_arg(args[k])
}

/// Whether some argument sets clangd's background-index policy (exec form).
pub fn has_background_index_setting(args: &Vec<String>) -> (b: bool)
    ensures
        b == has_background_index(string_views(args@)),
{
    let on = chars_of("--background-index");
    let off = chars_of("--no-background-index");
    let prefix = chars_of("--background-index=");
    let mut i: usize = 0;
    while i < args.len()
        invariant
            i <= args@.len(),
            on@ == "--background-index"@,
            off@ == "--no-background-index"@,
            prefix@ == "--background-index="@,
            forall|k: int| 0 <= k < i ==> !is_background_index_arg(#[trigger] string_views(args@)[k]),
        decreases args@.len() - i,
    {
        let a = chars_of(args[i].as_str());
        assert(string_views(args@)[i as int] == a@);
        if chars_eq(a.as_slice(), on.as_slice()) || chars_eq(a.as_slice(), off.as_slice())
            || starts_with(a.as_slice(), prefix.as_slice()) {
            assert(is_background_index_arg(string_views(args@)[i as int]));
            return true;
        }
        i = i + 1;
    }
    false
}

/// Whether one argument is exactly `value`.
pub open spec fn contains_arg(args: Seq<Seq<char>>, value: Seq<char>) -> bool {
    args.contains(value)
}

fn contains_value(args: &Vec<String>, value: &str) -> (b: bool)
    ensures
        b == string_views(args@).contains(value@),
{
    let target = chars_of(value);
    let mut i: usize = 0;
    while i < args.len()
        invariant
            i <= args@.len(),
            target@ == value@,
            forall|k: int| 0 <= k < i ==> args@[k]@ != value@,
        decreases args@.len() - i,
    {
        let a = chars_of(args[i].as_str());
        if chars_eq(a.as_slice(), target.as_slice()) {
            assert(string_views(args@)[i as int] == value@);
            return true;
        }
        i = i + 1;
    }
    proof {
        if string_views(args@).contains(value@) {
            let k = choose|k: int| 0 <= k < string_views(args@).len() && string_views(args@)[k] == value@;
            assert(args@[k]@ == value@);
        }
    }
    false
}

/// The arguments after a profile's defaults are applied: pyrefly runs the
/// `lsp` subcommand first, clangd gets `--background-index` unless a
/// background-index policy is already given.
pub open spec fn with_default_args(args: Seq<Seq<char>>, p: ServerProfile) -> Seq<Seq<char>> {
    match p {
        ServerProfile::Pyrefly => if args.contains("lsp"@) {
            args
        } else {
            seq!["lsp"@] + args
        },
        ServerProfile::Clangd => if has_background_index(args) {
            args
        } else {
            args.push("--background-index"@)
        },
        _ => args,
    }
}

/// Adds the default arguments a profile needs.
pub fn apply_default_args(args: &mut Vec<String>, profile: ServerProfile)
    ensures
        string_views(final(args)@) == with_default_args(string_views(old(args)@), profile),
{
    match profile {
        ServerProfile::Pyrefly => {
            if !contains_value(args, "lsp") {
                let ghost before = string_views(args@);
                args.insert(0, "lsp".to_owned());
                assert(string_views(args@) =~= seq!["lsp"@] + before);
            }
        },
        ServerProfile::Clangd => {
            if !has_background_index_setting(args) {
                push_str_value(args, "--background-index");
            }
        },
        _ => {},
    }
}

/// `args` without every exact `--background-index`.
pub open spec fn without_background_index(args: Seq<Seq<char>>) -> Seq<Seq<char>> {
    args.filter(|a: Seq<char>| a != "--background-index"@)
}

/// The arguments after configured ones are appended: for clangd, a
/// configured background-index policy replaces the default one.
pub open spec fn with_configured_args(
    args: Seq<Seq<char>>,
    configured: Seq<Seq<char>>,
    p: ServerProfile,
) -> Seq<Seq<char>> {
    let kept = if p == ServerProfile::Clangd && has_background_index(configured) {
        without_background_index(args)
    } else {
        args
    };
    with_default_args(kept + configured, p)
}

/// Appends configured arguments, then re-applies the profile's defaults.
pub fn append_configured_args(args: &mut Vec<String>, configured: Vec<String>, profile: ServerProfile)
    ensures
        string_views(final(args)@) == with_configured_args(
            string_views(old(args)@),
            string_views(configured@),
            profile,
        ),
{
    if profile == ServerProfile::Clangd && has_background_index_setting(&configured) {
        let ghost input_views = string_views(args@);
        let on = chars_of("--background-index");
        let mut kept: Vec<String> = Vec::new();
        let mut i: usize = 0;
        assert(input_views.take(0).filter(|a: Seq<char>| a != "--background-index"@) =~= Seq::<Seq<char>>::empty());
        assert(string_views(kept@) =~= Seq::<Seq<char>>::empty());
        while i < args.len()
            invariant
                i <= args@.len(),
                input_views == string_views(args@),
                on@ == "--background-index"@,
                string_views(kept@) == input_views.take(i as int).filter(|a: Seq<char>| a != "--background-index"@),
            decreases args@.len() - i,
        {
            let a = chars_of(args[i].as_str());
            let ghost before = string_views(kept@);
            assert(input_views.take(i + 1).drop_last() =~= input_views.take(i as int));
            assert(input_views[i as int] == a@);
            reveal(Seq::filter);
            if !chars_eq(a.as_slice(), on.as_slice()) {
                kept.push(args[i].clone());
                assert(string_views(kept@) =~= before.push(a@));
            }
            i = i + 1;
        }
        assert(input_views.take(args@.len() as int) =~= input_views);
        *args = kept;
    }
    let ghost mid = string_views(args@);
    let mut k: usize = 0;
    while k < configured.len()
        invariant
            k <= configured@.len(),
            string_views(args@) == mid + string_views(configured@).take(k as int),
        decreases configured@.len() - k,
    {
        let ghost before = string_views(args@);
        let item = configured[k].clone();
        assert(item@ == string_views(configured@)[k as int]);
        args.push(item);
        assert(string_views(args@) =~= before.push(string_views(configured@)[k as int]));
        assert(string_views(configured@).take(k + 1) =~= string_views(configured@).take(k as int).push(string_views(configured@)[k as int]));
        k = k + 1;
        assert(string_views(args@) =~= mid + string_views(configured@).take(k as int));
    }
    assert(string_views(configured@).take(k as int) =~= string_views(configured@));
    apply_default_args(args, profile);
}

// ---------------------------------------------------------------- launch configuration

/// How to start one language server.
#[derive(Clone, Debug)]
pub struct LspConfig {
    pub program: String,
    pub args: Vec<String>,
    pub workspace_root: String,
    pub filters: FilterConfig,
    pub server_name: Option<String>,
    pub file_extensions: Vec<String>,
    pub stderr_log: Option<String>,
}

/// The profile a configuration runs under: its server name when set,
/// otherwise its program.
pub open spec fn config_profile(program: Seq<char>, server_name: Option<Seq<char>>) -> ServerProfile {
    match server_name {
        Some(n) => profile_of(n),
        None => profile_of(program),
    }
}

impl LspConfig {
    /// The profile this configuration runs under.
    pub open spec fn profile(&self) -> ServerProfile {
        config_profile(
            self.program@,
            match self.server_name {
                Some(n) => Some(n@),
                None => None,
            },
        )
    }

    fn current_profile(&self) -> (p: ServerProfile)
        ensures
            p == self.profile(),
    {
        match &self.server_name {
            Some(n) => from_name(n.as_str()),
            None => from_program(self.program.as_str()),
        }
    }

    /// The command line of a server executable with its profile's defaults:
    /// its default extensions and default arguments.
    pub fn for_server(program: &str, workspace_root: &str) -> (c: Self)
        ensures
            c.program@ == program@,
            c.workspace_root@ == workspace_root@,
            c.server_name is None,
            c.stderr_log is None,
            c.filters@.rules.len() == 0,
            c.filters@.workspace_only,
            string_views(c.file_extensions@) == profile_extensions(profile_of(program@)),
            string_views(c.args@) == with_default_args(seq![], profile_of(program@)),
    {
        let mut args: Vec<String> = Vec::new();
        assert(string_views(args@) =~= Seq::<Seq<char>>::empty());
        apply_default_args(&mut args, from_program(program));
        LspConfig {
            program: program.to_owned(),
            args,
            workspace_root: workspace_root.to_owned(),
            filters: FilterConfig::new_default(),
            server_name: None,
            file_extensions: file_extensions(program),
            stderr_log: None,
        }
    }

    /// Appends one configured argument.
    pub fn arg(self, arg: &str) -> (c: Self)
        ensures
            string_views(c.args@) == with_configured_args(string_views(self.args@), seq![arg@], self.profile()),
            c.program == self.program,
            c.server_name == self.server_name,
            c.file_extensions == self.file_extensions,
    {
        let mut configured: Vec<String> = Vec::new();
        push_str_value(&mut configured, arg);
        assert(string_views(configured@) =~= seq![arg@]);
        self.args_vec(configured)
    }

    /// Appends configured arguments.
    pub fn args_vec(self, configured: Vec<String>) -> (c: Self)
        ensures
            string_views(c.args@) == with_configured_args(string_views(self.args@), string_views(configured@), self.profile()),
            c.program == self.program,
            c.server_name == self.server_name,
            c.file_extensions == self.file_extensions,
    {
        let profile = self.current_profile();
        let mut c = self;
        append_configured_args(&mut c.args, configured, profile);
        c
    }

    /// Replaces the filters.
    pub fn filters(self, filters: FilterConfig) -> (c: Self)
        ensures
            c.filters == filters,
            c.args == self.args,
            c.program == self.program,
    {
        LspConfig { filters, ..self }
    }

    /// Names the server profile explicitly: applies its default arguments and
    /// its default extensions.
    pub fn server_name(self, server_name: &str) -> (c: Self)
        ensures
            c.server_name matches Some(n) && n@ == server_name@,
            string_views(c.args@) == with_default_args(string_views(self.args@), profile_of(server_name@)),
            string_views(c.file_extensions@) == profile_extensions(profile_of(server_name@)),
            c.program == self.program,
    {
        let mut c = self;
        apply_default_args(&mut c.args, from_name(server_name));
        c.file_extensions = file_extensions(server_name);
        c.server_name = Some(server_name.to_owned());
        c
    }

    /// Sets where the server's standard error is logged.
    pub fn stderr_log(self, path: &str) -> (c: Self)
        ensures
            c.stderr_log matches Some(p) && p@ == path@,
            c.args == self.args,
            c.program == self.program,
    {
        LspConfig { stderr_log: Some(path.to_owned()), ..self }
    }

    /// Replaces the served file extensions.
    pub fn file_extensions(self, extensions: Vec<String>) -> (c: Self)
        ensures
            c.file_extensions == extensions,
            c.args == self.args,
            c.program == self.program,
    {
        LspConfig { file_extensions: extensions, ..self }
    }
}

} // verus!
