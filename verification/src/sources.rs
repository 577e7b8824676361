//! Source files and positions: which syntax backend fits a workspace, which
//! files and directories it reads, UTF-16 columns and display positions.
use vstd::prelude::*;

use crate::config::{file_name, path_file_name};
use crate::graph::identity_key;
use crate::profile::{ascii_lowercase, to_ascii_lowercase};
use crate::state::{same_location, HierarchyKind, IdentityView, SourceLocation, SymbolIdentity};
use crate::symbol_names::{
    after_last, before_first, find_last, last_index_of, lemma_last_index_bounds, text_after_last,
    text_before_first, SYMBOL_KIND_CLASS, SYMBOL_KIND_FUNCTION, SYMBOL_KIND_INTERFACE,
    SYMBOL_KIND_METHOD, SYMBOL_KIND_STRUCT,
};
use crate::text::{
    char_is_alphanumeric, chars_eq, chars_of, is_alphanumeric, str_eq, string_of, trim_chars,
    trimmed,
};

verus! {

/// The languages the syntax backend can read.
#[derive(Clone, Copy, Debug, PartialEq, Eq, Structural)]
pub enum TreeSitterLanguage {
    Rust,
    C,
    Cpp,
    Python,
}

/// What the top level of a workspace holds: the marker files that name a
/// build system, and the extensions of the files there.
#[derive(Clone, Debug, PartialEq, Eq)]
pub struct WorkspaceMarkers {
    pub cargo_toml: bool,
    pub compile_commands: bool,
    pub cmake_lists: bool,
    pub pyproject: bool,
    pub setup_py: bool,
    pub requirements: bool,
    pub extensions: Vec<String>,
}

/// Whether one of the extensions is among `wanted`.
pub open spec fn has_any(extensions: Seq<Seq<char>>, wanted: Seq<Seq<char>>) -> bool {
    exists|i: int| 0 <= i < extensions.len() && wanted.contains(#[trigger] extensions[i])
}

/// The language a workspace is in: Rust, then C++, then C, then Python, by
/// marker files and file extensions.
pub open spec fn detected(m: MarkersView) -> Option<TreeSitterLanguage> {
    if m.cargo_toml || has_any(m.extensions, seq!["rs"@]) {
        Some(TreeSitterLanguage::Rust)
    } else if has_any(m.extensions, seq!["cc"@, "cpp"@, "cxx"@, "hpp"@]) {
        Some(TreeSitterLanguage::Cpp)
    } else if m.compile_commands || m.cmake_lists || has_any(m.extensions, seq!["c"@, "h"@]) {
        Some(TreeSitterLanguage::C)
    } else if m.pyproject || m.setup_py || m.requirements || has_any(m.extensions, seq!["py"@]) {
        Some(TreeSitterLanguage::Python)
    } else {
        None
    }
}

/// Markers as plain values.
pub struct MarkersView {
    pub cargo_toml: bool,
    pub compile_commands: bool,
    pub cmake_lists: bool,
    pub pyproject: bool,
    pub setup_py: bool,
    pub requirements: bool,
    pub extensions: Seq<Seq<char>>,
}

impl View for WorkspaceMarkers {
    type V = MarkersView;

    open spec fn view(&self) -> MarkersView {
        MarkersView {
            cargo_toml: self.cargo_toml,
            compile_commands: self.compile_commands,
            cmake_lists: self.cmake_lists,
            pyproject: self.pyproject,
            setup_py: self.setup_py,
            requirements: self.requirements,
            extensions: self.extensions@.map_values(|e: String| e@),
        }
    }
}

/// Whether one of `extensions` is among `wanted`.
fn any_extension(extensions: &Vec<String>, wanted: &[&str]) -> (r: bool)
    ensures
        r == has_any(
            extensions@.map_values(|e: String| e@),
            wanted@.map_values(|w: &str| w@),
        ),
{
    let ghost ev = extensions@.map_values(|e: String| e@);
    let ghost wv = wanted@.map_values(|w: &str| w@);
    let mut i: usize = 0;
    while i < extensions.len()
        invariant
            i <= extensions@.len(),
            ev == extensions@.map_values(|e: String| e@),
            wv == wanted@.map_values(|w: &str| w@),
            forall|k: int| 0 <= k < i ==> !wv.contains(#[trigger] ev[k]),
        decreases extensions@.len() - i,
    {
        let mut j: usize = 0;
        while j < wanted.len()
            invariant
                i < extensions@.len(),
                j <= wanted@.len(),
                ev == extensions@.map_values(|e: String| e@),
                wv == wanted@.map_values(|w: &str| w@),
                forall|q: int| 0 <= q < j ==> wv[q] != ev[i as int],
            decreases wanted@.len() - j,
        {
            if str_eq(extensions[i].as_str(), wanted[j]) {
                assert(wv[j as int] == ev[i as int]);
                assert(wv.contains(ev[i as int]));
                return true;
            }
            j = j + 1;
        }
        proof {
            if wv.contains(ev[i as int]) {
                let q = choose|q: int| 0 <= q < wv.len() && wv[q] == ev[i as int];
                assert(false);
            }
        }
        i = i + 1;
    }
    false
}

impl TreeSitterLanguage {
    /// The language a workspace is in, judged from what its top level holds.
    pub fn detect(markers: &WorkspaceMarkers) -> (r: Option<Self>)
        ensures
            r == detected(markers@),
    {
        proof {
            reveal_strlit("rs");
            reveal_strlit("cc");
            reveal_strlit("cpp");
            reveal_strlit("cxx");
            reveal_strlit("hpp");
            reveal_strlit("c");
            reveal_strlit("h");
            reveal_strlit("py");
        }
        let rust = ["rs"];
        let cpp = ["cc", "cpp", "cxx", "hpp"];
        let c = ["c", "h"];
        let python = ["py"];
        proof {
            assert(rust@.map_values(|w: &str| w@) =~= seq!["rs"@]);
            assert(cpp@.map_values(|w: &str| w@) =~= seq!["cc"@, "cpp"@, "cxx"@, "hpp"@]);
            assert(c@.map_values(|w: &str| w@) =~= seq!["c"@, "h"@]);
            assert(python@.map_values(|w: &str| w@) =~= seq!["py"@]);
        }
        if markers.cargo_toml || any_extension(&markers.extensions, &rust) {
            return Some(TreeSitterLanguage::Rust);
        }
        if any_extension(&markers.extensions, &cpp) {
            return Some(TreeSitterLanguage::Cpp);
        }
        if markers.compile_commands || markers.cmake_lists || any_extension(&markers.extensions, &c) {
            return Some(TreeSitterLanguage::C);
        }
        if markers.pyproject || markers.setup_py || markers.requirements || any_extension(
            &markers.extensions,
            &python,
        ) {
            return Some(TreeSitterLanguage::Python);
        }
        None
    }

    /// The language's name as shown to the user.
    pub fn name(self) -> (r: &'static str)
        ensures
            r@ == match self {
                TreeSitterLanguage::Rust => "Rust"@,
                TreeSitterLanguage::C => "C"@,
                TreeSitterLanguage::Cpp => "C++"@,
                TreeSitterLanguage::Python => "Python"@,
            },
    {
        match self {
            TreeSitterLanguage::Rust => "Rust",
            TreeSitterLanguage::C => "C",
            TreeSitterLanguage::Cpp => "C++",
            TreeSitterLanguage::Python => "Python",
        }
    }

    /// Whether the syntax backend for this language reads a file with this
    /// path.
    pub fn accepts_path(self, path: &str) -> (r: bool)
        ensures
            r == match path_extension(path@) {
                Some(e) => language_accepts(self, e),
                None => false,
            },
    {
        let p = chars_of(path);
        match extension_of(p.as_slice()) {
            Some(e) => {
                let s = string_of(e.as_slice(), 0, e.len());
                assert(s@ =~= e@);
                match self {
                    TreeSitterLanguage::Rust => str_eq(s.as_str(), "rs"),
                    TreeSitterLanguage::C => str_eq(s.as_str(), "c") || str_eq(s.as_str(), "h"),
                    TreeSitterLanguage::Cpp => str_eq(s.as_str(), "cc") || str_eq(s.as_str(), "cpp")
                        || str_eq(s.as_str(), "cxx") || str_eq(s.as_str(), "h") || str_eq(
                        s.as_str(),
                        "hpp",
                    ),
                    TreeSitterLanguage::Python => str_eq(s.as_str(), "py"),
                }
            },
            None => false,
        }
    }
}

/// Whether the backend for `language` reads files with extension `e`.
pub open spec fn language_accepts(language: TreeSitterLanguage, e: Seq<char>) -> bool {
    match language {
        TreeSitterLanguage::Rust => e == "rs"@,
        TreeSitterLanguage::C => e == "c"@ || e == "h"@,
        TreeSitterLanguage::Cpp => e == "cc"@ || e == "cpp"@ || e == "cxx"@ || e == "h"@ || e == "hpp"@,
        TreeSitterLanguage::Python => e == "py"@,
    }
}

/// The extension of a path: what follows the last `.` of its file name,
/// unless that dot starts the name.
pub open spec fn path_extension(path: Seq<char>) -> Option<Seq<char>> {
    match file_name(path) {
        Some(n) => if last_index_of(n, '.') <= 0 {
            None
        } else {
            Some(after_last(n, '.'))
        },
        None => None,
    }
}

/// The extension of a path.
pub fn extension_of(path: &[char]) -> (r: Option<Vec<char>>)
    ensures
        match (r, path_extension(path@)) {
            (Some(x), Some(y)) => x@ == y,
            (None, None) => true,
            _ => false,
        },
{
    let name = match path_file_name(path) {
        Some(n) => n,
        None => {
            return None;
        },
    };
    match find_last(name.as_slice(), '.') {
        Some(i) => {
            if i == 0 {
                None
            } else {
                Some(text_after_last(name.as_slice(), '.'))
            }
        },
        None => None,
    }
}

/// Whether two texts are equal when ASCII case is ignored.
pub open spec fn same_lower(a: Seq<char>, b: Seq<char>) -> bool {
    ascii_lowercase(a) == ascii_lowercase(b)
}

/// Whether a path's extension is one of the configured ones, in any case.
pub fn has_configured_extension(path: &str, file_extensions: &Vec<String>) -> (r: bool)
    ensures
        r == match path_extension(path@) {
            Some(e) => exists|i: int|
                0 <= i < file_extensions@.len() && same_lower(e, #[trigger] file_extensions@[i]@),
            None => false,
        },
{
    let p = chars_of(path);
    let e = match extension_of(p.as_slice()) {
        Some(e) => e,
        None => {
            return false;
        },
    };
    let lower = to_ascii_lowercase(e.as_slice());
    assert(path_extension(path@) == Some(e@));
    let mut i: usize = 0;
    while i < file_extensions.len()
        invariant
            i <= file_extensions@.len(),
            lower@ == ascii_lowercase(e@),
            path_extension(path@) == Some(e@),
            forall|k: int| 0 <= k < i ==> !same_lower(e@, #[trigger] file_extensions@[k]@),
        decreases file_extensions@.len() - i,
    {
        let c = chars_of(file_extensions[i].as_str());
        let cl = to_ascii_lowercase(c.as_slice());
        if chars_eq(lower.as_slice(), cl.as_slice()) {
            assert(same_lower(e@, file_extensions@[i as int]@));
            return true;
        }
        assert(!same_lower(e@, file_extensions@[i as int]@));
        i = i + 1;
    }
    false
}

/// Directories the C and C++ server bootstrap does not search: hidden ones
/// and build outputs.
pub open spec fn c_directory_ignored(name: Seq<char>) -> bool {
    (name.len() > 0 && name[0] == '.') || name == "build"@ || name == "cmake-build-debug"@
        || name == "cmake-build-release"@ || name == "node_modules"@ || name == "target"@
}

/// Whether the C and C++ server bootstrap skips a directory.
pub fn c_ignored_directory(name: &str) -> (r: bool)
    ensures
        r == c_directory_ignored(name@),
{
    let c = chars_of(name);
    (c.len() > 0 && c[0] == '.') || str_eq(name, "build") || str_eq(name, "cmake-build-debug")
        || str_eq(name, "cmake-build-release") || str_eq(name, "node_modules") || str_eq(name, "target")
}

/// Directories the Python server bootstrap does not search: hidden ones,
/// build outputs and environments.
pub open spec fn python_directory_ignored(name: Seq<char>) -> bool {
    (name.len() > 0 && name[0] == '.') || name == "target"@ || name == "node_modules"@
        || name == "__pycache__"@ || name == "venv"@ || name == ".venv"@
}

/// Whether the Python server bootstrap skips a directory.
pub fn python_ignored_directory(name: &str) -> (r: bool)
    ensures
        r == python_directory_ignored(name@),
{
    let c = chars_of(name);
    (c.len() > 0 && c[0] == '.') || str_eq(name, "target") || str_eq(name, "node_modules") || str_eq(
        name,
        "__pycache__",
    ) || str_eq(name, "venv") || str_eq(name, ".venv")
}

/// Directories the syntax backend does not index: hidden ones and build
/// outputs.
pub open spec fn index_directory_ignored(name: Seq<char>) -> bool {
    (name.len() > 0 && name[0] == '.') || name == "target"@ || name == "node_modules"@
}

/// Whether the syntax backend skips a directory while indexing.
pub fn index_ignored_directory(name: &str) -> (r: bool)
    ensures
        r == index_directory_ignored(name@),
{
    let c = chars_of(name);
    (c.len() > 0 && c[0] == '.') || str_eq(name, "target") || str_eq(name, "node_modules")
}

/// The language id a server is told for a document, by its extension in
/// any case.
pub open spec fn language_id(e: Seq<char>) -> Option<Seq<char>> {
    let l = ascii_lowercase(e);
    if l == "rs"@ {
        Some("rust"@)
    } else if l == "py"@ || l == "pyi"@ {
        Some("python"@)
    } else if l == "c"@ {
        Some("c"@)
    } else if l == "cc"@ || l == "cpp"@ || l == "cxx"@ || l == "h"@ || l == "hh"@ || l == "hpp"@
        || l == "hxx"@ || l == "ixx"@ || l == "cppm"@ {
        Some("cpp"@)
    } else {
        None
    }
}

/// The language id for a document path.
pub fn language_id_for_path(path: &str) -> (r: Option<&'static str>)
    ensures
        match (r, match path_extension(path@) {
            Some(e) => language_id(e),
            None => None,
        }) {
            (Some(x), Some(y)) => x@ == y,
            (None, None) => true,
            _ => false,
        },
{
    let p = chars_of(path);
    let e = match extension_of(p.as_slice()) {
        Some(e) => e,
        None => {
            return None;
        },
    };
    let lower = to_ascii_lowercase(e.as_slice());
    let l = string_of(lower.as_slice(), 0, lower.len());
    assert(l@ =~= lower@);
    let s = l.as_str();
    if str_eq(s, "rs") {
        Some("rust")
    } else if str_eq(s, "py") || str_eq(s, "pyi") {
        Some("python")
    } else if str_eq(s, "c") {
        Some("c")
    } else if str_eq(s, "cc") || str_eq(s, "cpp") || str_eq(s, "cxx") || str_eq(s, "h") || str_eq(
        s,
        "hh",
    ) || str_eq(s, "hpp") || str_eq(s, "hxx") || str_eq(s, "ixx") || str_eq(s, "cppm") {
        Some("cpp")
    } else {
        None
    }
}

/// The hierarchy and symbol kind of a definition capture of a tags query.
pub fn definition_kind(capture_name: &str) -> (r: Option<(HierarchyKind, u32)>)
    ensures
        r == (if capture_name@ == "definition.function"@ {
            Some((HierarchyKind::Call, SYMBOL_KIND_FUNCTION))
        } else if capture_name@ == "definition.method"@ {
            Some((HierarchyKind::Call, SYMBOL_KIND_METHOD))
        } else if capture_name@ == "definition.class"@ {
            Some((HierarchyKind::Type, SYMBOL_KIND_CLASS))
        } else if capture_name@ == "definition.interface"@ {
            Some((HierarchyKind::Type, SYMBOL_KIND_INTERFACE))
        } else if capture_name@ == "definition.type"@ {
            Some((HierarchyKind::Type, SYMBOL_KIND_STRUCT))
        } else {
            None
        }),
{
    if str_eq(capture_name, "definition.function") {
        Some((HierarchyKind::Call, SYMBOL_KIND_FUNCTION))
    } else if str_eq(capture_name, "definition.method") {
        Some((HierarchyKind::Call, SYMBOL_KIND_METHOD))
    } else if str_eq(capture_name, "definition.class") {
        Some((HierarchyKind::Type, SYMBOL_KIND_CLASS))
    } else if str_eq(capture_name, "definition.interface") {
        Some((HierarchyKind::Type, SYMBOL_KIND_INTERFACE))
    } else if str_eq(capture_name, "definition.type") {
        Some((HierarchyKind::Type, SYMBOL_KIND_STRUCT))
    } else {
        None
    }
}

/// How many bytes UTF-8 takes for a character.
pub open spec fn utf8_len(c: char) -> nat {
    let v = c as u32;
    if v < 0x80 {
        1
    } else if v < 0x800 {
        2
    } else if v < 0x10000 {
        3
    } else {
        4
    }
}

/// How many 16-bit units UTF-16 takes for a character.
pub open spec fn utf16_len(c: char) -> nat {
    if (c as u32) < 0x10000 {
        1
    } else {
        2
    }
}

/// How many bytes UTF-8 takes for a text.
pub open spec fn utf8_size(s: Seq<char>) -> nat
    decreases s.len(),
{
    if s.len() == 0 {
        0
    } else {
        utf8_size(s.drop_last()) + utf8_len(s.last())
    }
}

/// How many 16-bit units UTF-16 takes for a text.
pub open spec fn utf16_size(s: Seq<char>) -> nat
    decreases s.len(),
{
    if s.len() == 0 {
        0
    } else {
        utf16_size(s.drop_last()) + utf16_len(s.last())
    }
}

/// The number of characters before byte `b`, when `b` is a character
/// boundary of the text.
pub open spec fn char_index_at(s: Seq<char>, b: int) -> Option<int> {
    if exists|i: int| 0 <= i <= s.len() && #[trigger] utf8_size(s.take(i)) == b {
        Some(choose|i: int| 0 <= i <= s.len() && #[trigger] utf8_size(s.take(i)) == b)
    } else {
        None
    }
}

/// Why a byte column could not be turned into a UTF-16 column.
#[derive(Clone, Copy, Debug, PartialEq, Eq, Structural)]
pub enum ColumnError {
    ColumnExceedsOffset,
    NotCharBoundary,
    TooWide,
}

impl ColumnError {
    /// The message for the error.
    pub fn message(self) -> (r: &'static str)
        ensures
            r@ == match self {
                ColumnError::ColumnExceedsOffset => "Tree-sitter source column exceeds node byte offset"@,
                ColumnError::NotCharBoundary => "Tree-sitter source column did not end on a UTF-8 boundary"@,
                ColumnError::TooWide => "source UTF-16 column exceeds u32"@,
            },
    {
        match self {
            ColumnError::ColumnExceedsOffset => "Tree-sitter source column exceeds node byte offset",
            ColumnError::NotCharBoundary => "Tree-sitter source column did not end on a UTF-8 boundary",
            ColumnError::TooWide => "source UTF-16 column exceeds u32",
        }
    }
}

/// The UTF-16 column of a byte column: the UTF-16 length of the line text
/// between `byte_offset - byte_column` and `byte_offset`.
pub open spec fn utf16_column_spec(s: Seq<char>, byte_offset: int, byte_column: int) -> Result<nat, ColumnError> {
    if byte_column > byte_offset {
        Err(ColumnError::ColumnExceedsOffset)
    } else {
        match (char_index_at(s, byte_offset - byte_column), char_index_at(s, byte_offset)) {
            (Some(i), Some(j)) => if utf16_size(s.subrange(i, j)) <= u32::MAX {
                Ok(utf16_size(s.subrange(i, j)))
            } else {
                Err(ColumnError::TooWide)
            },
            _ => Err(ColumnError::NotCharBoundary),
        }
    }
}

/// Each character takes one byte at least, so byte sizes grow strictly.
pub proof fn lemma_utf8_size_grows(s: Seq<char>, i: int, j: int)
    requires
        0 <= i < j <= s.len(),
    ensures
        utf8_size(s.take(i)) < utf8_size(s.take(j)),
    decreases j - i,
{
    assert(s.take(j).drop_last() =~= s.take(j - 1));
    if i < j - 1 {
        lemma_utf8_size_grows(s, i, j - 1);
    }
}

/// The number of characters before byte `b` of the text, if `b` is a
/// character boundary.
fn char_index_of_byte(chars: &Vec<char>, b: usize) -> (r: Option<usize>)
    ensures
        match (r, char_index_at(chars@, b as int)) {
            (Some(x), Some(y)) => x == y,
            (None, None) => true,
            _ => false,
        },
{
    let ghost s = chars@;
    let n = chars.len();
    let mut k: usize = 0;
    let mut pos: u128 = 0;
    assert(s.take(0) =~= Seq::<char>::empty());
    while k < n
        invariant
            n == s.len(),
            s == chars@,
            k <= n,
            pos == utf8_size(s.take(k as int)),
            pos <= 4 * k,
            forall|q: int| 0 <= q < k ==> #[trigger] utf8_size(s.take(q)) < b,
        decreases n - k,
    {
        if pos == b as u128 {
            proof {
                assert forall|q: int| 0 <= q <= s.len() && #[trigger] utf8_size(s.take(q)) == b implies q == k by {
                    if q > k {
                        lemma_utf8_size_grows(s, k as int, q);
                    }
                }
            }
            return Some(k);
        }
        if pos > b as u128 {
            proof {
                assert forall|q: int| 0 <= q <= s.len() implies #[trigger] utf8_size(s.take(q)) != b by {
                    if q > k {
                        lemma_utf8_size_grows(s, k as int, q);
                    }
                }
            }
            return None;
        }
        let c = chars[k];
        let v = c as u32;
        let w: u128 = if v < 0x80 {
            1
        } else if v < 0x800 {
            2
        } else if v < 0x10000 {
            3
        } else {
            4
        };
        proof {
            assert(s.take(k + 1).drop_last() =~= s.take(k as int));
            assert(s.take(k + 1).last() == c);
        }
        pos = pos + w;
        k = k + 1;
    }
    assert(s.take(n as int) =~= s);
    if pos == b as u128 {
        proof {
            assert forall|q: int| 0 <= q <= s.len() && #[trigger] utf8_size(s.take(q)) == b implies q == n by {}
        }
        Some(n)
    } else {
        proof {
            assert forall|q: int| 0 <= q <= s.len() implies #[trigger] utf8_size(s.take(q)) != b by {}
        }
        None
    }
}

/// The UTF-16 column of a byte column that Tree-sitter reports.
pub fn utf16_column(source: &str, byte_offset: usize, byte_column: usize) -> (r: Result<u32, ColumnError>)
    ensures
        match (r, utf16_column_spec(source@, byte_offset as int, byte_column as int)) {
            (Ok(x), Ok(y)) => x == y,
            (Err(x), Err(y)) => x == y,
            _ => false,
        },
{
    if byte_column > byte_offset {
        return Err(ColumnError::ColumnExceedsOffset);
    }
    let chars = chars_of(source);
    let ghost s = chars@;
    let i = match char_index_of_byte(&chars, byte_offset - byte_column) {
        Some(i) => i,
        None => {
            return Err(ColumnError::NotCharBoundary);
        },
    };
    let j = match char_index_of_byte(&chars, byte_offset) {
        Some(j) => j,
        None => {
            return Err(ColumnError::NotCharBoundary);
        },
    };
    proof {
        if i > j {
            lemma_utf8_size_grows(s, j as int, i as int);
        }
    }
    let mut units: u128 = 0;
    let mut k: usize = i;
    assert(s.subrange(i as int, i as int) =~= Seq::<char>::empty());
    while k < j
        invariant
            s == chars@,
            i <= k <= j <= s.len(),
            units == utf16_size(s.subrange(i as int, k as int)),
            units <= 2 * (k - i),
        decreases j - k,
    {
        let c = chars[k];
        let u: u128 = if (c as u32) < 0x10000 {
            1
        } else {
            2
        };
        proof {
            assert(s.subrange(i as int, k + 1).drop_last() =~= s.subrange(i as int, k as int));
            assert(s.subrange(i as int, k + 1).last() == c);
        }
        units = units + u;
        k = k + 1;
    }
    if units > u32::MAX as u128 {
        Err(ColumnError::TooWide)
    } else {
        Ok(units as u32)
    }
}
/// Where the last `::` starts, or -1.
pub open spec fn last_path_separator(s: Seq<char>) -> int
    decreases s.len(),
{
    if s.len() < 2 {
        -1
    } else if s[s.len() - 2] == ':' && s[s.len() - 1] == ':' {
        s.len() - 2
    } else {
        last_path_separator(s.drop_last())
    }
}

/// The text after the last `::`: `rsplit("::").next()`.
pub open spec fn after_last_separator(s: Seq<char>) -> Seq<char> {
    if last_path_separator(s) < 0 {
        s
    } else {
        s.skip(last_path_separator(s) + 2)
    }
}

/// Whether a character ends the name part of a symbol.
pub open spec fn name_stop(c: char) -> bool {
    c == '<' || c == '[' || c == '(' || c == ' ' || c == '\t' || c == '\n'
}

/// The text before the first character that ends a name.
pub open spec fn before_stop(s: Seq<char>) -> Seq<char>
    decreases s.len(),
{
    if s.len() == 0 || name_stop(s[0]) {
        seq![]
    } else {
        seq![s[0]] + before_stop(s.drop_first())
    }
}

/// Characters trimmed off a name: all but letters, digits and `_`.
pub open spec fn not_name_char() -> spec_fn(char) -> bool {
    |c: char| !char_is_alphanumeric(c) && c != '_'
}

/// The bare name of a symbol: the last path segment, without any
/// generics, arguments or punctuation around it.
pub open spec fn terminal_name_spec(value: Seq<char>) -> Seq<char> {
    let v = after_last(after_last_separator(trimmed(value)), '.');
    crate::text::strip_trailing(crate::text::strip_leading(before_stop(v), not_name_char()), not_name_char())
}

/// Where the last `::` starts.
fn last_separator(t: &[char]) -> (r: Option<usize>)
    ensures
        match r {
            Some(c) => last_path_separator(t@) == c && c + 2 <= t@.len(),
            None => last_path_separator(t@) == -1,
        },
{
    let mut i: usize = t.len();
    let ghost tv = t@;
    assert(tv.take(i as int) =~= tv);
    while i >= 2
        invariant
            tv == t@,
            i <= tv.len(),
            last_path_separator(tv) == last_path_separator(tv.take(i as int)),
        decreases i,
    {
        if t[i - 2] == ':' && t[i - 1] == ':' {
            return Some(i - 2);
        }
        assert(tv.take(i as int).drop_last() =~= tv.take(i - 1));
        i = i - 1;
    }
    None
}

/// The bare name of a symbol.
pub fn terminal_name(value: &str) -> (r: String)
    ensures
        r@ == terminal_name_spec(value@),
{
    let raw = chars_of(value);
    let t = trim_chars(raw.as_slice());
    let ghost tv = t@;
    let ts = t.as_slice();
    let cut = last_separator(ts);
    let after_sep = match cut {
        Some(c) => {
            assert(ts@ == tv);
            let n = ts.len();
            assert(last_path_separator(tv) == c && c + 2 <= n);
            let s = string_of(ts, c + 2, n);
            let v = chars_of(s.as_str());
            assert(v@ =~= tv.skip(c + 2));
            v
        },
        None => {
            assert(last_path_separator(tv) == -1);
            t
        },
    };
    let after_dot = text_after_last(after_sep.as_slice(), '.');
    // before the first stop character
    let mut head: Vec<char> = Vec::new();
    let mut k: usize = 0;
    let ghost dv = after_dot@;
    assert(dv.skip(0) =~= dv);
    assert(head@ + before_stop(dv) =~= before_stop(dv));
    while k < after_dot.len() && !(after_dot[k] == '<' || after_dot[k] == '[' || after_dot[k] == '('
        || after_dot[k] == ' ' || after_dot[k] == '\t' || after_dot[k] == '\n')
        invariant
            dv == after_dot@,
            k <= dv.len(),
            before_stop(dv) == head@ + before_stop(dv.skip(k as int)),
            forall|q: int| 0 <= q < k ==> !name_stop(#[trigger] dv[q]),
        decreases dv.len() - k,
    {
        assert(dv.skip(k as int).drop_first() =~= dv.skip(k + 1));
        head.push(after_dot[k]);
        k = k + 1;
        assert(before_stop(dv) =~= head@ + before_stop(dv.skip(k as int)));
    }
    assert(before_stop(dv.skip(k as int)) =~= Seq::<char>::empty());
    assert(head@ =~= before_stop(dv));
    let mut flags: Vec<bool> = Vec::new();
    let mut q: usize = 0;
    while q < head.len()
        invariant
            q <= head@.len(),
            flags@.len() == q,
            forall|m: int| 0 <= m < q ==> flags@[m] == (not_name_char())(head@[m]),
        decreases head@.len() - q,
    {
        let c = head[q];
        flags.push(!is_alphanumeric(c) && c != '_');
        q = q + 1;
    }
    let (a, b) = crate::text::strip_range(head.as_slice(), flags.as_slice(), Ghost(not_name_char()));
    string_of(head.as_slice(), a, b)
}

/// The identities with `value` added at the end unless already there.
pub open spec fn with_identity(values: Seq<IdentityView>, value: IdentityView) -> Seq<IdentityView> {
    if values.contains(value) {
        values
    } else {
        values.push(value)
    }
}

/// Adds an identity unless an equal one is there.
pub fn push_unique(values: &mut Vec<SymbolIdentity>, value: SymbolIdentity)
    ensures
        final(values)@.map_values(|v: SymbolIdentity| v@) == with_identity(
            old(values)@.map_values(|v: SymbolIdentity| v@),
            value@,
        ),
{
    let ghost vs = values@.map_values(|v: SymbolIdentity| v@);
    let mut i: usize = 0;
    while i < values.len()
        invariant
            i <= values@.len(),
            vs == values@.map_values(|v: SymbolIdentity| v@),
            forall|k: int| 0 <= k < i ==> vs[k] != value@,
        decreases values@.len() - i,
    {
        if same_identity(&values[i], &value) {
            assert(vs[i as int] == value@);
            assert(vs.contains(value@));
            return;
        }
        i = i + 1;
    }
    proof {
        if vs.contains(value@) {
            let k = choose|k: int| 0 <= k < vs.len() && vs[k] == value@;
            assert(false);
        }
    }
    let ghost v = value@;
    values.push(value);
    assert(values@.map_values(|v: SymbolIdentity| v@) =~= vs.push(v));
}

/// Whether two identities are equal.
pub fn same_identity(a: &SymbolIdentity, b: &SymbolIdentity) -> (r: bool)
    ensures
        r == (a@ == b@),
{
    if !str_eq(a.symbol.as_str(), b.symbol.as_str()) || a.kind != b.kind {
        return false;
    }
    match (&a.location, &b.location) {
        (Some(x), Some(y)) => same_location(x, y),
        (None, None) => true,
        _ => false,
    }
}

/// The decimal digits of a number, as text.
pub fn decimal_text(n: u64) -> (r: String)
    ensures
        r@ == crate::export::decimal(n as nat),
{
    let mut s = String::new();
    crate::export::push_decimal(&mut s, n);
    assert(s@ =~= crate::export::decimal(n as nat));
    s
}

/// How a location is shown: `uri:line:column`, one-based, or the URI alone
/// without an exact position.
pub open spec fn location_text(l: crate::state::LocationView) -> Seq<char> {
    match (l.line, l.character) {
        (Some(line), Some(character)) => l.uri + seq![':'] + crate::export::decimal((line + 1) as nat) + seq![':'] + crate::export::decimal(
            (character + 1) as nat,
        ),
        _ => l.uri,
    }
}

/// How a location is shown.
pub fn display_location(location: &SourceLocation) -> (r: String)
    ensures
        r@ == location_text(location@),
{
    match (location.line, location.character) {
        (Some(line), Some(character)) => {
            let mut s = location.uri.clone();
            crate::text::push_char(&mut s, ':');
            let l = decimal_text(line as u64 + 1);
            let c = decimal_text(character as u64 + 1);
            let out = crate::text::append_text(s, l.as_str());
            let mut out2 = out;
            crate::text::push_char(&mut out2, ':');
            let out3 = crate::text::append_text(out2, c.as_str());
            proof {
                assert(out3@ =~= location@.uri + seq![':'] + crate::export::decimal((line + 1) as nat) + seq![':'] + crate::export::decimal(
                    (character + 1) as nat,
                ));
            }
            out3
        },
        _ => location.uri.clone(),
    }
}

} // verus!
