//! Directory metadata: project kinds, entries, summaries and their text forms.

use vstd::prelude::*;
use crate::float_fmt::{f64_of_ratio, f64_of_ratio_u128, fixed0_text, fixed1_text, push_fixed0, push_fixed1, lemma_p2_64};
use crate::text::{dec_digits, owned, push_char, push_u64, str_eq, to_lowercase, unicode_lowercase, views};

verus! {

/// The kind of project a directory belongs to.
#[derive(Debug, Clone, Copy, PartialEq, Eq, Structural)]
pub enum ProjectType {
    Rust,
    Node,
    Python,
    Go,
    Ruby,
    Java,
    Cpp,
    CMake,
    Generic,
}

impl ProjectType {
    /// Icon for the project type.
    pub open spec fn icon_spec(self) -> Seq<char> {
        match self {
            ProjectType::Rust => "\u{1f980}"@,
            ProjectType::Node => "\u{1f4e6}"@,
            ProjectType::Python => "\u{1f40d}"@,
            ProjectType::Go => "\u{1f439}"@,
            ProjectType::Ruby => "\u{1f48e}"@,
            ProjectType::Java => "\u{2615}"@,
            ProjectType::Cpp | ProjectType::CMake => "\u{2699}\u{fe0f}"@,
            ProjectType::Generic => "\u{1f4c2}"@,
        }
    }

    /// Human-readable name of the project type.
    pub open spec fn label_spec(self) -> Seq<char> {
        match self {
            ProjectType::Rust => "Rust"@,
            ProjectType::Node => "Node.js"@,
            ProjectType::Python => "Python"@,
            ProjectType::Go => "Go"@,
            ProjectType::Ruby => "Ruby"@,
            ProjectType::Java => "Java"@,
            ProjectType::Cpp => "C++"@,
            ProjectType::CMake => "CMake"@,
            ProjectType::Generic => "Generic"@,
        }
    }

    /// Get icon for project type
    pub fn icon(&self) -> (r: &'static str)
        ensures
            r@ == self.icon_spec(),
    {
        match self {
            ProjectType::Rust => "\u{1f980}",
            ProjectType::Node => "\u{1f4e6}",
            ProjectType::Python => "\u{1f40d}",
            ProjectType::Go => "\u{1f439}",
            ProjectType::Ruby => "\u{1f48e}",
            ProjectType::Java => "\u{2615}",
            ProjectType::Cpp | ProjectType::CMake => "\u{2699}\u{fe0f}",
            ProjectType::Generic => "\u{1f4c2}",
        }
    }

    /// Get label for project type
    pub fn label(&self) -> (r: &'static str)
        ensures
            r@ == self.label_spec(),
    {
        match self {
            ProjectType::Rust => "Rust",
            ProjectType::Node => "Node.js",
            ProjectType::Python => "Python",
            ProjectType::Go => "Go",
            ProjectType::Ruby => "Ruby",
            ProjectType::Java => "Java",
            ProjectType::Cpp => "C++",
            ProjectType::CMake => "CMake",
            ProjectType::Generic => "Generic",
        }
    }
}

/// A quotient `num / den` printed with no decimal from 10 upward and one decimal below,
/// followed by a unit letter.
pub open spec fn scaled_text(num: nat, den: nat, unit: char) -> Seq<char> {
    if num >= 10 * den {
        fixed0_text(num, den).push(unit)
    } else {
        fixed1_text(num, den).push(unit)
    }
}

/// The very compact size text (like exa: `4.3k`, `1.1k`, `983`).
/// `k`, `M`: the double nearest to `bytes / 1024^i`; `G`: the double nearest to
/// `bytes`, divided by `1024^3`.
pub open spec fn size_compact_text(bytes: nat) -> Seq<char> {
    if bytes == 0 {
        "0"@
    } else if bytes < 1024 {
        dec_digits(bytes)
    } else if bytes < 1024 * 1024 {
        let q = f64_of_ratio(bytes, 1024);
        scaled_text(q.0, q.1, 'k')
    } else if bytes < 1024 * 1024 * 1024 {
        let q = f64_of_ratio(bytes, 1024 * 1024);
        scaled_text(q.0, q.1, 'M')
    } else {
        let q = f64_of_ratio(bytes, 1);
        scaled_text(q.0, q.1 * (1024 * 1024 * 1024), 'G')
    }
}

fn push_scaled(s: &mut String, num: u128, den: u128, unit: char)
    requires
        0 < den <= 0x10_0000_0000_0000,
        num < 0x100_0000_0000_0000_0000_0000_0000_0000,
    ensures
        final(s)@ == old(s)@ + scaled_text(num as nat, den as nat, unit),
{
    if num >= 10 * den {
        push_fixed0(s, num, den);
    } else {
        push_fixed1(s, num, den);
    }
    push_char(s, unit);
}

/// Human-readable size — very compact (like exa: 4.3k, 1.1k, 983)
pub fn format_size_compact(bytes: u64) -> (r: String)
    ensures
        r@ == size_compact_text(bytes as nat),
{
    if bytes == 0 {
        return owned("0");
    }
    let mut s = String::new();
    if bytes < 1024 {
        push_u64(&mut s, bytes);
    } else if bytes < 1024 * 1024 {
        let q = f64_of_ratio_u128(bytes as u128, 1024);
        push_scaled(&mut s, q.0, q.1, 'k');
    } else if bytes < 1024 * 1024 * 1024 {
        let q = f64_of_ratio_u128(bytes as u128, 1024 * 1024);
        push_scaled(&mut s, q.0, q.1, 'M');
    } else {
        proof {
            lemma_p2_64();
        }
        let q = f64_of_ratio_u128(bytes as u128, 1);
        assert(q.1 * (1024 * 1024 * 1024) <= 0x10_0000_0000_0000) by (nonlinear_arith)
            requires
                q.1 <= 0x40_0000,
        ;
        assert(0 < q.1 * (1024 * 1024 * 1024)) by (nonlinear_arith)
            requires
                0 < q.1,
        ;
        push_scaled(&mut s, q.0, q.1 * (1024 * 1024 * 1024), 'G');
    }
    assert(s@ == size_compact_text(bytes as nat));
    s
}


/// One entry of a directory listing, as the banner shows it.
#[derive(Debug, Clone)]
pub struct DirEntry {
    pub name: String,
    pub path: String,
    pub is_dir: bool,
    pub is_file: bool,
    pub is_symlink: bool,
    pub is_exec: bool,
    pub size: u64,
    /// Modification time: seconds and nanoseconds since the Unix epoch.
    pub modified: Option<(i64, u32)>,
    pub perms: String,
    pub owner: String,
    pub group: String,
    pub symlink_target: Option<String>,
    pub symlink_valid: bool,
    /// Cached per-file content-probe result (e.g. `"1024x1536"` for a PNG);
    /// `None` and `Some("")` both mean that no metadata is available.
    pub content_probe: Option<String>,
}

/// At most this many directories, the start and its ancestors, are searched
/// for project markers.
pub const MAX_ANCESTORS: usize = 10;

/// The project type that a lower-cased file name marks.
pub open spec fn marker_type(lower: Seq<char>) -> Option<ProjectType> {
    if lower == "cargo.toml"@ {
        Some(ProjectType::Rust)
    } else if lower == "package.json"@ {
        Some(ProjectType::Node)
    } else if lower == "pyproject.toml"@ || lower == "setup.py"@ || lower == "requirements.txt"@ || lower == "pipfile"@ {
        Some(ProjectType::Python)
    } else if lower == "go.mod"@ {
        Some(ProjectType::Go)
    } else if lower == "gemfile"@ {
        Some(ProjectType::Ruby)
    } else if lower == "pom.xml"@ || lower == "build.gradle"@ {
        Some(ProjectType::Java)
    } else if lower == "cmakelists.txt"@ {
        Some(ProjectType::CMake)
    } else {
        None
    }
}

/// The type marked by the first entry of a directory listing (in listing
/// order) whose lower-cased name is a marker.
pub open spec fn listing_type(names: Seq<String>) -> Option<ProjectType>
    decreases names.len(),
{
    if names.len() == 0 {
        None
    } else {
        match marker_type(unicode_lowercase(names[0]@)) {
            Some(t) => Some(t),
            None => listing_type(names.skip(1)),
        }
    }
}

/// The marker files looked for by exact name, in priority order.
pub open spec fn direct_markers() -> Seq<Seq<char>> {
    seq![
        "Cargo.toml"@, "package.json"@, "pyproject.toml"@, "setup.py"@, "requirements.txt"@, "pipfile"@,
        "go.mod"@, "gemfile"@, "pom.xml"@, "build.gradle"@, "CMakeLists.txt"@, "cmakelists.txt"@
    ]
}

/// The type marked by the existing marker files (names among `existing`),
/// tested in priority order.
pub open spec fn direct_type(existing: Seq<String>) -> Option<ProjectType> {
    let e = views(existing);
    if e.contains("Cargo.toml"@) {
        Some(ProjectType::Rust)
    } else if e.contains("package.json"@) {
        Some(ProjectType::Node)
    } else if e.contains("pyproject.toml"@) || e.contains("setup.py"@) || e.contains("requirements.txt"@) || e.contains("pipfile"@) {
        Some(ProjectType::Python)
    } else if e.contains("go.mod"@) {
        Some(ProjectType::Go)
    } else if e.contains("gemfile"@) {
        Some(ProjectType::Ruby)
    } else if e.contains("pom.xml"@) || e.contains("build.gradle"@) {
        Some(ProjectType::Java)
    } else if e.contains("CMakeLists.txt"@) || e.contains("cmakelists.txt"@) {
        Some(ProjectType::CMake)
    } else {
        None
    }
}

/// One directory's project type: its marker files first, then its listing.
pub open spec fn level_type(existing: Seq<String>, listing: Seq<String>) -> Option<ProjectType> {
    match direct_type(existing) {
        Some(t) => Some(t),
        None => listing_type(listing),
    }
}

/// The first type found among the first [`MAX_ANCESTORS`] levels, nearest
/// first; `Generic` when none has one.
pub open spec fn detect_levels(levels: Seq<(Seq<String>, Seq<String>)>) -> ProjectType
    decreases levels.len(),
{
    if levels.len() == 0 {
        ProjectType::Generic
    } else {
        match level_type(levels[0].0, levels[0].1) {
            Some(t) => t,
            None => detect_levels(levels.skip(1)),
        }
    }
}

/// The names of the marker files looked for by exact name.
pub fn direct_marker_names() -> (r: Vec<String>)
    ensures
        views(r@) == direct_markers(),
{
    let names = [
        "Cargo.toml", "package.json", "pyproject.toml", "setup.py", "requirements.txt", "pipfile",
        "go.mod", "gemfile", "pom.xml", "build.gradle", "CMakeLists.txt", "cmakelists.txt",
    ];
    let mut r: Vec<String> = Vec::new();
    let mut i: usize = 0;
    while i < names.len()
        invariant
            i <= names@.len(),
            views(r@) == names@.take(i as int).map_values(|s: &str| s@),
        decreases names@.len() - i,
    {
        let ghost before = r@;
        r.push(owned(names[i]));
        assert(views(r@) =~= views(before).push(names@[i as int]@));
        assert(names@.take(i + 1).map_values(|s: &str| s@) =~= names@.take(i as int).map_values(|s: &str| s@).push(names@[i as int]@));
        i = i + 1;
    }
    assert(names@.take(names@.len() as int) == names@);
    assert(views(r@) =~= direct_markers());
    r
}

fn has_name(existing: &[String], name: &str) -> (r: bool)
    ensures
        r == views(existing@).contains(name@),
{
    let ghost ev = views(existing@);
    let mut j: usize = 0;
    while j < existing.len()
        invariant
            j <= existing@.len(),
            ev == views(existing@),
            forall|k: int| 0 <= k < j ==> ev[k] != name@,
        decreases existing@.len() - j,
    {
        if str_eq(existing[j].as_str(), name) {
            assert(ev[j as int] == name@);
            return true;
        }
        j = j + 1;
    }
    assert(!ev.contains(name@)) by {
        if ev.contains(name@) {
            let k = choose|k: int| 0 <= k < ev.len() && ev[k] == name@;
        }
    }
    false
}

fn marker_type_of(lower: &str) -> (r: Option<ProjectType>)
    ensures
        r == marker_type(lower@),
{
    if str_eq(lower, "cargo.toml") {
        Some(ProjectType::Rust)
    } else if str_eq(lower, "package.json") {
        Some(ProjectType::Node)
    } else if str_eq(lower, "pyproject.toml") || str_eq(lower, "setup.py") || str_eq(lower, "requirements.txt") || str_eq(lower, "pipfile") {
        Some(ProjectType::Python)
    } else if str_eq(lower, "go.mod") {
        Some(ProjectType::Go)
    } else if str_eq(lower, "gemfile") {
        Some(ProjectType::Ruby)
    } else if str_eq(lower, "pom.xml") || str_eq(lower, "build.gradle") {
        Some(ProjectType::Java)
    } else if str_eq(lower, "cmakelists.txt") {
        Some(ProjectType::CMake)
    } else {
        None
    }
}

/// One directory's project type, given the marker files that exist in it (by
/// name) and its listing in order.
pub fn detect_level(existing: &[String], listing: &[String]) -> (r: Option<ProjectType>)
    ensures
        r == level_type(existing@, listing@),
{
    let direct = if has_name(existing, "Cargo.toml") {
        Some(ProjectType::Rust)
    } else if has_name(existing, "package.json") {
        Some(ProjectType::Node)
    } else if has_name(existing, "pyproject.toml") || has_name(existing, "setup.py") || has_name(existing, "requirements.txt") || has_name(existing, "pipfile") {
        Some(ProjectType::Python)
    } else if has_name(existing, "go.mod") {
        Some(ProjectType::Go)
    } else if has_name(existing, "gemfile") {
        Some(ProjectType::Ruby)
    } else if has_name(existing, "pom.xml") || has_name(existing, "build.gradle") {
        Some(ProjectType::Java)
    } else if has_name(existing, "CMakeLists.txt") || has_name(existing, "cmakelists.txt") {
        Some(ProjectType::CMake)
    } else {
        None
    };
    if direct.is_some() {
        return direct;
    }
    let mut i: usize = 0;
    assert(listing@.skip(0) == listing@);
    while i < listing.len()
        invariant
            i <= listing@.len(),
            direct_type(existing@) is None,
            listing_type(listing@) == listing_type(listing@.skip(i as int)),
        decreases listing@.len() - i,
    {
        let lower = to_lowercase(listing[i].as_str());
        let t = marker_type_of(lower.as_str());
        assert(listing@.skip(i as int)[0] == listing@[i as int]);
        assert(listing@.skip(i as int).skip(1) == listing@.skip(i + 1));
        if t.is_some() {
            return t;
        }
        i = i + 1;
    }
    None
}

/// The levels as the names they hold.
pub open spec fn levels_view(levels: Seq<(Vec<String>, Vec<String>)>) -> Seq<(Seq<String>, Seq<String>)> {
    levels.map_values(|l: (Vec<String>, Vec<String>)| (l.0@, l.1@))
}

impl ProjectType {
    /// The project type of a directory from its levels: the directory
    /// itself, then its parent, and so on, each with the marker files that
    /// exist in it and its listing. Only the first [`MAX_ANCESTORS`] levels
    /// count; `Generic` when none has a marker.
    pub fn detect(levels: &[(Vec<String>, Vec<String>)]) -> (r: ProjectType)
        ensures
            r == detect_levels(levels_view(levels@.take(if levels@.len() < MAX_ANCESTORS { levels@.len() as int } else { MAX_ANCESTORS as int }))),
    {
        let n = if levels.len() < MAX_ANCESTORS { levels.len() } else { MAX_ANCESTORS };
        let ghost lv = levels_view(levels@.take(n as int));
        let mut i: usize = 0;
        assert(lv.skip(0) == lv);
        while i < n
            invariant
                i <= n,
                n <= levels@.len(),
                lv.len() == n,
                lv == levels_view(levels@.take(n as int)),
                n == (if levels@.len() < MAX_ANCESTORS { levels@.len() as int } else { MAX_ANCESTORS as int }),
                detect_levels(lv) == detect_levels(lv.skip(i as int)),
            decreases n - i,
        {
            assert(lv.skip(i as int)[0] == (levels@[i as int].0@, levels@[i as int].1@));
            assert(lv.skip(i as int).skip(1) == lv.skip(i + 1));
            match detect_level(levels[i].0.as_slice(), levels[i].1.as_slice()) {
                Some(t) => {
                    assert(detect_levels(lv.skip(i as int)) == t);
                    return t;
                },
                None => {},
            }
            i = i + 1;
        }
        ProjectType::Generic
    }
}

} // verus!
