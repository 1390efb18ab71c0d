//! Project insights: TODO markers and lines of code, tallied over a bounded
//! set of text files. The caller walks the tree and reads files; this module
//! decides which files count and keeps the running totals.

use vstd::prelude::*;
use crate::parse::{lemma_split_nonempty, lines, lines_text, split_text};
use crate::text::{contains, has_infix, owned, str_eq, to_chars, to_lowercase, unicode_lowercase, views};
use crate::watch::skip_dirs;

verus! {

/// At most this many files are scanned.
pub const MAX_FILES: usize = 1000;

/// Files larger than this (in bytes) are counted but not read.
pub const MAX_INSIGHT_FILE_BYTES: u64 = 262144;

/// The longest content (in characters) that a read file can have.
pub const MAX_CONTENT_CHARS: usize = 262144;

/// TODO markers found, in total and per marker.
#[derive(Debug, Clone)]
pub struct TodoInfo {
    pub count: usize,
    pub by_pattern: Vec<(String, usize)>,
}

/// Lines of code: total, the five largest extensions, and files counted.
#[derive(Debug, Clone)]
pub struct CodeMetrics {
    pub total_loc: usize,
    pub by_extension: Vec<(String, usize)>,
    pub file_count: usize,
}

/// Both insights, from one pass over the files.
#[derive(Debug, Clone)]
pub struct ProjectInsights {
    pub todos: TodoInfo,
    pub metrics: CodeMetrics,
}

/// The TODO markers, in the order in which a line is tested against them.
pub open spec fn todo_patterns() -> Seq<Seq<char>> {
    seq!["- [ ]"@, "TODO:"@, "TODO "@, "FIXME:"@, "FIXME "@, "HACK:"@, "HACK "@, "XXX:"@, "XXX "@]
}

/// Extensions of files that hold no text worth counting.
pub open spec fn binary_exts() -> Seq<Seq<char>> {
    seq![
        "png"@, "jpg"@, "jpeg"@, "gif"@, "bmp"@, "ico"@, "webp"@, "tiff"@, "mp3"@, "mp4"@,
        "wav"@, "ogg"@, "flac"@, "avi"@, "mov"@, "mkv"@, "webm"@, "zip"@, "tar"@, "gz"@,
        "bz2"@, "xz"@, "7z"@, "rar"@, "jar"@, "exe"@, "dll"@, "so"@, "dylib"@, "a"@,
        "o"@, "obj"@, "bin"@, "class"@, "pyc"@, "wasm"@, "pdf"@, "woff"@, "woff2"@, "ttf"@,
        "otf"@, "eot"@, "sqlite"@, "db"@
    ]
}

/// The index of the first marker, from `k` on, that occurs in `line`.
pub open spec fn first_pattern_from(line: Seq<char>, k: int) -> Option<int>
    decreases 9 - k,
{
    if k < 0 || k >= 9 {
        None
    } else if has_infix(line, todo_patterns()[k]) {
        Some(k)
    } else {
        first_pattern_from(line, k + 1)
    }
}

/// The marker a line counts for: the first one that occurs in it.
pub open spec fn first_pattern(line: Seq<char>) -> Option<int> {
    first_pattern_from(line, 0)
}

/// Nine zero counts.
pub open spec fn zero_counts() -> Seq<nat> {
    Seq::new(9, |i: int| 0nat)
}

/// Per marker, how many of `ls` count for it.
pub open spec fn todo_tally(ls: Seq<Seq<char>>) -> Seq<nat>
    decreases ls.len(),
{
    if ls.len() == 0 {
        zero_counts()
    } else {
        let prev = todo_tally(ls.drop_last());
        match first_pattern(ls.last()) {
            Some(k) => prev.update(k, prev[k] + 1),
            None => prev,
        }
    }
}

/// How often `c` occurs in `s`.
pub open spec fn count_char(s: Seq<char>, c: char) -> nat
    decreases s.len(),
{
    if s.len() == 0 {
        0
    } else {
        count_char(s.drop_last(), c) + if s.last() == c { 1nat } else { 0nat }
    }
}

/// Lines in a file: its newlines, plus one for a last line that has none.
pub open spec fn loc_of(content: Seq<char>) -> nat {
    if content.len() == 0 {
        0
    } else if content.last() == '\n' {
        count_char(content, '\n')
    } else {
        count_char(content, '\n') + 1
    }
}

/// The key an extension is tallied under.
pub open spec fn ext_key(ext: Seq<char>) -> Seq<char> {
    if ext.len() == 0 {
        "no-ext"@
    } else {
        ext
    }
}

/// Whether each key occurs once.
pub open spec fn distinct_keys(t: Seq<(Seq<char>, nat)>) -> bool {
    forall|i: int, j: int| 0 <= i < j < t.len() ==> t[i].0 != t[j].0
}

/// `t` with `n` added to `key`'s count, the key appended if it is new.
pub open spec fn tally_add(t: Seq<(Seq<char>, nat)>, key: Seq<char>, n: nat) -> Seq<(Seq<char>, nat)> {
    if exists|i: int| 0 <= i < t.len() && t[i].0 == key {
        let i = choose|i: int| 0 <= i < t.len() && t[i].0 == key;
        t.update(i, (key, t[i].1 + n))
    } else {
        t.push((key, n))
    }
}

/// The first index of a largest count.
pub open spec fn first_max(t: Seq<(Seq<char>, nat)>) -> int
    decreases t.len(),
{
    if t.len() <= 1 {
        0
    } else {
        let j = first_max(t.drop_last());
        if t.last().1 > t[j].1 {
            t.len() - 1
        } else {
            j
        }
    }
}

/// The `n` entries with the largest counts, largest first, earlier first among equals
/// (a stable sort by count, descending, cut to `n`).
pub open spec fn top_n(t: Seq<(Seq<char>, nat)>, n: nat) -> Seq<(Seq<char>, nat)>
    decreases n,
{
    if n == 0 || t.len() == 0 {
        Seq::empty()
    } else {
        let j = first_max(t);
        seq![t[j]] + top_n(t.remove(j), (n - 1) as nat)
    }
}

/// Markers with a nonzero count among the first `n`, in marker order.
pub open spec fn pattern_pairs(counts: Seq<nat>, n: int) -> Seq<(Seq<char>, nat)>
    decreases n,
{
    if n <= 0 {
        Seq::empty()
    } else {
        let prev = pattern_pairs(counts, n - 1);
        if counts[n - 1] > 0 {
            prev.push((todo_patterns()[n - 1], counts[n - 1]))
        } else {
            prev
        }
    }
}

/// The sum of the first `n` counts.
pub open spec fn count_sum(counts: Seq<nat>, n: int) -> nat
    decreases n,
{
    if n <= 0 {
        0
    } else {
        count_sum(counts, n - 1) + counts[n - 1]
    }
}

/// A tally of `(String, usize)` seen as keys and counts.
pub open spec fn pairs_view(v: Seq<(String, usize)>) -> Seq<(Seq<char>, nat)> {
    v.map_values(|p: (String, usize)| (p.0@, p.1 as nat))
}

/// Counts of a `Vec<usize>` as naturals.
pub open spec fn nats(v: Seq<usize>) -> Seq<nat> {
    v.map_values(|x: usize| x as nat)
}

/// The most lines one read file can add.
pub open spec fn per_file() -> nat {
    262145
}

/// Whether a directory name is one the scan never enters.
pub fn is_skipped_name(name: &str, extra_skip_dirs: &[String]) -> (r: bool)
    ensures
        r == (skip_dirs().contains(name@) || views(extra_skip_dirs@).contains(name@)),
{
    let names = [
        "node_modules", "target", ".git", "dist", "build", ".pi", ".opencode", ".pi-glla", ".dracon",
        ".svelte-kit", ".cache",
    ];
    let ghost sd = skip_dirs();
    assert forall|i: int| 0 <= i < sd.len() implies #[trigger] names@[i]@ == sd[i] by {}
    let mut i: usize = 0;
    while i < names.len()
        invariant
            i <= names@.len(),
            names@.len() == sd.len(),
            sd == skip_dirs(),
            forall|k: int| 0 <= k < sd.len() ==> #[trigger] names@[k]@ == sd[k],
            forall|k: int| 0 <= k < i ==> sd[k] != name@,
        decreases names@.len() - i,
    {
        if str_eq(name, names[i]) {
            assert(sd[i as int] == name@);
            return true;
        }
        i = i + 1;
    }
    let ghost ev = views(extra_skip_dirs@);
    let mut j: usize = 0;
    while j < extra_skip_dirs.len()
        invariant
            j <= extra_skip_dirs@.len(),
            ev == views(extra_skip_dirs@),
            forall|k: int| 0 <= k < j ==> ev[k] != name@,
        decreases extra_skip_dirs@.len() - j,
    {
        if str_eq(name, extra_skip_dirs[j].as_str()) {
            assert(ev[j as int] == name@);
            return true;
        }
        j = j + 1;
    }
    assert(!sd.contains(name@)) by {
        if sd.contains(name@) {
            let k = choose|k: int| 0 <= k < sd.len() && sd[k] == name@;
        }
    }
    assert(!ev.contains(name@)) by {
        if ev.contains(name@) {
            let k = choose|k: int| 0 <= k < ev.len() && ev[k] == name@;
        }
    }
    false
}

/// Whether a (lower-case) extension is one of the binary ones.
pub fn is_binary_ext(ext: &str) -> (r: bool)
    ensures
        r == binary_exts().contains(ext@),
{
    let names = [
        "png", "jpg", "jpeg", "gif", "bmp", "ico", "webp", "tiff", "mp3", "mp4",
        "wav", "ogg", "flac", "avi", "mov", "mkv", "webm", "zip", "tar", "gz",
        "bz2", "xz", "7z", "rar", "jar", "exe", "dll", "so", "dylib", "a",
        "o", "obj", "bin", "class", "pyc", "wasm", "pdf", "woff", "woff2", "ttf",
        "otf", "eot", "sqlite", "db",
    ];
    let ghost be = binary_exts();
    assert forall|i: int| 0 <= i < be.len() implies #[trigger] names@[i]@ == be[i] by {}
    let mut i: usize = 0;
    while i < names.len()
        invariant
            i <= names@.len(),
            names@.len() == be.len(),
            be == binary_exts(),
            forall|k: int| 0 <= k < be.len() ==> #[trigger] names@[k]@ == be[k],
            forall|k: int| 0 <= k < i ==> be[k] != ext@,
        decreases names@.len() - i,
    {
        if str_eq(ext, names[i]) {
            assert(be[i as int] == ext@);
            return true;
        }
        i = i + 1;
    }
    assert(!be.contains(ext@)) by {
        if be.contains(ext@) {
            let k = choose|k: int| 0 <= k < be.len() && be[k] == ext@;
        }
    }
    false
}

/// What the scan does with one file of the walk.
#[derive(Debug)]
pub enum InsightFile {
    /// Not counted at all.
    Skip,
    /// Counted as a file, but too large to read.
    Oversized,
    /// Read and tallied under this lower-case extension.
    Scan(String),
}

/// Whether some component is a skipped directory name.
pub open spec fn under_skipped(components: Seq<String>, extra: Seq<String>) -> bool {
    exists|i: int| 0 <= i < components.len()
        && (skip_dirs().contains(#[trigger] components[i]@) || views(extra).contains(components[i]@))
}

/// Decides for one regular file, given the components of its path below the
/// scanned root, its extension (`None` when it has none) and its size: files
/// under a skipped directory, without an extension or with a binary one are
/// skipped; larger than [`MAX_INSIGHT_FILE_BYTES`], they are only counted;
/// the rest are read.
pub fn classify_insight_file(
    components: &[String],
    extension: Option<&str>,
    file_size: u64,
    extra_skip_dirs: &[String],
) -> (r: InsightFile)
    ensures
        under_skipped(components@, extra_skip_dirs@) ==> r is Skip,
        !under_skipped(components@, extra_skip_dirs@) ==> match extension {
            None => r is Skip,
            Some(e) => if binary_exts().contains(unicode_lowercase(e@)) {
                r is Skip
            } else if file_size > MAX_INSIGHT_FILE_BYTES {
                r is Oversized
            } else {
                r matches InsightFile::Scan(x) && x@ == unicode_lowercase(e@)
            },
        },
{
    let mut i: usize = 0;
    while i < components.len()
        invariant
            i <= components@.len(),
            forall|k: int| 0 <= k < i ==> !(skip_dirs().contains(#[trigger] components@[k]@)
                || views(extra_skip_dirs@).contains(components@[k]@)),
        decreases components@.len() - i,
    {
        if is_skipped_name(components[i].as_str(), extra_skip_dirs) {
            return InsightFile::Skip;
        }
        i = i + 1;
    }
    match extension {
        None => InsightFile::Skip,
        Some(e) => {
            let lower = to_lowercase(e);
            if is_binary_ext(lower.as_str()) {
                InsightFile::Skip
            } else if file_size > MAX_INSIGHT_FILE_BYTES {
                InsightFile::Oversized
            } else {
                InsightFile::Scan(lower)
            }
        },
    }
}

proof fn lemma_count_char_le(s: Seq<char>, c: char)
    ensures
        count_char(s, c) <= s.len(),
    decreases s.len(),
{
    if s.len() > 0 {
        lemma_count_char_le(s.drop_last(), c);
    }
}

proof fn lemma_loc_le(s: Seq<char>)
    ensures
        loc_of(s) <= s.len(),
{
    if s.len() > 0 {
        lemma_count_char_le(s.drop_last(), '\n');
        assert(s.drop_last().len() == s.len() - 1);
    }
}

proof fn lemma_split_len(s: Seq<char>, sep: char)
    ensures
        split_text(s, sep).len() <= s.len() + 1,
    decreases s.len(),
{
    if s.len() > 0 {
        lemma_split_len(s.drop_last(), sep);
        lemma_split_nonempty(s.drop_last(), sep);
    }
}

proof fn lemma_lines_len(s: Seq<char>)
    ensures
        lines_text(s).len() <= s.len() + 1,
{
    lemma_split_len(s, '\n');
    lemma_split_nonempty(s, '\n');
}

proof fn lemma_first_pattern_range(line: Seq<char>, k: int)
    ensures
        first_pattern_from(line, k) matches Some(j) ==> 0 <= j < 9,
    decreases 9 - k,
{
    if 0 <= k < 9 && !has_infix(line, todo_patterns()[k]) {
        lemma_first_pattern_range(line, k + 1);
    }
}

proof fn lemma_tally_bound(ls: Seq<Seq<char>>, k: int)
    requires
        0 <= k < 9,
    ensures
        todo_tally(ls).len() == 9,
        todo_tally(ls)[k] <= ls.len(),
    decreases ls.len(),
{
    if ls.len() > 0 {
        lemma_tally_bound(ls.drop_last(), k);
        lemma_first_pattern_range(ls.last(), 0);
        let prev = todo_tally(ls.drop_last());
        assert forall|j: int| 0 <= j < 9 implies #[trigger] prev[j] <= ls.len() - 1 by {
            lemma_tally_bound(ls.drop_last(), j);
        }
    }
}

/// Newlines in `cs`, with the rule for a last line without one.
fn loc_of_chars(cs: &[char]) -> (r: usize)
    requires
        cs@.len() <= MAX_CONTENT_CHARS,
    ensures
        r == loc_of(cs@),
{
    let mut n: usize = 0;
    let mut i: usize = 0;
    while i < cs.len()
        invariant
            i <= cs@.len(),
            cs@.len() <= MAX_CONTENT_CHARS,
            n == count_char(cs@.take(i as int), '\n'),
            n <= i,
        decreases cs@.len() - i,
    {
        assert(cs@.take(i + 1).drop_last() == cs@.take(i as int));
        if cs[i] == '\n' {
            n = n + 1;
        }
        i = i + 1;
    }
    assert(cs@.take(cs@.len() as int) == cs@);
    if cs.len() == 0 {
        0
    } else if cs[cs.len() - 1] == '\n' {
        n
    } else {
        n + 1
    }
}

/// The index of the first marker that occurs in `line`.
fn first_pattern_of(line: &[char], pats: &Vec<Vec<char>>) -> (r: Option<usize>)
    requires
        pats@.len() == 9,
        forall|k: int| 0 <= k < 9 ==> #[trigger] pats@[k]@ == todo_patterns()[k],
    ensures
        r matches Some(k) ==> k < 9,
        match r {
            Some(k) => first_pattern(line@) == Some(k as int),
            None => first_pattern(line@) is None,
        },
{
    let mut k: usize = 0;
    while k < 9
        invariant
            k <= 9,
            pats@.len() == 9,
            forall|j: int| 0 <= j < 9 ==> #[trigger] pats@[j]@ == todo_patterns()[j],
            first_pattern(line@) == first_pattern_from(line@, k as int),
        decreases 9 - k,
    {
        if contains(line, pats[k].as_slice()) {
            return Some(k);
        }
        k = k + 1;
    }
    None
}

fn pattern_chars() -> (r: Vec<Vec<char>>)
    ensures
        r@.len() == 9,
        forall|k: int| 0 <= k < 9 ==> #[trigger] r@[k]@ == todo_patterns()[k],
{
    let mut r: Vec<Vec<char>> = Vec::new();
    r.push(to_chars("- [ ]"));
    r.push(to_chars("TODO:"));
    r.push(to_chars("TODO "));
    r.push(to_chars("FIXME:"));
    r.push(to_chars("FIXME "));
    r.push(to_chars("HACK:"));
    r.push(to_chars("HACK "));
    r.push(to_chars("XXX:"));
    r.push(to_chars("XXX "));
    r
}

/// Running totals of an insight scan.
pub struct InsightScan {
    pub file_count: usize,
    pub total_loc: usize,
    pub pattern_counts: Vec<usize>,
    pub ext_locs: Vec<(String, usize)>,
}

impl InsightScan {
    /// The totals stay within what [`MAX_FILES`] files can add, and each
    /// extension is tallied once.
    pub open spec fn wf(&self) -> bool {
        &&& self.file_count <= MAX_FILES
        &&& self.total_loc <= self.file_count * per_file()
        &&& self.pattern_counts@.len() == 9
        &&& forall|k: int| 0 <= k < 9 ==> #[trigger] self.pattern_counts@[k] <= self.file_count * per_file()
        &&& forall|k: int| 0 <= k < self.ext_locs@.len() ==> #[trigger] self.ext_locs@[k].1 <= self.total_loc
        &&& distinct_keys(pairs_view(self.ext_locs@))
    }

    /// An empty scan.
    pub fn new() -> (r: InsightScan)
        ensures
            r.wf(),
            r.file_count == 0,
            r.total_loc == 0,
            nats(r.pattern_counts@) == zero_counts(),
            r.ext_locs@.len() == 0,
    {
        let mut pc: Vec<usize> = Vec::new();
        let mut i: usize = 0;
        while i < 9
            invariant
                i <= 9,
                pc@.len() == i,
                forall|k: int| 0 <= k < i ==> pc@[k] == 0,
            decreases 9 - i,
        {
            pc.push(0);
            i = i + 1;
        }
        assert(nats(pc@) =~= zero_counts());
        InsightScan { file_count: 0, total_loc: 0, pattern_counts: pc, ext_locs: Vec::new() }
    }

    /// Whether the file limit is reached (the walk stops there).
    pub fn is_full(&self) -> (r: bool)
        ensures
            r == (self.file_count >= MAX_FILES),
    {
        self.file_count >= MAX_FILES
    }

    /// Counts a file that is too large to read.
    pub fn add_oversized(&mut self)
        requires
            old(self).wf(),
            old(self).file_count < MAX_FILES,
        ensures
            final(self).wf(),
            final(self).file_count == old(self).file_count + 1,
            final(self).total_loc == old(self).total_loc,
            final(self).pattern_counts@ == old(self).pattern_counts@,
            final(self).ext_locs@ == old(self).ext_locs@,
    {
        self.file_count = self.file_count + 1;
    }

    /// Tallies a read file: its lines under its extension's key, and per
    /// line the first TODO marker it holds.
    pub fn add_content(&mut self, ext: &str, content: &str)
        requires
            old(self).wf(),
            old(self).file_count < MAX_FILES,
            content@.len() <= MAX_CONTENT_CHARS,
        ensures
            final(self).wf(),
            final(self).file_count == old(self).file_count + 1,
            final(self).total_loc == old(self).total_loc + loc_of(content@),
            forall|k: int| 0 <= k < 9 ==> #[trigger] final(self).pattern_counts@[k]
                == old(self).pattern_counts@[k] + todo_tally(lines_text(content@))[k],
            pairs_view(final(self).ext_locs@)
                == tally_add(pairs_view(old(self).ext_locs@), ext_key(ext@), loc_of(content@)),
    {
        let cs = to_chars(content);
        let loc = loc_of_chars(cs.as_slice());
        proof {
            lemma_loc_le(content@);
            lemma_lines_len(content@);
        }
        let ls = lines(cs.as_slice());
        let pats = pattern_chars();
        let ghost lt = lines_text(content@);
        let ghost old_counts = self.pattern_counts@;
        let ghost fc = self.file_count as int;
        let mut i: usize = 0;
        while i < ls.len()
            invariant
                i <= ls@.len(),
                ls@.len() == lt.len(),
                lt.len() <= MAX_CONTENT_CHARS + 1,
                forall|j: int| 0 <= j < ls@.len() ==> #[trigger] ls@[j]@ == lt[j],
                pats@.len() == 9,
                forall|k: int| 0 <= k < 9 ==> #[trigger] pats@[k]@ == todo_patterns()[k],
                self.pattern_counts@.len() == 9,
                old_counts.len() == 9,
                fc == self.file_count,
                fc < MAX_FILES,
                old(self).wf(),
                self.total_loc == old(self).total_loc,
                self.ext_locs@ == old(self).ext_locs@,
                self.file_count == old(self).file_count,
                forall|k: int| 0 <= k < 9 ==> #[trigger] old_counts[k] <= fc * per_file(),
                forall|k: int| 0 <= k < 9 ==> #[trigger] self.pattern_counts@[k]
                    == old_counts[k] + todo_tally(lt.take(i as int))[k],
            decreases ls@.len() - i,
        {
            proof {
                assert(lt.take(i + 1).drop_last() == lt.take(i as int));
                assert(lt.take(i + 1).last() == lt[i as int]);
                lemma_tally_bound(lt.take(i as int), 0);
            }
            match first_pattern_of(ls[i].as_slice(), &pats) {
                Some(k) => {
                    proof {
                        lemma_tally_bound(lt.take(i as int), k as int);
                    }
                    let v = self.pattern_counts[k];
                    self.pattern_counts.set(k, v + 1);
                },
                None => {},
            }
            i = i + 1;
        }
        assert(lt.take(lt.len() as int) == lt);
        proof {
            assert forall|k: int| 0 <= k < 9 implies #[trigger] self.pattern_counts@[k] <= (fc + 1) * per_file() by {
                lemma_tally_bound(lt, k);
            }
        }
        let ext_chars = to_chars(ext);
        let key = if ext_chars.len() == 0 {
            owned("no-ext")
        } else {
            owned(ext)
        };
        assert(key@ == ext_key(ext@));
        self.file_count = self.file_count + 1;
        self.total_loc = self.total_loc + loc;
        self.add_ext_loc(key, loc);
    }

    fn add_ext_loc(&mut self, key: String, n: usize)
        requires
            old(self).file_count <= MAX_FILES,
            old(self).total_loc <= old(self).file_count * per_file(),
            old(self).pattern_counts@.len() == 9,
            forall|k: int| 0 <= k < 9 ==> #[trigger] old(self).pattern_counts@[k] <= old(self).file_count * per_file(),
            forall|k: int| 0 <= k < old(self).ext_locs@.len() ==> #[trigger] old(self).ext_locs@[k].1 + n <= old(self).total_loc,
            distinct_keys(pairs_view(old(self).ext_locs@)),
            n <= old(self).total_loc,
        ensures
            final(self).wf(),
            final(self).file_count == old(self).file_count,
            final(self).total_loc == old(self).total_loc,
            final(self).pattern_counts@ == old(self).pattern_counts@,
            pairs_view(final(self).ext_locs@) == tally_add(pairs_view(old(self).ext_locs@), key@, n as nat),
    {
        let ghost t = pairs_view(self.ext_locs@);
        let mut i: usize = 0;
        while i < self.ext_locs.len()
            invariant
                i <= self.ext_locs@.len(),
                t == pairs_view(self.ext_locs@),
                self.file_count == old(self).file_count,
                self.total_loc == old(self).total_loc,
                self.pattern_counts@ == old(self).pattern_counts@,
                self.ext_locs@ == old(self).ext_locs@,
                old(self).file_count <= MAX_FILES,
                old(self).total_loc <= old(self).file_count * per_file(),
                old(self).pattern_counts@.len() == 9,
                forall|k: int| 0 <= k < 9 ==> #[trigger] old(self).pattern_counts@[k] <= old(self).file_count * per_file(),
                forall|k: int| 0 <= k < old(self).ext_locs@.len() ==> #[trigger] old(self).ext_locs@[k].1 + n <= old(self).total_loc,
                distinct_keys(t),
                forall|k: int| 0 <= k < i ==> t[k].0 != key@,
            decreases self.ext_locs@.len() - i,
        {
            if str_eq(self.ext_locs[i].0.as_str(), key.as_str()) {
                assert(t[i as int].0 == key@);
                let v = self.ext_locs[i].1;
                let name = owned(self.ext_locs[i].0.as_str());
                self.ext_locs.set(i, (name, v + n));
                proof {
                    let c = choose|j: int| 0 <= j < t.len() && t[j].0 == key@;
                    assert(c == i) by {
                        if c != i as int {
                            if c < i {
                            } else {
                                assert(t[i as int].0 != t[c].0);
                            }
                        }
                    }
                    assert(pairs_view(self.ext_locs@) =~= t.update(i as int, (key@, (t[i as int].1 + n) as nat)));
                    assert forall|a: int, b: int| 0 <= a < b < pairs_view(self.ext_locs@).len()
                        implies pairs_view(self.ext_locs@)[a].0 != pairs_view(self.ext_locs@)[b].0 by {
                        assert(t[a].0 != t[b].0);
                    }
                }
                return;
            }
            i = i + 1;
        }
        self.ext_locs.push((key, n));
        proof {
            assert(!(exists|j: int| 0 <= j < t.len() && t[j].0 == key@));
            assert(pairs_view(self.ext_locs@) =~= t.push((key@, n as nat)));
            assert forall|a: int, b: int| 0 <= a < b < pairs_view(self.ext_locs@).len()
                implies pairs_view(self.ext_locs@)[a].0 != pairs_view(self.ext_locs@)[b].0 by {
                if b < t.len() {
                    assert(t[a].0 != t[b].0);
                }
            }
        }
    }

    /// The insights: markers with a nonzero count in marker order, their sum,
    /// the total lines, the five extensions with the most lines, and the
    /// number of files counted.
    pub fn finish(self) -> (r: ProjectInsights)
        requires
            self.wf(),
        ensures
            r.todos.count == count_sum(nats(self.pattern_counts@), 9),
            pairs_view(r.todos.by_pattern@) == pattern_pairs(nats(self.pattern_counts@), 9),
            r.metrics.total_loc == self.total_loc,
            r.metrics.file_count == self.file_count,
            pairs_view(r.metrics.by_extension@) == top_n(pairs_view(self.ext_locs@), 5),
    {
        let ghost counts = nats(self.pattern_counts@);
        let pats = ["- [ ]", "TODO:", "TODO ", "FIXME:", "FIXME ", "HACK:", "HACK ", "XXX:", "XXX "];
        assert forall|k: int| 0 <= k < 9 implies #[trigger] pats@[k]@ == todo_patterns()[k] by {}
        let mut by_pattern: Vec<(String, usize)> = Vec::new();
        let mut sum: usize = 0;
        let mut k: usize = 0;
        while k < 9
            invariant
                k <= 9,
                self.wf(),
                counts == nats(self.pattern_counts@),
                forall|j: int| 0 <= j < 9 ==> #[trigger] pats@[j]@ == todo_patterns()[j],
                sum == count_sum(counts, k as int),
                sum <= k * 262145000,
                pairs_view(by_pattern@) == pattern_pairs(counts, k as int),
            decreases 9 - k,
        {
            let c = self.pattern_counts[k];
            assert(c <= 262145000) by (nonlinear_arith)
                requires
                    c <= self.file_count * per_file(),
                    self.file_count <= MAX_FILES,
            ;
            if c > 0 {
                by_pattern.push((owned(pats[k]), c));
                proof {
                    assert(pairs_view(by_pattern@) =~= pattern_pairs(counts, k as int).push(
                        (todo_patterns()[k as int], counts[k as int]),
                    ));
                }
            }
            sum = sum + c;
            k = k + 1;
        }
        let total_loc = self.total_loc;
        let file_count = self.file_count;
        let by_extension = top_extensions(self.ext_locs, 5);
        ProjectInsights {
            todos: TodoInfo { count: sum, by_pattern },
            metrics: CodeMetrics { total_loc, by_extension, file_count },
        }
    }
}

/// The first index of a largest count in `v`.
fn first_max_of(v: &Vec<(String, usize)>) -> (r: usize)
    requires
        v@.len() > 0,
    ensures
        r == first_max(pairs_view(v@)),
        r < v@.len(),
{
    let ghost t = pairs_view(v@);
    let mut best: usize = 0;
    let mut i: usize = 1;
    while i < v.len()
        invariant
            1 <= i <= v@.len(),
            t == pairs_view(v@),
            best == first_max(t.take(i as int)),
            best < i,
        decreases v@.len() - i,
    {
        assert(t.take(i + 1).drop_last() == t.take(i as int));
        if v[i].1 > v[best].1 {
            best = i;
        }
        i = i + 1;
    }
    assert(t.take(v@.len() as int) == t);
    best
}

/// The `n` entries with the most lines, largest first.
fn top_extensions(v: Vec<(String, usize)>, n: usize) -> (r: Vec<(String, usize)>)
    ensures
        pairs_view(r@) == top_n(pairs_view(v@), n as nat),
{
    let mut rest = v;
    let mut out: Vec<(String, usize)> = Vec::new();
    let mut k: usize = 0;
    let ghost t0 = pairs_view(rest@);
    while k < n && rest.len() > 0
        invariant
            k <= n,
            t0 == pairs_view(v@),
            top_n(t0, n as nat) == pairs_view(out@) + top_n(pairs_view(rest@), (n - k) as nat),
        decreases n - k,
    {
        let j = first_max_of(&rest);
        let ghost before = pairs_view(rest@);
        let e = rest.remove(j);
        proof {
            assert(pairs_view(rest@) =~= before.remove(j as int));
            assert(top_n(before, (n - k) as nat) == seq![before[j as int]] + top_n(
                before.remove(j as int),
                (n - k - 1) as nat,
            ));
        }
        out.push(e);
        proof {
            assert(pairs_view(out@) =~= pairs_view(out@.drop_last()).push(before[j as int]));
            assert(pairs_view(out@) + top_n(pairs_view(rest@), (n - k - 1) as nat) =~= pairs_view(out@.drop_last()) + (
            seq![before[j as int]] + top_n(before.remove(j as int), (n - k - 1) as nat)));
        }
        k = k + 1;
    }
    assert(top_n(pairs_view(rest@), (n - k) as nat) == Seq::<(Seq<char>, nat)>::empty());
    assert(pairs_view(out@) + Seq::<(Seq<char>, nat)>::empty() =~= pairs_view(out@));
    out
}

proof fn lemma_first_max(t: Seq<(Seq<char>, nat)>)
    requires
        t.len() > 0,
    ensures
        0 <= first_max(t) < t.len(),
        forall|i: int| 0 <= i < t.len() ==> #[trigger] t[i].1 <= t[first_max(t)].1,
    decreases t.len(),
{
    if t.len() > 1 {
        let d = t.drop_last();
        lemma_first_max(d);
        assert forall|i: int| 0 <= i < t.len() implies #[trigger] t[i].1 <= t[first_max(t)].1 by {
            if i < t.len() - 1 {
                assert(d[i] == t[i]);
            }
            assert(d[first_max(d)] == t[first_max(d)]);
        }
    }
}

/// Counts never grow from one entry to the next.
pub open spec fn non_increasing(s: Seq<(Seq<char>, nat)>) -> bool {
    forall|i: int, j: int| 0 <= i < j < s.len() ==> s[i].1 >= s[j].1
}

/// The extensions a scan reports come largest first: at most `n` of them,
/// each an entry of the tally, and no count above the one before it.
pub proof fn top_n_is_largest_first(t: Seq<(Seq<char>, nat)>, n: nat)
    ensures
        top_n(t, n).len() <= n,
        top_n(t, n).len() <= t.len(),
        forall|k: int| 0 <= k < top_n(t, n).len() ==> t.contains(#[trigger] top_n(t, n)[k]),
        non_increasing(top_n(t, n)),
    decreases n,
{
    if n > 0 && t.len() > 0 {
        let j = first_max(t);
        lemma_first_max(t);
        let rest = t.remove(j);
        top_n_is_largest_first(rest, (n - 1) as nat);
        let tail = top_n(rest, (n - 1) as nat);
        let r = top_n(t, n);
        assert(r == seq![t[j]] + tail);
        assert forall|k: int| 0 <= k < tail.len() implies t.contains(#[trigger] tail[k]) && tail[k].1 <= t[j].1 by {
            assert(rest.contains(tail[k]));
            let m = choose|m: int| 0 <= m < rest.len() && rest[m] == tail[k];
            if m < j {
                assert(rest[m] == t[m]);
                assert(t[m].1 <= t[j].1);
            } else {
                assert(rest[m] == t[m + 1]);
                assert(t[m + 1].1 <= t[j].1);
            }
        }
        assert forall|k: int| 0 <= k < r.len() implies t.contains(#[trigger] r[k]) by {
            if k > 0 {
                assert(r[k] == tail[k - 1]);
            }
        }
        assert forall|a: int, b: int| 0 <= a < b < r.len() implies r[a].1 >= r[b].1 by {
            assert(r[b] == tail[b - 1]);
            if a > 0 {
                assert(r[a] == tail[a - 1]);
            }
        }
    }
}

} // verus!
