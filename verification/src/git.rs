//! Git status model: per-file statuses and the parsing of `git` command output.

use vstd::prelude::*;
use crate::fs::DirEntry;
use crate::parse::{lines, lines_text, parse_i64, parse_i64_text, parse_usize, parse_usize_text, split_chars, split_text, lemma_split_nonempty, trim, trim_chars, trim_text};
use crate::text::{join_spec, owned, push_char, push_str, string_from_chars, take_at_most, take_chars, to_chars, views};

verus! {

/// Status of one path as reported by `git status --porcelain`.
#[derive(Debug, Clone, Copy, PartialEq, Eq, Structural)]
pub enum FileStatus {
    Modified,
    Added,
    Deleted,
    Renamed,
    Untracked,
    Conflict,
}

impl FileStatus {
    pub open spec fn color_spec(self) -> Seq<char> {
        match self {
            FileStatus::Modified => "\x1b[33m"@,
            FileStatus::Added => "\x1b[32m"@,
            FileStatus::Deleted => "\x1b[31m"@,
            FileStatus::Renamed => "\x1b[36m"@,
            FileStatus::Untracked => "\x1b[2m"@,
            FileStatus::Conflict => "\x1b[31m"@,
        }
    }

    /// How serious a status is when several are summarised into one
    /// (Conflict > Deleted > Modified > Added > Renamed > Untracked).
    pub open spec fn severity_spec(self) -> u8 {
        match self {
            FileStatus::Conflict => 5,
            FileStatus::Deleted => 4,
            FileStatus::Modified => 3,
            FileStatus::Added => 2,
            FileStatus::Renamed => 1,
            FileStatus::Untracked => 0,
        }
    }

    /// The glyph shown for a status (the same dot for every status; the color tells them apart).
    pub fn icon(&self) -> (r: &'static str)
        ensures
            r@ == "\u{25cf}"@,
    {
        "\u{25cf}"
    }

    /// ANSI color for a status.
    pub fn color(&self) -> (r: &'static str)
        ensures
            r@ == self.color_spec(),
    {
        match self {
            FileStatus::Modified => "\x1b[33m",
            FileStatus::Added => "\x1b[32m",
            FileStatus::Deleted => "\x1b[31m",
            FileStatus::Renamed => "\x1b[36m",
            FileStatus::Untracked => "\x1b[2m",
            FileStatus::Conflict => "\x1b[31m",
        }
    }

    pub fn severity(&self) -> (r: u8)
        ensures
            r == self.severity_spec(),
    {
        match self {
            FileStatus::Conflict => 5,
            FileStatus::Deleted => 4,
            FileStatus::Modified => 3,
            FileStatus::Added => 2,
            FileStatus::Renamed => 1,
            FileStatus::Untracked => 0,
        }
    }
}

/// The map a list of (path, status) pairs stands for: later pairs win.
pub open spec fn status_map(v: Seq<(String, FileStatus)>) -> Map<Seq<char>, FileStatus>
    decreases v.len(),
{
    if v.len() == 0 {
        Map::empty()
    } else {
        status_map(v.drop_last()).insert(v.last().0@, v.last().1)
    }
}

/// No path occurs twice.
pub open spec fn unique_paths(v: Seq<(String, FileStatus)>) -> bool {
    forall|i: int, j: int| 0 <= i < v.len() && 0 <= j < v.len() && i != j ==> v[i].0@ != v[j].0@
}

pub proof fn lemma_status_map_update(v: Seq<(String, FileStatus)>, i: int, e: (String, FileStatus))
    requires
        unique_paths(v),
        0 <= i < v.len(),
        v[i].0@ == e.0@,
    ensures
        status_map(v.update(i, e)) == status_map(v).insert(e.0@, e.1),
        unique_paths(v.update(i, e)),
    decreases v.len(),
{
    let w = v.update(i, e);
    assert(w.drop_last() == if i == v.len() - 1 { v.drop_last() } else { v.drop_last().update(i, e) });
    if i < v.len() - 1 {
        lemma_status_map_update(v.drop_last(), i, e);
        assert(v.last().0@ != e.0@);
        assert(status_map(w) =~= status_map(v).insert(e.0@, e.1));
    } else {
        assert(status_map(w) =~= status_map(v).insert(e.0@, e.1));
    }
}

pub proof fn lemma_status_map_dom(v: Seq<(String, FileStatus)>, k: Seq<char>)
    ensures
        status_map(v).contains_key(k) <==> exists|j: int| 0 <= j < v.len() && v[j].0@ == k,
    decreases v.len(),
{
    if v.len() > 0 {
        lemma_status_map_dom(v.drop_last(), k);
        if status_map(v).contains_key(k) && v.last().0@ != k {
            let j = choose|j: int| 0 <= j < v.len() - 1 && v.drop_last()[j].0@ == k;
            assert(v[j].0@ == k);
        }
        if exists|j: int| 0 <= j < v.len() && v[j].0@ == k {
            let j = choose|j: int| 0 <= j < v.len() && v[j].0@ == k;
            if j < v.len() - 1 {
                assert(v.drop_last()[j].0@ == k);
            }
        }
    }
}

/// Inserts or replaces the status of `path`.
pub fn insert_status(v: &mut Vec<(String, FileStatus)>, path: String, st: FileStatus)
    requires
        unique_paths(old(v)@),
    ensures
        unique_paths(final(v)@),
        status_map(final(v)@) == status_map(old(v)@).insert(path@, st),
{
    let pc = to_chars(path.as_str());
    let mut i: usize = 0;
    while i < v.len()
        invariant
            i <= v@.len(),
            v@ == old(v)@,
            unique_paths(v@),
            pc@ == path@,
            forall|j: int| 0 <= j < i ==> v@[j].0@ != path@,
        decreases v@.len() - i,
    {
        let same = {
            let kc = to_chars(v[i].0.as_str());
            crate::text::chars_eq(kc.as_slice(), pc.as_slice())
        };
        if same {
            proof {
                lemma_status_map_update(v@, i as int, (path, st));
            }
            v.set(i, (path, st));
            return;
        }
        i = i + 1;
    }
    let ghost before = v@;
    v.push((path, st));
    assert(v@.drop_last() == before);
    assert(unique_paths(v@)) by {
        assert forall|a: int, b: int| 0 <= a < v@.len() && 0 <= b < v@.len() && a != b implies v@[a].0@ != v@[b].0@ by {
            if a < before.len() && b < before.len() {
            } else if a == before.len() {
                assert(before[b].0@ != path@);
            } else {
                assert(before[a].0@ != path@);
            }
        }
    }
}

pub proof fn lemma_status_map_last(v: Seq<(String, FileStatus)>, k: int, key: Seq<char>)
    requires
        0 <= k < v.len(),
        v[k].0@ == key,
        forall|j: int| k < j < v.len() ==> v[j].0@ != key,
    ensures
        status_map(v).contains_key(key),
        status_map(v)[key] == v[k].1,
    decreases v.len(),
{
    if k < v.len() - 1 {
        lemma_status_map_last(v.drop_last(), k, key);
    }
}

/// The status of `path`, if one is recorded (the last pair for it wins).
pub fn lookup_status(v: &[(String, FileStatus)], path: &str) -> (r: Option<FileStatus>)
    ensures
        r == (if status_map(v@).contains_key(path@) { Some(status_map(v@)[path@]) } else { None }),
{
    let pc = to_chars(path);
    let mut i = v.len();
    while i > 0
        invariant
            i <= v@.len(),
            pc@ == path@,
            forall|j: int| i <= j < v@.len() ==> v@[j].0@ != path@,
        decreases i,
    {
        let kc = to_chars(v[i - 1].0.as_str());
        if crate::text::chars_eq(kc.as_slice(), pc.as_slice()) {
            proof {
                lemma_status_map_last(v@, i - 1, path@);
            }
            return Some(v[i - 1].1);
        }
        i = i - 1;
    }
    proof {
        lemma_status_map_dom(v@, path@);
    }
    None
}

/// Git status for a directory.
/// `file_statuses` holds each path at most once.
#[derive(Debug, Clone)]
pub struct GitInfo {
    pub is_repo: bool,
    pub branch: Option<String>,
    pub ahead: usize,
    pub behind: usize,
    pub staged: usize,
    pub modified: usize,
    pub untracked: usize,
    pub last_commit_msg: Option<String>,
    pub last_commit_hash: Option<String>,
    pub last_commit_time: Option<i64>,
    pub commits_today: usize,
    pub branch_count: usize,
    pub stash_count: usize,
    pub merge_state: Option<String>,
    pub tag: Option<String>,
    pub lines_added: usize,
    pub lines_deleted: usize,
    pub is_dirty: bool,
    pub file_statuses: Vec<(String, FileStatus)>,
}

impl GitInfo {
    /// Every field empty, zero or false: what a directory outside any repository gets.
    pub open spec fn is_blank(self) -> bool {
        &&& !self.is_repo
        &&& self.branch is None
        &&& self.ahead == 0
        &&& self.behind == 0
        &&& self.staged == 0
        &&& self.modified == 0
        &&& self.untracked == 0
        &&& self.last_commit_msg is None
        &&& self.last_commit_hash is None
        &&& self.last_commit_time is None
        &&& self.commits_today == 0
        &&& self.branch_count == 0
        &&& self.stash_count == 0
        &&& self.merge_state is None
        &&& self.tag is None
        &&& self.lines_added == 0
        &&& self.lines_deleted == 0
        &&& !self.is_dirty
        &&& self.file_statuses@.len() == 0
    }
}

impl Default for GitInfo {
    fn default() -> (r: GitInfo)
        ensures
            r.is_blank(),
    {
        GitInfo {
            is_repo: false,
            branch: None,
            ahead: 0,
            behind: 0,
            staged: 0,
            modified: 0,
            untracked: 0,
            last_commit_msg: None,
            last_commit_hash: None,
            last_commit_time: None,
            commits_today: 0,
            branch_count: 0,
            stash_count: 0,
            merge_state: None,
            tag: None,
            lines_added: 0,
            lines_deleted: 0,
            is_dirty: false,
            file_statuses: Vec::new(),
        }
    }
}

/// What `String::from_utf8_lossy` decodes from `bytes` (invalid sequences become U+FFFD).
pub uninterp spec fn utf8_lossy(bytes: Seq<u8>) -> Seq<char>;

/// Decodes bytes as UTF-8, replacing invalid sequences (`String::from_utf8_lossy`).
#[verifier::external_body]
pub(crate) fn from_utf8_lossy(bytes: &[u8]) -> (r: String)
    ensures
        r@ == utf8_lossy(bytes@),
{
    String::from_utf8_lossy(bytes).to_string()
}

/// Counts and per-path statuses gathered from `git status --porcelain -z`.
pub struct StatusResult {
    pub staged: usize,
    pub modified: usize,
    pub untracked: usize,
    pub file_statuses: Vec<(String, FileStatus)>,
}

/// The abstract state of the status parse: staged, modified, untracked, statuses.
pub type StatusModel = (nat, nat, nat, Map<Seq<char>, FileStatus>);

/// X (index) codes that mean the change is staged.
pub open spec fn is_staged_code(x: u8) -> bool {
    x != 0x20 && x != 0x3f && x != 0x21
}

/// Effect of one NUL-terminated record `XY path` on the parse state. Records
/// that do not start with two codes and a space (such as the original name that
/// follows a rename) are skipped. Unmerged records (`U` on either side) are
/// conflicts; otherwise a staged change wins over an untracked or worktree one.
pub open spec fn status_step(m: StatusModel, rec: Seq<u8>, collect: bool) -> StatusModel {
    if rec.len() < 4 || rec[2] != 0x20 {
        m
    } else {
        let x = rec[0];
        let y = rec[1];
        let path = utf8_lossy(rec.skip(3));
        if x == 0x55 || y == 0x55 {
            (m.0, m.1 + 1, m.2, if collect { m.3.insert(path, FileStatus::Conflict) } else { m.3 })
        } else if is_staged_code(x) {
            let st = if x == 0x44 { FileStatus::Deleted } else if x == 0x52 { FileStatus::Renamed } else { FileStatus::Added };
            (m.0 + 1, m.1, m.2, if collect { m.3.insert(path, st) } else { m.3 })
        } else if x == 0x3f {
            (m.0, m.1, m.2 + 1, if collect { m.3.insert(path, FileStatus::Untracked) } else { m.3 })
        } else if is_staged_code(y) {
            let st = if y == 0x44 { FileStatus::Deleted } else if y == 0x52 { FileStatus::Renamed } else { FileStatus::Modified };
            (m.0, m.1 + 1, m.2, if collect { m.3.insert(path, st) } else { m.3 })
        } else {
            m
        }
    }
}

/// Parse state after the bytes `raw`, with the record still being read.
pub open spec fn status_scan(raw: Seq<u8>, collect: bool) -> (StatusModel, Seq<u8>)
    decreases raw.len(),
{
    if raw.len() == 0 {
        ((0, 0, 0, Map::empty()), Seq::empty())
    } else {
        let prev = status_scan(raw.drop_last(), collect);
        if raw.last() == 0 {
            (status_step(prev.0, prev.1, collect), Seq::empty())
        } else {
            (prev.0, prev.1.push(raw.last()))
        }
    }
}

/// The result of parsing the whole output: every NUL-separated record in turn,
/// the text after the last NUL included.
pub open spec fn status_parse(raw: Seq<u8>, collect: bool) -> StatusModel {
    let s = status_scan(raw, collect);
    status_step(s.0, s.1, collect)
}

fn apply_record(res: &mut StatusResult, rec: &[u8], collect: bool, Ghost(m): Ghost<StatusModel>)
    requires
        unique_paths(old(res).file_statuses@),
        status_map(old(res).file_statuses@) == m.3,
        old(res).staged == m.0,
        old(res).modified == m.1,
        old(res).untracked == m.2,
        m.0 + m.1 + m.2 + rec@.len() <= usize::MAX,
    ensures
        unique_paths(final(res).file_statuses@),
        status_map(final(res).file_statuses@) == status_step(m, rec@, collect).3,
        final(res).staged == status_step(m, rec@, collect).0,
        final(res).modified == status_step(m, rec@, collect).1,
        final(res).untracked == status_step(m, rec@, collect).2,
        status_step(m, rec@, collect).0 + status_step(m, rec@, collect).1 + status_step(m, rec@, collect).2 <= m.0 + m.1 + m.2 + rec@.len(),
{
    if rec.len() < 4 || rec[2] != 0x20 {
        return;
    }
    let x = rec[0];
    let y = rec[1];
    let tail = slice_from(rec, 3);
    let path = from_utf8_lossy(tail.as_slice());
    if x == 0x55 || y == 0x55 {
        res.modified = res.modified + 1;
        if collect {
            insert_status(&mut res.file_statuses, path, FileStatus::Conflict);
        }
        return;
    }
    let staged = x != 0x20 && x != 0x3f && x != 0x21;
    let worktree = y != 0x20 && y != 0x3f && y != 0x21;
    if staged {
        res.staged = res.staged + 1;
        if collect {
            let st = if x == 0x44 { FileStatus::Deleted } else if x == 0x52 { FileStatus::Renamed } else { FileStatus::Added };
            insert_status(&mut res.file_statuses, path, st);
        }
    } else if x == 0x3f {
        res.untracked = res.untracked + 1;
        if collect {
            insert_status(&mut res.file_statuses, path, FileStatus::Untracked);
        }
    } else if worktree {
        res.modified = res.modified + 1;
        if collect {
            let st = if y == 0x44 { FileStatus::Deleted } else if y == 0x52 { FileStatus::Renamed } else { FileStatus::Modified };
            insert_status(&mut res.file_statuses, path, st);
        }
    }
}

/// `s[from..]` as an owned vector.
fn slice_from(s: &[u8], from: usize) -> (r: Vec<u8>)
    requires
        from <= s@.len(),
    ensures
        r@ == s@.skip(from as int),
{
    let mut r: Vec<u8> = Vec::new();
    let mut i = from;
    while i < s.len()
        invariant
            from <= i <= s@.len(),
            r@ == s@.subrange(from as int, i as int),
        decreases s@.len() - i,
    {
        r.push(s[i]);
        assert(s@.subrange(from as int, i + 1) == s@.subrange(from as int, i as int).push(s@[i as int]));
        i = i + 1;
    }
    assert(s@.subrange(from as int, s@.len() as int) == s@.skip(from as int));
    r
}

/// Parses `git status --porcelain -z` output.
///
/// Format: `XY path` records, NUL-terminated, where X is the index status and
/// Y the worktree status (' ' unmodified, M modified, A added, D deleted,
/// R renamed, C copied, U unmerged, ? untracked, ! ignored). When
/// `collect_file_statuses` is false only the counts are gathered.
pub fn parse_porcelain_status(raw: &[u8], collect_file_statuses: bool) -> (r: StatusResult)
    ensures
        unique_paths(r.file_statuses@),
        r.staged == status_parse(raw@, collect_file_statuses).0,
        r.modified == status_parse(raw@, collect_file_statuses).1,
        r.untracked == status_parse(raw@, collect_file_statuses).2,
        status_map(r.file_statuses@) == status_parse(raw@, collect_file_statuses).3,
{
    let mut res = StatusResult { staged: 0, modified: 0, untracked: 0, file_statuses: Vec::new() };
    let mut cur: Vec<u8> = Vec::new();
    let mut i: usize = 0;
    assert(raw@.take(0) =~= Seq::<u8>::empty());
    assert(status_map(res.file_statuses@) =~= Map::<Seq<char>, FileStatus>::empty());
    while i < raw.len()
        invariant
            i <= raw@.len(),
            unique_paths(res.file_statuses@),
            status_scan(raw@.take(i as int), collect_file_statuses).0.0 == res.staged,
            status_scan(raw@.take(i as int), collect_file_statuses).0.1 == res.modified,
            status_scan(raw@.take(i as int), collect_file_statuses).0.2 == res.untracked,
            status_scan(raw@.take(i as int), collect_file_statuses).0.3 == status_map(res.file_statuses@),
            status_scan(raw@.take(i as int), collect_file_statuses).1 == cur@,
            res.staged + res.modified + res.untracked + cur@.len() <= i,
        decreases raw@.len() - i,
    {
        let b = raw[i];
        assert(raw@.take(i + 1).drop_last() == raw@.take(i as int));
        assert(raw@.take(i + 1).last() == b);
        if b == 0 {
            let ghost m = status_scan(raw@.take(i as int), collect_file_statuses).0;
            apply_record(&mut res, cur.as_slice(), collect_file_statuses, Ghost(m));
            cur = Vec::new();
        } else {
            cur.push(b);
        }
        i = i + 1;
    }
    assert(raw@.take(raw@.len() as int) == raw@);
    let ghost m = status_scan(raw@, collect_file_statuses).0;
    apply_record(&mut res, cur.as_slice(), collect_file_statuses, Ghost(m));
    res
}


proof fn lemma_scan_without_nul(rec: Seq<u8>, collect: bool)
    requires
        forall|i: int| 0 <= i < rec.len() ==> rec[i] != 0,
    ensures
        status_scan(rec, collect) == ((0nat, 0nat, 0nat, Map::<Seq<char>, FileStatus>::empty()), rec),
    decreases rec.len(),
{
    if rec.len() > 0 {
        lemma_scan_without_nul(rec.drop_last(), collect);
        assert(rec.drop_last().push(rec.last()) == rec);
    } else {
        assert(rec == Seq::<u8>::empty());
    }
}

/// What one `git status --porcelain -z` record `XY path` gives on its own:
/// an unmerged record (`U` on either side) is a conflict counted as
/// modified; otherwise a staged index code counts as staged, with `D`
/// deleted, `R` renamed and any other code added; `?` is untracked; with
/// an unchanged index, a worktree `D` is deleted, `R` renamed and any other
/// code modified. The path is the only one with a status.
pub proof fn one_record_status(rec: Seq<u8>)
    requires
        forall|i: int| 0 <= i < rec.len() ==> rec[i] != 0,
        rec.len() >= 4,
        rec[2] == 0x20,
    ensures
        ({
            let m = status_parse(rec.push(0), true);
            let path = utf8_lossy(rec.skip(3));
            let (x, y) = (rec[0], rec[1]);
            &&& (x == 0x55 || y == 0x55) ==> m.1 == 1 && m.0 == 0 && m.2 == 0 && m.3 == map![path => FileStatus::Conflict]
            &&& (x != 0x55 && y != 0x55 && x == 0x44) ==> m.0 == 1 && m.1 == 0 && m.2 == 0 && m.3 == map![path => FileStatus::Deleted]
            &&& (x != 0x55 && y != 0x55 && x == 0x52) ==> m.0 == 1 && m.1 == 0 && m.2 == 0 && m.3 == map![path => FileStatus::Renamed]
            &&& (x != 0x55 && y != 0x55 && (x == 0x41 || x == 0x4d || x == 0x43)) ==> m.0 == 1 && m.1 == 0 && m.2 == 0 && m.3 == map![path => FileStatus::Added]
            &&& (x == 0x3f && y != 0x55) ==> m.2 == 1 && m.0 == 0 && m.1 == 0 && m.3 == map![path => FileStatus::Untracked]
            &&& (x == 0x20 && y == 0x4d) ==> m.1 == 1 && m.0 == 0 && m.2 == 0 && m.3 == map![path => FileStatus::Modified]
            &&& (x == 0x20 && y == 0x44) ==> m.1 == 1 && m.0 == 0 && m.2 == 0 && m.3 == map![path => FileStatus::Deleted]
            &&& (x == 0x20 && y == 0x52) ==> m.1 == 1 && m.0 == 0 && m.2 == 0 && m.3 == map![path => FileStatus::Renamed]
            &&& (x == 0x20 && y == 0x20) ==> m.0 == 0 && m.1 == 0 && m.2 == 0 && m.3 == Map::<Seq<char>, FileStatus>::empty()
        }),
{
    lemma_scan_without_nul(rec, true);
    let full = rec.push(0);
    assert(full.drop_last() == rec);
    assert(full.last() == 0);
    let m0 = (0nat, 0nat, 0nat, Map::<Seq<char>, FileStatus>::empty());
    assert(status_scan(full, true) == (status_step(m0, rec, true), Seq::<u8>::empty()));
    assert(status_step(status_step(m0, rec, true), Seq::<u8>::empty(), true) == status_step(m0, rec, true));
    let path = utf8_lossy(rec.skip(3));
    assert(Map::<Seq<char>, FileStatus>::empty().insert(path, FileStatus::Conflict) =~= map![path => FileStatus::Conflict]);
    assert(Map::<Seq<char>, FileStatus>::empty().insert(path, FileStatus::Deleted) =~= map![path => FileStatus::Deleted]);
    assert(Map::<Seq<char>, FileStatus>::empty().insert(path, FileStatus::Renamed) =~= map![path => FileStatus::Renamed]);
    assert(Map::<Seq<char>, FileStatus>::empty().insert(path, FileStatus::Added) =~= map![path => FileStatus::Added]);
    assert(Map::<Seq<char>, FileStatus>::empty().insert(path, FileStatus::Untracked) =~= map![path => FileStatus::Untracked]);
    assert(Map::<Seq<char>, FileStatus>::empty().insert(path, FileStatus::Modified) =~= map![path => FileStatus::Modified]);
}

/// In a list without repeated paths, each pair is what the map holds for its path.
pub proof fn lemma_status_map_unique(v: Seq<(String, FileStatus)>, j: int)
    requires
        unique_paths(v),
        0 <= j < v.len(),
    ensures
        status_map(v).contains_key(v[j].0@),
        status_map(v)[v[j].0@] == v[j].1,
{
    lemma_status_map_last(v, j, v[j].0@);
}


/// The pathspec that limits `git status` to what a banner row shows: a file's
/// own name, or `:(glob)dir/*` for a directory (its immediate children).
pub open spec fn status_filter_path(e: DirEntry) -> Seq<char> {
    if e.is_dir {
        ":(glob)"@ + e.name@ + "/*"@
    } else {
        e.name@
    }
}

/// Build git status pathspecs for the banner rows.
pub fn status_filter_paths_for_items(items: &[DirEntry]) -> (r: Vec<String>)
    ensures
        r@.len() == items@.len(),
        forall|i: int| 0 <= i < items@.len() ==> #[trigger] r@[i]@ == status_filter_path(items@[i]),
{
    let mut r: Vec<String> = Vec::new();
    let mut i: usize = 0;
    while i < items.len()
        invariant
            i <= items@.len(),
            r@.len() == i,
            forall|k: int| 0 <= k < i ==> #[trigger] r@[k]@ == status_filter_path(items@[k]),
        decreases items@.len() - i,
    {
        let item = &items[i];
        if item.is_dir {
            let mut s = owned(":(glob)");
            push_str(&mut s, item.name.as_str());
            push_str(&mut s, "/*");
            r.push(s);
        } else {
            r.push(owned(item.name.as_str()));
        }
        i = i + 1;
    }
    r
}

/// Segments that are neither empty nor `.`.
pub open spec fn normal_segments(ss: Seq<Seq<char>>) -> Seq<Seq<char>>
    decreases ss.len(),
{
    if ss.len() == 0 {
        ss
    } else {
        let r = normal_segments(ss.drop_last());
        if ss.last().len() > 0 && ss.last() != "."@ {
            r.push(ss.last())
        } else {
            r
        }
    }
}

/// The components `Path::components` yields for `p`: the segments between `/`
/// separators without empty and `.` ones, after a root `/` or a leading `.`
/// when the path has one.
pub open spec fn path_components(p: Seq<char>) -> Seq<Seq<char>> {
    let segs = split_text(p, '/');
    if p.len() > 0 && p[0] == '/' {
        seq!["/"@] + normal_segments(segs.skip(1))
    } else if segs[0] == "."@ {
        seq!["."@] + normal_segments(segs.skip(1))
    } else {
        normal_segments(segs)
    }
}

/// `keep` holds a string with the text `s`.
pub open spec fn holds_text(keep: Seq<String>, s: Seq<char>) -> bool {
    exists|i: int| 0 <= i < keep.len() && keep[i]@ == s
}

/// A status path is shown when its first component is kept and it has at most
/// one more component below it.
pub open spec fn displayed_status_path(p: Seq<char>, keep: Seq<String>) -> bool {
    let c = path_components(p);
    c.len() >= 1 && holds_text(keep, c[0]) && c.len() <= 2
}

fn normal_segments_of(ss: &Vec<Vec<char>>, from: usize) -> (r: Vec<Vec<char>>)
    requires
        from <= ss@.len(),
    ensures
        views_of_chars(r@) == normal_segments(views_of_chars(ss@).skip(from as int)),
{
    let mut r: Vec<Vec<char>> = Vec::new();
    let mut i = from;
    let ghost all = views_of_chars(ss@);
    assert(all.skip(from as int).take(0) =~= Seq::<Seq<char>>::empty());
    assert(views_of_chars(r@) =~= Seq::<Seq<char>>::empty());
    while i < ss.len()
        invariant
            from <= i <= ss@.len(),
            all == views_of_chars(ss@),
            views_of_chars(r@) == normal_segments(all.skip(from as int).take(i - from)),
        decreases ss@.len() - i,
    {
        let ghost pre = all.skip(from as int).take(i - from);
        assert(all.skip(from as int).take(i - from + 1).drop_last() == pre);
        assert(all.skip(from as int).take(i - from + 1).last() == ss@[i as int]@);
        let seg = &ss[i];
        let is_dot = seg.len() == 1 && seg[0] == '.';
        proof {
            if seg@.len() == 1 {
                reveal_strlit(".");
                assert(is_dot <==> seg@ == "."@) by {
                    if seg@[0] == '.' {
                        assert(seg@ =~= "."@);
                    }
                }
            } else {
                reveal_strlit(".");
                assert(seg@ != "."@);
            }
        }
        if seg.len() > 0 && !is_dot {
            let copy = slice_chars_all(seg);
            let ghost before = r@;
            r.push(copy);
            assert(views_of_chars(r@) == views_of_chars(before).push(seg@));
        }
        i = i + 1;
    }
    assert(all.skip(from as int).take(ss@.len() - from) == all.skip(from as int));
    r
}

fn slice_chars_all(v: &Vec<char>) -> (r: Vec<char>)
    ensures
        r@ == v@,
{
    let r = crate::text::slice_chars(v.as_slice(), 0, v.len());
    assert(v@.subrange(0, v@.len() as int) == v@);
    r
}

/// The views of a sequence of character vectors.
pub open spec fn views_of_chars(v: Seq<Vec<char>>) -> Seq<Seq<char>> {
    v.map_values(|c: Vec<char>| c@)
}

/// Keep only git status entries that the banner can display or aggregate.
pub fn is_displayed_git_status_path(path_str: &str, keep: &[String]) -> (r: bool)
    ensures
        r == displayed_status_path(path_str@, keep@),
{
    let p = to_chars(path_str);
    let parts = split_chars(p.as_slice(), '/');
    proof {
        lemma_split_nonempty(p@, '/');
        assert(views_of_chars(parts@) =~= split_text(p@, '/'));
    }
    let first: Vec<char>;
    let rest_count: usize;
    if p.len() > 0 && p[0] == '/' {
        let rest = normal_segments_of(&parts, 1);
        first = vec!['/'];
        rest_count = rest.len();
        proof {
            reveal_strlit("/");
            assert(first@ =~= "/"@);
        }
    } else {
        let p0 = &parts[0];
        let is_dot = p0.len() == 1 && p0[0] == '.';
        proof {
            reveal_strlit(".");
            if p0@.len() == 1 && p0@[0] == '.' {
                assert(p0@ =~= "."@);
            }
            assert(is_dot <==> p0@ == "."@);
        }
        if is_dot {
            let rest = normal_segments_of(&parts, 1);
            first = vec!['.'];
            rest_count = rest.len();
            assert(first@ =~= "."@);
        } else {
            let all = normal_segments_of(&parts, 0);
            assert(views_of_chars(parts@).skip(0) == views_of_chars(parts@));
            if all.len() == 0 {
                return false;
            }
            first = slice_chars_all(&all[0]);
            rest_count = all.len() - 1;
        }
    }
    let ghost comps = path_components(p@);
    assert(comps.len() == rest_count + 1);
    assert(comps[0] == first@);
    let mut found = false;
    let mut i: usize = 0;
    while i < keep.len()
        invariant
            i <= keep@.len(),
            found <==> exists|k: int| 0 <= k < i && keep@[k]@ == first@,
        decreases keep@.len() - i,
    {
        let kc = to_chars(keep[i].as_str());
        if crate::text::chars_eq(kc.as_slice(), first.as_slice()) {
            found = true;
        }
        i = i + 1;
    }
    found && rest_count <= 1
}


/// A number that does not parse counts as 0.
pub open spec fn usize_or_zero(s: Seq<char>) -> nat {
    match parse_usize_text(s) {
        Some(v) => v,
        None => 0,
    }
}

fn usize_or_zero_of(s: &[char]) -> (r: usize)
    ensures
        r == usize_or_zero(s@),
{
    match parse_usize(s) {
        Some(v) => v,
        None => 0,
    }
}

/// Ahead and behind counts as `git rev-list --left-right --count` prints them:
/// exactly two tab-separated fields after trimming.
pub open spec fn ahead_behind_text(out: Seq<char>) -> Option<(nat, nat)> {
    let parts = split_text(trim_text(out), '\t');
    if parts.len() == 2 {
        Some((usize_or_zero(parts[0]), usize_or_zero(parts[1])))
    } else {
        None
    }
}

/// Parses the output of `git rev-list --left-right --count A...B`.
pub fn parse_ahead_behind(out: &str) -> (r: Option<(usize, usize)>)
    ensures
        match r {
            Some(p) => ahead_behind_text(out@) == Some((p.0 as nat, p.1 as nat)),
            None => ahead_behind_text(out@) is None,
        },
{
    let t = trim(out);
    let tc = to_chars(t.as_str());
    let parts = split_chars(tc.as_slice(), '\t');
    if parts.len() == 2 {
        let a = usize_or_zero_of(parts[0].as_slice());
        let b = usize_or_zero_of(parts[1].as_slice());
        Some((a, b))
    } else {
        None
    }
}

/// The upstream to compare with when the branch has none configured:
/// `origin/<branch>` for a named branch, nothing for a detached `HEAD`.
pub fn fallback_upstream(branch_out: &str) -> (r: Option<String>)
    ensures
        r is Some <==> (trim_text(branch_out@).len() > 0 && trim_text(branch_out@) != "HEAD"@),
        r matches Some(u) ==> u@ == "origin/"@ + trim_text(branch_out@),
{
    let b = trim(branch_out);
    if b.as_str().is_empty() || crate::text::str_eq(b.as_str(), "HEAD") {
        None
    } else {
        let mut u = owned("origin/");
        push_str(&mut u, b.as_str());
        Some(u)
    }
}

/// Subject (at most 80 characters), short hash and commit time from the output
/// of `git log -1 --format=%H%n%h%n%s%n%ct`; nothing when it has fewer than four
/// lines. The time is what follows the third line break, as an `i64`.
pub open spec fn last_commit_text(out: Seq<char>) -> (Option<Seq<char>>, Option<Seq<char>>, Option<int>) {
    let p = split_text(trim_text(out), '\n');
    if p.len() < 4 {
        (None, None, None)
    } else {
        (Some(take_at_most(p[2], 80)), Some(p[1]), parse_i64_text(join_spec(p.skip(3), "\n"@)))
    }
}

fn chars_to_string_vec(v: &Vec<Vec<char>>, from: usize) -> (r: Vec<String>)
    requires
        from <= v@.len(),
    ensures
        views(r@) == views_of_chars(v@).skip(from as int),
{
    let mut r: Vec<String> = Vec::new();
    let mut i = from;
    while i < v.len()
        invariant
            from <= i <= v@.len(),
            views(r@) == views_of_chars(v@).skip(from as int).take(i - from),
        decreases v@.len() - i,
    {
        let ghost before = r@;
        r.push(string_from_chars(v[i].as_slice()));
        assert(views(r@) == views(before).push(v@[i as int]@));
        assert(views_of_chars(v@).skip(from as int).take(i - from + 1) == views_of_chars(v@).skip(from as int).take(i - from).push(v@[i as int]@));
        i = i + 1;
    }
    assert(views_of_chars(v@).skip(from as int).take(v@.len() - from) == views_of_chars(v@).skip(from as int));
    r
}

/// Parses the last commit's subject, short hash and time.
pub fn parse_last_commit(out: &str) -> (r: (Option<String>, Option<String>, Option<i64>))
    ensures
        opt_text_view(r.0) == last_commit_text(out@).0,
        opt_text_view(r.1) == last_commit_text(out@).1,
        opt_int_view(r.2) == last_commit_text(out@).2,
{
    let t = trim(out);
    let tc = to_chars(t.as_str());
    let parts = split_chars(tc.as_slice(), '\n');
    proof {
        assert(views_of_chars(parts@) =~= split_text(trim_text(out@), '\n'));
    }
    if parts.len() < 4 {
        return (None, None, None);
    }
    let subject = take_chars(parts[2].as_slice(), 80);
    let hash = string_from_chars(parts[1].as_slice());
    let rest = chars_to_string_vec(&parts, 3);
    let ts_text = crate::text::join(rest.as_slice(), "\n");
    let tsc = to_chars(ts_text.as_str());
    let ts = parse_i64(tsc.as_slice());
    (Some(string_from_chars(subject.as_slice())), Some(hash), ts)
}

pub open spec fn opt_text_view(o: Option<String>) -> Option<Seq<char>> {
    match o {
        Some(s) => Some(s@),
        None => None,
    }
}

pub open spec fn opt_int_view(o: Option<i64>) -> Option<int> {
    match o {
        Some(v) => Some(v as int),
        None => None,
    }
}

/// Number of lines of a command's output (`str::lines().count()`).
pub fn line_count(out: &str) -> (r: usize)
    ensures
        r == lines_text(out@).len(),
{
    let c = to_chars(out);
    let ls = lines(c.as_slice());
    ls.len()
}

/// A command's output trimmed, when that leaves something.
pub open spec fn trimmed_nonempty(out: Option<String>) -> Option<Seq<char>> {
    match out {
        Some(s) => if trim_text(s@).len() > 0 { Some(trim_text(s@)) } else { None },
        None => None,
    }
}

pub fn trimmed_nonempty_of(out: &Option<String>) -> (r: Option<String>)
    ensures
        opt_text_view(r) == trimmed_nonempty(*out),
{
    match out {
        Some(s) => {
            let t = trim(s.as_str());
            if t.as_str().is_empty() {
                None
            } else {
                Some(t)
            }
        },
        None => None,
    }
}

/// Lines added and deleted over the lines of `git diff --numstat`: each line
/// with at least two tab-separated fields adds its first two numbers (a field
/// that is not a number, such as `-` for binary files, adds 0).
pub open spec fn numstat_sums(ls: Seq<Seq<char>>) -> (nat, nat)
    decreases ls.len(),
{
    if ls.len() == 0 {
        (0, 0)
    } else {
        let prev = numstat_sums(ls.drop_last());
        let parts = split_text(ls.last(), '\t');
        if parts.len() >= 2 {
            (prev.0 + usize_or_zero(parts[0]), prev.1 + usize_or_zero(parts[1]))
        } else {
            prev
        }
    }
}

pub open spec fn cap_usize(n: nat) -> nat {
    if n <= usize::MAX { n } else { usize::MAX as nat }
}

/// Sums the `git diff --numstat` output; a total beyond `usize::MAX` is
/// reported as `usize::MAX`.
pub fn parse_diff_numstat(out: &str) -> (r: (usize, usize))
    ensures
        r.0 == cap_usize(numstat_sums(lines_text(out@)).0),
        r.1 == cap_usize(numstat_sums(lines_text(out@)).1),
{
    let c = to_chars(out);
    let ls = lines(c.as_slice());
    let ghost lv = lines_text(out@);
    let mut added: u128 = 0;
    let mut deleted: u128 = 0;
    let mut i: usize = 0;
    while i < ls.len()
        invariant
            i <= ls@.len(),
            ls@.len() == lv.len(),
            forall|k: int| 0 <= k < ls@.len() ==> #[trigger] ls@[k]@ == lv[k],
            added == numstat_sums(lv.take(i as int)).0,
            deleted == numstat_sums(lv.take(i as int)).1,
            added <= i * 0x1_0000_0000_0000_0000,
            deleted <= i * 0x1_0000_0000_0000_0000,
        decreases ls@.len() - i,
    {
        assert(lv.take(i + 1).drop_last() == lv.take(i as int));
        assert(lv.take(i + 1).last() == ls@[i as int]@);
        let parts = split_chars(ls[i].as_slice(), '\t');
        if parts.len() >= 2 {
            let a = usize_or_zero_of(parts[0].as_slice());
            let d = usize_or_zero_of(parts[1].as_slice());
            added = added + a as u128;
            deleted = deleted + d as u128;
        }
        i = i + 1;
    }
    assert(lv.take(lv.len() as int) == lv);
    let a = if added <= usize::MAX as u128 { added as usize } else { usize::MAX };
    let d = if deleted <= usize::MAX as u128 { deleted as usize } else { usize::MAX };
    (a, d)
}

/// The operation in progress, from which of the state files exist in the git
/// directory: `MERGE_HEAD`, `rebase-merge` or `rebase-apply`,
/// `CHERRY_PICK_HEAD`, `REVERT_HEAD` (checked in that order).
pub open spec fn merge_state_text(merge_head: bool, rebase_merge: bool, rebase_apply: bool, cherry_pick_head: bool, revert_head: bool) -> Option<Seq<char>> {
    if merge_head {
        Some("MERGING"@)
    } else if rebase_merge || rebase_apply {
        Some("REBASING"@)
    } else if cherry_pick_head {
        Some("CHERRY-PICKING"@)
    } else if revert_head {
        Some("REVERTING"@)
    } else {
        None
    }
}

pub fn merge_state_from(merge_head: bool, rebase_merge: bool, rebase_apply: bool, cherry_pick_head: bool, revert_head: bool) -> (r: Option<String>)
    ensures
        opt_text_view(r) == merge_state_text(merge_head, rebase_merge, rebase_apply, cherry_pick_head, revert_head),
{
    if merge_head {
        Some(owned("MERGING"))
    } else if rebase_merge || rebase_apply {
        Some(owned("REBASING"))
    } else if cherry_pick_head {
        Some(owned("CHERRY-PICKING"))
    } else if revert_head {
        Some(owned("REVERTING"))
    } else {
        None
    }
}

/// `base` joined with `rel` (`Path::join`): an absolute `rel` replaces `base`.
pub open spec fn join_path_text(base: Seq<char>, rel: Seq<char>) -> Seq<char> {
    if rel.len() > 0 && rel[0] == '/' {
        rel
    } else if base.len() == 0 {
        rel
    } else if base.last() == '/' {
        base + rel
    } else {
        base + seq!['/'] + rel
    }
}

pub fn join_path(base: &str, rel: &str) -> (r: String)
    ensures
        r@ == join_path_text(base@, rel@),
{
    let b = to_chars(base);
    let rc = to_chars(rel);
    if rc.len() > 0 && rc[0] == '/' {
        return owned(rel);
    }
    if b.len() == 0 {
        return owned(rel);
    }
    let mut s = owned(base);
    if b[b.len() - 1] != '/' {
        push_char(&mut s, '/');
    }
    push_str(&mut s, rel);
    s
}

/// The git directory from `git rev-parse --git-dir` (trimmed): itself when
/// absolute, else joined to the work tree root that `--show-toplevel` printed
/// (`None` when that is missing).
pub open spec fn git_dir_text(git_dir_out: Seq<char>, toplevel_out: Option<Seq<char>>) -> Option<Seq<char>> {
    let raw = trim_text(git_dir_out);
    if raw.len() > 0 && raw[0] == '/' {
        Some(raw)
    } else {
        match toplevel_out {
            Some(t) => Some(join_path_text(trim_text(t), raw)),
            None => None,
        }
    }
}

/// Whether the `--git-dir` output is relative, so that the work tree root is needed.
pub fn git_dir_needs_toplevel(git_dir_out: &str) -> (r: bool)
    ensures
        r == !(trim_text(git_dir_out@).len() > 0 && trim_text(git_dir_out@)[0] == '/'),
{
    let raw = trim(git_dir_out);
    let rc = to_chars(raw.as_str());
    !(rc.len() > 0 && rc[0] == '/')
}

pub fn resolve_git_dir(git_dir_out: &str, toplevel_out: Option<&str>) -> (r: Option<String>)
    ensures
        opt_text_view(r) == git_dir_text(git_dir_out@, match toplevel_out {
            Some(t) => Some(t@),
            None => None,
        }),
{
    let raw = trim(git_dir_out);
    let rc = to_chars(raw.as_str());
    if rc.len() > 0 && rc[0] == '/' {
        return Some(raw);
    }
    match toplevel_out {
        Some(t) => {
            let top = trim(t);
            Some(join_path(top.as_str(), raw.as_str()))
        },
        None => None,
    }
}

/// What the git commands printed for one directory (`None` where a command failed).
pub struct GitOutputs {
    /// `git status --porcelain -z [-- pathspecs]`
    pub status: Option<Vec<u8>>,
    /// `git rev-parse --abbrev-ref HEAD`
    pub branch: Option<String>,
    /// ahead and behind counts, already resolved against the upstream
    pub ahead_behind: (usize, usize),
    /// `git log -1 --format=%H%n%h%n%s%n%ct`
    pub last_commit: Option<String>,
    /// `git stash list`
    pub stash_list: Option<String>,
    /// `git log --oneline --since <midnight> --`
    pub commits_today: Option<String>,
    /// `git branch`
    pub branch_list: Option<String>,
    /// `git tag --points-at HEAD`
    pub tag: Option<String>,
    /// `git diff --numstat`
    pub numstat: Option<String>,
    /// the merge/rebase state, already read from the git directory
    pub merge_state: Option<String>,
}

pub open spec fn lines_or_zero(o: Option<String>) -> nat {
    match o {
        Some(s) => lines_text(s@).len(),
        None => 0,
    }
}

/// Commits today: none when the output is empty after trimming, else one per line.
pub open spec fn commits_today_count(o: Option<String>) -> nat {
    match o {
        Some(s) => if trim_text(s@).len() == 0 { 0 } else { lines_text(s@).len() },
        None => 0,
    }
}

fn count_lines_opt(o: &Option<String>) -> (r: usize)
    ensures
        r == lines_or_zero(*o),
{
    match o {
        Some(s) => line_count(s.as_str()),
        None => 0,
    }
}

/// The git summary of a repository, built from what its git commands printed.
/// What the summary built from a repository's command outputs holds: each
/// field parsed from its command, the status counts and file statuses from
/// the porcelain output, and dirtiness from the counts.
pub open spec fn info_from_outputs(r: GitInfo, out: GitOutputs, collect_file_statuses: bool) -> bool {
    &&& (r.is_repo)
    &&& (opt_text_view(r.branch) == trimmed_nonempty(out.branch))
    &&& (r.ahead == out.ahead_behind.0)
    &&& (r.behind == out.ahead_behind.1)
    &&& (out.status is None ==> r.staged == 0 && r.modified == 0 && r.untracked == 0 && r.file_statuses@.len() == 0)
    &&& (out.status matches Some(raw) ==> {
        &&& r.staged == status_parse(raw@, collect_file_statuses).0
        &&& r.modified == status_parse(raw@, collect_file_statuses).1
        &&& r.untracked == status_parse(raw@, collect_file_statuses).2
        &&& status_map(r.file_statuses@) == status_parse(raw@, collect_file_statuses).3
    })
    &&& (unique_paths(r.file_statuses@))
    &&& (out.last_commit is None ==> r.last_commit_msg is None && r.last_commit_hash is None && r.last_commit_time is None)
    &&& (out.last_commit matches Some(lc) ==> {
        &&& opt_text_view(r.last_commit_msg) == last_commit_text(lc@).0
        &&& opt_text_view(r.last_commit_hash) == last_commit_text(lc@).1
        &&& opt_int_view(r.last_commit_time) == last_commit_text(lc@).2
    })
    &&& (r.stash_count == lines_or_zero(out.stash_list))
    &&& (r.commits_today == commits_today_count(out.commits_today))
    &&& (r.branch_count == lines_or_zero(out.branch_list))
    &&& (opt_text_view(r.tag) == trimmed_nonempty(out.tag))
    &&& (out.numstat is None ==> r.lines_added == 0 && r.lines_deleted == 0)
    &&& (out.numstat matches Some(n) ==> {
        &&& r.lines_added == cap_usize(numstat_sums(lines_text(n@)).0)
        &&& r.lines_deleted == cap_usize(numstat_sums(lines_text(n@)).1)
    })
    &&& (r.merge_state == out.merge_state)
    &&& (r.is_dirty == (r.staged > 0 || r.modified > 0 || r.untracked > 0))
}

pub fn git_info_from_outputs(out: GitOutputs, collect_file_statuses: bool) -> (r: GitInfo)
    ensures
        info_from_outputs(r, out, collect_file_statuses),
{
    let status = match &out.status {
        Some(raw) => parse_porcelain_status(raw.as_slice(), collect_file_statuses),
        None => StatusResult { staged: 0, modified: 0, untracked: 0, file_statuses: Vec::new() },
    };
    let branch = trimmed_nonempty_of(&out.branch);
    let (msg, hash, time) = match &out.last_commit {
        Some(lc) => parse_last_commit(lc.as_str()),
        None => (None, None, None),
    };
    let stash_count = count_lines_opt(&out.stash_list);
    let commits_today = match &out.commits_today {
        Some(s) => {
            let t = trim(s.as_str());
            if t.as_str().is_empty() {
                0
            } else {
                line_count(s.as_str())
            }
        },
        None => 0,
    };
    let branch_count = count_lines_opt(&out.branch_list);
    let tag = trimmed_nonempty_of(&out.tag);
    let (lines_added, lines_deleted) = match &out.numstat {
        Some(n) => parse_diff_numstat(n.as_str()),
        None => (0, 0),
    };
    let is_dirty = status.staged > 0 || status.modified > 0 || status.untracked > 0;
    GitInfo {
        is_repo: true,
        branch,
        ahead: out.ahead_behind.0,
        behind: out.ahead_behind.1,
        staged: status.staged,
        modified: status.modified,
        untracked: status.untracked,
        last_commit_msg: msg,
        last_commit_hash: hash,
        last_commit_time: time,
        commits_today,
        branch_count,
        stash_count,
        merge_state: out.merge_state,
        tag,
        lines_added,
        lines_deleted,
        is_dirty,
        file_statuses: status.file_statuses,
    }
}


/// The components of a path (`Path::components`), each as characters.
pub fn path_components_of(path: &str) -> (r: Vec<Vec<char>>)
    ensures
        views_of_chars(r@) == path_components(path@),
{
    let p = to_chars(path);
    let parts = split_chars(p.as_slice(), '/');
    proof {
        lemma_split_nonempty(p@, '/');
        assert(views_of_chars(parts@) =~= split_text(p@, '/'));
    }
    if p.len() > 0 && p[0] == '/' {
        let rest = normal_segments_of(&parts, 1);
        let mut r: Vec<Vec<char>> = Vec::new();
        let slash = vec!['/'];
        proof {
            reveal_strlit("/");
            assert(slash@ =~= "/"@);
        }
        r.push(slash);
        let mut rest = rest;
        let ghost rv = views_of_chars(rest@);
        r.append(&mut rest);
        assert(views_of_chars(r@) =~= seq!["/"@] + rv) by {
            assert forall|k: int| 0 <= k < r@.len() implies #[trigger] views_of_chars(r@)[k] == (seq!["/"@] + rv)[k] by {
                if k > 0 {
                    assert(r@[k] == r@.skip(1)[k - 1]);
                }
            }
        }
        r
    } else {
        let p0 = &parts[0];
        let is_dot = p0.len() == 1 && p0[0] == '.';
        proof {
            reveal_strlit(".");
            if p0@.len() == 1 && p0@[0] == '.' {
                assert(p0@ =~= "."@);
            }
            assert(is_dot <==> p0@ == "."@);
        }
        if is_dot {
            let mut rest = normal_segments_of(&parts, 1);
            let ghost rv = views_of_chars(rest@);
            let mut r: Vec<Vec<char>> = Vec::new();
            let dot = vec!['.'];
            assert(dot@ =~= "."@);
            r.push(dot);
            r.append(&mut rest);
            assert(views_of_chars(r@) =~= seq!["."@] + rv);
            r
        } else {
            assert(views_of_chars(parts@).skip(0) == views_of_chars(parts@));
            normal_segments_of(&parts, 0)
        }
    }
}

/// The git summary of a directory: blank outside a repository (`None`),
/// else built from the outputs of its git commands, file statuses included.
pub fn get_git_info(outputs: Option<GitOutputs>) -> (r: GitInfo)
    ensures
        outputs is None ==> r.is_blank(),
        outputs matches Some(out) ==> info_from_outputs(r, out, true),
{
    match outputs {
        None => GitInfo::default(),
        Some(out) => git_info_from_outputs(out, true),
    }
}

/// The arguments of the `git status` command: porcelain, NUL-separated, and
/// limited to `filter_paths` when there are any.
pub fn git_status_args(filter_paths: &[String]) -> (r: Vec<String>)
    ensures
        filter_paths@.len() == 0 ==> views(r@) == seq!["status"@, "--porcelain"@, "-z"@],
        filter_paths@.len() > 0 ==> views(r@) == seq!["status"@, "--porcelain"@, "-z"@, "--"@] + views(filter_paths@),
{
    let mut r: Vec<String> = Vec::new();
    r.push(owned("status"));
    r.push(owned("--porcelain"));
    r.push(owned("-z"));
    if filter_paths.len() == 0 {
        assert(views(r@) =~= seq!["status"@, "--porcelain"@, "-z"@]);
        return r;
    }
    r.push(owned("--"));
    let ghost head = views(r@);
    let mut i: usize = 0;
    while i < filter_paths.len()
        invariant
            i <= filter_paths@.len(),
            views(r@) == head + views(filter_paths@).take(i as int),
        decreases filter_paths@.len() - i,
    {
        let ghost before = r@;
        let item = owned(filter_paths[i].as_str());
        r.push(item);
        assert(views(r@) =~= views(before).push(filter_paths@[i as int]@));
        assert(views(filter_paths@).take(i + 1) == views(filter_paths@).take(i as int).push(filter_paths@[i as int]@));
        assert(views(r@) =~= head + views(filter_paths@).take(i + 1));
        i = i + 1;
    }
    assert(views(filter_paths@).take(filter_paths@.len() as int) == views(filter_paths@));
    assert(head =~= seq!["status"@, "--porcelain"@, "-z"@, "--"@]);
    r
}

} // verus!
