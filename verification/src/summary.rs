//! The summary of one directory: the entries read from it (sorted, the first
//! few hundred with full metadata), their counts, size and latest change,
//! and the optional insights gathered for it; with the text forms of modes,
//! owners, sizes and times shown next to the entries.

use vstd::prelude::*;
use crate::build_status::BuildStatus;
use crate::docker::DockerInfo;
use crate::fs::{DirEntry, ProjectType};
use crate::insights::{distinct_keys, pairs_view, tally_add, CodeMetrics, ProjectInsights, TodoInfo};
use crate::listing::{identity, scan_cfg, scan_order, stably_sorted, time_order};
use crate::parse::{lines, lines_text, split_chars, split_text};
use crate::ports::{parse_u32, parse_u32_text, PortInfo};
use crate::text::{dec_digits, last_index_of, owned, push_char, push_str, push_u64, push_u128, rfind_char, slice_chars, str_eq, string_from_chars, to_chars, to_lowercase, unicode_lowercase, utf8_len, utf8_len_of};

verus! {

/// Entries past this many are only counted, not described.
pub const MAX_ITEMS: usize = 500;

// ----- modes -----

/// The `ls -l` file-type letter of a Unix mode.
pub open spec fn file_type_char(mode: u32) -> char {
    let t = mode & 0o170000u32;
    if t == 0o040000u32 {
        'd'
    } else if t == 0o120000u32 {
        'l'
    } else if t == 0o010000u32 {
        'p'
    } else if t == 0o020000u32 {
        'c'
    } else if t == 0o060000u32 {
        'b'
    } else if t == 0o140000u32 {
        's'
    } else {
        '-'
    }
}

/// `c` when the permission bit is set, `-` otherwise.
pub open spec fn bit_char(mode: u32, bit: u32, c: char) -> char {
    if mode & bit != 0 {
        c
    } else {
        '-'
    }
}

/// The ten-character `ls -l` form of a Unix mode (`drwxr-xr-x`).
pub open spec fn mode_text(mode: u32) -> Seq<char> {
    seq![
        file_type_char(mode),
        bit_char(mode, 0o400u32, 'r'), bit_char(mode, 0o200u32, 'w'), bit_char(mode, 0o100u32, 'x'),
        bit_char(mode, 0o040u32, 'r'), bit_char(mode, 0o020u32, 'w'), bit_char(mode, 0o010u32, 'x'),
        bit_char(mode, 0o004u32, 'r'), bit_char(mode, 0o002u32, 'w'), bit_char(mode, 0o001u32, 'x')
    ]
}

fn bit(mode: u32, b: u32, c: char) -> (r: char)
    ensures
        r == bit_char(mode, b, c),
{
    if mode & b != 0 {
        c
    } else {
        '-'
    }
}

/// Formats a Unix mode as `ls -l` does.
pub fn format_mode(mode: u32) -> (r: String)
    ensures
        r@ == mode_text(mode),
{
    let t = mode & 0o170000u32;
    let ft = if t == 0o040000u32 {
        'd'
    } else if t == 0o120000u32 {
        'l'
    } else if t == 0o010000u32 {
        'p'
    } else if t == 0o020000u32 {
        'c'
    } else if t == 0o060000u32 {
        'b'
    } else if t == 0o140000u32 {
        's'
    } else {
        '-'
    };
    let mut s = String::new();
    push_char(&mut s, ft);
    push_char(&mut s, bit(mode, 0o400u32, 'r'));
    push_char(&mut s, bit(mode, 0o200u32, 'w'));
    push_char(&mut s, bit(mode, 0o100u32, 'x'));
    push_char(&mut s, bit(mode, 0o040u32, 'r'));
    push_char(&mut s, bit(mode, 0o020u32, 'w'));
    push_char(&mut s, bit(mode, 0o010u32, 'x'));
    push_char(&mut s, bit(mode, 0o004u32, 'r'));
    push_char(&mut s, bit(mode, 0o002u32, 'w'));
    push_char(&mut s, bit(mode, 0o001u32, 'x'));
    assert(s@ =~= mode_text(mode));
    s
}

// ----- owners and groups -----

/// One line of `/etc/passwd` or `/etc/group`: the id (third field) and the
/// name (first field), when there are three fields and the third is a `u32`.
pub open spec fn id_entry(line: Seq<char>) -> Option<(u32, Seq<char>)> {
    let parts = split_text(line, ':');
    if parts.len() >= 3 {
        match parse_u32_text(parts[2]) {
            Some(id) => Some((id, parts[0])),
            None => None,
        }
    } else {
        None
    }
}

/// The id entries of the lines, in order.
pub open spec fn id_entries(ls: Seq<Seq<char>>) -> Seq<(u32, Seq<char>)>
    decreases ls.len(),
{
    if ls.len() == 0 {
        Seq::empty()
    } else {
        let prev = id_entries(ls.drop_last());
        match id_entry(ls.last()) {
            Some(e) => prev.push(e),
            None => prev,
        }
    }
}

/// The name of `id`: the last entry that has it wins.
pub open spec fn id_lookup(t: Seq<(u32, Seq<char>)>, id: u32) -> Option<Seq<char>>
    decreases t.len(),
{
    if t.len() == 0 {
        None
    } else if t.last().0 == id {
        Some(t.last().1)
    } else {
        id_lookup(t.drop_last(), id)
    }
}

pub open spec fn id_table_view(t: Seq<(u32, String)>) -> Seq<(u32, Seq<char>)> {
    t.map_values(|e: (u32, String)| (e.0, e.1@))
}

/// The id table of a `/etc/passwd` or `/etc/group` file.
pub fn parse_id_table(content: &str) -> (r: Vec<(u32, String)>)
    ensures
        id_table_view(r@) == id_entries(lines_text(content@)),
{
    let cs = to_chars(content);
    let ls = lines(cs.as_slice());
    let ghost lt = lines_text(content@);
    let mut r: Vec<(u32, String)> = Vec::new();
    let mut i: usize = 0;
    while i < ls.len()
        invariant
            i <= ls@.len(),
            ls@.len() == lt.len(),
            forall|j: int| 0 <= j < ls@.len() ==> #[trigger] ls@[j]@ == lt[j],
            id_table_view(r@) == id_entries(lt.take(i as int)),
        decreases ls@.len() - i,
    {
        assert(lt.take(i + 1).drop_last() == lt.take(i as int));
        assert(lt.take(i + 1).last() == lt[i as int]);
        let parts = split_chars(ls[i].as_slice(), ':');
        if parts.len() >= 3 {
            match parse_u32(parts[2].as_slice()) {
                Some(id) => {
                    let name = string_from_chars(parts[0].as_slice());
                    r.push((id, name));
                    assert(id_table_view(r@) =~= id_table_view(r@.drop_last()).push((id, name@)));
                },
                None => {},
            }
        }
        i = i + 1;
    }
    assert(lt.take(lt.len() as int) == lt);
    r
}

/// The name of an owner or group id, or the id in decimal when the table
/// has none.
pub fn id_name(table: &[(u32, String)], id: u32) -> (r: String)
    ensures
        r@ == match id_lookup(id_table_view(table@), id) {
            Some(n) => n,
            None => dec_digits(id as nat),
        },
{
    let ghost tv = id_table_view(table@);
    let mut i: usize = table.len();
    assert(tv.take(tv.len() as int) == tv);
    while i > 0
        invariant
            i <= table@.len(),
            tv == id_table_view(table@),
            id_lookup(tv, id) == id_lookup(tv.take(i as int), id),
        decreases i,
    {
        assert(tv.take(i as int).drop_last() == tv.take(i - 1));
        if table[i - 1].0 == id {
            return owned(table[i - 1].1.as_str());
        }
        i = i - 1;
    }
    let mut s = String::new();
    push_u64(&mut s, id as u64);
    s
}

/// Mode and owners of an entry, from its metadata.
#[derive(Debug, Clone, Copy)]
pub struct EntryMeta {
    pub mode: u32,
    pub uid: u32,
    pub gid: u32,
}

/// Permissions, executable flag, owner and group shown for an entry: from
/// the metadata when there is any; for a symlink without metadata the
/// `lrwxrwxrwx` of a link; otherwise dashes; owners `?` without metadata.
pub fn entry_access(meta: Option<EntryMeta>, is_symlink: bool, users: &[(u32, String)], groups: &[(u32, String)]) -> (r: (String, bool, String, String))
    ensures
        match meta {
            Some(m) => {
                &&& r.0@ == mode_text(m.mode)
                &&& r.1 == (m.mode & 0o111u32 != 0)
                &&& r.2@ == match id_lookup(id_table_view(users@), m.uid) {
                    Some(n) => n,
                    None => dec_digits(m.uid as nat),
                }
                &&& r.3@ == match id_lookup(id_table_view(groups@), m.gid) {
                    Some(n) => n,
                    None => dec_digits(m.gid as nat),
                }
            },
            None => {
                &&& r.0@ == (if is_symlink { "lrwxrwxrwx"@ } else { "----------"@ })
                &&& !r.1
                &&& r.2@ == "?"@
                &&& r.3@ == "?"@
            },
        },
{
    match meta {
        Some(m) => (format_mode(m.mode), m.mode & 0o111u32 != 0, id_name(users, m.uid), id_name(groups, m.gid)),
        None => {
            let perms = if is_symlink {
                owned("lrwxrwxrwx")
            } else {
                owned("----------")
            };
            (perms, false, owned("?"), owned("?"))
        },
    }
}

// ----- scanning -----

/// The later of the latest time so far and an entry's time.
pub open spec fn later_time(acc: Option<(i64, u32)>, m: Option<(i64, u32)>) -> Option<(i64, u32)> {
    match m {
        Some(t) => match acc {
            Some(a) => if time_order(t, a) > 0 { Some(t) } else { acc },
            None => Some(t),
        },
        None => acc,
    }
}

/// The entries of a directory as they are read.
pub struct DirScan {
    pub files: usize,
    pub dirs: usize,
    pub total_size: u64,
    pub item_count: usize,
    pub hit_cap: bool,
    pub last_modified: Option<(i64, u32)>,
    pub items: Vec<DirEntry>,
}

impl DirScan {
    /// The counts stay within the entries seen, and only the first
    /// [`MAX_ITEMS`] are described.
    pub open spec fn wf(&self) -> bool {
        &&& self.files + self.dirs <= self.item_count
        &&& self.items@.len() <= self.item_count
        &&& self.items@.len() <= MAX_ITEMS
        &&& self.hit_cap == (self.item_count > MAX_ITEMS)
        &&& !self.hit_cap ==> self.items@.len() == self.item_count
    }

    /// A scan that has read nothing.
    pub fn new() -> (r: DirScan)
        ensures
            r.wf(),
            r.files == 0 && r.dirs == 0 && r.total_size == 0 && r.item_count == 0,
            !r.hit_cap,
            r.last_modified is None,
            r.items@.len() == 0,
    {
        DirScan { files: 0, dirs: 0, total_size: 0, item_count: 0, hit_cap: false, last_modified: None, items: Vec::new() }
    }

    /// Whether the next entry is described in full (the first [`MAX_ITEMS`] are).
    pub fn wants_metadata(&self) -> (r: bool)
        ensures
            r == (self.item_count < MAX_ITEMS),
    {
        self.item_count < MAX_ITEMS
    }

    /// Counts an entry past the cap by its file type alone.
    pub fn count_only(&mut self, type_is_dir: bool, type_is_file: bool)
        requires
            old(self).wf(),
            old(self).item_count >= MAX_ITEMS,
            old(self).item_count < usize::MAX,
        ensures
            final(self).wf(),
            final(self).item_count == old(self).item_count + 1,
            final(self).hit_cap,
            final(self).dirs == old(self).dirs + if type_is_dir { 1int } else { 0int },
            final(self).files == old(self).files + if !type_is_dir && type_is_file { 1int } else { 0int },
            final(self).total_size == old(self).total_size,
            final(self).last_modified == old(self).last_modified,
            final(self).items@ == old(self).items@,
    {
        self.item_count = self.item_count + 1;
        self.hit_cap = true;
        if type_is_dir {
            self.dirs = self.dirs + 1;
        } else if type_is_file {
            self.files = self.files + 1;
        }
    }

    /// Adds a described entry: counted as a directory or file by its file
    /// type, its size added to the total (stopping at `u64::MAX`), its time
    /// kept when it is the latest.
    pub fn add_entry(&mut self, type_is_dir: bool, type_is_file: bool, entry: DirEntry)
        requires
            old(self).wf(),
            old(self).item_count < MAX_ITEMS,
        ensures
            final(self).wf(),
            final(self).item_count == old(self).item_count + 1,
            !final(self).hit_cap,
            final(self).dirs == old(self).dirs + if type_is_dir { 1int } else { 0int },
            final(self).files == old(self).files + if !type_is_dir && type_is_file { 1int } else { 0int },
            final(self).total_size == if old(self).total_size + entry.size > u64::MAX { u64::MAX as int } else { old(self).total_size + entry.size },
            final(self).last_modified == later_time(old(self).last_modified, entry.modified),
            final(self).items@ == old(self).items@.push(entry),
    {
        self.item_count = self.item_count + 1;
        if type_is_dir {
            self.dirs = self.dirs + 1;
        } else if type_is_file {
            self.files = self.files + 1;
        }
        self.total_size = self.total_size.saturating_add(entry.size);
        match entry.modified {
            Some(t) => match self.last_modified {
                Some(a) => {
                    if t.0 > a.0 || (t.0 == a.0 && t.1 > a.1) {
                        self.last_modified = Some(t);
                    }
                },
                None => {
                    self.last_modified = Some(t);
                },
            },
            None => {},
        }
        self.items.push(entry);
    }

    /// Whether the insights are gathered: asked for, a project directory,
    /// and not a directory too large to describe in full.
    pub fn wants_insights(&self, scan_todos: bool, check_metrics: bool, project_type: ProjectType) -> (r: bool)
        ensures
            r == ((scan_todos || check_metrics) && project_type != ProjectType::Generic && !self.hit_cap),
    {
        (scan_todos || check_metrics) && project_type != ProjectType::Generic && !self.hit_cap
    }

    /// The summary: the described entries sorted (directories first, then by
    /// lower-cased name, ties in reading order), the counts, and each
    /// optional result; of the insights, the TODOs only when asked for and
    /// the metrics only when asked for.
    pub fn finish(
        self,
        project_type: ProjectType,
        build_status: Option<BuildStatus>,
        insights: Option<ProjectInsights>,
        scan_todos: bool,
        check_metrics: bool,
        port_info: Option<PortInfo>,
        docker_info: Option<DockerInfo>,
    ) -> (r: DirSummary)
        requires
            self.wf(),
        ensures
            r.total_items == self.files + self.dirs,
            r.total_size == self.total_size,
            r.files == self.files,
            r.dirs == self.dirs,
            scan_sorted(r.top_items@, self.items@),
            r.project_type == project_type,
            r.last_modified == self.last_modified,
            r.build_status == build_status,
            r.todo_info == match insights {
                Some(i) => if scan_todos { Some(i.todos) } else { None },
                None => None,
            },
            r.code_metrics == match insights {
                Some(i) => if check_metrics { Some(i.metrics) } else { None },
                None => None,
            },
            r.port_info == port_info,
            r.docker_info == docker_info,
    {
        let order = scan_order(&self.items);
        let ghost items = self.items@;
        let n = self.items.len();
        let mut slots: Vec<Option<DirEntry>> = Vec::new();
        let mut rest = self.items;
        while rest.len() > 0
            invariant
                rest@.len() + slots@.len() == n,
                n == items.len(),
                rest@ == items.take(rest@.len() as int),
                forall|k: int| 0 <= k < slots@.len() ==> #[trigger] slots@[k] == Some(items[n - 1 - k]),
            decreases rest@.len(),
        {
            let e = rest.pop().unwrap();
            slots.push(Some(e));
            assert(rest@ =~= items.take(rest@.len() as int));
        }
        let mut top_items: Vec<DirEntry> = Vec::new();
        let mut k: usize = 0;
        while k < order.len()
            invariant
                k <= order@.len(),
                n == items.len(),
                slots@.len() == n,
                order@.len() == n,
                forall|a: int, b: int| 0 <= a < b < n ==> order@[a] != order@[b],
                forall|j: int| 0 <= j < n ==> #[trigger] order@[j] < n,
                forall|j: int| k <= j < n ==> #[trigger] slots@[n - 1 - order@[j]] == Some(items[order@[j] as int]),
                top_items@.len() == k,
                forall|j: int| 0 <= j < k ==> #[trigger] top_items@[j] == items[order@[j] as int],
            decreases order@.len() - k,
        {
            let idx = n - 1 - order[k];
            let mut tmp: Option<DirEntry> = None;
            slots.set_and_swap(idx, &mut tmp);
            assert(tmp == Some(items[order@[k as int] as int]));
            top_items.push(tmp.unwrap());
            proof {
                assert forall|j: int| k + 1 <= j < n implies #[trigger] slots@[n - 1 - order@[j]] == Some(items[order@[j] as int]) by {
                    assert(order@[j] != order@[k as int]);
                }
            }
            k = k + 1;
        }
        let (todo_info, code_metrics) = match insights {
            Some(i) => (
                if scan_todos { Some(i.todos) } else { None },
                if check_metrics { Some(i.metrics) } else { None },
            ),
            None => (None, None),
        };
        let r = DirSummary {
            total_items: self.files + self.dirs,
            total_size: self.total_size,
            files: self.files,
            dirs: self.dirs,
            top_items,
            project_type,
            last_modified: self.last_modified,
            build_status,
            todo_info,
            code_metrics,
            port_info,
            docker_info,
        };
        assert(scan_sorted(r.top_items@, items));
        r
    }
}

/// `out` is `items` in scan order.
pub open spec fn scan_sorted(out: Seq<DirEntry>, items: Seq<DirEntry>) -> bool {
    exists|order: Seq<usize>| #[trigger] stably_sorted(order, identity(items.len()), items, scan_cfg(), Seq::empty(), Map::empty())
        && out.len() == items.len() && order.len() == items.len()
        && forall|k: int| 0 <= k < out.len() ==> #[trigger] out[k] == items[order[k] as int]
}

/// What a directory holds and what was found out about it.
#[derive(Debug, Clone)]
pub struct DirSummary {
    pub total_items: usize,
    pub total_size: u64,
    pub files: usize,
    pub dirs: usize,
    pub top_items: Vec<DirEntry>,
    pub project_type: ProjectType,
    pub last_modified: Option<(i64, u32)>,
    pub build_status: Option<BuildStatus>,
    pub todo_info: Option<TodoInfo>,
    pub code_metrics: Option<CodeMetrics>,
    pub port_info: Option<PortInfo>,
    pub docker_info: Option<DockerInfo>,
}

/// The key an entry counts under by type: its lower-cased extension, or
/// `other` without a dot.
pub open spec fn type_key(name: Seq<char>) -> Seq<char> {
    match last_index_of(name, '.') {
        Some(p) => unicode_lowercase(name.skip(p + 1)),
        None => "other"@,
    }
}

/// Entries per type key, keys in order of first appearance.
pub open spec fn type_tally(items: Seq<DirEntry>) -> Seq<(Seq<char>, nat)>
    decreases items.len(),
{
    if items.len() == 0 {
        Seq::empty()
    } else {
        tally_add(type_tally(items.drop_last()), type_key(items.last().name@), 1)
    }
}

impl DirSummary {
    /// The first `n` entries (all when there are fewer).
    pub fn top_items(&self, n: usize) -> (r: &[DirEntry])
        ensures
            r@ == self.top_items@.take(if n < self.top_items@.len() { n as int } else { self.top_items@.len() as int }),
    {
        let m = if n < self.top_items.len() { n } else { self.top_items.len() };
        let r = vstd::slice::slice_subrange(self.top_items.as_slice(), 0, m);
        assert(r@ =~= self.top_items@.take(m as int));
        r
    }

    /// How many entries remain after the first `n` (zero when `n` covers all).
    pub fn remaining(&self, n: usize) -> (r: usize)
        ensures
            r == if self.total_items >= n { self.total_items - n } else { 0 },
    {
        self.total_items.saturating_sub(n)
    }

    /// How many described entries there are of each type (extension).
    pub fn by_type(&self) -> (r: Vec<(String, usize)>)
        ensures
            pairs_view(r@) == type_tally(self.top_items@),
    {
        let ghost items = self.top_items@;
        let mut t: Vec<(String, usize)> = Vec::new();
        let mut i: usize = 0;
        while i < self.top_items.len()
            invariant
                i <= items.len(),
                items == self.top_items@,
                pairs_view(t@) == type_tally(items.take(i as int)),
                distinct_keys(pairs_view(t@)),
                forall|k: int| 0 <= k < t@.len() ==> #[trigger] t@[k].1 <= i,
            decreases items.len() - i,
        {
            assert(items.take(i + 1).drop_last() == items.take(i as int));
            let name = to_chars(self.top_items[i].name.as_str());
            let key = match rfind_char(name.as_slice(), '.') {
                Some(p) => {
                    let nl = name.len();
                    assert(p < nl);
                    let tail = slice_chars(name.as_slice(), p + 1, nl);
                    assert(tail@ == name@.skip(p + 1));
                    let ts = string_from_chars(tail.as_slice());
                    to_lowercase(ts.as_str())
                },
                None => owned("other"),
            };
            assert(key@ == type_key(items[i as int].name@));
            let ghost tv = pairs_view(t@);
            let mut j: usize = 0;
            let mut found = false;
            while j < t.len() && !found
                invariant
                    j <= t@.len(),
                    tv == pairs_view(t@),
                    found ==> j < t@.len() && tv[j as int].0 == key@,
                    forall|q: int| 0 <= q < j ==> tv[q].0 != key@,
                decreases t@.len() - j + if found { 0int } else { 1int },
            {
                if str_eq(t[j].0.as_str(), key.as_str()) {
                    found = true;
                } else {
                    j = j + 1;
                }
            }
            if found {
                let v = t[j].1;
                let nm = owned(t[j].0.as_str());
                t.set(j, (nm, v + 1));
                proof {
                    let c = choose|q: int| 0 <= q < tv.len() && tv[q].0 == key@;
                    assert(c == j) by {
                        if c != j as int && c > j {
                            assert(tv[j as int].0 != tv[c].0);
                        }
                    }
                    assert(pairs_view(t@) =~= tv.update(j as int, (key@, (tv[j as int].1 + 1) as nat)));
                }
            } else {
                let kk = key;
                t.push((kk, 1));
                proof {
                    assert(!(exists|q: int| 0 <= q < tv.len() && tv[q].0 == key@));
                    assert(pairs_view(t@) =~= tv.push((key@, 1nat)));
                }
            }
            proof {
                assert forall|a: int, b: int| 0 <= a < b < pairs_view(t@).len() implies pairs_view(t@)[a].0 != pairs_view(t@)[b].0 by {
                    if b < tv.len() {
                        assert(tv[a].0 != tv[b].0);
                    }
                }
            }
            i = i + 1;
        }
        assert(items.take(items.len() as int) == items);
        t
    }
}

// ----- sizes and times -----

/// What `format!("{}", Byte::from_u64(bytes).get_appropriate_unit(UnitType::Binary))`
/// prints: the value in the largest binary unit that keeps it at least one,
/// with its fractional digits, then a space and the unit (`9.765625 KiB`).
pub uninterp spec fn binary_size_text(bytes: u64) -> Seq<char>;

/// Formats `bytes` in the largest fitting binary unit with `byte_unit`.
#[verifier::external_body]
fn adjusted_binary_size(bytes: u64) -> (r: String)
    ensures
        r@ == binary_size_text(bytes),
{
    let adjusted = byte_unit::Byte::from_u64(bytes).get_appropriate_unit(byte_unit::UnitType::Binary);
    format!("{}", adjusted)
}

/// The first position of `c` in `s`.
pub open spec fn first_index_of(s: Seq<char>, c: char) -> Option<int> {
    if exists|i: int| 0 <= i < s.len() && s[i] == c {
        Some(choose|i: int| 0 <= i < s.len() && s[i] == c && forall|j: int| 0 <= j < i ==> s[j] != c)
    } else {
        None
    }
}

/// A size text cut to one fractional digit: when more than one byte follows
/// the first `.`, the text keeps as many characters as the byte position of
/// the dot plus two.
pub open spec fn one_decimal_text(s: Seq<char>) -> Seq<char> {
    match first_index_of(s, '.') {
        Some(d) => {
            let dot_byte = utf8_len(s.take(d));
            if utf8_len(s.skip(d + 1)) > 1 {
                s.take(if dot_byte + 2 < s.len() { (dot_byte + 2) as int } else { s.len() as int })
            } else {
                s
            }
        },
        None => s,
    }
}

/// Cuts a size text to one fractional digit (see [`one_decimal_text`]).
pub fn one_decimal(s: &str) -> (r: String)
    ensures
        r@ == one_decimal_text(s@),
{
    let cs = to_chars(s);
    let mut i: usize = 0;
    while i < cs.len()
        invariant
            i <= cs@.len(),
            cs@ == s@,
            forall|j: int| 0 <= j < i ==> cs@[j] != '.',
        decreases cs@.len() - i,
    {
        if cs[i] == '.' {
            proof {
                let w = choose|w: int| 0 <= w < cs@.len() && cs@[w] == '.' && forall|j: int| 0 <= j < w ==> cs@[j] != '.';
                assert(w == i) by {
                    if w < i {
                        assert(cs@[w] != '.');
                    } else if w > i {
                        assert(cs@[i as int] != '.');
                    }
                }
            }
            let head = slice_chars(cs.as_slice(), 0, i);
            let tail = slice_chars(cs.as_slice(), i + 1, cs.len());
            let dot_byte = utf8_len_of(head.as_slice());
            let after = utf8_len_of(tail.as_slice());
            assert(head@ == s@.take(i as int));
            assert(tail@ == s@.skip(i + 1));
            if after > 1 {
                let keep: u128 = dot_byte + 2;
                let m: usize = if keep < cs.len() as u128 { keep as usize } else { cs.len() };
                let r = string_from_chars(slice_chars(cs.as_slice(), 0, m).as_slice());
                assert(s@.subrange(0, m as int) == s@.take(m as int));
                return r;
            } else {
                return owned(s);
            }
        }
        i = i + 1;
    }
    owned(s)
}

/// Human-readable size: `byte_unit`'s binary form cut to one fractional digit.
pub fn format_size(bytes: u64) -> (r: String)
    ensures
        r@ == one_decimal_text(binary_size_text(bytes)),
{
    let s = adjusted_binary_size(bytes);
    one_decimal(s.as_str())
}

/// What `DateTime::<Utc>::from_timestamp(secs, nanos)` formatted with
/// `%Y-%m-%d %H:%M:%S` prints (`2024-01-15 10:30:00`); `None` where
/// `from_timestamp` finds the time out of range.
pub uninterp spec fn utc_text(secs: i64, nanos: u32) -> Option<Seq<char>>;

/// Formats a Unix time as a UTC date and time with `chrono`.
#[verifier::external_body]
fn chrono_utc_text(secs: i64, nanos: u32) -> (r: Option<String>)
    ensures
        match r {
            Some(s) => utc_text(secs, nanos) == Some(s@),
            None => utc_text(secs, nanos) is None,
        },
{
    match chrono::DateTime::from_timestamp(secs, nanos) {
        Some(dt) => Some(dt.format("%Y-%m-%d %H:%M:%S").to_string()),
        None => None,
    }
}

/// The exact date and time of a modification time, `YYYY-MM-DD HH:MM:SS`
/// in UTC; `None` for a time `chrono` cannot represent.
pub fn format_exact_time(t: (i64, u32)) -> (r: Option<String>)
    ensures
        match r {
            Some(s) => utc_text(t.0, t.1) == Some(s@),
            None => utc_text(t.0, t.1) is None,
        },
{
    chrono_utc_text(t.0, t.1)
}

/// `a / b` rounded toward zero (Rust's integer division).
pub open spec fn trunc_div(a: int, b: int) -> int {
    if a >= 0 {
        a / b
    } else {
        -((-a) / b)
    }
}

/// Whole seconds from `t` to `now`, rounded toward zero.
pub open spec fn elapsed_secs(now: (i64, u32), t: (i64, u32)) -> int {
    trunc_div((now.0 - t.0) * 1_000_000_000 + (now.1 - t.1), 1_000_000_000)
}

/// How long ago, in the largest unit that is at least one: years of 365
/// days, months of 30 days, days, hours, minutes; else "just now".
pub open spec fn relative_text(secs: int) -> Seq<char> {
    let days = trunc_div(secs, 86400);
    let hours = trunc_div(secs, 3600);
    let minutes = trunc_div(secs, 60);
    if days > 365 {
        dec_digits((days / 365) as nat) + " year(s) ago"@
    } else if days > 30 {
        dec_digits((days / 30) as nat) + " month(s) ago"@
    } else if days > 0 {
        dec_digits(days as nat) + " day(s) ago"@
    } else if hours > 0 {
        dec_digits(hours as nat) + " hour(s) ago"@
    } else if minutes > 0 {
        dec_digits(minutes as nat) + " minute(s) ago"@
    } else {
        "just now"@
    }
}

fn trunc_div_i128(a: i128, b: i128) -> (r: i128)
    requires
        b > 0,
        -1_000_000_000_000_000_000_000_000_000_000i128 <= a <= 1_000_000_000_000_000_000_000_000_000_000i128,
    ensures
        r == trunc_div(a as int, b as int),
        -1_000_000_000_000_000_000_000_000_000_000i128 <= r <= 1_000_000_000_000_000_000_000_000_000_000i128,
{
    if a >= 0 {
        assert(a / b <= a) by (nonlinear_arith)
            requires a >= 0, b > 0;
        a / b
    } else {
        let na: i128 = -a;
        assert(na / b <= na) by (nonlinear_arith)
            requires na >= 0, b > 0;
        -(na / b)
    }
}

/// How long before `now` the time `t` was, in words.
/// The whole seconds from `t` to `now`, truncated toward zero.
pub fn elapsed_seconds(now: (i64, u32), t: (i64, u32)) -> (r: i128)
    ensures
        r == elapsed_secs(now, t),
{
    let ds: i128 = now.0 as i128 - t.0 as i128;
    assert(ds * 1_000_000_000 <= 20_000_000_000_000_000_000_000_000_000int) by (nonlinear_arith)
        requires
            ds <= 20_000_000_000_000_000_000int;
    assert(ds * 1_000_000_000 >= -20_000_000_000_000_000_000_000_000_000int) by (nonlinear_arith)
        requires
            ds >= -20_000_000_000_000_000_000int;
    let d: i128 = ds * 1_000_000_000 + (now.1 as i128 - t.1 as i128);
    assert(d == ds * 1_000_000_000 + (now.1 - t.1));
    assert(d <= 1_000_000_000_000_000_000_000_000_000_000int);
    assert(d >= -1_000_000_000_000_000_000_000_000_000_000int);
    trunc_div_i128(d, 1_000_000_000)
}

pub fn relative_time_text(now: (i64, u32), t: (i64, u32)) -> (r: String)
    ensures
        r@ == relative_text(elapsed_secs(now, t)),
{
    let ds: i128 = now.0 as i128 - t.0 as i128;
    assert(ds * 1_000_000_000 <= 20_000_000_000_000_000_000_000_000_000int) by (nonlinear_arith)
        requires
            ds <= 20_000_000_000_000_000_000int;
    assert(ds * 1_000_000_000 >= -20_000_000_000_000_000_000_000_000_000int) by (nonlinear_arith)
        requires
            ds >= -20_000_000_000_000_000_000int;
    let d: i128 = ds * 1_000_000_000 + (now.1 as i128 - t.1 as i128);
    assert(d == ds * 1_000_000_000 + (now.1 - t.1));
    assert(d <= 1_000_000_000_000_000_000_000_000_000_000int);
    assert(d >= -1_000_000_000_000_000_000_000_000_000_000int);
    let secs = trunc_div_i128(d, 1_000_000_000);
    let days = trunc_div_i128(secs, 86400);
    let hours = trunc_div_i128(secs, 3600);
    let minutes = trunc_div_i128(secs, 60);
    let mut s = String::new();
    if days > 365 {
        assert(days / 365 <= days) by (nonlinear_arith)
            requires days > 0;
        push_u128(&mut s, (days / 365) as u128);
        push_str(&mut s, " year(s) ago");
    } else if days > 30 {
        push_u128(&mut s, (days / 30) as u128);
        push_str(&mut s, " month(s) ago");
    } else if days > 0 {
        push_u128(&mut s, days as u128);
        push_str(&mut s, " day(s) ago");
    } else if hours > 0 {
        push_u128(&mut s, hours as u128);
        push_str(&mut s, " hour(s) ago");
    } else if minutes > 0 {
        push_u128(&mut s, minutes as u128);
        push_str(&mut s, " minute(s) ago");
    } else {
        push_str(&mut s, "just now");
    }
    s
}

/// How long ago `t` was, against the clock.
pub fn format_relative_time(t: (i64, u32)) -> (r: String)
    ensures
        exists|now: (i64, u32)| r@ == #[trigger] relative_text(elapsed_secs(now, t)),
{
    let now = crate::clock::unix_now();
    relative_time_text(now, t)
}

} // verus!
