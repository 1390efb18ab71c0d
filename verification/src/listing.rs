//! Which entries the banner lists, and in which order: hidden files, filters,
//! truncation of big folders, grouping and the sort modes.

use vstd::prelude::*;
use crate::fs::DirEntry;
use crate::git::{FileStatus, GitInfo, lookup_status, status_map, unique_paths};
use crate::natural::{natural_rank, natural_rank_antisymmetric, natural_rank_of};
use crate::state::Config;
use crate::text::{
    has_infix, has_prefix, last_index_of, owned, rfind_char, slice_chars, str_eq, string_from_chars,
    to_chars, to_lowercase, unicode_lowercase,
};

verus! {

/// Options for the banner command.
#[derive(Debug, Clone)]
pub struct BannerOptions {
    pub path: Option<String>,
    pub raw: bool,
    pub json: bool,
    pub compact: bool,
    pub verbose: bool,
    pub sort: Option<String>,
    pub timesort: bool,
    pub sizesort: bool,
    pub extensionsort: bool,
    pub gitsort: bool,
    pub versionsort: bool,
    pub no_sort: bool,
    pub group_dirs: Option<String>,
    pub reverse: bool,
    pub hidden: bool,
    pub relative_date: bool,
    pub filter: Option<String>,
    pub max: Option<usize>,
    pub group: bool,
    pub classify: bool,
    pub blocks: Option<String>,
    pub tree: Option<Option<usize>>,
    pub icons: bool,
    pub colors: bool,
    pub max_items: usize,
    pub oneline: bool,
    pub total_size: bool,
    pub ignore_glob: Vec<String>,
    pub no_symlink: bool,
    pub hyperlink: bool,
    pub recursive: bool,
    pub only_dirs: bool,
    pub only_files: bool,
    pub git_ignore: bool,
    pub level: Option<usize>,
    pub highlight_recent: Option<String>,
    pub highlight_old: Option<String>,
    pub action: Option<String>,
    pub force_edit: bool,
    pub force_run: bool,
}

impl Default for BannerOptions {
    /// Every flag off, every option absent, no limit.
    fn default() -> (r: BannerOptions)
        ensures
            r.path is None && !r.raw && !r.json && !r.compact && !r.verbose,
            r.sort is None && !r.timesort && !r.sizesort && !r.extensionsort && !r.gitsort,
            !r.versionsort && !r.no_sort && r.group_dirs is None && !r.reverse && !r.hidden,
            !r.relative_date && r.filter is None && r.max is None && !r.group && !r.classify,
            r.blocks is None && r.tree is None && !r.icons && !r.colors && r.max_items == 0,
            !r.oneline && !r.total_size && r.ignore_glob@.len() == 0 && !r.no_symlink,
            !r.hyperlink && !r.recursive && !r.only_dirs && !r.only_files && !r.git_ignore,
            r.level is None && r.highlight_recent is None && r.highlight_old is None,
            r.action is None && !r.force_edit && !r.force_run,
    {
        BannerOptions {
            path: None,
            raw: false,
            json: false,
            compact: false,
            verbose: false,
            sort: None,
            timesort: false,
            sizesort: false,
            extensionsort: false,
            gitsort: false,
            versionsort: false,
            no_sort: false,
            group_dirs: None,
            reverse: false,
            hidden: false,
            relative_date: false,
            filter: None,
            max: None,
            group: false,
            classify: false,
            blocks: None,
            tree: None,
            icons: false,
            colors: false,
            max_items: 0,
            oneline: false,
            total_size: false,
            ignore_glob: Vec::new(),
            no_symlink: false,
            hyperlink: false,
            recursive: false,
            only_dirs: false,
            only_files: false,
            git_ignore: false,
            level: None,
            highlight_recent: None,
            highlight_old: None,
            action: None,
            force_edit: false,
            force_run: false,
        }
    }
}

/// What the items are compared by.
#[derive(Debug, Clone, Copy, PartialEq, Eq, Structural)]
pub enum SortMode {
    Name,
    Size,
    Date,
    Extension,
    Git,
    Version,
    /// Entries with a git status first, then the most recently modified.
    Relevance,
}

/// Where directories go relative to other entries.
#[derive(Debug, Clone, Copy, PartialEq, Eq, Structural)]
pub enum DirGrouping {
    Mixed,
    First,
    Last,
}

#[derive(Debug, Clone, Copy, PartialEq, Eq, Structural)]
pub struct SortCfg {
    pub mode: SortMode,
    pub grouping: DirGrouping,
    pub reverse: bool,
}

pub open spec fn int_order(a: int, b: int) -> int {
    if a < b {
        -1
    } else if a > b {
        1
    } else {
        0
    }
}

/// `false` before `true`.
pub open spec fn bool_order(a: bool, b: bool) -> int {
    if a == b {
        0
    } else if !a {
        -1
    } else {
        1
    }
}

/// Lexicographic order of character sequences (the order of `String`s, since
/// UTF-8 keeps the order of code points).
pub open spec fn lex_order(a: Seq<char>, b: Seq<char>) -> int
    decreases a.len(),
{
    if a.len() == 0 && b.len() == 0 {
        0
    } else if a.len() == 0 {
        -1
    } else if b.len() == 0 {
        1
    } else if a[0] < b[0] {
        -1
    } else if a[0] > b[0] {
        1
    } else {
        lex_order(a.skip(1), b.skip(1))
    }
}

pub proof fn lex_order_antisymmetric(a: Seq<char>, b: Seq<char>)
    ensures
        lex_order(a, b) == -lex_order(b, a),
    decreases a.len(),
{
    if a.len() > 0 && b.len() > 0 && a[0] == b[0] {
        lex_order_antisymmetric(a.skip(1), b.skip(1));
    }
}

/// Modification time, the epoch when unknown.
pub open spec fn time_of(e: DirEntry) -> (i64, u32) {
    match e.modified {
        Some(t) => t,
        None => (0, 0),
    }
}

pub open spec fn time_order(a: (i64, u32), b: (i64, u32)) -> int {
    if a.0 != b.0 {
        int_order(a.0 as int, b.0 as int)
    } else {
        int_order(a.1 as int, b.1 as int)
    }
}

pub open spec fn lower_name(e: DirEntry) -> Seq<char> {
    unicode_lowercase(e.name@)
}

/// The lower-cased extension, dot included (`.rs`), empty without a dot.
pub open spec fn ext_key(e: DirEntry) -> Seq<char> {
    match last_index_of(e.name@, '.') {
        Some(p) => unicode_lowercase(e.name@.skip(p)),
        None => Seq::empty(),
    }
}

/// `path` relative to `root` when it lies inside it (component-wise, for
/// canonical paths), else `path` itself.
pub open spec fn rel_path(path: Seq<char>, root: Seq<char>) -> Seq<char> {
    if has_prefix(path, root.push('/')) {
        path.skip(root.len() + 1int)
    } else if root.len() > 0 && root.last() == '/' && has_prefix(path, root) {
        path.skip(root.len() as int)
    } else if path == root {
        Seq::empty()
    } else {
        path
    }
}

/// Severity of the git status of an entry, looked up by its path relative to
/// the listed directory and then by its name; 0 when it has none.
pub open spec fn git_rank(e: DirEntry, root: Seq<char>, st: Map<Seq<char>, FileStatus>) -> int {
    let rel = rel_path(e.path@, root);
    if st.contains_key(rel) {
        st[rel].severity_spec() as int
    } else if st.contains_key(e.name@) {
        st[e.name@].severity_spec() as int
    } else {
        0
    }
}

/// The entry's name has a git status.
pub open spec fn flagged(e: DirEntry, st: Map<Seq<char>, FileStatus>) -> bool {
    st.contains_key(e.name@)
}

/// The comparison of one sort mode, before reversing and grouping.
pub open spec fn mode_order(a: DirEntry, b: DirEntry, mode: SortMode, root: Seq<char>, st: Map<Seq<char>, FileStatus>) -> int {
    match mode {
        SortMode::Size => int_order(a.size as int, b.size as int),
        SortMode::Date => time_order(time_of(a), time_of(b)),
        SortMode::Extension => if ext_key(a) != ext_key(b) {
            lex_order(ext_key(a), ext_key(b))
        } else {
            lex_order(lower_name(a), lower_name(b))
        },
        SortMode::Git => int_order(git_rank(a, root, st), git_rank(b, root, st)),
        SortMode::Version => natural_rank(a.name@, b.name@),
        SortMode::Relevance => {
            let f = bool_order(flagged(b, st), flagged(a, st));
            if f != 0 {
                f
            } else {
                time_order(time_of(b), time_of(a))
            }
        },
        SortMode::Name => lex_order(lower_name(a), lower_name(b)),
    }
}

/// Sign of the comparison of two entries: directories first or last unless
/// mixed, then the mode; `reverse` flips both.
pub open spec fn entry_order(a: DirEntry, b: DirEntry, cfg: SortCfg, root: Seq<char>, st: Map<Seq<char>, FileStatus>) -> int {
    if cfg.grouping != DirGrouping::Mixed && a.is_dir != b.is_dir {
        let base = if cfg.grouping == DirGrouping::Last {
            bool_order(a.is_dir, b.is_dir)
        } else {
            bool_order(b.is_dir, a.is_dir)
        };
        if cfg.reverse {
            -base
        } else {
            base
        }
    } else {
        let o = mode_order(a, b, cfg.mode, root, st);
        if cfg.reverse {
            -o
        } else {
            o
        }
    }
}

/// Swapping two entries flips the sign of their comparison.
pub proof fn entry_order_antisymmetric(a: DirEntry, b: DirEntry, cfg: SortCfg, root: Seq<char>, st: Map<Seq<char>, FileStatus>)
    ensures
        entry_order(a, b, cfg, root, st) == -entry_order(b, a, cfg, root, st),
{
    lex_order_antisymmetric(ext_key(a), ext_key(b));
    lex_order_antisymmetric(lower_name(a), lower_name(b));
    natural_rank_antisymmetric(a.name@, b.name@);
}

/// `p` is a permutation of `0..n`.
pub open spec fn is_perm(p: Seq<int>, n: nat) -> bool {
    &&& p.len() == n
    &&& forall|k: int| 0 <= k < n ==> 0 <= #[trigger] p[k] < n
    &&& forall|k1: int, k2: int| 0 <= k1 < n && 0 <= k2 < n && k1 != k2 ==> p[k1] != p[k2]
}

/// `out` is `input` stably sorted: a rearrangement of it in which each entry
/// compares below the next one, or equal to it and earlier in `input`.
pub open spec fn stably_sorted(out: Seq<usize>, input: Seq<usize>, items: Seq<DirEntry>, cfg: SortCfg, root: Seq<char>, st: Map<Seq<char>, FileStatus>) -> bool {
    exists|p: Seq<int>| is_sort_witness(p, out, input, items, cfg, root, st)
}

pub open spec fn is_sort_witness(p: Seq<int>, out: Seq<usize>, input: Seq<usize>, items: Seq<DirEntry>, cfg: SortCfg, root: Seq<char>, st: Map<Seq<char>, FileStatus>) -> bool {
    &&& is_perm(p, input.len())
    &&& out.len() == input.len()
    &&& forall|k: int| 0 <= k < out.len() ==> #[trigger] out[k] == input[p[k]]
    &&& forall|k: int| 0 <= k < out.len() - 1 ==> #[trigger] adjacent_ok(p, out, k, items, cfg, root, st)
}

/// The neighbours at `k` and `k + 1` are in order, ties in input order.
pub open spec fn adjacent_ok(p: Seq<int>, out: Seq<usize>, k: int, items: Seq<DirEntry>, cfg: SortCfg, root: Seq<char>, st: Map<Seq<char>, FileStatus>) -> bool {
    let c = entry_order(items[out[k] as int], items[out[k + 1] as int], cfg, root, st);
    c < 0 || (c == 0 && p[k] < p[k + 1])
}

/// Precomputed comparison data of one entry.
struct SortKey {
    name: Vec<char>,
    lower: Vec<char>,
    ext: Vec<char>,
    date: (i64, u32),
    git: u8,
    size: u64,
    is_dir: bool,
    flagged: bool,
}

spec fn key_ok(k: SortKey, e: DirEntry, root: Seq<char>, st: Map<Seq<char>, FileStatus>) -> bool {
    &&& k.name@ == e.name@
    &&& k.lower@ == lower_name(e)
    &&& k.ext@ == ext_key(e)
    &&& k.date == time_of(e)
    &&& k.git == git_rank(e, root, st)
    &&& k.size == e.size
    &&& k.is_dir == e.is_dir
    &&& k.flagged == flagged(e, st)
}

/// Compares two character sequences lexicographically.
pub fn lex_compare_chars(a: &[char], b: &[char]) -> (r: i8)
    ensures
        r == lex_order(a@, b@),
        -1 <= r <= 1,
{
    let mut i: usize = 0;
    assert(a@.skip(0) == a@ && b@.skip(0) == b@);
    loop
        invariant
            i <= a@.len(),
            i <= b@.len(),
            lex_order(a@, b@) == lex_order(a@.skip(i as int), b@.skip(i as int)),
        decreases a@.len() - i,
    {
        let ghost x = a@.skip(i as int);
        let ghost y = b@.skip(i as int);
        if i == a.len() && i == b.len() {
            return 0;
        }
        if i == a.len() {
            return -1;
        }
        if i == b.len() {
            return 1;
        }
        assert(x[0] == a@[i as int] && y[0] == b@[i as int]);
        if a[i] < b[i] {
            return -1;
        }
        if a[i] > b[i] {
            return 1;
        }
        assert(x.skip(1) == a@.skip(i + 1) && y.skip(1) == b@.skip(i + 1));
        i = i + 1;
    }
}

fn int_compare(a: u64, b: u64) -> (r: i8)
    ensures
        r == int_order(a as int, b as int),
{
    if a < b {
        -1
    } else if a > b {
        1
    } else {
        0
    }
}

fn time_compare(a: (i64, u32), b: (i64, u32)) -> (r: i8)
    ensures
        r == time_order(a, b),
{
    if a.0 < b.0 {
        -1
    } else if a.0 > b.0 {
        1
    } else if a.1 < b.1 {
        -1
    } else if a.1 > b.1 {
        1
    } else {
        0
    }
}

fn bool_compare(a: bool, b: bool) -> (r: i8)
    ensures
        r == bool_order(a, b),
{
    if a == b {
        0
    } else if !a {
        -1
    } else {
        1
    }
}

fn compare_keys(a: &SortKey, b: &SortKey, cfg: SortCfg, Ghost(ea): Ghost<DirEntry>, Ghost(eb): Ghost<DirEntry>, Ghost(root): Ghost<Seq<char>>, Ghost(st): Ghost<Map<Seq<char>, FileStatus>>) -> (r: i8)
    requires
        key_ok(*a, ea, root, st),
        key_ok(*b, eb, root, st),
    ensures
        r == entry_order(ea, eb, cfg, root, st),
{
    if cfg.grouping != DirGrouping::Mixed && a.is_dir != b.is_dir {
        let base = if cfg.grouping == DirGrouping::Last {
            bool_compare(a.is_dir, b.is_dir)
        } else {
            bool_compare(b.is_dir, a.is_dir)
        };
        return if cfg.reverse { -base } else { base };
    }
    let o: i8 = match cfg.mode {
        SortMode::Size => int_compare(a.size, b.size),
        SortMode::Date => time_compare(a.date, b.date),
        SortMode::Extension => {
            let e = lex_compare_chars(a.ext.as_slice(), b.ext.as_slice());
            if e != 0 {
                proof {
                    if a.ext@ == b.ext@ {
                        lex_order_antisymmetric(a.ext@, a.ext@);
                    }
                }
                e
            } else {
                proof {
                    lemma_lex_zero_equal(a.ext@, b.ext@);
                }
                lex_compare_chars(a.lower.as_slice(), b.lower.as_slice())
            }
        },
        SortMode::Git => int_compare(a.git as u64, b.git as u64),
        SortMode::Version => natural_rank_of(a.name.as_slice(), b.name.as_slice()),
        SortMode::Relevance => {
            let f = bool_compare(b.flagged, a.flagged);
            if f != 0 {
                f
            } else {
                time_compare(b.date, a.date)
            }
        },
        SortMode::Name => lex_compare_chars(a.lower.as_slice(), b.lower.as_slice()),
    };
    if cfg.reverse {
        -o
    } else {
        o
    }
}

proof fn lemma_lex_zero_equal(a: Seq<char>, b: Seq<char>)
    requires
        lex_order(a, b) == 0,
    ensures
        a == b,
    decreases a.len(),
{
    if a.len() > 0 && b.len() > 0 {
        lemma_lex_zero_equal(a.skip(1), b.skip(1));
        assert(a =~= seq![a[0]] + a.skip(1));
        assert(b =~= seq![b[0]] + b.skip(1));
    } else {
        assert(a =~= b);
    }
}

/// Stable insertion sort of the entries listed in `input` (indices into `items`).
fn stable_sort(input: &Vec<usize>, keys: &Vec<SortKey>, cfg: SortCfg, Ghost(items): Ghost<Seq<DirEntry>>, Ghost(root): Ghost<Seq<char>>, Ghost(st): Ghost<Map<Seq<char>, FileStatus>>) -> (out: Vec<usize>)
    requires
        keys@.len() == items.len(),
        forall|i: int| 0 <= i < keys@.len() ==> key_ok(#[trigger] keys@[i], items[i], root, st),
        forall|k: int| 0 <= k < input@.len() ==> #[trigger] input@[k] < items.len(),
    ensures
        stably_sorted(out@, input@, items, cfg, root, st),
        forall|k: int| 0 <= k < out@.len() ==> #[trigger] out@[k] < items.len(),
{
    let mut out: Vec<usize> = Vec::new();
    let ghost mut p: Seq<int> = Seq::empty();
    let mut i: usize = 0;
    while i < input.len()
        invariant
            i <= input@.len(),
            keys@.len() == items.len(),
            forall|t: int| 0 <= t < keys@.len() ==> key_ok(#[trigger] keys@[t], items[t], root, st),
            forall|k: int| 0 <= k < input@.len() ==> #[trigger] input@[k] < items.len(),
            is_perm(p, i as nat),
            out@.len() == i,
            forall|k: int| 0 <= k < out@.len() ==> #[trigger] out@[k] == input@[p[k]],
            forall|k: int| 0 <= k < out@.len() - 1 ==> #[trigger] adjacent_ok(p, out@, k, items, cfg, root, st),
        decreases input@.len() - i,
    {
        let x = input[i];
        let mut j = out.len();
        loop
            invariant
                j <= out@.len(),
                out@.len() == i,
                i < input@.len(),
                x == input@[i as int],
                x < items.len(),
                keys@.len() == items.len(),
                forall|t: int| 0 <= t < keys@.len() ==> key_ok(#[trigger] keys@[t], items[t], root, st),
                forall|k: int| 0 <= k < out@.len() ==> #[trigger] out@[k] < items.len(),
                j < out@.len() ==> entry_order(items[out@[j as int] as int], items[x as int], cfg, root, st) > 0,
            ensures
                j <= out@.len(),
                j < out@.len() ==> entry_order(items[out@[j as int] as int], items[x as int], cfg, root, st) > 0,
                j > 0 ==> entry_order(items[out@[j - 1] as int], items[x as int], cfg, root, st) <= 0,
            decreases j,
        {
            if j == 0 {
                break;
            }
            let y = out[j - 1];
            let c = compare_keys(&keys[y], &keys[x], cfg, Ghost(items[y as int]), Ghost(items[x as int]), Ghost(root), Ghost(st));
            if c <= 0 {
                break;
            }
            j = j - 1;
        }
        let ghost old_out = out@;
        let ghost old_p = p;
        proof {
            if j < old_out.len() {
                entry_order_antisymmetric(items[old_out[j as int] as int], items[x as int], cfg, root, st);
            }
        }
        out.insert(j, x);
        proof {
            p = old_p.insert(j as int, i as int);
            assert forall|k: int| 0 <= k < out@.len() implies #[trigger] out@[k] == input@[p[k]] by {
                if k < j {
                    assert(out@[k] == old_out[k]);
                } else if k > j {
                    assert(out@[k] == old_out[k - 1]);
                }
            }
            assert forall|k: int| 0 <= k < out@.len() - 1 implies #[trigger] adjacent_ok(p, out@, k, items, cfg, root, st) by {
                if k + 1 < j {
                    assert(out@[k] == old_out[k] && out@[k + 1] == old_out[k + 1]);
                    assert(p[k] == old_p[k] && p[k + 1] == old_p[k + 1]);
                    assert(adjacent_ok(old_p, old_out, k, items, cfg, root, st));
                } else if k + 1 == j {
                    assert(out@[k] == old_out[k] && out@[k + 1] == x);
                    assert(p[k] == old_p[k] && p[k + 1] == i);
                } else if k == j {
                    assert(out@[k] == x && out@[k + 1] == old_out[k]);
                } else {
                    assert(out@[k] == old_out[k - 1] && out@[k + 1] == old_out[k]);
                    assert(p[k] == old_p[k - 1] && p[k + 1] == old_p[k]);
                    assert(adjacent_ok(old_p, old_out, k - 1, items, cfg, root, st));
                }
            }
            assert(is_perm(p, (i + 1) as nat)) by {
                assert forall|k: int| 0 <= k < i + 1 implies 0 <= #[trigger] p[k] < i + 1 by {
                    if k < j {
                        assert(p[k] == old_p[k]);
                    } else if k > j {
                        assert(p[k] == old_p[k - 1]);
                    }
                }
                assert forall|k1: int, k2: int| 0 <= k1 < i + 1 && 0 <= k2 < i + 1 && k1 != k2 implies p[k1] != p[k2] by {
                    let a1 = if k1 < j { k1 } else if k1 > j { k1 - 1 } else { -1 };
                    let a2 = if k2 < j { k2 } else if k2 > j { k2 - 1 } else { -1 };
                    if a1 >= 0 {
                        assert(p[k1] == old_p[a1]);
                        assert(0 <= old_p[a1] < i);
                    }
                    if a2 >= 0 {
                        assert(p[k2] == old_p[a2]);
                        assert(0 <= old_p[a2] < i);
                    }
                }
            }
        }
        i = i + 1;
    }
    assert(is_sort_witness(p, out@, input@, items, cfg, root, st));
    assert forall|k: int| 0 <= k < out@.len() implies #[trigger] out@[k] < items.len() by {
        assert(out@[k] == input@[p[k]]);
    }
    out
}


/// The entries of `s` for which `pred` holds, in order.
pub open spec fn select(s: Seq<usize>, pred: spec_fn(usize) -> bool) -> Seq<usize>
    decreases s.len(),
{
    if s.len() == 0 {
        s
    } else {
        let r = select(s.drop_last(), pred);
        if pred(s.last()) {
            r.push(s.last())
        } else {
            r
        }
    }
}

pub proof fn lemma_select_congruent(s: Seq<usize>, p1: spec_fn(usize) -> bool, p2: spec_fn(usize) -> bool)
    requires
        forall|k: int| 0 <= k < s.len() ==> p1(#[trigger] s[k]) == p2(s[k]),
    ensures
        select(s, p1) == select(s, p2),
    decreases s.len(),
{
    if s.len() > 0 {
        assert forall|k: int| 0 <= k < s.drop_last().len() implies p1(#[trigger] s.drop_last()[k]) == p2(s.drop_last()[k]) by {
            assert(s.drop_last()[k] == s[k]);
        }
        lemma_select_congruent(s.drop_last(), p1, p2);
        assert(p1(s[s.len() - 1]) == p2(s[s.len() - 1]));
    }
}

pub proof fn lemma_select_members(s: Seq<usize>, pred: spec_fn(usize) -> bool, bound: nat)
    requires
        forall|k: int| 0 <= k < s.len() ==> #[trigger] s[k] < bound,
    ensures
        forall|k: int| 0 <= k < select(s, pred).len() ==> #[trigger] select(s, pred)[k] < bound,
        select(s, pred).len() <= s.len(),
    decreases s.len(),
{
    if s.len() > 0 {
        assert forall|k: int| 0 <= k < s.drop_last().len() implies #[trigger] s.drop_last()[k] < bound by {
            assert(s.drop_last()[k] == s[k]);
        }
        lemma_select_members(s.drop_last(), pred, bound);
        assert(s[s.len() - 1] < bound);
    }
}

/// The indices `0..n`.
pub open spec fn all_indices(n: nat) -> Seq<usize> {
    Seq::new(n, |i: int| i as usize)
}

fn all_indices_vec(n: usize) -> (r: Vec<usize>)
    ensures
        r@ == all_indices(n as nat),
{
    let mut r: Vec<usize> = Vec::new();
    let mut i: usize = 0;
    while i < n
        invariant
            i <= n,
            r@ == all_indices(i as nat),
        decreases n - i,
    {
        r.push(i);
        assert(r@ =~= all_indices((i + 1) as nat));
        i = i + 1;
    }
    r
}

/// The entries of `list` whose flag is set.
fn filter_by(list: &Vec<usize>, flags: &Vec<bool>) -> (r: Vec<usize>)
    requires
        forall|k: int| 0 <= k < list@.len() ==> #[trigger] list@[k] < flags@.len(),
    ensures
        r@ == select(list@, |i: usize| flags@[i as int]),
        forall|k: int| 0 <= k < r@.len() ==> #[trigger] r@[k] < flags@.len(),
{
    let ghost pred = |i: usize| flags@[i as int];
    let mut r: Vec<usize> = Vec::new();
    let mut k: usize = 0;
    while k < list.len()
        invariant
            k <= list@.len(),
            forall|t: int| 0 <= t < list@.len() ==> #[trigger] list@[t] < flags@.len(),
            pred == (|i: usize| flags@[i as int]),
            r@ == select(list@.take(k as int), pred),
            forall|t: int| 0 <= t < r@.len() ==> #[trigger] r@[t] < flags@.len(),
        decreases list@.len() - k,
    {
        assert(list@.take(k + 1).drop_last() == list@.take(k as int));
        assert(list@.take(k + 1).last() == list@[k as int]);
        let x = list[k];
        assert(pred(x) == flags@[x as int]);
        if flags[x] {
            r.push(x);
        }
        k = k + 1;
    }
    assert(list@.take(list@.len() as int) == list@);
    r
}

/// The first `n` entries of `s`, or all of them.
pub open spec fn take_upto(s: Seq<usize>, n: nat) -> Seq<usize> {
    if n <= s.len() {
        s.take(n as int)
    } else {
        s
    }
}

pub open spec fn is_hidden_entry(e: DirEntry) -> bool {
    e.name@.len() > 0 && e.name@[0] == '.'
}

/// The part of a name after its last dot (the whole name without a dot).
pub open spec fn last_segment(name: Seq<char>) -> Seq<char> {
    match last_index_of(name, '.') {
        Some(p) => name.skip(p + 1),
        None => name,
    }
}

/// Case-insensitive `--filter` match on the name or on its extension.
pub open spec fn matches_filter(e: DirEntry, pattern: Seq<char>) -> bool {
    let lp = unicode_lowercase(pattern);
    has_infix(lower_name(e), lp) || has_infix(unicode_lowercase(last_segment(e.name@)), lp)
}

pub open spec fn visible_pred(items: Seq<DirEntry>) -> spec_fn(usize) -> bool {
    |i: usize| !is_hidden_entry(items[i as int])
}

pub open spec fn hidden_pred(items: Seq<DirEntry>) -> spec_fn(usize) -> bool {
    |i: usize| is_hidden_entry(items[i as int])
}

pub open spec fn match_pred(items: Seq<DirEntry>, pattern: Seq<char>) -> spec_fn(usize) -> bool {
    |i: usize| matches_filter(items[i as int], pattern)
}

pub open spec fn dir_pred(items: Seq<DirEntry>) -> spec_fn(usize) -> bool {
    |i: usize| items[i as int].is_dir
}

pub open spec fn file_pred(items: Seq<DirEntry>) -> spec_fn(usize) -> bool {
    |i: usize| items[i as int].is_file
}

pub open spec fn plain_file_pred(items: Seq<DirEntry>) -> spec_fn(usize) -> bool {
    |i: usize| items[i as int].is_file && !items[i as int].is_symlink
}

pub open spec fn link_pred(items: Seq<DirEntry>) -> spec_fn(usize) -> bool {
    |i: usize| items[i as int].is_symlink
}

pub open spec fn kept_pred(ignored: Seq<bool>) -> spec_fn(usize) -> bool {
    |i: usize| !ignored[i as int]
}

/// Non-hidden entries, then (when asked, or when fewer than 30 are visible)
/// the hidden ones.
pub open spec fn base_order(items: Seq<DirEntry>, show_hidden: bool) -> Seq<usize> {
    let all = all_indices(items.len());
    let vis = select(all, visible_pred(items));
    let hid = select(all, hidden_pred(items));
    if show_hidden || vis.len() < 30 {
        vis + hid
    } else {
        vis
    }
}

/// The entries left after `--filter`, `--only-dirs`, `--only-files` and
/// `--git-ignore` (with `ignored` telling which entries git ignores).
pub open spec fn filtered(items: Seq<DirEntry>, opts: BannerOptions, ignored: Seq<bool>) -> Seq<usize> {
    let l1 = base_order(items, opts.hidden);
    let l2 = match opts.filter {
        Some(p) => select(l1, match_pred(items, p@)),
        None => l1,
    };
    let l3 = if opts.only_dirs {
        select(l2, dir_pred(items))
    } else {
        l2
    };
    let l4 = if opts.only_files {
        select(l3, file_pred(items))
    } else {
        l3
    };
    if opts.git_ignore {
        select(l4, kept_pred(ignored))
    } else {
        l4
    }
}

/// Big folders are cut down to their most relevant entries when no `--max` is
/// given and the configuration asks for it.
pub open spec fn smart_applies(opts: BannerOptions, config: Config, n: nat) -> bool {
    opts.max is None && config.smart_truncation && config.max_display_items > 0 && n > config.max_display_items
}

/// How many entries smart truncation keeps.
pub open spec fn keep_count(config: Config, term_height: nat) -> nat {
    let max_fit: nat = if term_height > 10 {
        (term_height - 7) as nat
    } else if config.inline_preview {
        25
    } else {
        config.max_display_items as nat
    };
    if max_fit >= config.max_display_items {
        max_fit
    } else {
        config.max_display_items as nat
    }
}

pub open spec fn relevance_cfg() -> SortCfg {
    SortCfg { mode: SortMode::Relevance, grouping: DirGrouping::Mixed, reverse: false }
}

pub open spec fn name_cfg() -> SortCfg {
    SortCfg { mode: SortMode::Name, grouping: DirGrouping::Mixed, reverse: false }
}

pub open spec fn mode_named(s: Seq<char>) -> SortMode {
    if s == "size"@ {
        SortMode::Size
    } else if s == "date"@ {
        SortMode::Date
    } else if s == "type"@ || s == "extension"@ {
        SortMode::Extension
    } else if s == "git"@ {
        SortMode::Git
    } else if s == "version"@ {
        SortMode::Version
    } else {
        SortMode::Name
    }
}

/// The sort named by `--sort`, else by the first short flag set, else by name.
pub open spec fn sort_mode_of(opts: BannerOptions) -> SortMode {
    match opts.sort {
        Some(s) => mode_named(s@),
        None => if opts.timesort {
            SortMode::Date
        } else if opts.sizesort {
            SortMode::Size
        } else if opts.extensionsort {
            SortMode::Extension
        } else if opts.gitsort {
            SortMode::Git
        } else if opts.versionsort {
            SortMode::Version
        } else {
            SortMode::Name
        },
    }
}

/// `--group-dirs`: `none` mixes, `last` puts directories last, anything else
/// (and the default) first.
pub open spec fn grouping_of(g: Option<String>) -> DirGrouping {
    match g {
        None => DirGrouping::First,
        Some(s) => if s@ == "none"@ {
            DirGrouping::Mixed
        } else if s@ == "last"@ {
            DirGrouping::Last
        } else {
            DirGrouping::First
        },
    }
}

pub open spec fn main_cfg(opts: BannerOptions) -> SortCfg {
    SortCfg { mode: sort_mode_of(opts), grouping: grouping_of(opts.group_dirs), reverse: opts.reverse }
}

/// `l6` is what truncation leaves of `l5`.
pub open spec fn truncation_ok(l5: Seq<usize>, l6: Seq<usize>, items: Seq<DirEntry>, opts: BannerOptions, config: Config, term_height: nat, root: Seq<char>, st: Map<Seq<char>, FileStatus>) -> bool {
    match opts.max {
        Some(m) => l6 == take_upto(l5, m as nat),
        None => if smart_applies(opts, config, l5.len()) {
            exists|s: Seq<usize>| #[trigger] stably_sorted(s, l5, items, relevance_cfg(), root, st) && l6 == take_upto(s, keep_count(config, term_height))
        } else {
            l6 == l5
        },
    }
}

/// `l7` is `l6` grouped (with `--group`): directories, then plain files, then
/// symlinks, each by lower-cased name.
pub open spec fn grouping_ok(l6: Seq<usize>, l7: Seq<usize>, items: Seq<DirEntry>, opts: BannerOptions, root: Seq<char>, st: Map<Seq<char>, FileStatus>) -> bool {
    if opts.group {
        exists|d: Seq<usize>, f: Seq<usize>, y: Seq<usize>|
            #![trigger stably_sorted(d, dirs_of(l6, items), items, name_cfg(), root, st), stably_sorted(f, files_of(l6, items), items, name_cfg(), root, st), stably_sorted(y, links_of(l6, items), items, name_cfg(), root, st)]
            stably_sorted(d, dirs_of(l6, items), items, name_cfg(), root, st)
            && stably_sorted(f, files_of(l6, items), items, name_cfg(), root, st)
            && stably_sorted(y, links_of(l6, items), items, name_cfg(), root, st)
            && l7 == d + f + y
    } else {
        l7 == l6
    }
}

pub open spec fn dirs_of(l: Seq<usize>, items: Seq<DirEntry>) -> Seq<usize> {
    select(l, dir_pred(items))
}

pub open spec fn files_of(l: Seq<usize>, items: Seq<DirEntry>) -> Seq<usize> {
    select(l, plain_file_pred(items))
}

pub open spec fn links_of(l: Seq<usize>, items: Seq<DirEntry>) -> Seq<usize> {
    select(l, link_pred(items))
}

/// `out` is `l7` in the requested order (unchanged with `--no-sort`).
pub open spec fn final_ok(l7: Seq<usize>, out: Seq<usize>, items: Seq<DirEntry>, opts: BannerOptions, root: Seq<char>, st: Map<Seq<char>, FileStatus>) -> bool {
    if opts.no_sort {
        out == l7
    } else {
        stably_sorted(out, l7, items, main_cfg(opts), root, st)
    }
}

/// The whole listing pipeline, with `l6` and `l7` the lists after truncation
/// and after grouping, and `hidden` the number of entries truncation dropped.
pub open spec fn display_ok(items: Seq<DirEntry>, opts: BannerOptions, config: Config, ignored: Seq<bool>, term_height: nat, root: Seq<char>, st: Map<Seq<char>, FileStatus>, l6: Seq<usize>, l7: Seq<usize>, out: Seq<usize>, hidden: nat) -> bool {
    let l5 = filtered(items, opts, ignored);
    &&& truncation_ok(l5, l6, items, opts, config, term_height, root, st)
    &&& grouping_ok(l6, l7, items, opts, root, st)
    &&& final_ok(l7, out, items, opts, root, st)
    &&& hidden == l5.len() - l6.len()
}


/// The path relative to `root` (see [`rel_path`]).
pub fn rel_path_of(path: &str, root: &str) -> (r: Vec<char>)
    ensures
        r@ == rel_path(path@, root@),
{
    let p = to_chars(path);
    let rt = to_chars(root);
    let mut with_slash = owned(root);
    crate::text::push_char(&mut with_slash, '/');
    let rs = to_chars(with_slash.as_str());
    if crate::text::starts_with(p.as_slice(), rs.as_slice()) {
        let r = slice_chars(p.as_slice(), rs.len(), p.len());
        assert(r@ == p@.skip(root@.len() + 1int));
        return r;
    }
    if rt.len() > 0 && rt[rt.len() - 1] == '/' && crate::text::starts_with(p.as_slice(), rt.as_slice()) {
        let r = slice_chars(p.as_slice(), rt.len(), p.len());
        assert(r@ == p@.skip(root@.len() as int));
        return r;
    }
    if crate::text::chars_eq(p.as_slice(), rt.as_slice()) {
        return Vec::new();
    }
    p
}

/// Severity of the recorded status of `key`, if there is one.
fn severity_of(statuses: &[(String, FileStatus)], key: &[char]) -> (r: Option<u8>)
    ensures
        r == (if status_map(statuses@).contains_key(key@) {
            Some(status_map(statuses@)[key@].severity_spec())
        } else {
            None
        }),
{
    let k = string_from_chars(key);
    match lookup_status(statuses, k.as_str()) {
        Some(st) => Some(st.severity()),
        None => None,
    }
}

fn make_key(e: &DirEntry, root: &str, statuses: &[(String, FileStatus)]) -> (k: SortKey)
    ensures
        key_ok(k, *e, root@, status_map(statuses@)),
{
    let name = to_chars(e.name.as_str());
    let lower = to_chars(to_lowercase(e.name.as_str()).as_str());
    let ext = match rfind_char(name.as_slice(), '.') {
        Some(p) => {
            let tail = slice_chars(name.as_slice(), p, name.len());
            assert(tail@ == e.name@.skip(p as int));
            let ts = string_from_chars(tail.as_slice());
            to_chars(to_lowercase(ts.as_str()).as_str())
        },
        None => Vec::new(),
    };
    let date = match e.modified {
        Some(t) => t,
        None => (0, 0),
    };
    let rel = rel_path_of(e.path.as_str(), root);
    let git = match severity_of(statuses, rel.as_slice()) {
        Some(v) => v,
        None => match severity_of(statuses, name.as_slice()) {
            Some(v) => v,
            None => 0,
        },
    };
    let flagged = lookup_status(statuses, e.name.as_str()).is_some();
    SortKey { name, lower, ext, date, git, size: e.size, is_dir: e.is_dir, flagged }
}

fn entry_matches(e: &DirEntry, lp: &[char]) -> (r: bool)
    ensures
        r == (has_infix(lower_name(*e), lp@) || has_infix(unicode_lowercase(last_segment(e.name@)), lp@)),
{
    let lower = to_chars(to_lowercase(e.name.as_str()).as_str());
    if crate::text::contains(lower.as_slice(), lp) {
        return true;
    }
    let name = to_chars(e.name.as_str());
    let seg = match rfind_char(name.as_slice(), '.') {
        Some(p) => {
            let nl = name.len();
            assert(p < nl);
            let t = slice_chars(name.as_slice(), p + 1, nl);
            assert(t@ == e.name@.skip(p + 1));
            string_from_chars(t.as_slice())
        },
        None => owned(e.name.as_str()),
    };
    let sl = to_chars(to_lowercase(seg.as_str()).as_str());
    crate::text::contains(sl.as_slice(), lp)
}

fn mode_from(opts: &BannerOptions) -> (r: SortMode)
    ensures
        r == sort_mode_of(*opts),
{
    match &opts.sort {
        Some(s) => {
            let t = s.as_str();
            if str_eq(t, "size") {
                SortMode::Size
            } else if str_eq(t, "date") {
                SortMode::Date
            } else if str_eq(t, "type") || str_eq(t, "extension") {
                SortMode::Extension
            } else if str_eq(t, "git") {
                SortMode::Git
            } else if str_eq(t, "version") {
                SortMode::Version
            } else {
                SortMode::Name
            }
        },
        None => if opts.timesort {
            SortMode::Date
        } else if opts.sizesort {
            SortMode::Size
        } else if opts.extensionsort {
            SortMode::Extension
        } else if opts.gitsort {
            SortMode::Git
        } else if opts.versionsort {
            SortMode::Version
        } else {
            SortMode::Name
        },
    }
}

fn grouping_from(g: &Option<String>) -> (r: DirGrouping)
    ensures
        r == grouping_of(*g),
{
    match g {
        None => DirGrouping::First,
        Some(s) => if str_eq(s.as_str(), "none") {
            DirGrouping::Mixed
        } else if str_eq(s.as_str(), "last") {
            DirGrouping::Last
        } else {
            DirGrouping::First
        },
    }
}

fn concat(a: Vec<usize>, b: Vec<usize>) -> (r: Vec<usize>)
    ensures
        r@ == a@ + b@,
{
    let mut a = a;
    let mut b = b;
    a.append(&mut b);
    a
}

fn take_vec(v: Vec<usize>, n: usize) -> (r: Vec<usize>)
    ensures
        r@ == take_upto(v@, n as nat),
        r@.len() <= v@.len(),
        forall|k: int| 0 <= k < r@.len() ==> #[trigger] r@[k] == v@[k],
{
    let mut v = v;
    v.truncate(n);
    v
}

/// Per-entry facts the pipeline filters on.
struct EntryFlags {
    hidden: Vec<bool>,
    visible: Vec<bool>,
    dir: Vec<bool>,
    file: Vec<bool>,
    plain_file: Vec<bool>,
    link: Vec<bool>,
    matched: Vec<bool>,
    kept: Vec<bool>,
}

spec fn flags_ok(f: EntryFlags, keys: Seq<SortKey>, items: Seq<DirEntry>, opts: BannerOptions, ignored: Seq<bool>, root: Seq<char>, st: Map<Seq<char>, FileStatus>, n: int) -> bool {
    &&& f.hidden@.len() == n && f.visible@.len() == n && f.dir@.len() == n && f.file@.len() == n
    &&& f.plain_file@.len() == n && f.link@.len() == n && f.matched@.len() == n && f.kept@.len() == n
    &&& keys.len() == n
    &&& forall|t: int| 0 <= t < n ==> key_ok(#[trigger] keys[t], items[t], root, st)
    &&& forall|t: int| 0 <= t < n ==> #[trigger] f.hidden@[t] == is_hidden_entry(items[t])
    &&& forall|t: int| 0 <= t < n ==> #[trigger] f.visible@[t] == !is_hidden_entry(items[t])
    &&& forall|t: int| 0 <= t < n ==> #[trigger] f.dir@[t] == items[t].is_dir
    &&& forall|t: int| 0 <= t < n ==> #[trigger] f.file@[t] == items[t].is_file
    &&& forall|t: int| 0 <= t < n ==> #[trigger] f.plain_file@[t] == (items[t].is_file && !items[t].is_symlink)
    &&& forall|t: int| 0 <= t < n ==> #[trigger] f.link@[t] == items[t].is_symlink
    &&& forall|t: int| 0 <= t < n ==> (opts.filter matches Some(p) ==> #[trigger] f.matched@[t] == matches_filter(items[t], p@))
    &&& forall|t: int| 0 <= t < n ==> (opts.git_ignore ==> #[trigger] f.kept@[t] == !ignored[t])
}

fn entry_flags(root: &str, items: &[DirEntry], statuses: &[(String, FileStatus)], opts: &BannerOptions, ignored: &[bool]) -> (r: (Vec<SortKey>, EntryFlags))
    requires
        opts.git_ignore ==> ignored@.len() == items@.len(),
    ensures
        flags_ok(r.1, r.0@, items@, *opts, ignored@, root@, status_map(statuses@), items@.len() as int),
{
    let lp: Vec<char> = match &opts.filter {
        Some(p) => to_chars(to_lowercase(p.as_str()).as_str()),
        None => Vec::new(),
    };
    let mut keys: Vec<SortKey> = Vec::new();
    let mut f = EntryFlags {
        hidden: Vec::new(),
        visible: Vec::new(),
        dir: Vec::new(),
        file: Vec::new(),
        plain_file: Vec::new(),
        link: Vec::new(),
        matched: Vec::new(),
        kept: Vec::new(),
    };
    let mut i: usize = 0;
    while i < items.len()
        invariant
            i <= items@.len(),
            opts.git_ignore ==> ignored@.len() == items@.len(),
            opts.filter matches Some(p) ==> lp@ == unicode_lowercase(p@),
            flags_ok(f, keys@, items@, *opts, ignored@, root@, status_map(statuses@), i as int),
        decreases items@.len() - i,
    {
        let e = &items[i];
        keys.push(make_key(e, root, statuses));
        let nc = to_chars(e.name.as_str());
        let hid = nc.len() > 0 && nc[0] == '.';
        f.hidden.push(hid);
        f.visible.push(!hid);
        f.dir.push(e.is_dir);
        f.file.push(e.is_file);
        f.plain_file.push(e.is_file && !e.is_symlink);
        f.link.push(e.is_symlink);
        let m = match &opts.filter {
            Some(_) => entry_matches(e, lp.as_slice()),
            None => false,
        };
        f.matched.push(m);
        let k = if opts.git_ignore { !ignored[i] } else { true };
        f.kept.push(k);
        i = i + 1;
    }
    (keys, f)
}

/// Filters `list` by the flags `flags`, which agree with `sem` on every entry.
fn filter_sem(list: &Vec<usize>, flags: &Vec<bool>, Ghost(sem): Ghost<spec_fn(usize) -> bool>) -> (r: Vec<usize>)
    requires
        forall|k: int| 0 <= k < list@.len() ==> #[trigger] list@[k] < flags@.len(),
        forall|t: usize| t < flags@.len() ==> flags@[t as int] == #[trigger] sem(t),
    ensures
        r@ == select(list@, sem),
        forall|k: int| 0 <= k < r@.len() ==> #[trigger] r@[k] < flags@.len(),
{
    let r = filter_by(list, flags);
    proof {
        lemma_select_congruent(list@, |i: usize| flags@[i as int], sem);
    }
    r
}

fn stage_filter(items: &[DirEntry], f: &EntryFlags, Ghost(keys): Ghost<Seq<SortKey>>, opts: &BannerOptions, Ghost(ignored): Ghost<Seq<bool>>, Ghost(root): Ghost<Seq<char>>, Ghost(st): Ghost<Map<Seq<char>, FileStatus>>) -> (r: Vec<usize>)
    requires
        flags_ok(*f, keys, items@, *opts, ignored, root, st, items@.len() as int),
    ensures
        r@ == filtered(items@, *opts, ignored),
        forall|k: int| 0 <= k < r@.len() ==> #[trigger] r@[k] < items@.len(),
{
    let ghost itv = items@;
    let n = items.len();
    let all = all_indices_vec(n);
    let vis = filter_sem(&all, &f.visible, Ghost(visible_pred(itv)));
    let hid = filter_sem(&all, &f.hidden, Ghost(hidden_pred(itv)));
    let show_hidden = opts.hidden || vis.len() < 30;
    let l1 = if show_hidden { concat(vis, hid) } else { vis };
    assert(l1@ == base_order(itv, opts.hidden));
    assert forall|k: int| 0 <= k < l1@.len() implies #[trigger] l1@[k] < n by {
        if show_hidden && k >= vis@.len() {
            assert(l1@[k] == hid@[k - vis@.len()]);
        }
    }
    let l2 = match &opts.filter {
        Some(p) => filter_sem(&l1, &f.matched, Ghost(match_pred(itv, p@))),
        None => l1,
    };
    let l3 = if opts.only_dirs { filter_sem(&l2, &f.dir, Ghost(dir_pred(itv))) } else { l2 };
    let l4 = if opts.only_files { filter_sem(&l3, &f.file, Ghost(file_pred(itv))) } else { l3 };
    let l5 = if opts.git_ignore { filter_sem(&l4, &f.kept, Ghost(kept_pred(ignored))) } else { l4 };
    l5
}

fn stage_truncate(l5: Vec<usize>, keys: &Vec<SortKey>, opts: &BannerOptions, config: &Config, term_height: usize, Ghost(items): Ghost<Seq<DirEntry>>, Ghost(root): Ghost<Seq<char>>, Ghost(st): Ghost<Map<Seq<char>, FileStatus>>) -> (r: Vec<usize>)
    requires
        keys@.len() == items.len(),
        forall|i: int| 0 <= i < keys@.len() ==> key_ok(#[trigger] keys@[i], items[i], root, st),
        forall|k: int| 0 <= k < l5@.len() ==> #[trigger] l5@[k] < items.len(),
    ensures
        truncation_ok(l5@, r@, items, *opts, *config, term_height as nat, root, st),
        r@.len() <= l5@.len(),
        forall|k: int| 0 <= k < r@.len() ==> #[trigger] r@[k] < items.len(),
{
    let ghost l5v = l5@;
    match opts.max {
        Some(m) => take_vec(l5, m),
        None => {
            if config.smart_truncation && config.max_display_items > 0 && l5.len() > config.max_display_items {
                let cfg = SortCfg { mode: SortMode::Relevance, grouping: DirGrouping::Mixed, reverse: false };
                let sorted = stable_sort(&l5, &keys, cfg, Ghost(items), Ghost(root), Ghost(st));
                let ghost sv = sorted@;
                assert(sorted@.len() == l5@.len()) by {
                    let w = choose|p: Seq<int>| is_sort_witness(p, sorted@, l5@, items, cfg, root, st);
                }
                let max_fit = if term_height > 10 {
                    term_height - 7
                } else if config.inline_preview {
                    25
                } else {
                    config.max_display_items
                };
                let keep = if max_fit >= config.max_display_items { max_fit } else { config.max_display_items };
                let r = take_vec(sorted, keep);
                assert(stably_sorted(sv, l5v, items, relevance_cfg(), root, st) && r@ == take_upto(sv, keep_count(*config, term_height as nat)));
                r
            } else {
                l5
            }
        },
    }
}

fn stage_group(l6: Vec<usize>, keys: &Vec<SortKey>, f: &EntryFlags, opts: &BannerOptions, Ghost(items): Ghost<Seq<DirEntry>>, Ghost(ignored): Ghost<Seq<bool>>, Ghost(root): Ghost<Seq<char>>, Ghost(st): Ghost<Map<Seq<char>, FileStatus>>) -> (r: Vec<usize>)
    requires
        flags_ok(*f, keys@, items, *opts, ignored, root, st, items.len() as int),
        forall|k: int| 0 <= k < l6@.len() ==> #[trigger] l6@[k] < items.len(),
    ensures
        grouping_ok(l6@, r@, items, *opts, root, st),
        forall|k: int| 0 <= k < r@.len() ==> #[trigger] r@[k] < items.len(),
{
    if !opts.group {
        return l6;
    }
    let d = filter_sem(&l6, &f.dir, Ghost(dir_pred(items)));
    let fl = filter_sem(&l6, &f.plain_file, Ghost(plain_file_pred(items)));
    let y = filter_sem(&l6, &f.link, Ghost(link_pred(items)));
    let name = SortCfg { mode: SortMode::Name, grouping: DirGrouping::Mixed, reverse: false };
    let ds = stable_sort(&d, keys, name, Ghost(items), Ghost(root), Ghost(st));
    let fs = stable_sort(&fl, keys, name, Ghost(items), Ghost(root), Ghost(st));
    let ys = stable_sort(&y, keys, name, Ghost(items), Ghost(root), Ghost(st));
    let ghost (dv, fv, yv) = (ds@, fs@, ys@);
    let r = concat(concat(ds, fs), ys);
    assert(stably_sorted(dv, dirs_of(l6@, items), items, name_cfg(), root, st));
    assert(stably_sorted(fv, files_of(l6@, items), items, name_cfg(), root, st));
    assert(stably_sorted(yv, links_of(l6@, items), items, name_cfg(), root, st));
    assert(r@ == dv + fv + yv);
    assert forall|k: int| 0 <= k < r@.len() implies #[trigger] r@[k] < items.len() by {
        if k < dv.len() {
            assert(r@[k] == dv[k]);
        } else if k < dv.len() + fv.len() {
            assert(r@[k] == fv[k - dv.len()]);
        } else {
            assert(r@[k] == yv[k - dv.len() - fv.len()]);
        }
    }
    r
}

/// Build the list of entries the banner shows, in display order, and how many
/// entries truncation left out. Entries are returned as indices into `items`.
/// `ignored` tells, per entry, whether git ignores it (read only with
/// `--git-ignore`); `term_height` is the terminal's height in rows (0 if unknown).
pub fn build_display_items(root: &str, items: &[DirEntry], git_info: &GitInfo, opts: &BannerOptions, config: &Config, ignored: &[bool], term_height: usize) -> (r: (Vec<usize>, usize))
    requires
        opts.git_ignore ==> ignored@.len() == items@.len(),
    ensures
        exists|l6: Seq<usize>, l7: Seq<usize>| #[trigger] display_ok(items@, *opts, *config, ignored@, term_height as nat, root@, status_map(git_info.file_statuses@), l6, l7, r.0@, r.1 as nat),
        forall|k: int| 0 <= k < r.0@.len() ==> #[trigger] r.0@[k] < items@.len(),
{
    let ghost itv = items@;
    let ghost st = status_map(git_info.file_statuses@);
    let ghost rt = root@;
    let statuses = git_info.file_statuses.as_slice();
    let (keys, f) = entry_flags(root, items, statuses, opts, ignored);
    let l5 = stage_filter(items, &f, Ghost(keys@), opts, Ghost(ignored@), Ghost(rt), Ghost(st));
    let ghost l5v = l5@;
    let total_before = l5.len();
    let l6 = stage_truncate(l5, &keys, opts, config, term_height, Ghost(itv), Ghost(rt), Ghost(st));
    let hidden_count = total_before - l6.len();
    let ghost l6v = l6@;
    let l7 = stage_group(l6, &keys, &f, opts, Ghost(itv), Ghost(ignored@), Ghost(rt), Ghost(st));
    let ghost l7v = l7@;
    let out = if opts.no_sort {
        l7
    } else {
        let cfg = SortCfg { mode: mode_from(opts), grouping: grouping_from(&opts.group_dirs), reverse: opts.reverse };
        stable_sort(&l7, &keys, cfg, Ghost(itv), Ghost(rt), Ghost(st))
    };
    assert(display_ok(itv, *opts, *config, ignored@, term_height as nat, rt, st, l6v, l7v, out@, hidden_count as nat));
    let r = (out, hidden_count);
    assert(display_ok(items@, *opts, *config, ignored@, term_height as nat, root@, status_map(git_info.file_statuses@), l6v, l7v, r.0@, r.1 as nat));
    r
}


/// The text of an optional string.
pub open spec fn opt_view(o: Option<String>) -> Option<Seq<char>> {
    match o {
        Some(s) => Some(s@),
        None => None,
    }
}

fn clone_string(s: &String) -> (r: String)
    ensures
        r@ == s@,
{
    owned(s.as_str())
}

/// `cur` when set; else the configured value, unless it is `skip` (the value
/// that means "nothing").
fn default_from_config(cur: Option<String>, configured: &String, skip: &str) -> (r: Option<String>)
    ensures
        opt_view(r) == (if cur is None && configured@ != skip@ {
            Some(configured@)
        } else {
            opt_view(cur)
        }),
{
    match cur {
        Some(c) => Some(c),
        None => {
            if str_eq(configured.as_str(), skip) {
                None
            } else {
                Some(clone_string(configured))
            }
        },
    }
}

/// Applies the configuration's defaults to the options: a flag set on the
/// command line stays set, one that is not takes the configured value; a sort,
/// directory grouping or highlight given on the command line wins over the
/// configured one.
pub fn apply_config_defaults(opts: BannerOptions, config: &Config) -> (r: BannerOptions)
    ensures
        r == (BannerOptions {
            compact: r.compact,
            verbose: r.verbose,
            sort: r.sort,
            reverse: r.reverse,
            group_dirs: r.group_dirs,
            hidden: r.hidden,
            classify: r.classify,
            relative_date: r.relative_date,
            total_size: r.total_size,
            no_symlink: r.no_symlink,
            hyperlink: r.hyperlink,
            highlight_recent: r.highlight_recent,
            highlight_old: r.highlight_old,
            ..opts
        }),
        r.compact == (opts.compact || config.compact),
        r.verbose == (opts.verbose || config.verbose),
        opt_view(r.sort) == (if opts.sort is None && config.sort@ != "name"@ {
            Some(config.sort@)
        } else {
            opt_view(opts.sort)
        }),
        r.reverse == (opts.reverse || config.reverse),
        opt_view(r.group_dirs) == (if opts.group_dirs is None && config.group_dirs@ != "none"@ {
            Some(config.group_dirs@)
        } else {
            opt_view(opts.group_dirs)
        }),
        r.hidden == (opts.hidden || config.hidden),
        r.classify == (opts.classify || config.classify),
        r.relative_date == (opts.relative_date || config.date@ == "relative"@),
        r.total_size == (opts.total_size || config.total_size),
        r.no_symlink == (opts.no_symlink || config.no_symlink),
        r.hyperlink == (opts.hyperlink || config.hyperlink),
        opt_view(r.highlight_recent) == (if opts.highlight_recent is None && config.highlight_recent@.len() > 0 {
            Some(config.highlight_recent@)
        } else {
            opt_view(opts.highlight_recent)
        }),
        opt_view(r.highlight_old) == (if opts.highlight_old is None && config.highlight_old@.len() > 0 {
            Some(config.highlight_old@)
        } else {
            opt_view(opts.highlight_old)
        }),
{
    proof {
        reveal_strlit("");
        assert(""@.len() == 0);
        if config.highlight_recent@.len() == 0 {
            assert(config.highlight_recent@ =~= ""@);
        }
        if config.highlight_old@.len() == 0 {
            assert(config.highlight_old@ =~= ""@);
        }
    }
    let sort = default_from_config(clone_opt(&opts.sort), &config.sort, "name");
    let group_dirs = default_from_config(clone_opt(&opts.group_dirs), &config.group_dirs, "none");
    let highlight_recent = default_from_config(clone_opt(&opts.highlight_recent), &config.highlight_recent, "");
    let highlight_old = default_from_config(clone_opt(&opts.highlight_old), &config.highlight_old, "");
    let relative = str_eq(config.date.as_str(), "relative");
    BannerOptions {
        compact: opts.compact || config.compact,
        verbose: opts.verbose || config.verbose,
        sort,
        reverse: opts.reverse || config.reverse,
        group_dirs,
        hidden: opts.hidden || config.hidden,
        classify: opts.classify || config.classify,
        relative_date: opts.relative_date || relative,
        total_size: opts.total_size || config.total_size,
        no_symlink: opts.no_symlink || config.no_symlink,
        hyperlink: opts.hyperlink || config.hyperlink,
        highlight_recent,
        highlight_old,
        ..opts
    }
}

fn clone_opt(o: &Option<String>) -> (r: Option<String>)
    ensures
        opt_view(r) == opt_view(*o),
        r is None <==> o is None,
{
    match o {
        Some(s) => Some(clone_string(s)),
        None => None,
    }
}

/// Whether icons and colors are shown: `FAB_ICONS` / `FAB_COLORS` (set to
/// `"1"` for on, anything else for off) override the configuration, and
/// `NO_COLOR` turns colors off whatever else says.
pub fn resolve_icons_colors(config: &Config, fab_icons: Option<&str>, no_color: bool, fab_colors: Option<&str>) -> (r: (bool, bool))
    ensures
        r.0 == match fab_icons {
            Some(v) => v@ == "1"@,
            None => config.icons,
        },
        r.1 == (!no_color && match fab_colors {
            Some(v) => v@ == "1"@,
            None => config.colors,
        }),
{
    let icons = match fab_icons {
        Some(v) => str_eq(v, "1"),
        None => config.icons,
    };
    let colors = if no_color {
        false
    } else {
        match fab_colors {
            Some(v) => str_eq(v, "1"),
            None => config.colors,
        }
    };
    (icons, colors)
}

/// The entry shown under number `num` (counted from 1) in a listing, if any.
pub fn pick_numbered(display: &[usize], num: usize) -> (r: Option<usize>)
    ensures
        r == (if 1 <= num <= display@.len() { Some(display@[num - 1]) } else { None::<usize> }),
{
    if num == 0 || num > display.len() {
        None
    } else {
        Some(display[num - 1])
    }
}

/// The order of a directory scan: directories first, then by lower-cased name.
pub open spec fn scan_cfg() -> SortCfg {
    SortCfg { mode: SortMode::Name, grouping: DirGrouping::First, reverse: false }
}

/// `0, 1, .., n - 1`.
pub open spec fn identity(n: nat) -> Seq<usize> {
    Seq::new(n, |i: int| i as usize)
}

/// The positions of `items` stably sorted by [`scan_cfg`]: directories
/// first, then by lower-cased name, ties in their original order.
pub fn scan_order(items: &Vec<DirEntry>) -> (r: Vec<usize>)
    ensures
        stably_sorted(r@, identity(items@.len()), items@, scan_cfg(), Seq::empty(), Map::empty()),
        forall|k: int| 0 <= k < r@.len() ==> #[trigger] r@[k] < items@.len(),
{
    let no_statuses: Vec<(String, FileStatus)> = Vec::new();
    let ghost st = status_map(no_statuses@);
    assert(st =~= Map::<Seq<char>, FileStatus>::empty());
    let root = "";
    proof {
        reveal_strlit("");
    }
    assert(root@ =~= Seq::<char>::empty());
    let mut keys: Vec<SortKey> = Vec::new();
    let mut input: Vec<usize> = Vec::new();
    let mut i: usize = 0;
    while i < items.len()
        invariant
            i <= items@.len(),
            keys@.len() == i,
            input@ == identity(i as nat),
            root@ == Seq::<char>::empty(),
            st == status_map(no_statuses@),
            forall|t: int| 0 <= t < i ==> key_ok(#[trigger] keys@[t], items@[t], root@, st),
        decreases items@.len() - i,
    {
        let k = make_key(&items[i], root, no_statuses.as_slice());
        keys.push(k);
        input.push(i);
        assert(input@ =~= identity((i + 1) as nat));
        i = i + 1;
    }
    let cfg = SortCfg { mode: SortMode::Name, grouping: DirGrouping::First, reverse: false };
    stable_sort(&input, &keys, cfg, Ghost(items@), Ghost(Seq::empty()), Ghost(Map::empty()))
}

/// An entry is printed by the one-per-line output: visible (or hidden
/// ones asked for), of the kind asked for, matching the filter in its name
/// or path, and matching no ignore glob.
pub open spec fn oneline_keeps(e: DirEntry, opts: BannerOptions) -> bool {
    &&& (opts.hidden || !has_prefix(e.name@, "."@))
    &&& (!opts.only_dirs || e.is_dir)
    &&& (!opts.only_files || !e.is_dir)
    &&& (match opts.filter {
        Some(f) => has_infix(e.name@, f@) || has_infix(e.path@, f@),
        None => true,
    })
    &&& !(exists|g: int| 0 <= g < opts.ignore_glob@.len() && crate::banner::glob_matches(#[trigger] opts.ignore_glob@[g]@, e.name@))
}

/// The positions of the kept entries, in order, cut at `max` when given.
pub open spec fn oneline_spec(items: Seq<DirEntry>, opts: BannerOptions) -> Seq<usize>
    decreases items.len(),
{
    if items.len() == 0 {
        Seq::empty()
    } else {
        let prev = oneline_spec(items.drop_last(), opts);
        let full = match opts.max {
            Some(m) => prev.len() >= m,
            None => false,
        };
        if !full && oneline_keeps(items.last(), opts) {
            prev.push((items.len() - 1) as usize)
        } else {
            prev
        }
    }
}

fn oneline_keeps_exec(e: &DirEntry, opts: &BannerOptions) -> (r: bool)
    ensures
        r == oneline_keeps(*e, *opts),
{
    let name = to_chars(e.name.as_str());
    let dot = to_chars(".");
    if !opts.hidden && crate::text::starts_with(name.as_slice(), dot.as_slice()) {
        return false;
    }
    if opts.only_dirs && !e.is_dir {
        return false;
    }
    if opts.only_files && e.is_dir {
        return false;
    }
    match &opts.filter {
        Some(f) => {
            let fc = to_chars(f.as_str());
            let pc = to_chars(e.path.as_str());
            if !crate::text::contains(name.as_slice(), fc.as_slice()) && !crate::text::contains(pc.as_slice(), fc.as_slice()) {
                return false;
            }
        },
        None => {},
    }
    let mut g: usize = 0;
    while g < opts.ignore_glob.len()
        invariant
            g <= opts.ignore_glob@.len(),
            forall|k: int| 0 <= k < g ==> !crate::banner::glob_matches(#[trigger] opts.ignore_glob@[k]@, e.name@),
        decreases opts.ignore_glob@.len() - g,
    {
        if crate::banner::glob_match(opts.ignore_glob[g].as_str(), e.name.as_str()) {
            return false;
        }
        g = g + 1;
    }
    true
}

/// Which entries the one-per-line output prints.
pub fn oneline_selection(items: &[DirEntry], opts: &BannerOptions) -> (r: Vec<usize>)
    ensures
        r@ == oneline_spec(items@, *opts),
{
    let mut r: Vec<usize> = Vec::new();
    let mut i: usize = 0;
    while i < items.len()
        invariant
            i <= items@.len(),
            r@ == oneline_spec(items@.take(i as int), *opts),
            r@.len() <= i,
        decreases items@.len() - i,
    {
        proof {
            assert(items@.take(i + 1).drop_last() == items@.take(i as int));
            assert(items@.take(i + 1).last() == items@[i as int]);
        }
        let full = match opts.max {
            Some(m) => r.len() >= m,
            None => false,
        };
        if !full && oneline_keeps_exec(&items[i], opts) {
            r.push(i);
        }
        i = i + 1;
    }
    assert(items@.take(items@.len() as int) == items@);
    r
}

/// Each name `--sort` takes picks its own order: `size` by size, `date` by
/// date, `type` and `extension` by extension, `git` by git status,
/// `version` naturally, and `name` (or any other word) by name.
pub proof fn sort_names_pick_their_modes(opts: BannerOptions)
    ensures
        opts.sort matches Some(s) && s@ == "size"@ ==> sort_mode_of(opts) == SortMode::Size,
        opts.sort matches Some(s) && s@ == "date"@ ==> sort_mode_of(opts) == SortMode::Date,
        opts.sort matches Some(s) && s@ == "type"@ ==> sort_mode_of(opts) == SortMode::Extension,
        opts.sort matches Some(s) && s@ == "extension"@ ==> sort_mode_of(opts) == SortMode::Extension,
        opts.sort matches Some(s) && s@ == "git"@ ==> sort_mode_of(opts) == SortMode::Git,
        opts.sort matches Some(s) && s@ == "version"@ ==> sort_mode_of(opts) == SortMode::Version,
        opts.sort matches Some(s) && s@ == "name"@ ==> sort_mode_of(opts) == SortMode::Name,
        opts.sort is None && opts.sizesort && !opts.timesort ==> sort_mode_of(opts) == SortMode::Size,
        opts.sort is None && opts.timesort ==> sort_mode_of(opts) == SortMode::Date,
{
    reveal_strlit("size");
    reveal_strlit("date");
    reveal_strlit("type");
    reveal_strlit("extension");
    reveal_strlit("git");
    reveal_strlit("version");
    reveal_strlit("name");
    assert("date"@[0] != "size"@[0]);
    assert("type"@[0] != "size"@[0] && "type"@[0] != "date"@[0]);
    assert("extension"@.len() != "size"@.len() && "extension"@[0] != "date"@[0]);
    assert("git"@.len() != "size"@.len() && "git"@.len() != "date"@.len() && "git"@.len() != "type"@.len() && "git"@.len() != "extension"@.len());
    assert("version"@.len() != "size"@.len() && "version"@.len() != "date"@.len() && "version"@.len() != "type"@.len()
        && "version"@.len() != "extension"@.len() && "version"@.len() != "git"@.len());
    assert("name"@[0] != "size"@[0] && "name"@[0] != "date"@[0] && "name"@[0] != "type"@[0]
        && "name"@.len() != "extension"@.len() && "name"@.len() != "git"@.len() && "name"@.len() != "version"@.len());
}

/// A listing sorted by size (`--sort size`, not reversed) shows entries of
/// the same kind (two files, or two directories) in non-decreasing size.
pub proof fn size_sort_lists_by_size(l7: Seq<usize>, out: Seq<usize>, items: Seq<DirEntry>, opts: BannerOptions, root: Seq<char>, st: Map<Seq<char>, FileStatus>)
    requires
        opts.sort matches Some(s) && s@ == "size"@,
        !opts.no_sort,
        !opts.reverse,
        final_ok(l7, out, items, opts, root, st),
    ensures
        forall|k: int| 0 <= k < out.len() - 1 && items[out[k] as int].is_dir == items[out[k + 1] as int].is_dir
            ==> #[trigger] items[out[k] as int].size <= items[out[k + 1] as int].size,
{
    sort_names_pick_their_modes(opts);
    let cfg = main_cfg(opts);
    assert(cfg.mode == SortMode::Size);
    assert(!cfg.reverse);
    let p = choose|p: Seq<int>| is_sort_witness(p, out, l7, items, cfg, root, st);
    assert forall|k: int| 0 <= k < out.len() - 1 && items[out[k] as int].is_dir == items[out[k + 1] as int].is_dir
        implies #[trigger] items[out[k] as int].size <= items[out[k + 1] as int].size by {
        assert(adjacent_ok(p, out, k, items, cfg, root, st));
    }
}

} // verus!
