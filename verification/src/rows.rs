//! The rows of the rich listing: each column's cell, the widths that align
//! them, the row itself with its highlight and tint, the inline preview of a
//! directory, and the lines printed below the rows.

use vstd::prelude::*;
use crate::banner::{
    aggregate_dir_git_status, color, colorize_perms, dir_has_status, dir_status_bound, highlight_row, highlight_text, paint,
    perms_text, reset_code, status_mark, strip_ansi, strip_ansi_text, under_dir,
};
use crate::git::{lookup_status, status_map, unique_paths, FileStatus};
use crate::header::piece;
use crate::listing::{rel_path, rel_path_of};
use crate::fs::{format_size_compact, size_compact_text, DirEntry};
use crate::summary::{elapsed_secs, format_exact_time, relative_text, relative_time_text, utc_text};
use crate::parse::{lines, lines_text};
use crate::text::{
    char_utf8_width, dec_digits, last_index_of, owned, push_char, push_str, push_u64, rfind_char, slice_chars, to_chars, utf8_len, utf8_len_of,
    join, join_spec, views,
};

use vstd::utf8::encode_scalar;

verus! {

/// `n` spaces (none for `n` below one).
pub open spec fn spaces(n: int) -> Seq<char> {
    Seq::new(if n > 0 { n as nat } else { 0 }, |i: int| ' ')
}

/// `s` padded with spaces on the right to `w` characters (`{:<w}`).
pub open spec fn pad_right_text(s: Seq<char>, w: nat) -> Seq<char> {
    s + spaces(w - s.len())
}

/// `s` padded with spaces on the left to `w` characters (`{:>w}`).
pub open spec fn pad_left_text(s: Seq<char>, w: nat) -> Seq<char> {
    spaces(w - s.len()) + s
}

fn push_spaces(s: &mut String, n: u128)
    ensures
        final(s)@ == old(s)@ + spaces(n as int),
{
    let ghost start = s@;
    let mut k: u128 = 0;
    while k < n
        invariant
            k <= n,
            s@ == start + spaces(k as int),
        decreases n - k,
    {
        push_char(s, ' ');
        assert(spaces((k + 1) as int) == spaces(k as int).push(' '));
        k = k + 1;
    }
}

/// Pads `s` on the right to `w` characters.
pub fn pad_right(s: &str, w: u128) -> (r: String)
    ensures
        r@ == pad_right_text(s@, w as nat),
{
    let n = to_chars(s).len() as u128;
    let mut r = owned(s);
    if n < w {
        push_spaces(&mut r, w - n);
    } else {
        assert(spaces(w - s@.len()) == Seq::<char>::empty());
        assert(r@ == r@ + Seq::<char>::empty());
    }
    r
}

/// Pads `s` on the left to `w` characters.
pub fn pad_left(s: &str, w: u128) -> (r: String)
    ensures
        r@ == pad_left_text(s@, w as nat),
{
    let n = to_chars(s).len() as u128;
    let mut r = String::new();
    if n < w {
        push_spaces(&mut r, w - n);
    } else {
        assert(spaces(w - s@.len()) == Seq::<char>::empty());
    }
    assert(r@ == spaces(w - s@.len()));
    push_str(&mut r, s);
    r
}

/// The larger of two numbers.
pub open spec fn max_nat(a: nat, b: nat) -> nat {
    if a >= b { a } else { b }
}

/// Widths (in bytes) that align the owner, group, size and contents
/// columns over the first `n` rows: at least the width of each column's
/// title (five, five, four and four).
pub open spec fn widths_upto(items: Seq<DirEntry>, contents: Seq<String>, n: int) -> (nat, nat, nat, nat)
    decreases n,
{
    if n <= 0 {
        (5, 5, 4, 4)
    } else {
        let w = widths_upto(items, contents, n - 1);
        let e = items[n - 1];
        (
            max_nat(w.0, utf8_len(e.owner@)),
            max_nat(w.1, utf8_len(e.group@)),
            max_nat(w.2, utf8_len(size_compact_text(e.size as nat))),
            max_nat(w.3, max_nat(utf8_len(contents[n - 1]@), 4)),
        )
    }
}

/// Widths of the aligned columns.
#[derive(Debug, Clone, Copy)]
pub struct ColumnWidths {
    pub owner: u128,
    pub group: u128,
    pub size: u128,
    pub contents: u128,
}

fn max_u128(a: u128, b: u128) -> (r: u128)
    ensures
        r == max_nat(a as nat, b as nat),
{
    if a >= b { a } else { b }
}

/// The widths that align the columns of the rows `items`, whose contents
/// cells are `contents`.
pub fn column_widths(items: &[DirEntry], contents: &[String]) -> (r: ColumnWidths)
    requires
        contents@.len() == items@.len(),
    ensures
        (r.owner as nat, r.group as nat, r.size as nat, r.contents as nat) == widths_upto(items@, contents@, items@.len() as int),
{
    let mut w = ColumnWidths { owner: 5, group: 5, size: 4, contents: 4 };
    let mut i: usize = 0;
    while i < items.len()
        invariant
            i <= items@.len(),
            contents@.len() == items@.len(),
            (w.owner as nat, w.group as nat, w.size as nat, w.contents as nat) == widths_upto(items@, contents@, i as int),
        decreases items@.len() - i,
    {
        let o = utf8_len_of(to_chars(items[i].owner.as_str()).as_slice());
        let g = utf8_len_of(to_chars(items[i].group.as_str()).as_slice());
        let sz = format_size_compact(items[i].size);
        let s = utf8_len_of(to_chars(sz.as_str()).as_slice());
        let c = utf8_len_of(to_chars(contents[i].as_str()).as_slice());
        w = ColumnWidths {
            owner: max_u128(w.owner, o),
            group: max_u128(w.group, g),
            size: max_u128(w.size, s),
            contents: max_u128(w.contents, max_u128(c, 4)),
        };
        i = i + 1;
    }
    w
}

/// `n` (at most three digits) zero-padded to three digits (`{:03}`).
pub open spec fn zero3(n: nat) -> Seq<char> {
    if n < 10 {
        "00"@ + dec_digits(n)
    } else if n < 100 {
        "0"@ + dec_digits(n)
    } else {
        dec_digits(n)
    }
}

/// `v` when position `i` of `p` holds `c`, else zero.
pub open spec fn perm_bit(p: Seq<char>, i: int, c: char, v: nat) -> nat {
    if p.len() > i && p[i] == c { v } else { 0 }
}

/// The octal number the permission cell shows for `p`: per triplet, an
/// `x` counts 4, a `w` 2 and an `r` 1.
pub open spec fn octal_value(p: Seq<char>) -> nat {
    (perm_bit(p, 2, 'x', 4) + perm_bit(p, 1, 'w', 2) + perm_bit(p, 0, 'r', 1)) * 100
        + (perm_bit(p, 5, 'x', 4) + perm_bit(p, 4, 'w', 2) + perm_bit(p, 3, 'r', 1)) * 10
        + (perm_bit(p, 8, 'x', 4) + perm_bit(p, 7, 'w', 2) + perm_bit(p, 6, 'r', 1))
}

/// The permission cell: in `octal` mode the three-digit number (dim) where
/// the string has nine characters or more; nothing in `disable` mode;
/// otherwise the colored permission string.
pub open spec fn perm_cell_text(perms: Seq<char>, mode: Seq<char>, colors: bool) -> Seq<char> {
    if mode == "octal"@ && perms.len() >= 9 {
        paint("\x1b[2m"@, colors) + zero3(octal_value(perms)) + paint(reset_code(), colors)
    } else if mode == "disable"@ {
        Seq::empty()
    } else {
        perms_text(perms, colors)
    }
}

fn bit_of(p: &Vec<char>, i: usize, c: char, v: u64) -> (r: u64)
    ensures
        r == perm_bit(p@, i as int, c, v as nat),
{
    if p.len() > i && p[i] == c { v } else { 0 }
}

/// Builds the permission cell. (The permission strings that are shown are
/// ASCII, so characters and bytes coincide.)
pub fn perm_cell(perms: &str, mode: &str, colors: bool) -> (r: String)
    ensures
        r@ == perm_cell_text(perms@, mode@, colors),
{
    let p = to_chars(perms);
    if crate::text::str_eq(mode, "octal") && p.len() >= 9 {
        let user = bit_of(&p, 2, 'x', 4) + bit_of(&p, 1, 'w', 2) + bit_of(&p, 0, 'r', 1);
        let group = bit_of(&p, 5, 'x', 4) + bit_of(&p, 4, 'w', 2) + bit_of(&p, 3, 'r', 1);
        let other = bit_of(&p, 8, 'x', 4) + bit_of(&p, 7, 'w', 2) + bit_of(&p, 6, 'r', 1);
        let n = user * 100 + group * 10 + other;
        let mut s = owned(color("\x1b[2m", colors));
        if n < 10 {
            push_str(&mut s, "00");
        } else if n < 100 {
            push_str(&mut s, "0");
        } else {
            assert(s@ == s@ + Seq::<char>::empty());
        }
        push_u64(&mut s, n);
        push_str(&mut s, color("\x1b[0m", colors));
        assert(s@ =~= perm_cell_text(perms@, mode@, colors));
        s
    } else if crate::text::str_eq(mode, "disable") {
        String::new()
    } else {
        colorize_perms(perms, colors)
    }
}

/// The size cell: the compact size (a dash for a directory of size zero),
/// right-aligned, in orange.
pub open spec fn size_cell_text(e: DirEntry, w: nat, colors: bool) -> Seq<char> {
    let t = if e.is_dir && e.size == 0 { "-"@ } else { size_compact_text(e.size as nat) };
    paint("\x1b[38;5;214m"@, colors) + pad_left_text(t, w) + paint(reset_code(), colors)
}

/// Builds the size cell.
pub fn size_cell(e: &DirEntry, w: u128, colors: bool) -> (r: String)
    ensures
        r@ == size_cell_text(*e, w as nat, colors),
{
    let t = if e.is_dir && e.size == 0 { owned("-") } else { format_size_compact(e.size) };
    let mut s = owned(color("\x1b[38;5;214m", colors));
    let padded = pad_left(t.as_str(), w);
    push_str(&mut s, padded.as_str());
    push_str(&mut s, color("\x1b[0m", colors));
    s
}

/// A cell right-aligned to `w` in orange (the contents column).
pub open spec fn contents_cell_text(c: Seq<char>, w: nat, colors: bool) -> Seq<char> {
    paint("\x1b[38;5;214m"@, colors) + pad_left_text(c, w) + paint(reset_code(), colors)
}

/// Builds the contents cell.
pub fn contents_cell(c: &str, w: u128, colors: bool) -> (r: String)
    ensures
        r@ == contents_cell_text(c@, w as nat, colors),
{
    let mut s = owned(color("\x1b[38;5;214m", colors));
    let padded = pad_left(c, w);
    push_str(&mut s, padded.as_str());
    push_str(&mut s, color("\x1b[0m", colors));
    s
}

/// A cell left-aligned to `w` in blue (the owner and group columns).
pub open spec fn id_cell_text(name: Seq<char>, w: nat, colors: bool) -> Seq<char> {
    paint("\x1b[34m"@, colors) + pad_right_text(name, w) + paint(reset_code(), colors)
}

/// Builds an owner or group cell.
pub fn id_cell(name: &str, w: u128, colors: bool) -> (r: String)
    ensures
        r@ == id_cell_text(name@, w as nat, colors),
{
    let mut s = owned(color("\x1b[34m", colors));
    let padded = pad_right(name, w);
    push_str(&mut s, padded.as_str());
    push_str(&mut s, color("\x1b[0m", colors));
    s
}

/// The date cell: the time relative to `now` or the exact UTC time, in
/// green; nothing without a modification time (or for a time out of range).
pub open spec fn date_cell_text(modified: Option<(i64, u32)>, relative: bool, now: (i64, u32), colors: bool) -> Seq<char> {
    match modified {
        Some(t) => paint("\x1b[32m"@, colors) + (if relative {
            relative_text(elapsed_secs(now, t))
        } else {
            match utc_text(t.0, t.1) {
                Some(x) => x,
                None => Seq::empty(),
            }
        }) + paint(reset_code(), colors),
        None => Seq::empty(),
    }
}

/// Builds the date cell.
pub fn date_cell(modified: Option<(i64, u32)>, relative: bool, now: (i64, u32), colors: bool) -> (r: String)
    ensures
        r@ == date_cell_text(modified, relative, now, colors),
{
    match modified {
        Some(t) => {
            let mut s = owned(color("\x1b[32m", colors));
            if relative {
                let x = relative_time_text(now, t);
                push_str(&mut s, x.as_str());
            } else {
                match format_exact_time(t) {
                    Some(x) => push_str(&mut s, x.as_str()),
                    None => {
                        assert(s@ == s@ + Seq::<char>::empty());
                    },
                }
            }
            push_str(&mut s, color("\x1b[0m", colors));
            s
        },
        None => String::new(),
    }
}

/// The navigation number of the row at `idx` (counted from one), right-aligned
/// to `w` digits in brackets.
pub open spec fn num_cell_text(idx: nat, w: nat, colors: bool) -> Seq<char> {
    paint("\x1b[1m"@, colors) + paint("\x1b[97m"@, colors) + "["@ + pad_left_text(dec_digits(idx + 1), w)
        + paint(reset_code(), colors) + paint("\x1b[97m"@, colors) + "]"@
}

/// Builds the navigation number cell.
pub fn num_cell(idx: usize, w: u128, colors: bool) -> (r: String)
    requires
        idx < usize::MAX,
    ensures
        r@ == num_cell_text(idx as nat, w as nat, colors),
{
    let mut digits = String::new();
    push_u64(&mut digits, (idx + 1) as u64);
    let mut s = owned(color("\x1b[1m", colors));
    push_str(&mut s, color("\x1b[97m", colors));
    push_str(&mut s, "[");
    let padded = pad_left(digits.as_str(), w);
    push_str(&mut s, padded.as_str());
    push_str(&mut s, color("\x1b[0m", colors));
    push_str(&mut s, color("\x1b[97m", colors));
    push_str(&mut s, "]");
    s
}

/// The number of digits of `n` (the width of the numbers of `n` rows).
pub fn digit_count(n: usize) -> (r: u128)
    ensures
        r == dec_digits(n as nat).len(),
{
    let mut s = String::new();
    push_u64(&mut s, n as u64);
    to_chars(s.as_str()).len() as u128
}

/// The git cell of a row: the status of its path relative to the listed
/// directory, else of its name; for a directory without either, the most
/// severe status inside it; else a green dot inside a repository, a blank
/// outside.
pub fn git_cell(e: &DirEntry, root: &str, statuses: &[(String, FileStatus)], is_repo: bool, colors: bool) -> (r: String)
    requires
        unique_paths(statuses@),
    ensures
        ({
            let m = status_map(statuses@);
            let rel = rel_path(e.path@, root@);
            &&& m.contains_key(rel) ==> r@ == status_mark(m[rel], colors)
            &&& !m.contains_key(rel) && m.contains_key(e.name@) ==> r@ == status_mark(m[e.name@], colors)
            &&& !m.contains_key(rel) && !m.contains_key(e.name@) && e.is_dir
                && (exists|k: Seq<char>| m.contains_key(k) && under_dir(k, e.name@)) ==> exists|st: FileStatus|
                    dir_has_status(m, e.name@, st) && dir_status_bound(m, e.name@, st) && r@ == status_mark(st, colors)
            &&& !m.contains_key(rel) && !m.contains_key(e.name@)
                && !(e.is_dir && (exists|k: Seq<char>| m.contains_key(k) && under_dir(k, e.name@))) ==> r@ == (if is_repo {
                    paint("\x1b[32m"@, colors) + "\u{25cf}"@ + paint(reset_code(), colors)
                } else {
                    " "@
                })
        }),
{
    let rel = rel_path_of(e.path.as_str(), root);
    let rel_s = crate::text::string_from_chars(rel.as_slice());
    let found = match lookup_status(statuses, rel_s.as_str()) {
        Some(st) => Some(st),
        None => lookup_status(statuses, e.name.as_str()),
    };
    match found {
        Some(st) => {
            let mut s = owned(color(st.color(), colors));
            push_str(&mut s, st.icon());
            push_str(&mut s, color("\x1b[0m", colors));
            s
        },
        None => {
            let agg = if e.is_dir {
                aggregate_dir_git_status(statuses, e.name.as_str(), colors)
            } else {
                None
            };
            match agg {
                Some(t) => t,
                None => {
                    if is_repo {
                        let mut s = owned(color("\x1b[32m", colors));
                        push_str(&mut s, "\u{25cf}");
                        push_str(&mut s, color("\x1b[0m", colors));
                        s
                    } else {
                        owned(" ")
                    }
                },
            }
        },
    }
}

/// Color code lists for file names, by extension (dot included).
pub open spec fn script_exts() -> Seq<Seq<char>> {
    seq![".sh"@, ".bash"@, ".py"@, ".rb"@, ".pl"@, ".php"@, ".js"@, ".ts"@, ".jsx"@, ".tsx"@, ".ruby"@, ".perl"@, ".lua"@, ".r"@, ".R"@, ".ps1"@, ".bat"@, ".cmd"@]
}

pub open spec fn config_exts() -> Seq<Seq<char>> {
    seq![".json"@, ".yaml"@, ".yml"@, ".toml"@, ".ini"@, ".conf"@, ".cfg"@, ".env"@]
}

pub open spec fn doc_exts() -> Seq<Seq<char>> {
    seq![".md"@, ".txt"@, ".rst"@, ".doc"@, ".docx"@, ".pdf"@]
}

pub open spec fn source_exts() -> Seq<Seq<char>> {
    seq![".rs"@, ".go"@, ".java"@, ".c"@, ".cpp"@, ".h"@, ".hpp"@, ".cs"@, ".swift"@, ".kt"@, ".scala"@, ".zig"@, ".nim"@]
}

pub open spec fn image_exts() -> Seq<Seq<char>> {
    seq![".png"@, ".jpg"@, ".jpeg"@, ".gif"@, ".svg"@, ".webp"@, ".ico"@]
}

pub open spec fn video_exts() -> Seq<Seq<char>> {
    seq![".mp4"@, ".mkv"@, ".avi"@, ".mov"@, ".webm"@, ".flv"@]
}

pub open spec fn archive_exts() -> Seq<Seq<char>> {
    seq![".zip"@, ".tar"@, ".gz"@, ".bz2"@, ".xz"@, ".7z"@, ".rar"@, ".tgz"@]
}

/// The name's suffix from its last dot (empty without one).
pub open spec fn dot_ext(name: Seq<char>) -> Seq<char> {
    match last_index_of(name, '.') {
        Some(i) => name.skip(i),
        None => Seq::empty(),
    }
}

/// The color of a name: directories bold blue, links magenta, executables
/// red, hidden names dim, then by extension (scripts red, configuration dim,
/// documents cyan, source green, images magenta, videos cyan, archives dim);
/// none for anything else.
pub open spec fn name_color_code(name: Seq<char>, is_dir: bool, is_symlink: bool, is_exec: bool) -> Seq<char> {
    let x = dot_ext(name);
    if is_dir {
        "\x1b[1;34m"@
    } else if is_symlink {
        "\x1b[35m"@
    } else if is_exec {
        "\x1b[31m"@
    } else if name.len() > 0 && name[0] == '.' {
        "\x1b[2m"@
    } else if script_exts().contains(x) {
        "\x1b[31m"@
    } else if config_exts().contains(x) {
        "\x1b[2m"@
    } else if doc_exts().contains(x) {
        "\x1b[36m"@
    } else if source_exts().contains(x) {
        "\x1b[32m"@
    } else if image_exts().contains(x) {
        "\x1b[35m"@
    } else if video_exts().contains(x) {
        "\x1b[36m"@
    } else if archive_exts().contains(x) {
        "\x1b[2m"@
    } else {
        Seq::empty()
    }
}

fn in_list(x: &str, names: &[&str], Ghost(list): Ghost<Seq<Seq<char>>>) -> (r: bool)
    requires
        names@.len() == list.len(),
        forall|i: int| 0 <= i < list.len() ==> #[trigger] names@[i]@ == list[i],
    ensures
        r == list.contains(x@),
{
    let mut i: usize = 0;
    while i < names.len()
        invariant
            i <= names@.len(),
            names@.len() == list.len(),
            forall|k: int| 0 <= k < list.len() ==> #[trigger] names@[k]@ == list[k],
            forall|k: int| 0 <= k < i ==> list[k] != x@,
        decreases names@.len() - i,
    {
        if crate::text::str_eq(x, names[i]) {
            assert(list[i as int] == x@);
            return true;
        }
        i = i + 1;
    }
    assert(!list.contains(x@)) by {
        if list.contains(x@) {
            let k = choose|k: int| 0 <= k < list.len() && list[k] == x@;
        }
    }
    false
}

fn ext_color(x: &str) -> (r: &'static str)
    ensures
        r@ == (if script_exts().contains(x@) {
            "\x1b[31m"@
        } else if config_exts().contains(x@) {
            "\x1b[2m"@
        } else if doc_exts().contains(x@) {
            "\x1b[36m"@
        } else if source_exts().contains(x@) {
            "\x1b[32m"@
        } else if image_exts().contains(x@) {
            "\x1b[35m"@
        } else if video_exts().contains(x@) {
            "\x1b[36m"@
        } else if archive_exts().contains(x@) {
            "\x1b[2m"@
        } else {
            Seq::<char>::empty()
        }),
{
    let scripts = [".sh", ".bash", ".py", ".rb", ".pl", ".php", ".js", ".ts", ".jsx", ".tsx", ".ruby", ".perl", ".lua", ".r", ".R", ".ps1", ".bat", ".cmd"];
    let configs = [".json", ".yaml", ".yml", ".toml", ".ini", ".conf", ".cfg", ".env"];
    let docs = [".md", ".txt", ".rst", ".doc", ".docx", ".pdf"];
    let sources = [".rs", ".go", ".java", ".c", ".cpp", ".h", ".hpp", ".cs", ".swift", ".kt", ".scala", ".zig", ".nim"];
    let images = [".png", ".jpg", ".jpeg", ".gif", ".svg", ".webp", ".ico"];
    let videos = [".mp4", ".mkv", ".avi", ".mov", ".webm", ".flv"];
    let archives = [".zip", ".tar", ".gz", ".bz2", ".xz", ".7z", ".rar", ".tgz"];
    proof {
        reveal_strlit("");
    }
    if in_list(x, &scripts, Ghost(script_exts())) {
        "\x1b[31m"
    } else if in_list(x, &configs, Ghost(config_exts())) {
        "\x1b[2m"
    } else if in_list(x, &docs, Ghost(doc_exts())) {
        "\x1b[36m"
    } else if in_list(x, &sources, Ghost(source_exts())) {
        "\x1b[32m"
    } else if in_list(x, &images, Ghost(image_exts())) {
        "\x1b[35m"
    } else if in_list(x, &videos, Ghost(video_exts())) {
        "\x1b[36m"
    } else if in_list(x, &archives, Ghost(archive_exts())) {
        "\x1b[2m"
    } else {
        ""
    }
}

/// The color code of a name (empty for none).
pub fn name_color(name: &str, is_dir: bool, is_symlink: bool, is_exec: bool) -> (r: &'static str)
    ensures
        r@ == name_color_code(name@, is_dir, is_symlink, is_exec),
{
    let cs = to_chars(name);
    if is_dir {
        "\x1b[1;34m"
    } else if is_symlink {
        "\x1b[35m"
    } else if is_exec {
        "\x1b[31m"
    } else if cs.len() > 0 && cs[0] == '.' {
        "\x1b[2m"
    } else {
        let x = match rfind_char(cs.as_slice(), '.') {
            Some(i) => {
                let t = slice_chars(cs.as_slice(), i, cs.len());
                assert(t@ == name@.skip(i as int));
                crate::text::string_from_chars(t.as_slice())
            },
            None => String::new(),
        };
        assert(x@ == dot_ext(name@));
        ext_color(x.as_str())
    }
}

/// The classify mark of an entry: `/` for a directory, `@` for a link,
/// `*` for an executable, when marks are asked for.
pub open spec fn classify_mark(e: DirEntry, classify: bool) -> Seq<char> {
    if !classify {
        Seq::empty()
    } else if e.is_dir {
        "/"@
    } else if e.is_symlink {
        "@"@
    } else if e.is_exec {
        "*"@
    } else {
        Seq::empty()
    }
}

/// The name cell: the colored name with its classify mark, and for a link
/// with a target an arrow (crossed where the target is missing) and the target.
pub open spec fn name_cell_text(e: DirEntry, classify: bool, colors: bool) -> Seq<char> {
    let code = name_color_code(e.name@, e.is_dir, e.is_symlink, e.is_exec);
    let pre = if code.len() == 0 { Seq::empty() } else { paint(code, colors) };
    let suf = if code.len() == 0 { Seq::empty() } else { paint(reset_code(), colors) };
    let base = pre + e.name@ + classify_mark(e, classify) + suf;
    match e.symlink_target {
        Some(t) => if e.is_symlink {
            base + " "@ + paint("\x1b[2m"@, colors) + (if e.symlink_valid { "→"@ } else { "✗→"@ }) + paint(reset_code(), colors)
                + " "@ + t@
        } else {
            base
        },
        None => base,
    }
}

/// Builds the name cell.
pub fn name_cell(e: &DirEntry, classify: bool, colors: bool) -> (r: String)
    ensures
        r@ == name_cell_text(*e, classify, colors),
{
    let code = name_color(e.name.as_str(), e.is_dir, e.is_symlink, e.is_exec);
    let empty = code.is_empty();
    let mut s = String::new();
    if !empty {
        push_str(&mut s, color(code, colors));
    }
    push_str(&mut s, e.name.as_str());
    if classify {
        if e.is_dir {
            push_str(&mut s, "/");
        } else if e.is_symlink {
            push_str(&mut s, "@");
        } else if e.is_exec {
            push_str(&mut s, "*");
        }
    }
    if !empty {
        push_str(&mut s, color("\x1b[0m", colors));
    }
    proof {
        let code_v = name_color_code(e.name@, e.is_dir, e.is_symlink, e.is_exec);
        let pre = if code_v.len() == 0 { Seq::<char>::empty() } else { paint(code_v, colors) };
        let suf = if code_v.len() == 0 { Seq::<char>::empty() } else { paint(reset_code(), colors) };
        assert(s@ =~= pre + e.name@ + classify_mark(*e, classify) + suf);
    }
    if e.is_symlink {
        match &e.symlink_target {
            Some(t) => {
                push_str(&mut s, " ");
                push_str(&mut s, color("\x1b[2m", colors));
                if e.symlink_valid {
                    push_str(&mut s, "→");
                } else {
                    push_str(&mut s, "✗→");
                }
                push_str(&mut s, color("\x1b[0m", colors));
                push_str(&mut s, " ");
                push_str(&mut s, t.as_str());
            },
            None => {},
        }
    }
    s
}

/// The cells of one row, each already built.
pub struct RowCells {
    pub perm: String,
    pub owner: String,
    pub group: String,
    pub date: String,
    pub size: String,
    pub contents: String,
    pub git: String,
    pub num: String,
    pub icon: String,
    pub name: String,
}

/// The pieces of a row, in order: the permission (when its column is shown
/// and it is not empty), owner, group, date, size and contents (when their
/// columns are shown), the git cell (when git status is on), the number
/// (when rows are numbered), the icon and the name.
pub open spec fn row_pieces(c: RowCells, columns: Seq<Seq<char>>, git_status: bool, numbered: bool) -> Seq<Seq<char>> {
    piece(columns.contains("permission"@) && c.perm@.len() > 0, c.perm@)
        + piece(columns.contains("owner"@), c.owner@)
        + piece(columns.contains("group"@), c.group@)
        + piece(columns.contains("date"@), c.date@)
        + piece(columns.contains("size"@), c.size@)
        + piece(columns.contains("contents"@), c.contents@)
        + piece(git_status, c.git@)
        + piece(numbered, c.num@)
        + seq![c.icon@, c.name@]
}

fn has_column(columns: &[String], name: &str) -> (r: bool)
    ensures
        r == views(columns@).contains(name@),
{
    let mut i: usize = 0;
    while i < columns.len()
        invariant
            i <= columns@.len(),
            forall|k: int| 0 <= k < i ==> #[trigger] views(columns@)[k] != name@,
        decreases columns@.len() - i,
    {
        if crate::text::str_eq(columns[i].as_str(), name) {
            assert(views(columns@)[i as int] == name@);
            return true;
        }
        assert(views(columns@)[i as int] == columns@[i as int]@);
        i = i + 1;
    }
    assert(!views(columns@).contains(name@)) by {
        if views(columns@).contains(name@) {
            let k = choose|k: int| 0 <= k < views(columns@).len() && views(columns@)[k] == name@;
        }
    }
    false
}

fn push_if(v: &mut Vec<String>, cond: bool, s: &String)
    ensures
        views(final(v)@) == views(old(v)@) + piece(cond, s@),
{
    let ghost before = views(v@);
    if cond {
        v.push(owned(s.as_str()));
        assert(views(v@) =~= before + piece(cond, s@));
    } else {
        assert(views(v@) =~= before + piece(cond, s@));
    }
}

/// The pieces of a row, to be joined with single spaces.
pub fn row_parts(c: &RowCells, columns: &[String], git_status: bool, numbered: bool) -> (r: Vec<String>)
    ensures
        views(r@) == row_pieces(*c, views(columns@), git_status, numbered),
{
    let mut v: Vec<String> = Vec::new();
    assert(views(v@) =~= Seq::<Seq<char>>::empty());
    let perm = has_column(columns, "permission") && !c.perm.as_str().is_empty();
    push_if(&mut v, perm, &c.perm);
    push_if(&mut v, has_column(columns, "owner"), &c.owner);
    push_if(&mut v, has_column(columns, "group"), &c.group);
    push_if(&mut v, has_column(columns, "date"), &c.date);
    push_if(&mut v, has_column(columns, "size"), &c.size);
    push_if(&mut v, has_column(columns, "contents"), &c.contents);
    push_if(&mut v, git_status, &c.git);
    push_if(&mut v, numbered, &c.num);
    push_if(&mut v, true, &c.icon);
    push_if(&mut v, true, &c.name);
    assert(row_pieces(*c, views(columns@), git_status, numbered) =~= piece(views(columns@).contains("permission"@) && c.perm@.len() > 0, c.perm@)
        + piece(views(columns@).contains("owner"@), c.owner@)
        + piece(views(columns@).contains("group"@), c.group@)
        + piece(views(columns@).contains("date"@), c.date@)
        + piece(views(columns@).contains("size"@), c.size@)
        + piece(views(columns@).contains("contents"@), c.contents@)
        + piece(git_status, c.git@)
        + piece(numbered, c.num@)
        + piece(true, c.icon@)
        + piece(true, c.name@));
    v
}

/// A file is recent when it was modified less than six hours before `now`.
pub open spec fn recent(now: (i64, u32), t: (i64, u32)) -> bool {
    elapsed_secs(now, t) < 21600
}

/// The row as printed: highlighted as recent or as old where the
/// corresponding highlight is set (and neither empty nor `none`), then, on
/// every other row (the first, third, ...), tinted.
pub open spec fn finished_row_text(
    row: Seq<char>,
    modified: Option<(i64, u32)>,
    now: (i64, u32),
    highlight_recent: Option<Seq<char>>,
    highlight_old: Option<Seq<char>>,
    idx: nat,
    colors: bool,
) -> Seq<char> {
    let lit = match modified {
        Some(t) => {
            let bg = if recent(now, t) { highlight_recent } else { highlight_old };
            match bg {
                Some(b) => if b.len() > 0 && b != "none"@ { highlight_text(row, b, colors) } else { row },
                None => row,
            }
        },
        None => row,
    };
    if idx % 2 == 0 {
        paint("\x1b[48;5;236m"@, colors) + lit + paint(reset_code(), colors)
    } else {
        lit
    }
}

/// Whether a file modified at `t` is recent at `now`.
pub fn is_recent(now: (i64, u32), t: (i64, u32)) -> (r: bool)
    ensures
        r == recent(now, t),
{
    crate::summary::elapsed_seconds(now, t) < 21600
}

/// Finishes a row for printing.
pub fn finish_row(
    row: &str,
    modified: Option<(i64, u32)>,
    now: (i64, u32),
    highlight_recent: Option<&str>,
    highlight_old: Option<&str>,
    idx: usize,
    colors: bool,
) -> (r: String)
    ensures
        r@ == finished_row_text(
            row@,
            modified,
            now,
            match highlight_recent { Some(b) => Some(b@), None => None },
            match highlight_old { Some(b) => Some(b@), None => None },
            idx as nat,
            colors,
        ),
{
    let lit = match modified {
        Some(t) => {
            let bg = if is_recent(now, t) { highlight_recent } else { highlight_old };
            match bg {
                Some(b) => if !b.is_empty() && !crate::text::str_eq(b, "none") {
                    highlight_row(row, b, colors)
                } else {
                    owned(row)
                },
                None => owned(row),
            }
        },
        None => owned(row),
    };
    if idx % 2 == 0 {
        let mut s = owned(color("\x1b[48;5;236m", colors));
        push_str(&mut s, lit.as_str());
        push_str(&mut s, color("\x1b[0m", colors));
        s
    } else {
        lit
    }
}

/// The room an inline preview gets after the row so far: the terminal width
/// less the row's visible width and four; none unless the width is known
/// and more than ten columns are left.
pub open spec fn preview_room_spec(row: Seq<char>, term_width: nat) -> Option<nat> {
    let used = utf8_len(strip_ansi_text(row)) + 4;
    let available: nat = if term_width > used { (term_width - used) as nat } else { 0 };
    if term_width > 0 && available > 10 { Some(available) } else { None }
}

/// The room for an inline preview after the row so far.
pub fn preview_room(row: &str, term_width: usize) -> (r: Option<usize>)
    ensures
        match r {
            Some(n) => preview_room_spec(row@, term_width as nat) == Some(n as nat),
            None => preview_room_spec(row@, term_width as nat) is None,
        },
{
    let plain = strip_ansi(row);
    let cs = to_chars(plain.as_str());
    let n = cs.len();
    assert(cs@.len() == n);
    let used = utf8_len_of(cs.as_slice()) + 4;
    let available: u128 = if (term_width as u128) > used { term_width as u128 - used } else { 0 };
    if term_width > 0 && available > 10 {
        Some(available as usize)
    } else {
        None
    }
}

/// An entry may appear in an inline preview: its name is not hidden.
pub fn preview_candidate(name: &str) -> (r: bool)
    ensures
        r == !(name@.len() > 0 && name@[0] == '.'),
{
    let cs = to_chars(name);
    !(cs.len() > 0 && cs[0] == '.')
}

/// The pass over the preview's entries: the pieces so far, the width they
/// take, and whether the pass stopped. An entry that no longer fits stops
/// the pass, adding an ellipsis after earlier pieces; each piece takes its
/// name's width and two more.
pub open spec fn preview_scan(entries: Seq<(Seq<char>, bool)>, max_width: nat, colors: bool) -> (Seq<Seq<char>>, nat, bool)
    decreases entries.len(),
{
    if entries.len() == 0 {
        (Seq::empty(), 0, false)
    } else {
        let prev = preview_scan(entries.drop_last(), max_width, colors);
        let (name, is_dir) = entries.last();
        if prev.2 {
            prev
        } else if prev.1 + utf8_len(name) + 2 > max_width {
            let parts = if prev.0.len() > 0 {
                prev.0.push(paint("\x1b[2m"@, colors) + "..."@ + paint(reset_code(), colors))
            } else {
                prev.0
            };
            (parts, prev.1, true)
        } else {
            let code = if is_dir { "\x1b[1;34m"@ } else { "\x1b[2m"@ };
            (prev.0.push(paint(code, colors) + name + paint(reset_code(), colors)), prev.1 + utf8_len(name) + 2, false)
        }
    }
}

/// The inline preview of a directory from its first (at most three)
/// visible entries: their names, dimmed as a whole; none where there are no
/// entries or none fits.
pub open spec fn inline_preview_text(entries: Seq<(Seq<char>, bool)>, max_width: nat, colors: bool) -> Option<Seq<char>> {
    let parts = preview_scan(entries, max_width, colors).0;
    if entries.len() == 0 || parts.len() == 0 {
        None
    } else {
        Some(paint("\x1b[2m"@, colors) + join_spec(parts, " "@) + paint(reset_code(), colors))
    }
}

/// The entries of a preview by their texts.
pub open spec fn entry_views(v: Seq<(String, bool)>) -> Seq<(Seq<char>, bool)> {
    v.map_values(|e: (String, bool)| (e.0@, e.1))
}

/// Builds the inline preview of a directory from its first visible entries
/// (name and whether it is a directory).
pub fn inline_preview(entries: &[(String, bool)], max_width: usize, colors: bool) -> (r: Option<String>)
    ensures
        match r {
            Some(p) => inline_preview_text(entry_views(entries@), max_width as nat, colors) == Some(p@),
            None => inline_preview_text(entry_views(entries@), max_width as nat, colors) is None,
        },
{
    let ghost ev = entry_views(entries@);
    let mut parts: Vec<String> = Vec::new();
    let mut total: u128 = 0;
    let mut stopped = false;
    let mut i: usize = 0;
    while i < entries.len()
        invariant
            i <= entries@.len(),
            ev == entry_views(entries@),
            (views(parts@), total as nat, stopped) == preview_scan(ev.take(i as int), max_width as nat, colors),
            total <= max_width as u128,
        decreases entries@.len() - i,
    {
        let ghost pre = ev.take(i + 1);
        assert(pre.drop_last() == ev.take(i as int));
        assert(pre.last() == (entries@[i as int].0@, entries@[i as int].1));
        if !stopped {
            let nc = to_chars(entries[i].0.as_str());
            let nl = nc.len();
            assert(nc@.len() == nl);
            let w = utf8_len_of(nc.as_slice());
            if total + w + 2 > max_width as u128 {
                if parts.len() > 0 {
                    let mut e = owned(color("\x1b[2m", colors));
                    push_str(&mut e, "...");
                    push_str(&mut e, color("\x1b[0m", colors));
                    let ghost before = views(parts@);
                    parts.push(e);
                    assert(views(parts@) == before.push(e@));
                }
                stopped = true;
            } else {
                let code = if entries[i].1 { "\x1b[1;34m" } else { "\x1b[2m" };
                let mut e = owned(color(code, colors));
                push_str(&mut e, entries[i].0.as_str());
                push_str(&mut e, color("\x1b[0m", colors));
                let ghost before = views(parts@);
                parts.push(e);
                assert(views(parts@) == before.push(e@));
                total = total + w + 2;
            }
        }
        i = i + 1;
    }
    assert(ev.take(ev.len() as int) == ev);
    if entries.len() == 0 || parts.len() == 0 {
        return None;
    }
    let mut s = owned(color("\x1b[2m", colors));
    let joined = join(parts.as_slice(), " ");
    push_str(&mut s, joined.as_str());
    push_str(&mut s, color("\x1b[0m", colors));
    Some(s)
}

/// The count of entries of `items` that are directories (or files) and
/// whose path is not the path of a shown entry.
pub open spec fn unshown(items: Seq<DirEntry>, shown: Seq<usize>, dirs: bool, n: int) -> nat
    decreases n,
{
    if n <= 0 {
        0
    } else {
        let e = items[n - 1];
        let is_kind = if dirs { e.is_dir } else { e.is_file };
        let displayed = exists|j: int| 0 <= j < shown.len() && shown[j] < items.len() && #[trigger] items[shown[j] as int].path@ == e.path@;
        unshown(items, shown, dirs, n - 1) + if is_kind && !displayed { 1nat } else { 0nat }
    }
}

fn path_shown(items: &[DirEntry], shown: &[usize], path: &str) -> (r: bool)
    ensures
        r == exists|j: int| 0 <= j < shown@.len() && shown@[j] < items@.len() && #[trigger] items@[shown@[j] as int].path@ == path@,
{
    let mut j: usize = 0;
    while j < shown.len()
        invariant
            j <= shown@.len(),
            forall|k: int| 0 <= k < j ==> !(shown@[k] < items@.len() && #[trigger] items@[shown@[k] as int].path@ == path@),
        decreases shown@.len() - j,
    {
        if shown[j] < items.len() && crate::text::str_eq(items[shown[j]].path.as_str(), path) {
            return true;
        }
        j = j + 1;
    }
    false
}

/// How many directories and how many files of `items` are not shown.
pub fn hidden_counts(items: &[DirEntry], shown: &[usize]) -> (r: (usize, usize))
    ensures
        r.0 == unshown(items@, shown@, true, items@.len() as int),
        r.1 == unshown(items@, shown@, false, items@.len() as int),
{
    let mut d: usize = 0;
    let mut f: usize = 0;
    let mut i: usize = 0;
    while i < items.len()
        invariant
            i <= items@.len(),
            d == unshown(items@, shown@, true, i as int),
            f == unshown(items@, shown@, false, i as int),
            d <= i,
            f <= i,
        decreases items@.len() - i,
    {
        let shown_here = path_shown(items, shown, items[i].path.as_str());
        if items[i].is_dir && !shown_here {
            d = d + 1;
        }
        if items[i].is_file && !shown_here {
            f = f + 1;
        }
        i = i + 1;
    }
    (d, f)
}

/// The line below a truncated listing that counts the directories and files
/// left out; none where nothing was left out.
pub open spec fn hidden_summary_text(dirs: nat, files: nat, colors: bool) -> Option<Seq<char>> {
    if dirs == 0 && files == 0 {
        None
    } else {
        let d = if dirs > 0 { seq![paint("\x1b[2m"@, colors) + dec_digits(dirs) + " dirs"@ + paint(reset_code(), colors)] } else { Seq::empty() };
        let f = if files > 0 { seq![paint("\x1b[2m"@, colors) + dec_digits(files) + " files"@ + paint(reset_code(), colors)] } else { Seq::empty() };
        Some("  "@ + paint("\x1b[2m"@, colors) + " "@ + join_spec(d + f, ", "@) + " hidden (sorted by git status & recency)"@
            + paint(reset_code(), colors))
    }
}

/// Builds the line that counts the entries left out.
pub fn hidden_summary(dirs: usize, files: usize, colors: bool) -> (r: Option<String>)
    ensures
        match r {
            Some(s) => hidden_summary_text(dirs as nat, files as nat, colors) == Some(s@),
            None => hidden_summary_text(dirs as nat, files as nat, colors) is None,
        },
{
    if dirs == 0 && files == 0 {
        return None;
    }
    let mut parts: Vec<String> = Vec::new();
    if dirs > 0 {
        let mut a = owned(color("\x1b[2m", colors));
        push_u64(&mut a, dirs as u64);
        push_str(&mut a, " dirs");
        push_str(&mut a, color("\x1b[0m", colors));
        parts.push(a);
    }
    if files > 0 {
        let mut b = owned(color("\x1b[2m", colors));
        push_u64(&mut b, files as u64);
        push_str(&mut b, " files");
        push_str(&mut b, color("\x1b[0m", colors));
        parts.push(b);
    }
    proof {
        let d = if dirs > 0 { seq![paint("\x1b[2m"@, colors) + dec_digits(dirs as nat) + " dirs"@ + paint(reset_code(), colors)] } else { Seq::<Seq<char>>::empty() };
        let f = if files > 0 { seq![paint("\x1b[2m"@, colors) + dec_digits(files as nat) + " files"@ + paint(reset_code(), colors)] } else { Seq::<Seq<char>>::empty() };
        assert(views(parts@) =~= d + f);
    }
    let mut s = owned("  ");
    push_str(&mut s, color("\x1b[2m", colors));
    push_str(&mut s, " ");
    let joined = join(parts.as_slice(), ", ");
    push_str(&mut s, joined.as_str());
    push_str(&mut s, " hidden (sorted by git status & recency)");
    push_str(&mut s, color("\x1b[0m", colors));
    Some(s)
}

/// How many leading characters of `s` fit in `n` bytes of UTF-8.
pub open spec fn prefix_chars(s: Seq<char>, n: int) -> nat
    decreases s.len(),
{
    if s.len() == 0 {
        0
    } else {
        let w = encode_scalar(s[0] as u32).len();
        if w > n {
            0
        } else {
            1 + prefix_chars(s.drop_first(), n - w)
        }
    }
}

/// The mini tree's width: a third of the terminal, at most forty columns.
pub open spec fn mini_tree_width(term_width: nat) -> nat {
    if term_width / 3 < 40 { term_width / 3 } else { 40 }
}

/// A directory name in the mini tree: cut to the tree's width less seven
/// bytes, with an ellipsis, when longer than the width less four bytes.
pub open spec fn mini_name(name: Seq<char>, tw: nat, colors: bool) -> Seq<char> {
    if utf8_len(name) + 4 > tw {
        name.take(prefix_chars(name, tw - 7) as int) + "..."@ + paint(reset_code(), colors)
    } else {
        name
    }
}

/// A name can be cut as the mini tree cuts it: where it is cut, the cut
/// falls between characters.
pub open spec fn cuttable(name: Seq<char>, tw: nat) -> bool {
    utf8_len(name) + 4 > tw ==> utf8_len(name.take(prefix_chars(name, tw - 7) as int)) == tw - 7
}

/// The lines of the mini tree, before they are placed: the listed
/// directory's name, then its first directories, each on a branch.
pub open spec fn mini_tree_raw(label: Seq<char>, dirs: Seq<Seq<char>>, tw: nat, colors: bool) -> Seq<Seq<char>> {
    seq![paint("\x1b[1m"@, colors) + label + paint(reset_code(), colors)] + Seq::new(dirs.len(), |i: int|
        paint("\x1b[2m"@, colors) + (if i == dirs.len() - 1 { "└── "@ } else { "├── "@ }) + paint("\x1b[1;34m"@, colors)
            + mini_name(dirs[i], tw, colors) + paint(reset_code(), colors))
}

/// The mini tree as printed at the right edge of a terminal wider than 120
/// columns, where there are directories to show: the tree's lines, each after
/// the padding that leaves the first line's visible width and five columns,
/// the first line dimmed.
pub open spec fn mini_tree_text(label: Seq<char>, dirs: Seq<Seq<char>>, term_width: nat, colors: bool) -> Seq<Seq<char>> {
    if term_width <= 120 || dirs.len() == 0 {
        Seq::empty()
    } else {
        let tw = mini_tree_width(term_width);
        let tree = join_spec(mini_tree_raw(label, dirs, tw, colors), "\n"@);
        let plain = lines_text(strip_ansi_text(tree));
        let width: nat = if plain.len() > 0 { utf8_len(plain[0]) } else { 0 };
        let pad = spaces(term_width - (width + 5));
        let ls = lines_text(tree);
        Seq::new(ls.len(), |i: int| if i == 0 { pad + paint("\x1b[2m"@, colors) + ls[i] } else { pad + ls[i] })
    }
}

fn prefix_of(s: &[char], n: u128) -> (r: Vec<char>)
    ensures
        r@ == s@.take(prefix_chars(s@, n as int) as int),
{
    let mut budget: u128 = n;
    let mut i: usize = 0;
    assert(s@.skip(0) == s@);
    loop
        invariant
            i <= s@.len(),
            budget <= n,
            prefix_chars(s@, n as int) == i + prefix_chars(s@.skip(i as int), budget as int),
        ensures
            i <= s@.len(),
            prefix_chars(s@, n as int) == i,
        decreases s@.len() - i,
    {
        let ghost rest = s@.skip(i as int);
        if i == s.len() {
            assert(rest.len() == 0);
            break;
        }
        assert(rest[0] == s@[i as int]);
        let w = char_utf8_width(s[i]) as u128;
        if w > budget {
            break;
        }
        assert(rest.drop_first() == s@.skip(i + 1));
        budget = budget - w;
        i = i + 1;
    }
    let r = slice_chars(s, 0, i);
    assert(r@ == s@.take(i as int));
    r
}

/// The lines of the mini tree shown beside a listing: `label` is the listed
/// directory's name and `dirs` the names of its first (at most five) visible
/// directories.
pub fn mini_tree_lines(label: &str, dirs: &[String], term_width: usize, colors: bool) -> (r: Vec<String>)
    requires
        forall|i: int| 0 <= i < dirs@.len() ==> cuttable(#[trigger] dirs@[i]@, mini_tree_width(term_width as nat)),
    ensures
        views(r@) == mini_tree_text(label@, views(dirs@), term_width as nat, colors),
{
    if term_width <= 120 || dirs.len() == 0 {
        let r: Vec<String> = Vec::new();
        assert(views(r@) =~= Seq::<Seq<char>>::empty());
        return r;
    }
    let tw: usize = if term_width / 3 < 40 { term_width / 3 } else { 40 };
    assert(tw == 40);
    let ghost dv = views(dirs@);
    let mut raw: Vec<String> = Vec::new();
    let mut head = owned(color("\x1b[1m", colors));
    push_str(&mut head, label);
    push_str(&mut head, color("\x1b[0m", colors));
    raw.push(head);
    let mut i: usize = 0;
    while i < dirs.len()
        invariant
            i <= dirs@.len(),
            tw == 40,
            dv == views(dirs@),
            views(raw@) == mini_tree_raw(label@, dv, tw as nat, colors).take(i + 1),
            mini_tree_raw(label@, dv, tw as nat, colors).len() == dirs@.len() + 1,
        decreases dirs@.len() - i,
    {
        let mut line = owned(color("\x1b[2m", colors));
        if i == dirs.len() - 1 {
            push_str(&mut line, "└── ");
        } else {
            push_str(&mut line, "├── ");
        }
        push_str(&mut line, color("\x1b[1;34m", colors));
        let name = dirs[i].as_str();
        let nc = to_chars(name);
        let nl = nc.len();
        assert(nc@.len() == nl);
        let len = utf8_len_of(nc.as_slice());
        if len + 4 > 40 {
            let cut = prefix_of(nc.as_slice(), 33);
            let cs = crate::text::string_from_chars(cut.as_slice());
            push_str(&mut line, cs.as_str());
            push_str(&mut line, "...");
            push_str(&mut line, color("\x1b[0m", colors));
        } else {
            push_str(&mut line, name);
        }
        push_str(&mut line, color("\x1b[0m", colors));
        let ghost before = views(raw@);
        raw.push(line);
        proof {
            let all = mini_tree_raw(label@, dv, tw as nat, colors);
            assert(views(raw@) == before.push(line@));
            assert(all[i + 1] == line@);
            assert(all.take(i + 2) == all.take(i + 1).push(all[i + 1]));
        }
        i = i + 1;
    }
    let ghost rawv = mini_tree_raw(label@, dv, tw as nat, colors);
    assert(views(raw@) == rawv.take(rawv.len() as int));
    assert(rawv.take(rawv.len() as int) == rawv);
    let tree = join(raw.as_slice(), "\n");
    let plain = strip_ansi(tree.as_str());
    let pc = to_chars(plain.as_str());
    let pls = lines(pc.as_slice());
    let width: u128 = if pls.len() > 0 {
        let fl = pls[0].len();
        assert(pls@[0]@.len() == fl);
        utf8_len_of(pls[0].as_slice())
    } else {
        0
    };
    let mut pad = String::new();
    if (term_width as u128) > width + 5 {
        push_spaces(&mut pad, term_width as u128 - (width + 5));
    } else {
        assert(spaces(term_width - (width + 5)) == Seq::<char>::empty());
    }
    assert(pad@ == spaces(term_width - (width + 5)));
    let tc = to_chars(tree.as_str());
    let ls = lines(tc.as_slice());
    let ghost lt = lines_text(tree@);
    let mut out: Vec<String> = Vec::new();
    let mut k: usize = 0;
    while k < ls.len()
        invariant
            k <= ls@.len(),
            ls@.len() == lt.len(),
            lt == lines_text(tree@),
            forall|j: int| 0 <= j < ls@.len() ==> #[trigger] ls@[j]@ == lt[j],
            views(out@) == Seq::new(k as nat, |j: int| if j == 0 { pad@ + paint("\x1b[2m"@, colors) + lt[j] } else { pad@ + lt[j] }),
        decreases ls@.len() - k,
    {
        let mut line = owned(pad.as_str());
        if k == 0 {
            push_str(&mut line, color("\x1b[2m", colors));
        }
        let body = crate::text::string_from_chars(ls[k].as_slice());
        push_str(&mut line, body.as_str());
        assert(body@ == lt[k as int]);
        assert(line@ == (if k == 0 { pad@ + paint("\x1b[2m"@, colors) + lt[k as int] } else { pad@ + lt[k as int] }));
        let ghost before = views(out@);
        out.push(line);
        assert(views(out@) == before.push(line@));
        assert(views(out@) =~= Seq::new((k + 1) as nat, |j: int| if j == 0 { pad@ + paint("\x1b[2m"@, colors) + lt[j] } else { pad@ + lt[j] }));
        k = k + 1;
    }
    out
}

} // verus!
