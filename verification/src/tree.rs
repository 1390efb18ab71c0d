//! The tree view: which entries it shows, and its lines.

use vstd::prelude::*;
use crate::fs::{format_size_compact, size_compact_text};
use crate::text::{contains, has_infix, owned, push_str, to_chars, to_lowercase, unicode_lowercase};

verus! {

/// The tree shows an entry unless it is hidden and hidden entries are not
/// asked for, or a filter is given that its name, lower-cased, does not
/// contain, lower-cased.
pub open spec fn tree_keeps_spec(name: Seq<char>, show_hidden: bool, filter: Option<Seq<char>>) -> bool {
    !(!show_hidden && name.len() > 0 && name[0] == '.') && match filter {
        Some(p) => has_infix(unicode_lowercase(name), unicode_lowercase(p)),
        None => true,
    }
}

/// Whether the tree shows an entry named `name`.
pub fn tree_keeps(name: &str, show_hidden: bool, filter: Option<&str>) -> (r: bool)
    ensures
        r == tree_keeps_spec(name@, show_hidden, match filter { Some(p) => Some(p@), None => None }),
{
    let cs = to_chars(name);
    if !show_hidden && cs.len() > 0 && cs[0] == '.' {
        return false;
    }
    match filter {
        Some(p) => {
            let lower = to_lowercase(name);
            let lower_pat = to_lowercase(p);
            let l = to_chars(lower.as_str());
            let q = to_chars(lower_pat.as_str());
            contains(l.as_slice(), q.as_slice())
        },
        None => true,
    }
}

/// What `DateTime::<Utc>::from_timestamp(secs, nanos)` formatted with
/// `%Y-%m-%d %H:%M` prints (`2024-01-15 10:30`); `None` where
/// `from_timestamp` finds the time out of range.
pub uninterp spec fn utc_minute_text(secs: i64, nanos: u32) -> Option<Seq<char>>;

/// Formats a Unix time as a UTC date and minute with `chrono`.
#[verifier::external_body]
fn chrono_utc_minutes(secs: i64, nanos: u32) -> (r: Option<String>)
    ensures
        match r {
            Some(s) => utc_minute_text(secs, nanos) == Some(s@),
            None => utc_minute_text(secs, nanos) is None,
        },
{
    match chrono::DateTime::from_timestamp(secs, nanos) {
        Some(dt) => Some(dt.format("%Y-%m-%d %H:%M").to_string()),
        None => None,
    }
}

/// The connector of a tree line: the last entry of a level closes it.
pub open spec fn connector(is_last: bool) -> Seq<char> {
    if is_last { "└── "@ } else { "├── "@ }
}

/// The prefix of the lines one level deeper.
pub open spec fn child_prefix_text(prefix: Seq<char>, is_last: bool) -> Seq<char> {
    prefix + if is_last { "    "@ } else { "│   "@ }
}

/// The prefix for the entries of a directory at this level.
pub fn child_prefix(prefix: &str, is_last: bool) -> (r: String)
    ensures
        r@ == child_prefix_text(prefix@, is_last),
{
    let mut s = owned(prefix);
    if is_last {
        push_str(&mut s, "    ");
    } else {
        push_str(&mut s, "│   ");
    }
    s
}

/// The date of a file in the tree: its modification time to the minute, or
/// nothing where it is unknown or out of range.
pub open spec fn tree_date(modified: Option<(i64, u32)>) -> Seq<char> {
    match modified {
        Some(t) => match utc_minute_text(t.0, t.1) {
            Some(s) => s,
            None => Seq::empty(),
        },
        None => Seq::empty(),
    }
}

/// One line of the tree. A directory: the prefix, the connector, the icon
/// (📁 where icons are on), its name and `/`. A file: likewise with 📄 and
/// no `/`, followed, where its metadata could be read (`meta`: its size and
/// modification time), by a space, its compact size, a space and its date.
pub open spec fn tree_line_text(
    prefix: Seq<char>,
    is_last: bool,
    icons: bool,
    name: Seq<char>,
    is_dir: bool,
    meta: Option<(u64, Option<(i64, u32)>)>,
) -> Seq<char> {
    let head = prefix + connector(is_last);
    if is_dir {
        head + (if icons { "📁 "@ } else { Seq::empty() }) + name + "/"@
    } else {
        head + (if icons { "📄 "@ } else { Seq::empty() }) + name + match meta {
            Some((size, modified)) => " "@ + size_compact_text(size as nat) + " "@ + tree_date(modified),
            None => Seq::empty(),
        }
    }
}

/// Builds one line of the tree.
pub fn tree_line(
    prefix: &str,
    is_last: bool,
    icons: bool,
    name: &str,
    is_dir: bool,
    meta: Option<(u64, Option<(i64, u32)>)>,
) -> (r: String)
    ensures
        r@ == tree_line_text(prefix@, is_last, icons, name@, is_dir, meta),
{
    let mut s = owned(prefix);
    if is_last {
        push_str(&mut s, "└── ");
    } else {
        push_str(&mut s, "├── ");
    }
    let ghost head = s@;
    if is_dir {
        if icons {
            push_str(&mut s, "📁 ");
        } else {
            assert(s@ == s@ + Seq::<char>::empty());
        }
        push_str(&mut s, name);
        push_str(&mut s, "/");
    } else {
        if icons {
            push_str(&mut s, "📄 ");
        } else {
            assert(s@ == s@ + Seq::<char>::empty());
        }
        push_str(&mut s, name);
        match meta {
            Some((size, modified)) => {
                push_str(&mut s, " ");
                let sz = format_size_compact(size);
                push_str(&mut s, sz.as_str());
                push_str(&mut s, " ");
                match modified {
                    Some(t) => match chrono_utc_minutes(t.0, t.1) {
                        Some(d) => push_str(&mut s, d.as_str()),
                        None => {},
                    },
                    None => {},
                }
                assert(s@ =~= tree_line_text(prefix@, is_last, icons, name@, is_dir, meta));
            },
            None => {
                assert(s@ =~= tree_line_text(prefix@, is_last, icons, name@, is_dir, meta));
            },
        }
    }
    s
}

} // verus!
