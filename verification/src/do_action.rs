//! Acting on piped paths: which paths were received, which action is asked
//! for, the command run per path, and the line-count report.

use vstd::prelude::*;
use crate::parse::{lines, lines_text, trim_text};
use crate::ports::{words, words_of};
use crate::text::{dec_digits, owned, push_char, push_str, push_u64, replace, replace_all, str_eq, string_from_chars, to_chars, views};

verus! {

/// The non-blank lines of the input, in order.
pub open spec fn received_paths(ls: Seq<Seq<char>>) -> Seq<Seq<char>>
    decreases ls.len(),
{
    if ls.len() == 0 {
        Seq::empty()
    } else {
        let prev = received_paths(ls.drop_last());
        if trim_text(ls.last()).len() > 0 {
            prev.push(ls.last())
        } else {
            prev
        }
    }
}

/// The paths piped on standard input: its non-blank lines.
pub fn stdin_paths(input: &str) -> (r: Vec<String>)
    ensures
        views(r@) == received_paths(lines_text(input@)),
{
    let cs = to_chars(input);
    let ls = lines(cs.as_slice());
    let ghost lt = lines_text(input@);
    let mut r: Vec<String> = Vec::new();
    let mut i: usize = 0;
    while i < ls.len()
        invariant
            i <= ls@.len(),
            ls@.len() == lt.len(),
            forall|j: int| 0 <= j < ls@.len() ==> #[trigger] ls@[j]@ == lt[j],
            views(r@) == received_paths(lt.take(i as int)),
        decreases ls@.len() - i,
    {
        assert(lt.take(i + 1).drop_last() == lt.take(i as int));
        assert(lt.take(i + 1).last() == lt[i as int]);
        let t = crate::parse::trim_chars(ls[i].as_slice());
        if t.len() > 0 {
            let ghost before = r@;
            r.push(string_from_chars(ls[i].as_slice()));
            assert(views(r@) =~= views(before).push(lt[i as int]));
        }
        i = i + 1;
    }
    assert(lt.take(lt.len() as int) == lt);
    r
}

/// What to do with the received paths.
#[derive(Debug, Clone)]
pub enum DoAction {
    /// Print each path.
    List,
    /// Count the lines of each file.
    Count,
    /// Move each existing path to the trash.
    Trash,
    /// Open each path with the desktop's opener.
    Open,
    /// Print each file's contents.
    Cat,
    /// Run a command per path, `{}` standing for the path.
    Custom(String),
}

/// The built-in action a name stands for; `None` for a command template.
pub open spec fn named_action(n: Seq<char>) -> Option<DoAction> {
    if n == "list"@ {
        Some(DoAction::List)
    } else if n == "count"@ {
        Some(DoAction::Count)
    } else if n == "delete"@ || n == "trash"@ {
        Some(DoAction::Trash)
    } else if n == "open"@ {
        Some(DoAction::Open)
    } else if n == "cat"@ || n == "show"@ {
        Some(DoAction::Cat)
    } else {
        None
    }
}

/// Reads the action name.
pub fn parse_do_action(name: Option<&str>) -> (r: DoAction)
    ensures
        match name {
            Some(n) => match named_action(n@) {
                Some(a) => r == a,
                None => r matches DoAction::Custom(t) && t@ == n@,
            },
            None => r == DoAction::List,
        },
{
    match name {
        None => DoAction::List,
        Some(n) => {
            if str_eq(n, "list") {
                DoAction::List
            } else if str_eq(n, "count") {
                DoAction::Count
            } else if str_eq(n, "delete") || str_eq(n, "trash") {
                DoAction::Trash
            } else if str_eq(n, "open") {
                DoAction::Open
            } else if str_eq(n, "cat") || str_eq(n, "show") {
                DoAction::Cat
            } else {
                DoAction::Custom(owned(n))
            }
        },
    }
}

/// The command for one path: the template with `{}` replaced by the path,
/// and its whitespace-separated words (program first).
pub fn custom_command(template: &str, path: &str) -> (r: (String, Vec<String>))
    ensures
        r.0@ == replace_all(template@, "{}"@, path@),
        views(r.1@) == words(replace_all(template@, "{}"@, path@)),
{
    let cmd = replace(template, "{}", path);
    let cs = to_chars(cmd.as_str());
    let ws = words_of(cs.as_slice());
    let mut out: Vec<String> = Vec::new();
    let mut i: usize = 0;
    while i < ws.len()
        invariant
            i <= ws@.len(),
            cs@ == cmd@,
            ws@.len() == words(cs@).len(),
            forall|k: int| 0 <= k < ws@.len() ==> #[trigger] ws@[k]@ == words(cs@)[k],
            views(out@) == words(cs@).take(i as int),
        decreases ws@.len() - i,
    {
        let ghost before = out@;
        out.push(string_from_chars(ws[i].as_slice()));
        assert(views(out@) =~= views(before).push(words(cs@)[i as int]));
        assert(words(cs@).take(i + 1) == words(cs@).take(i as int).push(words(cs@)[i as int]));
        i = i + 1;
    }
    assert(words(cs@).take(ws@.len() as int) == words(cs@));
    (cmd, out)
}

/// The number of lines of a file's contents (`str::lines().count()`).
pub fn count_lines(content: &str) -> (r: usize)
    ensures
        r == lines_text(content@).len(),
{
    let cs = to_chars(content);
    lines(cs.as_slice()).len()
}

/// `n` right-aligned in a field of six characters.
pub open spec fn pad6(n: nat) -> Seq<char> {
    let d = dec_digits(n);
    if d.len() < 6 {
        Seq::new((6 - d.len()) as nat, |i: int| ' ') + d
    } else {
        d
    }
}

/// One line of the count report: the line count right-aligned in six
/// characters, a space, the path.
pub fn count_line(lines: usize, path: &str) -> (r: String)
    ensures
        r@ == pad6(lines as nat) + " "@ + path@,
{
    let mut digits = String::new();
    push_u64(&mut digits, lines as u64);
    let dc = to_chars(digits.as_str());
    let mut s = String::new();
    if dc.len() < 6 {
        let pad = 6 - dc.len();
        let mut k: usize = 0;
        while k < pad
            invariant
                k <= pad,
                s@ == Seq::new(k as nat, |i: int| ' '),
            decreases pad - k,
        {
            push_char(&mut s, ' ');
            assert(s@ =~= Seq::new((k + 1) as nat, |i: int| ' '));
            k = k + 1;
        }
    }
    push_str(&mut s, digits.as_str());
    push_str(&mut s, " ");
    push_str(&mut s, path);
    assert(s@ =~= pad6(lines as nat) + " "@ + path@);
    s
}

/// The closing line of the count report.
pub fn count_total(total_lines: usize, total_files: usize) -> (r: String)
    ensures
        r@ == "\n📊 Total: "@ + dec_digits(total_lines as nat) + " lines in "@ + dec_digits(total_files as nat) + " files"@,
{
    let mut s = owned("\n📊 Total: ");
    push_u64(&mut s, total_lines as u64);
    push_str(&mut s, " lines in ");
    push_u64(&mut s, total_files as u64);
    push_str(&mut s, " files");
    s
}

} // verus!
