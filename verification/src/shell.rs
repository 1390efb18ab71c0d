//! Shell integration: which shell and rc file are the user's, the hook block
//! that `uninstall-hook` takes out of the rc file, and the source line that
//! `install` adds to an rc file and `uninstall` takes out again.

use vstd::prelude::*;
use crate::git::{opt_text_view, views_of_chars};
use crate::parse::{lines, lines_text, trim_chars, trim_text};
use crate::text::{
    chars_eq, contains, has_infix, has_prefix, join, join_spec, last_index_of, owned, push_str,
    rfind_char, slice_chars, starts_with, string_from_chars, str_eq, to_chars, views,
};

verus! {

/// The name of the user's shell: what follows the last `/` of `$SHELL`,
/// taken as `/bin/sh` where it is unset.
pub open spec fn shell_name_text(var: Option<Seq<char>>) -> Seq<char> {
    let s = match var {
        Some(v) => v,
        None => "/bin/sh"@,
    };
    match last_index_of(s, '/') {
        Some(i) => s.skip(i + 1),
        None => s,
    }
}

/// The user's shell from the value of `$SHELL`, if it is set.
pub fn shell_name(var: Option<&str>) -> (r: String)
    ensures
        r@ == shell_name_text(match var { Some(v) => Some(v@), None => None }),
{
    let s = match var {
        Some(v) => to_chars(v),
        None => to_chars("/bin/sh"),
    };
    match rfind_char(s.as_slice(), '/') {
        Some(i) => {
            assert(i < s.len());
            let t = slice_chars(s.as_slice(), i + 1, s.len());
            assert(t@ == s@.skip(i + 1));
            string_from_chars(t.as_slice())
        },
        None => string_from_chars(s.as_slice()),
    }
}

/// The rc file of a shell, relative to the home directory.
pub open spec fn shell_config_text(shell: Seq<char>) -> Seq<char> {
    if shell == "zsh"@ {
        ".zshrc"@
    } else if shell == "bash"@ {
        ".bashrc"@
    } else if shell == "fish"@ {
        ".config/fish/config.fish"@
    } else {
        ".profile"@
    }
}

/// The rc file of `shell`, relative to the home directory.
pub fn shell_config_file(shell: &str) -> (r: &'static str)
    ensures
        r@ == shell_config_text(shell@),
{
    if str_eq(shell, "zsh") {
        ".zshrc"
    } else if str_eq(shell, "bash") {
        ".bashrc"
    } else if str_eq(shell, "fish") {
        ".config/fish/config.fish"
    } else {
        ".profile"
    }
}

/// The line that opens the hook block.
pub open spec fn hook_start() -> Seq<char> {
    "# f auto-banner hook"@
}

/// The line that closes the hook block of `shell`.
pub open spec fn hook_end(shell: Seq<char>) -> Seq<char> {
    if shell == "bash"@ {
        "PROMPT_COMMAND=\"_f_hook${PROMPT_COMMAND:+;$PROMPT_COMMAND}\""@
    } else {
        "_f_hook  # fire on new shell/tab startup"@
    }
}

/// The hook block's closing line for `shell`.
pub fn hook_end_line(shell: &str) -> (r: &'static str)
    ensures
        r@ == hook_end(shell@),
{
    if str_eq(shell, "bash") {
        "PROMPT_COMMAND=\"_f_hook${PROMPT_COMMAND:+;$PROMPT_COMMAND}\""
    } else {
        "_f_hook  # fire on new shell/tab startup"
    }
}

/// The pass over the lines that drops hook blocks: whether it is inside a
/// block, whether it met an opening line, and the lines kept. An opening line
/// starts a block (again); inside a block the closing line ends it; every
/// line outside a block is kept. Lines are compared trimmed.
pub open spec fn hook_scan(ls: Seq<Seq<char>>, end: Seq<char>) -> (bool, bool, Seq<Seq<char>>)
    decreases ls.len(),
{
    if ls.len() == 0 {
        (false, false, Seq::empty())
    } else {
        let prev = hook_scan(ls.drop_last(), end);
        let l = ls.last();
        if trim_text(l) == hook_start() {
            (true, true, prev.2)
        } else if prev.0 && trim_text(l) == end {
            (false, prev.1, prev.2)
        } else if !prev.0 {
            (false, prev.1, prev.2.push(l))
        } else {
            prev
        }
    }
}

/// `ls` without the lines that read `autoload -U add-zsh-hook` once trimmed.
pub open spec fn without_autoload(ls: Seq<Seq<char>>) -> Seq<Seq<char>>
    decreases ls.len(),
{
    if ls.len() == 0 {
        Seq::empty()
    } else if trim_text(ls.last()) == "autoload -U add-zsh-hook"@ {
        without_autoload(ls.drop_last())
    } else {
        without_autoload(ls.drop_last()).push(ls.last())
    }
}

/// `ls` without the blank lines at its end.
pub open spec fn drop_trailing_blank(ls: Seq<Seq<char>>) -> Seq<Seq<char>>
    decreases ls.len(),
{
    if ls.len() > 0 && trim_text(ls.last()).len() == 0 {
        drop_trailing_blank(ls.drop_last())
    } else {
        ls
    }
}

/// The rc file `content` without the hook block of `shell` (and, for zsh,
/// without the `autoload` line and trailing blank lines), one line ending
/// after each line; `None` where no line opens a hook block.
pub open spec fn hook_removed_text(content: Seq<char>, shell: Seq<char>) -> Option<Seq<char>> {
    let st = hook_scan(lines_text(content), hook_end(shell));
    if !st.1 {
        None
    } else {
        let kept = if shell == "zsh"@ { without_autoload(st.2) } else { st.2 };
        Some(join_spec(drop_trailing_blank(kept), "\n"@) + "\n"@)
    }
}

fn lines_of(content: &str) -> (r: Vec<Vec<char>>)
    ensures
        views_of_chars(r@) == lines_text(content@),
{
    let cs = to_chars(content);
    let r = lines(cs.as_slice());
    assert(views_of_chars(r@) =~= lines_text(content@));
    r
}

fn trimmed_is(line: &[char], s: &str) -> (r: bool)
    ensures
        r == (trim_text(line@) == s@),
{
    let t = trim_chars(line);
    let w = to_chars(s);
    chars_eq(t.as_slice(), w.as_slice())
}

fn push_string(v: &mut Vec<String>, s: String)
    ensures
        views(final(v)@) == views(old(v)@).push(s@),
{
    let ghost before = v@;
    v.push(s);
    assert(views(v@) == views(before).push(s@));
}

/// Takes the hook block of `shell` out of the rc file `content`; `None`
/// where the file holds no hook block.
pub fn remove_hook_block(content: &str, shell: &str) -> (r: Option<String>)
    ensures
        opt_text_view(r) == hook_removed_text(content@, shell@),
{
    let ls = lines_of(content);
    let ghost lv = views_of_chars(ls@);
    let end = hook_end_line(shell);
    let mut skip = false;
    let mut found = false;
    let mut kept: Vec<String> = Vec::new();
    let mut i: usize = 0;
    while i < ls.len()
        invariant
            i <= ls@.len(),
            lv == views_of_chars(ls@),
            lv == lines_text(content@),
            end@ == hook_end(shell@),
            (skip, found, views(kept@)) == hook_scan(lv.take(i as int), end@),
        decreases ls@.len() - i,
    {
        let ghost pre = lv.take(i + 1);
        assert(pre.drop_last() == lv.take(i as int));
        assert(pre.last() == ls@[i as int]@);
        let line = ls[i].as_slice();
        if trimmed_is(line, "# f auto-banner hook") {
            skip = true;
            found = true;
        } else if skip && trimmed_is(line, end) {
            skip = false;
        } else if !skip {
            push_string(&mut kept, string_from_chars(line));
        }
        i = i + 1;
    }
    assert(lv.take(lv.len() as int) == lv);
    if !found {
        return None;
    }
    let ghost scanned = views(kept@);
    if str_eq(shell, "zsh") {
        let mut filtered: Vec<String> = Vec::new();
        let mut j: usize = 0;
        while j < kept.len()
            invariant
                j <= kept@.len(),
                scanned == views(kept@),
                views(filtered@) == without_autoload(scanned.take(j as int)),
            decreases kept@.len() - j,
        {
            let ghost pre = scanned.take(j + 1);
            assert(pre.drop_last() == scanned.take(j as int));
            assert(pre.last() == kept@[j as int]@);
            let cs = to_chars(kept[j].as_str());
            if !trimmed_is(cs.as_slice(), "autoload -U add-zsh-hook") {
                push_string(&mut filtered, owned(kept[j].as_str()));
            }
            j = j + 1;
        }
        assert(scanned.take(scanned.len() as int) == scanned);
        kept = filtered;
    }
    let ghost before_drop = views(kept@);
    loop
        invariant
            drop_trailing_blank(views(kept@)) == drop_trailing_blank(before_drop),
        ensures
            views(kept@) == drop_trailing_blank(before_drop),
        decreases kept@.len(),
    {
        let n = kept.len();
        if n == 0 {
            assert(views(kept@).len() == 0);
            break;
        }
        let cs = to_chars(kept[n - 1].as_str());
        let t = trim_chars(cs.as_slice());
        assert(views(kept@).last() == kept@[n - 1]@);
        if t.len() != 0 {
            break;
        }
        let ghost v = views(kept@);
        kept.pop();
        assert(views(kept@) == v.drop_last());
    }
    let mut out = join(kept.as_slice(), "\n");
    push_str(&mut out, "\n");
    Some(out)
}

/// The line that sources a wrapper from `bin_dir`, unquoted.
pub open spec fn source_plain(bin_dir: Seq<char>, wrapper: Seq<char>) -> Seq<char> {
    "source "@ + bin_dir + "/"@ + wrapper
}

/// The line that sources a wrapper from `bin_dir`, its path quoted.
pub open spec fn source_quoted(bin_dir: Seq<char>, wrapper: Seq<char>) -> Seq<char> {
    "source '"@ + bin_dir + "/"@ + wrapper + "'"@
}

/// Some line of `content`, trimmed, is `needle` trimmed.
pub open spec fn has_line(content: Seq<char>, needle: Seq<char>) -> bool {
    exists|i: int| 0 <= i < lines_text(content).len() && trim_text(#[trigger] lines_text(content)[i]) == trim_text(needle)
}

/// The rc file `content` with the marker comment and the quoted source line
/// of `wrapper` appended; `None` where it already sources the wrapper, quoted
/// or not.
pub open spec fn with_source_line_text(content: Seq<char>, bin_dir: Seq<char>, wrapper: Seq<char>) -> Option<Seq<char>> {
    if has_line(content, source_plain(bin_dir, wrapper)) || has_line(content, source_quoted(bin_dir, wrapper)) {
        None
    } else {
        Some(content + "\n# f shell function (for cd support)\n"@ + source_quoted(bin_dir, wrapper) + "\n"@)
    }
}

fn content_has_line(ls: &[Vec<char>], needle: &str) -> (r: bool)
    ensures
        r == (exists|i: int| 0 <= i < ls@.len() && trim_text(#[trigger] views_of_chars(ls@)[i]) == trim_text(needle@)),
{
    let nc = to_chars(needle);
    let n = trim_chars(nc.as_slice());
    let mut i: usize = 0;
    while i < ls.len()
        invariant
            i <= ls@.len(),
            n@ == trim_text(needle@),
            forall|k: int| 0 <= k < i ==> trim_text(#[trigger] views_of_chars(ls@)[k]) != trim_text(needle@),
        decreases ls@.len() - i,
    {
        let t = trim_chars(ls[i].as_slice());
        if chars_eq(t.as_slice(), n.as_slice()) {
            assert(views_of_chars(ls@)[i as int] == ls@[i as int]@);
            return true;
        }
        assert(views_of_chars(ls@)[i as int] == ls@[i as int]@);
        i = i + 1;
    }
    false
}

/// Adds the source line of `wrapper` (in `bin_dir`) to the rc file `content`;
/// `None` where it is there already.
pub fn add_source_line(content: &str, bin_dir: &str, wrapper: &str) -> (r: Option<String>)
    ensures
        opt_text_view(r) == with_source_line_text(content@, bin_dir@, wrapper@),
{
    let ls = lines_of(content);
    let mut plain = owned("source ");
    push_str(&mut plain, bin_dir);
    push_str(&mut plain, "/");
    push_str(&mut plain, wrapper);
    let mut quoted = owned("source '");
    push_str(&mut quoted, bin_dir);
    push_str(&mut quoted, "/");
    push_str(&mut quoted, wrapper);
    push_str(&mut quoted, "'");
    if content_has_line(ls.as_slice(), plain.as_str()) || content_has_line(ls.as_slice(), quoted.as_str()) {
        return None;
    }
    let mut out = owned(content);
    push_str(&mut out, "\n# f shell function (for cd support)\n");
    push_str(&mut out, quoted.as_str());
    push_str(&mut out, "\n");
    Some(out)
}

/// A line that `install` wrote: its marker comment, or a line that sources
/// one of the wrappers (compared trimmed).
pub open spec fn installed_line(line: Seq<char>) -> bool {
    let t = trim_text(line);
    let sources = has_prefix(t, "source "@) || has_prefix(t, "source '"@);
    t == "# f shell function (for cd support)"@ || sources && has_infix(t, "fab-shell.zsh"@)
        || sources && has_infix(t, "fab-shell.bash"@)
}

/// The lines of `ls` that `install` did not write, in order.
pub open spec fn kept_rc_lines(ls: Seq<Seq<char>>) -> Seq<Seq<char>>
    decreases ls.len(),
{
    if ls.len() == 0 {
        Seq::empty()
    } else if installed_line(ls.last()) {
        kept_rc_lines(ls.drop_last())
    } else {
        kept_rc_lines(ls.drop_last()).push(ls.last())
    }
}

/// The rc file `content` without the lines `install` wrote, one line ending
/// after each line; `None` where it holds none of them.
pub open spec fn uninstalled_text(content: Seq<char>) -> Option<Seq<char>> {
    let ls = lines_text(content);
    let kept = kept_rc_lines(ls);
    if kept.len() == ls.len() {
        None
    } else {
        Some(join_spec(kept, "\n"@) + "\n"@)
    }
}

fn is_installed_line(line: &[char]) -> (r: bool)
    ensures
        r == installed_line(line@),
{
    let t = trim_chars(line);
    let ts = t.as_slice();
    let sources = starts_with(ts, to_chars("source ").as_slice()) || starts_with(ts, to_chars("source '").as_slice());
    let marker = chars_eq(ts, to_chars("# f shell function (for cd support)").as_slice());
    marker || sources && contains(ts, to_chars("fab-shell.zsh").as_slice())
        || sources && contains(ts, to_chars("fab-shell.bash").as_slice())
}

/// Takes the lines that `install` wrote out of the rc file `content`; `None`
/// where there are none.
pub fn remove_source_lines(content: &str) -> (r: Option<String>)
    ensures
        opt_text_view(r) == uninstalled_text(content@),
{
    let ls = lines_of(content);
    let ghost lv = views_of_chars(ls@);
    let mut kept: Vec<String> = Vec::new();
    let mut i: usize = 0;
    while i < ls.len()
        invariant
            i <= ls@.len(),
            lv == views_of_chars(ls@),
            views(kept@) == kept_rc_lines(lv.take(i as int)),
        decreases ls@.len() - i,
    {
        let ghost pre = lv.take(i + 1);
        assert(pre.drop_last() == lv.take(i as int));
        assert(pre.last() == ls@[i as int]@);
        if !is_installed_line(ls[i].as_slice()) {
            push_string(&mut kept, string_from_chars(ls[i].as_slice()));
        }
        i = i + 1;
    }
    assert(lv.take(lv.len() as int) == lv);
    if kept.len() == ls.len() {
        return None;
    }
    let mut out = join(kept.as_slice(), "\n");
    push_str(&mut out, "\n");
    Some(out)
}

/// The hint printed after `install`: how to load the wrappers into the
/// running shell, for each rc file that was processed.
pub open spec fn reload_hint_text(bin_dir: Seq<char>, zsh: bool, bash: bool) -> Seq<Seq<char>> {
    seq![Seq::empty(), "🔄 Activate the shell function in your CURRENT terminal:"@]
        + (if zsh { seq!["    source "@ + bin_dir + "/fab-shell.zsh"@] } else { Seq::empty() })
        + (if bash { seq!["    source "@ + bin_dir + "/fab-shell.bash"@] } else { Seq::empty() })
        + seq![Seq::empty(), "(The source line in your rc file only affects new shells.)"@]
}

/// Builds the lines of the reload hint.
pub fn reload_hint_lines(bin_dir: &str, zsh: bool, bash: bool) -> (r: Vec<String>)
    ensures
        views(r@) == reload_hint_text(bin_dir@, zsh, bash),
{
    let mut r: Vec<String> = Vec::new();
    push_string(&mut r, String::new());
    push_string(&mut r, owned("🔄 Activate the shell function in your CURRENT terminal:"));
    let ghost head = views(r@);
    if zsh {
        let mut s = owned("    source ");
        push_str(&mut s, bin_dir);
        push_str(&mut s, "/fab-shell.zsh");
        push_string(&mut r, s);
    }
    let ghost mid = views(r@);
    assert(mid == head + (if zsh { seq!["    source "@ + bin_dir@ + "/fab-shell.zsh"@] } else { Seq::<Seq<char>>::empty() }));
    if bash {
        let mut s = owned("    source ");
        push_str(&mut s, bin_dir);
        push_str(&mut s, "/fab-shell.bash");
        push_string(&mut r, s);
    }
    let ghost mid2 = views(r@);
    assert(mid2 == mid + (if bash { seq!["    source "@ + bin_dir@ + "/fab-shell.bash"@] } else { Seq::<Seq<char>>::empty() }));
    push_string(&mut r, String::new());
    push_string(&mut r, owned("(The source line in your rc file only affects new shells.)"));
    r
}

} // verus!
