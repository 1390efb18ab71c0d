//! Command-line routing: numbers navigate, known subcommands go to the
//! parser, explicit paths are shown, and bare words are chains of
//! single-letter flags (`f trc` is `f -t -r -c`).

use vstd::prelude::*;
use crate::parse::{parse_usize_text, parse_usize};
use crate::text::{owned, push_char, str_eq, to_chars, views};

verus! {

/// Single-character short flags that can be used as lazy flags.
pub open spec fn lazy_flags() -> Seq<char> {
    seq!['a', 'c', 'D', 'e', 'f', 'G', 'L', 'm', 'o', 'r', 'R', 'S', 't', 'U', 'v', 'x', 'X']
}

/// Lowercase aliases for uppercase flags (only letters that are not flags themselves).
pub open spec fn lowercase_aliases() -> Seq<(char, char)> {
    seq![('s', 'S'), ('g', 'G'), ('d', 'D'), ('l', 'L'), ('u', 'U')]
}

/// The canonical lazy flag a character stands for.
pub open spec fn lazy_flag_of(c: char) -> Option<char> {
    if lazy_flags().contains(c) {
        Some(c)
    } else if exists|i: int| 0 <= i < lowercase_aliases().len() && lowercase_aliases()[i].0 == c {
        Some(lowercase_aliases()[choose|i: int| 0 <= i < lowercase_aliases().len() && lowercase_aliases()[i].0 == c].1)
    } else {
        None
    }
}

/// Resolve a single character to its canonical lazy-flag form
/// (e.g. `s` → `S`). Returns `None` if the char is not a lazy flag.
pub fn resolve_lazy_flag_char(c: char) -> (r: Option<char>)
    ensures
        r == lazy_flag_of(c),
{
    let flags = ['a', 'c', 'D', 'e', 'f', 'G', 'L', 'm', 'o', 'r', 'R', 'S', 't', 'U', 'v', 'x', 'X'];
    assert(flags@ == lazy_flags());
    let mut i: usize = 0;
    while i < flags.len()
        invariant
            i <= flags@.len(),
            flags@ == lazy_flags(),
            forall|k: int| 0 <= k < i ==> flags@[k] != c,
        decreases flags@.len() - i,
    {
        if flags[i] == c {
            assert(lazy_flags().contains(c));
            return Some(c);
        }
        i = i + 1;
    }
    assert(!lazy_flags().contains(c));
    let aliases = [('s', 'S'), ('g', 'G'), ('d', 'D'), ('l', 'L'), ('u', 'U')];
    assert(aliases@ == lowercase_aliases());
    let mut j: usize = 0;
    while j < aliases.len()
        invariant
            j <= aliases@.len(),
            aliases@ == lowercase_aliases(),
            !lazy_flags().contains(c),
            forall|k: int| 0 <= k < j ==> aliases@[k].0 != c,
        decreases aliases@.len() - j,
    {
        if aliases[j].0 == c {
            let ghost w = choose|i: int| 0 <= i < lowercase_aliases().len() && lowercase_aliases()[i].0 == c;
            assert(w == j as int) by {
                if w < j {
                } else if w > j {
                    assert(lowercase_aliases()[w].0 == c);
                }
            }
            return Some(aliases[j].1);
        }
        j = j + 1;
    }
    None
}

/// Every character of `arg` resolved, or `None` when one is not a lazy flag
/// (or `arg` is empty).
pub open spec fn expand_text(arg: Seq<char>) -> Option<Seq<char>> {
    if arg.len() > 0 && (forall|i: int| 0 <= i < arg.len() ==> #[trigger] lazy_flag_of(arg[i]) is Some) {
        Some(arg.map_values(|c: char| lazy_flag_of(c)->0))
    } else {
        None
    }
}

/// Expand a multi-character arg into a list of canonical lazy flags.
pub fn expand_lazy_flags(arg: &str) -> (r: Option<Vec<char>>)
    ensures
        match r {
            Some(v) => expand_text(arg@) == Some(v@),
            None => expand_text(arg@) is None,
        },
{
    let cs = to_chars(arg);
    if cs.len() == 0 {
        return None;
    }
    let mut result: Vec<char> = Vec::new();
    let mut i: usize = 0;
    while i < cs.len()
        invariant
            cs@ == arg@,
            i <= cs@.len(),
            result@ == cs@.take(i as int).map_values(|c: char| lazy_flag_of(c)->0),
            forall|k: int| 0 <= k < i ==> #[trigger] lazy_flag_of(cs@[k]) is Some,
        decreases cs@.len() - i,
    {
        match resolve_lazy_flag_char(cs[i]) {
            Some(f) => {
                result.push(f);
                assert(cs@.take(i + 1).map_values(|c: char| lazy_flag_of(c)->0) =~= cs@.take(i as int).map_values(|c: char| lazy_flag_of(c)->0).push(f));
            },
            None => {
                return None;
            },
        }
        i = i + 1;
    }
    assert(cs@.take(cs@.len() as int) == cs@);
    Some(result)
}

/// Returns true if the arg looks like an explicit path (starts with
/// `.`, `/`, or `~`).
pub fn is_explicit_path(arg: &str) -> (r: bool)
    ensures
        r == (arg@.len() > 0 && (arg@[0] == '.' || arg@[0] == '/' || arg@[0] == '~')),
{
    let cs = to_chars(arg);
    if cs.len() == 0 {
        return false;
    }
    let first = cs[0];
    first == '.' || first == '/' || first == '~'
}

/// Subcommands the argument parser handles itself.
pub open spec fn known_subcommands() -> Seq<Seq<char>> {
    seq!["banner"@, "env"@, "install"@, "config"@, "daemon"@, "help"@]
}

/// How the command line is handed to the argument parser.
pub enum Route {
    /// Parse the process's own arguments.
    AsGiven,
    /// Parse these arguments instead.
    Rewritten(Vec<String>),
}

/// The first argument that does not start with `-`.
pub open spec fn first_non_flag(args: Seq<Seq<char>>) -> Option<int> {
    if exists|i: int| 0 <= i < args.len() && !(args[i].len() > 0 && args[i][0] == '-') {
        Some(choose|i: int| 0 <= i < args.len() && !(args[i].len() > 0 && args[i][0] == '-') && forall|j: int| 0 <= j < i ==> args[j].len() > 0 && args[j][0] == '-')
    } else {
        None
    }
}

/// `-c` for each flag character.
pub open spec fn dashed(flags: Seq<char>) -> Seq<Seq<char>> {
    flags.map_values(|c: char| seq!['-', c])
}

/// The arguments with every copy of `word` replaced by the dashed flags.
pub open spec fn substitute(args: Seq<Seq<char>>, word: Seq<char>, flags: Seq<char>) -> Seq<Seq<char>>
    decreases args.len(),
{
    if args.len() == 0 {
        Seq::empty()
    } else {
        let prev = substitute(args.drop_last(), word, flags);
        if args.last() == word {
            prev + dashed(flags)
        } else {
            prev.push(args.last())
        }
    }
}

/// The routing rule: numbers navigate (banner), known subcommands go as
/// given, explicit paths go to the banner, chains of lazy flags are spelled
/// out, and any other word is taken as a path for the banner. Without a
/// non-flag argument the arguments go as given.
pub open spec fn route_text(args: Seq<Seq<char>>) -> Option<Seq<Seq<char>>> {
    let banner = seq!["f"@, "banner"@];
    match first_non_flag(args) {
        None => None,
        Some(i) => {
            let a = args[i];
            if parse_usize_text(a) is Some {
                Some(banner + args)
            } else if known_subcommands().contains(a) {
                None
            } else if a.len() > 0 && (a[0] == '.' || a[0] == '/' || a[0] == '~') {
                Some(banner + args)
            } else {
                match expand_text(a) {
                    Some(flags) => Some(banner + substitute(args, a, flags)),
                    None => Some(banner + args),
                }
            }
        },
    }
}

pub open spec fn route_view(r: Route) -> Option<Seq<Seq<char>>> {
    match r {
        Route::AsGiven => None,
        Route::Rewritten(v) => Some(views(v@)),
    }
}

fn is_known_subcommand(a: &str) -> (r: bool)
    ensures
        r == known_subcommands().contains(a@),
{
    let names = ["banner", "env", "install", "config", "daemon", "help"];
    let ghost ks = known_subcommands();
    assert forall|i: int| 0 <= i < ks.len() implies #[trigger] names@[i]@ == ks[i] by {}
    let mut i: usize = 0;
    while i < names.len()
        invariant
            i <= names@.len(),
            names@.len() == ks.len(),
            ks == known_subcommands(),
            forall|k: int| 0 <= k < ks.len() ==> #[trigger] names@[k]@ == ks[k],
            forall|k: int| 0 <= k < i ==> ks[k] != a@,
        decreases names@.len() - i,
    {
        if str_eq(a, names[i]) {
            assert(ks[i as int] == a@);
            return true;
        }
        i = i + 1;
    }
    assert(!ks.contains(a@)) by {
        if ks.contains(a@) {
            let k = choose|k: int| 0 <= k < ks.len() && ks[k] == a@;
        }
    }
    false
}

fn copy_strings(v: &[String]) -> (r: Vec<String>)
    ensures
        views(r@) == views(v@),
{
    let mut r: Vec<String> = Vec::new();
    let mut i: usize = 0;
    while i < v.len()
        invariant
            i <= v@.len(),
            views(r@) == views(v@.take(i as int)),
        decreases v@.len() - i,
    {
        r.push(owned(v[i].as_str()));
        assert(views(v@.take(i + 1)) == views(v@.take(i as int)).push(v@[i as int]@));
        i = i + 1;
    }
    assert(v@.take(v@.len() as int) == v@);
    r
}

fn banner_prefix() -> (r: Vec<String>)
    ensures
        views(r@) == seq!["f"@, "banner"@],
{
    let mut r: Vec<String> = Vec::new();
    r.push(owned("f"));
    r.push(owned("banner"));
    assert(views(r@) =~= seq!["f"@, "banner"@]);
    r
}

/// Decides how the command line (without the program name) is parsed.
pub fn route_args(args: &[String]) -> (r: Route)
    ensures
        route_view(r) == route_text(views(args@)),
{
    let ghost av = views(args@);
    let mut i: usize = 0;
    let mut found = false;
    while i < args.len() && !found
        invariant
            i <= args@.len(),
            av == views(args@),
            forall|j: int| 0 <= j < i ==> av[j].len() > 0 && av[j][0] == '-',
            found ==> i < args@.len() && !(av[i as int].len() > 0 && av[i as int][0] == '-'),
        decreases args@.len() - i, if found { 0int } else { 1int },
    {
        let c = to_chars(args[i].as_str());
        assert(c@ == av[i as int]);
        if !(c.len() > 0 && c[0] == '-') {
            found = true;
        } else {
            i = i + 1;
        }
    }
    if !found {
        assert(first_non_flag(av) is None);
        return Route::AsGiven;
    }
    proof {
        let w = choose|k: int| 0 <= k < av.len() && !(av[k].len() > 0 && av[k][0] == '-') && forall|j: int| 0 <= j < k ==> av[j].len() > 0 && av[j][0] == '-';
        assert(w == i as int) by {
            if w < i {
            } else if w > i {
            }
        }
    }
    let arg = args[i].as_str();
    let ac = to_chars(arg);
    let mut out = banner_prefix();
    let mut rest = copy_strings(args);
    if parse_usize(ac.as_slice()).is_some() {
        out.append(&mut rest);
        return Route::Rewritten(out);
    }
    if is_known_subcommand(arg) {
        return Route::AsGiven;
    }
    if is_explicit_path(arg) {
        out.append(&mut rest);
        return Route::Rewritten(out);
    }
    match expand_lazy_flags(arg) {
        Some(flags) => {
            let ghost fv = flags@;
            let ghost word = ac@;
            let mut k: usize = 0;
            let ghost start = views(out@);
            while k < args.len()
                invariant
                    k <= args@.len(),
                    av == views(args@),
                    word == arg@,
                    fv == flags@,
                    views(out@) == start + substitute(av.take(k as int), word, fv),
                decreases args@.len() - k,
            {
                assert(av.take(k + 1).drop_last() == av.take(k as int));
                assert(av.take(k + 1).last() == args@[k as int]@);
                if str_eq(args[k].as_str(), arg) {
                    let mut t: usize = 0;
                    let ghost before = views(out@);
                    while t < flags.len()
                        invariant
                            t <= fv.len(),
                            fv == flags@,
                            views(out@) == before + dashed(fv.take(t as int)),
                        decreases fv.len() - t,
                    {
                        let mut s = owned("-");
                        push_char(&mut s, flags[t]);
                        proof {
                            reveal_strlit("-");
                        }
                        assert(s@ == seq!['-', fv[t as int]]);
                        let ghost ob = out@;
                        out.push(s);
                        assert(views(out@) == views(ob).push(seq!['-', fv[t as int]]));
                        assert(dashed(fv.take(t + 1)) == dashed(fv.take(t as int)).push(seq!['-', fv[t as int]]));
                        t = t + 1;
                    }
                    assert(fv.take(fv.len() as int) == fv);
                } else {
                    let ghost ob = out@;
                    out.push(owned(args[k].as_str()));
                    assert(views(out@) == views(ob).push(av[k as int]));
                }
                k = k + 1;
            }
            assert(av.take(av.len() as int) == av);
            Route::Rewritten(out)
        },
        None => {
            out.append(&mut rest);
            Route::Rewritten(out)
        },
    }
}

proof fn lemma_substitute_has_flags(args: Seq<Seq<char>>, w: Seq<char>, flags: Seq<char>, k: int)
    requires
        args.contains(w),
        0 <= k < flags.len(),
    ensures
        substitute(args, w, flags).contains(seq!['-', flags[k]]),
    decreases args.len(),
{
    let prev = substitute(args.drop_last(), w, flags);
    if args.last() == w {
        let d = dashed(flags);
        assert(d[k] == seq!['-', flags[k]]);
        assert((prev + d)[prev.len() + k] == d[k]);
    } else {
        let j = choose|j: int| 0 <= j < args.len() && args[j] == w;
        assert(j < args.len() - 1);
        assert(args.drop_last()[j] == w);
        lemma_substitute_has_flags(args.drop_last(), w, flags, k);
        let q = choose|q: int| 0 <= q < prev.len() && prev[q] == seq!['-', flags[k]];
        assert(prev.push(args.last())[q] == prev[q]);
    }
}

proof fn lemma_substitute_drops_word(args: Seq<Seq<char>>, w: Seq<char>, flags: Seq<char>)
    requires
        w.len() > 0,
        w[0] != '-',
    ensures
        !substitute(args, w, flags).contains(w),
    decreases args.len(),
{
    if args.len() > 0 {
        lemma_substitute_drops_word(args.drop_last(), w, flags);
        let prev = substitute(args.drop_last(), w, flags);
        let r = substitute(args, w, flags);
        if r.contains(w) {
            let q = choose|q: int| 0 <= q < r.len() && r[q] == w;
            if args.last() == w {
                if q >= prev.len() {
                    assert(r[q] == dashed(flags)[q - prev.len()]);
                    assert(r[q][0] == '-');
                } else {
                    assert(r[q] == prev[q]);
                }
            } else {
                if q < prev.len() {
                    assert(r[q] == prev[q]);
                }
            }
        }
    }
}

/// A bare word made only of lazy flag letters (and not a number, a known
/// subcommand or an explicit path) is taken as those flags: the arguments
/// handed on start with `f banner`, hold `-c` for each of its letters
/// (`s g d l u` standing for `S G D L U`), and no longer hold the word.
pub proof fn lazy_words_become_flags(args: Seq<Seq<char>>, i: int)
    requires
        0 <= i < args.len(),
        forall|j: int| 0 <= j < i ==> args[j].len() > 0 && args[j][0] == '-',
        args[i].len() > 0,
        args[i][0] != '-' && args[i][0] != '.' && args[i][0] != '/' && args[i][0] != '~',
        parse_usize_text(args[i]) is None,
        !known_subcommands().contains(args[i]),
        forall|k: int| 0 <= k < args[i].len() ==> #[trigger] lazy_flag_of(args[i][k]) is Some,
    ensures
        route_text(args) matches Some(out) && {
            let rest = out.skip(2);
            &&& out.take(2) == seq!["f"@, "banner"@]
            &&& !rest.contains(args[i])
            &&& forall|k: int| 0 <= k < args[i].len() && lazy_flags().contains(args[i][k]) ==> rest.contains(seq!['-', args[i][k]])
            &&& forall|k: int| 0 <= k < args[i].len() && args[i][k] == 's' ==> rest.contains(seq!['-', 'S'])
            &&& forall|k: int| 0 <= k < args[i].len() && args[i][k] == 'g' ==> rest.contains(seq!['-', 'G'])
            &&& forall|k: int| 0 <= k < args[i].len() && args[i][k] == 'd' ==> rest.contains(seq!['-', 'D'])
            &&& forall|k: int| 0 <= k < args[i].len() && args[i][k] == 'l' ==> rest.contains(seq!['-', 'L'])
            &&& forall|k: int| 0 <= k < args[i].len() && args[i][k] == 'u' ==> rest.contains(seq!['-', 'U'])
        },
{
    let a = args[i];
    assert(!(a.len() > 0 && a[0] == '-'));
    assert(exists|j: int| 0 <= j < args.len() && !(args[j].len() > 0 && args[j][0] == '-')) by {
        assert(!(args[i].len() > 0 && args[i][0] == '-'));
    }
    let c = choose|j: int| 0 <= j < args.len() && !(args[j].len() > 0 && args[j][0] == '-') && forall|t: int| 0 <= t < j ==> args[t].len() > 0 && args[t][0] == '-';
    assert(0 <= i < args.len() && !(args[i].len() > 0 && args[i][0] == '-') && forall|t: int| 0 <= t < i ==> args[t].len() > 0 && args[t][0] == '-');
    assert(c == i) by {
        if c < i {
            assert(args[c].len() > 0 && args[c][0] == '-');
        } else if c > i {
            assert(args[i].len() > 0 && args[i][0] == '-');
        }
    }
    assert(first_non_flag(args) == Some(i));
    let flags = a.map_values(|ch: char| lazy_flag_of(ch)->0);
    assert(expand_text(a) == Some(flags));
    let banner = seq!["f"@, "banner"@];
    let sub = substitute(args, a, flags);
    assert(route_text(args) == Some(banner + sub));
    let out = banner + sub;
    assert(out.take(2) =~= banner);
    assert(out.skip(2) =~= sub);
    assert(args.contains(a)) by {
        assert(args[i] == a);
    }
    lemma_substitute_drops_word(args, a, flags);
    assert forall|k: int| 0 <= k < a.len() implies sub.contains(seq!['-', flags[k]]) by {
        lemma_substitute_has_flags(args, a, flags, k);
    }
    let al = lowercase_aliases();
    assert(al[0].0 == 's' && al[1].0 == 'g' && al[2].0 == 'd' && al[3].0 == 'l' && al[4].0 == 'u');
    assert forall|k: int| 0 <= k < a.len() && lazy_flags().contains(a[k]) implies sub.contains(seq!['-', a[k]]) by {
        assert(flags[k] == a[k]);
    }
    assert forall|k: int| 0 <= k < a.len() && a[k] == 's' implies sub.contains(seq!['-', 'S']) by {
        assert(!lazy_flags().contains('s')) by {
            if lazy_flags().contains('s') {
                let t = choose|t: int| 0 <= t < lazy_flags().len() && lazy_flags()[t] == 's';
            }
        }
        let w = choose|w: int| 0 <= w < al.len() && al[w].0 == 's';
        assert(w == 0);
        assert(flags[k] == 'S');
    }
    assert forall|k: int| 0 <= k < a.len() && a[k] == 'g' implies sub.contains(seq!['-', 'G']) by {
        assert(!lazy_flags().contains('g')) by {
            if lazy_flags().contains('g') {
                let t = choose|t: int| 0 <= t < lazy_flags().len() && lazy_flags()[t] == 'g';
            }
        }
        let w = choose|w: int| 0 <= w < al.len() && al[w].0 == 'g';
        assert(w == 1);
        assert(flags[k] == 'G');
    }
    assert forall|k: int| 0 <= k < a.len() && a[k] == 'd' implies sub.contains(seq!['-', 'D']) by {
        assert(!lazy_flags().contains('d')) by {
            if lazy_flags().contains('d') {
                let t = choose|t: int| 0 <= t < lazy_flags().len() && lazy_flags()[t] == 'd';
            }
        }
        let w = choose|w: int| 0 <= w < al.len() && al[w].0 == 'd';
        assert(w == 2);
        assert(flags[k] == 'D');
    }
    assert forall|k: int| 0 <= k < a.len() && a[k] == 'l' implies sub.contains(seq!['-', 'L']) by {
        assert(!lazy_flags().contains('l')) by {
            if lazy_flags().contains('l') {
                let t = choose|t: int| 0 <= t < lazy_flags().len() && lazy_flags()[t] == 'l';
            }
        }
        let w = choose|w: int| 0 <= w < al.len() && al[w].0 == 'l';
        assert(w == 3);
        assert(flags[k] == 'L');
    }
    assert forall|k: int| 0 <= k < a.len() && a[k] == 'u' implies sub.contains(seq!['-', 'U']) by {
        assert(!lazy_flags().contains('u')) by {
            if lazy_flags().contains('u') {
                let t = choose|t: int| 0 <= t < lazy_flags().len() && lazy_flags()[t] == 'u';
            }
        }
        let w = choose|w: int| 0 <= w < al.len() && al[w].0 == 'u';
        assert(w == 4);
        assert(flags[k] == 'U');
    }
}

} // verus!
