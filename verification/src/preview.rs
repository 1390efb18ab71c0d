//! File preview: the first lines of a file, numbered.

use vstd::prelude::*;
use crate::parse::{lines, lines_text};
use crate::text::{dec_digits, owned, push_char, push_str, push_u64, string_from_chars, to_chars, views};

verus! {

/// `n` right-aligned in a field of four characters (`{:4}`).
pub open spec fn pad4(n: nat) -> Seq<char> {
    let d = dec_digits(n);
    if d.len() < 4 {
        Seq::new((4 - d.len()) as nat, |i: int| ' ') + d
    } else {
        d
    }
}

/// A numbered preview line: the number right-aligned in four characters,
/// a bar, a space, the line.
pub open spec fn preview_line(number: nat, line: Seq<char>) -> Seq<char> {
    pad4(number) + "│ "@ + line
}

/// The preview of `content`: its first `n` lines (`str::lines`), numbered from 1.
pub open spec fn preview_text(content: Seq<char>, n: nat) -> Seq<Seq<char>> {
    let ls = lines_text(content);
    let k = if ls.len() < n { ls.len() } else { n };
    Seq::new(k, |i: int| preview_line((i + 1) as nat, ls[i]))
}

fn numbered_line(number: usize, line: &[char]) -> (r: String)
    ensures
        r@ == preview_line(number as nat, line@),
{
    let mut digits = String::new();
    push_u64(&mut digits, number as u64);
    let dc = to_chars(digits.as_str());
    let mut s = String::new();
    if dc.len() < 4 {
        let pad = 4 - dc.len();
        let mut k: usize = 0;
        while k < pad
            invariant
                k <= pad,
                s@ == Seq::new(k as nat, |i: int| ' '),
            decreases pad - k,
        {
            push_char(&mut s, ' ');
            assert(s@ =~= Seq::new((k + 1) as nat, |i: int| ' '));
            k = k + 1;
        }
    }
    push_str(&mut s, digits.as_str());
    push_str(&mut s, "│ ");
    let l = string_from_chars(line);
    push_str(&mut s, l.as_str());
    assert(s@ =~= preview_line(number as nat, line@));
    s
}

/// The first `n` lines of `content`, numbered from 1 (`{:4}│ {}`).
pub fn preview_lines(content: &str, n: usize) -> (r: Vec<String>)
    ensures
        views(r@) == preview_text(content@, n as nat),
{
    let cs = to_chars(content);
    let ls = lines(cs.as_slice());
    let ghost lt = lines_text(content@);
    let k: usize = if ls.len() < n { ls.len() } else { n };
    let mut r: Vec<String> = Vec::new();
    let mut i: usize = 0;
    while i < k
        invariant
            i <= k,
            k <= ls@.len(),
            k == (if lt.len() < n { lt.len() } else { n as nat }),
            ls@.len() == lt.len(),
            lt == lines_text(content@),
            forall|j: int| 0 <= j < ls@.len() ==> #[trigger] ls@[j]@ == lt[j],
            views(r@) == Seq::new(i as nat, |j: int| preview_line((j + 1) as nat, lt[j])),
        decreases k - i,
    {
        let line = numbered_line(i + 1, ls[i].as_slice());
        let ghost before = r@;
        r.push(line);
        assert(views(r@) == views(before).push(line@));
        assert(Seq::new((i + 1) as nat, |j: int| preview_line((j + 1) as nat, lt[j]))
            == Seq::new(i as nat, |j: int| preview_line((j + 1) as nat, lt[j])).push(preview_line((i + 1) as nat, lt[i as int])));
        i = i + 1;
    }
    r
}

/// The heading of a preview: `👁️  Peek: path (n lines)`.
pub fn preview_heading(path: &str, n: usize) -> (r: String)
    ensures
        r@ == "👁️  Peek: "@ + path@ + " ("@ + dec_digits(n as nat) + " lines)"@,
{
    let mut s = owned("👁️  Peek: ");
    push_str(&mut s, path);
    push_str(&mut s, " (");
    push_u64(&mut s, n as u64);
    push_str(&mut s, " lines)");
    s
}

} // verus!
