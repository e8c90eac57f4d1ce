//! Generated code as a sequence of lines.
//!
//! A block of code is a sequence of lines without their enclosing
//! indentation; a nested block is indented by four spaces per level, and a
//! block spliced into a line continues that line with its first line and
//! ends with its last one.
use vstd::prelude::*;
use vstd::string::*;

use crate::text::views;

verus! {

broadcast use vstd::seq_lib::group_seq_properties;

/// The indentation of one level.
pub open spec fn indent_unit() -> Seq<char> {
    "    "@
}

/// A line indented by one level; an empty line stays empty.
pub open spec fn indent_line(l: Seq<char>) -> Seq<char> {
    if l.len() == 0 {
        l
    } else {
        indent_unit() + l
    }
}

/// A block indented by one level.
pub open spec fn indented(b: Seq<Seq<char>>) -> Seq<Seq<char>> {
    b.map_values(|l: Seq<char>| indent_line(l))
}

/// The block `b` spliced between `prefix` and `suffix` on one line: its
/// first line follows `prefix` and `suffix` follows its last line.
pub open spec fn inlined(prefix: Seq<char>, b: Seq<Seq<char>>, suffix: Seq<char>) -> Seq<
    Seq<char>,
> {
    if b.len() == 0 {
        seq![prefix + suffix]
    } else {
        let c = b.update(0, prefix + b[0]);
        c.update(c.len() - 1, c[c.len() - 1] + suffix)
    }
}

/// The block `b` continuing the last line of `a`.
pub open spec fn glue(a: Seq<Seq<char>>, b: Seq<Seq<char>>) -> Seq<Seq<char>> {
    if a.len() == 0 {
        b
    } else if b.len() == 0 {
        a
    } else {
        a.drop_last() + seq![a.last() + b[0]] + b.drop_first()
    }
}

/// The blocks one after the other, with an empty line between each two.
pub open spec fn blank_joined(bs: Seq<Seq<Seq<char>>>) -> Seq<Seq<char>>
    decreases bs.len(),
{
    if bs.len() == 0 {
        Seq::empty()
    } else if bs.len() == 1 {
        bs[0]
    } else {
        blank_joined(bs.drop_last()) + seq![Seq::<char>::empty()] + bs.last()
    }
}

/// The text of a file made of the lines: each line ends with a line break.
pub open spec fn file_text(b: Seq<Seq<char>>) -> Seq<char> {
    b.map_values(|l: Seq<char>| l + "\n"@).flatten()
}

/// `a` followed by `b`.
pub fn cat(a: &str, b: &str) -> (r: String)
    ensures
        r@ == a@ + b@,
{
    let mut r = String::from_str(a);
    r.append(b);
    r
}

/// `a`, `b` and `c` one after the other.
pub fn cat3(a: &str, b: &str, c: &str) -> (r: String)
    ensures
        r@ == a@ + b@ + c@,
{
    let mut r = String::from_str(a);
    r.append(b);
    r.append(c);
    r
}

/// A block of one line.
pub fn one_line(l: String) -> (r: Vec<String>)
    ensures
        views(r@) == seq![l@],
{
    let mut r: Vec<String> = Vec::new();
    r.push(l);
    assert(views(r@) =~= seq![l@]);
    r
}

/// Appends the lines of `b` to `a`.
pub fn append_lines(a: &mut Vec<String>, b: Vec<String>)
    ensures
        views(final(a)@) == views(old(a)@) + views(b@),
{
    let n = b.len();
    let mut i: usize = 0;
    let ghost a0 = views(a@);
    while i < n
        invariant
            n == b@.len(),
            i <= n,
            views(a@) == a0 + views(b@).take(i as int),
        decreases n - i,
    {
        let l = b[i].clone();
        let ghost before = a@;
        a.push(l);
        assert(views(a@) =~= views(before).push(l@));
        assert(views(b@).take(i + 1) =~= views(b@).take(i as int).push(b@[i as int]@));
        i = i + 1;
    }
    assert(views(b@).take(n as int) =~= views(b@));
}

/// The block indented by one level.
pub fn indent_block(b: Vec<String>) -> (r: Vec<String>)
    ensures
        views(r@) == indented(views(b@)),
{
    let n = b.len();
    let mut r: Vec<String> = Vec::new();
    let mut i: usize = 0;
    while i < n
        invariant
            n == b@.len(),
            i <= n,
            views(r@) == indented(views(b@).take(i as int)),
        decreases n - i,
    {
        let l: &String = &b[i];
        let line = if l.unicode_len() == 0 {
            String::new()
        } else {
            cat("    ", l.as_str())
        };
        assert(line@ == indent_line(b@[i as int]@));
        r.push(line);
        assert(indented(views(b@).take(i + 1)) =~= indented(views(b@).take(i as int)).push(
            indent_line(b@[i as int]@),
        ));
        i = i + 1;
    }
    assert(views(b@).take(n as int) =~= views(b@));
    r
}

/// The block spliced between `prefix` and `suffix` on one line.
pub fn inline_block(prefix: &str, b: Vec<String>, suffix: &str) -> (r: Vec<String>)
    ensures
        views(r@) == inlined(prefix@, views(b@), suffix@),
{
    let n = b.len();
    if n == 0 {
        let r = one_line(cat(prefix, suffix));
        return r;
    }
    let mut r = b;
    let first = cat(prefix, r[0].as_str());
    r.set(0, first);
    let last = cat(r[n - 1].as_str(), suffix);
    r.set(n - 1, last);
    assert(views(r@) =~= inlined(prefix@, views(b@), suffix@));
    r
}

/// The block `b` continuing the last line of `a`.
pub fn glue_blocks(a: Vec<String>, b: Vec<String>) -> (r: Vec<String>)
    ensures
        views(r@) == glue(views(a@), views(b@)),
{
    if a.len() == 0 {
        return b;
    }
    if b.len() == 0 {
        return a;
    }
    let mut r = a;
    let n = r.len();
    let last = cat(r[n - 1].as_str(), b[0].as_str());
    r.set(n - 1, last);
    let mut rest: Vec<String> = Vec::new();
    let m = b.len();
    let mut i: usize = 1;
    while i < m
        invariant
            m == b@.len(),
            1 <= i <= m,
            views(rest@) == views(b@).subrange(1, i as int),
        decreases m - i,
    {
        let ghost before = rest@;
        rest.push(b[i].clone());
        assert(views(rest@) =~= views(before).push(b@[i as int]@));
        assert(views(b@).subrange(1, i + 1) =~= views(b@).subrange(1, i as int).push(b@[i as int]@));
        i = i + 1;
    }
    let ghost mid = views(r@);
    append_lines(&mut r, rest);
    assert(views(r@) =~= glue(views(a@), views(b@)));
    r
}

/// The lines as the text of a file.
pub fn to_file_text(b: &Vec<String>) -> (r: String)
    ensures
        r@ == file_text(views(b@)),
{
    let n = b.len();
    let mut r = String::new();
    let mut i: usize = 0;
    while i < n
        invariant
            n == b@.len(),
            i <= n,
            r@ == file_text(views(b@).take(i as int)),
        decreases n - i,
    {
        r.append(b[i].as_str());
        r.append("\n");
        proof {
            let s = views(b@).take(i as int);
            let t = views(b@).take(i + 1);
            assert(t =~= s.push(b@[i as int]@));
            assert(t.map_values(|l: Seq<char>| l + "\n"@) =~= s.map_values(
                |l: Seq<char>| l + "\n"@,
            ).push(b@[i as int]@ + "\n"@));
            s.map_values(|l: Seq<char>| l + "\n"@).lemma_flatten_push(b@[i as int]@ + "\n"@);
        }
        i = i + 1;
    }
    assert(views(b@).take(n as int) =~= views(b@));
    r
}

} // verus!
