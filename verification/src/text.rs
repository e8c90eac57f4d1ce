//! Joining strings with a separator and splitting them again.
//!
//! The splitting follows the semantics of `str::split` with a string
//! pattern: the input is cut at the leftmost non-overlapping occurrences of
//! the separator, and an empty separator cuts before and after every
//! character.
use vstd::prelude::*;
use vstd::string::*;

verus! {

/// Whether `sep` occurs in `s` starting at position `i`.
pub open spec fn occurs_at(s: Seq<char>, sep: Seq<char>, i: int) -> bool {
    0 <= i && i + sep.len() <= s.len() && s.subrange(i, i + sep.len()) == sep
}

/// The first position at or after `i` at which `sep` occurs in `s`.
pub open spec fn find_from(s: Seq<char>, sep: Seq<char>, i: int) -> Option<int>
    decreases s.len() - i,
{
    if i < 0 || i + sep.len() > s.len() {
        None
    } else if occurs_at(s, sep, i) {
        Some(i)
    } else if i >= s.len() {
        None
    } else {
        find_from(s, sep, i + 1)
    }
}

/// Pieces of `s` from position `start` on, cut at each occurrence of a
/// non-empty `sep`.
pub open spec fn split_from(s: Seq<char>, sep: Seq<char>, start: int) -> Seq<Seq<char>>
    decreases s.len() - start,
{
    if sep.len() == 0 || start < 0 || start > s.len() {
        seq![]
    } else {
        match find_from(s, sep, start) {
            None => seq![s.subrange(start, s.len() as int)],
            Some(i) => if start <= i && i + sep.len() <= s.len() {
                seq![s.subrange(start, i)] + split_from(s, sep, i + sep.len())
            } else {
                seq![]
            },
        }
    }
}

/// The pieces that `str::split` yields for `s` and the pattern `sep`.
pub open spec fn split_seq(s: Seq<char>, sep: Seq<char>) -> Seq<Seq<char>> {
    if sep.len() == 0 {
        seq![Seq::<char>::empty()] + s.map_values(|c: char| seq![c]) + seq![Seq::<char>::empty()]
    } else {
        split_from(s, sep, 0)
    }
}

/// The concatenation of `parts` with `sep` between each two of them.
pub open spec fn join_seq(parts: Seq<Seq<char>>, sep: Seq<char>) -> Seq<char>
    decreases parts.len(),
{
    if parts.len() == 0 {
        Seq::<char>::empty()
    } else if parts.len() == 1 {
        parts[0]
    } else {
        parts[0] + sep + join_seq(parts.drop_first(), sep)
    }
}

/// The views of a sequence of strings.
pub open spec fn views(v: Seq<String>) -> Seq<Seq<char>> {
    v.map_values(|s: String| s@)
}

/// Whether some character of `s` also occurs in `sep`.
pub open spec fn shares_char(s: Seq<char>, sep: Seq<char>) -> bool {
    exists|i: int| 0 <= i < s.len() && sep.contains(#[trigger] s[i])
}

proof fn lemma_find_from_bounds(s: Seq<char>, sep: Seq<char>, i: int)
    requires
        0 <= i,
    ensures
        find_from(s, sep, i) matches Some(j) ==> i <= j && occurs_at(s, sep, j) && forall|k: int|
            i <= k < j ==> !#[trigger] occurs_at(s, sep, k),
        find_from(s, sep, i) is None ==> forall|k: int| i <= k ==> !#[trigger] occurs_at(s, sep, k),
    decreases s.len() - i,
{
    if i + sep.len() > s.len() {
    } else if occurs_at(s, sep, i) {
    } else if i >= s.len() {
        assert(s.subrange(i, i + sep.len()) =~= sep);
    } else {
        lemma_find_from_bounds(s, sep, i + 1);
    }
}

proof fn lemma_find_from_first(s: Seq<char>, sep: Seq<char>, i: int, j: int)
    requires
        0 <= i <= j,
        occurs_at(s, sep, j),
        forall|k: int| i <= k < j ==> !#[trigger] occurs_at(s, sep, k),
    ensures
        find_from(s, sep, i) == Some(j),
    decreases j - i,
{
    if i < j {
        assert(!occurs_at(s, sep, i));
        lemma_find_from_first(s, sep, i + 1, j);
    }
}

proof fn lemma_split_from_nonempty(s: Seq<char>, sep: Seq<char>, start: int)
    requires
        sep.len() > 0,
        0 <= start <= s.len(),
    ensures
        split_from(s, sep, start).len() >= 1,
        split_from(s, sep, start)[0] == s.subrange(
            start,
            match find_from(s, sep, start) {
                Some(i) => i,
                None => s.len() as int,
            },
        ),
{
    lemma_find_from_bounds(s, sep, start);
}

proof fn lemma_join_prepend(x: Seq<char>, rest: Seq<Seq<char>>, sep: Seq<char>)
    requires
        rest.len() >= 1,
    ensures
        join_seq(seq![x] + rest, sep) == x + sep + join_seq(rest, sep),
{
    let p = seq![x] + rest;
    assert(p.drop_first() =~= rest);
}

/// Appending a part adds the separator and the part at the end.
pub proof fn lemma_join_push(p: Seq<Seq<char>>, x: Seq<char>, sep: Seq<char>)
    requires
        p.len() >= 1,
    ensures
        join_seq(p.push(x), sep) == join_seq(p, sep) + sep + x,
    decreases p.len(),
{
    if p.len() == 1 {
        assert(p.push(x).drop_first() =~= seq![x]);
        assert(join_seq(seq![x], sep) == x);
        assert(join_seq(p, sep) == p[0]);
        assert(join_seq(p.push(x), sep) =~= join_seq(p, sep) + sep + x);
    } else {
        assert(p.push(x).drop_first() =~= p.drop_first().push(x));
        lemma_join_push(p.drop_first(), x, sep);
        assert(join_seq(p.push(x), sep) =~= join_seq(p, sep) + sep + x);
    }
}

proof fn lemma_join_split_from(s: Seq<char>, sep: Seq<char>, start: int)
    requires
        sep.len() > 0,
        0 <= start <= s.len(),
    ensures
        join_seq(split_from(s, sep, start), sep) == s.subrange(start, s.len() as int),
    decreases s.len() - start,
{
    lemma_find_from_bounds(s, sep, start);
    match find_from(s, sep, start) {
        None => {},
        Some(i) => {
            let m = sep.len() as int;
            lemma_join_split_from(s, sep, i + m);
            lemma_split_from_nonempty(s, sep, i + m);
            lemma_join_prepend(s.subrange(start, i), split_from(s, sep, i + m), sep);
            assert(s.subrange(start, i) + sep + s.subrange(i + m, s.len() as int) =~= s.subrange(
                start,
                s.len() as int,
            ));
        },
    }
}

proof fn lemma_join_single_chars(s: Seq<char>)
    ensures
        join_seq(s.map_values(|c: char| seq![c]) + seq![Seq::<char>::empty()], Seq::<char>::empty())
            == s,
    decreases s.len(),
{
    let e = Seq::<char>::empty();
    let p = s.map_values(|c: char| seq![c]) + seq![e];
    if s.len() == 0 {
        assert(p =~= seq![e]);
    } else {
        let rest = s.drop_first();
        lemma_join_single_chars(rest);
        assert(p.drop_first() =~= rest.map_values(|c: char| seq![c]) + seq![e]);
        assert(p[0] == seq![s[0]]);
        assert(join_seq(p, e) =~= s);
    }
}

/// Joining the pieces of a split with the same separator restores the
/// input.
pub proof fn lemma_join_split(s: Seq<char>, sep: Seq<char>)
    ensures
        join_seq(split_seq(s, sep), sep) == s,
{
    if sep.len() == 0 {
        let e = Seq::<char>::empty();
        let tail = s.map_values(|c: char| seq![c]) + seq![e];
        lemma_join_single_chars(s);
        assert(split_seq(s, sep) =~= seq![e] + tail);
        lemma_join_prepend(e, tail, sep);
        assert(e + sep + join_seq(tail, sep) =~= s);
    } else {
        lemma_join_split_from(s, sep, 0);
        assert(s.subrange(0, s.len() as int) =~= s);
    }
}

proof fn lemma_split_from_join(t: Seq<char>, off: int, parts: Seq<Seq<char>>, sep: Seq<char>)
    requires
        sep.len() > 0,
        parts.len() >= 1,
        0 <= off <= t.len(),
        t.subrange(off, t.len() as int) == join_seq(parts, sep),
        forall|k: int| 0 <= k < parts.len() ==> !shares_char(#[trigger] parts[k], sep),
    ensures
        split_from(t, sep, off) == parts,
    decreases parts.len(),
{
    let p0 = parts[0];
    let m = sep.len() as int;
    assert(!shares_char(parts[0], sep));
    if parts.len() == 1 {
        lemma_find_from_bounds(t, sep, off);
        if let Some(j) = find_from(t, sep, off) {
            assert(t.subrange(j, j + m)[0] == t[j]);
            assert(sep.contains(sep[0]));
            assert(t[j] == p0[j - off]);
            assert(false);
        }
        assert(split_from(t, sep, off) =~= parts);
    } else {
        let rest = parts.drop_first();
        let j = off + p0.len();
        assert(join_seq(parts, sep) == p0 + sep + join_seq(rest, sep));
        assert forall|k: int| off <= k < j implies !#[trigger] occurs_at(t, sep, k) by {
            if occurs_at(t, sep, k) {
                assert(t.subrange(k, k + m)[0] == t[k]);
                assert(sep.contains(sep[0]));
                assert(t[k] == t.subrange(off, t.len() as int)[k - off]);
                assert(t[k] == p0[k - off]);
            }
        }
        assert(t.subrange(j, j + m) =~= sep) by {
            assert forall|x: int| 0 <= x < m implies t.subrange(j, j + m)[x] == sep[x] by {
                assert(t[j + x] == t.subrange(off, t.len() as int)[j + x - off]);
            }
        }
        lemma_find_from_first(t, sep, off, j);
        assert(t.subrange(j + m, t.len() as int) =~= join_seq(rest, sep)) by {
            assert forall|x: int| 0 <= x < t.len() - (j + m) implies t.subrange(
                j + m,
                t.len() as int,
            )[x] == join_seq(rest, sep)[x] by {
                assert(t[j + m + x] == t.subrange(off, t.len() as int)[j + m + x - off]);
            }
        }
        assert forall|k: int| 0 <= k < rest.len() implies !shares_char(#[trigger] rest[k], sep) by {
            assert(rest[k] == parts[k + 1]);
        }
        lemma_split_from_join(t, j + m, rest, sep);
        assert(t.subrange(off, j) =~= p0) by {
            assert forall|x: int| 0 <= x < p0.len() implies t.subrange(off, j)[x] == p0[x] by {
                assert(t[off + x] == t.subrange(off, t.len() as int)[x]);
            }
        }
        assert(split_from(t, sep, off) =~= parts);
    }
}

/// Splitting a joined sequence of parts yields the parts again, when there
/// is at least one part, the separator is not empty and no part holds a
/// character of the separator.
pub proof fn lemma_split_join(parts: Seq<Seq<char>>, sep: Seq<char>)
    requires
        parts.len() >= 1,
        sep.len() > 0,
        forall|k: int| 0 <= k < parts.len() ==> !shares_char(#[trigger] parts[k], sep),
    ensures
        split_seq(join_seq(parts, sep), sep) == parts,
{
    let t = join_seq(parts, sep);
    assert(t.subrange(0, t.len() as int) =~= t);
    lemma_split_from_join(t, 0, parts, sep);
}

/// The characters of `s`, one by one.
pub fn chars_of(s: &str) -> (r: Vec<char>)
    ensures
        r@ == s@,
{
    let n = s.unicode_len();
    let mut r: Vec<char> = Vec::new();
    let mut i: usize = 0;
    while i < n
        invariant
            n == s@.len(),
            i <= n,
            r@ == s@.subrange(0, i as int),
        decreases n - i,
    {
        r.push(s.get_char(i));
        i = i + 1;
        assert(r@ =~= s@.subrange(0, i as int));
    }
    assert(r@ =~= s@);
    r
}

fn matches_at(s: &Vec<char>, sep: &Vec<char>, i: usize) -> (b: bool)
    requires
        i + sep@.len() <= s@.len(),
    ensures
        b == occurs_at(s@, sep@, i as int),
{
    let m = sep.len();
    let sl = s.len();
    let mut k: usize = 0;
    while k < m
        invariant
            m == sep@.len(),
            sl == s@.len(),
            i + m <= s@.len(),
            k <= m,
            forall|x: int| 0 <= x < k ==> s@[i + x] == sep@[x],
        decreases m - k,
    {
        if s[i + k] != sep[k] {
            assert(s@.subrange(i as int, i + m)[k as int] != sep@[k as int]);
            return false;
        }
        k = k + 1;
    }
    assert(s@.subrange(i as int, i + m) =~= sep@);
    true
}

/// The pieces of `s` between the occurrences of `sep`, as `str::split`
/// yields them.
pub fn split_str(s: &str, sep: &str) -> (r: Vec<String>)
    ensures
        views(r@) == split_seq(s@, sep@),
{
    let sc = chars_of(s);
    let n = sc.len();
    let mut res: Vec<String> = Vec::new();
    if sep.unicode_len() == 0 {
        res.push(String::new());
        let mut k: usize = 0;
        while k < n
            invariant
                n == s@.len(),
                k <= n,
                views(res@) == seq![Seq::<char>::empty()] + s@.subrange(0, k as int).map_values(
                    |c: char| seq![c],
                ),
            decreases n - k,
        {
            let piece = s.substring_char(k, k + 1).to_owned();
            assert(piece@ =~= seq![s@[k as int]]);
            let ghost old_res = res@;
            res.push(piece);
            assert(views(res@) =~= views(old_res).push(piece@));
            assert(s@.subrange(0, k + 1).map_values(|c: char| seq![c]) =~= s@.subrange(
                0,
                k as int,
            ).map_values(|c: char| seq![c]).push(seq![s@[k as int]]));
            k = k + 1;
            assert(views(res@) =~= seq![Seq::<char>::empty()] + s@.subrange(0, k as int).map_values(
                |c: char| seq![c],
            ));
        }
        res.push(String::new());
        assert(s@.subrange(0, n as int) =~= s@);
        assert(views(res@) =~= split_seq(s@, sep@));
        return res;
    }
    let pc = chars_of(sep);
    let m = pc.len();
    let mut start: usize = 0;
    let mut i: usize = 0;
    while m <= n && i <= n - m
        invariant
            n == s@.len(),
            m == sep@.len(),
            m > 0,
            sc@ == s@,
            pc@ == sep@,
            start <= i <= n,
            views(res@) + split_from(s@, sep@, start as int) == split_from(s@, sep@, 0),
            find_from(s@, sep@, start as int) == find_from(s@, sep@, i as int),
        decreases n - i,
    {
        if matches_at(&sc, &pc, i) {
            proof {
                lemma_find_from_bounds(s@, sep@, start as int);
            }
            let piece = s.substring_char(start, i).to_owned();
            let ghost old_res = res@;
            res.push(piece);
            assert(split_from(s@, sep@, start as int) == seq![s@.subrange(start as int, i as int)]
                + split_from(s@, sep@, i + m));
            assert(views(res@) =~= views(old_res).push(piece@));
            assert(views(res@) + split_from(s@, sep@, i + m) =~= views(old_res) + split_from(
                s@,
                sep@,
                start as int,
            ));
            i = i + m;
            start = i;
        } else {
            i = i + 1;
        }
    }
    proof {
        lemma_find_from_bounds(s@, sep@, start as int);
    }
    let piece = s.substring_char(start, n).to_owned();
    let ghost old_res = res@;
    res.push(piece);
    assert(split_from(s@, sep@, start as int) == seq![s@.subrange(start as int, n as int)]);
    assert(views(res@) =~= views(old_res).push(piece@));
    assert(views(res@) =~= views(old_res) + split_from(s@, sep@, start as int));
    res
}

/// The parts joined into one string, with `sep` between each two of them.
pub fn join_strings(parts: &Vec<String>, sep: &str) -> (r: String)
    ensures
        r@ == join_seq(views(parts@), sep@),
{
    let n = parts.len();
    if n == 0 {
        let r = String::new();
        assert(views(parts@) =~= Seq::<Seq<char>>::empty());
        return r;
    }
    let mut r = parts[0].clone();
    let mut k: usize = 1;
    assert(views(parts@).take(1) =~= seq![parts@[0]@]);
    while k < n
        invariant
            n == parts@.len(),
            1 <= k <= n,
            r@ == join_seq(views(parts@).take(k as int), sep@),
        decreases n - k,
    {
        r.append(sep);
        r.append(parts[k].as_str());
        proof {
            lemma_join_push(views(parts@).take(k as int), parts@[k as int]@, sep@);
            assert(views(parts@).take(k as int).push(parts@[k as int]@) =~= views(parts@).take(
                k + 1,
            ));
        }
        k = k + 1;
    }
    assert(views(parts@).take(n as int) =~= views(parts@));
    r
}

} // verus!
