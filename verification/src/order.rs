//! Ordering nodes by a key, from the highest key down, keeping the order of
//! nodes with equal keys.
use vstd::prelude::*;

verus! {

/// Whether `out` holds the pairs of `input` ordered by their keys from the
/// highest down, pairs with equal keys in the order of `input`, with
/// `perm[i]` the position in `input` of `out[i]`.
pub open spec fn stable_desc(input: Seq<(u128, i32)>, out: Seq<(u128, i32)>, perm: Seq<int>) -> bool {
    &&& out.len() == input.len()
    &&& perm.len() == input.len()
    &&& forall|i: int| 0 <= i < out.len() ==> 0 <= #[trigger] perm[i] < input.len() && out[i]
        == input[perm[i]]
    &&& forall|i: int, j: int| 0 <= i < j < out.len() ==> #[trigger] perm[i] != #[trigger] perm[j]
    &&& forall|i: int, j: int|
        0 <= i < j < out.len() ==> (#[trigger] out[i]).1 > (#[trigger] out[j]).1 || (out[i].1
            == out[j].1 && perm[i] < perm[j])
}

/// The first position in `out`, from `i` on, whose key is lower than `key`;
/// the length of `out` where there is none.
pub open spec fn first_lower(out: Seq<(u128, i32)>, key: i32, i: int) -> int
    decreases out.len() - i,
{
    if i < 0 || i >= out.len() {
        out.len() as int
    } else if out[i].1 < key {
        i
    } else {
        first_lower(out, key, i + 1)
    }
}

/// The pairs of `input` ordered by their keys from the highest down, each
/// pair put after the pairs before it in `input` whose keys are not lower.
pub open spec fn sorted_desc(input: Seq<(u128, i32)>) -> Seq<(u128, i32)>
    decreases input.len(),
{
    if input.len() == 0 {
        Seq::<(u128, i32)>::empty()
    } else {
        let out = sorted_desc(input.drop_last());
        let x = input.last();
        let p = first_lower(out, x.1, 0);
        if 0 <= p <= out.len() {
            out.insert(p, x)
        } else {
            out
        }
    }
}

proof fn lemma_first_lower(out: Seq<(u128, i32)>, key: i32, i: int, p: int)
    requires
        0 <= i <= p <= out.len(),
        forall|x: int| i <= x < p ==> (#[trigger] out[x]).1 >= key,
        p == out.len() || out[p].1 < key,
    ensures
        first_lower(out, key, i) == p,
    decreases p - i,
{
    if i < p {
        lemma_first_lower(out, key, i + 1, p);
    }
}

/// The first lower position lies between `i` and the length.
proof fn lemma_first_lower_bounds(out: Seq<(u128, i32)>, key: i32, i: int)
    requires
        0 <= i,
    ensures
        0 <= first_lower(out, key, i) <= out.len(),
    decreases out.len() - i,
{
    if i < out.len() && out[i].1 >= key {
        lemma_first_lower_bounds(out, key, i + 1);
    }
}

/// Ordering keeps every pair of the input.
pub proof fn lemma_sorted_desc_contains(input: Seq<(u128, i32)>, x: (u128, i32))
    requires
        input.contains(x),
    ensures
        sorted_desc(input).contains(x),
    decreases input.len(),
{
    let out = sorted_desc(input.drop_last());
    let last = input.last();
    let p = first_lower(out, last.1, 0);
    lemma_first_lower_bounds(out, last.1, 0);
    assert(sorted_desc(input) == out.insert(p, last));
    if last == x {
        assert(out.insert(p, last)[p] == x);
    } else {
        let w = choose|w: int| 0 <= w < input.len() && input[w] == x;
        assert(input.drop_last()[w] == x);
        lemma_sorted_desc_contains(input.drop_last(), x);
        let v = choose|v: int| 0 <= v < out.len() && out[v] == x;
        if v < p {
            assert(out.insert(p, last)[v] == x);
        } else {
            assert(out.insert(p, last)[v + 1] == x);
        }
    }
}

/// Ordering brings in no pair that the input does not hold, and no pair
/// twice where the input holds none twice.
pub proof fn lemma_sorted_desc_from(input: Seq<(u128, i32)>)
    ensures
        forall|k: int|
            0 <= k < sorted_desc(input).len() ==> input.contains(#[trigger] sorted_desc(input)[k]),
        sorted_desc(input).len() == input.len(),
        input.no_duplicates() ==> sorted_desc(input).no_duplicates(),
    decreases input.len(),
{
    if input.len() > 0 {
        let front = input.drop_last();
        lemma_sorted_desc_from(front);
        let out = sorted_desc(front);
        let last = input.last();
        let p = first_lower(out, last.1, 0);
        lemma_first_lower_bounds(out, last.1, 0);
        let r = out.insert(p, last);
        assert(sorted_desc(input) == r);
        assert forall|k: int| 0 <= k < r.len() implies input.contains(#[trigger] r[k]) by {
            if k < p {
                assert(r[k] == out[k]);
                let w = choose|w: int| 0 <= w < front.len() && front[w] == out[k];
                assert(input[w] == out[k]);
            } else if k == p {
                assert(input[input.len() - 1] == last);
            } else {
                assert(r[k] == out[k - 1]);
                let w = choose|w: int| 0 <= w < front.len() && front[w] == out[k - 1];
                assert(input[w] == out[k - 1]);
            }
        }
        if input.no_duplicates() {
            assert(front.no_duplicates()) by {
                assert forall|a: int, b: int| 0 <= a < front.len() && 0 <= b < front.len() && a != b
                    implies front[a] != front[b] by {
                    assert(front[a] == input[a] && front[b] == input[b]);
                }
            }
            assert(!out.contains(last)) by {
                if out.contains(last) {
                    let v = choose|v: int| 0 <= v < out.len() && out[v] == last;
                    assert(front.contains(out[v]));
                    let w = choose|w: int| 0 <= w < front.len() && front[w] == last;
                    assert(input[w] == input[input.len() - 1]);
                }
            }
            assert forall|a: int, b: int| 0 <= a < r.len() && 0 <= b < r.len() && a != b implies r[a]
                != r[b] by {
                if a != p && b != p {
                    let a2 = if a < p { a } else { a - 1 };
                    let b2 = if b < p { b } else { b - 1 };
                    assert(r[a] == out[a2] && r[b] == out[b2]);
                } else if a == p {
                    let b2 = if b < p { b } else { b - 1 };
                    assert(r[b] == out[b2]);
                } else {
                    let a2 = if a < p { a } else { a - 1 };
                    assert(r[a] == out[a2]);
                }
            }
        }
    }
}

/// The pairs of `input` ordered by their keys from the highest down; pairs
/// with equal keys keep their order.
pub fn sort_desc_stable(input: &Vec<(u128, i32)>) -> (out: Vec<(u128, i32)>)
    ensures
        out@ == sorted_desc(input@),
        exists|perm: Seq<int>| stable_desc(input@, out@, perm),
{
    let mut out: Vec<(u128, i32)> = Vec::new();
    let ghost mut perm: Seq<int> = Seq::empty();
    let n = input.len();
    let mut k: usize = 0;
    while k < n
        invariant
            n == input@.len(),
            k <= n,
            stable_desc(input@.take(k as int), out@, perm),
            out@ == sorted_desc(input@.take(k as int)),
        decreases n - k,
    {
        let x = input[k];
        let mut p: usize = 0;
        while p < out.len() && out[p].1 >= x.1
            invariant
                p <= out@.len(),
                forall|i: int| 0 <= i < p ==> (#[trigger] out@[i]).1 >= x.1,
            decreases out@.len() - p,
        {
            p = p + 1;
        }
        let ghost old_out = out@;
        let ghost old_perm = perm;
        proof {
            lemma_first_lower(old_out, x.1, 0, p as int);
            let inp = input@.take(k + 1);
            assert(inp.drop_last() =~= input@.take(k as int));
            assert(inp.last() == x);
        }
        out.insert(p, x);
        proof {
            perm = old_perm.insert(p as int, k as int);
            let inp = input@.take(k + 1);
            assert(input@.take(k as int) =~= inp.take(k as int));
            assert forall|i: int| 0 <= i < out@.len() implies 0 <= #[trigger] perm[i] < inp.len()
                && out@[i] == inp[perm[i]] by {
                if i < p {
                    assert(perm[i] == old_perm[i]);
                    assert(out@[i] == old_out[i]);
                } else if i == p {
                } else {
                    assert(perm[i] == old_perm[i - 1]);
                    assert(out@[i] == old_out[i - 1]);
                }
            }
            assert forall|i: int, j: int| 0 <= i < j < out@.len() implies #[trigger] perm[i]
                != #[trigger] perm[j] by {
                if i < p && j < p {
                    assert(perm[i] == old_perm[i] && perm[j] == old_perm[j]);
                } else if i < p && j == p {
                    assert(perm[i] == old_perm[i]);
                } else if i < p && j > p {
                    assert(perm[i] == old_perm[i] && perm[j] == old_perm[j - 1]);
                } else if i == p {
                    assert(perm[j] == old_perm[j - 1]);
                } else {
                    assert(perm[i] == old_perm[i - 1] && perm[j] == old_perm[j - 1]);
                }
            }
            assert forall|i: int, j: int| 0 <= i < j < out@.len() implies (#[trigger] out@[i]).1
                > (#[trigger] out@[j]).1 || (out@[i].1 == out@[j].1 && perm[i] < perm[j]) by {
                if i < p && j < p {
                    assert(perm[i] == old_perm[i] && perm[j] == old_perm[j]);
                    assert(out@[i] == old_out[i] && out@[j] == old_out[j]);
                } else if i < p && j == p {
                    assert(perm[i] == old_perm[i]);
                    assert(out@[i] == old_out[i]);
                } else if i < p && j > p {
                    assert(perm[i] == old_perm[i] && perm[j] == old_perm[j - 1]);
                    assert(out@[i] == old_out[i] && out@[j] == old_out[j - 1]);
                } else if i == p {
                    assert(out@[j] == old_out[j - 1]);
                    assert(old_out[p as int].1 < x.1);
                    if j - 1 > p {
                        assert(old_out[p as int].1 > old_out[j - 1].1 || old_out[p as int].1
                            == old_out[j - 1].1);
                    }
                } else {
                    assert(perm[i] == old_perm[i - 1] && perm[j] == old_perm[j - 1]);
                    assert(out@[i] == old_out[i - 1] && out@[j] == old_out[j - 1]);
                }
            }
        }
        k = k + 1;
    }
    assert(input@.take(n as int) =~= input@);
    out
}

} // verus!
