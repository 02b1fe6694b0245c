//! Ordering of text keys and a stable sort by key.
use vstd::prelude::*;

verus! {

/// Lexicographic order of character sequences (by code point), which is the
/// order of `str::cmp` on UTF-8 text.
pub open spec fn seq_lt(a: Seq<char>, b: Seq<char>) -> bool
    decreases a.len(),
{
    if a.len() == 0 {
        b.len() > 0
    } else if b.len() == 0 {
        false
    } else if a[0] != b[0] {
        a[0] < b[0]
    } else {
        seq_lt(a.drop_first(), b.drop_first())
    }
}

/// A sort key: a rank first, then a text.
pub type SortKey = (u8, Seq<char>);

pub open spec fn key_lt(a: SortKey, b: SortKey) -> bool {
    a.0 < b.0 || (a.0 == b.0 && seq_lt(a.1, b.1))
}

pub proof fn lemma_seq_lt_irreflexive(a: Seq<char>)
    ensures
        !seq_lt(a, a),
    decreases a.len(),
{
    if a.len() > 0 {
        lemma_seq_lt_irreflexive(a.drop_first());
    }
}

pub proof fn lemma_seq_lt_total(a: Seq<char>, b: Seq<char>)
    ensures
        a != b ==> seq_lt(a, b) || seq_lt(b, a),
        !(seq_lt(a, b) && seq_lt(b, a)),
    decreases a.len(),
{
    if a.len() > 0 && b.len() > 0 {
        lemma_seq_lt_total(a.drop_first(), b.drop_first());
        if a[0] == b[0] && a != b {
            assert(a =~= seq![a[0]] + a.drop_first());
            assert(b =~= seq![b[0]] + b.drop_first());
        }
    } else if a.len() == 0 && b.len() == 0 {
        assert(a =~= b);
    }
}

pub proof fn lemma_seq_lt_transitive(a: Seq<char>, b: Seq<char>, c: Seq<char>)
    requires
        seq_lt(a, b),
        seq_lt(b, c),
    ensures
        seq_lt(a, c),
    decreases a.len(),
{
    if a.len() > 0 && b.len() > 0 && c.len() > 0 && a[0] == b[0] && b[0] == c[0] {
        lemma_seq_lt_transitive(a.drop_first(), b.drop_first(), c.drop_first());
    }
}

/// `key_lt` is a strict total order.
pub proof fn lemma_key_order(a: SortKey, b: SortKey, c: SortKey)
    ensures
        !key_lt(a, a),
        !(key_lt(a, b) && key_lt(b, a)),
        a != b ==> key_lt(a, b) || key_lt(b, a),
        key_lt(a, b) && key_lt(b, c) ==> key_lt(a, c),
        !key_lt(b, a) && key_lt(b, c) ==> key_lt(a, c) || a == b,
{
    lemma_seq_lt_irreflexive(a.1);
    lemma_seq_lt_total(a.1, b.1);
    lemma_seq_lt_total(b.1, c.1);
    lemma_seq_lt_total(a.1, c.1);
    if key_lt(a, b) && key_lt(b, c) && a.0 == b.0 && b.0 == c.0 {
        lemma_seq_lt_transitive(a.1, b.1, c.1);
    }
    if !key_lt(b, a) && key_lt(b, c) && a != b {
        if a.0 == b.0 && b.0 == c.0 {
            lemma_seq_lt_transitive(a.1, b.1, c.1);
        }
    }
}

pub fn chars_lt(a: &Vec<char>, b: &Vec<char>) -> (r: bool)
    ensures
        r == seq_lt(a@, b@),
{
    let mut i: usize = 0;
    assert(a@.subrange(0, a@.len() as int) =~= a@);
    assert(b@.subrange(0, b@.len() as int) =~= b@);
    while i < a.len() && i < b.len() && a[i] == b[i]
        invariant
            i <= a@.len(),
            i <= b@.len(),
            seq_lt(a@, b@) == seq_lt(a@.subrange(i as int, a@.len() as int), b@.subrange(
                i as int,
                b@.len() as int,
            )),
        decreases a@.len() - i,
    {
        proof {
            let sa = a@.subrange(i as int, a@.len() as int);
            let sb = b@.subrange(i as int, b@.len() as int);
            assert(sa.drop_first() =~= a@.subrange(i + 1, a@.len() as int));
            assert(sb.drop_first() =~= b@.subrange(i + 1, b@.len() as int));
        }
        i += 1;
    }
    if i == a.len() {
        i < b.len()
    } else if i == b.len() {
        false
    } else {
        a[i] < b[i]
    }
}

pub fn key_less(a: &(u8, Vec<char>), b: &(u8, Vec<char>)) -> (r: bool)
    ensures
        r == key_lt((a.0, a.1@), (b.0, b.1@)),
{
    a.0 < b.0 || (a.0 == b.0 && chars_lt(&a.1, &b.1))
}

pub open spec fn key_views(k: Seq<(u8, Vec<char>)>) -> Seq<SortKey> {
    k.map_values(|x: (u8, Vec<char>)| (x.0, x.1@))
}

/// `p` lists each of `0..n` exactly once.
pub open spec fn is_permutation(p: Seq<int>, n: int) -> bool {
    &&& p.len() == n
    &&& forall|i: int| 0 <= i < p.len() ==> 0 <= #[trigger] p[i] < n
    &&& forall|i: int, j: int| 0 <= i < j < p.len() ==> p[i] != p[j]
}

/// Taking positions in the order `p` sorts `keys` ascending, and equal keys
/// keep their original order.
pub open spec fn sorts_stably(keys: Seq<SortKey>, p: Seq<int>) -> bool {
    forall|i: int, j: int|
        0 <= i < j < p.len() ==> !key_lt(keys[p[j]], keys[p[i]]) && (keys[p[i]] == keys[p[j]]
            ==> p[i] < p[j])
}

/// `r` is `v` reordered stably by `keys`.
pub open spec fn stable_sorted<T>(v: Seq<T>, keys: Seq<SortKey>, r: Seq<T>) -> bool {
    exists|p: Seq<int>|
        is_permutation(p, v.len() as int) && sorts_stably(keys, p) && r.len() == v.len() && (
        forall|i: int| 0 <= i < r.len() ==> #[trigger] r[i] == v[p[i]])
}

/// Sorts `v` stably by `keys` (one key per element).
pub fn sort_by_keys<T>(v: Vec<T>, keys: Vec<(u8, Vec<char>)>) -> (r: Vec<T>)
    requires
        keys@.len() == v@.len(),
    ensures
        stable_sorted(v@, key_views(keys@), r@),
{
    let ghost vv = v@;
    let ghost kk = key_views(keys@);
    let ghost n = v@.len() as int;
    let mut rem_v = v;
    let mut rem_k = keys;
    let mut out: Vec<T> = Vec::new();
    let ghost mut rem_idx: Seq<int> = Seq::new(n as nat, |i: int| i);
    let ghost mut out_idx: Seq<int> = Seq::empty();
    while rem_v.len() > 0
        invariant
            n == vv.len(),
            kk.len() == n,
            rem_v@.len() == rem_k@.len(),
            rem_v@.len() == rem_idx.len(),
            out@.len() == out_idx.len(),
            out_idx.len() + rem_idx.len() == n,
            forall|i: int| 0 <= i < rem_idx.len() ==> 0 <= #[trigger] rem_idx[i] < n,
            forall|i: int| 0 <= i < out_idx.len() ==> 0 <= #[trigger] out_idx[i] < n,
            forall|i: int| 0 <= i < rem_idx.len() ==> #[trigger] rem_v@[i] == vv[rem_idx[i]],
            forall|i: int|
                0 <= i < rem_idx.len() ==> #[trigger] key_views(rem_k@)[i] == kk[rem_idx[i]],
            forall|i: int| 0 <= i < out_idx.len() ==> #[trigger] out@[i] == vv[out_idx[i]],
            forall|i: int, j: int| 0 <= i < j < rem_idx.len() ==> rem_idx[i] < rem_idx[j],
            forall|i: int, j: int| 0 <= i < j < out_idx.len() ==> out_idx[i] != out_idx[j],
            forall|i: int, j: int|
                0 <= i < out_idx.len() && 0 <= j < rem_idx.len() ==> out_idx[i] != rem_idx[j],
            sorts_stably(kk, out_idx),
            forall|i: int, j: int|
                0 <= i < out_idx.len() && 0 <= j < rem_idx.len() ==> !key_lt(
                    kk[rem_idx[j]],
                    kk[out_idx[i]],
                ) && (kk[out_idx[i]] == kk[rem_idx[j]] ==> out_idx[i] < rem_idx[j]),
        decreases rem_v@.len(),
    {
        let mut best: usize = 0;
        let mut j: usize = 1;
        while j < rem_k.len()
            invariant
                rem_v@.len() == rem_k@.len(),
                rem_k@.len() > 0,
                best < j <= rem_k@.len(),
                forall|m: int|
                    0 <= m < best ==> key_lt(
                        key_views(rem_k@)[best as int],
                        key_views(rem_k@)[m],
                    ),
                forall|m: int|
                    best < m < j ==> !key_lt(
                        key_views(rem_k@)[m],
                        key_views(rem_k@)[best as int],
                    ),
            decreases rem_k@.len() - j,
        {
            if key_less(&rem_k[j], &rem_k[best]) {
                proof {
                    let kv = key_views(rem_k@);
                    assert forall|m: int| 0 <= m < j implies key_lt(kv[j as int], kv[m]) by {
                        lemma_key_order(kv[j as int], kv[best as int], kv[m]);
                        lemma_key_order(kv[m], kv[best as int], kv[j as int]);
                        if m < best {
                        } else if m == best {
                        } else {
                            lemma_key_order(kv[best as int], kv[m], kv[j as int]);
                            lemma_key_order(kv[j as int], kv[best as int], kv[m]);
                        }
                    }
                }
                best = j;
            }
            j += 1;
        }
        let ghost x = rem_idx[best as int];
        let ghost old_rem = rem_idx;
        let ghost old_out = out_idx;
        let ghost old_rk = key_views(rem_k@);
        proof {
            assert(old_rk[best as int] == kk[x]);
            assert forall|m: int| 0 <= m < old_rem.len() && m != best implies !key_lt(
                kk[old_rem[m]],
                kk[x],
            ) && (kk[x] == kk[old_rem[m]] ==> x < old_rem[m]) by {
                assert(old_rk[m] == kk[old_rem[m]]);
                lemma_key_order(kk[x], kk[old_rem[m]], kk[x]);
                if m < best {
                    lemma_key_order(kk[old_rem[m]], kk[x], kk[old_rem[m]]);
                }
            }
        }
        let e = rem_v.remove(best);
        let _k = rem_k.remove(best);
        out.push(e);
        proof {
            rem_idx = old_rem.remove(best as int);
            out_idx = old_out.push(x);
            assert(key_views(rem_k@) =~= old_rk.remove(best as int));
            assert forall|i: int, j: int| 0 <= i < j < out_idx.len() implies !key_lt(
                kk[out_idx[j]],
                kk[out_idx[i]],
            ) && (kk[out_idx[i]] == kk[out_idx[j]] ==> out_idx[i] < out_idx[j]) by {
                if j == out_idx.len() - 1 {
                    assert(out_idx[j] == x);
                    assert(out_idx[i] == old_out[i]);
                }
            }
            assert forall|i: int, j: int|
                0 <= i < out_idx.len() && 0 <= j < rem_idx.len() implies !key_lt(
                kk[rem_idx[j]],
                kk[out_idx[i]],
            ) && (kk[out_idx[i]] == kk[rem_idx[j]] ==> out_idx[i] < rem_idx[j]) by {
                let m = if j < best {
                    j
                } else {
                    j + 1
                };
                assert(rem_idx[j] == old_rem[m]);
                if i == out_idx.len() - 1 {
                    assert(out_idx[i] == x);
                    assert(m != best);
                    assert(old_rk[m] == kk[old_rem[m]]);
                    lemma_key_order(kk[x], kk[old_rem[m]], kk[x]);
                    if m < best {
                        lemma_key_order(kk[old_rem[m]], kk[x], kk[old_rem[m]]);
                    } else {
                        assert(old_rem[best as int] < old_rem[m]);
                    }
                    assert(!key_lt(kk[old_rem[m]], kk[x]));
                    assert(kk[x] == kk[old_rem[m]] ==> x < old_rem[m]);
                } else {
                    assert(out_idx[i] == old_out[i]);
                    assert(!key_lt(kk[old_rem[m]], kk[old_out[i]]));
                    assert(kk[old_out[i]] == kk[old_rem[m]] ==> old_out[i] < old_rem[m]);
                }
            }
            assert forall|i: int, j: int|
                0 <= i < out_idx.len() && 0 <= j < rem_idx.len() implies out_idx[i]
                != rem_idx[j] by {
                let m = if j < best {
                    j
                } else {
                    j + 1
                };
                assert(rem_idx[j] == old_rem[m]);
                if i == out_idx.len() - 1 {
                    assert(out_idx[i] == x);
                } else {
                    assert(out_idx[i] == old_out[i]);
                }
            }
            assert forall|i: int, j: int| 0 <= i < j < rem_idx.len() implies rem_idx[i]
                < rem_idx[j] by {
                let mi = if i < best {
                    i
                } else {
                    i + 1
                };
                let mj = if j < best {
                    j
                } else {
                    j + 1
                };
                assert(rem_idx[i] == old_rem[mi]);
                assert(rem_idx[j] == old_rem[mj]);
            }
            assert forall|i: int| 0 <= i < rem_idx.len() implies #[trigger] rem_v@[i]
                == vv[rem_idx[i]] by {
                let m = if i < best {
                    i
                } else {
                    i + 1
                };
                assert(rem_idx[i] == old_rem[m]);
            }
            assert forall|i: int| 0 <= i < rem_idx.len() implies #[trigger] key_views(
                rem_k@,
            )[i] == kk[rem_idx[i]] by {
                let m = if i < best {
                    i
                } else {
                    i + 1
                };
                assert(rem_idx[i] == old_rem[m]);
            }
        }
    }
    proof {
        assert(is_permutation(out_idx, n));
        assert forall|i: int| 0 <= i < out@.len() implies #[trigger] out@[i] == vv[out_idx[i]] by {
        }
    }
    out
}

} // verus!

verus! {

/// A permutation of `0..n` reaches every position.
pub proof fn lemma_permutation_onto(p: Seq<int>, n: int, k: int)
    requires
        is_permutation(p, n),
        0 <= k < n,
    ensures
        exists|i: int| 0 <= i < p.len() && #[trigger] p[i] == k,
{
    assert(p.no_duplicates()) by {
        assert forall|i: int, j: int| 0 <= i < p.len() && 0 <= j < p.len() && i != j implies p[i]
            != p[j] by {
            if i < j {
            } else {
            }
        }
    }
    p.unique_seq_to_set();
    vstd::set_lib::lemma_int_range(0, n);
    let s = p.to_set();
    let r = vstd::set_lib::set_int_range(0, n);
    assert(s.subset_of(r)) by {
        assert forall|x: int| s.contains(x) implies r.contains(x) by {
            let i = choose|i: int| 0 <= i < p.len() && p[i] == x;
        }
    }
    vstd::seq_lib::seq_to_set_is_finite(p);
    vstd::set_lib::lemma_subset_equality(s, r);
    assert(r.contains(k));
    assert(s.contains(k));
}

} // verus!
