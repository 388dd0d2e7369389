use vstd::prelude::*;
use vstd::string::StringSliceAdditionalSpecFns;

verus! {

/// `a` comes before `b` in byte-wise lexicographic order, the order of
/// `str`: at the first position where they differ `a` has the smaller byte,
/// or `a` is a proper prefix of `b`.
pub open spec fn bytes_lt(a: Seq<u8>, b: Seq<u8>) -> bool {
    exists|k: int| #[trigger] differs_first(a, b, k) && (k < a.len() ==> a[k] < b[k])
}

/// `k` is where `a` and `b` first part: they agree before it, and at `k` one
/// of them ends or their bytes differ; for `bytes_lt`, `a` has not ended.
pub open spec fn differs_first(a: Seq<u8>, b: Seq<u8>, k: int) -> bool {
    &&& 0 <= k <= a.len()
    &&& k < b.len()
    &&& a.take(k) == b.take(k)
}

proof fn lemma_first_difference(a: Seq<u8>, b: Seq<u8>, i: int)
    requires
        a != b,
        0 <= i <= a.len(),
        i <= b.len(),
        a.take(i) == b.take(i),
    ensures
        bytes_lt(a, b) || bytes_lt(b, a),
    decreases a.len() - i,
{
    if i == a.len() && i == b.len() {
        assert(a =~= a.take(i));
        assert(b =~= b.take(i));
    } else if i == a.len() {
        assert(differs_first(a, b, i));
    } else if i == b.len() {
        assert(differs_first(b, a, i));
    } else if a[i] != b[i] {
        if a[i] < b[i] {
            assert(differs_first(a, b, i));
        } else {
            assert(differs_first(b, a, i));
        }
    } else {
        assert(a.take(i + 1) =~= a.take(i).push(a[i]));
        assert(b.take(i + 1) =~= b.take(i).push(b[i]));
        lemma_first_difference(a, b, i + 1);
    }
}

/// Two different byte strings are ordered one way or the other.
pub proof fn lemma_bytes_total(a: Seq<u8>, b: Seq<u8>)
    requires
        a != b,
    ensures
        bytes_lt(a, b) || bytes_lt(b, a),
{
    assert(a.take(0) =~= b.take(0));
    lemma_first_difference(a, b, 0);
}

/// Whether `a` sorts before `b` by their bytes.
pub fn str_less(a: &str, b: &str) -> (r: bool)
    ensures
        r == bytes_lt(a.spec_bytes(), b.spec_bytes()),
{
    let x = a.as_bytes();
    let y = b.as_bytes();
    let ghost sa = a.spec_bytes();
    let ghost sb = b.spec_bytes();
    let mut i: usize = 0;
    while i < x.len() && i < y.len() && x[i] == y[i]
        invariant
            x@ == sa,
            y@ == sb,
            i <= x@.len(),
            i <= y@.len(),
            sa.take(i as int) == sb.take(i as int),
        decreases x@.len() - i,
    {
        assert(sa.take(i + 1) =~= sa.take(i as int).push(sa[i as int]));
        assert(sb.take(i + 1) =~= sb.take(i as int).push(sb[i as int]));
        i = i + 1;
    }
    let r = i < y.len() && (i == x.len() || x[i] < y[i]);
    if r {
        assert(differs_first(sa, sb, i as int));
    } else {
        assert forall|k: int| #[trigger] differs_first(sa, sb, k) implies !(k < sa.len() ==> sa[k]
            < sb[k]) by {
            if k < i {
                assert(sa.take(i as int)[k] == sa[k]);
                assert(sb.take(i as int)[k] == sb[k]);
            } else if k > i {
                assert(sa.take(k)[i as int] == sa[i as int]);
                assert(sb.take(k)[i as int] == sb[i as int]);
            }
        }
    }
    r
}

/// Byte-wise order is transitive.
pub proof fn lemma_bytes_trans(a: Seq<u8>, b: Seq<u8>, c: Seq<u8>)
    requires
        bytes_lt(a, b),
        bytes_lt(b, c),
    ensures
        bytes_lt(a, c),
{
    let k1 = choose|k: int| #[trigger] differs_first(a, b, k) && (k < a.len() ==> a[k] < b[k]);
    let k2 = choose|k: int| #[trigger] differs_first(b, c, k) && (k < b.len() ==> b[k] < c[k]);
    let k = if k1 <= k2 { k1 } else { k2 };
    assert(a.take(k) =~= b.take(k1).take(k));
    assert(c.take(k) =~= b.take(k2).take(k));
    assert(a.take(k) =~= c.take(k)) by {
        assert(b.take(k1).take(k) =~= b.take(k));
        assert(b.take(k2).take(k) =~= b.take(k));
    }
    if k1 < k2 {
        if k1 < a.len() {
            assert(b.take(k2)[k1] == c.take(k2)[k1]);
        }
    } else if k2 < k1 {
        assert(a.take(k1)[k2] == b.take(k1)[k2]);
    }
    assert(differs_first(a, c, k));
}

/// The bytes of a path, by which paths are ordered.
pub open spec fn key(s: String) -> Seq<u8> {
    vstd::utf8::encode_utf8(s@)
}

/// `order` lists each index below `n` exactly once.
pub open spec fn is_permutation(order: Seq<usize>, n: nat) -> bool {
    &&& order.len() == n
    &&& forall|i: int| 0 <= i < order.len() ==> #[trigger] order[i] < n
    &&& order.no_duplicates()
}

/// Every index below `n` occurs in `order`.
pub open spec fn covers(order: Seq<usize>, n: nat) -> bool {
    forall|x: usize| (x as nat) < n ==> #[trigger] order.contains(x)
}

/// The paths at `order` come in strictly ascending byte order.
pub open spec fn ascending(paths: Seq<String>, order: Seq<usize>) -> bool {
    forall|i: int|
        0 <= i < order.len() - 1 ==> bytes_lt(
            key(paths[#[trigger] order[i] as int]),
            key(paths[order[i + 1] as int]),
        )
}

/// No two paths are the same.
pub open spec fn distinct_paths(paths: Seq<String>) -> bool {
    forall|i: int, j: int|
        0 <= i < paths.len() && 0 <= j < paths.len() && i != j ==> paths[i]@ != paths[j]@
}

/// Where each index of `next` comes from in `order + rest` once the element
/// at `p` of `rest` has moved to the end of `order`.
spec fn moved_from(o: int, p: int, a: int) -> int {
    if a < o {
        a
    } else if a == o {
        o + p
    } else if a - o - 1 < p {
        a - 1
    } else {
        a
    }
}

/// Where the element at `t` of `order + rest` lands.
spec fn moved_to(o: int, p: int, t: int) -> int {
    if t < o {
        t
    } else if t == o + p {
        o
    } else if t < o + p {
        t + 1
    } else {
        t
    }
}

/// The indices of `paths`, ordered so that their paths ascend by bytes.
pub fn sorted_order(paths: &Vec<String>) -> (r: Vec<usize>)
    requires
        distinct_paths(paths@),
    ensures
        is_permutation(r@, paths@.len()),
        covers(r@, paths@.len()),
        ascending(paths@, r@),
{
    broadcast use vstd::utf8::encode_utf8_decode_utf8;

    let n = paths.len();
    let mut rest: Vec<usize> = Vec::new();
    let mut i: usize = 0;
    while i < n
        invariant
            i <= n,
            n == paths@.len(),
            rest@ == Seq::new(i as nat, |k: int| k as usize),
        decreases n - i,
    {
        rest.push(i);
        i = i + 1;
        assert(rest@ =~= Seq::new(i as nat, |k: int| k as usize));
    }
    let mut order: Vec<usize> = Vec::new();
    assert(order@ + rest@ =~= rest@);
    assert forall|x: usize| (x as nat) < n implies #[trigger] rest@.contains(x) by {
        assert(rest@[x as int] == x);
    }
    while rest.len() > 0
        invariant
            n == paths@.len(),
            distinct_paths(paths@),
            is_permutation(order@ + rest@, n as nat),
            covers(order@ + rest@, n as nat),
            ascending(paths@, order@),
            forall|a: int, b: int|
                0 <= a < order@.len() && 0 <= b < rest@.len() ==> bytes_lt(
                    key(paths@[#[trigger] order@[a] as int]),
                    key(paths@[#[trigger] rest@[b] as int]),
                ),
        decreases rest@.len(),
    {
        let ghost all = order@ + rest@;
        assert(forall|b: int| 0 <= b < rest@.len() ==> rest@[b] == all[order@.len() + b]);
        let mut p: usize = 0;
        let mut x: usize = 1;
        while x < rest.len()
            invariant
                n == paths@.len(),
                is_permutation(order@ + rest@, n as nat),
                all == order@ + rest@,
                p < rest@.len(),
                1 <= x <= rest@.len(),
                forall|y: int|
                    0 <= y < x ==> !bytes_lt(
                        key(paths@[#[trigger] rest@[y] as int]),
                        key(paths@[rest@[p as int] as int]),
                    ),
            decreases rest@.len() - x,
        {
            assert(rest@[x as int] == all[order@.len() + x]);
            assert(rest@[p as int] == all[order@.len() + p]);
            if str_less(paths[rest[x]].as_str(), paths[rest[p]].as_str()) {
                assert forall|y: int| 0 <= y < x implies !bytes_lt(
                    key(paths@[#[trigger] rest@[y] as int]),
                    key(paths@[rest@[x as int] as int]),
                ) by {
                    if bytes_lt(key(paths@[rest@[y] as int]), key(paths@[rest@[x as int] as int])) {
                        lemma_bytes_trans(
                            key(paths@[rest@[y] as int]),
                            key(paths@[rest@[x as int] as int]),
                            key(paths@[rest@[p as int] as int]),
                        );
                    }
                }
                assert(!bytes_lt(key(paths@[rest@[x as int] as int]), key(paths@[rest@[x as int] as int]))) by {
                    let q = key(paths@[rest@[x as int] as int]);
                    assert forall|k: int| #[trigger] differs_first(q, q, k) implies !(k < q.len() ==> q[k] < q[k]) by {}
                }
                p = x;
            }
            x = x + 1;
        }
        let ghost old_order = order@;
        let ghost old_rest = rest@;
        let o = order.len();
        assert(rest@[p as int] == all[o + p]);
        let m = rest.remove(p);
        order.push(m);
        let ghost next = order@ + rest@;
        assert forall|a: int| 0 <= a < next.len() implies #[trigger] next[a] == all[moved_from(
            o as int,
            p as int,
            a,
        )] by {
            if a < o {
                assert(next[a] == old_order[a]);
            } else if a == o {
            } else if a - o - 1 < p {
                assert(next[a] == old_rest[a - o - 1]);
            } else {
                assert(next[a] == old_rest[a - o]);
            }
        }
        assert(next.no_duplicates()) by {
            assert forall|a: int, b: int| 0 <= a < next.len() && 0 <= b < next.len() && a != b implies next[a] != next[b] by {
                assert(next[a] == all[moved_from(o as int, p as int, a)]);
                assert(next[b] == all[moved_from(o as int, p as int, b)]);
            }
        }
        assert forall|x: usize| (x as nat) < n implies #[trigger] next.contains(x) by {
            assert(all.contains(x));
            let t = choose|t: int| 0 <= t < all.len() && all[t] == x;
            let a = moved_to(o as int, p as int, t);
            assert(moved_from(o as int, p as int, a) == t);
            assert(next[a] == x);
        }
        assert forall|a: int| 0 <= a < next.len() implies #[trigger] next[a] < n by {
            assert(next[a] == all[moved_from(o as int, p as int, a)]);
        }
        assert forall|b: int| 0 <= b < rest@.len() implies bytes_lt(
            key(paths@[m as int]),
            key(paths@[#[trigger] rest@[b] as int]),
        ) by {
            let bb = if b < p { b } else { b + 1 };
            assert(rest@[b] == old_rest[bb]);
            assert(old_rest[bb] == all[o + bb]);
            assert(m == all[o + p]);
            assert(!bytes_lt(key(paths@[old_rest[bb] as int]), key(paths@[m as int])));
            assert(paths@[old_rest[bb] as int]@ != paths@[m as int]@);
            assert(key(paths@[old_rest[bb] as int]) != key(paths@[m as int])) by {
                vstd::utf8::encode_utf8_decode_utf8(paths@[old_rest[bb] as int]@);
                vstd::utf8::encode_utf8_decode_utf8(paths@[m as int]@);
            }
            lemma_bytes_total(key(paths@[old_rest[bb] as int]), key(paths@[m as int]));
        }
        assert forall|a: int, b: int|
            0 <= a < order@.len() && 0 <= b < rest@.len() implies bytes_lt(
            key(paths@[#[trigger] order@[a] as int]),
            key(paths@[#[trigger] rest@[b] as int]),
        ) by {
            let bb = if b < p { b } else { b + 1 };
            assert(rest@[b] == old_rest[bb]);
            if a < o {
                assert(order@[a] == old_order[a]);
            }
        }
        assert forall|a: int| 0 <= a < order@.len() - 1 implies bytes_lt(
            key(paths@[#[trigger] order@[a] as int]),
            key(paths@[order@[a + 1] as int]),
        ) by {
            assert(order@[a] == old_order[a]);
            if a + 1 < o {
                assert(order@[a + 1] == old_order[a + 1]);
            } else {
                assert(old_rest[p as int] == m);
            }
        }
    }
    assert(order@ + rest@ =~= order@);
    order
}

/// No byte string comes before itself.
pub proof fn lemma_bytes_irreflexive(a: Seq<u8>)
    ensures
        !bytes_lt(a, a),
{
    assert forall|k: int| #[trigger] differs_first(a, a, k) implies !(k < a.len() ==> a[k] < a[k]) by {}
}

/// Along an ascending order, the path at `a` comes before that at each later
/// position `b`.
pub proof fn lemma_ascending_from(paths: Seq<String>, order: Seq<usize>, a: int, b: int)
    requires
        ascending(paths, order),
        0 <= a < b < order.len(),
    ensures
        bytes_lt(key(paths[order[a] as int]), key(paths[order[b] as int])),
    decreases b - a,
{
    if b > a + 1 {
        lemma_ascending_from(paths, order, a, b - 1);
        assert(bytes_lt(key(paths[order[b - 1] as int]), key(paths[order[b] as int])));
        lemma_bytes_trans(
            key(paths[order[a] as int]),
            key(paths[order[b - 1] as int]),
            key(paths[order[b] as int]),
        );
    } else {
        assert(bytes_lt(key(paths[order[a] as int]), key(paths[order[a + 1] as int])));
    }
}

} // verus!
