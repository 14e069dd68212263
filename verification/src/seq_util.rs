use vstd::prelude::*;

verus! {

/// The concatenation of `f` applied to each element of `s`, in order.
pub open spec fn flat_map<A, B>(s: Seq<A>, f: spec_fn(A) -> Seq<B>) -> Seq<B>
    decreases s.len(),
{
    if s.len() == 0 {
        Seq::empty()
    } else {
        flat_map(s.drop_last(), f) + f(s.last())
    }
}

/// Extending a prefix by one element appends that element's image.
pub proof fn lemma_flat_map_step<A, B>(s: Seq<A>, f: spec_fn(A) -> Seq<B>, i: int)
    requires
        0 <= i < s.len(),
    ensures
        flat_map(s.take(i + 1), f) == flat_map(s.take(i), f) + f(s[i]),
{
    assert(s.take(i + 1).drop_last() =~= s.take(i));
}

/// Whatever `flat_map` yields comes from the image of some element.
pub proof fn lemma_flat_map_member<A, B>(s: Seq<A>, f: spec_fn(A) -> Seq<B>, x: B)
    requires
        flat_map(s, f).contains(x),
    ensures
        exists|j: int| 0 <= j < s.len() && (#[trigger] f(s[j])).contains(x),
    decreases s.len(),
{
    let w = s.drop_last();
    let a = flat_map(w, f);
    let b = f(s.last());
    assert(flat_map(s, f) == a + b);
    let i = choose|i: int| 0 <= i < flat_map(s, f).len() && flat_map(s, f)[i] == x;
    if i < a.len() {
        assert(a[i] == x);
        assert(a.contains(x));
        lemma_flat_map_member(w, f, x);
        let j = choose|j: int| 0 <= j < w.len() && (#[trigger] f(w[j])).contains(x);
        assert(w[j] == s[j]);
    } else {
        assert(b[i - a.len()] == x);
        assert(b.contains(x));
        assert(f(s[s.len() - 1]).contains(x));
    }
}

/// The image of each element is part of what `flat_map` yields.
pub proof fn lemma_flat_map_contains<A, B>(s: Seq<A>, f: spec_fn(A) -> Seq<B>, j: int, x: B)
    requires
        0 <= j < s.len(),
        f(s[j]).contains(x),
    ensures
        flat_map(s, f).contains(x),
    decreases s.len(),
{
    let w = s.drop_last();
    let a = flat_map(w, f);
    let b = f(s.last());
    assert(flat_map(s, f) == a + b);
    if j < w.len() {
        assert(w[j] == s[j]);
        lemma_flat_map_contains(w, f, j, x);
        let i = choose|i: int| 0 <= i < a.len() && a[i] == x;
        assert((a + b)[i] == x);
    } else {
        let i = choose|i: int| 0 <= i < b.len() && b[i] == x;
        assert((a + b)[a.len() + i] == x);
    }
}

/// The number of elements of `s` that satisfy `p`.
pub open spec fn count<A>(s: Seq<A>, p: spec_fn(A) -> bool) -> nat
    decreases s.len(),
{
    if s.len() == 0 {
        0
    } else {
        count(s.drop_last(), p) + if p(s.last()) {
            1nat
        } else {
            0nat
        }
    }
}

/// Extending a prefix by one element counts that element when it
/// satisfies `p`.
pub proof fn lemma_count_step<A>(s: Seq<A>, p: spec_fn(A) -> bool, i: int)
    requires
        0 <= i < s.len(),
    ensures
        count(s.take(i + 1), p) == count(s.take(i), p) + if p(s[i]) {
            1nat
        } else {
            0nat
        },
{
    assert(s.take(i + 1).drop_last() =~= s.take(i));
}

/// The keys of the elements of `v`.
pub open spec fn key_set<A, K>(v: Seq<A>, key: spec_fn(A) -> K) -> Set<K> {
    Set::new(|k: K| exists|j: int| 0 <= j < v.len() && #[trigger] key(v[j]) == k)
}

/// When the elements of `v` have distinct keys and `q` holds of an element
/// exactly when `p` holds of its key, counting the elements that satisfy `q`
/// counts the keys that satisfy `p`.
pub proof fn lemma_count_distinct_keys<A, K>(
    v: Seq<A>,
    key: spec_fn(A) -> K,
    q: spec_fn(A) -> bool,
    p: spec_fn(K) -> bool,
)
    requires
        forall|a: int, b: int|
            0 <= a < v.len() && 0 <= b < v.len() && a != b ==> #[trigger] key(v[a]) != #[trigger] key(
                v[b],
            ),
        forall|j: int| 0 <= j < v.len() ==> q(v[j]) == p(#[trigger] key(v[j])),
    ensures
        key_set(v, key).filter(p).finite(),
        count(v, q) == key_set(v, key).filter(p).len(),
    decreases v.len(),
{
    broadcast use vstd::set::group_set_axioms;

    if v.len() == 0 {
        assert(key_set(v, key).filter(p) =~= Set::<K>::empty());
    } else {
        let w = v.drop_last();
        let x = v.last();
        assert forall|j: int| 0 <= j < w.len() implies q(w[j]) == p(#[trigger] key(w[j])) by {
            assert(w[j] == v[j]);
        }
        assert forall|a: int, b: int|
            0 <= a < w.len() && 0 <= b < w.len() && a != b implies #[trigger] key(w[a])
            != #[trigger] key(w[b]) by {
            assert(w[a] == v[a] && w[b] == v[b]);
        }
        lemma_count_distinct_keys(w, key, q, p);
        let before = key_set(w, key).filter(p);
        let kx = key(x);
        assert(!key_set(w, key).contains(kx)) by {
            if key_set(w, key).contains(kx) {
                let j = choose|j: int| 0 <= j < w.len() && #[trigger] key(w[j]) == kx;
                assert(key(v[j]) == key(v[v.len() - 1]));
            }
        }
        assert(q(x) == p(kx)) by {
            assert(key(v[v.len() - 1]) == kx);
        }
        if p(kx) {
            assert(key_set(v, key).filter(p) =~= before.insert(kx)) by {
                assert forall|k: K| #[trigger] key_set(v, key).filter(p).contains(k) implies before.insert(
                    k,
                ).contains(k) && (k == kx || before.contains(k)) by {
                    let j = choose|j: int| 0 <= j < v.len() && #[trigger] key(v[j]) == k;
                    if j < w.len() {
                        assert(key(w[j]) == k);
                    }
                }
                assert forall|k: K| #[trigger] before.contains(k) implies key_set(v, key).filter(
                    p,
                ).contains(k) by {
                    let j = choose|j: int| 0 <= j < w.len() && #[trigger] key(w[j]) == k;
                    assert(key(v[j]) == k);
                }
                assert(key(v[v.len() - 1]) == kx);
            }
        } else {
            assert(key_set(v, key).filter(p) =~= before) by {
                assert forall|k: K| #[trigger] key_set(v, key).filter(p).contains(k) implies before.contains(
                    k,
                ) by {
                    let j = choose|j: int| 0 <= j < v.len() && #[trigger] key(v[j]) == k;
                    if j < w.len() {
                        assert(key(w[j]) == k);
                    }
                }
                assert forall|k: K| #[trigger] before.contains(k) implies key_set(v, key).filter(
                    p,
                ).contains(k) by {
                    let j = choose|j: int| 0 <= j < w.len() && #[trigger] key(w[j]) == k;
                    assert(key(v[j]) == k);
                }
            }
        }
    }
}

} // verus!
