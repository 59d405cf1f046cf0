//! Orderings: the stable sort by an integer key that the loader and the
//! statistics use, and the lexicographic order of texts.

use vstd::prelude::*;

verus! {

// ---------------------------------------------------------------------------
// Stable sort by key
// ---------------------------------------------------------------------------

/// Where an item with key `k` goes into `sorted` so that it comes after every
/// item whose key is not larger: just behind the last such item.
pub open spec fn insertion_point<T>(sorted: Seq<T>, key: spec_fn(T) -> int, k: int) -> int
    decreases sorted.len(),
{
    if sorted.len() == 0 {
        0
    } else if key(sorted.last()) <= k {
        sorted.len() as int
    } else {
        insertion_point(sorted.drop_last(), key, k)
    }
}

/// `s` sorted by ascending key, items of equal key in the order in which `s`
/// holds them.
pub open spec fn stable_sort<T>(s: Seq<T>, key: spec_fn(T) -> int) -> Seq<T>
    decreases s.len(),
{
    if s.len() == 0 {
        Seq::empty()
    } else {
        let sorted = stable_sort(s.drop_last(), key);
        sorted.insert(insertion_point(sorted, key, key(s.last())), s.last())
    }
}

/// Whether the keys of `s` never decrease.
pub open spec fn is_sorted<T>(s: Seq<T>, key: spec_fn(T) -> int) -> bool {
    forall|i: int, j: int| 0 <= i <= j < s.len() ==> key(#[trigger] s[i]) <= key(#[trigger] s[j])
}

/// The insertion point lies within the sequence; nothing before it has a
/// larger key, and everything from it on has one, where the sequence is
/// sorted.
pub proof fn lemma_insertion_point<T>(sorted: Seq<T>, key: spec_fn(T) -> int, k: int)
    requires
        is_sorted(sorted, key),
    ensures
        0 <= insertion_point(sorted, key, k) <= sorted.len(),
        forall|i: int|
            0 <= i < insertion_point(sorted, key, k) ==> key(#[trigger] sorted[i]) <= k,
        forall|i: int|
            insertion_point(sorted, key, k) <= i < sorted.len() ==> key(#[trigger] sorted[i]) > k,
    decreases sorted.len(),
{
    if sorted.len() == 0 {
    } else if key(sorted.last()) <= k {
        assert forall|i: int| 0 <= i < sorted.len() implies key(#[trigger] sorted[i]) <= k by {
            assert(key(sorted[i]) <= key(sorted[sorted.len() - 1]));
        }
    } else {
        let front = sorted.drop_last();
        assert(is_sorted(front, key)) by {
            assert forall|i: int, j: int| 0 <= i <= j < front.len() implies key(
                #[trigger] front[i],
            ) <= key(#[trigger] front[j]) by {
                assert(front[i] == sorted[i] && front[j] == sorted[j]);
            }
        }
        lemma_insertion_point(front, key, k);
        let p = insertion_point(front, key, k);
        assert forall|i: int| 0 <= i < p implies key(#[trigger] sorted[i]) <= k by {
            assert(front[i] == sorted[i]);
        }
        assert forall|i: int| p <= i < sorted.len() implies key(#[trigger] sorted[i]) > k by {
            if i < front.len() {
                assert(front[i] == sorted[i]);
            }
        }
    }
}

/// Sorting keeps every item, each as often as it occurred, and puts the keys
/// in ascending order.
pub proof fn lemma_stable_sort<T>(s: Seq<T>, key: spec_fn(T) -> int)
    ensures
        stable_sort(s, key).len() == s.len(),
        is_sorted(stable_sort(s, key), key),
        stable_sort(s, key).to_multiset() == s.to_multiset(),
    decreases s.len(),
{
    broadcast use vstd::seq_lib::group_to_multiset_ensures;

    if s.len() == 0 {
        assert(stable_sort(s, key) =~= s);
    } else {
        let front = s.drop_last();
        let x = s.last();
        lemma_stable_sort(front, key);
        let sorted = stable_sort(front, key);
        lemma_insertion_point(sorted, key, key(x));
        let p = insertion_point(sorted, key, key(x));
        let r = sorted.insert(p, x);
        assert(is_sorted(r, key)) by {
            assert forall|i: int, j: int| 0 <= i <= j < r.len() implies key(#[trigger] r[i])
                <= key(#[trigger] r[j]) by {
                if i < p && j < p {
                    assert(r[i] == sorted[i] && r[j] == sorted[j]);
                } else if i < p && j == p {
                    assert(r[i] == sorted[i]);
                } else if i < p && j > p {
                    assert(r[i] == sorted[i] && r[j] == sorted[j - 1]);
                } else if i == p && j > p {
                    assert(r[j] == sorted[j - 1]);
                } else if i > p {
                    assert(r[i] == sorted[i - 1] && r[j] == sorted[j - 1]);
                }
            }
        }
        assert(r.to_multiset() == s.to_multiset()) by {
            assert(s =~= front.push(x));
            vstd::seq_lib::to_multiset_insert(sorted, p, x);
            vstd::seq_lib::to_multiset_build(front, x);
        }
    }
}

/// Filtering a sequence in which nothing passes leaves nothing.
pub proof fn lemma_filter_none<T>(s: Seq<T>, keep: spec_fn(T) -> bool)
    requires
        forall|i: int| 0 <= i < s.len() ==> !keep(#[trigger] s[i]),
    ensures
        s.filter(keep) == Seq::<T>::empty(),
    decreases s.len(),
{
    reveal(Seq::filter);
    if s.len() > 0 {
        let front = s.drop_last();
        assert forall|i: int| 0 <= i < front.len() implies !keep(#[trigger] front[i]) by {
            assert(front[i] == s[i]);
        }
        lemma_filter_none(front, keep);
    }
}

// ---------------------------------------------------------------------------
// Lexicographic order of texts
// ---------------------------------------------------------------------------

/// Whether `a` comes strictly before `b` in lexicographic order of code
/// points: at the first position where they differ `a` holds the smaller
/// character, or `a` ends there and `b` does not.
pub open spec fn text_before(a: Seq<char>, b: Seq<char>) -> bool
    decreases a.len(),
{
    if b.len() == 0 {
        false
    } else if a.len() == 0 {
        true
    } else if a[0] != b[0] {
        a[0] < b[0]
    } else {
        text_before(a.skip(1), b.skip(1))
    }
}

/// Of two texts exactly one holds: the first comes before the second, they
/// are equal, or the second comes before the first.
pub proof fn lemma_text_order_total(a: Seq<char>, b: Seq<char>)
    ensures
        text_before(a, b) || a == b || text_before(b, a),
        !(text_before(a, b) && a == b),
        !(text_before(a, b) && text_before(b, a)),
    decreases a.len(),
{
    if a.len() == 0 || b.len() == 0 {
        if a.len() == 0 && b.len() == 0 {
            assert(a =~= b);
        }
    } else if a[0] != b[0] {
    } else {
        lemma_text_order_total(a.skip(1), b.skip(1));
        if a.skip(1) == b.skip(1) {
            assert(a =~= seq![a[0]] + a.skip(1));
            assert(b =~= seq![b[0]] + b.skip(1));
        }
        if a == b {
            assert(a.skip(1) =~= b.skip(1));
        }
    }
}

/// The order of texts is transitive.
pub proof fn lemma_text_order_transitive(a: Seq<char>, b: Seq<char>, c: Seq<char>)
    requires
        text_before(a, b),
        text_before(b, c),
    ensures
        text_before(a, c),
    decreases a.len(),
{
    if a.len() == 0 {
    } else if a[0] != b[0] {
        if b[0] == c[0] {
        }
    } else if b[0] != c[0] {
    } else {
        lemma_text_order_transitive(a.skip(1), b.skip(1), c.skip(1));
    }
}

/// Compares two texts: -1 where the first comes before the second, 0 where
/// they are equal, 1 where the second comes before the first.
pub fn text_order(a: &Vec<char>, b: &Vec<char>) -> (r: i8)
    ensures
        r == -1 <==> text_before(a@, b@),
        r == 0 <==> a@ == b@,
        r == 1 <==> text_before(b@, a@),
        r == -1 || r == 0 || r == 1,
{
    let mut i: usize = 0;
    proof {
        assert(a@.skip(0) =~= a@);
        assert(b@.skip(0) =~= b@);
        lemma_text_order_total(a@, b@);
    }
    while i < a.len() && i < b.len()
        invariant
            i <= a.len(),
            i <= b.len(),
            text_before(a@, b@) == text_before(a@.skip(i as int), b@.skip(i as int)),
            text_before(b@, a@) == text_before(b@.skip(i as int), a@.skip(i as int)),
            a@.take(i as int) == b@.take(i as int),
        decreases a.len() - i,
    {
        let x = a[i];
        let y = b[i];
        proof {
            assert(a@.skip(i as int)[0] == x);
            assert(b@.skip(i as int)[0] == y);
            assert(a@.skip(i as int).skip(1) =~= a@.skip(i + 1));
            assert(b@.skip(i as int).skip(1) =~= b@.skip(i + 1));
            lemma_text_order_total(a@, b@);
        }
        if x != y {
            proof {
                if a@ == b@ {
                    assert(a@[i as int] == b@[i as int]);
                }
            }
            if x < y {
                return -1;
            } else {
                return 1;
            }
        }
        proof {
            assert(a@.take(i + 1) =~= a@.take(i as int).push(x));
            assert(b@.take(i + 1) =~= b@.take(i as int).push(y));
        }
        i += 1;
    }
    proof {
        lemma_text_order_total(a@, b@);
        if a.len() == b.len() {
            assert(a@ =~= a@.take(i as int));
            assert(b@ =~= b@.take(i as int));
        }
    }
    if i < b.len() {
        -1
    } else if i < a.len() {
        1
    } else {
        0
    }
}

} // verus!
