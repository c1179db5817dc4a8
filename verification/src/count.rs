use vstd::prelude::*;

verus! {

/// Number of indices below `n` that satisfy `pred`.
pub open spec fn count_where(n: int, pred: spec_fn(int) -> bool) -> int
    decreases n,
{
    if n <= 0 {
        0
    } else {
        count_where(n - 1, pred) + if pred(n - 1) { 1int } else { 0int }
    }
}

pub proof fn lemma_count_mono(n: int, a: spec_fn(int) -> bool, b: spec_fn(int) -> bool)
    requires
        forall|j: int| 0 <= j < n && #[trigger] a(j) ==> b(j),
    ensures
        count_where(n, a) <= count_where(n, b),
    decreases n,
{
    if n > 0 {
        lemma_count_mono(n - 1, a, b);
    }
}

pub proof fn lemma_count_positive(n: int, a: spec_fn(int) -> bool)
    requires
        count_where(n, a) > 0,
    ensures
        exists|j: int| 0 <= j < n && #[trigger] a(j),
    decreases n,
{
    if n > 0 {
        if !a(n - 1) {
            lemma_count_positive(n - 1, a);
        }
    }
}

pub open spec fn image(n: int, pred: spec_fn(int) -> bool, val: spec_fn(int) -> int) -> Set<int> {
    Set::new(|v: int| exists|j: int| 0 <= j < n && #[trigger] pred(j) && val(j) == v)
}

pub proof fn lemma_count_is_image(n: int, pred: spec_fn(int) -> bool, val: spec_fn(int) -> int)
    requires
        n >= 0,
        forall|j1: int, j2: int| #![trigger pred(j1), pred(j2)]
            0 <= j1 < n && 0 <= j2 < n && j1 != j2 && pred(j1) && pred(j2) ==> val(j1) != val(j2),
    ensures
        image(n, pred, val).finite(),
        count_where(n, pred) == image(n, pred, val).len(),
    decreases n,
{
    if n == 0 {
        assert(image(n, pred, val) =~= Set::<int>::empty());
    } else {
        lemma_count_is_image(n - 1, pred, val);
        let s = image(n - 1, pred, val);
        if pred(n - 1) {
            assert(image(n, pred, val) =~= s.insert(val(n - 1)));
            assert(!s.contains(val(n - 1)));
        } else {
            assert(image(n, pred, val) =~= s);
        }
    }
}

/// Counting indices whose values are distinct and lie in `0..m` gives at most `m`.
pub proof fn lemma_count_distinct_bound(n: int, pred: spec_fn(int) -> bool, val: spec_fn(int) -> int, m: int)
    requires
        n >= 0,
        m >= 0,
        forall|j: int| 0 <= j < n && #[trigger] pred(j) ==> 0 <= val(j) < m,
        forall|j1: int, j2: int| #![trigger pred(j1), pred(j2)]
            0 <= j1 < n && 0 <= j2 < n && j1 != j2 && pred(j1) && pred(j2) ==> val(j1) != val(j2),
    ensures
        count_where(n, pred) <= m,
{
    lemma_count_is_image(n, pred, val);
    vstd::set_lib::lemma_int_range(0, m);
    assert(image(n, pred, val).subset_of(vstd::set_lib::set_int_range(0, m)));
    vstd::set_lib::lemma_len_subset(image(n, pred, val), vstd::set_lib::set_int_range(0, m));
}

pub proof fn lemma_count_split(n: int, a: spec_fn(int) -> bool, b: spec_fn(int) -> bool, c: spec_fn(int) -> bool)
    requires
        forall|j: int| #[trigger] c(j) == (a(j) || b(j)),
        forall|j: int| 0 <= j < n ==> !(#[trigger] a(j) && b(j)),
    ensures
        count_where(n, c) == count_where(n, a) + count_where(n, b),
    decreases n,
{
    if n > 0 {
        lemma_count_split(n - 1, a, b, c);
    }
}

pub proof fn lemma_count_ext(n: int, a: spec_fn(int) -> bool, b: spec_fn(int) -> bool)
    requires
        forall|j: int| 0 <= j < n ==> #[trigger] a(j) == b(j),
    ensures
        count_where(n, a) == count_where(n, b),
    decreases n,
{
    if n > 0 {
        lemma_count_ext(n - 1, a, b);
    }
}

pub proof fn lemma_count_none(n: int, a: spec_fn(int) -> bool)
    requires
        forall|j: int| 0 <= j < n ==> !#[trigger] a(j),
    ensures
        count_where(n, a) == 0,
    decreases n,
{
    if n > 0 {
        lemma_count_none(n - 1, a);
    }
}

/// Counting over a predicate that implies another, and misses one index that the other
/// holds, gives strictly less.
pub proof fn lemma_count_strict(n: int, a: spec_fn(int) -> bool, b: spec_fn(int) -> bool, w: int)
    requires
        forall|j: int| 0 <= j < n && #[trigger] a(j) ==> b(j),
        0 <= w < n,
        b(w),
        !a(w),
    ensures
        count_where(n, a) < count_where(n, b),
    decreases n,
{
    if w < n - 1 {
        lemma_count_strict(n - 1, a, b, w);
    } else {
        lemma_count_mono(n - 1, a, b);
    }
}

} // verus!
