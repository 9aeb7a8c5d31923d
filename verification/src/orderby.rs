//! The ordering engine: an ordered list of sort keys defines a
//! multi-key comparator, and records are sorted by a stable insertion
//! sort, so records tied on every key keep their prior relative order.

use vstd::prelude::*;

use crate::text::{spec_str_cmp, str_cmp};

verus! {

/// The direction of one sort key.
#[derive(Debug, Clone, Copy, PartialEq, Eq, Structural)]
pub enum Orderby {
    Asc,
    Desc,
}

/// The opposite comparison outcome.
pub open spec fn flip_ord(o: core::cmp::Ordering) -> core::cmp::Ordering {
    match o {
        core::cmp::Ordering::Less => core::cmp::Ordering::Greater,
        core::cmp::Ordering::Equal => core::cmp::Ordering::Equal,
        core::cmp::Ordering::Greater => core::cmp::Ordering::Less,
    }
}

/// One sort-key input over one record shape: a choice of sorted field
/// and direction, defining a comparison of two records.
pub trait OrderbyInput: Sized {
    type Output;

    /// The input names a field to sort by.
    spec fn spec_populated(&self) -> bool;

    /// The comparison this input defines.
    spec fn spec_cmp(&self, a: Self::Output, b: Self::Output) -> core::cmp::Ordering;

    /// What sorting by a key list yields: the stable sort under the
    /// multi-key comparator of the list.
    spec fn spec_sort(orders: Seq<Self>, s: Seq<Self::Output>) -> Seq<Self::Output>;

    /// Decides `spec_cmp`.
    fn cmp_orderby(&self, a: &Self::Output, b: &Self::Output) -> (r: core::cmp::Ordering)
        requires
            self.spec_populated(),
        ensures
            r == self.spec_cmp(*a, *b),
    ;

    /// Sorts the collection by the ordered key list: compare by the
    /// first key; on a tie, by the next; records tied on every key
    /// keep their prior relative order. An empty key list leaves the
    /// input order unchanged.
    fn orderby(arr: &mut Vec<Self::Output>, orders: Vec<Self>)
        requires
            forall|i: int| 0 <= i < orders@.len() ==> (#[trigger] orders@[i]).spec_populated(),
        ensures
            final(arr)@ == Self::spec_sort(orders@, old(arr)@),
    ;
}

/// Compares by the first key of the list, under the per-key
/// comparator `kc`; on a tie, by the rest of the list.
pub open spec fn spec_multi_cmp<O, R>(
    kc: spec_fn(O, R, R) -> core::cmp::Ordering,
    orders: Seq<O>,
    a: R,
    b: R,
) -> core::cmp::Ordering
    decreases orders.len(),
{
    if orders.len() == 0 {
        core::cmp::Ordering::Equal
    } else if kc(orders[0], a, b) != core::cmp::Ordering::Equal {
        kc(orders[0], a, b)
    } else {
        spec_multi_cmp(kc, orders.drop_first(), a, b)
    }
}

/// The multi-key comparator of a key list, as a function value.
pub open spec fn multi_cmp<O, R>(
    kc: spec_fn(O, R, R) -> core::cmp::Ordering,
    orders: Seq<O>,
) -> spec_fn(R, R) -> core::cmp::Ordering {
    |a: R, b: R| spec_multi_cmp(kc, orders, a, b)
}

/// Inserts `x` before the first record that compares greater than it:
/// among records tied with `x`, the newcomer goes last.
pub open spec fn spec_insert<R>(s: Seq<R>, x: R, c: spec_fn(R, R) -> core::cmp::Ordering) -> Seq<
    R,
>
    decreases s.len(),
{
    if s.len() == 0 {
        seq![x]
    } else if c(s[0], x) == core::cmp::Ordering::Greater {
        seq![x] + s
    } else {
        seq![s[0]] + spec_insert(s.drop_first(), x, c)
    }
}

/// Stable insertion sort: records are inserted in input order, each
/// after every record it ties with.
pub open spec fn spec_stable_sort<R>(s: Seq<R>, c: spec_fn(R, R) -> core::cmp::Ordering) -> Seq<R>
    decreases s.len(),
{
    if s.len() == 0 {
        Seq::empty()
    } else {
        spec_insert(spec_stable_sort(s.drop_last(), c), s.last(), c)
    }
}

/// Inserting at the first greater-comparing position is `spec_insert`.
pub proof fn lemma_insert_at<R>(s: Seq<R>, x: R, c: spec_fn(R, R) -> core::cmp::Ordering, j: int)
    requires
        0 <= j <= s.len(),
        forall|t: int| 0 <= t < j ==> c(#[trigger] s[t], x) != core::cmp::Ordering::Greater,
        j < s.len() ==> c(s[j], x) == core::cmp::Ordering::Greater,
    ensures
        spec_insert(s, x, c) == s.take(j) + seq![x] + s.skip(j),
    decreases s.len(),
{
    if s.len() == 0 {
        assert(spec_insert(s, x, c) =~= s.take(j) + seq![x] + s.skip(j));
    } else if c(s[0], x) == core::cmp::Ordering::Greater {
        assert(j == 0);
        assert(s.take(0) =~= Seq::<R>::empty());
        assert(s.skip(0) =~= s);
        assert(seq![x] + s =~= s.take(j) + seq![x] + s.skip(j));
    } else {
        assert(j > 0);
        assert(forall|t: int|
            0 <= t < j - 1 ==> c(#[trigger] s.drop_first()[t], x) != core::cmp::Ordering::Greater);
        assert(j - 1 < s.drop_first().len() ==> c(s.drop_first()[j - 1], x)
            == core::cmp::Ordering::Greater);
        lemma_insert_at(s.drop_first(), x, c, j - 1);
        assert(seq![s[0]] + (s.drop_first().take(j - 1) + seq![x] + s.drop_first().skip(j - 1))
            =~= s.take(j) + seq![x] + s.skip(j));
    }
}

/// A record that every present record ties with or precedes goes last.
proof fn lemma_insert_all_not_greater<R>(s: Seq<R>, x: R, c: spec_fn(R, R) -> core::cmp::Ordering)
    requires
        forall|t: int| 0 <= t < s.len() ==> c(#[trigger] s[t], x) != core::cmp::Ordering::Greater,
    ensures
        spec_insert(s, x, c) == s.push(x),
{
    lemma_insert_at(s, x, c, s.len() as int);
    assert(s.take(s.len() as int) =~= s);
    assert(s.skip(s.len() as int) =~= Seq::<R>::empty());
    assert(s.take(s.len() as int) + seq![x] + s.skip(s.len() as int) =~= s.push(x));
}

/// Sorting a collection whose records compare equal on every key
/// preserves the original relative order; in particular an empty key
/// list returns the input unchanged.
pub proof fn lemma_sort_ties_stable<R>(s: Seq<R>, c: spec_fn(R, R) -> core::cmp::Ordering)
    requires
        forall|i: int, j: int|
            0 <= i < s.len() && 0 <= j < s.len() ==> c(#[trigger] s[i], #[trigger] s[j])
                == core::cmp::Ordering::Equal,
    ensures
        spec_stable_sort(s, c) == s,
    decreases s.len(),
{
    if s.len() == 0 {
        assert(spec_stable_sort(s, c) =~= s);
    } else {
        assert(forall|i: int, j: int|
            0 <= i < s.drop_last().len() && 0 <= j < s.drop_last().len() ==> c(
                #[trigger] s.drop_last()[i],
                #[trigger] s.drop_last()[j],
            ) == core::cmp::Ordering::Equal);
        lemma_sort_ties_stable(s.drop_last(), c);
        assert(s.last() == s[s.len() - 1]);
        assert forall|t: int| 0 <= t < s.drop_last().len() implies c(
            #[trigger] s.drop_last()[t],
            s.last(),
        ) != core::cmp::Ordering::Greater by {
            assert(s.drop_last()[t] == s[t]);
        }
        lemma_insert_all_not_greater(s.drop_last(), s.last(), c);
        assert(s.drop_last().push(s.last()) =~= s);
    }
}

/// With an empty key list every pair of records compares equal, so
/// sorting returns the input unchanged.
pub proof fn lemma_sort_empty_keys<O, R>(kc: spec_fn(O, R, R) -> core::cmp::Ordering, s: Seq<R>)
    ensures
        spec_stable_sort(s, multi_cmp(kc, Seq::<O>::empty())) == s,
{
    assert forall|i: int, j: int|
        0 <= i < s.len() && 0 <= j < s.len() implies multi_cmp(kc, Seq::<O>::empty())(
        #[trigger] s[i],
        #[trigger] s[j],
    ) == core::cmp::Ordering::Equal by {
        assert(spec_multi_cmp(kc, Seq::<O>::empty(), s[i], s[j]) == core::cmp::Ordering::Equal);
    }
    lemma_sort_ties_stable(s, multi_cmp(kc, Seq::<O>::empty()));
}

/// Comparison of two integers.
pub open spec fn spec_i32_cmp(a: i32, b: i32) -> core::cmp::Ordering {
    if a < b {
        core::cmp::Ordering::Less
    } else if a > b {
        core::cmp::Ordering::Greater
    } else {
        core::cmp::Ordering::Equal
    }
}

/// Decides `spec_i32_cmp`.
pub fn i32_cmp(a: i32, b: i32) -> (r: core::cmp::Ordering)
    ensures
        r == spec_i32_cmp(a, b),
{
    if a < b {
        core::cmp::Ordering::Less
    } else if a > b {
        core::cmp::Ordering::Greater
    } else {
        core::cmp::Ordering::Equal
    }
}

/// Comparison of two optional integers: an absent value sorts first.
pub open spec fn spec_opt_i32_cmp(a: Option<i32>, b: Option<i32>) -> core::cmp::Ordering {
    match (a, b) {
        (Option::None, Option::None) => core::cmp::Ordering::Equal,
        (Option::None, Option::Some(_)) => core::cmp::Ordering::Less,
        (Option::Some(_), Option::None) => core::cmp::Ordering::Greater,
        (Option::Some(x), Option::Some(y)) => spec_i32_cmp(x, y),
    }
}

/// Decides `spec_opt_i32_cmp`.
pub fn opt_i32_cmp(a: &Option<i32>, b: &Option<i32>) -> (r: core::cmp::Ordering)
    ensures
        r == spec_opt_i32_cmp(*a, *b),
{
    match (a, b) {
        (Option::None, Option::None) => core::cmp::Ordering::Equal,
        (Option::None, Option::Some(_)) => core::cmp::Ordering::Less,
        (Option::Some(_), Option::None) => core::cmp::Ordering::Greater,
        (Option::Some(x), Option::Some(y)) => i32_cmp(*x, *y),
    }
}

/// Comparison of two optional strings: an absent value sorts first,
/// present values compare lexicographically by code point.
pub open spec fn spec_opt_str_cmp(a: Option<String>, b: Option<String>) -> core::cmp::Ordering {
    match (a, b) {
        (Option::None, Option::None) => core::cmp::Ordering::Equal,
        (Option::None, Option::Some(_)) => core::cmp::Ordering::Less,
        (Option::Some(_), Option::None) => core::cmp::Ordering::Greater,
        (Option::Some(x), Option::Some(y)) => spec_str_cmp(x@, y@),
    }
}

/// Decides `spec_opt_str_cmp`.
pub fn opt_str_cmp(a: &Option<String>, b: &Option<String>) -> (r: core::cmp::Ordering)
    ensures
        r == spec_opt_str_cmp(*a, *b),
{
    match (a, b) {
        (Option::None, Option::None) => core::cmp::Ordering::Equal,
        (Option::None, Option::Some(_)) => core::cmp::Ordering::Less,
        (Option::Some(_), Option::None) => core::cmp::Ordering::Greater,
        (Option::Some(x), Option::Some(y)) => str_cmp(x.as_str(), y.as_str()),
    }
}

/// The comparison outcome under a direction: descending flips it.
pub open spec fn spec_directed(d: Orderby, o: core::cmp::Ordering) -> core::cmp::Ordering {
    match d {
        Orderby::Asc => o,
        Orderby::Desc => flip_ord(o),
    }
}

/// Decides `spec_directed`.
pub fn directed(d: Orderby, o: core::cmp::Ordering) -> (r: core::cmp::Ordering)
    ensures
        r == spec_directed(d, o),
{
    match d {
        Orderby::Asc => o,
        Orderby::Desc => match o {
            core::cmp::Ordering::Less => core::cmp::Ordering::Greater,
            core::cmp::Ordering::Equal => core::cmp::Ordering::Equal,
            core::cmp::Ordering::Greater => core::cmp::Ordering::Less,
        },
    }
}

/// The comparator answers consistently in both argument orders.
pub open spec fn cmp_flip_consistent<R>(c: spec_fn(R, R) -> core::cmp::Ordering) -> bool {
    forall|a: R, b: R| #[trigger] c(a, b) == flip_ord(c(b, a))
}

/// Strictly greater is transitive under the comparator.
pub open spec fn cmp_strict_trans<R>(c: spec_fn(R, R) -> core::cmp::Ordering) -> bool {
    forall|a: R, b: R, d: R|
        #[trigger] c(a, b) == core::cmp::Ordering::Greater && #[trigger] c(b, d)
            == core::cmp::Ordering::Greater ==> c(a, d) == core::cmp::Ordering::Greater
}

/// No record of the sequence compares greater than a later one.
pub open spec fn sorted_under<R>(s: Seq<R>, c: spec_fn(R, R) -> core::cmp::Ordering) -> bool {
    forall|i: int, j: int|
        0 <= i < j < s.len() ==> c(#[trigger] s[i], #[trigger] s[j]) != core::cmp::Ordering::Greater
}

/// The position `spec_insert` inserts at: the first record comparing
/// greater than the newcomer.
pub open spec fn insert_pos<R>(s: Seq<R>, x: R, c: spec_fn(R, R) -> core::cmp::Ordering) -> int
    decreases s.len(),
{
    if s.len() == 0 {
        0
    } else if c(s[0], x) == core::cmp::Ordering::Greater {
        0
    } else {
        1 + insert_pos(s.drop_first(), x, c)
    }
}

/// `insert_pos` is the first greater-comparing position.
proof fn lemma_insert_pos_props<R>(s: Seq<R>, x: R, c: spec_fn(R, R) -> core::cmp::Ordering)
    ensures
        0 <= insert_pos(s, x, c) <= s.len(),
        forall|t: int|
            0 <= t < insert_pos(s, x, c) ==> c(#[trigger] s[t], x) != core::cmp::Ordering::Greater,
        insert_pos(s, x, c) < s.len() ==> c(s[insert_pos(s, x, c)], x)
            == core::cmp::Ordering::Greater,
    decreases s.len(),
{
    if s.len() > 0 && c(s[0], x) != core::cmp::Ordering::Greater {
        lemma_insert_pos_props(s.drop_first(), x, c);
        assert forall|t: int| 0 <= t < insert_pos(s, x, c) implies c(#[trigger] s[t], x)
            != core::cmp::Ordering::Greater by {
            if t > 0 {
                assert(s.drop_first()[t - 1] == s[t]);
            }
        }
    }
}

/// Insertion adds exactly the newcomer to the records present.
proof fn lemma_insert_contains<R>(
    s: Seq<R>,
    x: R,
    c: spec_fn(R, R) -> core::cmp::Ordering,
    y: R,
)
    ensures
        spec_insert(s, x, c).contains(y) <==> (s.contains(y) || y == x),
{
    lemma_insert_pos_props(s, x, c);
    let j = insert_pos(s, x, c);
    lemma_insert_at(s, x, c, j);
    let r = s.take(j) + seq![x] + s.skip(j);
    if spec_insert(s, x, c).contains(y) {
        let i = choose|i: int| 0 <= i < r.len() && r[i] == y;
        if i < j {
            assert(s[i] == y);
        } else if i == j {
        } else {
            assert(s[i - 1] == y);
        }
    }
    if s.contains(y) {
        let i = choose|i: int| 0 <= i < s.len() && s[i] == y;
        if i < j {
            assert(r[i] == y);
        } else {
            assert(r[i + 1] == y);
        }
    }
    assert(r[j] == x);
}

/// Sorting neither adds nor removes record values, and keeps the
/// length.
proof fn lemma_sort_contains<R>(s: Seq<R>, c: spec_fn(R, R) -> core::cmp::Ordering, y: R)
    ensures
        spec_stable_sort(s, c).contains(y) <==> s.contains(y),
        spec_stable_sort(s, c).len() == s.len(),
    decreases s.len(),
{
    if s.len() > 0 {
        lemma_sort_contains(s.drop_last(), c, y);
        lemma_insert_contains(spec_stable_sort(s.drop_last(), c), s.last(), c, y);
        lemma_insert_pos_props(spec_stable_sort(s.drop_last(), c), s.last(), c);
        lemma_insert_at(
            spec_stable_sort(s.drop_last(), c),
            s.last(),
            c,
            insert_pos(spec_stable_sort(s.drop_last(), c), s.last(), c),
        );
        if s.contains(y) {
            let i = choose|i: int| 0 <= i < s.len() && s[i] == y;
            if i < s.len() - 1 {
                assert(s.drop_last()[i] == y);
            } else {
                assert(s.last() == y);
            }
        }
        if s.drop_last().contains(y) {
            let i = choose|i: int| 0 <= i < s.drop_last().len() && s.drop_last()[i] == y;
            assert(s[i] == y);
        }
        assert(s.last() == s[s.len() - 1]);
    }
}

/// Inserting into a sorted sequence keeps it sorted, for a consistent
/// comparator with transitive strict order.
proof fn lemma_insert_sorted<R>(s: Seq<R>, x: R, c: spec_fn(R, R) -> core::cmp::Ordering)
    requires
        sorted_under(s, c),
        cmp_flip_consistent(c),
        cmp_strict_trans(c),
    ensures
        sorted_under(spec_insert(s, x, c), c),
{
    lemma_insert_pos_props(s, x, c);
    let j = insert_pos(s, x, c);
    lemma_insert_at(s, x, c, j);
    let r = s.take(j) + seq![x] + s.skip(j);
    assert forall|a: int, b: int| 0 <= a < b < r.len() implies c(#[trigger] r[a], #[trigger] r[b])
        != core::cmp::Ordering::Greater by {
        if a < j {
            assert(r[a] == s[a]);
        } else if a == j {
            assert(r[a] == x);
        } else {
            assert(r[a] == s[a - 1]);
        }
        if b < j {
            assert(r[b] == s[b]);
        } else if b == j {
            assert(r[b] == x);
        } else {
            assert(r[b] == s[b - 1]);
        }
        if b == j {
            // a < j: a record before the insertion point against x
            assert(c(s[a], x) != core::cmp::Ordering::Greater);
        } else if a == j {
            // x against a record at or past the insertion point
            let m = b - 1;
            assert(c(s[j], x) == core::cmp::Ordering::Greater);
            if m == j {
                assert(c(x, s[m]) == flip_ord(c(s[m], x)));
            } else {
                if c(x, s[m]) == core::cmp::Ordering::Greater {
                    assert(c(s[j], s[m]) == core::cmp::Ordering::Greater);
                    assert(false);
                }
            }
        }
    }
}

/// The stable sort is sorted, for a consistent comparator with
/// transitive strict order.
pub proof fn lemma_sort_sorted<R>(s: Seq<R>, c: spec_fn(R, R) -> core::cmp::Ordering)
    requires
        cmp_flip_consistent(c),
        cmp_strict_trans(c),
    ensures
        sorted_under(spec_stable_sort(s, c), c),
    decreases s.len(),
{
    if s.len() > 0 {
        lemma_sort_sorted(s.drop_last(), c);
        lemma_insert_sorted(spec_stable_sort(s.drop_last(), c), s.last(), c);
    }
}

/// Inserting into the reverse of a sorted sequence, under the flipped
/// comparator, is the reverse of inserting into the original.
proof fn lemma_insert_reversed<R>(
    t: Seq<R>,
    x: R,
    c1: spec_fn(R, R) -> core::cmp::Ordering,
    c2: spec_fn(R, R) -> core::cmp::Ordering,
)
    requires
        sorted_under(t, c1),
        cmp_flip_consistent(c1),
        cmp_strict_trans(c1),
        forall|a: R, b: R| #[trigger] c2(a, b) == flip_ord(c1(a, b)),
        forall|i: int| 0 <= i < t.len() ==> c1(#[trigger] t[i], x) != core::cmp::Ordering::Equal,
    ensures
        spec_insert(t.reverse(), x, c2) == spec_insert(t, x, c1).reverse(),
{
    let n = t.len() as int;
    lemma_insert_pos_props(t, x, c1);
    let j = insert_pos(t, x, c1);
    lemma_insert_at(t, x, c1, j);
    // at and past the insertion point every record compares greater
    assert forall|m: int| j <= m < n implies c1(#[trigger] t[m], x)
        == core::cmp::Ordering::Greater by {
        if m > j {
            if c1(t[m], x) != core::cmp::Ordering::Greater {
                // then x compares greater than t[m], yet t[j] is
                // greater than x, so t[j] would exceed t[m]
                assert(c1(t[m], x) == core::cmp::Ordering::Less);
                assert(c1(x, t[m]) == flip_ord(c1(t[m], x)));
                assert(c1(t[j], x) == core::cmp::Ordering::Greater);
                assert(c1(t[j], t[m]) == core::cmp::Ordering::Greater);
                assert(false);
            }
        }
    }
    // in the reversed sequence the first greater-comparing record,
    // under the flipped comparator, stands at the mirrored position
    let rv = t.reverse();
    assert forall|k: int| 0 <= k < n - j implies c2(#[trigger] rv[k], x)
        != core::cmp::Ordering::Greater by {
        assert(rv[k] == t[n - 1 - k]);
        assert(c1(t[n - 1 - k], x) == core::cmp::Ordering::Greater);
    }
    if j > 0 {
        assert(rv[n - j] == t[j - 1]);
        assert(c1(t[j - 1], x) != core::cmp::Ordering::Greater);
        assert(c1(t[j - 1], x) != core::cmp::Ordering::Equal);
        assert(c1(t[j - 1], x) == core::cmp::Ordering::Less);
        assert(c2(rv[n - j], x) == core::cmp::Ordering::Greater);
    }
    lemma_insert_at(rv, x, c2, n - j);
    assert(spec_insert(rv, x, c2) =~= spec_insert(t, x, c1).reverse());
}

/// Reversing the direction of every key reverses the sorted result
/// exactly, when no two distinct records tie: sorting by the flipped
/// comparator yields the reverse of sorting by the original.
pub proof fn lemma_sort_reversed<R>(
    s: Seq<R>,
    c1: spec_fn(R, R) -> core::cmp::Ordering,
    c2: spec_fn(R, R) -> core::cmp::Ordering,
)
    requires
        cmp_flip_consistent(c1),
        cmp_strict_trans(c1),
        forall|a: R, b: R| #[trigger] c2(a, b) == flip_ord(c1(a, b)),
        // no ties: distinct records never compare equal, and no record
        // occurs twice
        forall|a: R, b: R|
            s.contains(a) && s.contains(b) && a != b ==> #[trigger] c1(a, b)
                != core::cmp::Ordering::Equal,
        forall|i: int, j: int| 0 <= i < j < s.len() ==> #[trigger] s[i] != #[trigger] s[j],
    ensures
        spec_stable_sort(s, c2) == spec_stable_sort(s, c1).reverse(),
    decreases s.len(),
{
    if s.len() == 0 {
        assert(spec_stable_sort(s, c2) =~= spec_stable_sort(s, c1).reverse());
    } else {
        let front = s.drop_last();
        let x = s.last();
        assert forall|a: R, b: R|
            front.contains(a) && front.contains(b) && a != b implies #[trigger] c1(a, b)
            != core::cmp::Ordering::Equal by {
            let i = choose|i: int| 0 <= i < front.len() && front[i] == a;
            assert(s[i] == a);
            let j = choose|j: int| 0 <= j < front.len() && front[j] == b;
            assert(s[j] == b);
        }
        assert(forall|i: int, j: int|
            0 <= i < j < front.len() ==> #[trigger] front[i] != #[trigger] front[j]);
        lemma_sort_reversed(front, c1, c2);
        let t1 = spec_stable_sort(front, c1);
        lemma_sort_sorted(front, c1);
        assert forall|i: int| 0 <= i < t1.len() implies c1(#[trigger] t1[i], x)
            != core::cmp::Ordering::Equal by {
            lemma_sort_contains(front, c1, t1[i]);
            assert(t1.contains(t1[i]));
            let p = choose|p: int| 0 <= p < front.len() && front[p] == t1[i];
            assert(s[p] == t1[i]);
            assert(s[s.len() - 1] == x);
            assert(t1[i] != x);
            assert(s.contains(t1[i]) && s.contains(x));
        }
        lemma_insert_reversed(t1, x, c1, c2);
        assert(spec_stable_sort(s, c2) == spec_insert(spec_stable_sort(front, c2), x, c2));
        assert(spec_stable_sort(front, c2) == t1.reverse());
    }
}

/// The opposite direction.
pub open spec fn flip_dir(d: Orderby) -> Orderby {
    match d {
        Orderby::Asc => Orderby::Desc,
        Orderby::Desc => Orderby::Asc,
    }
}

/// A key list whose every key flips its comparison flips the multi-key
/// comparison.
pub proof fn lemma_multi_cmp_flipped<O, R>(
    kc: spec_fn(O, R, R) -> core::cmp::Ordering,
    orders1: Seq<O>,
    orders2: Seq<O>,
    a: R,
    b: R,
)
    requires
        orders1.len() == orders2.len(),
        forall|i: int|
            0 <= i < orders1.len() ==> kc(#[trigger] orders2[i], a, b) == flip_ord(
                kc(orders1[i], a, b),
            ),
    ensures
        spec_multi_cmp(kc, orders2, a, b) == flip_ord(spec_multi_cmp(kc, orders1, a, b)),
    decreases orders1.len(),
{
    if orders1.len() > 0 {
        assert(kc(orders2[0], a, b) == flip_ord(kc(orders1[0], a, b)));
        assert forall|i: int|
            0 <= i < orders1.drop_first().len() implies kc(
            #[trigger] orders2.drop_first()[i],
            a,
            b,
        ) == flip_ord(kc(orders1.drop_first()[i], a, b)) by {
            assert(orders2.drop_first()[i] == orders2[i + 1]);
            assert(orders1.drop_first()[i] == orders1[i + 1]);
        }
        lemma_multi_cmp_flipped(kc, orders1.drop_first(), orders2.drop_first(), a, b);
    }
}

/// One key of a key family, as a record comparator.
pub open spec fn key_fn_of<O, R>(kc: spec_fn(O, R, R) -> core::cmp::Ordering, o: O) -> spec_fn(
    R,
    R,
) -> core::cmp::Ordering {
    |a: R, b: R| kc(o, a, b)
}

/// A well-behaved record comparator: consistent under argument order,
/// with transitive strict comparison, and records comparing equal
/// comparing alike against every third record.
pub open spec fn cmp_ok<R>(c: spec_fn(R, R) -> core::cmp::Ordering) -> bool {
    &&& cmp_flip_consistent(c)
    &&& cmp_strict_trans(c)
    &&& forall|a: R, b: R, x: R|
        #![trigger c(a, b), c(a, x)]
        c(a, b) == core::cmp::Ordering::Equal ==> c(a, x) == c(b, x)
}

/// The multi-key comparison of one record pair flips with its
/// arguments when every key's does.
proof fn lemma_multi_pair_flip<O, R>(
    kc: spec_fn(O, R, R) -> core::cmp::Ordering,
    orders: Seq<O>,
    a: R,
    b: R,
)
    requires
        forall|i: int| 0 <= i < orders.len() ==> cmp_ok(key_fn_of(kc, #[trigger] orders[i])),
    ensures
        spec_multi_cmp(kc, orders, a, b) == flip_ord(spec_multi_cmp(kc, orders, b, a)),
    decreases orders.len(),
{
    if orders.len() > 0 {
        let c0 = key_fn_of(kc, orders[0]);
        assert(cmp_ok(c0));
        assert(c0(a, b) == flip_ord(c0(b, a)));
        assert(kc(orders[0], a, b) == flip_ord(kc(orders[0], b, a)));
        assert(forall|i: int|
            0 <= i < orders.drop_first().len() ==> cmp_ok(
                key_fn_of(kc, #[trigger] orders.drop_first()[i]),
            ));
        lemma_multi_pair_flip(kc, orders.drop_first(), a, b);
    }
}

/// The strict multi-key comparison of record pairs is transitive when
/// every key is well behaved.
proof fn lemma_multi_pair_trans<O, R>(
    kc: spec_fn(O, R, R) -> core::cmp::Ordering,
    orders: Seq<O>,
    a: R,
    b: R,
    d: R,
)
    requires
        forall|i: int| 0 <= i < orders.len() ==> cmp_ok(key_fn_of(kc, #[trigger] orders[i])),
        spec_multi_cmp(kc, orders, a, b) == core::cmp::Ordering::Greater,
        spec_multi_cmp(kc, orders, b, d) == core::cmp::Ordering::Greater,
    ensures
        spec_multi_cmp(kc, orders, a, d) == core::cmp::Ordering::Greater,
    decreases orders.len(),
{
    let c0 = key_fn_of(kc, orders[0]);
    assert(cmp_ok(c0));
    assert(forall|i: int|
        0 <= i < orders.drop_first().len() ==> cmp_ok(
            key_fn_of(kc, #[trigger] orders.drop_first()[i]),
        ));
    let h_ab = kc(orders[0], a, b);
    let h_bd = kc(orders[0], b, d);
    assert(h_ab == c0(a, b) && h_bd == c0(b, d));
    if h_ab == core::cmp::Ordering::Greater {
        if h_bd == core::cmp::Ordering::Greater {
            assert(c0(a, d) == core::cmp::Ordering::Greater);
        } else {
            assert(h_bd == core::cmp::Ordering::Equal);
            // b and d compare alike against a; flip both sides
            assert(c0(b, a) == c0(d, a));
            assert(c0(a, b) == flip_ord(c0(b, a)));
            assert(c0(a, d) == flip_ord(c0(d, a)));
            assert(c0(a, d) == core::cmp::Ordering::Greater);
        }
    } else {
        assert(h_ab == core::cmp::Ordering::Equal);
        if h_bd == core::cmp::Ordering::Greater {
            assert(c0(a, d) == c0(b, d));
            assert(c0(a, d) == core::cmp::Ordering::Greater);
        } else {
            assert(h_bd == core::cmp::Ordering::Equal);
            assert(c0(a, d) == c0(b, d));
            assert(c0(a, d) == core::cmp::Ordering::Equal);
            lemma_multi_pair_trans(kc, orders.drop_first(), a, b, d);
        }
    }
}

/// Records comparing equal on every key compare alike against every
/// third record, when every key is well behaved.
proof fn lemma_multi_pair_cong<O, R>(
    kc: spec_fn(O, R, R) -> core::cmp::Ordering,
    orders: Seq<O>,
    a: R,
    b: R,
    x: R,
)
    requires
        forall|i: int| 0 <= i < orders.len() ==> cmp_ok(key_fn_of(kc, #[trigger] orders[i])),
        spec_multi_cmp(kc, orders, a, b) == core::cmp::Ordering::Equal,
    ensures
        spec_multi_cmp(kc, orders, a, x) == spec_multi_cmp(kc, orders, b, x),
    decreases orders.len(),
{
    if orders.len() > 0 {
        let c0 = key_fn_of(kc, orders[0]);
        assert(cmp_ok(c0));
        assert(forall|i: int|
            0 <= i < orders.drop_first().len() ==> cmp_ok(
                key_fn_of(kc, #[trigger] orders.drop_first()[i]),
            ));
        assert(kc(orders[0], a, b) == c0(a, b));
        assert(c0(a, b) == core::cmp::Ordering::Equal);
        assert(c0(a, x) == c0(b, x));
        assert(kc(orders[0], a, x) == kc(orders[0], b, x));
        lemma_multi_pair_cong(kc, orders.drop_first(), a, b, x);
    }
}

/// The multi-key comparator of well-behaved keys is itself well
/// behaved.
pub proof fn lemma_multi_cmp_ok<O, R>(kc: spec_fn(O, R, R) -> core::cmp::Ordering, orders: Seq<O>)
    requires
        forall|i: int| 0 <= i < orders.len() ==> cmp_ok(key_fn_of(kc, #[trigger] orders[i])),
    ensures
        cmp_ok(multi_cmp(kc, orders)),
{
    let c = multi_cmp(kc, orders);
    assert forall|a: R, b: R| #[trigger] c(a, b) == flip_ord(c(b, a)) by {
        lemma_multi_pair_flip(kc, orders, a, b);
    }
    assert forall|a: R, b: R, d: R|
        #[trigger] c(a, b) == core::cmp::Ordering::Greater && #[trigger] c(b, d)
            == core::cmp::Ordering::Greater implies c(a, d) == core::cmp::Ordering::Greater by {
        lemma_multi_pair_trans(kc, orders, a, b, d);
    }
    assert forall|a: R, b: R, x: R|
        #![trigger c(a, b), c(a, x)]
        c(a, b) == core::cmp::Ordering::Equal implies c(a, x) == c(b, x) by {
        lemma_multi_pair_cong(kc, orders, a, b, x);
    }
}

} // verus!
