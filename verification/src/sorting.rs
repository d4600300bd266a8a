//! Stable sorting by a key.
use vstd::prelude::*;

use crate::text::chars_of;

verus! {

/// A key to sort by.
pub trait SortKey: Sized {
    /// The key comes no later than the other.
    spec fn upto(self, other: Self) -> bool;

    /// Any two keys can be compared.
    proof fn total(a: Self, b: Self)
        ensures
            a.upto(b) || b.upto(a),
    ;

    /// The order carries over.
    proof fn transitive(a: Self, b: Self, c: Self)
        requires
            a.upto(b),
            b.upto(c),
        ensures
            a.upto(c),
    ;

    /// Whether the key comes no later than the other.
    fn no_later(&self, other: &Self) -> (r: bool)
        ensures
            r == (*self).upto(*other),
    ;
}

impl SortKey for usize {
    open spec fn upto(self, other: usize) -> bool {
        self <= other
    }

    proof fn total(a: usize, b: usize) {
    }

    proof fn transitive(a: usize, b: usize, c: usize) {
    }

    fn no_later(&self, other: &usize) -> (r: bool) {
        *self <= *other
    }
}

impl SortKey for i64 {
    open spec fn upto(self, other: i64) -> bool {
        self <= other
    }

    proof fn total(a: i64, b: i64) {
    }

    proof fn transitive(a: i64, b: i64, c: i64) {
    }

    fn no_later(&self, other: &i64) -> (r: bool) {
        *self <= *other
    }
}

/// `a` comes before `b` in a list of names, or is the same name.
pub open spec fn name_le(a: Seq<char>, b: Seq<char>) -> bool
    decreases a.len(),
{
    if a.len() == 0 {
        true
    } else if b.len() == 0 {
        false
    } else if a[0] == b[0] {
        name_le(a.skip(1), b.skip(1))
    } else {
        a[0] < b[0]
    }
}

proof fn lemma_name_le_total(a: Seq<char>, b: Seq<char>)
    ensures
        name_le(a, b) || name_le(b, a),
    decreases a.len(),
{
    if a.len() > 0 && b.len() > 0 && a[0] == b[0] {
        lemma_name_le_total(a.skip(1), b.skip(1));
    }
}

proof fn lemma_name_le_trans(a: Seq<char>, b: Seq<char>, c: Seq<char>)
    requires
        name_le(a, b),
        name_le(b, c),
    ensures
        name_le(a, c),
    decreases a.len(),
{
    if a.len() > 0 && b.len() > 0 && c.len() > 0 && a[0] == b[0] && b[0] == c[0] {
        lemma_name_le_trans(a.skip(1), b.skip(1), c.skip(1));
    }
}

fn name_before(a: &[char], b: &[char]) -> (r: bool)
    ensures
        r == name_le(a@, b@),
{
    let mut i: usize = 0;
    proof {
        assert(a@.skip(0) =~= a@ && b@.skip(0) =~= b@);
    }
    while i < a.len() && i < b.len() && a[i] == b[i]
        invariant
            i <= a.len(),
            i <= b.len(),
            name_le(a@, b@) == name_le(a@.skip(i as int), b@.skip(i as int)),
        decreases a.len() - i,
    {
        proof {
            assert(a@.skip(i as int).skip(1) =~= a@.skip(i + 1));
            assert(b@.skip(i as int).skip(1) =~= b@.skip(i + 1));
        }
        i += 1;
    }
    if i == a.len() {
        true
    } else if i == b.len() {
        false
    } else {
        a[i] < b[i]
    }
}

impl SortKey for String {
    open spec fn upto(self, other: String) -> bool {
        name_le(self@, other@)
    }

    proof fn total(a: String, b: String) {
        lemma_name_le_total(a@, b@);
    }

    proof fn transitive(a: String, b: String, c: String) {
        lemma_name_le_trans(a@, b@, c@);
    }

    fn no_later(&self, other: &String) -> (r: bool) {
        name_before(chars_of(self.as_str()).as_slice(), chars_of(other.as_str()).as_slice())
    }
}

/// Item `i` comes before item `j`: by its key, or by its place where the keys
/// are equal.
pub open spec fn comes_before<K: SortKey>(keys: Seq<K>, i: int, j: int) -> bool {
    keys[i].upto(keys[j]) && (keys[j].upto(keys[i]) ==> i < j)
}

/// `order` lists every place once, sorted by the keys; equal keys keep their
/// order.
pub open spec fn is_sorting<K: SortKey>(keys: Seq<K>, order: Seq<usize>) -> bool {
    &&& order.len() == keys.len()
    &&& forall|a: int| 0 <= a < order.len() ==> 0 <= #[trigger] order[a] < keys.len()
    &&& forall|a: int, b: int|
        0 <= a < b < order.len() ==> comes_before(
            keys,
            #[trigger] order[a] as int,
            #[trigger] order[b] as int,
        )
}

/// The places sorted by the keys; equal keys keep their order.
pub open spec fn sorting<K: SortKey>(keys: Seq<K>) -> Seq<usize> {
    choose|order: Seq<usize>| is_sorting(keys, order)
}

/// The places sorted by the keys; equal keys keep their order.
pub fn sort_places<K: SortKey>(keys: &Vec<K>) -> (order: Vec<usize>)
    ensures
        is_sorting(keys@, order@),
        order@ == sorting(keys@),
{
    let mut order: Vec<usize> = Vec::new();
    let mut i: usize = 0;
    while i < keys.len()
        invariant
            i <= keys.len(),
            order.len() == i,
            forall|a: int| 0 <= a < i ==> 0 <= #[trigger] order@[a] < i,
            forall|a: int, b: int|
                0 <= a < b < i ==> comes_before(
                    keys@,
                    #[trigger] order@[a] as int,
                    #[trigger] order@[b] as int,
                ),
        decreases keys.len() - i,
    {
        let mut at: usize = i;
        while at > 0 && !keys[order[at - 1]].no_later(&keys[i])
            invariant
                i < keys.len(),
                at <= i,
                order.len() == i,
                forall|a: int| 0 <= a < i ==> 0 <= #[trigger] order@[a] < i,
                forall|a: int|
                    at <= a < i ==> !keys@[#[trigger] order@[a] as int].upto(keys@[i as int]),
            decreases at,
        {
            at -= 1;
        }
        let ghost prev = order@;
        order.insert(at, i);
        proof {
            assert(order@ == prev.insert(at as int, i));
            assert forall|a: int, b: int| 0 <= a < b < i + 1 implies comes_before(
                keys@,
                #[trigger] order@[a] as int,
                #[trigger] order@[b] as int,
            ) by {
                let pa = if a < at { a } else { a - 1 };
                let pb = if b < at { b } else { b - 1 };
                if a != at {
                    assert(order@[a] == prev[pa]);
                }
                if b != at {
                    assert(order@[b] == prev[pb]);
                }
                if b == at {
                    if a < at - 1 {
                        assert(comes_before(keys@, prev[a] as int, prev[at - 1] as int));
                        K::transitive(
                            keys@[prev[a] as int],
                            keys@[prev[at - 1] as int],
                            keys@[i as int],
                        );
                    }
                } else if a == at {
                    assert(!keys@[prev[pb] as int].upto(keys@[i as int]));
                    K::total(keys@[prev[pb] as int], keys@[i as int]);
                } else {
                    assert(comes_before(keys@, prev[pa] as int, prev[pb] as int));
                }
            }
        }
        i += 1;
    }
    proof {
        law_sorting_unique(keys@, order@, sorting(keys@));
    }
    order
}

/// Place `i` stands in `order`.
pub open spec fn lists(order: Seq<usize>, i: int) -> bool {
    exists|a: int| 0 <= a < order.len() && order[a] == i
}

/// Every place stands in a sorted list of places, and none twice.
pub proof fn lemma_sorting_covers<K: SortKey>(keys: Seq<K>, order: Seq<usize>)
    requires
        is_sorting(keys, order),
    ensures
        order.no_duplicates(),
        forall|i: int| 0 <= i < keys.len() ==> #[trigger] lists(order, i),
{
    assert forall|a: int, b: int|
        0 <= a < order.len() && 0 <= b < order.len() && a != b implies order[a] != order[b] by {
        if a < b {
            assert(comes_before(keys, order[a] as int, order[b] as int));
            if order[a] == order[b] {
                K::total(keys[order[a] as int], keys[order[a] as int]);
            }
        } else {
            assert(comes_before(keys, order[b] as int, order[a] as int));
            if order[a] == order[b] {
                K::total(keys[order[a] as int], keys[order[a] as int]);
            }
        }
    }
    let ints = Seq::new(order.len(), |a: int| order[a] as int);
    assert(ints.no_duplicates());
    ints.unique_seq_to_set();
    let all = vstd::set_lib::set_int_range(0, keys.len() as int);
    vstd::set_lib::lemma_int_range(0, keys.len() as int);
    assert(ints.to_set().subset_of(all)) by {
        assert forall|i: int| ints.to_set().contains(i) implies all.contains(i) by {
            let a = choose|a: int| 0 <= a < ints.len() && ints[a] == i;
            assert(0 <= order[a] < keys.len());
        }
    }
    vstd::set_lib::lemma_subset_equality(ints.to_set(), all);
    assert forall|i: int| 0 <= i < keys.len() implies #[trigger] lists(order, i) by {
        assert(all.contains(i));
        assert(ints.to_set().contains(i));
        let a = choose|a: int| 0 <= a < ints.len() && ints[a] == i;
        assert(order[a] == i);
    }
}

proof fn lemma_sortings_agree<K: SortKey>(keys: Seq<K>, x: Seq<usize>, y: Seq<usize>, n: int)
    requires
        is_sorting(keys, x),
        is_sorting(keys, y),
        forall|i: int| 0 <= i < keys.len() ==> #[trigger] lists(x, i),
        forall|i: int| 0 <= i < keys.len() ==> #[trigger] lists(y, i),
        x.no_duplicates(),
        y.no_duplicates(),
        0 <= n <= x.len(),
    ensures
        forall|a: int| 0 <= a < n ==> x[a] == y[a],
    decreases n,
{
    if n > 0 {
        lemma_sortings_agree(keys, x, y, n - 1);
        let k = n - 1;
        assert(lists(y, x[k] as int) && lists(x, y[k] as int));
        // The item that `x` has at `k` stands in `y` no earlier, and the other
        // way round.
        let b = choose|b: int| 0 <= b < y.len() && y[b] == x[k] as int;
        let c = choose|c: int| 0 <= c < x.len() && x[c] == y[k] as int;
        if b < k {
            assert(x[b] == y[b]);
        }
        if c < k {
            assert(x[c] == y[c]);
        }
        if b > k && c > k {
            assert(comes_before(keys, y[k] as int, y[b] as int));
            assert(comes_before(keys, x[k] as int, x[c] as int));
        }
    }
}

/// There is only one way to sort, since equal keys keep their order.
pub proof fn law_sorting_unique<K: SortKey>(keys: Seq<K>, x: Seq<usize>, y: Seq<usize>)
    requires
        is_sorting(keys, x),
        is_sorting(keys, y),
    ensures
        x == y,
{
    lemma_sorting_covers(keys, x);
    lemma_sorting_covers(keys, y);
    lemma_sortings_agree(keys, x, y, x.len() as int);
    assert(x =~= y);
}

/// Any keys can be sorted.
pub proof fn lemma_sorting_exists<K: SortKey>(keys: Seq<K>)
    requires
        keys.len() <= usize::MAX,
    ensures
        is_sorting(keys, sorting(keys)),
{
    let order = lemma_sort_prefix(keys, keys.len() as int);
    assert(keys.take(keys.len() as int) =~= keys);
    assert(is_sorting(keys, order));
}

proof fn lemma_sort_prefix<K: SortKey>(keys: Seq<K>, n: int) -> (order: Seq<usize>)
    requires
        keys.len() <= usize::MAX,
        0 <= n <= keys.len(),
    ensures
        is_sorting(keys.take(n), order),
    decreases n,
{
    if n == 0 {
        Seq::empty()
    } else {
        let prev = lemma_sort_prefix(keys, n - 1);
        let t = keys.take(n);
        assert forall|a: int| 0 <= a < prev.len() implies 0 <= #[trigger] prev[a] < n - 1 by {
            assert(prev[a] < keys.take(n - 1).len());
        }
        assert forall|a: int, b: int| 0 <= a < b < prev.len() implies comes_before(
            t,
            #[trigger] prev[a] as int,
            #[trigger] prev[b] as int,
        ) by {
            assert(comes_before(keys.take(n - 1), prev[a] as int, prev[b] as int));
        }
        let at = lemma_insert_place(t, prev, n - 1, n - 1);
        let order = prev.insert(at, (n - 1) as usize);
        assert forall|a: int, b: int| 0 <= a < b < order.len() implies comes_before(
            t,
            #[trigger] order[a] as int,
            #[trigger] order[b] as int,
        ) by {
            let pa = if a < at { a } else { a - 1 };
            let pb = if b < at { b } else { b - 1 };
            if a != at {
                assert(order[a] == prev[pa]);
            }
            if b != at {
                assert(order[b] == prev[pb]);
            }
            if b == at {
                assert(comes_before(t, prev[pa] as int, n - 1));
            } else if a == at {
                assert(comes_before(t, n - 1, prev[pb] as int));
            } else {
                assert(comes_before(t, prev[pa] as int, prev[pb] as int));
            }
        }
        order
    }
}

/// The place among sorted items, no later than `k`, at which a new last item
/// belongs.
proof fn lemma_insert_place<K: SortKey>(t: Seq<K>, prev: Seq<usize>, new: int, k: int) -> (at: int)
    requires
        new == t.len() - 1,
        prev.len() == new,
        0 <= k <= prev.len(),
        forall|a: int| 0 <= a < prev.len() ==> 0 <= #[trigger] prev[a] < new,
        forall|a: int, b: int|
            0 <= a < b < prev.len() ==> comes_before(
                t,
                #[trigger] prev[a] as int,
                #[trigger] prev[b] as int,
            ),
        forall|a: int| k <= a < prev.len() ==> comes_before(t, new, #[trigger] prev[a] as int),
    ensures
        0 <= at <= k,
        forall|a: int| 0 <= a < at ==> comes_before(t, #[trigger] prev[a] as int, new),
        forall|a: int| at <= a < prev.len() ==> comes_before(t, new, #[trigger] prev[a] as int),
    decreases k,
{
    if k == 0 {
        0
    } else if t[prev[k - 1] as int].upto(t[new]) {
        assert forall|a: int| 0 <= a < k implies comes_before(
            t,
            #[trigger] prev[a] as int,
            new,
        ) by {
            if a < k - 1 {
                assert(comes_before(t, prev[a] as int, prev[k - 1] as int));
                K::transitive(t[prev[a] as int], t[prev[k - 1] as int], t[new]);
            }
        }
        k
    } else {
        K::total(t[prev[k - 1] as int], t[new]);
        lemma_insert_place(t, prev, new, k - 1)
    }
}

/// The items in sorted order.
pub open spec fn sorted_by<K: SortKey, T>(keys: Seq<K>, items: Seq<T>) -> Seq<T> {
    sorting(keys).map_values(|k: usize| items[k as int])
}

/// Sorting brings every item once, none before one that belongs in front of it,
/// and items with equal keys in the order in which they came.
pub proof fn law_sorting<K: SortKey>(keys: Seq<K>)
    requires
        keys.len() <= usize::MAX,
    ensures
        ({
            let order = sorting(keys);
            &&& order.len() == keys.len()
            &&& order.no_duplicates()
            &&& forall|a: int| 0 <= a < order.len() ==> 0 <= #[trigger] order[a] < keys.len()
            &&& forall|i: int| 0 <= i < keys.len() ==> order.contains(#[trigger] (i as usize))
            &&& forall|a: int, b: int|
                0 <= a < b < order.len() ==> {
                    let x = #[trigger] order[a] as int;
                    let y = #[trigger] order[b] as int;
                    keys[x].upto(keys[y]) && (keys[y].upto(keys[x]) ==> x < y)
                }
        }),
{
    lemma_sorting_exists(keys);
    let order = sorting(keys);
    lemma_sorting_covers(keys, order);
    assert forall|i: int| 0 <= i < keys.len() implies order.contains(#[trigger] (i as usize)) by {
        assert(lists(order, i));
    }
    assert forall|a: int, b: int| 0 <= a < b < order.len() implies ({
        let x = #[trigger] order[a] as int;
        let y = #[trigger] order[b] as int;
        keys[x].upto(keys[y]) && (keys[y].upto(keys[x]) ==> x < y)
    }) by {
        assert(comes_before(keys, order[a] as int, order[b] as int));
    }
}

/// Smaller numbers come first.
pub proof fn law_numbers_rise(a: usize, b: usize, c: i64, d: i64)
    ensures
        a.upto(b) <==> a <= b,
        c.upto(d) <==> c <= d,
{
}

/// Names come in the order of their characters: of two names that agree up to a
/// place, the one with the smaller character there comes first, and so does one
/// that ends there.
pub proof fn law_names_rise(common: Seq<char>, a: Seq<char>, b: Seq<char>)
    requires
        a.len() == 0 || b.len() == 0 || a[0] != b[0],
    ensures
        name_le(common + a, common + b) <==> a.len() == 0 || b.len() > 0 && a[0] < b[0],
    decreases common.len(),
{
    if common.len() == 0 {
        assert(common + a =~= a);
        assert(common + b =~= b);
    } else {
        assert((common + a).skip(1) =~= common.skip(1) + a);
        assert((common + b).skip(1) =~= common.skip(1) + b);
        law_names_rise(common.skip(1), a, b);
    }
}

// ---------------------------------------------------------------------------
// Selections
// ---------------------------------------------------------------------------

/// The places are those of the first `n` that are wanted: all of them, no other,
/// each once and in rising order.
pub open spec fn selects(places: Seq<int>, n: int, wanted: spec_fn(int) -> bool) -> bool {
    &&& forall|i: int, j: int| 0 <= i < j < places.len() ==> places[i] < places[j]
    &&& forall|i: int|
        0 <= i < places.len() ==> 0 <= #[trigger] places[i] < n && wanted(places[i])
    &&& forall|k: int| 0 <= k < n && #[trigger] wanted(k) ==> places.contains(k)
}

/// A selection grows by the next place where that is wanted.
pub proof fn lemma_selects_step(
    places: Seq<int>,
    n: int,
    before: spec_fn(int) -> bool,
    wanted: spec_fn(int) -> bool,
) -> (r: Seq<int>)
    requires
        0 <= n,
        selects(places, n, before),
        forall|k: int| 0 <= k < n ==> before(k) == #[trigger] wanted(k),
    ensures
        selects(r, n + 1, wanted),
        r == (if wanted(n) {
            places.push(n)
        } else {
            places
        }),
{
    let r = if wanted(n) {
        places.push(n)
    } else {
        places
    };
    assert forall|i: int| 0 <= i < r.len() implies 0 <= #[trigger] r[i] < n + 1 && wanted(
        r[i],
    ) by {
        if i < places.len() {
            assert(r[i] == places[i]);
            assert(before(places[i]) == wanted(places[i]));
        }
    }
    assert forall|k: int| 0 <= k < n + 1 && #[trigger] wanted(k) implies r.contains(k) by {
        if k < n {
            assert(before(k));
            let i = choose|i: int| 0 <= i < places.len() && places[i] == k;
            assert(r[i] == k);
        } else {
            assert(r[places.len() as int] == k);
        }
    }
    r
}

/// Texts are sorted as names are.
pub proof fn law_texts_rise(a: String, b: String)
    ensures
        a.upto(b) <==> name_le(a@, b@),
{
}

/// Sorted items are the items themselves, each once, and their keys rise.
pub proof fn law_sorted_items<K: SortKey, T>(keys: Seq<K>, items: Seq<T>) -> (order: Seq<usize>)
    requires
        keys.len() == items.len(),
        keys.len() <= usize::MAX,
    ensures
        order.len() == items.len(),
        order.no_duplicates(),
        sorted_by(keys, items).len() == items.len(),
        forall|a: int|
            0 <= a < order.len() ==> 0 <= #[trigger] order[a] < items.len() && sorted_by(
                keys,
                items,
            )[a] == items[order[a] as int],
        forall|i: int| 0 <= i < items.len() ==> order.contains(#[trigger] (i as usize)),
        forall|a: int, b: int|
            0 <= a < b < order.len() ==> keys[#[trigger] order[a] as int].upto(
                keys[#[trigger] order[b] as int],
            ),
{
    law_sorting(keys);
    let order = sorting(keys);
    assert forall|a: int| 0 <= a < order.len() implies 0 <= #[trigger] order[a] < items.len()
        && sorted_by(keys, items)[a] == items[order[a] as int] by {
        assert(0 <= order[a] < keys.len());
    }
    order
}

/// A selection has no more places than there are.
pub proof fn lemma_selected_are_few(places: Seq<int>, n: int, wanted: spec_fn(int) -> bool)
    requires
        0 <= n,
        selects(places, n, wanted),
    ensures
        places.len() <= n,
{
    if places.len() > 0 {
        let last = places.len() - 1;
        lemma_rising(places, last);
        assert(0 <= places[last] < n);
        assert(0 <= places[0] < n);
    }
}

proof fn lemma_rising(places: Seq<int>, k: int)
    requires
        0 <= k < places.len(),
        forall|i: int, j: int| 0 <= i < j < places.len() ==> places[i] < places[j],
        0 <= places[0],
    ensures
        k <= places[k],
    decreases k,
{
    if k > 0 {
        lemma_rising(places, k - 1);
        assert(places[k - 1] < places[k]);
    }
}

} // verus!
