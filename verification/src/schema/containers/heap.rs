//! A collection of which the greatest item is at hand.
use vstd::prelude::*;

verus! {

/// Types with a total order.
pub trait Ranked: Sized {
    /// Whether this value is no greater than `other`.
    spec fn at_most(self, other: Self) -> bool;

    /// Any two values can be compared.
    proof fn lemma_total(a: Self, b: Self)
        ensures
            a.at_most(b) || b.at_most(a),
    ;

    /// What is no greater than a value is no greater than any above it.
    proof fn lemma_transitive(a: Self, b: Self, c: Self)
        requires
            a.at_most(b),
            b.at_most(c),
        ensures
            a.at_most(c),
    ;

    /// See [`Ranked::at_most`].
    fn is_at_most(&self, other: &Self) -> (b: bool)
        ensures
            b == self.at_most(*other),
    ;
}

impl Ranked for u8 {
    open spec fn at_most(self, other: u8) -> bool {
        self <= other
    }

    proof fn lemma_total(a: u8, b: u8) {
    }

    proof fn lemma_transitive(a: u8, b: u8, c: u8) {
    }

    fn is_at_most(&self, other: &u8) -> (b: bool) {
        *self <= *other
    }
}

impl Ranked for u16 {
    open spec fn at_most(self, other: u16) -> bool {
        self <= other
    }

    proof fn lemma_total(a: u16, b: u16) {
    }

    proof fn lemma_transitive(a: u16, b: u16, c: u16) {
    }

    fn is_at_most(&self, other: &u16) -> (b: bool) {
        *self <= *other
    }
}

impl Ranked for u32 {
    open spec fn at_most(self, other: u32) -> bool {
        self <= other
    }

    proof fn lemma_total(a: u32, b: u32) {
    }

    proof fn lemma_transitive(a: u32, b: u32, c: u32) {
    }

    fn is_at_most(&self, other: &u32) -> (b: bool) {
        *self <= *other
    }
}

impl Ranked for u64 {
    open spec fn at_most(self, other: u64) -> bool {
        self <= other
    }

    proof fn lemma_total(a: u64, b: u64) {
    }

    proof fn lemma_transitive(a: u64, b: u64, c: u64) {
    }

    fn is_at_most(&self, other: &u64) -> (b: bool) {
        *self <= *other
    }
}

impl Ranked for u128 {
    open spec fn at_most(self, other: u128) -> bool {
        self <= other
    }

    proof fn lemma_total(a: u128, b: u128) {
    }

    proof fn lemma_transitive(a: u128, b: u128, c: u128) {
    }

    fn is_at_most(&self, other: &u128) -> (b: bool) {
        *self <= *other
    }
}

impl Ranked for usize {
    open spec fn at_most(self, other: usize) -> bool {
        self <= other
    }

    proof fn lemma_total(a: usize, b: usize) {
    }

    proof fn lemma_transitive(a: usize, b: usize, c: usize) {
    }

    fn is_at_most(&self, other: &usize) -> (b: bool) {
        *self <= *other
    }
}

impl Ranked for i8 {
    open spec fn at_most(self, other: i8) -> bool {
        self <= other
    }

    proof fn lemma_total(a: i8, b: i8) {
    }

    proof fn lemma_transitive(a: i8, b: i8, c: i8) {
    }

    fn is_at_most(&self, other: &i8) -> (b: bool) {
        *self <= *other
    }
}

impl Ranked for i16 {
    open spec fn at_most(self, other: i16) -> bool {
        self <= other
    }

    proof fn lemma_total(a: i16, b: i16) {
    }

    proof fn lemma_transitive(a: i16, b: i16, c: i16) {
    }

    fn is_at_most(&self, other: &i16) -> (b: bool) {
        *self <= *other
    }
}

impl Ranked for i32 {
    open spec fn at_most(self, other: i32) -> bool {
        self <= other
    }

    proof fn lemma_total(a: i32, b: i32) {
    }

    proof fn lemma_transitive(a: i32, b: i32, c: i32) {
    }

    fn is_at_most(&self, other: &i32) -> (b: bool) {
        *self <= *other
    }
}

impl Ranked for i64 {
    open spec fn at_most(self, other: i64) -> bool {
        self <= other
    }

    proof fn lemma_total(a: i64, b: i64) {
    }

    proof fn lemma_transitive(a: i64, b: i64, c: i64) {
    }

    fn is_at_most(&self, other: &i64) -> (b: bool) {
        *self <= *other
    }
}

impl Ranked for i128 {
    open spec fn at_most(self, other: i128) -> bool {
        self <= other
    }

    proof fn lemma_total(a: i128, b: i128) {
    }

    proof fn lemma_transitive(a: i128, b: i128, c: i128) {
    }

    fn is_at_most(&self, other: &i128) -> (b: bool) {
        *self <= *other
    }
}

impl Ranked for isize {
    open spec fn at_most(self, other: isize) -> bool {
        self <= other
    }

    proof fn lemma_total(a: isize, b: isize) {
    }

    proof fn lemma_transitive(a: isize, b: isize, c: isize) {
    }

    fn is_at_most(&self, other: &isize) -> (b: bool) {
        *self <= *other
    }
}

/// The place above place `j`.
pub open spec fn above(j: int) -> int {
    (j - 1) / 2
}

/// Whether each item at a place below place `i`, or below one behind it, is no greater than the
/// one above it.
pub open spec fn heap_from<T: Ranked>(s: Seq<T>, i: int) -> bool {
    forall|j: int|
        0 < j < s.len() && i <= above(j) ==> (#[trigger] s[j]).at_most(s[above(j)])
}

/// Whether each item but the first is no greater than the one above it.
pub open spec fn is_heap<T: Ranked>(s: Seq<T>) -> bool {
    heap_from(s, 0)
}

/// Swaps the items at the places `i` and `j`.
fn swap_items<T>(s: &mut [T], i: usize, j: usize)
    requires
        i < j < old(s)@.len(),
    ensures
        final(s)@ == old(s)@.update(i as int, old(s)@[j as int]).update(
            j as int,
            old(s)@[i as int],
        ),
{
    let ghost all = s@;
    let (left, right) = s.split_at_mut(j);
    core::mem::swap(&mut left[i], &mut right[0]);
    proof {
        assert(left@ + right@ =~= all.update(i as int, all[j as int]).update(
            j as int,
            all[i as int],
        ));
    }
}

proof fn lemma_swap_multiset<T>(s: Seq<T>, i: int, j: int)
    requires
        0 <= i < j < s.len(),
    ensures
        s.update(i, s[j]).update(j, s[i]).to_multiset() == s.to_multiset(),
{
    broadcast use vstd::seq_lib::group_to_multiset_ensures;

    let t = s.update(i, s[j]);
    assert(t.update(j, s[i]).to_multiset() =~= s.to_multiset());
}

/// Lets the item at place `start` sink until no greater one is below it.
fn sift_down<T: Ranked>(s: &mut [T], start: usize)
    requires
        start < old(s)@.len(),
        heap_from(old(s)@, start + 1),
    ensures
        heap_from(final(s)@, start as int),
        final(s)@.len() == old(s)@.len(),
        final(s)@.to_multiset() == old(s)@.to_multiset(),
        heap_from(old(s)@, start as int) ==> final(s)@ == old(s)@,
{
    let ghost all = s@;
    let n: usize = s.len();
    let mut hole: usize = start;
    while hole < n / 2
        invariant_except_break
            start <= hole < n,
        invariant
            n == s@.len(),
            all == old(s)@,
            all.len() == n,
            s@.to_multiset() == all.to_multiset(),
            heap_from(all, start as int) ==> hole == start && s@ == all,
            hole != start ==> start <= above(hole as int),
            forall|j: int|
                0 < j < n && start <= above(j) && above(j) != hole ==> (#[trigger] s@[j]).at_most(
                    s@[above(j)],
                ),
            hole != start ==> forall|j: int|
                0 < j < n && above(j) == hole ==> (#[trigger] s@[j]).at_most(
                    s@[above(hole as int)],
                ),
        ensures
            heap_from(s@, start as int),
        decreases n - hole,
    {
        let left: usize = 2 * hole + 1;
        let mut child: usize = left;
        if left + 1 < n && s[left].is_at_most(&s[left + 1]) {
            child = left + 1;
        }
        proof {
            let (a, b) = (s@[left as int], s@[child as int]);
            T::lemma_total(a, a);
            if left + 1 < n {
                T::lemma_total(a, s@[left + 1]);
                T::lemma_total(s@[left + 1], s@[left + 1]);
            }
            assert(forall|j: int| 0 < j < n && above(j) == hole ==> j == left || j == left + 1);
            assert(forall|j: int|
                0 < j < n && above(j) == hole ==> (#[trigger] s@[j]).at_most(b));
        }
        if s[child].is_at_most(&s[hole]) {
            proof {
                assert forall|j: int| 0 < j < n && start <= above(j) implies (
                #[trigger] s@[j]).at_most(s@[above(j)]) by {
                    if above(j) == hole {
                        T::lemma_transitive(s@[j], s@[child as int], s@[hole as int]);
                    }
                }
            }
            break;
        }
        let ghost before = s@;
        proof {
            T::lemma_total(before[child as int], before[hole as int]);
            lemma_swap_multiset(before, hole as int, child as int);
            assert(above(child as int) == hole);
            assert(!heap_from(all, start as int)) by {
                if heap_from(all, start as int) {
                    assert(before[child as int].at_most(before[above(child as int)]));
                }
            }
        }
        swap_items(s, hole, child);
        proof {
            assert forall|j: int|
                0 < j < n && start <= above(j) && above(j) != child implies (
            #[trigger] s@[j]).at_most(s@[above(j)]) by {
                if above(j) == hole {
                    assert(before[j].at_most(before[child as int]));
                } else {
                    assert(before[j].at_most(before[above(j)]));
                }
            }
            assert forall|j: int| 0 < j < n && above(j) == child implies (
            #[trigger] s@[j]).at_most(s@[above(child as int)]) by {
                assert(before[j].at_most(before[above(j)]));
            }
        }
        hole = child;
    }
}

/// Items of which the greatest comes first. The rest are in some order in which each is no less than
/// the two below it.
pub struct MaxHeap<T: Ranked> {
    items: std::vec::Vec<T>,
}

impl<T: Ranked> View for MaxHeap<T> {
    /// The items, in the order in which they are kept.
    type V = Seq<T>;

    closed spec fn view(&self) -> Seq<T> {
        self.items@
    }
}

impl<T: Ranked> MaxHeap<T> {
    #[verifier::type_invariant]
    spec fn wf(self) -> bool {
        is_heap(self.items@)
    }

    /// No items.
    pub fn new() -> (h: MaxHeap<T>)
        ensures
            h@ == Seq::<T>::empty(),
    {
        MaxHeap { items: std::vec::Vec::new() }
    }

    /// The number of items.
    pub fn len(&self) -> (n: usize)
        ensures
            n == self@.len(),
    {
        self.items.len()
    }

    /// The items, in the order in which they are kept: each is no less than the two below it.
    pub fn as_slice(&self) -> (s: &[T])
        ensures
            s@ == self@,
            is_heap(s@),
    {
        proof {
            use_type_invariant(self);
        }
        self.items.as_slice()
    }

    /// The given items. If they are in order already, they are kept as they are.
    pub fn from_vec(items: std::vec::Vec<T>) -> (h: MaxHeap<T>)
        ensures
            is_heap(h@),
            h@.to_multiset() == items@.to_multiset(),
            is_heap(items@) ==> h@ == items@,
    {
        let ghost all = items@;
        let mut items = items;
        let n: usize = items.len();
        let mut i: usize = n / 2;
        proof {
            assert forall|j: int| 0 < j < n && i <= above(j) implies (#[trigger] items@[j]).at_most(
                items@[above(j)],
            ) by {
                assert(2 * above(j) + 1 <= j);
            }
        }
        while i > 0
            invariant
                i <= n / 2,
                n == items@.len(),
                heap_from(items@, i as int),
                items@.to_multiset() == all.to_multiset(),
                is_heap(all) ==> items@ == all,
            decreases i,
        {
            i = i - 1;
            sift_down(items.as_mut_slice(), i);
        }
        MaxHeap { items }
    }

    /// The greatest item, if there is any.
    pub fn peek(&self) -> (r: Option<&T>)
        ensures
            r is None <==> self@.len() == 0,
            r matches Some(top) ==> {
                &&& *top == self@[0]
                &&& forall|i: int| 0 <= i < self@.len() ==> (#[trigger] self@[i]).at_most(*top)
            },
    {
        if self.items.len() == 0 {
            return None;
        }
        proof {
            use_type_invariant(self);
            assert forall|i: int| 0 <= i < self@.len() implies (#[trigger] self@[i]).at_most(
                self@[0],
            ) by {
                lemma_first_greatest(self@, i);
            }
        }
        Some(&self.items[0])
    }
}

proof fn lemma_first_greatest<T: Ranked>(s: Seq<T>, i: int)
    requires
        is_heap(s),
        0 <= i < s.len(),
    ensures
        s[i].at_most(s[0]),
    decreases i,
{
    if i == 0 {
        T::lemma_total(s[0], s[0]);
    } else {
        lemma_first_greatest(s, above(i));
        T::lemma_transitive(s[i], s[above(i)], s[0]);
    }
}

/// Items that are the same but for their order have images that are the same but for their order.
pub proof fn lemma_image_multiset<A, B>(s: Seq<A>, t: Seq<A>, f: spec_fn(A) -> B)
    requires
        s.to_multiset() == t.to_multiset(),
    ensures
        s.map_values(f).to_multiset() == t.map_values(f).to_multiset(),
    decreases s.len(),
{
    broadcast use vstd::seq_lib::group_to_multiset_ensures;

    assert(s.len() == s.to_multiset().len());
    assert(t.len() == t.to_multiset().len());
    if s.len() == 0 {
        assert(s.map_values(f) =~= t.map_values(f));
    } else {
        let x = s.last();
        let front = s.drop_last();
        assert(front.push(x) =~= s);
        assert(s.contains(x));
        assert(s.to_multiset().count(x) > 0);
        assert(t.contains(x));
        let j = choose|j: int| 0 <= j < t.len() && t[j] == x;
        assert(s.remove(s.len() - 1) =~= front);
        lemma_image_multiset(front, t.remove(j), f);
        assert(front.map_values(f).push(f(x)) =~= s.map_values(f));
        assert(t.map_values(f).remove(j) =~= t.remove(j).map_values(f));
        assert(t.map_values(f).to_multiset() =~= t.map_values(f).to_multiset().remove(f(x)).insert(
            f(x),
        )) by {
            assert(t.map_values(f)[j] == f(x));
            assert(t.map_values(f).contains(f(x)));
            assert(t.map_values(f).to_multiset().count(f(x)) > 0);
        }
    }
}

} // verus!
