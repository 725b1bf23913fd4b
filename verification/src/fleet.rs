//! Sets of devices, kept as sequences without repeats.

use crate::servers::{Device, DeviceView};
use vstd::prelude::*;

verus! {

/// The views of a run of devices, in order.
pub open spec fn views(devices: Seq<Device>) -> Seq<DeviceView> {
    devices.map_values(|d: Device| d@)
}

/// The test "is not a member of `group`".
pub open spec fn absent_from(group: Seq<DeviceView>) -> spec_fn(DeviceView) -> bool {
    |d: DeviceView| !group.contains(d)
}

/// The test "is a member of `group`".
pub open spec fn present_in(group: Seq<DeviceView>) -> spec_fn(DeviceView) -> bool {
    |d: DeviceView| group.contains(d)
}

/// `listing` with every repeated device dropped: the first occurrence of each
/// device stays, in its place.
pub open spec fn first_occurrences(listing: Seq<DeviceView>) -> Seq<DeviceView>
    decreases listing.len(),
{
    if listing.len() == 0 {
        Seq::empty()
    } else {
        let earlier = first_occurrences(listing.drop_last());
        if earlier.contains(listing.last()) {
            earlier
        } else {
            earlier.push(listing.last())
        }
    }
}

/// Keeping only some members of a duplicate-free sequence leaves it
/// duplicate-free.
pub proof fn lemma_filter_keeps_distinct(s: Seq<DeviceView>, keep: spec_fn(DeviceView) -> bool)
    requires
        s.no_duplicates(),
    ensures
        s.filter(keep).no_duplicates(),
        forall|d: DeviceView| s.filter(keep).contains(d) <==> (s.contains(d) && keep(d)),
    decreases s.len(),
{
    broadcast use Seq::lemma_filter_push;

    reveal(Seq::filter);
    if s.len() > 0 {
        let rest = s.drop_last();
        lemma_filter_keeps_distinct(rest, keep);
        assert(s =~= rest.push(s.last()));
        assert(forall|d: DeviceView| s.contains(d) <==> (rest.contains(d) || d == s.last())) by {
            assert forall|d: DeviceView| s.contains(d) implies (rest.contains(d) || d == s.last()) by {
                let i = choose|i: int| 0 <= i < s.len() && s[i] == d;
                if i < s.len() - 1 {
                    assert(rest[i] == d);
                }
            }
            assert forall|d: DeviceView| rest.contains(d) implies s.contains(d) by {
                let i = choose|i: int| 0 <= i < rest.len() && rest[i] == d;
                assert(s[i] == d);
            }
            assert(s[s.len() - 1] == s.last());
        }
        assert(!rest.contains(s.last())) by {
            if rest.contains(s.last()) {
                let i = choose|i: int| 0 <= i < rest.len() && rest[i] == s.last();
                assert(s[i] == s[s.len() - 1]);
            }
        }
        let kept = rest.filter(keep);
        if keep(s.last()) {
            assert(s.filter(keep) == kept.push(s.last()));
            lemma_push_distinct(kept, s.last());
        } else {
            assert(s.filter(keep) == kept);
        }
    }
}

/// Appending a device that is not yet a member keeps a sequence
/// duplicate-free, and adds exactly that member.
pub proof fn lemma_push_distinct(s: Seq<DeviceView>, d: DeviceView)
    requires
        s.no_duplicates(),
        !s.contains(d),
    ensures
        s.push(d).no_duplicates(),
        forall|x: DeviceView| s.push(d).contains(x) <==> (s.contains(x) || x == d),
{
    let t = s.push(d);
    assert forall|i: int, j: int| 0 <= i < t.len() && 0 <= j < t.len() && i != j implies t[i]
        != t[j] by {
        if i < s.len() && j < s.len() {
            assert(s[i] != s[j]);
        } else if i < s.len() {
            assert(s.contains(s[i]));
        } else {
            assert(s.contains(s[j]));
        }
    }
    assert forall|x: DeviceView| t.contains(x) <==> (s.contains(x) || x == d) by {
        if t.contains(x) {
            let i = choose|i: int| 0 <= i < t.len() && t[i] == x;
            if i < s.len() {
                assert(s[i] == x);
            }
        }
        if s.contains(x) {
            let i = choose|i: int| 0 <= i < s.len() && s[i] == x;
            assert(t[i] == x);
        }
        assert(t[s.len() as int] == d);
    }
}

/// Dropping repeats leaves a duplicate-free sequence with the same members.
pub proof fn lemma_first_occurrences(listing: Seq<DeviceView>)
    ensures
        first_occurrences(listing).no_duplicates(),
        forall|d: DeviceView| first_occurrences(listing).contains(d) <==> listing.contains(d),
        listing.no_duplicates() ==> first_occurrences(listing) == listing,
    decreases listing.len(),
{
    if listing.len() > 0 {
        let rest = listing.drop_last();
        let last = listing.last();
        lemma_first_occurrences(rest);
        let earlier = first_occurrences(rest);
        assert(listing =~= rest.push(last));
        assert forall|d: DeviceView| listing.contains(d) <==> (rest.contains(d) || d == last) by {
            if listing.contains(d) {
                let i = choose|i: int| 0 <= i < listing.len() && listing[i] == d;
                if i < rest.len() {
                    assert(rest[i] == d);
                }
            }
            if rest.contains(d) {
                let i = choose|i: int| 0 <= i < rest.len() && rest[i] == d;
                assert(listing[i] == d);
            }
            assert(listing[listing.len() - 1] == last);
        }
        if !earlier.contains(last) {
            lemma_push_distinct(earlier, last);
        }
        if listing.no_duplicates() {
            assert forall|i: int, j: int|
                0 <= i < rest.len() && 0 <= j < rest.len() && i != j implies rest[i] != rest[j] by {
                assert(listing[i] != listing[j]);
            }
            if rest.contains(last) {
                let i = choose|i: int| 0 <= i < rest.len() && rest[i] == last;
                assert(listing[i] == listing[listing.len() - 1]);
            }
        }
    } else {
        assert(listing =~= Seq::empty());
    }
}

/// A set of devices, kept in the order in which its members arrived.
///
/// Its view is the sequence of its members' views, which never holds the same
/// device twice.
pub struct DeviceSet {
    items: Vec<Device>,
}

impl View for DeviceSet {
    type V = Seq<DeviceView>;

    closed spec fn view(&self) -> Seq<DeviceView> {
        views(self.items@)
    }
}

impl DeviceSet {
    /// No device is a member twice.
    #[verifier::type_invariant]
    pub open spec fn distinct(self) -> bool {
        self@.no_duplicates()
    }

    /// The members as a mathematical set.
    pub open spec fn set(&self) -> Set<DeviceView> {
        self@.to_set()
    }

    /// The empty set.
    pub fn new() -> (s: DeviceSet)
        ensures
            s@ == Seq::<DeviceView>::empty(),
    {
        let items: Vec<Device> = Vec::new();
        assert(views(items@) =~= Seq::empty());
        DeviceSet { items }
    }

    /// The set of the devices in `listing`; a device listed more than once is
    /// a member once, at the place of its first mention.
    pub fn from_vec(listing: Vec<Device>) -> (s: DeviceSet)
        ensures
            s@ == first_occurrences(views(listing@)),
            s@.no_duplicates(),
            s.set() == views(listing@).to_set(),
    {
        let mut items: Vec<Device> = Vec::new();
        let mut i: usize = 0;
        assert(views(listing@).take(0) =~= Seq::empty());
        assert(views(items@) =~= Seq::empty());
        while i < listing.len()
            invariant
                i <= listing.len(),
                views(items@) == first_occurrences(views(listing@).take(i as int)),
            decreases listing.len() - i,
        {
            let ghost seen = views(listing@).take(i as int);
            let ghost next = views(listing@).take(i + 1);
            proof {
                assert(next.drop_last() =~= seen);
                assert(next.last() == listing@[i as int]@);
            }
            let known = position_in(&items, &listing[i]).is_some();
            if !known {
                let ghost before = items@;
                items.push(listing[i].clone());
                assert(views(items@) =~= views(before).push(listing@[i as int]@));
            }
            i += 1;
        }
        proof {
            assert(views(listing@).take(listing.len() as int) =~= views(listing@));
            lemma_first_occurrences(views(listing@));
            assert(first_occurrences(views(listing@)).to_set() =~= views(listing@).to_set());
        }
        DeviceSet { items }
    }

    /// The number of members.
    pub fn len(&self) -> (n: usize)
        ensures
            n == self@.len(),
    {
        self.items.len()
    }

    /// Whether the set has no member.
    pub fn is_empty(&self) -> (empty: bool)
        ensures
            empty == (self@.len() == 0),
    {
        self.items.len() == 0
    }

    /// The member at place `i`.
    pub fn get(&self, i: usize) -> (d: &Device)
        requires
            i < self@.len(),
        ensures
            d@ == self@[i as int],
    {
        &self.items[i]
    }

    /// Whether `d` is a member.
    pub fn contains(&self, d: &Device) -> (found: bool)
        ensures
            found == self@.contains(d@),
    {
        position_in(&self.items, d).is_some()
    }

    /// Makes `d` a member. Returns whether it was new; a device that is
    /// already a member stays where it is.
    pub fn insert(&mut self, d: Device) -> (fresh: bool)
        ensures
            fresh == !old(self)@.contains(d@),
            final(self)@ == if fresh {
                old(self)@.push(d@)
            } else {
                old(self)@
            },
            final(self)@.no_duplicates(),
            final(self).set() == old(self).set().insert(d@),
    {
        proof {
            use_type_invariant(&*self);
            old(self)@.lemma_push_to_set_commute(d@);
            if old(self)@.contains(d@) {
                assert(old(self)@.to_set().insert(d@) =~= old(self)@.to_set());
            }
        }
        if position_in(&self.items, &d).is_some() {
            false
        } else {
            let mut taken = DeviceSet::new();
            core::mem::swap(self, &mut taken);
            let mut items = taken.items;
            let ghost before = items@;
            proof {
                lemma_push_distinct(views(before), d@);
            }
            items.push(d);
            assert(views(items@) =~= views(before).push(d@));
            *self = DeviceSet { items };
            true
        }
    }

    /// The members that are not members of `other`, in this set's order.
    pub fn difference(&self, other: &DeviceSet) -> (rest: DeviceSet)
        ensures
            rest@ == self@.filter(absent_from(other@)),
            rest@.no_duplicates(),
            rest.set() == self.set().difference(other.set()),
    {
        let rest = self.select(other, false);
        proof {
            use_type_invariant(self);
            lemma_filter_keeps_distinct(self@, absent_from(other@));
            assert(rest@.to_set() =~= self@.to_set().difference(other@.to_set()));
        }
        rest
    }

    /// The members that are also members of `other`, in this set's order.
    pub fn intersection(&self, other: &DeviceSet) -> (common: DeviceSet)
        ensures
            common@ == self@.filter(present_in(other@)),
            common@.no_duplicates(),
            common.set() == self.set().intersect(other.set()),
    {
        let common = self.select(other, true);
        proof {
            use_type_invariant(self);
            lemma_filter_keeps_distinct(self@, present_in(other@));
            assert(common@.to_set() =~= self@.to_set().intersect(other@.to_set()));
        }
        common
    }

    /// The members of this set followed by those members of `other` that this
    /// set lacks.
    pub fn union(&self, other: &DeviceSet) -> (all: DeviceSet)
        ensures
            all@ == self@ + other@.filter(absent_from(self@)),
            all@.no_duplicates(),
            all.set() == self.set().union(other.set()),
    {
        let extra = other.select(self, false);
        let mut items: Vec<Device> = Vec::new();
        let mut i: usize = 0;
        assert(views(items@) =~= self@.take(0));
        while i < self.items.len()
            invariant
                i <= self.items.len(),
                views(items@) == self@.take(i as int),
            decreases self.items.len() - i,
        {
            let ghost before = items@;
            items.push(self.items[i].clone());
            assert(views(items@) =~= views(before).push(self.items@[i as int]@));
            assert(self@.take(i + 1) =~= self@.take(i as int).push(self@[i as int]));
            i += 1;
        }
        assert(self@.take(self.items.len() as int) =~= self@);
        let mut j: usize = 0;
        assert(extra@.take(0) =~= Seq::empty());
        assert(self@ + Seq::<DeviceView>::empty() =~= self@);
        while j < extra.items.len()
            invariant
                j <= extra.items.len(),
                views(items@) == self@ + extra@.take(j as int),
            decreases extra.items.len() - j,
        {
            let ghost before = items@;
            items.push(extra.items[j].clone());
            assert(views(items@) =~= views(before).push(extra.items@[j as int]@));
            assert(extra@.take(j + 1) =~= extra@.take(j as int).push(extra@[j as int]));
            assert(self@ + extra@.take(j + 1) =~= (self@ + extra@.take(j as int)).push(
                extra@[j as int],
            ));
            j += 1;
        }
        proof {
            assert(extra@.take(extra.items.len() as int) =~= extra@);
            use_type_invariant(self);
            use_type_invariant(other);
            lemma_union_distinct(self@, other@);
            assert((self@ + other@.filter(absent_from(self@))).to_set() =~= self@.to_set().union(
                other@.to_set(),
            ));
        }
        DeviceSet { items }
    }

    /// A copy of the members, in order.
    pub fn to_vec(&self) -> (listing: Vec<Device>)
        ensures
            views(listing@) == self@,
            self@.no_duplicates(),
    {
        let mut listing: Vec<Device> = Vec::new();
        let mut i: usize = 0;
        assert(views(listing@) =~= self@.take(0));
        while i < self.items.len()
            invariant
                i <= self.items.len(),
                views(listing@) == self@.take(i as int),
            decreases self.items.len() - i,
        {
            let ghost before = listing@;
            listing.push(self.items[i].clone());
            assert(views(listing@) =~= views(before).push(self.items@[i as int]@));
            assert(self@.take(i + 1) =~= self@.take(i as int).push(self@[i as int]));
            i += 1;
        }
        proof {
            assert(self@.take(self.items.len() as int) =~= self@);
            use_type_invariant(self);
        }
        listing
    }

    /// The members that are (`wanted`) or are not (`!wanted`) members of
    /// `other`.
    fn select(&self, other: &DeviceSet, wanted: bool) -> (chosen: DeviceSet)
        ensures
            chosen@ == self@.filter(
                if wanted {
                    present_in(other@)
                } else {
                    absent_from(other@)
                },
            ),
            chosen@.no_duplicates(),
    {
        let ghost keep = if wanted {
            present_in(other@)
        } else {
            absent_from(other@)
        };
        let mut items: Vec<Device> = Vec::new();
        let mut i: usize = 0;
        proof {
            reveal(Seq::filter);
            assert(self@.take(0) =~= Seq::empty());
            assert(views(items@) =~= Seq::empty());
        }
        while i < self.items.len()
            invariant
                i <= self.items.len(),
                keep == if wanted {
                    present_in(other@)
                } else {
                    absent_from(other@)
                },
                views(items@) == self@.take(i as int).filter(keep),
            decreases self.items.len() - i,
        {
            let member = position_in(&other.items, &self.items[i]).is_some();
            proof {
                assert(self@.take(i + 1) =~= self@.take(i as int).push(self@[i as int]));
                self@.take(i as int).lemma_filter_push(self@[i as int], keep);
            }
            if member == wanted {
                let ghost before = items@;
                items.push(self.items[i].clone());
                assert(views(items@) =~= views(before).push(self.items@[i as int]@));
            }
            i += 1;
        }
        proof {
            assert(self@.take(self.items.len() as int) =~= self@);
            use_type_invariant(self);
            lemma_filter_keeps_distinct(self@, keep);
        }
        DeviceSet { items }
    }
}

/// The first place in `items` that holds `d`, if any does.
fn position_in(items: &Vec<Device>, d: &Device) -> (place: Option<usize>)
    ensures
        place is Some <==> views(items@).contains(d@),
        place matches Some(i) ==> i < items.len() && items@[i as int]@ == d@,
{
    let mut i: usize = 0;
    while i < items.len()
        invariant
            i <= items.len(),
            forall|k: int| 0 <= k < i ==> views(items@)[k] != d@,
        decreases items.len() - i,
    {
        if items[i] == *d {
            assert(views(items@)[i as int] == d@);
            return Some(i);
        }
        i += 1;
    }
    None
}

/// A duplicate-free sequence followed by what another holds beyond it is
/// duplicate-free, and its members are those of either.
pub proof fn lemma_union_distinct(a: Seq<DeviceView>, b: Seq<DeviceView>)
    requires
        a.no_duplicates(),
        b.no_duplicates(),
    ensures
        (a + b.filter(absent_from(a))).no_duplicates(),
        forall|d: DeviceView|
            (a + b.filter(absent_from(a))).contains(d) <==> (a.contains(d) || b.contains(d)),
{
    let extra = b.filter(absent_from(a));
    let all = a + extra;
    lemma_filter_keeps_distinct(b, absent_from(a));
    assert forall|i: int, j: int| 0 <= i < all.len() && 0 <= j < all.len() && i != j implies all[i]
        != all[j] by {
        if i < a.len() && j < a.len() {
        } else if i >= a.len() && j >= a.len() {
            assert(extra[i - a.len()] != extra[j - a.len()]);
        } else if i < a.len() {
            assert(extra.contains(extra[j - a.len()]));
            assert(a.contains(a[i]));
        } else {
            assert(extra.contains(extra[i - a.len()]));
            assert(a.contains(a[j]));
        }
    }
    assert forall|d: DeviceView| all.contains(d) <==> (a.contains(d) || b.contains(d)) by {
        if all.contains(d) {
            let i = choose|i: int| 0 <= i < all.len() && all[i] == d;
            if i < a.len() {
                assert(a[i] == d);
            } else {
                assert(extra[i - a.len()] == d);
                assert(extra.contains(d));
            }
        }
        if a.contains(d) {
            let i = choose|i: int| 0 <= i < a.len() && a[i] == d;
            assert(all[i] == d);
        } else if b.contains(d) {
            assert(extra.contains(d));
            let i = choose|i: int| 0 <= i < extra.len() && extra[i] == d;
            assert(all[a.len() + i] == d);
        }
    }
}

} // verus!
