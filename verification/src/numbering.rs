//! Object numbers of a document.
//!
//! Every object of a PDF file has a number of its own. Pages that were
//! converted one by one all count from one, so their objects get new numbers
//! when they are put into a common document.
use std::collections::HashMap;
use vstd::prelude::*;

verus! {

broadcast use vstd::std_specs::hash::group_hash_axioms;

/// What a [`Numbering`] stands for.
#[verifier::ext_equal]
pub struct NumberingView {
    /// The number that is given out next.
    pub next: i32,
    /// The new number of each old one met so far.
    pub map: Map<i32, i32>,
    /// Whether a number was asked for when none was left.
    pub exhausted: bool,
}

/// A numbering that starts at `next` and has met nothing.
pub open spec fn fresh_numbering(next: i32) -> NumberingView {
    NumberingView { next, map: Map::empty(), exhausted: false }
}

/// The numbering after `id` was met: a number met before keeps its
/// replacement, another takes the next free number. The last number is never
/// given out.
pub open spec fn assign(n: NumberingView, id: i32) -> NumberingView {
    if n.map.contains_key(id) {
        n
    } else if n.next == i32::MAX {
        NumberingView { exhausted: true, ..n }
    } else {
        NumberingView { next: (n.next + 1) as i32, map: n.map.insert(id, n.next), ..n }
    }
}

/// The numbering after all of `ids` were met, in this order.
pub open spec fn assign_all(n: NumberingView, ids: Seq<i32>) -> NumberingView
    decreases ids.len(),
{
    if ids.len() == 0 {
        n
    } else {
        assign(assign_all(n, ids.drop_last()), ids.last())
    }
}

/// Whether all numbers that `n` has given out or will give out are positive.
pub open spec fn positive(n: NumberingView) -> bool {
    &&& n.next > 0
    &&& forall|id: i32| #[trigger] n.map.contains_key(id) ==> n.map[id] > 0
}

/// Whether `v` was given out as a replacement.
pub open spec fn given_out(n: NumberingView, v: i32) -> bool {
    exists|id: i32| #[trigger] n.map.contains_key(id) && n.map[id] == v
}

/// Hands out consecutive object numbers and remembers which old number each of
/// them replaces.
pub struct Numbering {
    next: i32,
    map: HashMap<i32, i32>,
    exhausted: bool,
}

impl View for Numbering {
    type V = NumberingView;

    closed spec fn view(&self) -> NumberingView {
        NumberingView { next: self.next, map: self.map@, exhausted: self.exhausted }
    }
}

impl Numbering {
    /// A numbering that starts at `next` and has met nothing.
    pub fn new(next: i32) -> (r: Numbering)
        ensures
            r@ == fresh_numbering(next),
    {
        Numbering { next, map: HashMap::new(), exhausted: false }
    }

    /// The number that is given out next.
    pub fn next(&self) -> (r: i32)
        ensures
            r == self@.next,
    {
        self.next
    }

    /// Whether a number was asked for when none was left.
    pub fn exhausted(&self) -> (r: bool)
        ensures
            r == self@.exhausted,
    {
        self.exhausted
    }

    /// The replacement of `id`, if `id` was met.
    pub fn get(&self, id: i32) -> (r: Option<i32>)
        ensures
            r == (if self@.map.contains_key(id) {
                Some(self@.map[id])
            } else {
                None::<i32>
            }),
    {
        match self.map.get(&id) {
            Some(new_id) => Some(*new_id),
            None => None,
        }
    }

    /// Meets `id` and returns its replacement. When no number is left this is
    /// `id` itself, and the numbering is exhausted from then on.
    pub fn assign(&mut self, id: i32) -> (r: i32)
        ensures
            final(self)@ == assign(old(self)@, id),
            r == (if final(self)@.map.contains_key(id) {
                final(self)@.map[id]
            } else {
                id
            }),
    {
        match self.map.get(&id) {
            Some(new_id) => {
                return *new_id;
            },
            None => {},
        }
        if self.next == i32::MAX {
            self.exhausted = true;
            id
        } else {
            let new_id: i32 = self.next;
            self.next = self.next + 1;
            self.map.insert(id, new_id);
            new_id
        }
    }
}

/// Numbers are given out from `start` on without a gap, each to one old number
/// alone, and only to numbers that were met. Unless the numbers ran out, every
/// number that was met has its replacement.
pub proof fn numbering_is_injective(start: i32, ids: Seq<i32>)
    ensures
        ({
            let n = assign_all(fresh_numbering(start), ids);
            &&& start <= n.next
            &&& forall|id: i32| #[trigger]
                n.map.contains_key(id) ==> ids.contains(id) && start <= n.map[id] < n.next
            &&& forall|a: i32, b: i32| #[trigger]
                n.map.contains_key(a) && #[trigger] n.map.contains_key(b) && n.map[a] == n.map[b]
                    ==> a == b
            &&& forall|v: i32| start <= v < n.next ==> #[trigger] given_out(n, v)
            &&& !n.exhausted ==> forall|i: int|
                0 <= i < ids.len() ==> n.map.contains_key(#[trigger] ids[i])
        }),
    decreases ids.len(),
{
    if ids.len() > 0 {
        let shorter = ids.drop_last();
        let id = ids.last();
        numbering_is_injective(start, shorter);
        let n = assign_all(fresh_numbering(start), shorter);
        let m = assign_all(fresh_numbering(start), ids);
        assert(m == assign(n, id));
        assert(forall|x: i32| shorter.contains(x) ==> ids.contains(x)) by {
            assert forall|x: i32| shorter.contains(x) implies ids.contains(x) by {
                let i = choose|i: int| 0 <= i < shorter.len() && shorter[i] == x;
                assert(ids[i] == x);
            }
        }
        assert(ids.contains(id)) by {
            assert(ids[ids.len() - 1] == id);
        }
        assert forall|v: i32| start <= v < m.next implies #[trigger] given_out(m, v) by {
            if v < n.next {
                assert(given_out(n, v));
                let x = choose|x: i32| #[trigger] n.map.contains_key(x) && n.map[x] == v;
                assert(m.map.contains_key(x) && m.map[x] == v);
            } else {
                assert(m.map.contains_key(id) && m.map[id] == v);
            }
        }
        assert forall|i: int| !m.exhausted && 0 <= i < ids.len() implies m.map.contains_key(
            #[trigger] ids[i],
        ) by {
            if i < shorter.len() {
                assert(shorter[i] == ids[i]);
            }
        }
    }
}

/// The numbers run out at most where there are more numbers to meet than
/// numbers left.
pub proof fn numbers_suffice(start: i32, ids: Seq<i32>)
    requires
        start + ids.len() <= i32::MAX,
    ensures
        !assign_all(fresh_numbering(start), ids).exhausted,
        assign_all(fresh_numbering(start), ids).next <= start + ids.len(),
    decreases ids.len(),
{
    if ids.len() > 0 {
        numbers_suffice(start, ids.drop_last());
    }
}

} // verus!
