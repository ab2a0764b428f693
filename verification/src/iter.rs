//! A double-ended iterator over the occupied slots of a slot vector, as a
//! vector map stores them: slot `i` holds `Some(v)` when key `i` maps to `v`.

use crate::runs::{all_front, run_ends, take_back, take_front};
use vstd::prelude::*;

verus! {

/// The occupied slots of `s`, in order.
pub open spec fn somes<V>(s: Seq<Option<V>>) -> Seq<V>
    decreases s.len(),
{
    if s.len() == 0 {
        Seq::empty()
    } else {
        let lower = somes(s.drop_last());
        match s.last() {
            Some(v) => lower.push(v),
            None => lower,
        }
    }
}

/// Taking the occupied slots commutes with concatenation.
pub proof fn lemma_somes_concat<V>(a: Seq<Option<V>>, b: Seq<Option<V>>)
    ensures
        somes(a + b) == somes(a) + somes(b),
    decreases b.len(),
{
    if b.len() == 0 {
        assert(a + b =~= a);
        assert(somes(a) + somes(b) =~= somes(a));
    } else {
        lemma_somes_concat(a, b.drop_last());
        assert((a + b).drop_last() =~= a + b.drop_last());
        assert((a + b).last() == b.last());
        match b.last() {
            Some(v) => {
                assert(somes(a) + somes(b.drop_last()).push(v) =~= (somes(a) + somes(
                    b.drop_last(),
                )).push(v));
            },
            None => {},
        }
    }
}

/// There are no more occupied slots than slots.
pub proof fn lemma_somes_len<V>(s: Seq<Option<V>>)
    ensures
        somes(s).len() <= s.len(),
    decreases s.len(),
{
    if s.len() > 0 {
        lemma_somes_len(s.drop_last());
    }
}

/// The occupied slots of a window start with its first slot, when that one
/// is occupied.
proof fn lemma_somes_front<V>(s: Seq<Option<V>>, f: int, b: int)
    requires
        0 <= f < b <= s.len(),
    ensures
        somes(s.subrange(f, b)) == match s[f] {
            Some(v) => seq![v] + somes(s.subrange(f + 1, b)),
            None => somes(s.subrange(f + 1, b)),
        },
{
    let head = s.subrange(f, f + 1);
    assert(s.subrange(f, b) =~= head + s.subrange(f + 1, b));
    lemma_somes_concat(head, s.subrange(f + 1, b));
    assert(head.len() == 1);
    assert(head.drop_last() =~= Seq::<Option<V>>::empty());
    assert(head.last() == s[f]);
    assert(somes(head.drop_last()) =~= Seq::<V>::empty());
    match s[f] {
        Some(v) => {
            assert(somes(head) =~= seq![v]);
        },
        None => {
            assert(somes(head) =~= Seq::<V>::empty());
            assert(somes(head) + somes(s.subrange(f + 1, b)) =~= somes(s.subrange(f + 1, b)));
        },
    }
}

/// The occupied slots of a window end with its last slot, when that one is
/// occupied.
proof fn lemma_somes_back<V>(s: Seq<Option<V>>, f: int, b: int)
    requires
        0 <= f < b <= s.len(),
    ensures
        somes(s.subrange(f, b)) == match s[b - 1] {
            Some(v) => somes(s.subrange(f, b - 1)).push(v),
            None => somes(s.subrange(f, b - 1)),
        },
{
    assert(s.subrange(f, b).drop_last() =~= s.subrange(f, b - 1));
}

/// What is left of the slots `s` once the front has been visited up to and
/// including the first occupied slot; nothing when none is occupied.
pub open spec fn past_first_some<V>(s: Seq<Option<V>>) -> Seq<Option<V>>
    decreases s.len(),
{
    if s.len() == 0 {
        s
    } else if s[0] is Some {
        s.drop_first()
    } else {
        past_first_some(s.drop_first())
    }
}

/// What is left of the slots `s` once the back has been visited down to and
/// including the last occupied slot; nothing when none is occupied.
pub open spec fn before_last_some<V>(s: Seq<Option<V>>) -> Seq<Option<V>>
    decreases s.len(),
{
    if s.len() == 0 {
        s
    } else if s.last() is Some {
        s.drop_last()
    } else {
        before_last_some(s.drop_last())
    }
}

/// One call of `Iter::next` on the slots `s` still to visit: the value it
/// returns, if any, and the slots left to visit after it.
pub open spec fn slot_front<V>(s: Seq<Option<V>>) -> (Option<V>, Seq<Option<V>>) {
    (take_front(somes(s)).0, past_first_some(s))
}

/// One call of `Iter::next_back` on the slots `s` still to visit: the value it
/// returns, if any, and the slots left to visit after it.
pub open spec fn slot_back<V>(s: Seq<Option<V>>) -> (Option<V>, Seq<Option<V>>) {
    (take_back(somes(s)).0, before_last_some(s))
}

/// A run of calls on an iterator whose slots still to visit are `s`: call `i`
/// is `next` when `dirs[i]` holds and `next_back` otherwise. The result holds
/// the values returned by `next` in the order returned, those returned by
/// `next_back` in the order returned, and the slots left to visit at the end.
pub open spec fn slot_run<V>(s: Seq<Option<V>>, dirs: Seq<bool>) -> (Seq<V>, Seq<V>, Seq<
    Option<V>,
>)
    decreases dirs.len(),
{
    if dirs.len() == 0 {
        (Seq::empty(), Seq::empty(), s)
    } else {
        let step = if dirs[0] {
            slot_front(s)
        } else {
            slot_back(s)
        };
        let later = slot_run(step.1, dirs.drop_first());
        match step.0 {
            Some(v) => if dirs[0] {
                (seq![v] + later.0, later.1, later.2)
            } else {
                (later.0, seq![v] + later.1, later.2)
            },
            None => later,
        }
    }
}

/// Visiting from the front past the first occupied slot drops exactly the
/// first value; when no slot is occupied, it visits every slot.
pub proof fn lemma_past_first_some<V>(s: Seq<Option<V>>)
    ensures
        somes(past_first_some(s)) == take_front(somes(s)).1,
        somes(s).len() == 0 ==> past_first_some(s) == Seq::<Option<V>>::empty(),
    decreases s.len(),
{
    if s.len() > 0 {
        lemma_somes_front(s, 0, s.len() as int);
        assert(s.subrange(0, s.len() as int) =~= s);
        assert(s.subrange(1, s.len() as int) =~= s.drop_first());
        lemma_past_first_some(s.drop_first());
        match s[0] {
            Some(v) => {
                assert((seq![v] + somes(s.drop_first())).drop_first() =~= somes(s.drop_first()));
            },
            None => {},
        }
    }
}

/// Visiting from the back past the last occupied slot drops exactly the last
/// value; when no slot is occupied, it visits every slot.
pub proof fn lemma_before_last_some<V>(s: Seq<Option<V>>)
    ensures
        somes(before_last_some(s)) == take_back(somes(s)).1,
        somes(s).len() == 0 ==> before_last_some(s) == Seq::<Option<V>>::empty(),
    decreases s.len(),
{
    if s.len() > 0 {
        lemma_before_last_some(s.drop_last());
        match s.last() {
            Some(v) => {
                assert(somes(s.drop_last()).push(v).drop_last() =~= somes(s.drop_last()));
            },
            None => {},
        }
    }
}

/// A run of calls on the slots gives what the same run gives on their values.
pub proof fn lemma_slot_run_follows_values<V>(s: Seq<Option<V>>, dirs: Seq<bool>)
    ensures
        slot_run(s, dirs).0 == run_ends(somes(s), dirs).0,
        slot_run(s, dirs).1 == run_ends(somes(s), dirs).1,
        somes(slot_run(s, dirs).2) == run_ends(somes(s), dirs).2,
    decreases dirs.len(),
{
    if dirs.len() > 0 {
        lemma_past_first_some(s);
        lemma_before_last_some(s);
        let step = if dirs[0] {
            slot_front(s)
        } else {
            slot_back(s)
        };
        lemma_slot_run_follows_values(step.1, dirs.drop_first());
    }
}

/// Whatever the order of the calls of `next` and `next_back`, each value of
/// an occupied slot is returned once and no empty slot gives one: the values
/// returned by `next`, then those of the slots left, then those returned by
/// `next_back` read backwards, are the values of the slots, in slot order.
pub proof fn lemma_iter_run_returns_each_value_once<V>(s: Seq<Option<V>>, dirs: Seq<bool>)
    ensures
        slot_run(s, dirs).0 + somes(slot_run(s, dirs).2) + slot_run(s, dirs).1.reverse()
            == somes(s),
{
    lemma_slot_run_follows_values(s, dirs);
    crate::runs::lemma_run_returns_each_item_once(somes(s), dirs);
}

/// Once no occupied slot is left, every further call returns nothing.
pub proof fn lemma_iter_exhausted_returns_nothing<V>(s: Seq<Option<V>>, dirs: Seq<bool>)
    requires
        somes(s).len() == 0,
    ensures
        slot_run(s, dirs).0 == Seq::<V>::empty(),
        slot_run(s, dirs).1 == Seq::<V>::empty(),
{
    lemma_slot_run_follows_values(s, dirs);
    assert(somes(s) =~= Seq::<V>::empty());
    crate::runs::lemma_exhausted_run_finds_nothing::<V>(dirs);
}

/// Calls of `next` alone, one more than there are values, return every value
/// once in slot order, then nothing, and leave no slot unvisited.
pub proof fn lemma_iter_front_run_visits_every_slot<V>(s: Seq<Option<V>>, n: nat)
    requires
        n > somes(s).len(),
    ensures
        slot_run(s, all_front(n)) == (somes(s), Seq::<V>::empty(), Seq::<Option<V>>::empty()),
    decreases n,
{
    lemma_past_first_some(s);
    assert(all_front(n).drop_first() =~= all_front((n - 1) as nat));
    let rest = past_first_some(s);
    if somes(s).len() == 0 {
        lemma_somes_len(rest);
        if n > 1 {
            lemma_iter_front_run_visits_every_slot(rest, (n - 1) as nat);
        }
        assert(somes(s) =~= Seq::<V>::empty());
        assert(rest =~= Seq::<Option<V>>::empty());
        assert(all_front(n)[0]);
        assert(slot_front(s).0 is None);
        assert(slot_run(s, all_front(n)) == slot_run(rest, all_front((n - 1) as nat)));
    } else {
        lemma_iter_front_run_visits_every_slot(rest, (n - 1) as nat);
        assert(all_front(n)[0]);
        assert(slot_front(s).0 == Some(somes(s)[0]));
        assert(seq![somes(s)[0]] + somes(s).drop_first() =~= somes(s));
    }
}

/// An iterator over the values of a slot vector, from both ends.
/// `front..back` is the window of slots not yet visited.
pub struct Iter<'a, V: 'a> {
    front: usize,
    back: usize,
    slots: &'a [Option<V>],
}

impl<'a, V> Iter<'a, V> {
    #[verifier::type_invariant]
    closed spec fn inv(self) -> bool {
        self.front <= self.back <= self.slots@.len()
    }

    /// The slots still to be visited, in order.
    pub closed spec fn rest(&self) -> Seq<Option<V>> {
        self.slots@.subrange(self.front as int, self.back as int)
    }

    /// The values still to come, in order.
    pub open spec fn view(&self) -> Seq<V> {
        somes(self.rest())
    }

    /// How many slots are still to be visited.
    pub open spec fn span(&self) -> nat {
        self.rest().len()
    }

    /// An iterator over all the occupied slots of `slots`.
    pub fn new(slots: &'a [Option<V>]) -> (r: Self)
        ensures
            r.rest() == slots@,
    {
        let r = Iter { front: 0, back: slots.len(), slots };
        assert(slots@.subrange(0, slots@.len() as int) =~= slots@);
        r
    }

    /// Yields the next value from the front, or `None` once none is left.
    pub fn next(&mut self) -> (r: Option<&'a V>)
        ensures
            match slot_front(old(self).rest()).0 {
                Some(v) => r matches Some(x) && *x == v,
                None => r is None,
            },
            final(self).rest() == slot_front(old(self).rest()).1,
            final(self).view() == take_front(old(self).view()).1,
    {
        proof {
            use_type_invariant(&*self);
        }
        while self.front < self.back
            invariant
                self.front <= self.back <= self.slots@.len(),
                self.view() == old(self).view(),
                past_first_some(self.rest()) == past_first_some(old(self).rest()),
            decreases self.back - self.front,
        {
            let slots = self.slots;
            let i = self.front;
            proof {
                lemma_somes_front(slots@, i as int, self.back as int);
                assert(slots@.subrange(i + 1, self.back as int) =~= self.rest().drop_first());
            }
            self.front = i + 1;
            match slots[i].as_ref() {
                Some(x) => {
                    return Some(x);
                },
                None => {},
            }
        }
        assert(self.slots@.subrange(self.front as int, self.back as int) =~= Seq::<
            Option<V>,
        >::empty());
        None
    }

    /// Yields the next value from the back, or `None` once none is left.
    pub fn next_back(&mut self) -> (r: Option<&'a V>)
        ensures
            match slot_back(old(self).rest()).0 {
                Some(v) => r matches Some(x) && *x == v,
                None => r is None,
            },
            final(self).rest() == slot_back(old(self).rest()).1,
            final(self).view() == take_back(old(self).view()).1,
    {
        proof {
            use_type_invariant(&*self);
        }
        while self.front < self.back
            invariant
                self.front <= self.back <= self.slots@.len(),
                self.view() == old(self).view(),
                before_last_some(self.rest()) == before_last_some(old(self).rest()),
            decreases self.back - self.front,
        {
            let slots = self.slots;
            let i = self.back - 1;
            proof {
                lemma_somes_back(slots@, self.front as int, self.back as int);
                assert(slots@.subrange(self.front as int, i as int) =~= self.rest().drop_last());
            }
            self.back = i;
            match slots[i].as_ref() {
                Some(x) => {
                    return Some(x);
                },
                None => {},
            }
        }
        assert(self.slots@.subrange(self.front as int, self.back as int) =~= Seq::<
            Option<V>,
        >::empty());
        None
    }

    /// No lower bound, and the number of slots still to be visited as upper
    /// bound, which is never below the number of values still to come.
    pub fn size_hint(&self) -> (r: (usize, Option<usize>))
        ensures
            r.0 == 0,
            r.1 == Some(self.span() as usize),
            self.view().len() <= self.span(),
    {
        proof {
            use_type_invariant(self);
            lemma_somes_len(self.slots@.subrange(self.front as int, self.back as int));
        }
        (0, Some(self.back - self.front))
    }
}

impl<'a, V> Clone for Iter<'a, V> {
    /// An iterator at the same place over the same slots.
    fn clone(&self) -> (r: Self)
        ensures
            r.rest() == self.rest(),
    {
        proof {
            use_type_invariant(self);
        }
        Iter { front: self.front, back: self.back, slots: self.slots }
    }
}

} // verus!
