//! Runs of calls on a double-ended cursor over a sequence: each call from the
//! front takes the first item left, each call from the back the last one, and
//! a call finds nothing once nothing is left. The cursors of this crate
//! (`Values`, `OsValues` over their views, `Iter` over the values of its
//! slots) step exactly so; the laws here say what whole runs of calls give.

use vstd::prelude::*;

verus! {

/// One call from the front: the first item left, if any, and what is left after.
pub open spec fn take_front<T>(vs: Seq<T>) -> (Option<T>, Seq<T>) {
    if vs.len() == 0 {
        (None, vs)
    } else {
        (Some(vs[0]), vs.drop_first())
    }
}

/// One call from the back: the last item left, if any, and what is left after.
pub open spec fn take_back<T>(vs: Seq<T>) -> (Option<T>, Seq<T>) {
    if vs.len() == 0 {
        (None, vs)
    } else {
        (Some(vs.last()), vs.drop_last())
    }
}

/// A run of calls over `vs`: call `i` is from the front when `dirs[i]` holds and
/// from the back otherwise. The result holds the items returned from the
/// front in the order returned, those returned from the back in the order
/// returned, and what is left at the end.
pub open spec fn run_ends<T>(vs: Seq<T>, dirs: Seq<bool>) -> (Seq<T>, Seq<T>, Seq<T>)
    decreases dirs.len(),
{
    if dirs.len() == 0 {
        (Seq::empty(), Seq::empty(), vs)
    } else {
        let step = if dirs[0] {
            take_front(vs)
        } else {
            take_back(vs)
        };
        let later = run_ends(step.1, dirs.drop_first());
        match step.0 {
            Some(v) => if dirs[0] {
                (seq![v] + later.0, later.1, later.2)
            } else {
                (later.0, seq![v] + later.1, later.2)
            },
            None => later,
        }
    }
}

/// `n` calls, all from the front.
pub open spec fn all_front(n: nat) -> Seq<bool> {
    Seq::new(n, |i: int| true)
}

/// `n` calls, all from the back.
pub open spec fn all_back(n: nat) -> Seq<bool> {
    Seq::new(n, |i: int| false)
}

/// Whatever the order of the calls from the two ends, every item is returned
/// at most once and none is skipped: the items returned from the front, then
/// those left, then those returned from the back read backwards, are exactly
/// the items, in order.
pub proof fn lemma_run_returns_each_item_once<T>(vs: Seq<T>, dirs: Seq<bool>)
    ensures
        run_ends(vs, dirs).0 + run_ends(vs, dirs).2 + run_ends(vs, dirs).1.reverse() == vs,
        run_ends(vs, dirs).0.len() + run_ends(vs, dirs).1.len() + run_ends(vs, dirs).2.len()
            == vs.len(),
    decreases dirs.len(),
{
    if dirs.len() > 0 {
        let step = if dirs[0] {
            take_front(vs)
        } else {
            take_back(vs)
        };
        lemma_run_returns_each_item_once(step.1, dirs.drop_first());
        let later = run_ends(step.1, dirs.drop_first());
        assert(later.0 + later.2 + later.1.reverse() == step.1);
        match step.0 {
            Some(v) => {
                if dirs[0] {
                    assert(vs =~= seq![v] + step.1);
                    assert(seq![v] + later.0 + later.2 + later.1.reverse() =~= seq![v] + (later.0
                        + later.2 + later.1.reverse()));
                } else {
                    assert(vs =~= step.1.push(v));
                    assert((seq![v] + later.1).reverse() =~= later.1.reverse().push(v));
                    assert(later.0 + later.2 + later.1.reverse().push(v) =~= (later.0 + later.2
                        + later.1.reverse()).push(v));
                }
            },
            None => {},
        }
    }
}

/// Once nothing is left, every further call finds nothing.
pub proof fn lemma_exhausted_run_finds_nothing<T>(dirs: Seq<bool>)
    ensures
        run_ends(Seq::<T>::empty(), dirs) == (Seq::<T>::empty(), Seq::<T>::empty(), Seq::<
            T,
        >::empty()),
    decreases dirs.len(),
{
    if dirs.len() > 0 {
        lemma_exhausted_run_finds_nothing::<T>(dirs.drop_first());
    }
}

/// Calls from the front alone return the items in order, and once all have
/// been returned every further call finds nothing.
pub proof fn lemma_front_run_returns_items_in_order<T>(vs: Seq<T>, n: nat)
    requires
        n >= vs.len(),
    ensures
        run_ends(vs, all_front(n)) == (vs, Seq::<T>::empty(), Seq::<T>::empty()),
    decreases n,
{
    if n == 0 {
        assert(vs =~= Seq::<T>::empty());
    } else {
        assert(all_front(n).drop_first() =~= all_front((n - 1) as nat));
        if vs.len() == 0 {
            lemma_exhausted_run_finds_nothing::<T>(all_front((n - 1) as nat));
            assert(vs =~= Seq::<T>::empty());
        } else {
            lemma_front_run_returns_items_in_order(vs.drop_first(), (n - 1) as nat);
            assert(seq![vs[0]] + vs.drop_first() =~= vs);
        }
    }
}

/// Calls from the back alone return the items in reverse order, and once all
/// have been returned every further call finds nothing.
pub proof fn lemma_back_run_returns_items_reversed<T>(vs: Seq<T>, n: nat)
    requires
        n >= vs.len(),
    ensures
        run_ends(vs, all_back(n)) == (Seq::<T>::empty(), vs.reverse(), Seq::<T>::empty()),
    decreases n,
{
    if n == 0 {
        assert(vs =~= Seq::<T>::empty());
        assert(vs.reverse() =~= Seq::<T>::empty());
    } else {
        assert(all_back(n).drop_first() =~= all_back((n - 1) as nat));
        if vs.len() == 0 {
            lemma_exhausted_run_finds_nothing::<T>(all_back((n - 1) as nat));
            assert(vs =~= Seq::<T>::empty());
            assert(vs.reverse() =~= Seq::<T>::empty());
            assert(run_ends(vs, all_back(n)) == run_ends(vs, all_back((n - 1) as nat)));
        } else {
            lemma_back_run_returns_items_reversed(vs.drop_last(), (n - 1) as nat);
            assert(!all_back(n)[0]);
            assert(take_back(vs) == (Some(vs.last()), vs.drop_last()));
            assert(seq![vs.last()] + vs.drop_last().reverse() =~= vs.reverse()) by {
                assert forall|i: int| 0 <= i < vs.len() implies (seq![vs.last()]
                    + vs.drop_last().reverse())[i] == vs.reverse()[i] by {
                    if i > 0 {
                        assert(vs.drop_last().reverse()[i - 1] == vs.drop_last()[vs.len() - 2 - (
                        i - 1)]);
                    }
                }
            }
            assert(run_ends(vs, all_back(n)) == (Seq::<T>::empty(), seq![vs.last()]
                + vs.drop_last().reverse(), Seq::<T>::empty()));
        }
    }
}

} // verus!
