//! Iterators over the values of one argument, from both ends: `Values`
//! reads each value as UTF-8 text, `OsValues` hands out the raw bytes.

use crate::runs::{
    all_back, all_front, lemma_back_run_returns_items_reversed,
    lemma_front_run_returns_items_in_order, run_ends, take_back, take_front,
};
use crate::text::utf8_str;
use vstd::prelude::*;
use vstd::utf8::{decode_utf8, valid_utf8};

verus! {

/// The raw bytes of each borrowed value of `items`, in order.
pub open spec fn raw_values<'a>(items: Seq<&'a Vec<u8>>) -> Seq<Seq<u8>> {
    items.map_values(|v: &'a Vec<u8>| v@)
}

/// Each of the raw values `vs` read as UTF-8 text.
pub open spec fn decoded(vs: Seq<Seq<u8>>) -> Seq<Seq<char>> {
    vs.map_values(|v: Seq<u8>| decode_utf8(v))
}

/// Calls of `Values::next` alone, from values `vs`, give each value as text,
/// in order, then nothing: the raw values taken from the front are all of
/// `vs`, and none is left.
pub proof fn lemma_values_read_in_order(vs: Seq<Seq<u8>>, n: nat)
    requires
        n >= vs.len(),
    ensures
        decoded(run_ends(vs, all_front(n)).0) == decoded(vs),
        run_ends(vs, all_front(n)).1.len() == 0,
        run_ends(vs, all_front(n)).2.len() == 0,
{
    lemma_front_run_returns_items_in_order(vs, n);
}

/// Calls of `Values::next_back` alone, from values `vs`, give each value as
/// text in reverse order, then nothing.
pub proof fn lemma_values_read_backwards(vs: Seq<Seq<u8>>, n: nat)
    requires
        n >= vs.len(),
    ensures
        decoded(run_ends(vs, all_back(n)).1) == decoded(vs.reverse()),
        run_ends(vs, all_back(n)).0.len() == 0,
        run_ends(vs, all_back(n)).2.len() == 0,
{
    lemma_back_run_returns_items_reversed(vs, n);
}

/// The values of an argument as text, still to be visited from both ends.
pub struct Values<'a> {
    items: Vec<&'a Vec<u8>>,
    front: usize,
    back: usize,
}

impl<'a> Values<'a> {
    #[verifier::type_invariant]
    closed spec fn inv(self) -> bool {
        self.front <= self.back <= self.items@.len()
    }

    /// The raw bytes of the values still to come, in order.
    pub closed spec fn view(&self) -> Seq<Seq<u8>> {
        raw_values(self.items@.subrange(self.front as int, self.back as int))
    }

    /// The size hint: how many values have not been taken from the front.
    /// Values taken from the back still count, as they do for the values
    /// iterator of `vec_map`; so the hint can exceed what is left.
    pub closed spec fn hint(&self) -> nat {
        (self.items@.len() - self.front) as nat
    }

    /// An iterator over all of `items`.
    pub(crate) fn from_items(items: Vec<&'a Vec<u8>>) -> (r: Self)
        ensures
            r.view() == raw_values(items@),
            r.hint() == items@.len(),
    {
        let back = items.len();
        let r = Values { items, front: 0, back };
        assert(r.items@.subrange(0, back as int) =~= r.items@);
        r
    }

    /// Yields the next value from the front as text, or `None` once none is
    /// left. The value must be well-formed UTF-8.
    pub fn next(&mut self) -> (r: Option<&'a str>)
        requires
            old(self).view().len() > 0 ==> valid_utf8(old(self).view()[0]),
        ensures
            final(self).view() == take_front(old(self).view()).1,
            match take_front(old(self).view()).0 {
                Some(v) => r matches Some(s) && s@ == decode_utf8(v) && final(self).hint()
                    == old(self).hint() - 1,
                None => r is None && final(self).hint() == old(self).hint(),
            },
    {
        proof {
            use_type_invariant(&*self);
        }
        if self.front < self.back {
            let item: &'a Vec<u8> = self.items[self.front];
            assert(self.items@.subrange(self.front + 1, self.back as int) =~= self.items@.subrange(
                self.front as int,
                self.back as int,
            ).drop_first());
            self.front = self.front + 1;
            utf8_str(item.as_slice())
        } else {
            None
        }
    }

    /// Yields the next value from the back as text, or `None` once none is
    /// left. The value must be well-formed UTF-8.
    pub fn next_back(&mut self) -> (r: Option<&'a str>)
        requires
            old(self).view().len() > 0 ==> valid_utf8(old(self).view().last()),
        ensures
            final(self).view() == take_back(old(self).view()).1,
            match take_back(old(self).view()).0 {
                Some(v) => r matches Some(s) && s@ == decode_utf8(v),
                None => r is None,
            },
            final(self).hint() == old(self).hint(),
    {
        proof {
            use_type_invariant(&*self);
        }
        if self.front < self.back {
            let item: &'a Vec<u8> = self.items[self.back - 1];
            assert(self.items@.subrange(self.front as int, self.back - 1) =~= self.items@.subrange(
                self.front as int,
                self.back as int,
            ).drop_last());
            self.back = self.back - 1;
            utf8_str(item.as_slice())
        } else {
            None
        }
    }

    /// The number of values not yet taken from the front, as both bounds.
    /// It never falls below the number of values still to come; after calls
    /// from the back it exceeds it, as the hint of `vec_map`'s values iterator
    /// does, which counts only the values yielded from the front.
    pub fn size_hint(&self) -> (r: (usize, Option<usize>))
        ensures
            r.0 == self.hint(),
            r.1 == Some(self.hint() as usize),
            self.view().len() <= self.hint(),
    {
        proof {
            use_type_invariant(self);
        }
        let n = self.items.len() - self.front;
        (n, Some(n))
    }
}

/// The values of an argument as raw bytes, still to be visited from both ends.
pub struct OsValues<'a> {
    items: Vec<&'a Vec<u8>>,
    front: usize,
    back: usize,
}

impl<'a> OsValues<'a> {
    #[verifier::type_invariant]
    closed spec fn inv(self) -> bool {
        self.front <= self.back <= self.items@.len()
    }

    /// The raw bytes of the values still to come, in order.
    pub closed spec fn view(&self) -> Seq<Seq<u8>> {
        raw_values(self.items@.subrange(self.front as int, self.back as int))
    }

    /// The size hint: how many values have not been taken from the front.
    /// Values taken from the back still count, as they do for the values
    /// iterator of `vec_map`; so the hint can exceed what is left.
    pub closed spec fn hint(&self) -> nat {
        (self.items@.len() - self.front) as nat
    }

    /// An iterator over all of `items`.
    pub(crate) fn from_items(items: Vec<&'a Vec<u8>>) -> (r: Self)
        ensures
            r.view() == raw_values(items@),
            r.hint() == items@.len(),
    {
        let back = items.len();
        let r = OsValues { items, front: 0, back };
        assert(r.items@.subrange(0, back as int) =~= r.items@);
        r
    }

    /// Yields the bytes of the next value from the front, or `None` once none
    /// is left.
    pub fn next(&mut self) -> (r: Option<&'a [u8]>)
        ensures
            final(self).view() == take_front(old(self).view()).1,
            match take_front(old(self).view()).0 {
                Some(v) => r matches Some(b) && b@ == v && final(self).hint() == old(self).hint()
                    - 1,
                None => r is None && final(self).hint() == old(self).hint(),
            },
    {
        proof {
            use_type_invariant(&*self);
        }
        if self.front < self.back {
            let item: &'a Vec<u8> = self.items[self.front];
            assert(self.items@.subrange(self.front + 1, self.back as int) =~= self.items@.subrange(
                self.front as int,
                self.back as int,
            ).drop_first());
            self.front = self.front + 1;
            Some(item.as_slice())
        } else {
            None
        }
    }

    /// Yields the bytes of the next value from the back, or `None` once none
    /// is left.
    pub fn next_back(&mut self) -> (r: Option<&'a [u8]>)
        ensures
            final(self).view() == take_back(old(self).view()).1,
            match take_back(old(self).view()).0 {
                Some(v) => r matches Some(b) && b@ == v,
                None => r is None,
            },
            final(self).hint() == old(self).hint(),
    {
        proof {
            use_type_invariant(&*self);
        }
        if self.front < self.back {
            let item: &'a Vec<u8> = self.items[self.back - 1];
            assert(self.items@.subrange(self.front as int, self.back - 1) =~= self.items@.subrange(
                self.front as int,
                self.back as int,
            ).drop_last());
            self.back = self.back - 1;
            Some(item.as_slice())
        } else {
            None
        }
    }

    /// The number of values not yet taken from the front, as both bounds.
    /// It never falls below the number of values still to come; after calls
    /// from the back it exceeds it, as the hint of `vec_map`'s values iterator
    /// does, which counts only the values yielded from the front.
    pub fn size_hint(&self) -> (r: (usize, Option<usize>))
        ensures
            r.0 == self.hint(),
            r.1 == Some(self.hint() as usize),
            self.view().len() <= self.hint(),
    {
        proof {
            use_type_invariant(self);
        }
        let n = self.items.len() - self.front;
        (n, Some(n))
    }
}

impl<'a> Clone for Values<'a> {
    /// An iterator at the same place over the same values.
    fn clone(&self) -> (r: Self)
        ensures
            r.view() == self.view(),
            r.hint() == self.hint(),
    {
        proof {
            use_type_invariant(self);
        }
        Values { items: copy_items(&self.items), front: self.front, back: self.back }
    }
}

impl<'a> Clone for OsValues<'a> {
    /// An iterator at the same place over the same values.
    fn clone(&self) -> (r: Self)
        ensures
            r.view() == self.view(),
            r.hint() == self.hint(),
    {
        proof {
            use_type_invariant(self);
        }
        OsValues { items: copy_items(&self.items), front: self.front, back: self.back }
    }
}

/// A second vector of the same borrowed values.
fn copy_items<'a>(items: &Vec<&'a Vec<u8>>) -> (r: Vec<&'a Vec<u8>>)
    ensures
        r@ == items@,
{
    let mut r: Vec<&'a Vec<u8>> = Vec::new();
    let mut i: usize = 0;
    while i < items.len()
        invariant
            i <= items@.len(),
            r@ == items@.subrange(0, i as int),
        decreases items@.len() - i,
    {
        r.push(items[i]);
        i = i + 1;
        assert(r@ =~= items@.subrange(0, i as int));
    }
    assert(items@.subrange(0, items@.len() as int) =~= items@);
    r
}

} // verus!
