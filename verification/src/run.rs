pub mod buf_run;
pub mod split_backing;
pub mod file_run;

use vstd::prelude::*;

verus! {

/// A run is a sequence of items handed out in order.
/// Its view `items` is the sequence of values that successive
/// `next` calls will still yield.
pub trait Run<T>: Sized {
    /// The items this run will yield, in order.
    spec fn items(&self) -> Seq<T>;

    /// The internal invariant the run maintains between calls.
    spec fn inv(&self) -> bool;

    /// Peeks at the next value in the sequence.
    fn peek(&self) -> (r: Option<&T>)
        requires
            self.inv(),
        ensures
            match r {
                Some(v) => self.items().len() > 0 && *v == self.items()[0],
                None => self.items().len() == 0,
            },
    ;

    /// Fetches the next item from the run.
    /// If the method returns None, we have reached the end.
    fn next(&mut self) -> (r: Option<T>)
        requires
            old(self).inv(),
        ensures
            final(self).inv(),
            match r {
                Some(v) => old(self).items().len() > 0 && v == old(self).items()[0]
                    && final(self).items() == old(self).items().drop_first(),
                None => old(self).items().len() == 0 && final(self).items() == old(self).items(),
            },
    ;

    /// Returns the remaining length of the run.
    fn remaining_items(&self) -> (r: usize)
        requires
            self.inv(),
        ensures
            r == self.items().len(),
    ;
}

/// Reverses a vector in place by moving its elements into a fresh one.
pub fn reverse_vec<T>(source: Vec<T>) -> (r: Vec<T>)
    ensures
        r@ == source@.reverse(),
{
    let mut source = source;
    let ghost orig = source@;
    let mut reversed: Vec<T> = Vec::new();
    while source.len() > 0
        invariant
            orig == source@ + reversed@.reverse(),
        decreases source@.len(),
    {
        proof {
            let s = source@;
            let r = reversed@;
            let x = s.last();
            assert(r.push(x).reverse() =~= seq![x] + r.reverse());
            assert(s.drop_last() + (seq![x] + r.reverse()) =~= s + r.reverse());
        }
        let v = source.pop().unwrap();
        reversed.push(v);
    }
    proof {
        assert(orig =~= reversed@.reverse());
        assert(reversed@ =~= reversed@.reverse().reverse());
    }
    reversed
}

} // verus!
