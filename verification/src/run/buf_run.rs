use vstd::prelude::*;

use crate::run::Run;

verus! {

/// A run backed by the provided buffer.
/// The buffer is held back to front so that the next item
/// to yield is the last element of the vector.
pub struct BufRun<T> {
    source: Vec<T>,
}

impl<T> BufRun<T> {
    /// Creates a new instance of a BufRun that yields the
    /// elements of `source` in order.
    pub fn new(source: Vec<T>) -> (r: Self)
        ensures
            r.items() == source@,
    {
        let ghost orig = source@;
        let reversed = crate::run::reverse_vec(source);
        proof {
            assert(reversed@.reverse() =~= orig);
        }
        Self { source: reversed }
    }
}

impl<T> Run<T> for BufRun<T> {
    closed spec fn items(&self) -> Seq<T> {
        self.source@.reverse()
    }

    open spec fn inv(&self) -> bool {
        true
    }

    fn peek(&self) -> (r: Option<&T>) {
        if self.source.len() == 0 {
            None
        } else {
            Some(&self.source[self.source.len() - 1])
        }
    }

    fn next(&mut self) -> (r: Option<T>) {
        let ghost pre = self.source@;
        let r = self.source.pop();
        proof {
            if pre.len() > 0 {
                assert(pre.drop_last().reverse() =~= pre.reverse().drop_first());
            }
        }
        r
    }

    fn remaining_items(&self) -> (r: usize) {
        self.source.len()
    }
}

} // verus!
