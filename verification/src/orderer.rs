use vstd::prelude::*;

use core::cmp::Ordering;

verus! {

/// A generalisation of the Ord trait.
/// The main difference is that the Orderer is able to
/// reference some internal state as it is passed by ref
/// and compares some other type.
///
/// The comparison that an Orderer makes is required to decide the
/// total preorder given by its spec relation `le`.
pub trait Orderer<T>: Sized {
    /// The total preorder that `compare` decides.
    spec fn le(&self, left: T, right: T) -> bool;

    /// Any two values are comparable.
    proof fn le_total(&self, left: T, right: T)
        ensures
            self.le(left, right) || self.le(right, left),
    ;

    /// The ordering is transitive.
    proof fn le_transitive(&self, a: T, b: T, c: T)
        requires
            self.le(a, b),
            self.le(b, c),
        ensures
            self.le(a, c),
    ;

    /// Compares two values; the result is exactly the three-way
    /// decision of the `le` relation.
    fn compare(&self, left: &T, right: &T) -> (o: Ordering)
        ensures
            o == Ordering::Less ==> self.le(*left, *right) && !self.le(*right, *left),
            o == Ordering::Equal ==> self.le(*left, *right) && self.le(*right, *left),
            o == Ordering::Greater ==> !self.le(*left, *right) && self.le(*right, *left),
    ;
}

/// A total order on a type itself, decided by an executable
/// three-way comparison. This takes the place of the Ord bound of std,
/// whose derived implementations the verifier does not read.
pub trait TotalOrder: Sized {
    /// The total order on the type.
    spec fn le_spec(left: Self, right: Self) -> bool;

    proof fn le_spec_total(left: Self, right: Self)
        ensures
            Self::le_spec(left, right) || Self::le_spec(right, left),
    ;

    proof fn le_spec_transitive(a: Self, b: Self, c: Self)
        requires
            Self::le_spec(a, b),
            Self::le_spec(b, c),
        ensures
            Self::le_spec(a, c),
    ;

    /// Three-way comparison deciding `le_spec`.
    fn cmp_of(&self, other: &Self) -> (o: Ordering)
        ensures
            o == Ordering::Less ==> Self::le_spec(*self, *other) && !Self::le_spec(*other, *self),
            o == Ordering::Equal ==> Self::le_spec(*self, *other) && Self::le_spec(*other, *self),
            o == Ordering::Greater ==> !Self::le_spec(*self, *other) && Self::le_spec(
                *other,
                *self,
            ),
    ;
}

impl TotalOrder for i32 {
    open spec fn le_spec(left: i32, right: i32) -> bool {
        left <= right
    }

    proof fn le_spec_total(left: i32, right: i32) {
    }

    proof fn le_spec_transitive(a: i32, b: i32, c: i32) {
    }

    fn cmp_of(&self, other: &Self) -> (o: Ordering) {
        if *self < *other {
            Ordering::Less
        } else if *self == *other {
            Ordering::Equal
        } else {
            Ordering::Greater
        }
    }
}

impl TotalOrder for u32 {
    open spec fn le_spec(left: u32, right: u32) -> bool {
        left <= right
    }

    proof fn le_spec_total(left: u32, right: u32) {
    }

    proof fn le_spec_transitive(a: u32, b: u32, c: u32) {
    }

    fn cmp_of(&self, other: &Self) -> (o: Ordering) {
        if *self < *other {
            Ordering::Less
        } else if *self == *other {
            Ordering::Equal
        } else {
            Ordering::Greater
        }
    }
}

impl TotalOrder for i64 {
    open spec fn le_spec(left: i64, right: i64) -> bool {
        left <= right
    }

    proof fn le_spec_total(left: i64, right: i64) {
    }

    proof fn le_spec_transitive(a: i64, b: i64, c: i64) {
    }

    fn cmp_of(&self, other: &Self) -> (o: Ordering) {
        if *self < *other {
            Ordering::Less
        } else if *self == *other {
            Ordering::Equal
        } else {
            Ordering::Greater
        }
    }
}

impl TotalOrder for u64 {
    open spec fn le_spec(left: u64, right: u64) -> bool {
        left <= right
    }

    proof fn le_spec_total(left: u64, right: u64) {
    }

    proof fn le_spec_transitive(a: u64, b: u64, c: u64) {
    }

    fn cmp_of(&self, other: &Self) -> (o: Ordering) {
        if *self < *other {
            Ordering::Less
        } else if *self == *other {
            Ordering::Equal
        } else {
            Ordering::Greater
        }
    }
}

impl TotalOrder for usize {
    open spec fn le_spec(left: usize, right: usize) -> bool {
        left <= right
    }

    proof fn le_spec_total(left: usize, right: usize) {
    }

    proof fn le_spec_transitive(a: usize, b: usize, c: usize) {
    }

    fn cmp_of(&self, other: &Self) -> (o: Ordering) {
        if *self < *other {
            Ordering::Less
        } else if *self == *other {
            Ordering::Equal
        } else {
            Ordering::Greater
        }
    }
}

impl TotalOrder for () {
    open spec fn le_spec(left: (), right: ()) -> bool {
        true
    }

    proof fn le_spec_total(left: (), right: ()) {
    }

    proof fn le_spec_transitive(a: (), b: (), c: ()) {
    }

    fn cmp_of(&self, other: &Self) -> (o: Ordering) {
        Ordering::Equal
    }
}

/// An orderer that just delegates to the total order on the type itself.
pub struct OrdOrderer {}

impl OrdOrderer {
    pub fn new() -> (r: Self) {
        Self {  }
    }
}

impl<T: TotalOrder> Orderer<T> for OrdOrderer {
    open spec fn le(&self, left: T, right: T) -> bool {
        T::le_spec(left, right)
    }

    proof fn le_total(&self, left: T, right: T) {
        T::le_spec_total(left, right);
    }

    proof fn le_transitive(&self, a: T, b: T, c: T) {
        T::le_spec_transitive(a, b, c);
    }

    fn compare(&self, left: &T, right: &T) -> (o: Ordering) {
        left.cmp_of(right)
    }
}

/// A key extraction capability: maps a value to a totally ordered key.
pub trait KeyExtract<T>: Sized {
    type Key: TotalOrder;

    /// The key that `key` extracts.
    spec fn key_spec(&self, t: T) -> Self::Key;

    fn key(&self, t: &T) -> (k: Self::Key)
        ensures
            k == self.key_spec(*t),
    ;
}

/// An orderer that compares values based on a key extracted from them.
pub struct KeyOrderer<F> {
    pub key_extractor: F,
}

impl<F> KeyOrderer<F> {
    pub fn new<T>(key_extractor: F) -> (r: Self) where F: KeyExtract<T>
        ensures
            r.key_extractor == key_extractor,
    {
        Self { key_extractor }
    }
}

impl<F, T> Orderer<T> for KeyOrderer<F> where F: KeyExtract<T> {
    open spec fn le(&self, left: T, right: T) -> bool {
        F::Key::le_spec(self.key_extractor.key_spec(left), self.key_extractor.key_spec(right))
    }

    proof fn le_total(&self, left: T, right: T) {
        F::Key::le_spec_total(
            self.key_extractor.key_spec(left),
            self.key_extractor.key_spec(right),
        );
    }

    proof fn le_transitive(&self, a: T, b: T, c: T) {
        F::Key::le_spec_transitive(
            self.key_extractor.key_spec(a),
            self.key_extractor.key_spec(b),
            self.key_extractor.key_spec(c),
        );
    }

    fn compare(&self, left: &T, right: &T) -> (o: Ordering) {
        let left_key = self.key_extractor.key(left);
        let right_key = self.key_extractor.key(right);
        left_key.cmp_of(&right_key)
    }
}

/// A key extractor that uses the value itself as its key.
pub struct IdentityExtractor {}

impl IdentityExtractor {
    pub fn new() -> (r: Self) {
        Self {  }
    }
}

impl<T: TotalOrder + Copy> KeyExtract<T> for IdentityExtractor {
    type Key = T;

    open spec fn key_spec(&self, t: T) -> T {
        t
    }

    fn key(&self, t: &T) -> (k: T) {
        *t
    }
}

/// A key extractor that maps every value to one constant key,
/// so that all values compare equal.
pub struct ConstExtractor<K> {
    pub constant: K,
}

impl<K: TotalOrder + Copy> ConstExtractor<K> {
    pub fn new(constant: K) -> (r: Self)
        ensures
            r.constant == constant,
    {
        Self { constant }
    }
}

impl<T, K: TotalOrder + Copy> KeyExtract<T> for ConstExtractor<K> {
    type Key = K;

    open spec fn key_spec(&self, t: T) -> K {
        self.constant
    }

    fn key(&self, t: &T) -> (k: K) {
        self.constant
    }
}

/// An orderer that compares values by delegating to an inner comparison capability.
pub struct FuncOrderer<F> {
    pub comparator: F,
}

impl<F> FuncOrderer<F> {
    pub fn new<T>(comparator: F) -> (r: Self) where F: Orderer<T>
        ensures
            r.comparator == comparator,
    {
        Self { comparator }
    }
}

impl<F, T> Orderer<T> for FuncOrderer<F> where F: Orderer<T> {
    open spec fn le(&self, left: T, right: T) -> bool {
        self.comparator.le(left, right)
    }

    proof fn le_total(&self, left: T, right: T) {
        self.comparator.le_total(left, right);
    }

    proof fn le_transitive(&self, a: T, b: T, c: T) {
        self.comparator.le_transitive(a, b, c);
    }

    fn compare(&self, left: &T, right: &T) -> (o: Ordering) {
        self.comparator.compare(left, right)
    }
}

} // verus!
