//! Leakage models.
//!
//! A leakage model predicts, from the public metadata of a trace and a guess
//! of the key byte, what the device leaked. The accumulators treat it as a
//! pure function and never look inside.

use vstd::prelude::*;

verus! {

/// A deterministic leakage hypothesis.
pub trait LeakageModel {
    /// The hypothesis as a mathematical function of metadata and guess.
    spec fn hypothesis(&self, metadata: Seq<i32>, guess: int) -> int;

    /// Evaluates the hypothesis for one metadata row and one guess.
    fn leakage(&self, metadata: &[i32], guess: usize) -> (h: i16)
        ensures
            h as int == self.hypothesis(metadata@, guess as int),
    ;
}

/// The hypotheses of all guesses below `guesses` for one metadata row.
pub open spec fn hypotheses<M: LeakageModel>(model: M, metadata: Seq<i32>, guesses: nat) -> Seq<
    int,
> {
    Seq::new(guesses, |g: int| model.hypothesis(metadata, g))
}

/// A model given by a table: the hypothesis depends on one metadata value,
/// the one at position `target`, and is read from `table[value][guess]`.
/// Outside the table the hypothesis is zero.
pub struct TableModel {
    pub table: Vec<Vec<i16>>,
    pub target: usize,
}

impl TableModel {
    /// A model that reads `table[metadata[target]][guess]`.
    pub fn new(table: Vec<Vec<i16>>, target: usize) -> (m: TableModel)
        ensures
            m.table == table,
            m.target == target,
    {
        TableModel { table, target }
    }

    /// The table entry for a metadata value and a guess, zero outside.
    pub open spec fn entry(&self, value: int, guess: int) -> int {
        if 0 <= value < self.table@.len() && 0 <= guess < self.table@[value]@.len() {
            self.table@[value]@[guess] as int
        } else {
            0
        }
    }
}

impl LeakageModel for TableModel {
    open spec fn hypothesis(&self, metadata: Seq<i32>, guess: int) -> int {
        if self.target < metadata.len() {
            self.entry(metadata[self.target as int] as int, guess)
        } else {
            0
        }
    }

    fn leakage(&self, metadata: &[i32], guess: usize) -> (h: i16) {
        if self.target >= metadata.len() {
            return 0;
        }
        let value: i32 = metadata[self.target];
        if value < 0 {
            return 0;
        }
        let row: usize = value as usize;
        if row >= self.table.len() {
            return 0;
        }
        if guess >= self.table[row].len() {
            return 0;
        }
        self.table[row][guess]
    }
}

/// Whether `f` can be called on everything and always gives the same answer
/// for the same metadata and guess.
pub open spec fn is_pure<F: Fn(&[i32], usize) -> i16>(f: F) -> bool {
    &&& forall|metadata: &[i32], guess: usize| call_requires(f, (metadata, guess))
    &&& forall|m1: &[i32], m2: &[i32], guess: usize, h1: i16, h2: i16|
        m1@ == m2@ && call_ensures(f, (m1, guess), h1) && call_ensures(f, (m2, guess), h2) ==> h1
            == h2
}

/// Whether `f` may return `h` for some slice holding `metadata`.
pub open spec fn may_return<F: Fn(&[i32], usize) -> i16>(
    f: F,
    metadata: Seq<i32>,
    guess: usize,
    h: i16,
) -> bool {
    exists|m: &[i32]| m@ == metadata && #[trigger] call_ensures(f, (m, guess), h)
}

/// A model given by a function of the caller.
pub struct FnModel<F: Fn(&[i32], usize) -> i16> {
    function: F,
}

impl<F: Fn(&[i32], usize) -> i16> FnModel<F> {
    #[verifier::type_invariant]
    spec fn pure(self) -> bool {
        is_pure(self.function)
    }

    /// The function behind the model.
    pub closed spec fn function(self) -> F {
        self.function
    }

    /// Wraps a pure function as a model.
    pub fn new(function: F) -> (m: FnModel<F>)
        requires
            is_pure(function),
        ensures
            m.function() == function,
    {
        FnModel { function }
    }
}

impl<F: Fn(&[i32], usize) -> i16> LeakageModel for FnModel<F> {
    open spec fn hypothesis(&self, metadata: Seq<i32>, guess: int) -> int {
        let g = guess as usize;
        (choose|h: i16| #[trigger] may_return(self.function(), metadata, g, h)) as int
    }

    fn leakage(&self, metadata: &[i32], guess: usize) -> (h: i16) {
        proof {
            use_type_invariant(self);
        }
        let h = (self.function)(metadata, guess);
        assert(may_return(self.function(), metadata@, guess, h));
        h
    }
}

} // verus!
