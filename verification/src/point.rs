use vstd::prelude::*;

verus! {

/// A board coordinate. `(0, 0)` is the top-left corner; `row` grows
/// downwards and `col` grows to the right. Points are compared by value and
/// double as visited-keys in the solver's graph search.
#[derive(Clone, Copy, PartialEq, Eq, Structural, Hash, Debug)]
pub struct Point {
    pub col: usize,
    pub row: usize,
}

} // verus!
