//! A validated request: the command name followed by its arguments, all
//! plain strings. The view is the sequence of their character sequences.

use vstd::prelude::*;
use vstd::slice::slice_subrange;

verus! {

broadcast use vstd::std_specs::vec::group_vec_axioms;

pub struct Request {
    query: Vec<String>,
}

impl View for Request {
    type V = Seq<Seq<char>>;

    closed spec fn view(&self) -> Seq<Seq<char>> {
        Seq::new(self.query@.len(), |i: int| self.query@[i]@)
    }
}

impl Request {
    /// A request always carries at least the command name.
    pub fn new(query: Vec<String>) -> (r: Self)
        requires
            query@.len() >= 1,
        ensures
            r@.len() == query@.len(),
            forall|i: int| 0 <= i < query@.len() ==> r@[i] == (#[trigger] query@[i])@,
    {
        Request { query }
    }

    /// The command name: the first element, case preserved.
    pub fn command(&self) -> (r: &str)
        requires
            self@.len() >= 1,
        ensures
            r@ == self@[0],
    {
        self.query[0].as_str()
    }

    /// The element count, command name included.
    pub fn arity(&self) -> (r: i64)
        requires
            self@.len() <= i64::MAX,
        ensures
            r == self@.len(),
    {
        self.query.len() as i64
    }

    /// The arguments, in order, without the command name.
    pub fn arguments(&self) -> (r: &[String])
        requires
            self@.len() >= 1,
        ensures
            r@.len() == self@.len() - 1,
            forall|i: int| 0 <= i < r@.len() ==> (#[trigger] r@[i])@ == self@[i + 1],
    {
        slice_subrange(self.query.as_slice(), 1, self.query.len())
    }
}

} // verus!
