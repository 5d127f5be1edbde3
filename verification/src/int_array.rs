use vstd::prelude::*;

use crate::errors::GraphError;

verus! {

/// An owned, resizable sequence of signed 64-bit integers, used to exchange
/// vertex and edge lists between a caller and the graph operations.
///
/// The reported length always matches the number of live elements, and every
/// positional access is checked here: an index at or past the length is
/// answered with [`GraphError::IndexOutOfRange`] instead of reaching any
/// memory. A non-owning view over caller memory is simply a borrowed slice
/// (`&[i64]`), whose lifetime the borrow checker ties to the lender's scope;
/// [`IntArray::from_slice`] copies such a view into an owned array.
pub struct IntArray {
    values: Vec<i64>,
}

impl View for IntArray {
    type V = Seq<i64>;

    closed spec fn view(&self) -> Seq<i64> {
        self.values@
    }
}

impl IntArray {
    /// The number of live elements.
    pub fn size(&self) -> (n: usize)
        ensures
            n == self@.len(),
    {
        self.values.len()
    }

    /// A new array of exactly `size` elements, all zero.
    pub fn with_capacity(size: usize) -> (arr: IntArray)
        ensures
            arr@.len() == size,
            forall|i: int| 0 <= i < size ==> arr@[i] == 0,
    {
        let mut values: Vec<i64> = Vec::new();
        let mut i: usize = 0;
        while i < size
            invariant
                i <= size,
                values@.len() == i,
                forall|j: int| 0 <= j < i ==> values@[j] == 0,
            decreases size - i,
        {
            values.push(0);
            i = i + 1;
        }
        IntArray { values }
    }

    /// Writes `value` at position `index`; an index at or past the length is
    /// rejected with `IndexOutOfRange` and the array is left unchanged.
    pub fn set(&mut self, index: usize, value: i64) -> (r: Result<(), GraphError>)
        ensures
            index < old(self)@.len() ==> r is Ok && final(self)@ == old(self)@.update(index as int, value),
            index >= old(self)@.len() ==> r == Err::<(), GraphError>(GraphError::IndexOutOfRange)
                && final(self)@ == old(self)@,
    {
        if index < self.values.len() {
            self.values.set(index, value);
            Ok(())
        } else {
            Err(GraphError::IndexOutOfRange)
        }
    }

    /// Reads the element at position `index`; an index at or past the length
    /// is rejected with `IndexOutOfRange`.
    pub fn get(&self, index: usize) -> (r: Result<i64, GraphError>)
        ensures
            index < self@.len() ==> r == Ok::<i64, GraphError>(self@[index as int]),
            index >= self@.len() ==> r == Err::<i64, GraphError>(GraphError::IndexOutOfRange),
    {
        if index < self.values.len() {
            Ok(self.values[index])
        } else {
            Err(GraphError::IndexOutOfRange)
        }
    }

    /// Reads the element at a position already known to be in bounds.
    pub(crate) fn at(&self, index: usize) -> (v: i64)
        requires
            index < self@.len(),
        ensures
            v == self@[index as int],
    {
        self.values[index]
    }

    /// Wraps an owned sequence as an array without copying.
    pub fn from_vec(values: Vec<i64>) -> (arr: IntArray)
        ensures
            arr@ == values@,
    {
        IntArray { values }
    }

    /// Copies an externally supplied sequence into a newly owned array of
    /// matching length; nothing of the source is retained.
    pub fn from_slice(values: &[i64]) -> (arr: IntArray)
        ensures
            arr@ == values@,
    {
        let mut owned: Vec<i64> = Vec::new();
        let mut i: usize = 0;
        while i < values.len()
            invariant
                i <= values@.len(),
                owned@ == values@.take(i as int),
            decreases values@.len() - i,
        {
            owned.push(values[i]);
            proof {
                assert(owned@ =~= values@.take(i + 1 as int));
            }
            i = i + 1;
        }
        proof {
            assert(owned@ =~= values@);
        }
        IntArray { values: owned }
    }

    /// Consumes the array, producing a growable sequence of the same length
    /// and element order; no element is lost or truncated.
    pub fn into_owned_sequence(self) -> (out: Vec<i64>)
        ensures
            out@ == self@,
    {
        self.values
    }

    /// The largest element, or `None` when the array is empty.
    pub fn max(&self) -> (r: Option<i64>)
        ensures
            r is None <==> self@.len() == 0,
            r matches Some(m) ==> (exists|i: int| 0 <= i < self@.len() && self@[i] == m)
                && (forall|i: int| 0 <= i < self@.len() ==> self@[i] <= m),
    {
        match self.which_max() {
            None => None,
            Some(i) => Some(self.values[i]),
        }
    }

    /// The position of the first maximum, or `None` when the array is empty.
    pub fn which_max(&self) -> (r: Option<usize>)
        ensures
            r is None <==> self@.len() == 0,
            r matches Some(i) ==> 0 <= i < self@.len()
                && (forall|j: int| 0 <= j < self@.len() ==> self@[j] <= self@[i as int])
                && (forall|j: int| 0 <= j < i ==> self@[j] < self@[i as int]),
    {
        if self.values.len() == 0 {
            return None;
        }
        let mut best: usize = 0;
        let mut i: usize = 1;
        while i < self.values.len()
            invariant
                best < i <= self@.len(),
                forall|j: int| 0 <= j < i ==> self@[j] <= self@[best as int],
                forall|j: int| 0 <= j < best ==> self@[j] < self@[best as int],
            decreases self@.len() - i,
        {
            if self.values[i] > self.values[best] {
                best = i;
            }
            i = i + 1;
        }
        Some(best)
    }
}

/// Marshaling loses nothing: `from_slice` copies a sequence exactly, and
/// `into_owned_sequence` hands it back exactly, so the two composed return
/// the identical sequence, same length and order. The contracts of the two
/// functions state each step as an equality of views; this law records their
/// composition.
pub proof fn lemma_marshal_round_trip(input: Seq<i64>, marshaled: Seq<i64>, output: Seq<i64>)
    requires
        marshaled == input,
        output == marshaled,
    ensures
        output == input,
        output.len() == input.len(),
        forall|i: int| 0 <= i < input.len() ==> output[i] == input[i],
{
}

} // verus!
