//! A fixed-capacity scratch buffer of `(unit duration, total score)` pairs
//! for the unit-time search. It is a `heapless` vector, which stores its
//! elements inline and never allocates: pushing beyond the capacity fails
//! instead of growing, which is what bounds the search window.

use vstd::prelude::*;

verus! {

/// How many candidate unit durations one search may score: the capacity
/// of the scratch buffer.
pub const UNIT_SCRATCH_CAPACITY: usize = 10000;

/// Declares heapless::Vec to the verifier; values of it are opaque and
/// are reached only through the trusted functions below.
#[verifier::external_type_specification]
#[verifier::external_body]
#[verifier::reject_recursive_types(T)]
pub struct ExHeaplessVec<T, const N: usize>(heapless::Vec<T, N>);

/// The scratch buffer: a heapless vector of `(unit duration, total
/// score)` pairs with inline storage.
pub type ScoreBuf = heapless::Vec<(i64, i64), UNIT_SCRATCH_CAPACITY>;

/// What the scratch buffer holds, in push order.
pub uninterp spec fn score_buf_contents(b: ScoreBuf) -> Seq<(i64, i64)>;

/// Relies on heapless::Vec::new: a freshly constructed vector is empty.
#[verifier::external_body]
pub(crate) fn score_buf_new() -> (b: ScoreBuf)
    ensures
        score_buf_contents(b) == Seq::<(i64, i64)>::empty(),
{
    heapless::Vec::new()
}

/// Relies on heapless::Vec::push: while the vector holds fewer elements
/// than its capacity the item is appended at the back; on a full vector
/// the push fails and the contents stay as they were.
#[verifier::external_body]
pub(crate) fn score_buf_push(b: &mut ScoreBuf, x: (i64, i64)) -> (r: Result<(), ()>)
    ensures
        (if score_buf_contents(*old(b)).len() < UNIT_SCRATCH_CAPACITY as int {
            r is Ok && score_buf_contents(*final(b)) == score_buf_contents(*old(b)).push(x)
        } else {
            r is Err && score_buf_contents(*final(b)) == score_buf_contents(*old(b))
        }),
{
    match b.push(x) {
        Ok(()) => Ok(()),
        Err(_) => Err(()),
    }
}

/// Relies on the slice view of heapless::Vec (through Deref): its length
/// is the number of elements pushed so far.
#[verifier::external_body]
pub(crate) fn score_buf_len(b: &ScoreBuf) -> (n: usize)
    ensures
        n == score_buf_contents(*b).len(),
{
    b.len()
}

/// Relies on the slice view of heapless::Vec (through Deref): indexing
/// below the length yields the element at that position, in push order.
#[verifier::external_body]
pub(crate) fn score_buf_get(b: &ScoreBuf, i: usize) -> (x: (i64, i64))
    requires
        i < score_buf_contents(*b).len(),
    ensures
        x == score_buf_contents(*b)[i as int],
{
    b[i]
}

} // verus!
