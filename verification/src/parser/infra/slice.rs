use vstd::prelude::*;
use vstd::slice::slice_subrange;

verus! {

/// Splits off the first element of a slice.
pub fn slice_get_head_tail<T>(slice: &[T]) -> (r: (Option<&T>, &[T]))
    ensures
        slice@.len() == 0 ==> r.0 is None && r.1@ == slice@,
        slice@.len() > 0 ==> r.0 == Some(&slice@[0]) && r.1@ == slice@.drop_first(),
{
    let n = slice.len();
    if n > 0 {
        let tail = slice_subrange(slice, 1, n);
        assert(tail@ =~= slice@.drop_first());
        (Some(&slice[0]), tail)
    } else {
        (None, slice)
    }
}

} // verus!
