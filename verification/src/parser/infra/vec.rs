use vstd::prelude::*;

verus! {

/// What is left of `s` once `cost` elements have been popped from its end
/// (popping an empty sequence leaves it empty).
pub open spec fn popped<T>(s: Seq<T>, cost: int) -> Seq<T> {
    if cost <= s.len() {
        s.subrange(0, s.len() - cost)
    } else {
        Seq::empty()
    }
}

pub trait Ext<T>: Sized {
    /// Pops `cost` elements from the end, then pushes `item`.
    fn reduce(&mut self, cost: u8, item: T);

    /// A copy of `self` with `item` pushed on the end.
    fn push_to_new(&self, item: T) -> Vec<T>;
}

impl<T> Ext<T> for Vec<T> where T: Clone {
    fn reduce(&mut self, cost: u8, item: T)
        ensures
            final(self)@ == popped(old(self)@, cost as int).push(item),
    {
        let mut k: u8 = 0;
        while k < cost
            invariant
                k <= cost,
                self@ == popped(old(self)@, k as int),
            decreases cost - k,
        {
            let _ = self.pop();
            k = k + 1;
            assert(self@ =~= popped(old(self)@, k as int));
        }
        self.push(item);
    }

    fn push_to_new(&self, item: T) -> (r: Vec<T>)
        ensures
            r.len() == self.len() + 1,
            forall|i: int| 0 <= i < self.len() ==> cloned::<T>(self@[i], #[trigger] r@[i]),
            r@[self.len() as int] == item,
    {
        let mut b = self.clone();
        b.push(item);
        b
    }
}

/// Splits off the first element of a vector.
pub fn vec_get_head_tail<T>(vec: Vec<T>) -> (r: (Option<T>, Vec<T>))
    where T: Clone
    ensures
        vec@.len() == 0 ==> r.0 is None && r.1@ == vec@,
        vec@.len() > 0 ==> r.0 == Some(vec@[0]) && r.1@ == vec@.drop_first(),
{
    let mut v = vec;
    if v.len() == 0 {
        (None, v)
    } else {
        let head = v.remove(0);
        assert(v@ =~= vec@.drop_first());
        (Some(head), v)
    }
}

/// Splits off the first element and also reports a copy of the element
/// after it.
pub fn vec_get_head_tail_follow<T>(vec: Vec<T>) -> (r: (Option<T>, Vec<T>, Option<T>))
    where T: Clone
    ensures
        vec@.len() == 0 ==> r.0 is None && r.1@ == vec@,
        vec@.len() > 0 ==> r.0 == Some(vec@[0]) && r.1@ == vec@.drop_first(),
        vec@.len() > 1 ==> (r.2 matches Some(f) && cloned::<T>(vec@[1], f)),
        vec@.len() <= 1 ==> r.2 is None,
{
    let (head, tail) = vec_get_head_tail(vec);
    let follow = if tail.len() > 0 {
        Some(tail[0].clone())
    } else {
        None
    };
    (head, tail, follow)
}

} // verus!
