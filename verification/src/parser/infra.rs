use vstd::prelude::*;

pub mod either;
pub mod option;
pub mod slice;
pub mod str;
pub mod vec;

pub use self::either::Either;
pub use self::str::{str_get_head_tail, str_get_head_tail_follow};
pub use self::vec::{vec_get_head_tail, vec_get_head_tail_follow};

verus! {

/// An optional type annotation.
pub type MaybeType = Option<crate::parser::types::Type>;

/// The outcome of parsing an expression in the first parser's form.
pub type MaybeExpr = Option<crate::parser::expr::Expr>;

pub trait VecExt<T>: Sized {
    /// A copy of `self` with `cost` elements popped from its end and
    /// `item` pushed.
    fn reduce_to_new(&self, cost: u8, item: T) -> Vec<T>;

    /// A copy of `self` with `item` pushed on the end.
    fn push_to_new(&self, item: T) -> Vec<T>;
}

impl<T> VecExt<T> for Vec<T> where T: Clone {
    fn reduce_to_new(&self, cost: u8, item: T) -> (r: Vec<T>)
        ensures
            r.len() == crate::parser::infra::vec::popped(self@, cost as int).len() + 1,
            forall|i: int| 0 <= i < r.len() - 1 ==> cloned::<T>(self@[i], #[trigger] r@[i]),
            r@[r.len() - 1] == item,
    {
        let mut b = self.clone();
        let mut k: u8 = 0;
        while k < cost
            invariant
                k <= cost,
                b.len() == crate::parser::infra::vec::popped(self@, k as int).len(),
                forall|i: int| 0 <= i < b.len() ==> cloned::<T>(self@[i], #[trigger] b@[i]),
            decreases cost - k,
        {
            let _ = b.pop();
            k = k + 1;
        }
        b.push(item);
        b
    }

    fn push_to_new(&self, item: T) -> (r: Vec<T>)
        ensures
            r.len() == self.len() + 1,
            forall|i: int| 0 <= i < self.len() ==> cloned::<T>(self@[i], #[trigger] r@[i]),
            r@[self.len() as int] == item,
    {
        let mut b = self.clone();
        b.push(item);
        b
    }
}

pub trait BoxExt<T> {
    /// Moves `self` into a box.
    fn boxed(self) -> (r: Box<Self>)
        where Self: Sized
        ensures
            *r == self,
    {
        Box::new(self)
    }
}

impl<T> BoxExt<T> for T where T: Sized {}

} // verus!
