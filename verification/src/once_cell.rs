use vstd::prelude::*;

verus! {

/// A cell that is written at most once.
pub struct OncePtr<T> {
    inner: Option<T>,
}

impl<T> View for OncePtr<T> {
    type V = Option<T>;

    closed spec fn view(&self) -> Option<T> {
        self.inner
    }
}

impl<T> OncePtr<T> {
    /// An empty cell.
    pub fn new() -> (r: OncePtr<T>)
        ensures
            r@ is None,
    {
        OncePtr { inner: None }
    }

    /// The value, once it has been set.
    pub fn get(&self) -> (r: Option<&T>)
        ensures
            r is Some <==> self@ is Some,
            r matches Some(v) ==> *v == self@->0,
    {
        self.inner.as_ref()
    }

    /// Sets the value of an empty cell.
    pub fn set_unchecked(&mut self, v: T)
        requires
            old(self)@ is None,
        ensures
            final(self)@ == Some(v),
    {
        self.inner = Some(v);
    }
}

} // verus!
