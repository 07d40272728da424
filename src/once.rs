//! A cell that is written at most once.
use vstd::prelude::*;

verus! {

/// Holds a value once it has been set; it can be set only once.
#[derive(Debug)]
pub struct UnsafeOnce<T> {
    value: Option<T>,
}

impl<T> UnsafeOnce<T> {
    /// What the cell holds.
    pub closed spec fn contents(&self) -> Option<T> {
        self.value
    }

    /// An empty cell.
    pub fn new() -> (r: Self)
        ensures
            r.contents() is None,
    {
        UnsafeOnce { value: None }
    }

    pub fn get(&self) -> (r: Option<&T>)
        ensures
            r matches Some(v) ==> self.contents() == Some(*v),
            r is None <==> self.contents() is None,
    {
        match &self.value {
            Some(v) => Some(v),
            None => None,
        }
    }

    /// The value of a cell that has been set.
    pub fn get_unchecked(&self) -> (r: &T)
        requires
            self.contents() is Some,
        ensures
            self.contents() == Some(*r),
    {
        match &self.value {
            Some(v) => v,
            None => vstd::pervasive::unreached(),
        }
    }

    pub fn get_mut(&mut self) -> (r: Option<&mut T>)
        ensures
            (match old(self).contents() {
                None => r.is_none() && final(self).contents().is_none(),
                Some(v) => r.is_some() && *r.unwrap() == v && final(self).contents() == Some(*final(r.unwrap())),
            }),
    {
        self.value.as_mut()
    }

    /// The value of a cell that has been set, for changing it.
    pub fn get_mut_unchecked(&mut self) -> (r: &mut T)
        requires
            old(self).contents() is Some,
        ensures
            *r == old(self).contents()->0,
            final(self).contents() == Some(*final(r)),
    {
        match &mut self.value {
            Some(v) => v,
            None => vstd::pervasive::unreached(),
        }
    }

    /// Sets the value; if one is already held, the cell is left as it is and
    /// the given value comes back as the error.
    pub fn set(&mut self, value: T) -> (r: Result<(), T>)
        ensures
            old(self).contents() is None ==> r is Ok && final(self).contents() == Some(value),
            old(self).contents() is Some ==> r == Err::<(), T>(value) && final(self).contents() == old(self).contents(),
    {
        if self.value.is_some() {
            Err(value)
        } else {
            self.value = Some(value);
            Ok(())
        }
    }
}

impl<T> Default for UnsafeOnce<T> {
    fn default() -> (r: Self)
        ensures
            r.contents() is None,
    {
        Self::new()
    }
}

} // verus!
