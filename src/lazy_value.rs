//! A cache cell for a value computed once: not yet loaded, loaded as absent,
//! loaded as an error (kept and handed out again), or loaded with a value.
use vstd::prelude::*;
use crate::common::{ErrorKind, MessageError, Result};

verus! {

#[derive(Debug)]
pub enum LazyValue<T: Clone> {
    UnLoad,
    Absent,
    Failed(MessageError),
    Loaded(T),
}

impl<T: Clone> Default for LazyValue<T> {
    fn default() -> (r: Self)
        ensures
            r is UnLoad,
    {
        LazyValue::UnLoad
    }
}

impl<T: Clone> LazyValue<T> {
    /// Puts `value` in the cell and returns what it held.
    pub fn update(&mut self, value: LazyValue<T>) -> (r: LazyValue<T>)
        ensures
            r == *old(self),
            *final(self) == value,
    {
        let mut value = value;
        core::mem::swap(self, &mut value);
        value
    }

    /// Marks the cell loaded as absent and returns what it held.
    pub fn none(&mut self) -> (r: LazyValue<T>)
        ensures
            r == *old(self),
            *final(self) is Absent,
    {
        self.update(LazyValue::Absent)
    }

    /// Marks the cell loaded as the error `e` and returns what it held.
    pub fn err(&mut self, e: MessageError) -> (r: LazyValue<T>)
        ensures
            r == *old(self),
            *final(self) == LazyValue::<T>::Failed(e),
    {
        self.update(LazyValue::Failed(e))
    }

    /// Puts `value` in the cell and returns what it held.
    pub fn some(&mut self, value: T) -> (r: LazyValue<T>)
        ensures
            r == *old(self),
            *final(self) == LazyValue::Loaded(value),
    {
        self.update(LazyValue::Loaded(value))
    }

    /// A clone of the value, if the cell holds one.
    pub fn get(&self) -> (r: Option<T>)
        ensures
            match self {
                LazyValue::Loaded(v) => r is Some && cloned(*v, r->0),
                _ => r is None,
            },
    {
        match self {
            LazyValue::Loaded(v) => Some(v.clone()),
            _ => None,
        }
    }

    /// The value, if the cell holds one.
    pub fn get_ref(&self) -> (r: Option<&T>)
        ensures
            match self {
                LazyValue::Loaded(v) => r == Some(v),
                _ => r is None,
            },
    {
        match self {
            LazyValue::Loaded(v) => Some(v),
            _ => None,
        }
    }

    /// The value, for changing in place, if the cell holds one.
    pub fn get_mut_ref(&mut self) -> (r: Option<&mut T>)
        ensures
            match *old(self) {
                LazyValue::Loaded(v) => r is Some && *r->0 == v && *final(self) == LazyValue::Loaded(
                    *final(r->0),
                ),
                _ => r is None && *final(self) == *old(self),
            },
    {
        match self {
            LazyValue::Loaded(v) => Some(v),
            _ => None,
        }
    }

    /// The value (cloned) or the kept error; `Ok(None)` when not loaded or
    /// absent.
    pub fn to_option_with_err(&self) -> (r: Result<Option<T>>)
        ensures
            match self {
                LazyValue::Loaded(v) => r is Ok && r->Ok_0 is Some && cloned(*v, r->Ok_0->0),
                LazyValue::Failed(e) => r == Err::<Option<T>, MessageError>(*e),
                _ => r is Ok && r->Ok_0 is None,
            },
    {
        match self {
            LazyValue::Loaded(v) => Ok(Some(v.clone())),
            LazyValue::Failed(e) => Err(e.clone()),
            _ => Ok(None),
        }
    }

    /// The value (cloned) or the kept error; an error of kind `Missing` naming
    /// `name` when not loaded or absent.
    pub fn to_result(&self, name: &str) -> (r: Result<T>)
        ensures
            match self {
                LazyValue::Loaded(v) => r is Ok && cloned(*v, r->Ok_0),
                LazyValue::Failed(e) => r == Err::<T, MessageError>(*e),
                _ => r is Err && r->Err_0.kind == ErrorKind::Missing && r->Err_0.msg@ == name@,
            },
    {
        match self {
            LazyValue::Failed(e) => Err(e.clone()),
            LazyValue::Loaded(v) => Ok(v.clone()),
            _ => Err(MessageError::with_kind(ErrorKind::Missing, name)),
        }
    }

    /// Whether the cell has been loaded (with a value, an absence or an error).
    pub fn is_load(&self) -> (r: bool)
        ensures
            r == !(self is UnLoad),
    {
        match self {
            LazyValue::UnLoad => false,
            _ => true,
        }
    }

    /// Whether the cell holds an error.
    pub fn is_err(&self) -> (r: bool)
        ensures
            r == (self is Failed),
    {
        match self {
            LazyValue::Failed(_) => true,
            _ => false,
        }
    }
}

} // verus!
