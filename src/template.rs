use vstd::prelude::*;

verus! {

/// Why a call on the stored number was refused.
#[derive(Clone, Copy, PartialEq, Eq, Debug, Structural)]
pub enum Error {
    /// No number is stored.
    NoneValue,
    /// The stored number cannot be incremented further.
    StorageOverflow,
}

/// What a successful store announces: the number and the account.
#[derive(Clone, Copy, PartialEq, Eq, Debug, Structural)]
pub enum Event {
    SomethingStored(u32, u64),
}

/// A single stored number, absent until something is stored.
pub struct Module {
    something: Option<u32>,
}

impl Module {
    /// The stored number.
    pub closed spec fn stored(self) -> Option<u32> {
        self.something
    }

    /// A module with no number stored.
    pub fn new() -> (r: Module)
        ensures
            r.stored() == None::<u32>,
    {
        Module { something: None }
    }

    /// The stored number.
    pub fn something(&self) -> (r: Option<u32>)
        ensures
            r == self.stored(),
    {
        self.something
    }

    /// Stores `something` on behalf of `who`.
    pub fn do_something(&mut self, who: u64, something: u32) -> (r: Event)
        ensures
            final(self).stored() == Some(something),
            r == Event::SomethingStored(something, who),
    {
        self.something = Some(something);
        Event::SomethingStored(something, who)
    }

    /// Increments the stored number; fails when there is none or it is
    /// already the largest.
    pub fn cause_error(&mut self) -> (r: Result<(), Error>)
        ensures
            old(self).stored() == None::<u32> ==> r == Err::<(), Error>(Error::NoneValue)
                && final(self).stored() == old(self).stored(),
            old(self).stored() == Some(u32::MAX) ==> r == Err::<(), Error>(Error::StorageOverflow)
                && final(self).stored() == old(self).stored(),
            (old(self).stored() matches Some(v) && v < u32::MAX) ==> r == Ok::<(), Error>(())
                && final(self).stored() == Some((old(self).stored().unwrap() + 1) as u32),
    {
        match self.something {
            None => Err(Error::NoneValue),
            Some(old_value) => match old_value.checked_add(1) {
                Some(new_value) => {
                    self.something = Some(new_value);
                    Ok(())
                },
                None => Err(Error::StorageOverflow),
            },
        }
    }
}

} // verus!
