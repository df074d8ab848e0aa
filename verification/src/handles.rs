//! Open files, by the numbers under which they are known.

use std::collections::HashMap;
use vstd::prelude::*;

verus! {

broadcast use vstd::std_specs::hash::group_hash_axioms;

/// Open files. A number is given out once.
pub struct HandleTable<T> {
    next: u64,
    open: HashMap<u64, T>,
}

impl<T> HandleTable<T> {
    /// The open files by their numbers.
    pub closed spec fn files(&self) -> Map<u64, T> {
        self.open@
    }

    /// The next number to be given out.
    pub closed spec fn next(&self) -> u64 {
        self.next
    }

    /// Every number in use was given out before.
    pub closed spec fn wf(&self) -> bool {
        forall|fh: u64| #[trigger] self.open@.contains_key(fh) ==> fh < self.next
    }

    /// No open files.
    pub fn new() -> (t: HandleTable<T>)
        ensures
            t.wf(),
            t.next() == 1,
            t.files() == Map::<u64, T>::empty(),
    {
        HandleTable { next: 1, open: HashMap::new() }
    }

    /// Whether there is a number left to give out.
    pub fn has_room(&self) -> (yes: bool)
        ensures
            yes == (self.next() < u64::MAX),
    {
        self.next < u64::MAX
    }

    /// Gives an open file a number that no file had before.
    pub fn add(&mut self, file: T) -> (fh: u64)
        requires
            old(self).wf(),
            old(self).next() < u64::MAX,
        ensures
            final(self).wf(),
            fh == old(self).next(),
            final(self).next() == old(self).next() + 1,
            !old(self).files().contains_key(fh),
            final(self).files() == old(self).files().insert(fh, file),
    {
        let fh = self.next;
        self.next = fh + 1;
        self.open.insert(fh, file);
        fh
    }

    /// The open file with a number.
    pub fn get(&self, fh: u64) -> (file: Option<&T>)
        ensures
            match file {
                Some(f) => self.files().contains_key(fh) && *f == self.files()[fh],
                None => !self.files().contains_key(fh),
            },
    {
        self.open.get(&fh)
    }

    /// Forgets the file with a number.
    pub fn remove(&mut self, fh: u64) -> (file: Option<T>)
        requires
            old(self).wf(),
        ensures
            final(self).wf(),
            final(self).next() == old(self).next(),
            final(self).files() == old(self).files().remove(fh),
            match file {
                Some(f) => old(self).files().contains_key(fh) && f == old(self).files()[fh],
                None => !old(self).files().contains_key(fh),
            },
    {
        self.open.remove(&fh)
    }
}

} // verus!
