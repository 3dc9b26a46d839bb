use vstd::prelude::*;

verus! {

/// A page number of the document being classified.
#[derive(Clone, Copy, Debug, PartialEq, Eq, Structural, Hash)]
pub struct Page(pub u32);

impl Page {
    /// The page just before this one.
    pub fn previous(&self) -> (r: Page)
        requires
            self.0 >= 1,
        ensures
            r.0 == self.0 - 1,
    {
        Page(self.0 - 1)
    }

    /// Moves this page forward by one.
    pub fn next(&mut self)
        requires
            old(self).0 < u32::MAX,
        ensures
            final(self).0 == old(self).0 + 1,
    {
        self.0 = self.0 + 1;
    }

    /// The page `rhs` pages after this one.
    pub fn add(self, rhs: Page) -> (r: Page)
        requires
            self.0 + rhs.0 <= u32::MAX,
        ensures
            r.0 == self.0 + rhs.0,
    {
        Page(self.0 + rhs.0)
    }

    /// The distance from `rhs` up to this page.
    pub fn sub(self, rhs: Page) -> (r: Page)
        requires
            rhs.0 <= self.0,
        ensures
            r.0 == self.0 - rhs.0,
    {
        Page(self.0 - rhs.0)
    }

    /// Moves this page forward by `rhs` pages.
    pub fn add_assign(&mut self, rhs: Page)
        requires
            old(self).0 + rhs.0 <= u32::MAX,
        ensures
            final(self).0 == old(self).0 + rhs.0,
    {
        self.0 = self.0 + rhs.0;
    }

    /// The page with the given number.
    pub fn from_u32(value: u32) -> (r: Page)
        ensures
            r.0 == value,
    {
        Page(value)
    }

    /// The page with the given number, keeping its low 32 bits as `as u32` does.
    pub fn from_usize(value: usize) -> (r: Page)
        ensures
            r.0 == value as u32,
    {
        Page(value as u32)
    }

    /// The page number.
    pub fn num(&self) -> (r: u32)
        ensures
            r == self.0,
    {
        self.0
    }
}

} // verus!
