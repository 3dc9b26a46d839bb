use vstd::prelude::*;
use crate::page::Page;

verus! {

/// A page cursor that reports, rather than refuses, an advance while frozen.
pub enum PageKeeper {
    Unlocked(Page),
    Locked(Page),
}

impl PageKeeper {
    /// The page the keeper stands on.
    pub open spec fn page(self) -> Page {
        match self {
            PageKeeper::Unlocked(pg) => pg,
            PageKeeper::Locked(pg) => pg,
        }
    }

    /// Whether the keeper is frozen.
    pub open spec fn is_locked(self) -> bool {
        self is Locked
    }

    /// Freezes the keeper where it stands.
    pub fn lock(self) -> (r: Self)
        ensures
            r.is_locked(),
            r.page() == self.page(),
    {
        match self {
            PageKeeper::Unlocked(pg) => PageKeeper::Locked(pg),
            PageKeeper::Locked(pg) => PageKeeper::Locked(pg),
        }
    }

    /// Releases the keeper where it stands.
    pub fn unlock(self) -> (r: Self)
        ensures
            !r.is_locked(),
            r.page() == self.page(),
    {
        match self {
            PageKeeper::Unlocked(pg) => PageKeeper::Unlocked(pg),
            PageKeeper::Locked(pg) => PageKeeper::Unlocked(pg),
        }
    }

    /// Advances an unlocked keeper by one page; a locked keeper stays put and answers `None`.
    pub fn increment(&mut self) -> (r: Option<()>)
        requires
            !old(self).is_locked() ==> old(self).page().0 < u32::MAX,
        ensures
            old(self).is_locked() ==> r is None && final(self).page() == old(self).page()
                && final(self).is_locked(),
            !old(self).is_locked() ==> r is Some && final(self).page().0 == old(self).page().0 + 1
                && !final(self).is_locked(),
    {
        match self {
            PageKeeper::Unlocked(pg) => {
                pg.next();
                Some(())
            },
            PageKeeper::Locked(_) => None,
        }
    }

    /// Advances an unlocked keeper by `by` pages; a locked keeper stays put and answers `None`.
    pub fn increment_by(&mut self, by: u32) -> (r: Option<()>)
        requires
            !old(self).is_locked() ==> old(self).page().0 + by <= u32::MAX,
        ensures
            old(self).is_locked() ==> r is None && final(self).page() == old(self).page()
                && final(self).is_locked(),
            !old(self).is_locked() ==> r is Some && final(self).page().0 == old(self).page().0 + by
                && !final(self).is_locked(),
    {
        match self {
            PageKeeper::Unlocked(keeper) => {
                *keeper = Page(keeper.0 + by);
                Some(())
            },
            PageKeeper::Locked(_) => None,
        }
    }
}

} // verus!
