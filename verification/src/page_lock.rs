use vstd::prelude::*;
use crate::page::Page;

verus! {

/// A page cursor that can be frozen in place.
///
/// While `Locked`, the cursor refuses to advance; `Unlocked`, it moves forward on demand.
#[derive(Debug, Clone, Copy, PartialEq, Eq, Structural)]
pub enum PageLock {
    Unlocked(Page),
    Locked(Page),
}

impl PageLock {
    /// The page the cursor stands on.
    pub open spec fn page(self) -> Page {
        match self {
            PageLock::Unlocked(pg) => pg,
            PageLock::Locked(pg) => pg,
        }
    }

    /// Whether the cursor is frozen.
    pub open spec fn is_locked(self) -> bool {
        self is Locked
    }

    /// The cursor frozen on the same page.
    pub open spec fn locked(self) -> PageLock {
        PageLock::Locked(self.page())
    }

    /// The cursor released on the same page.
    pub open spec fn unlocked(self) -> PageLock {
        PageLock::Unlocked(self.page())
    }

    /// Freezes the cursor where it stands.
    pub fn lock(self) -> (r: Self)
        ensures
            r == self.locked(),
    {
        match self {
            PageLock::Unlocked(pg) => PageLock::Locked(pg),
            PageLock::Locked(pg) => PageLock::Locked(pg),
        }
    }

    /// Releases the cursor where it stands.
    pub fn unlock(self) -> (r: Self)
        ensures
            r == self.unlocked(),
    {
        match self {
            PageLock::Unlocked(pg) => PageLock::Unlocked(pg),
            PageLock::Locked(pg) => PageLock::Unlocked(pg),
        }
    }

    /// Advances an unlocked cursor by one page.
    pub fn increment(&mut self)
        requires
            !old(self).is_locked(),
            old(self).page().0 < u32::MAX,
        ensures
            *final(self) == PageLock::Unlocked(Page((old(self).page().0 + 1) as u32)),
    {
        self.increment_by(Page(1))
    }

    /// Advances an unlocked cursor by `by` pages.
    pub fn increment_by(&mut self, by: Page)
        requires
            !old(self).is_locked(),
            old(self).page().0 + by.0 <= u32::MAX,
        ensures
            *final(self) == PageLock::Unlocked(Page((old(self).page().0 + by.0) as u32)),
    {
        match self {
            PageLock::Unlocked(pg) => {
                *pg = pg.add(by);
            },
            PageLock::Locked(_) => {},
        }
    }

    /// Advances the cursor by `by` pages if it is unlocked; a locked cursor stays put.
    pub fn try_increment_by(&mut self, by: Page) -> (r: Option<()>)
        requires
            !old(self).is_locked() ==> old(self).page().0 + by.0 <= u32::MAX,
        ensures
            old(self).is_locked() ==> r is None && *final(self) == *old(self),
            !old(self).is_locked() ==> r is Some && *final(self) == PageLock::Unlocked(
                Page((old(self).page().0 + by.0) as u32),
            ),
    {
        match self {
            PageLock::Unlocked(_) => {
                self.increment_by(by);
                Some(())
            },
            PageLock::Locked(_) => None,
        }
    }

    /// The page the cursor stands on.
    pub fn get(&self) -> (r: &Page)
        ensures
            *r == self.page(),
    {
        match self {
            PageLock::Unlocked(page) => page,
            PageLock::Locked(page) => page,
        }
    }
}

/// Locking and then unlocking a cursor leaves it unlocked on the page it stood on,
/// and neither step moves it.
pub proof fn lemma_lock_round_trip_preserves_page(l: PageLock)
    ensures
        l.locked().page() == l.page(),
        l.locked().unlocked() == PageLock::Unlocked(l.page()),
        l.unlocked().locked() == PageLock::Locked(l.page()),
        l.locked().is_locked(),
        !l.unlocked().is_locked(),
{
}

/// Two successive advances of an unlocked cursor amount to one advance by the sum.
pub proof fn lemma_increments_compose(l: PageLock, a: Page, b: Page)
    requires
        !l.is_locked(),
        l.page().0 + a.0 + b.0 <= u32::MAX,
    ensures
        ({
            let once = PageLock::Unlocked(Page((l.page().0 + a.0) as u32));
            let twice = PageLock::Unlocked(Page((once.page().0 + b.0) as u32));
            twice == PageLock::Unlocked(Page((l.page().0 + (a.0 + b.0)) as u32))
        }),
{
}

} // verus!
