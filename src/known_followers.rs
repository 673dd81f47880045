//! The candidate enumerator's decisions: which page to ask for next, and how
//! the pages merge into one list with one entry per identity.
//!
//! Fetching a page is left to the caller, which hands each page back with the
//! cursor that came with it.

use vstd::prelude::*;
use crate::follower_status::{unique_identities, FollowCandidate};

verus! {

/// Accounts asked for per page.
pub const KNOWN_FOLLOWERS_PAGE_SIZE: u8 = 100;

/// The list with `candidate` merged in: it replaces the entry with the same
/// identity, in place, or comes last if there is none.
pub open spec fn upsert(list: Seq<FollowCandidate>, candidate: FollowCandidate) -> Seq<FollowCandidate> {
    if exists|i: int| 0 <= i < list.len() && list[i].did@ == candidate.did@ {
        let i = choose|i: int| 0 <= i < list.len() && list[i].did@ == candidate.did@;
        list.update(i, candidate)
    } else {
        list.push(candidate)
    }
}

/// The list with every candidate of a page merged in, in page order.
pub open spec fn upsert_all(list: Seq<FollowCandidate>, page: Seq<FollowCandidate>) -> Seq<FollowCandidate>
    decreases page.len(),
{
    if page.len() == 0 {
        list
    } else {
        upsert(upsert_all(list, page.drop_last()), page.last())
    }
}

/// Merges one candidate into a list without repeated identities.
fn upsert_candidate(list: &mut Vec<FollowCandidate>, candidate: FollowCandidate)
    requires
        unique_identities(old(list)@),
    ensures
        final(list)@ == upsert(old(list)@, candidate),
        unique_identities(final(list)@),
{
    let mut i: usize = 0;
    while i < list.len()
        invariant
            i <= list.len(),
            list@ == old(list)@,
            unique_identities(list@),
            forall|j: int| 0 <= j < i ==> list@[j].did@ != candidate.did@,
        decreases list.len() - i,
    {
        if list[i].did == candidate.did {
            let ghost before = list@;
            let ghost k = choose|k: int| 0 <= k < before.len() && before[k].did@ == candidate.did@;
            assert(before[k].did@ == before[i as int].did@);
            list.set(i, candidate);
            assert(list@ == upsert(before, candidate));
            assert forall|a: int, b: int|
                0 <= a < list@.len() && 0 <= b < list@.len() && #[trigger] list@[a].did@
                    == #[trigger] list@[b].did@ implies a == b by {
                if a != i && b != i {
                    assert(before[a].did@ == before[b].did@);
                } else if a == i && b != i {
                    assert(before[b].did@ == before[i as int].did@);
                } else if b == i && a != i {
                    assert(before[a].did@ == before[i as int].did@);
                }
            }
            return;
        }
        i += 1;
    }
    let ghost before = list@;
    assert(!exists|j: int| 0 <= j < before.len() && before[j].did@ == candidate.did@);
    list.push(candidate);
    assert forall|a: int, b: int|
        0 <= a < list@.len() && 0 <= b < list@.len() && #[trigger] list@[a].did@
            == #[trigger] list@[b].did@ implies a == b by {
        if a < before.len() && b < before.len() {
            assert(before[a].did@ == before[b].did@);
        }
    }
}

/// One page request: the cursor to continue from, if any, and the page size.
pub struct PageRequest {
    pub cursor: Option<String>,
    pub limit: u8,
}

/// The state of an enumeration: the candidates merged so far, the cursor to
/// continue from, and whether the last page has come.
pub struct KnownFollowers {
    followers: Vec<FollowCandidate>,
    cursor: Option<String>,
    finished: bool,
}

impl KnownFollowers {
    /// No identity occurs twice among the candidates.
    pub open spec fn well_formed(&self) -> bool {
        unique_identities(self.followers_spec())
    }

    pub closed spec fn followers_spec(&self) -> Seq<FollowCandidate> {
        self.followers@
    }

    pub closed spec fn cursor_spec(&self) -> Option<String> {
        self.cursor
    }

    pub closed spec fn finished_spec(&self) -> bool {
        self.finished
    }

    /// An enumeration that has fetched nothing yet.
    pub fn new() -> (r: Self)
        ensures
            r.well_formed(),
            r.followers_spec() == Seq::<FollowCandidate>::empty(),
            r.cursor_spec() is None,
            !r.finished_spec(),
    {
        KnownFollowers { followers: Vec::new(), cursor: None, finished: false }
    }

    /// The next page to fetch: from the current cursor, a hundred accounts;
    /// none once a page came without a cursor.
    pub fn next_request(&self) -> (r: Option<PageRequest>)
        ensures
            self.finished_spec() ==> r is None,
            !self.finished_spec() ==> r is Some && r->Some_0.cursor == self.cursor_spec()
                && r->Some_0.limit == KNOWN_FOLLOWERS_PAGE_SIZE,
    {
        if self.finished {
            None
        } else {
            let cursor = match &self.cursor {
                Some(c) => Some(c.clone()),
                None => None,
            };
            Some(PageRequest { cursor, limit: KNOWN_FOLLOWERS_PAGE_SIZE })
        }
    }

    /// Takes in a fetched page and the cursor that came with it. Candidates
    /// are kept once per identity, a later one replacing an earlier one in
    /// place; the enumeration ends when the page came without a cursor.
    pub fn accept_page(&mut self, page: Vec<FollowCandidate>, next_cursor: Option<String>)
        requires
            old(self).well_formed(),
        ensures
            final(self).well_formed(),
            final(self).followers_spec() == upsert_all(old(self).followers_spec(), page@),
            final(self).cursor_spec() == next_cursor,
            final(self).finished_spec() == next_cursor is None,
    {
        let ghost start = self.followers@;
        let mut rest = page;
        let ghost taken: int = 0;
        while rest.len() > 0
            invariant
                unique_identities(self.followers@),
                0 <= taken <= page@.len(),
                rest@ == page@.skip(taken),
                self.followers@ == upsert_all(start, page@.take(taken)),
            decreases rest.len(),
        {
            let candidate = rest.remove(0);
            assert(page@.take(taken + 1).drop_last() =~= page@.take(taken));
            assert(page@.take(taken + 1).last() == page@[taken]);
            upsert_candidate(&mut self.followers, candidate);
            proof {
                taken = taken + 1;
            }
            assert(rest@ =~= page@.skip(taken));
        }
        assert(page@.take(taken) =~= page@);
        self.finished = next_cursor.is_none();
        self.cursor = next_cursor;
    }

    /// The candidates found, once per identity, in the order first seen.
    pub fn into_candidates(self) -> (r: Vec<FollowCandidate>)
        requires
            self.well_formed(),
        ensures
            r@ == self.followers_spec(),
            unique_identities(r@),
    {
        self.followers
    }
}

} // verus!
