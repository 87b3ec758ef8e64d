//! The retrying paginated fetch over a player's game list, as a state
//! machine. The driving binary performs each HTTP request and hands the
//! outcome back; the machine decides what that outcome means: which page is
//! pending, when a failure means retrying the same page after a backoff,
//! when the first request's failure ends the run, and when the walk is done.

use vstd::prelude::*;
use crate::records::{Game, valid_games};
use crate::text::{append_i32, append_u64, dec_rep, dec_rep_signed};

verus! {

/// Number of pages needed to hold `total` records at `page_size` records
/// per page.
pub open spec fn div_ceil(total: int, page_size: int) -> int {
    (total + page_size - 1) / page_size
}

/// Expected page count for a collection of `total` records.
pub fn pages_count(total: u64, page_size: u64) -> (n: u64)
    requires
        page_size >= 1,
    ensures
        n == div_ceil(total as int, page_size as int),
{
    if total == 0 {
        assert(div_ceil(0, page_size as int) == 0) by (nonlinear_arith)
            requires
                page_size >= 1,
        ;
        0
    } else {
        let n = 1 + (total - 1) / page_size;
        assert(1 + (total - 1) / (page_size as int) == div_ceil(total as int, page_size as int))
            by (nonlinear_arith)
            requires
                page_size >= 1 && total >= 1,
        ;
        n
    }
}

/// The game-list service's fixed page size, a configuration default.
pub const PAGE_SIZE: u64 = 10;

/// Where the fetch stands: before the first request; walking the remaining
/// pages; finished; or ended by the one-shot first request failing.
#[derive(Clone, Copy, Debug)]
pub enum FetchPhase {
    Start,
    Fetching,
    Done,
    Failed,
}

/// What the driving loop should do next.
#[derive(Debug, PartialEq)]
pub enum FetchAction {
    Request { page: u64 },
    Finished,
}

/// The retrying paginated fetch: the page being requested, the page count
/// learned from the first response, and the games accumulated so far.
#[derive(Debug)]
pub struct PagedFetch {
    pub page_size: u64,
    pub pages_count: u64,
    pub next_page: u64,
    pub games: Vec<Game>,
    pub phase: FetchPhase,
}

impl PagedFetch {
    /// Internal consistency: pages are numbered from one, nothing is
    /// accumulated before the first success, and while fetching the pending
    /// page is within the learned page count.
    pub open spec fn wf(self) -> bool {
        &&& self.page_size >= 1
        &&& valid_games(self.games@)
        &&& (self.phase is Start ==> self.next_page == 1 && self.games@.len() == 0)
        &&& (self.phase is Fetching ==> 2 <= self.next_page <= self.pages_count)
    }

    /// A fetch about to issue its first request, nothing accumulated.
    pub fn new(page_size: u64) -> (r: Self)
        requires
            page_size >= 1,
        ensures
            r.wf(),
            r.phase is Start,
            r.page_size == page_size,
            r.games@ == Seq::<Game>::empty(),
    {
        PagedFetch {
            page_size,
            pages_count: 0,
            next_page: 1,
            games: Vec::new(),
            phase: FetchPhase::Start,
        }
    }

    /// What to do next: request the pending page, or stop.
    pub fn next_action(&self) -> (a: FetchAction)
        ensures
            self.phase is Start ==> a == (FetchAction::Request { page: 1 }),
            self.phase is Fetching ==> a == (FetchAction::Request { page: self.next_page }),
            self.phase is Done || self.phase is Failed ==> a == FetchAction::Finished,
    {
        match self.phase {
            FetchPhase::Start => FetchAction::Request { page: 1 },
            FetchPhase::Fetching => FetchAction::Request { page: self.next_page },
            FetchPhase::Done => FetchAction::Finished,
            FetchPhase::Failed => FetchAction::Finished,
        }
    }

    /// Record one successfully fetched and decoded page: its games join the
    /// accumulated collection exactly once, and the fetch advances to the
    /// following page or ends past the last one. The first success fixes the
    /// expected page count from the total the service reports; an empty
    /// total ends the walk at once with an empty collection, which is a
    /// valid outcome, not an error.
    pub fn on_success(&mut self, total_count: u64, items: Vec<Game>)
        requires
            old(self).wf(),
            old(self).phase is Start || old(self).phase is Fetching,
            valid_games(items@),
        ensures
            final(self).wf(),
            final(self).page_size == old(self).page_size,
            final(self).games@ == old(self).games@ + items@,
            old(self).phase is Start ==> final(self).pages_count == div_ceil(
                total_count as int,
                old(self).page_size as int,
            ),
            old(self).phase is Start && final(self).pages_count >= 2 ==> final(self).phase
                is Fetching && final(self).next_page == 2,
            old(self).phase is Start && final(self).pages_count < 2 ==> final(self).phase is Done,
            old(self).phase is Fetching ==> final(self).pages_count == old(self).pages_count,
            old(self).phase is Fetching && old(self).next_page == old(self).pages_count
                ==> final(self).phase is Done,
            old(self).phase is Fetching && old(self).next_page < old(self).pages_count
                ==> final(self).phase is Fetching && final(self).next_page == old(self).next_page
                + 1,
    {
        let mut items = items;
        match self.phase {
            FetchPhase::Start => {
                let pc = pages_count(total_count, self.page_size);
                self.pages_count = pc;
                self.games.append(&mut items);
                if pc >= 2 {
                    self.next_page = 2;
                    self.phase = FetchPhase::Fetching;
                } else {
                    self.phase = FetchPhase::Done;
                }
            },
            _ => {
                self.games.append(&mut items);
                if self.next_page == self.pages_count {
                    self.phase = FetchPhase::Done;
                } else {
                    self.next_page = self.next_page + 1;
                }
            },
        }
    }

    /// Record one failed page attempt — a transport or a decode error. At
    /// the start, where the first request also learns the total, failure
    /// ends the whole fetch as an upstream error. Past it, nothing changes:
    /// the same page stays pending, to be requested again after the caller's
    /// backoff, and whatever was accumulated is kept.
    pub fn on_failure(&mut self)
        requires
            old(self).wf(),
            old(self).phase is Start || old(self).phase is Fetching,
        ensures
            final(self).wf(),
            old(self).phase is Start ==> final(self).phase is Failed && final(self).games@
                == old(self).games@,
            old(self).phase is Fetching ==> *final(self) == *old(self),
    {
        match self.phase {
            FetchPhase::Start => {
                self.phase = FetchPhase::Failed;
            },
            _ => {},
        }
    }

    /// Whether the fetch ended in the one-shot first request failing.
    pub fn failed(&self) -> (r: bool)
        ensures
            r == (self.phase is Failed),
    {
        match self.phase {
            FetchPhase::Failed => true,
            _ => false,
        }
    }

    /// The accumulated games, in the order the pages delivered them.
    pub fn into_games(self) -> (r: Vec<Game>)
        ensures
            r@ == self.games@,
    {
        self.games
    }
}

/// Backoff before retrying a failed page request: five to nine whole
/// seconds, picked by the entropy the caller supplies.
pub fn backoff_secs(entropy: u64) -> (r: u64)
    ensures
        r == 5 + entropy % 5,
        5 <= r < 10,
{
    5 + entropy % 5
}

/// The game-list endpoint for one page of a player's games.
pub fn games_page_url(player_id: i32, page: u64) -> (r: String)
    ensures
        r@ == "https://online-go.com/api/v1/players/"@ + dec_rep_signed(player_id as int)
            + "/games?page="@ + dec_rep(page as nat),
{
    let mut s = "https://online-go.com/api/v1/players/".to_owned();
    append_i32(&mut s, player_id);
    s.append("/games?page=");
    append_u64(&mut s, page);
    s
}

} // verus!
