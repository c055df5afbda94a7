//! The records of the engine: bids, winners and auctions.

use crate::error::ContractError;
use crate::model::{
    after_cursor, amount_after, auction_page, highest_index, insertion_point, is_highest,
    is_insertion_point, is_runner_up, lemma_filter_none, lemma_filter_take_step,
    lemma_highest_is, lemma_insert_sorted, lemma_insertion_point_is, lemma_page_of_prefix,
    lemma_runner_up_is, outranks, runner_up_index, sorted_by_amount, AuctionView, BidView,
    WinnerView,
};
use vstd::prelude::*;

verus! {

/// One bid of one bidder on one auction. A bid never changes once made.
#[derive(Debug, PartialEq, Eq)]
pub struct Bid {
    /// The auction that the bid was placed on.
    pub auction_id: u64,
    /// The amount offered.
    pub amount: u128,
    /// Who placed the bid.
    pub bidder: String,
    /// When the bid was placed, in nanoseconds. It breaks ties between equal
    /// amounts when the winner is determined, never the order of the bids.
    pub timestamp: u64,
}

/// The outcome of a closed auction.
#[derive(Debug, PartialEq, Eq)]
pub struct Winner {
    /// The auction that was won.
    pub auction_id: u64,
    /// The price to pay: the amount of the second-highest bid.
    pub amount_owed: u128,
    /// Who won.
    pub bidder: String,
}

/// An auction with its bids.
#[derive(Debug, PartialEq, Eq)]
pub struct Auction {
    /// The identifier, assigned once.
    pub id: u64,
    /// A name for display.
    pub name: String,
    /// Whether bids are still accepted.
    pub in_progress: bool,
    /// How many bids the auction admits.
    pub max_participants: u64,
    /// The bids, ascending by amount; equal amounts in the order they came.
    pub sorted_bids: Vec<Bid>,
    /// The winner, once it has been determined and remembered.
    pub winner: Option<Winner>,
}

impl View for Bid {
    type V = BidView;

    open spec fn view(&self) -> BidView {
        BidView {
            auction_id: self.auction_id,
            amount: self.amount,
            bidder: self.bidder@,
            timestamp: self.timestamp,
        }
    }
}

impl View for Winner {
    type V = WinnerView;

    open spec fn view(&self) -> WinnerView {
        WinnerView {
            auction_id: self.auction_id,
            amount_owed: self.amount_owed,
            bidder: self.bidder@,
        }
    }
}

/// The bids of a vector as mathematical values, in the same order.
pub open spec fn bids_view(bids: Seq<Bid>) -> Seq<BidView> {
    Seq::new(bids.len(), |i: int| bids[i]@)
}

/// The winner of an optional record as a mathematical value.
pub open spec fn winner_view(winner: Option<Winner>) -> Option<WinnerView> {
    match winner {
        Some(w) => Some(w@),
        None => None,
    }
}

impl View for Auction {
    type V = AuctionView;

    open spec fn view(&self) -> AuctionView {
        AuctionView {
            id: self.id,
            name: self.name@,
            in_progress: self.in_progress,
            max_participants: self.max_participants,
            sorted_bids: bids_view(self.sorted_bids@),
            winner: winner_view(self.winner),
        }
    }
}

impl Clone for Bid {
    fn clone(&self) -> (copy: Self)
        ensures
            copy == *self,
    {
        Bid {
            auction_id: self.auction_id,
            amount: self.amount,
            bidder: self.bidder.clone(),
            timestamp: self.timestamp,
        }
    }
}

impl Clone for Winner {
    fn clone(&self) -> (copy: Self)
        ensures
            copy == *self,
    {
        Winner {
            auction_id: self.auction_id,
            amount_owed: self.amount_owed,
            bidder: self.bidder.clone(),
        }
    }
}

/// Copies a vector of bids.
pub fn clone_bids(bids: &Vec<Bid>) -> (copy: Vec<Bid>)
    ensures
        copy@ == bids@,
{
    let mut copy: Vec<Bid> = Vec::new();
    let mut i: usize = 0;
    while i < bids.len()
        invariant
            i <= bids.len(),
            copy@ == bids@.take(i as int),
        decreases bids.len() - i,
    {
        copy.push(bids[i].clone());
        assert(copy@ =~= bids@.take(i + 1));
        i += 1;
    }
    assert(bids@.take(bids.len() as int) =~= bids@);
    copy
}

impl Clone for Auction {
    fn clone(&self) -> (copy: Self)
        ensures
            copy@ == self@,
            copy.sorted_bids@ == self.sorted_bids@,
            copy.winner == self.winner,
    {
        let winner = match &self.winner {
            Some(w) => Some(w.clone()),
            None => None,
        };
        Auction {
            id: self.id,
            name: self.name.clone(),
            in_progress: self.in_progress,
            max_participants: self.max_participants,
            sorted_bids: clone_bids(&self.sorted_bids),
            winner,
        }
    }
}

/// Whether `a` ranks strictly above `b`.
pub fn bid_outranks(a: &Bid, b: &Bid) -> (above: bool)
    ensures
        above == outranks(a@, b@),
{
    a.amount > b.amount || (a.amount == b.amount && a.timestamp > b.timestamp)
}

/// Whether a key lies behind the cursor of a listing.
pub fn is_after_cursor(key: u128, start_after: Option<u128>) -> (behind: bool)
    ensures
        behind == after_cursor(key, start_after),
{
    match start_after {
        Some(cursor) => key > cursor,
        None => true,
    }
}

/// Whether a page that holds `count` bids has reached its limit.
pub fn page_is_full(count: usize, limit: Option<u32>) -> (full: bool)
    ensures
        full == (limit matches Some(n) && count >= n),
{
    match limit {
        Some(n) => count >= n as usize,
        None => false,
    }
}

impl Auction {
    /// The invariant of an auction, see [`AuctionView::wf`].
    pub open spec fn wf(&self) -> bool {
        self@.wf()
    }

    /// A fresh auction: in progress, without bids, without a winner.
    pub fn new(id: u64, max_participants: u64, name: String) -> (auction: Self)
        ensures
            auction@ == AuctionView::fresh(id, max_participants, name@),
            auction.wf(),
    {
        let auction = Auction {
            id,
            name,
            in_progress: true,
            max_participants,
            sorted_bids: Vec::new(),
            winner: None,
        };
        assert(auction@.sorted_bids =~= Seq::empty());
        auction
    }

    /// Whether the record meets the invariant of an auction. A record that
    /// comes from outside is checked with this before it is used.
    pub fn is_well_formed(&self) -> (ok: bool)
        ensures
            ok == self.wf(),
    {
        if self.winner.is_some() && self.in_progress {
            return false;
        }
        if self.sorted_bids.len() as u64 > self.max_participants {
            return false;
        }
        let mut i: usize = 1;
        while i < self.sorted_bids.len()
            invariant
                1 <= i,
                forall|a: int, b: int|
                    0 <= a <= b < i && b < self.sorted_bids.len() ==> self.sorted_bids[a].amount
                        <= self.sorted_bids[b].amount,
            decreases self.sorted_bids.len() - i,
        {
            if self.sorted_bids[i - 1].amount > self.sorted_bids[i].amount {
                assert(self@.sorted_bids[i - 1].amount > self@.sorted_bids[i as int].amount);
                return false;
            }
            i += 1;
        }
        let ghost bids = self@.sorted_bids;
        assert forall|a: int, b: int| 0 <= a <= b < bids.len() implies bids[a].amount
            <= bids[b].amount by {
            assert(bids[a] == self.sorted_bids[a]@);
            assert(bids[b] == self.sorted_bids[b]@);
        }
        true
    }

    /// Stops the auction from accepting bids, whatever its state was.
    pub fn end(&mut self)
        ensures
            final(self)@ == old(self)@.closed(),
            old(self).wf() ==> final(self).wf(),
    {
        self.in_progress = false;
    }

    /// Whether bids are still accepted.
    pub fn is_in_progress(&self) -> (in_progress: bool)
        ensures
            in_progress == self@.in_progress,
    {
        self.in_progress
    }

    /// Closes the auction. An auction can be closed once; closing needs no
    /// bids.
    pub fn close(&mut self) -> (r: Result<(), ContractError>)
        ensures
            match r {
                Ok(()) => old(self)@.close_outcome() == Ok::<AuctionView, ContractError>(
                    final(self)@,
                ),
                Err(e) => old(self)@.close_outcome() == Err::<AuctionView, ContractError>(e)
                    && *final(self) == *old(self),
            },
            old(self).wf() ==> final(self).wf(),
    {
        if !self.in_progress {
            return Err(ContractError::AuctionAlreadyClosed);
        }
        self.in_progress = false;
        Ok(())
    }

    /// Where a new bid of `amount` belongs among the bids.
    pub fn find_insertion_point(&self, amount: u128) -> (p: usize)
        requires
            self.wf(),
        ensures
            is_insertion_point(self@.sorted_bids, amount, p as int),
            p as int == insertion_point(self@.sorted_bids, amount),
    {
        let mut lo: usize = 0;
        let mut hi: usize = self.sorted_bids.len();
        while lo < hi
            invariant
                lo <= hi <= self.sorted_bids.len(),
                sorted_by_amount(self@.sorted_bids),
                forall|i: int| 0 <= i < lo ==> self@.sorted_bids[i].amount <= amount,
                forall|i: int|
                    hi <= i < self.sorted_bids.len() ==> self@.sorted_bids[i].amount > amount,
            decreases hi - lo,
        {
            let mid: usize = lo + (hi - lo) / 2;
            assert(self@.sorted_bids[mid as int] == self.sorted_bids[mid as int]@);
            if self.sorted_bids[mid].amount <= amount {
                lo = mid + 1;
            } else {
                hi = mid;
            }
        }
        proof {
            lemma_insertion_point_is(self@.sorted_bids, amount, lo as int);
        }
        lo
    }

    /// Adds a bid at its place among the bids: behind every bid of the same or
    /// a lower amount, before every bid of a higher amount. The auction must
    /// be in progress and must have room; otherwise nothing changes.
    pub fn add_bid(&mut self, bid: Bid) -> (r: Result<(), ContractError>)
        requires
            old(self).wf(),
        ensures
            match r {
                Ok(()) => old(self)@.add_bid_outcome(bid@) == Ok::<AuctionView, ContractError>(
                    final(self)@,
                ),
                Err(e) => old(self)@.add_bid_outcome(bid@) == Err::<AuctionView, ContractError>(e)
                    && *final(self) == *old(self),
            },
            final(self).wf(),
    {
        if !self.in_progress {
            return Err(ContractError::AuctionNotInProgress);
        }
        if self.sorted_bids.len() as u64 >= self.max_participants {
            return Err(
                ContractError::CapacityExceeded { max_participants: self.max_participants },
            );
        }
        let p = self.find_insertion_point(bid.amount);
        let ghost before = self@;
        let ghost bid_view = bid@;
        self.sorted_bids.insert(p, bid);
        proof {
            assert(self@.sorted_bids =~= before.sorted_bids.insert(p as int, bid_view));
            lemma_insert_sorted(before.sorted_bids, bid_view);
            assert(self@ == before.with_bid(bid_view));
        }
        Ok(())
    }

    /// Places a bid of `bidder`, where `already_bid` says whether that bidder
    /// has a bid on this auction. Returns the bid that was added.
    pub fn place_bid(
        &mut self,
        already_bid: bool,
        bidder: String,
        amount: u128,
        timestamp: u64,
    ) -> (r: Result<Bid, ContractError>)
        requires
            old(self).wf(),
        ensures
            match r {
                Ok(bid) => bid@ == (BidView {
                    auction_id: old(self).id,
                    amount,
                    bidder: bidder@,
                    timestamp,
                }) && old(self)@.place_bid_outcome(already_bid, bid@) == Ok::<
                    AuctionView,
                    ContractError,
                >(final(self)@),
                Err(e) => old(self)@.place_bid_outcome(
                    already_bid,
                    BidView { auction_id: old(self).id, amount, bidder: bidder@, timestamp },
                ) == Err::<AuctionView, ContractError>(e) && *final(self) == *old(self),
            },
            final(self).wf(),
    {
        if !self.in_progress {
            return Err(ContractError::AuctionNotInProgress);
        }
        if already_bid {
            return Err(ContractError::DuplicateBid);
        }
        if amount == 0 {
            return Err(ContractError::InvalidAmount);
        }
        let bid = Bid { auction_id: self.id, amount, bidder, timestamp };
        match self.add_bid(bid.clone()) {
            Ok(()) => Ok(bid),
            Err(e) => Err(e),
        }
    }

    /// The index of the highest bid.
    pub fn highest_position(&self) -> (h: usize)
        requires
            self.sorted_bids.len() > 0,
        ensures
            is_highest(self@.sorted_bids, h as int),
            h as int == highest_index(self@.sorted_bids),
    {
        let mut best: usize = 0;
        let mut i: usize = 1;
        while i < self.sorted_bids.len()
            invariant
                0 <= best < i <= self.sorted_bids.len(),
                forall|j: int|
                    0 <= j < i ==> !outranks(
                        self@.sorted_bids[j],
                        self@.sorted_bids[best as int],
                    ),
                forall|j: int|
                    best < j < i ==> outranks(self@.sorted_bids[best as int], self@.sorted_bids[j]),
            decreases self.sorted_bids.len() - i,
        {
            assert(self@.sorted_bids[i as int] == self.sorted_bids[i as int]@);
            assert(self@.sorted_bids[best as int] == self.sorted_bids[best as int]@);
            if !bid_outranks(&self.sorted_bids[best], &self.sorted_bids[i]) {
                best = i;
            }
            i += 1;
        }
        proof {
            lemma_highest_is(self@.sorted_bids, best as int);
        }
        best
    }

    /// The index of the second-highest bid: the highest once the highest bid
    /// itself is set aside.
    pub fn runner_up_position(&self) -> (k: usize)
        requires
            self.sorted_bids.len() >= 2,
        ensures
            is_runner_up(self@.sorted_bids, highest_index(self@.sorted_bids), k as int),
            k as int == runner_up_index(self@.sorted_bids),
    {
        let h = self.highest_position();
        let mut best: usize = if h == 0 {
            1
        } else {
            0
        };
        let mut i: usize = best + 1;
        while i < self.sorted_bids.len()
            invariant
                0 <= best < i <= self.sorted_bids.len(),
                best != h,
                h < self.sorted_bids.len(),
                forall|j: int|
                    0 <= j < i && j != h ==> !outranks(
                        self@.sorted_bids[j],
                        self@.sorted_bids[best as int],
                    ),
                forall|j: int|
                    best < j < i && j != h ==> outranks(
                        self@.sorted_bids[best as int],
                        self@.sorted_bids[j],
                    ),
            decreases self.sorted_bids.len() - i,
        {
            assert(self@.sorted_bids[i as int] == self.sorted_bids[i as int]@);
            assert(self@.sorted_bids[best as int] == self.sorted_bids[best as int]@);
            if i != h && !bid_outranks(&self.sorted_bids[best], &self.sorted_bids[i]) {
                best = i;
            }
            i += 1;
        }
        proof {
            lemma_runner_up_is(self@.sorted_bids, h as int, best as int);
        }
        best
    }

    /// The highest bid: no bid has a greater amount, nor the same amount and
    /// a later timestamp; of bids that agree in both it is the one that came
    /// last.
    pub fn get_highest_bid(&self) -> (r: Option<&Bid>)
        ensures
            match r {
                Some(bid) => self.sorted_bids.len() > 0 && *bid
                    == self.sorted_bids[highest_index(self@.sorted_bids)],
                None => self.sorted_bids.len() == 0,
            },
    {
        if self.sorted_bids.len() == 0 {
            None
        } else {
            let h = self.highest_position();
            Some(&self.sorted_bids[h])
        }
    }

    /// The second-highest bid: the highest of the bids once the highest bid
    /// itself is set aside, by the same rule.
    pub fn get_second_highest_bid(&self) -> (r: Option<&Bid>)
        ensures
            match r {
                Some(bid) => self.sorted_bids.len() >= 2 && *bid
                    == self.sorted_bids[runner_up_index(self@.sorted_bids)],
                None => self.sorted_bids.len() < 2,
            },
    {
        if self.sorted_bids.len() < 2 {
            None
        } else {
            let k = self.runner_up_position();
            Some(&self.sorted_bids[k])
        }
    }

    /// The winner of the auction. A closed auction that remembers its winner
    /// gives that one; otherwise the highest bidder wins and owes the amount
    /// of the second-highest bid, which takes two bids.
    pub fn determine_winner(&self) -> (r: Result<Winner, ContractError>)
        ensures
            match r {
                Ok(winner) => self@.winner_outcome() == Ok::<WinnerView, ContractError>(winner@),
                Err(e) => self@.winner_outcome() == Err::<WinnerView, ContractError>(e),
            },
    {
        if self.in_progress {
            return Err(ContractError::AuctionInProgress);
        }
        match &self.winner {
            Some(winner) => Ok(winner.clone()),
            None => {
                if self.sorted_bids.len() == 0 {
                    return Err(ContractError::NoBids);
                }
                if self.sorted_bids.len() < 2 {
                    return Err(ContractError::InsufficientBids);
                }
                let h = self.highest_position();
                let k = self.runner_up_position();
                assert(self@.sorted_bids[h as int] == self.sorted_bids[h as int]@);
                assert(self@.sorted_bids[k as int] == self.sorted_bids[k as int]@);
                Ok(
                    Winner {
                        auction_id: self.id,
                        amount_owed: self.sorted_bids[k].amount,
                        bidder: self.sorted_bids[h].bidder.clone(),
                    },
                )
            },
        }
    }

    /// One page of the bids in their order, ascending by amount: the bids
    /// whose amount is strictly greater than `start_after`, or all of them
    /// where it is absent; at most `limit` of them, or all that remain where
    /// it is absent.
    pub fn bids_page(&self, start_after: Option<u128>, limit: Option<u32>) -> (bids: Vec<Bid>)
        ensures
            bids_view(bids@) == auction_page(self@.sorted_bids, start_after, limit),
    {
        let mut bids: Vec<Bid> = Vec::new();
        let mut i: usize = 0;
        let ghost all = self@.sorted_bids;
        let ghost pred = amount_after(start_after);
        proof {
            lemma_filter_none(all.take(0), pred);
            assert(bids_view(bids@) =~= Seq::<BidView>::empty());
        }
        while i < self.sorted_bids.len() && !page_is_full(bids.len(), limit)
            invariant
                i <= self.sorted_bids.len(),
                all == self@.sorted_bids,
                pred == amount_after(start_after),
                bids_view(bids@) == all.take(i as int).filter(pred),
                limit matches Some(n) ==> bids.len() <= n,
            decreases self.sorted_bids.len() - i,
        {
            let bid = &self.sorted_bids[i];
            let ghost before = bids_view(bids@);
            proof {
                lemma_filter_take_step(all, pred, i as int);
                assert(all[i as int] == bid@);
            }
            if is_after_cursor(bid.amount, start_after) {
                bids.push(bid.clone());
                assert(bids_view(bids@) =~= before.push(bid@));
            }
            i += 1;
        }
        proof {
            lemma_page_of_prefix(all, pred, i as int, limit);
        }
        bids
    }

    /// Determines the winner and remembers it, so that later calls give the
    /// same winner without computing it again.
    pub fn settle(&mut self) -> (r: Result<Winner, ContractError>)
        ensures
            match r {
                Ok(winner) => old(self)@.winner_outcome() == Ok::<WinnerView, ContractError>(
                    winner@,
                ) && final(self)@ == old(self)@.with_winner(winner@),
                Err(e) => old(self)@.winner_outcome() == Err::<WinnerView, ContractError>(e)
                    && *final(self) == *old(self),
            },
            old(self).wf() ==> final(self).wf(),
    {
        match self.determine_winner() {
            Ok(winner) => {
                self.winner = Some(winner.clone());
                Ok(winner)
            },
            Err(e) => Err(e),
        }
    }
}

} // verus!
