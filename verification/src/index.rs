//! The bidder index: every bid on record, found again by bidder and auction.

use crate::error::ContractError;
use crate::model::{
    bidder_after, bidder_page, entry_point, has_bid_of, insert_entry, is_entry_point,
    lemma_entry_point_is, lemma_filter_none, lemma_filter_take_step, lemma_page_of_prefix,
    one_bid_each, sorted_by_auction, BidView,
};
use crate::state::{bids_view, is_after_cursor, page_is_full, Bid};
use vstd::prelude::*;

verus! {

/// Copies of the bids that were placed, one for each bidder and auction,
/// ascending by auction id. It enforces that a bidder bids once on an auction
/// and answers what a bidder has bid without a walk through the auctions.
#[derive(Debug, PartialEq, Eq)]
pub struct BidderIndex {
    /// The bids, ascending by auction id.
    pub entries: Vec<Bid>,
}

impl View for BidderIndex {
    type V = Seq<BidView>;

    open spec fn view(&self) -> Seq<BidView> {
        bids_view(self.entries@)
    }
}

impl BidderIndex {
    /// The invariant of the index: the bids ascend by auction id, and no
    /// bidder has two bids on one auction.
    pub open spec fn wf(&self) -> bool {
        sorted_by_auction(self@) && one_bid_each(self@)
    }

    /// An index without bids.
    pub fn new() -> (index: Self)
        ensures
            index@ == Seq::<BidView>::empty(),
            index.wf(),
    {
        let index = BidderIndex { entries: Vec::new() };
        assert(index@ =~= Seq::<BidView>::empty());
        index
    }

    /// Whether the record meets the invariant of the index.
    pub fn is_well_formed(&self) -> (ok: bool)
        ensures
            ok == self.wf(),
    {
        let mut j: usize = 0;
        while j < self.entries.len()
            invariant
                j <= self.entries.len(),
                forall|a: int, b: int|
                    0 <= a < b < j ==> self@[a].auction_id <= self@[b].auction_id && !(
                    self@[a].bidder == self@[b].bidder && self@[a].auction_id
                        == self@[b].auction_id),
            decreases self.entries.len() - j,
        {
            let mut i: usize = 0;
            while i < j
                invariant
                    i <= j < self.entries.len(),
                    forall|a: int|
                        0 <= a < i ==> self@[a].auction_id <= self@[j as int].auction_id && !(
                        self@[a].bidder == self@[j as int].bidder && self@[a].auction_id
                            == self@[j as int].auction_id),
                decreases j - i,
            {
                assert(self@[i as int] == self.entries[i as int]@);
                assert(self@[j as int] == self.entries[j as int]@);
                if self.entries[i].auction_id > self.entries[j].auction_id {
                    return false;
                }
                if self.entries[i].auction_id == self.entries[j].auction_id
                    && self.entries[i].bidder == self.entries[j].bidder {
                    return false;
                }
                i += 1;
            }
            j += 1;
        }
        true
    }

    /// Whether `bidder` has a bid on auction `auction_id`.
    pub fn has_bid(&self, bidder: &String, auction_id: u64) -> (found: bool)
        ensures
            found == has_bid_of(self@, bidder@, auction_id),
    {
        let mut i: usize = 0;
        while i < self.entries.len()
            invariant
                i <= self.entries.len(),
                forall|j: int|
                    0 <= j < i ==> !(self@[j].bidder == bidder@ && self@[j].auction_id
                        == auction_id),
            decreases self.entries.len() - i,
        {
            assert(self@[i as int] == self.entries[i as int]@);
            if self.entries[i].auction_id == auction_id && self.entries[i].bidder == *bidder {
                return true;
            }
            i += 1;
        }
        false
    }

    /// Where a bid on auction `auction_id` belongs among the entries.
    pub fn find_entry_point(&self, auction_id: u64) -> (p: usize)
        requires
            self.wf(),
        ensures
            is_entry_point(self@, auction_id, p as int),
            p as int == entry_point(self@, auction_id),
    {
        let mut p: usize = self.entries.len();
        while p > 0 && self.entries[p - 1].auction_id > auction_id
            invariant
                p <= self.entries.len(),
                forall|i: int| p <= i < self.entries.len() ==> self@[i].auction_id > auction_id,
            decreases p,
        {
            assert(self@[p - 1] == self.entries[p - 1]@);
            p -= 1;
        }
        proof {
            if p > 0 {
                assert(self@[p - 1] == self.entries[p - 1]@);
            }
            lemma_entry_point_is(self@, auction_id, p as int);
        }
        p
    }

    /// Records a bid under its bidder and auction: behind the bids on that
    /// auction and on earlier ones, before those on later ones. A second bid
    /// of one bidder on one auction is refused and changes nothing.
    pub fn record(&mut self, bid: Bid) -> (r: Result<(), ContractError>)
        requires
            old(self).wf(),
        ensures
            match r {
                Ok(()) => !has_bid_of(old(self)@, bid@.bidder, bid.auction_id) && final(self)@
                    == insert_entry(old(self)@, bid@),
                Err(e) => has_bid_of(old(self)@, bid@.bidder, bid.auction_id) && e
                    == ContractError::DuplicateBid && *final(self) == *old(self),
            },
            final(self).wf(),
    {
        if self.has_bid(&bid.bidder, bid.auction_id) {
            return Err(ContractError::DuplicateBid);
        }
        let p = self.find_entry_point(bid.auction_id);
        let ghost before = self@;
        let ghost entry = bid@;
        self.entries.insert(p, bid);
        proof {
            assert(self@ =~= before.insert(p as int, entry));
            lemma_insert_entry(before, entry);
        }
        Ok(())
    }

    /// One page of the bids of `bidder`, ascending by auction id: the bids on
    /// auctions whose id is strictly greater than `start_after`, or all of
    /// them where it is absent; at most `limit` of them, or all that remain
    /// where it is absent. A bidder without bids gets an empty page.
    pub fn list_for_bidder(
        &self,
        bidder: &String,
        start_after: Option<u128>,
        limit: Option<u32>,
    ) -> (bids: Vec<Bid>)
        ensures
            bids_view(bids@) == bidder_page(self@, bidder@, start_after, limit),
    {
        let mut bids: Vec<Bid> = Vec::new();
        let mut i: usize = 0;
        let ghost all = self@;
        let ghost pred = bidder_after(bidder@, start_after);
        proof {
            lemma_filter_none(all.take(0), pred);
            assert(bids_view(bids@) =~= Seq::<BidView>::empty());
        }
        while i < self.entries.len() && !page_is_full(bids.len(), limit)
            invariant
                i <= self.entries.len(),
                all == self@,
                pred == bidder_after(bidder@, start_after),
                bids_view(bids@) == all.take(i as int).filter(pred),
                limit matches Some(n) ==> bids.len() <= n,
            decreases self.entries.len() - i,
        {
            let bid = &self.entries[i];
            let ghost before = bids_view(bids@);
            proof {
                lemma_filter_take_step(all, pred, i as int);
                assert(all[i as int] == bid@);
            }
            if bid.bidder == *bidder && is_after_cursor(bid.auction_id as u128, start_after) {
                bids.push(bid.clone());
                assert(bids_view(bids@) =~= before.push(bid@));
            }
            i += 1;
        }
        proof {
            lemma_page_of_prefix(all, pred, i as int, limit);
        }
        bids
    }
}

/// Recording a bid of a bidder who has none on that auction keeps the
/// invariant of the index, adds one bid and keeps every bid that was there.
pub proof fn lemma_insert_entry(bids: Seq<BidView>, bid: BidView)
    requires
        sorted_by_auction(bids),
        one_bid_each(bids),
        !has_bid_of(bids, bid.bidder, bid.auction_id),
        is_entry_point(bids, bid.auction_id, entry_point(bids, bid.auction_id)),
    ensures
        sorted_by_auction(insert_entry(bids, bid)),
        one_bid_each(insert_entry(bids, bid)),
        insert_entry(bids, bid).len() == bids.len() + 1,
        has_bid_of(insert_entry(bids, bid), bid.bidder, bid.auction_id),
        forall|bidder: Seq<char>, auction_id: u64|
            has_bid_of(bids, bidder, auction_id) ==> #[trigger] has_bid_of(
                insert_entry(bids, bid),
                bidder,
                auction_id,
            ),
{
    let p = entry_point(bids, bid.auction_id);
    let after = insert_entry(bids, bid);
    assert forall|i: int, j: int| 0 <= i <= j < after.len() implies after[i].auction_id
        <= after[j].auction_id by {
        if i < p {
            assert(after[i] == bids[i]);
        } else if i > p {
            assert(after[i] == bids[i - 1]);
        }
        if j < p {
            assert(after[j] == bids[j]);
        } else if j > p {
            assert(after[j] == bids[j - 1]);
        }
    }
    assert forall|i: int, j: int| 0 <= i < j < after.len() implies !(after[i].bidder
        == after[j].bidder && after[i].auction_id == after[j].auction_id) by {
        if i < p {
            assert(after[i] == bids[i]);
        } else if i > p {
            assert(after[i] == bids[i - 1]);
        }
        if j < p {
            assert(after[j] == bids[j]);
        } else if j > p {
            assert(after[j] == bids[j - 1]);
        }
    }
    assert(after[p] == bid);
    assert forall|bidder: Seq<char>, auction_id: u64|
        has_bid_of(bids, bidder, auction_id) implies #[trigger] has_bid_of(
        after,
        bidder,
        auction_id,
    ) by {
        let i = choose|i: int|
            0 <= i < bids.len() && bids[i].bidder == bidder && bids[i].auction_id == auction_id;
        if i < p {
            assert(after[i] == bids[i]);
        } else {
            assert(after[i + 1] == bids[i]);
        }
    }
}

} // verus!
