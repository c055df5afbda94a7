//! The auction record store: every auction on record, found by its id.

use crate::error::ContractError;
use crate::model::{AuctionView, BidView, WinnerView};
use crate::state::{Auction, Bid, Winner};
use vstd::prelude::*;

verus! {

/// Whether one of the auctions has this id.
pub open spec fn holds_id(auctions: Seq<Auction>, id: u64) -> bool {
    exists|i: int| 0 <= i < auctions.len() && auctions[i].id == id
}

/// The index of the auction with this id.
pub open spec fn slot_of(auctions: Seq<Auction>, id: u64) -> int {
    choose|i: int| 0 <= i < auctions.len() && auctions[i].id == id
}

/// The auctions as a map from id to auction.
pub open spec fn store_view(auctions: Seq<Auction>) -> Map<u64, AuctionView> {
    Map::new(|id: u64| holds_id(auctions, id), |id: u64| auctions[slot_of(auctions, id)]@)
}

/// The invariant of the store: the auctions ascend strictly by id, so that no
/// id occurs twice, and each meets the invariant of an auction.
pub open spec fn store_wf(auctions: Seq<Auction>) -> bool {
    &&& forall|i: int, j: int| 0 <= i < j < auctions.len() ==> auctions[i].id < auctions[j].id
    &&& forall|i: int| 0 <= i < auctions.len() ==> (#[trigger] auctions[i]).wf()
}

/// `p` is where the auction with `id` stands or would stand: behind every
/// auction with a lower id.
pub open spec fn is_slot(auctions: Seq<Auction>, id: u64, p: int) -> bool {
    &&& 0 <= p <= auctions.len()
    &&& forall|i: int| 0 <= i < p ==> auctions[i].id < id
    &&& forall|i: int| p <= i < auctions.len() ==> auctions[i].id >= id
}

/// In a store that meets its invariant the auction at index `i` is the one
/// that the map holds under its id.
pub proof fn lemma_slot(auctions: Seq<Auction>, i: int)
    requires
        store_wf(auctions),
        0 <= i < auctions.len(),
    ensures
        store_view(auctions).dom().contains(auctions[i].id),
        store_view(auctions)[auctions[i].id] == auctions[i]@,
        slot_of(auctions, auctions[i].id) == i,
{
    let id = auctions[i].id;
    assert(holds_id(auctions, id));
    let s = slot_of(auctions, id);
    if s < i {
        assert(auctions[s].id < auctions[i].id);
    } else if i < s {
        assert(auctions[i].id < auctions[s].id);
    }
}

/// Every auction that the map holds stands under its own id and meets the
/// invariant of an auction.
pub proof fn lemma_store_entries(auctions: Seq<Auction>)
    requires
        store_wf(auctions),
    ensures
        forall|id: u64| #[trigger]
            store_view(auctions).dom().contains(id) ==> store_view(auctions)[id].id == id
                && store_view(auctions)[id].wf(),
{
    assert forall|id: u64| #[trigger]
        store_view(auctions).dom().contains(id) implies store_view(auctions)[id].id == id
        && store_view(auctions)[id].wf() by {
        let s = slot_of(auctions, id);
        assert(auctions[s].wf());
    }
}

/// A new auction put at its slot adds one entry to the map and keeps the
/// invariant of the store.
pub proof fn lemma_store_insert(auctions: Seq<Auction>, p: int, auction: Auction)
    requires
        store_wf(auctions),
        is_slot(auctions, auction.id, p),
        !holds_id(auctions, auction.id),
        auction.wf(),
    ensures
        store_wf(auctions.insert(p, auction)),
        store_view(auctions.insert(p, auction)) == store_view(auctions).insert(
            auction.id,
            auction@,
        ),
{
    let after = auctions.insert(p, auction);
    assert forall|i: int, j: int| 0 <= i < j < after.len() implies after[i].id
        < after[j].id by {
        if i < p {
            assert(after[i] == auctions[i]);
        } else if i > p {
            assert(after[i] == auctions[i - 1]);
        }
        if j < p {
            assert(after[j] == auctions[j]);
        } else if j > p {
            assert(after[j] == auctions[j - 1]);
            assert(holds_id(auctions, auctions[j - 1].id));
        }
    }
    assert forall|i: int| 0 <= i < after.len() implies (#[trigger] after[i]).wf() by {
        if i < p {
            assert(after[i] == auctions[i]);
        } else if i > p {
            assert(after[i] == auctions[i - 1]);
        }
    }
    assert(store_wf(after));
    let expected = store_view(auctions).insert(auction.id, auction@);
    assert forall|id: u64| store_view(after).dom().contains(id) == expected.dom().contains(
        id,
    ) by {
        if holds_id(after, id) {
            let s = slot_of(after, id);
            if s < p {
                assert(after[s] == auctions[s]);
            } else if s > p {
                assert(after[s] == auctions[s - 1]);
            }
        }
        if holds_id(auctions, id) {
            let s = slot_of(auctions, id);
            if s < p {
                assert(after[s] == auctions[s]);
            } else {
                assert(after[s + 1] == auctions[s]);
            }
        }
        if id == auction.id {
            assert(after[p] == auction);
        }
    }
    assert forall|id: u64| store_view(after).dom().contains(id) implies store_view(after)[id]
        == expected[id] by {
        let s = slot_of(after, id);
        lemma_slot(after, s);
        if s < p {
            assert(after[s] == auctions[s]);
            lemma_slot(auctions, s);
        } else if s > p {
            assert(after[s] == auctions[s - 1]);
            lemma_slot(auctions, s - 1);
        } else {
            assert(after[p] == auction);
        }
    }
    assert(store_view(after) =~= expected);
}

/// An auction changed in place, under the id it had, changes its entry of
/// the map and no other, and keeps the invariant of the store.
pub proof fn lemma_store_update(before: Seq<Auction>, after: Seq<Auction>, p: int)
    requires
        store_wf(before),
        0 <= p < before.len(),
        after.len() == before.len(),
        forall|i: int| 0 <= i < before.len() && i != p ==> after[i] == before[i],
        after[p].id == before[p].id,
        after[p].wf(),
    ensures
        store_wf(after),
        store_view(after) == store_view(before).insert(before[p].id, after[p]@),
{
    assert forall|i: int, j: int| 0 <= i < j < after.len() implies after[i].id
        < after[j].id by {
        assert(before[i].id < before[j].id);
    }
    assert forall|i: int| 0 <= i < after.len() implies (#[trigger] after[i]).wf() by {
        if i != p {
            assert(before[i].wf());
        }
    }
    assert(store_wf(after));
    let expected = store_view(before).insert(before[p].id, after[p]@);
    assert forall|id: u64| store_view(after).dom().contains(id) == expected.dom().contains(
        id,
    ) by {
        if holds_id(after, id) {
            let s = slot_of(after, id);
            assert(before[s].id == id);
        }
        if holds_id(before, id) {
            let s = slot_of(before, id);
            assert(after[s].id == id);
        }
    }
    assert forall|id: u64| store_view(after).dom().contains(id) implies store_view(after)[id]
        == expected[id] by {
        let s = slot_of(after, id);
        lemma_slot(after, s);
        lemma_slot(before, s);
    }
    assert(store_view(after) =~= expected);
}

/// The auctions on record, each under its id.
#[derive(Debug, PartialEq, Eq)]
pub struct AuctionStore {
    /// The auctions, ascending by id.
    pub auctions: Vec<Auction>,
}

impl View for AuctionStore {
    type V = Map<u64, AuctionView>;

    open spec fn view(&self) -> Map<u64, AuctionView> {
        store_view(self.auctions@)
    }
}

impl AuctionStore {
    /// The invariant of the store, see [`store_wf`].
    pub open spec fn wf(&self) -> bool {
        store_wf(self.auctions@)
    }

    /// A store without auctions.
    pub fn new() -> (store: Self)
        ensures
            store@ == Map::<u64, AuctionView>::empty(),
            store.wf(),
    {
        let store = AuctionStore { auctions: Vec::new() };
        assert(store@ =~= Map::<u64, AuctionView>::empty());
        store
    }

    /// Whether the record meets the invariant of the store.
    pub fn is_well_formed(&self) -> (ok: bool)
        ensures
            ok == self.wf(),
    {
        let mut i: usize = 0;
        while i < self.auctions.len()
            invariant
                i <= self.auctions.len(),
                forall|a: int, b: int| 0 <= a < b < i ==> self.auctions[a].id < self.auctions[b].id,
                forall|a: int| 0 <= a < i ==> (#[trigger] self.auctions[a]).wf(),
            decreases self.auctions.len() - i,
        {
            if !self.auctions[i].is_well_formed() {
                return false;
            }
            if i > 0 && self.auctions[i - 1].id >= self.auctions[i].id {
                return false;
            }
            i += 1;
        }
        true
    }

    /// Where the auction with `id` stands or would stand, and whether it
    /// stands there.
    pub fn locate(&self, id: u64) -> (r: (usize, bool))
        requires
            self.wf(),
        ensures
            is_slot(self.auctions@, id, r.0 as int),
            r.1 == self@.dom().contains(id),
            r.1 ==> r.0 < self.auctions.len() && self.auctions[r.0 as int].id == id
                && self.auctions[r.0 as int]@ == self@[id],
    {
        let mut lo: usize = 0;
        let mut hi: usize = self.auctions.len();
        while lo < hi
            invariant
                lo <= hi <= self.auctions.len(),
                self.wf(),
                forall|i: int| 0 <= i < lo ==> self.auctions[i].id < id,
                forall|i: int| hi <= i < self.auctions.len() ==> self.auctions[i].id >= id,
            decreases hi - lo,
        {
            let mid: usize = lo + (hi - lo) / 2;
            if self.auctions[mid].id < id {
                lo = mid + 1;
            } else {
                hi = mid;
            }
        }
        let found = lo < self.auctions.len() && self.auctions[lo].id == id;
        proof {
            if found {
                lemma_slot(self.auctions@, lo as int);
            } else if holds_id(self.auctions@, id) {
                let s = slot_of(self.auctions@, id);
                assert(self.auctions[s].id == id);
                if s > lo {
                    assert(self.auctions[lo as int].id < self.auctions[s].id);
                }
            }
        }
        (lo, found)
    }

    /// Whether an auction with `id` is on record.
    pub fn contains(&self, id: u64) -> (found: bool)
        requires
            self.wf(),
        ensures
            found == self@.dom().contains(id),
    {
        self.locate(id).1
    }

    /// Puts a fresh auction on record under `id`: in progress, without bids,
    /// without a winner. An id that is taken is refused, and nothing changes.
    pub fn create(&mut self, id: u64, name: String, max_participants: u64) -> (r: Result<
        (),
        ContractError,
    >)
        requires
            old(self).wf(),
        ensures
            match r {
                Ok(()) => !old(self)@.dom().contains(id) && final(self)@ == old(self)@.insert(
                    id,
                    AuctionView::fresh(id, max_participants, name@),
                ),
                Err(e) => old(self)@.dom().contains(id) && e
                    == (ContractError::AuctionAlreadyExists { auction_id: id }) && *final(self)
                    == *old(self),
            },
            final(self).wf(),
    {
        let (p, found) = self.locate(id);
        if found {
            return Err(ContractError::AuctionAlreadyExists { auction_id: id });
        }
        let auction = Auction::new(id, max_participants, name);
        proof {
            lemma_store_insert(self.auctions@, p as int, auction);
        }
        self.auctions.insert(p, auction);
        Ok(())
    }

    /// The auction on record under `id`.
    pub fn get(&self, id: u64) -> (r: Result<&Auction, ContractError>)
        requires
            self.wf(),
        ensures
            match r {
                Ok(auction) => self@.dom().contains(id) && auction@ == self@[id] && auction.id
                    == id && auction.wf(),
                Err(e) => !self@.dom().contains(id) && e == (ContractError::AuctionNotFound {
                    auction_id: id,
                }),
            },
    {
        let (p, found) = self.locate(id);
        if found {
            Ok(&self.auctions[p])
        } else {
            Err(ContractError::AuctionNotFound { auction_id: id })
        }
    }

    /// What adding `bid` to the auction under `id` gives.
    pub open spec fn insert_bid_outcome(
        auctions: Map<u64, AuctionView>,
        id: u64,
        bid: BidView,
    ) -> Result<Map<u64, AuctionView>, ContractError> {
        if !auctions.dom().contains(id) {
            Err(ContractError::AuctionNotFound { auction_id: id })
        } else {
            match auctions[id].add_bid_outcome(bid) {
                Ok(auction) => Ok(auctions.insert(id, auction)),
                Err(e) => Err(e),
            }
        }
    }

    /// Adds a bid to the auction under `id`, at its place among the bids of
    /// that auction. The auction must be on record, in progress and have
    /// room; otherwise nothing changes.
    pub fn insert_bid(&mut self, id: u64, bid: Bid) -> (r: Result<(), ContractError>)
        requires
            old(self).wf(),
        ensures
            match r {
                Ok(()) => Self::insert_bid_outcome(old(self)@, id, bid@) == Ok::<
                    Map<u64, AuctionView>,
                    ContractError,
                >(final(self)@),
                Err(e) => Self::insert_bid_outcome(old(self)@, id, bid@) == Err::<
                    Map<u64, AuctionView>,
                    ContractError,
                >(e) && final(self).auctions@ == old(self).auctions@,
            },
            final(self).wf(),
    {
        let (p, found) = self.locate(id);
        if !found {
            return Err(ContractError::AuctionNotFound { auction_id: id });
        }
        let ghost before = self.auctions@;
        let auction = &mut self.auctions[p];
        let r = auction.add_bid(bid);
        proof {
            if r is Ok {
                lemma_store_update(before, self.auctions@, p as int);
            } else {
                assert(self.auctions@ =~= before);
            }
        }
        r
    }

    /// What a bid placed on the auction under `id` gives, where `already_bid`
    /// says whether the bidder has a bid on that auction.
    pub open spec fn place_bid_outcome(
        auctions: Map<u64, AuctionView>,
        id: u64,
        already_bid: bool,
        bid: BidView,
    ) -> Result<Map<u64, AuctionView>, ContractError> {
        if !auctions.dom().contains(id) {
            Err(ContractError::AuctionNotFound { auction_id: id })
        } else {
            match auctions[id].place_bid_outcome(already_bid, bid) {
                Ok(auction) => Ok(auctions.insert(id, auction)),
                Err(e) => Err(e),
            }
        }
    }

    /// Places a bid of `bidder` on the auction under `id`, where
    /// `already_bid` says whether that bidder has a bid on it. Returns the bid
    /// that was added; where the bid is refused nothing changes.
    pub fn place_bid(
        &mut self,
        id: u64,
        already_bid: bool,
        bidder: String,
        amount: u128,
        timestamp: u64,
    ) -> (r: Result<Bid, ContractError>)
        requires
            old(self).wf(),
        ensures
            match r {
                Ok(bid) => bid@ == (BidView { auction_id: id, amount, bidder: bidder@, timestamp })
                    && Self::place_bid_outcome(old(self)@, id, already_bid, bid@) == Ok::<
                    Map<u64, AuctionView>,
                    ContractError,
                >(final(self)@),
                Err(e) => Self::place_bid_outcome(
                    old(self)@,
                    id,
                    already_bid,
                    BidView { auction_id: id, amount, bidder: bidder@, timestamp },
                ) == Err::<Map<u64, AuctionView>, ContractError>(e) && final(self).auctions@ == old(
                    self,
                ).auctions@,
            },
            final(self).wf(),
    {
        let (p, found) = self.locate(id);
        if !found {
            return Err(ContractError::AuctionNotFound { auction_id: id });
        }
        let ghost before = self.auctions@;
        let auction = &mut self.auctions[p];
        let r = auction.place_bid(already_bid, bidder, amount, timestamp);
        proof {
            if r is Ok {
                lemma_store_update(before, self.auctions@, p as int);
            } else {
                assert(self.auctions@ =~= before);
            }
        }
        r
    }

    /// What closing the auction under `id` gives.
    pub open spec fn close_outcome(auctions: Map<u64, AuctionView>, id: u64) -> Result<
        Map<u64, AuctionView>,
        ContractError,
    > {
        if !auctions.dom().contains(id) {
            Err(ContractError::AuctionNotFound { auction_id: id })
        } else {
            match auctions[id].close_outcome() {
                Ok(auction) => Ok(auctions.insert(id, auction)),
                Err(e) => Err(e),
            }
        }
    }

    /// Closes the auction under `id`. It must be on record and in progress;
    /// otherwise nothing changes.
    pub fn close(&mut self, id: u64) -> (r: Result<(), ContractError>)
        requires
            old(self).wf(),
        ensures
            match r {
                Ok(()) => Self::close_outcome(old(self)@, id) == Ok::<
                    Map<u64, AuctionView>,
                    ContractError,
                >(final(self)@),
                Err(e) => Self::close_outcome(old(self)@, id) == Err::<
                    Map<u64, AuctionView>,
                    ContractError,
                >(e) && final(self).auctions@ == old(self).auctions@,
            },
            final(self).wf(),
    {
        let (p, found) = self.locate(id);
        if !found {
            return Err(ContractError::AuctionNotFound { auction_id: id });
        }
        let ghost before = self.auctions@;
        let auction = &mut self.auctions[p];
        let r = auction.close();
        proof {
            if r is Ok {
                lemma_store_update(before, self.auctions@, p as int);
            } else {
                assert(self.auctions@ =~= before);
            }
        }
        r
    }

    /// What the winner of the auction under `id` is.
    pub open spec fn winner_outcome(auctions: Map<u64, AuctionView>, id: u64) -> Result<
        WinnerView,
        ContractError,
    > {
        if !auctions.dom().contains(id) {
            Err(ContractError::AuctionNotFound { auction_id: id })
        } else {
            auctions[id].winner_outcome()
        }
    }

    /// Determines the winner of the auction under `id` and remembers it on
    /// the record. Where no winner can be determined nothing changes.
    pub fn settle(&mut self, id: u64) -> (r: Result<Winner, ContractError>)
        requires
            old(self).wf(),
        ensures
            match r {
                Ok(winner) => Self::winner_outcome(old(self)@, id) == Ok::<
                    WinnerView,
                    ContractError,
                >(winner@) && final(self)@ == old(self)@.insert(
                    id,
                    old(self)@[id].with_winner(winner@),
                ),
                Err(e) => Self::winner_outcome(old(self)@, id) == Err::<WinnerView, ContractError>(
                    e,
                ) && final(self).auctions@ == old(self).auctions@,
            },
            final(self).wf(),
    {
        let (p, found) = self.locate(id);
        if !found {
            return Err(ContractError::AuctionNotFound { auction_id: id });
        }
        let ghost before = self.auctions@;
        let auction = &mut self.auctions[p];
        let r = auction.settle();
        proof {
            if r is Ok {
                lemma_store_update(before, self.auctions@, p as int);
            } else {
                assert(self.auctions@ =~= before);
            }
        }
        r
    }
}

} // verus!
