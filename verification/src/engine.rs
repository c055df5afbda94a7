//! The auction engine: the id allocator, the auction store and the bidder
//! index, and the operations that keep them in step.

use crate::error::ContractError;
use crate::index::BidderIndex;
use crate::model::{
    auction_page, bidder_page, has_bid_of, insert_entry, one_bid_each, sorted_by_auction,
    AuctionView, BidView, WinnerView,
};
use crate::state::{bids_view, Bid, Winner};
use crate::store::{lemma_store_entries, AuctionStore};
use crate::theorems::{
    theorem_close_keeps_invariant, theorem_get_winner_keeps_invariant,
    theorem_place_bid_keeps_invariant, theorem_start_auction,
};
use vstd::prelude::*;

verus! {

/// The state of the engine as a mathematical value.
pub struct EngineView {
    /// The id of the auction that was started last; 0 before the first.
    pub current_auction_id: u64,
    /// The auctions on record, by id.
    pub auctions: Map<u64, AuctionView>,
    /// The bids on record, ascending by auction id.
    pub bidders_to_bids: Seq<BidView>,
}

impl EngineView {
    /// The state before anything has happened.
    pub open spec fn initial() -> EngineView {
        EngineView {
            current_auction_id: 0,
            auctions: Map::empty(),
            bidders_to_bids: Seq::empty(),
        }
    }

    /// The invariant of the engine: every auction stands under its own id
    /// and meets the invariant of an auction; the bidder index ascends by
    /// auction id and holds no bidder twice on one auction. It holds of any
    /// part of the records, too.
    pub open spec fn wf(self) -> bool {
        &&& forall|id: u64| #[trigger]
            self.auctions.dom().contains(id) ==> self.auctions[id].id == id
                && self.auctions[id].wf()
        &&& sorted_by_auction(self.bidders_to_bids)
        &&& one_bid_each(self.bidders_to_bids)
    }

    /// The id of every auction on record was handed out.
    pub open spec fn ids_handed_out(self) -> bool {
        forall|id: u64| #[trigger]
            self.auctions.dom().contains(id) ==> 1 <= id <= self.current_auction_id
    }

    /// Every bid of an auction refers to that auction and has its copy in the
    /// bidder index.
    pub open spec fn bids_are_indexed(self) -> bool {
        forall|id: u64, i: int|
            self.auctions.dom().contains(id) && 0 <= i < self.auctions[id].sorted_bids.len() ==> {
                &&& (#[trigger] self.auctions[id].sorted_bids[i]).auction_id == id
                &&& self.bidders_to_bids.contains(self.auctions[id].sorted_bids[i])
            }
    }

    /// Every bid in the bidder index is a bid of the auction that it refers
    /// to.
    pub open spec fn index_is_backed(self) -> bool {
        forall|k: int|
            0 <= k < self.bidders_to_bids.len() ==> {
                &&& self.auctions.dom().contains((#[trigger] self.bidders_to_bids[k]).auction_id)
                &&& self.auctions[self.bidders_to_bids[k].auction_id].sorted_bids.contains(
                    self.bidders_to_bids[k],
                )
            }
    }

    /// What holds of the records as a whole: the ids were handed out, and the
    /// auctions and the bidder index hold the same bids.
    pub open spec fn consistent(self) -> bool {
        self.ids_handed_out() && self.bids_are_indexed() && self.index_is_backed()
    }

    /// The id that the next auction gets.
    pub open spec fn next_id(self) -> u64 {
        (self.current_auction_id + 1) as u64
    }

    /// What starting an auction gives. The participants are checked before an
    /// id is handed out, so that a refusal leaves the ids dense.
    pub open spec fn start_auction_outcome(self, name: Seq<char>, max_participants: u64) -> Result<
        EngineView,
        ContractError,
    > {
        if max_participants < 2 {
            Err(ContractError::TooFewParticipants)
        } else if self.auctions.dom().contains(self.next_id()) {
            Err(ContractError::AuctionAlreadyExists { auction_id: self.next_id() })
        } else {
            Ok(
                EngineView {
                    current_auction_id: self.next_id(),
                    auctions: self.auctions.insert(
                        self.next_id(),
                        AuctionView::fresh(self.next_id(), max_participants, name),
                    ),
                    ..self
                },
            )
        }
    }

    /// The bid that `bidder` places on auction `auction_id`.
    pub open spec fn bid_of(bidder: Seq<char>, auction_id: u64, amount: u128, timestamp: u64)
        -> BidView {
        BidView { auction_id, amount, bidder, timestamp }
    }

    /// What placing a bid gives. The checks come in this order: the auction
    /// is on record, it is in progress, the bidder has no bid on it, the
    /// amount is positive, the auction has room. An accepted bid is added to
    /// the auction and to the bidder index.
    pub open spec fn place_bid_outcome(
        self,
        bidder: Seq<char>,
        auction_id: u64,
        amount: u128,
        timestamp: u64,
    ) -> Result<EngineView, ContractError> {
        let bid = Self::bid_of(bidder, auction_id, amount, timestamp);
        match AuctionStore::place_bid_outcome(
            self.auctions,
            auction_id,
            has_bid_of(self.bidders_to_bids, bidder, auction_id),
            bid,
        ) {
            Ok(auctions) => Ok(
                EngineView {
                    auctions,
                    bidders_to_bids: insert_entry(self.bidders_to_bids, bid),
                    ..self
                },
            ),
            Err(e) => Err(e),
        }
    }

    /// What closing an auction gives.
    pub open spec fn close_auction_outcome(self, auction_id: u64) -> Result<
        EngineView,
        ContractError,
    > {
        match AuctionStore::close_outcome(self.auctions, auction_id) {
            Ok(auctions) => Ok(EngineView { auctions, ..self }),
            Err(e) => Err(e),
        }
    }

    /// What the winner of an auction is.
    pub open spec fn winner_outcome(self, auction_id: u64) -> Result<WinnerView, ContractError> {
        AuctionStore::winner_outcome(self.auctions, auction_id)
    }

    /// This state with `winner` remembered on auction `auction_id`.
    pub open spec fn with_winner(self, auction_id: u64, winner: WinnerView) -> EngineView {
        EngineView {
            auctions: self.auctions.insert(
                auction_id,
                self.auctions[auction_id].with_winner(winner),
            ),
            ..self
        }
    }

    /// What asking for the winner gives: the winner, and the state in which
    /// it is remembered; where there is no winner the state stays.
    pub open spec fn get_winner_outcome(self, auction_id: u64) -> (
        EngineView,
        Result<WinnerView, ContractError>,
    ) {
        match self.winner_outcome(auction_id) {
            Ok(winner) => (self.with_winner(auction_id, winner), Ok(winner)),
            Err(e) => (self, Err(e)),
        }
    }
}

/// Hands out auction ids: 1, 2, 3 and so on, each once.
#[derive(Debug, PartialEq, Eq)]
pub struct IdAllocator {
    /// The id that was handed out last; 0 before the first.
    pub current_auction_id: u64,
}

impl IdAllocator {
    /// An allocator that has handed out nothing.
    pub fn new() -> (ids: Self)
        ensures
            ids.current_auction_id == 0,
    {
        IdAllocator { current_auction_id: 0 }
    }

    /// The id that was handed out last.
    pub fn current(&self) -> (id: u64)
        ensures
            id == self.current_auction_id,
    {
        self.current_auction_id
    }

    /// Hands out the next id: one more than the last.
    pub fn next_id(&mut self) -> (id: u64)
        requires
            old(self).current_auction_id < u64::MAX,
        ensures
            id == old(self).current_auction_id + 1,
            final(self).current_auction_id == id,
    {
        self.current_auction_id = self.current_auction_id + 1;
        self.current_auction_id
    }
}

/// The engine: what it has handed out, what it holds, who has bid.
#[derive(Debug, PartialEq, Eq)]
pub struct Engine {
    /// The allocator of auction ids.
    pub ids: IdAllocator,
    /// The auctions on record.
    pub auctions: AuctionStore,
    /// The bids on record, by bidder and auction.
    pub bidders_to_bids: BidderIndex,
}

impl View for Engine {
    type V = EngineView;

    open spec fn view(&self) -> EngineView {
        EngineView {
            current_auction_id: self.ids.current_auction_id,
            auctions: self.auctions@,
            bidders_to_bids: self.bidders_to_bids@,
        }
    }
}

impl Engine {
    /// The invariant of the engine, see [`EngineView::wf`].
    pub open spec fn wf(&self) -> bool {
        &&& self.auctions.wf()
        &&& self.bidders_to_bids.wf()
        &&& self@.wf()
    }

    /// An engine that holds nothing and has handed out no id.
    pub fn new() -> (engine: Self)
        ensures
            engine@ == EngineView::initial(),
            engine.wf(),
            engine@.consistent(),
    {
        Engine {
            ids: IdAllocator::new(),
            auctions: AuctionStore::new(),
            bidders_to_bids: BidderIndex::new(),
        }
    }

    /// Whether the record meets the invariant of the engine. A record that
    /// comes from outside is checked with this before it is used.
    pub fn is_well_formed(&self) -> (ok: bool)
        ensures
            ok == self.wf(),
    {
        proof {
            if self.auctions.wf() {
                lemma_store_entries(self.auctions.auctions@);
            }
        }
        self.auctions.is_well_formed() && self.bidders_to_bids.is_well_formed()
    }

    /// The id of the auction that was started last; 0 before the first.
    pub fn get_current_auction_id(&self) -> (id: u64)
        ensures
            id == self@.current_auction_id,
    {
        self.ids.current()
    }

    /// Starts an auction that admits `max_participants` bids and returns its
    /// id, one more than the last. An auction for fewer than two participants
    /// is refused before an id is handed out, and so is one whose id is taken,
    /// which does not happen where the records agree.
    pub fn start_auction(&mut self, name: String, max_participants: u64) -> (r: Result<
        u64,
        ContractError,
    >)
        requires
            old(self).wf(),
            old(self)@.current_auction_id < u64::MAX,
        ensures
            match r {
                Ok(id) => old(self)@.start_auction_outcome(name@, max_participants) == Ok::<
                    EngineView,
                    ContractError,
                >(final(self)@) && id == old(self)@.current_auction_id + 1,
                Err(e) => old(self)@.start_auction_outcome(name@, max_participants) == Err::<
                    EngineView,
                    ContractError,
                >(e) && final(self)@ == old(self)@,
            },
            final(self).wf(),
            old(self)@.consistent() ==> final(self)@.consistent() && (r is Ok <==> max_participants
                >= 2),
    {
        if max_participants < 2 {
            return Err(ContractError::TooFewParticipants);
        }
        let next = self.ids.current() + 1;
        if self.auctions.contains(next) {
            return Err(ContractError::AuctionAlreadyExists { auction_id: next });
        }
        let id = self.ids.next_id();
        let created = self.auctions.create(id, name, max_participants);
        proof {
            lemma_store_entries(self.auctions.auctions@);
            if old(self)@.consistent() {
                theorem_start_auction(old(self)@, name@, max_participants);
            }
        }
        match created {
            Ok(()) => Ok(id),
            Err(e) => Err(e),
        }
    }

    /// Places a bid of `bidder` on auction `auction_id`. An accepted bid is
    /// added to the auction, at its place among the bids, and to the bidder
    /// index; a refused one changes nothing.
    pub fn place_bid(&mut self, bidder: String, auction_id: u64, amount: u128, timestamp: u64) -> (r:
        Result<(), ContractError>)
        requires
            old(self).wf(),
        ensures
            match r {
                Ok(()) => old(self)@.place_bid_outcome(bidder@, auction_id, amount, timestamp)
                    == Ok::<EngineView, ContractError>(final(self)@),
                Err(e) => old(self)@.place_bid_outcome(bidder@, auction_id, amount, timestamp)
                    == Err::<EngineView, ContractError>(e) && final(self)@ == old(self)@,
            },
            final(self).wf(),
            old(self)@.consistent() ==> final(self)@.consistent(),
    {
        let already_bid = self.bidders_to_bids.has_bid(&bidder, auction_id);
        match self.auctions.place_bid(auction_id, already_bid, bidder, amount, timestamp) {
            Ok(bid) => {
                let recorded = self.bidders_to_bids.record(bid);
                proof {
                    lemma_store_entries(self.auctions.auctions@);
                    theorem_place_bid_keeps_invariant(
                        old(self)@,
                        bidder@,
                        auction_id,
                        amount,
                        timestamp,
                    );
                }
                recorded
            },
            Err(e) => Err(e),
        }
    }

    /// Closes auction `auction_id`. An auction can be closed once, with any
    /// number of bids.
    pub fn close_auction(&mut self, auction_id: u64) -> (r: Result<(), ContractError>)
        requires
            old(self).wf(),
        ensures
            match r {
                Ok(()) => old(self)@.close_auction_outcome(auction_id) == Ok::<
                    EngineView,
                    ContractError,
                >(final(self)@),
                Err(e) => old(self)@.close_auction_outcome(auction_id) == Err::<
                    EngineView,
                    ContractError,
                >(e) && final(self)@ == old(self)@,
            },
            final(self).wf(),
            old(self)@.consistent() ==> final(self)@.consistent(),
    {
        let r = self.auctions.close(auction_id);
        proof {
            lemma_store_entries(self.auctions.auctions@);
            if r is Ok {
                theorem_close_keeps_invariant(old(self)@, auction_id);
            }
        }
        r
    }

    /// The winner of auction `auction_id`, which must be closed: the highest
    /// bidder, who owes the amount of the second-highest bid. Nothing is
    /// remembered.
    pub fn winner(&self, auction_id: u64) -> (r: Result<Winner, ContractError>)
        requires
            self.wf(),
        ensures
            match r {
                Ok(winner) => self@.winner_outcome(auction_id) == Ok::<WinnerView, ContractError>(
                    winner@,
                ),
                Err(e) => self@.winner_outcome(auction_id) == Err::<WinnerView, ContractError>(e),
            },
    {
        match self.auctions.get(auction_id) {
            Ok(auction) => auction.determine_winner(),
            Err(e) => Err(e),
        }
    }

    /// The winner of auction `auction_id`, as [`Engine::winner`] gives it,
    /// remembered on the auction so that every later call gives the same.
    pub fn get_winner(&mut self, auction_id: u64) -> (r: Result<Winner, ContractError>)
        requires
            old(self).wf(),
        ensures
            final(self)@ == old(self)@.get_winner_outcome(auction_id).0,
            match r {
                Ok(winner) => old(self)@.get_winner_outcome(auction_id).1 == Ok::<
                    WinnerView,
                    ContractError,
                >(winner@),
                Err(e) => old(self)@.get_winner_outcome(auction_id).1 == Err::<
                    WinnerView,
                    ContractError,
                >(e),
            },
            final(self).wf(),
            old(self)@.consistent() ==> final(self)@.consistent(),
    {
        let r = self.auctions.settle(auction_id);
        proof {
            lemma_store_entries(self.auctions.auctions@);
            theorem_get_winner_keeps_invariant(old(self)@, auction_id);
        }
        r
    }

    /// One page of the bids of auction `auction_id`, ascending by amount: the
    /// bids whose amount is strictly greater than `start_after`, at most
    /// `limit` of them.
    pub fn get_bids_for_auction(
        &self,
        auction_id: u64,
        start_after: Option<u128>,
        limit: Option<u32>,
    ) -> (r: Result<Vec<Bid>, ContractError>)
        requires
            self.wf(),
        ensures
            match r {
                Ok(bids) => self@.auctions.dom().contains(auction_id) && bids_view(bids@)
                    == auction_page(self@.auctions[auction_id].sorted_bids, start_after, limit),
                Err(e) => !self@.auctions.dom().contains(auction_id) && e
                    == (ContractError::AuctionNotFound { auction_id }),
            },
    {
        match self.auctions.get(auction_id) {
            Ok(auction) => Ok(auction.bids_page(start_after, limit)),
            Err(e) => Err(e),
        }
    }

    /// One page of the bids of `bidder`, ascending by auction id: the bids on
    /// auctions whose id is strictly greater than `start_after`, at most
    /// `limit` of them. A bidder without bids gets an empty page.
    pub fn get_bids_for_bidder(
        &self,
        bidder: &String,
        start_after: Option<u128>,
        limit: Option<u32>,
    ) -> (bids: Vec<Bid>)
        ensures
            bids_view(bids@) == bidder_page(self@.bidders_to_bids, bidder@, start_after, limit),
    {
        self.bidders_to_bids.list_for_bidder(bidder, start_after, limit)
    }
}

} // verus!
