//! What holds of the engine whatever is asked of it, proved over the model.

use crate::engine::EngineView;
use crate::error::ContractError;
use crate::index::lemma_insert_entry;
use crate::model::{
    after_cursor, amount_after, auction_page, bidder_after, bidder_page, entry_point, has_bid_of,
    highest_index, insertion_point, is_insertion_point, lemma_entry_point_exists,
    lemma_insert_sorted, lemma_insertion_point_exists, lemma_insertion_point_is,
    lemma_runner_up_exists, lemma_second_price, one_bid_each, sorted_by_amount,
    sorted_by_auction, AuctionView, BidView, WinnerView,
};
use vstd::prelude::*;

verus! {

// Bids

/// A bid is among the bids with one more put in: it is the one put in, or it
/// was there before.
pub proof fn lemma_insert_contains(bids: Seq<BidView>, p: int, bid: BidView, x: BidView)
    requires
        0 <= p <= bids.len(),
    ensures
        bids.insert(p, bid).contains(x) <==> x == bid || bids.contains(x),
{
    let after = bids.insert(p, bid);
    assert(after[p] == bid);
    if bids.contains(x) {
        let i = choose|i: int| 0 <= i < bids.len() && bids[i] == x;
        if i < p {
            assert(after[i] == x);
        } else {
            assert(after[i + 1] == x);
        }
    }
    if after.contains(x) {
        let i = choose|i: int| 0 <= i < after.len() && after[i] == x;
        if i < p {
            assert(bids[i] == x);
        } else if i > p {
            assert(bids[i - 1] == x);
        }
    }
}

/// An accepted bid keeps the invariant of the engine and the agreement of its
/// records: the bids of the auction still ascend by amount and are no more
/// than the auction admits, and the bidder index still holds each bidder once
/// for each auction. The auction has one bid more, the bidder is in the
/// index, and no auction comes or goes.
pub proof fn theorem_place_bid_keeps_invariant(
    state: EngineView,
    bidder: Seq<char>,
    auction_id: u64,
    amount: u128,
    timestamp: u64,
)
    requires
        state.wf(),
        state.place_bid_outcome(bidder, auction_id, amount, timestamp) is Ok,
    ensures
        ({
            let next = state.place_bid_outcome(bidder, auction_id, amount, timestamp)->Ok_0;
            &&& next.wf()
            &&& state.consistent() ==> next.consistent()
            &&& next.auctions.dom() == state.auctions.dom()
            &&& next.current_auction_id == state.current_auction_id
            &&& sorted_by_amount(next.auctions[auction_id].sorted_bids)
            &&& next.auctions[auction_id].sorted_bids.len()
                == state.auctions[auction_id].sorted_bids.len() + 1
            &&& next.auctions[auction_id].sorted_bids.len()
                <= next.auctions[auction_id].max_participants
            &&& next.auctions[auction_id].in_progress
            &&& has_bid_of(next.bidders_to_bids, bidder, auction_id)
        }),
{
    let bid = EngineView::bid_of(bidder, auction_id, amount, timestamp);
    let next = state.place_bid_outcome(bidder, auction_id, amount, timestamp)->Ok_0;
    let old_bids = state.auctions[auction_id].sorted_bids;
    let p = insertion_point(old_bids, amount);
    let q = entry_point(state.bidders_to_bids, auction_id);
    assert(state.auctions.dom().contains(auction_id));
    lemma_insertion_point_exists(old_bids, amount);
    lemma_insert_sorted(old_bids, bid);
    lemma_entry_point_exists(state.bidders_to_bids, auction_id);
    lemma_insert_entry(state.bidders_to_bids, bid);
    assert(next.auctions.dom() =~= state.auctions.dom());
    assert forall|id: u64| #[trigger] next.auctions.dom().contains(id) implies {
        &&& next.auctions[id].id == id
        &&& next.auctions[id].wf()
    } by {
        assert(state.auctions.dom().contains(id));
    }
    if state.consistent() {
        assert(next.ids_handed_out()) by {
            assert forall|id: u64| #[trigger] next.auctions.dom().contains(id) implies 1 <= id
                <= next.current_auction_id by {
                assert(state.auctions.dom().contains(id));
            }
        }
        assert(next.bids_are_indexed()) by {
            assert forall|id: u64, i: int|
                next.auctions.dom().contains(id) && 0 <= i
                    < next.auctions[id].sorted_bids.len() implies {
                &&& (#[trigger] next.auctions[id].sorted_bids[i]).auction_id == id
                &&& next.bidders_to_bids.contains(next.auctions[id].sorted_bids[i])
            } by {
                assert(state.auctions.dom().contains(id));
                let x = next.auctions[id].sorted_bids[i];
                lemma_insert_contains(state.bidders_to_bids, q, bid, x);
                if id != auction_id {
                    assert(x == state.auctions[id].sorted_bids[i]);
                } else if i < p {
                    assert(x == old_bids[i]);
                } else if i > p {
                    assert(x == old_bids[i - 1]);
                }
            }
        }
        assert(next.index_is_backed()) by {
            assert forall|k: int| 0 <= k < next.bidders_to_bids.len() implies {
                &&& next.auctions.dom().contains((#[trigger] next.bidders_to_bids[k]).auction_id)
                &&& next.auctions[next.bidders_to_bids[k].auction_id].sorted_bids.contains(
                    next.bidders_to_bids[k],
                )
            } by {
                let y = next.bidders_to_bids[k];
                lemma_insert_contains(old_bids, p, bid, y);
                if k < q {
                    assert(y == state.bidders_to_bids[k]);
                } else if k > q {
                    assert(y == state.bidders_to_bids[k - 1]);
                }
            }
        }
    }
}

/// One request to place a bid.
pub struct BidRequest {
    pub bidder: Seq<char>,
    pub auction_id: u64,
    pub amount: u128,
    pub timestamp: u64,
}

/// The state after one request to place a bid: a refused request leaves the
/// state as it was.
pub open spec fn after_bid(state: EngineView, request: BidRequest) -> EngineView {
    match state.place_bid_outcome(
        request.bidder,
        request.auction_id,
        request.amount,
        request.timestamp,
    ) {
        Ok(next) => next,
        Err(_) => state,
    }
}

/// The state after a sequence of requests to place a bid, one after the
/// other.
pub open spec fn after_bids(state: EngineView, requests: Seq<BidRequest>) -> EngineView
    decreases requests.len(),
{
    if requests.len() == 0 {
        state
    } else {
        after_bid(after_bids(state, requests.drop_last()), requests.last())
    }
}

/// Whatever bids are asked for, one after the other, the invariant of the
/// engine holds after each: the bids of every auction ascend by amount and
/// are no more than the auction admits.
pub proof fn theorem_bids_stay_sorted(state: EngineView, requests: Seq<BidRequest>)
    requires
        state.wf(),
    ensures
        after_bids(state, requests).wf(),
        state.consistent() ==> after_bids(state, requests).consistent(),
        forall|id: u64| #[trigger]
            after_bids(state, requests).auctions.dom().contains(id) ==> {
                let auction = after_bids(state, requests).auctions[id];
                &&& sorted_by_amount(auction.sorted_bids)
                &&& auction.sorted_bids.len() <= auction.max_participants
            },
    decreases requests.len(),
{
    if requests.len() > 0 {
        theorem_bids_stay_sorted(state, requests.drop_last());
        let before = after_bids(state, requests.drop_last());
        let request = requests.last();
        if before.place_bid_outcome(
            request.bidder,
            request.auction_id,
            request.amount,
            request.timestamp,
        ) is Ok {
            theorem_place_bid_keeps_invariant(
                before,
                request.bidder,
                request.auction_id,
                request.amount,
                request.timestamp,
            );
        }
    }
}

/// A bidder bids once on an auction: after an accepted bid, the next bid of
/// the same bidder on the same auction is refused as a duplicate, whatever
/// its amount.
pub proof fn theorem_second_bid_is_duplicate(
    state: EngineView,
    bidder: Seq<char>,
    auction_id: u64,
    amount: u128,
    timestamp: u64,
    second_amount: u128,
    second_timestamp: u64,
)
    requires
        state.wf(),
        state.place_bid_outcome(bidder, auction_id, amount, timestamp) is Ok,
    ensures
        state.place_bid_outcome(bidder, auction_id, amount, timestamp)->Ok_0.place_bid_outcome(
            bidder,
            auction_id,
            second_amount,
            second_timestamp,
        ) == Err::<EngineView, ContractError>(ContractError::DuplicateBid),
{
    theorem_place_bid_keeps_invariant(state, bidder, auction_id, amount, timestamp);
}

/// An auction that holds as many bids as it admits refuses the next: a
/// positive bid of a bidder who has none on it is refused for want of room.
pub proof fn theorem_full_auction_refuses(
    state: EngineView,
    bidder: Seq<char>,
    auction_id: u64,
    amount: u128,
    timestamp: u64,
)
    requires
        state.auctions.dom().contains(auction_id),
        state.auctions[auction_id].in_progress,
        state.auctions[auction_id].sorted_bids.len()
            == state.auctions[auction_id].max_participants,
        !has_bid_of(state.bidders_to_bids, bidder, auction_id),
        amount > 0,
    ensures
        state.place_bid_outcome(bidder, auction_id, amount, timestamp) == Err::<
            EngineView,
            ContractError,
        >(
            ContractError::CapacityExceeded {
                max_participants: state.auctions[auction_id].max_participants,
            },
        ),
{
}

// Closing and winners

/// A state that differs from one whose records agree only in what its
/// auctions hold beside their bids has records that agree.
pub proof fn lemma_same_bids_stay_consistent(state: EngineView, next: EngineView)
    requires
        state.consistent(),
        next.current_auction_id == state.current_auction_id,
        next.bidders_to_bids == state.bidders_to_bids,
        next.auctions.dom() == state.auctions.dom(),
        forall|id: u64| #[trigger]
            state.auctions.dom().contains(id) ==> next.auctions[id].sorted_bids
                == state.auctions[id].sorted_bids,
    ensures
        next.consistent(),
{
    assert(next.ids_handed_out()) by {
        assert forall|id: u64| #[trigger] next.auctions.dom().contains(id) implies 1 <= id
            <= next.current_auction_id by {
            assert(state.auctions.dom().contains(id));
        }
    }
    assert(next.bids_are_indexed()) by {
        assert forall|id: u64, i: int|
            next.auctions.dom().contains(id) && 0 <= i
                < next.auctions[id].sorted_bids.len() implies {
            &&& (#[trigger] next.auctions[id].sorted_bids[i]).auction_id == id
            &&& next.bidders_to_bids.contains(next.auctions[id].sorted_bids[i])
        } by {
            assert(state.auctions.dom().contains(id));
            assert(next.auctions[id].sorted_bids[i] == state.auctions[id].sorted_bids[i]);
        }
    }
    assert(next.index_is_backed()) by {
        assert forall|k: int| 0 <= k < next.bidders_to_bids.len() implies {
            &&& next.auctions.dom().contains((#[trigger] next.bidders_to_bids[k]).auction_id)
            &&& next.auctions[next.bidders_to_bids[k].auction_id].sorted_bids.contains(
                next.bidders_to_bids[k],
            )
        } by {
            assert(state.auctions.dom().contains(state.bidders_to_bids[k].auction_id));
        }
    }
}

/// An auction is closed once: after an accepted closing the next is refused.
pub proof fn theorem_close_twice_fails(state: EngineView, auction_id: u64)
    requires
        state.close_auction_outcome(auction_id) is Ok,
    ensures
        state.close_auction_outcome(auction_id)->Ok_0.close_auction_outcome(auction_id) == Err::<
            EngineView,
            ContractError,
        >(ContractError::AuctionAlreadyClosed),
{
}

/// Closing keeps the invariant of the engine and the agreement of its
/// records, and touches neither the bids nor the bidder index.
pub proof fn theorem_close_keeps_invariant(state: EngineView, auction_id: u64)
    requires
        state.wf(),
        state.close_auction_outcome(auction_id) is Ok,
    ensures
        ({
            let next = state.close_auction_outcome(auction_id)->Ok_0;
            &&& next.wf()
            &&& state.consistent() ==> next.consistent()
            &&& next.auctions.dom() == state.auctions.dom()
            &&& next.auctions[auction_id].sorted_bids == state.auctions[auction_id].sorted_bids
            &&& !next.auctions[auction_id].in_progress
            &&& next.bidders_to_bids == state.bidders_to_bids
            &&& next.current_auction_id == state.current_auction_id
        }),
{
    let next = state.close_auction_outcome(auction_id)->Ok_0;
    assert(state.auctions.dom().contains(auction_id));
    assert(next.auctions.dom() =~= state.auctions.dom());
    assert forall|id: u64| #[trigger] next.auctions.dom().contains(id) implies {
        &&& next.auctions[id].id == id
        &&& next.auctions[id].wf()
    } by {
        assert(state.auctions.dom().contains(id));
    }
    if state.consistent() {
        lemma_same_bids_stay_consistent(state, next);
    }
}

/// An auction that is in progress has no winner yet, and asking for one
/// changes nothing.
pub proof fn theorem_no_winner_before_close(state: EngineView, auction_id: u64)
    requires
        state.auctions.dom().contains(auction_id),
        state.auctions[auction_id].in_progress,
    ensures
        state.winner_outcome(auction_id) == Err::<WinnerView, ContractError>(
            ContractError::AuctionInProgress,
        ),
        state.get_winner_outcome(auction_id).0 == state,
{
}

/// Asking for the winner twice gives the same answer twice, and the second
/// asking changes nothing.
pub proof fn theorem_get_winner_idempotent(state: EngineView, auction_id: u64)
    ensures
        state.get_winner_outcome(auction_id).0.get_winner_outcome(auction_id)
            == state.get_winner_outcome(auction_id),
{
    let (next, answer) = state.get_winner_outcome(auction_id);
    if answer is Ok {
        let winner = answer->Ok_0;
        assert(next.winner_outcome(auction_id) == Ok::<WinnerView, ContractError>(winner));
        assert(next.with_winner(auction_id, winner).auctions =~= next.auctions);
    }
}

/// Remembering the winner keeps the invariant of the engine and the agreement
/// of its records.
pub proof fn theorem_get_winner_keeps_invariant(state: EngineView, auction_id: u64)
    requires
        state.wf(),
    ensures
        state.get_winner_outcome(auction_id).0.wf(),
        state.consistent() ==> state.get_winner_outcome(auction_id).0.consistent(),
{
    let next = state.get_winner_outcome(auction_id).0;
    if state.winner_outcome(auction_id) is Ok {
        assert(state.auctions.dom().contains(auction_id));
        assert(next.auctions.dom() =~= state.auctions.dom());
        assert forall|id: u64| #[trigger] next.auctions.dom().contains(id) implies {
            &&& next.auctions[id].id == id
            &&& next.auctions[id].wf()
        } by {
            assert(state.auctions.dom().contains(id));
        }
        if state.consistent() {
            lemma_same_bids_stay_consistent(state, next);
        }
    }
}

/// The second-price rule: in a closed auction with two bids or more that
/// remembers no winner, the winner is the bidder of a bid with the highest
/// amount and owes the amount of the bid next below, which is never more
/// than the winning amount.
pub proof fn theorem_winner_pays_second_price(state: EngineView, auction_id: u64)
    requires
        state.wf(),
        state.auctions.dom().contains(auction_id),
        !state.auctions[auction_id].in_progress,
        state.auctions[auction_id].winner is None,
        state.auctions[auction_id].sorted_bids.len() >= 2,
    ensures
        state.winner_outcome(auction_id) is Ok,
        ({
            let bids = state.auctions[auction_id].sorted_bids;
            let winner = state.winner_outcome(auction_id)->Ok_0;
            &&& winner.auction_id == auction_id
            &&& winner.amount_owed == bids[bids.len() - 2].amount
            &&& winner.amount_owed <= bids[bids.len() - 1].amount
            &&& exists|h: int|
                0 <= h < bids.len() && bids[h].bidder == winner.bidder && bids[h].amount
                    == bids[bids.len() - 1].amount
        }),
{
    let bids = state.auctions[auction_id].sorted_bids;
    let winner = state.winner_outcome(auction_id)->Ok_0;
    lemma_second_price(bids);
    lemma_runner_up_exists(bids);
    let h = highest_index(bids);
    assert(0 <= h < bids.len() && bids[h].bidder == winner.bidder);
}

// Starting

/// An auction for fewer than two participants is never started: the request
/// is refused whatever the state, so that no auction is put on record and no
/// id is handed out.
pub proof fn theorem_too_few_participants(
    state: EngineView,
    name: Seq<char>,
    max_participants: u64,
)
    requires
        max_participants < 2,
    ensures
        state.start_auction_outcome(name, max_participants) == Err::<EngineView, ContractError>(
            ContractError::TooFewParticipants,
        ),
{
}

/// An auction for two participants or more is always started, under the id
/// that follows the last one; it is in progress and has no bids, and every
/// other auction stays as it was.
pub proof fn theorem_start_auction(state: EngineView, name: Seq<char>, max_participants: u64)
    requires
        state.wf(),
        state.consistent(),
        state.current_auction_id < u64::MAX,
        max_participants >= 2,
    ensures
        state.start_auction_outcome(name, max_participants) is Ok,
        ({
            let next = state.start_auction_outcome(name, max_participants)->Ok_0;
            let id = (state.current_auction_id + 1) as u64;
            &&& next.wf()
            &&& next.consistent()
            &&& next.current_auction_id == id
            &&& !state.auctions.dom().contains(id)
            &&& next.auctions.dom() == state.auctions.dom().insert(id)
            &&& next.auctions[id] == AuctionView::fresh(id, max_participants, name)
            &&& forall|other: u64| #[trigger]
                state.auctions.dom().contains(other) ==> next.auctions[other]
                    == state.auctions[other]
            &&& next.bidders_to_bids == state.bidders_to_bids
        }),
{
    let id = state.next_id();
    if state.auctions.dom().contains(id) {
        assert(id <= state.current_auction_id);
    }
    let next = state.start_auction_outcome(name, max_participants)->Ok_0;
    assert forall|other: u64| #[trigger] next.auctions.dom().contains(other) implies {
        &&& next.auctions[other].id == other
        &&& next.auctions[other].wf()
        &&& 1 <= other <= next.current_auction_id
    } by {
        if other != id {
            assert(state.auctions.dom().contains(other));
        }
    }
    assert(next.bids_are_indexed()) by {
        assert forall|other: u64, i: int|
            next.auctions.dom().contains(other) && 0 <= i
                < next.auctions[other].sorted_bids.len() implies {
            &&& (#[trigger] next.auctions[other].sorted_bids[i]).auction_id == other
            &&& next.bidders_to_bids.contains(next.auctions[other].sorted_bids[i])
        } by {
            assert(state.auctions.dom().contains(other));
            assert(next.auctions[other].sorted_bids[i] == state.auctions[other].sorted_bids[i]);
        }
    }
    assert(next.index_is_backed()) by {
        assert forall|k: int| 0 <= k < next.bidders_to_bids.len() implies {
            &&& next.auctions.dom().contains((#[trigger] next.bidders_to_bids[k]).auction_id)
            &&& next.auctions[next.bidders_to_bids[k].auction_id].sorted_bids.contains(
                next.bidders_to_bids[k],
            )
        } by {
            assert(state.auctions.dom().contains(state.bidders_to_bids[k].auction_id));
        }
    }
}

// Every request

/// A request that changes the state of the engine.
pub enum Request {
    /// Start an auction.
    Start { name: Seq<char>, max_participants: u64 },
    /// Place a bid.
    Bid { bid: BidRequest },
    /// Close an auction.
    Close { auction_id: u64 },
    /// Ask for the winner, who is then remembered.
    GetWinner { auction_id: u64 },
}

/// The state after one request: a refused request leaves the state as it
/// was, and no auction is started once the ids are used up.
pub open spec fn after(state: EngineView, request: Request) -> EngineView {
    match request {
        Request::Start { name, max_participants } => match state.start_auction_outcome(
            name,
            max_participants,
        ) {
            Ok(next) => if state.current_auction_id < u64::MAX {
                next
            } else {
                state
            },
            Err(_) => state,
        },
        Request::Bid { bid } => after_bid(state, bid),
        Request::Close { auction_id } => match state.close_auction_outcome(auction_id) {
            Ok(next) => next,
            Err(_) => state,
        },
        Request::GetWinner { auction_id } => state.get_winner_outcome(auction_id).0,
    }
}

/// The state after a sequence of requests, one after the other.
pub open spec fn after_all(state: EngineView, requests: Seq<Request>) -> EngineView
    decreases requests.len(),
{
    if requests.len() == 0 {
        state
    } else {
        after(after_all(state, requests.drop_last()), requests.last())
    }
}

/// What time can do to an auction: it keeps its id, its name and its
/// capacity; once closed it stays closed and has the bids that it had; its
/// bids stay among its bids; a winner that it remembers stays its winner.
pub open spec fn auction_moves_forward(before: AuctionView, after: AuctionView) -> bool {
    &&& after.id == before.id
    &&& after.name == before.name
    &&& after.max_participants == before.max_participants
    &&& !before.in_progress ==> !after.in_progress && after.sorted_bids == before.sorted_bids
    &&& before.sorted_bids.len() <= after.sorted_bids.len()
    &&& forall|i: int|
        0 <= i < before.sorted_bids.len() ==> after.sorted_bids.contains(
            #[trigger] before.sorted_bids[i],
        )
    &&& before.winner is Some ==> after.winner == before.winner
}

/// What time can do to the engine: no id is taken back, and every auction on
/// record stays on record and moves forward.
pub open spec fn moves_forward(state: EngineView, next: EngineView) -> bool {
    &&& state.current_auction_id <= next.current_auction_id
    &&& forall|id: u64| #[trigger]
        state.auctions.dom().contains(id) ==> next.auctions.dom().contains(id)
            && auction_moves_forward(state.auctions[id], next.auctions[id])
}

/// An auction that keeps its bids, is not reopened and is not given another
/// winner has moved forward.
proof fn lemma_auction_moves_forward_same_bids(before: AuctionView, after: AuctionView)
    requires
        after.id == before.id,
        after.name == before.name,
        after.max_participants == before.max_participants,
        after.sorted_bids == before.sorted_bids,
        !before.in_progress ==> !after.in_progress,
        before.winner is Some ==> after.winner == before.winner,
    ensures
        auction_moves_forward(before, after),
{
    assert forall|i: int| 0 <= i < before.sorted_bids.len() implies after.sorted_bids.contains(
        #[trigger] before.sorted_bids[i],
    ) by {
        assert(after.sorted_bids[i] == before.sorted_bids[i]);
    }
}

/// Moving forward twice is moving forward.
proof fn lemma_moves_forward_twice(first: EngineView, second: EngineView, third: EngineView)
    requires
        moves_forward(first, second),
        moves_forward(second, third),
    ensures
        moves_forward(first, third),
{
    assert forall|id: u64| #[trigger] first.auctions.dom().contains(id) implies {
        &&& third.auctions.dom().contains(id)
        &&& auction_moves_forward(first.auctions[id], third.auctions[id])
    } by {
        let a = first.auctions[id];
        let b = second.auctions[id];
        let c = third.auctions[id];
        assert(second.auctions.dom().contains(id));
        assert(auction_moves_forward(a, b) && auction_moves_forward(b, c));
        assert forall|i: int| 0 <= i < a.sorted_bids.len() implies c.sorted_bids.contains(
            #[trigger] a.sorted_bids[i],
        ) by {
            assert(b.sorted_bids.contains(a.sorted_bids[i]));
            let j = choose|j: int| 0 <= j < b.sorted_bids.len() && b.sorted_bids[j]
                == a.sorted_bids[i];
            assert(c.sorted_bids.contains(b.sorted_bids[j]));
        }
    }
}

/// Every request keeps the invariant of the engine and the agreement of its
/// records, and moves the state forward: no auction is reopened, no bid is
/// taken away, no remembered winner is replaced, no id is handed out twice.
pub proof fn theorem_request_keeps_invariant(state: EngineView, request: Request)
    requires
        state.wf(),
    ensures
        after(state, request).wf(),
        state.consistent() ==> after(state, request).consistent(),
        moves_forward(state, after(state, request)),
{
    let next = after(state, request);
    match request {
        Request::Start { name, max_participants } => {
            if next != state {
                let id = state.next_id();
                assert forall|other: u64| #[trigger] next.auctions.dom().contains(other) implies {
                    &&& next.auctions[other].id == other
                    &&& next.auctions[other].wf()
                } by {
                    if other != id {
                        assert(state.auctions.dom().contains(other));
                    }
                }
                if state.consistent() {
                    theorem_start_auction(state, name, max_participants);
                }
            }
        },
        Request::Bid { bid } => {
            if next != state {
                theorem_place_bid_keeps_invariant(
                    state,
                    bid.bidder,
                    bid.auction_id,
                    bid.amount,
                    bid.timestamp,
                );
                let old_bids = state.auctions[bid.auction_id].sorted_bids;
                let entry = EngineView::bid_of(
                    bid.bidder,
                    bid.auction_id,
                    bid.amount,
                    bid.timestamp,
                );
                lemma_insertion_point_exists(old_bids, bid.amount);
                let new_bids = next.auctions[bid.auction_id].sorted_bids;
                let p = insertion_point(old_bids, bid.amount);
                assert forall|i: int| 0 <= i < old_bids.len() implies new_bids.contains(
                    #[trigger] old_bids[i],
                ) by {
                    lemma_insert_contains(old_bids, p, entry, old_bids[i]);
                }
            }
        },
        Request::Close { auction_id } => {
            if next != state {
                theorem_close_keeps_invariant(state, auction_id);
            }
        },
        Request::GetWinner { auction_id } => {
            theorem_get_winner_keeps_invariant(state, auction_id);
        },
    }
    assert forall|id: u64| #[trigger] state.auctions.dom().contains(id) implies {
        &&& next.auctions.dom().contains(id)
        &&& auction_moves_forward(state.auctions[id], next.auctions[id])
    } by {
        if next.auctions[id].sorted_bids == state.auctions[id].sorted_bids {
            lemma_auction_moves_forward_same_bids(state.auctions[id], next.auctions[id]);
        }
    }
}

/// Whatever is asked of the engine, in whatever order, its invariant and the
/// agreement of its records hold after each request, and the state has moved
/// forward: an auction that was closed is closed, has the bids that it had
/// and the winner that it remembered.
pub proof fn theorem_requests_keep_invariant(state: EngineView, requests: Seq<Request>)
    requires
        state.wf(),
    ensures
        after_all(state, requests).wf(),
        state.consistent() ==> after_all(state, requests).consistent(),
        moves_forward(state, after_all(state, requests)),
    decreases requests.len(),
{
    if requests.len() == 0 {
        assert forall|id: u64| #[trigger] state.auctions.dom().contains(id) implies {
            auction_moves_forward(state.auctions[id], state.auctions[id])
        } by {
            lemma_auction_moves_forward_same_bids(state.auctions[id], state.auctions[id]);
        }
    } else {
        theorem_requests_keep_invariant(state, requests.drop_last());
        let before = after_all(state, requests.drop_last());
        theorem_request_keeps_invariant(before, requests.last());
        lemma_moves_forward_twice(state, before, after_all(state, requests));
    }
}

// Listings

/// A selection keeps the order of the bids: each selected bid is one of the
/// bids and meets the condition, and of two selected bids the one that comes
/// first came first. No bid that meets the condition is left out.
pub proof fn lemma_filter_keeps_order(bids: Seq<BidView>, pred: spec_fn(BidView) -> bool)
    ensures
        bids.filter(pred).len() <= bids.len(),
        forall|i: int|
            0 <= i < bids.filter(pred).len() ==> pred(#[trigger] bids.filter(pred)[i]),
        forall|i: int|
            0 <= i < bids.filter(pred).len() ==> exists|a: int|
                0 <= a < bids.len() && bids[a] == #[trigger] bids.filter(pred)[i],
        forall|i: int, j: int|
            0 <= i < j < bids.filter(pred).len() ==> exists|a: int, b: int|
                0 <= a < b < bids.len() && bids[a] == #[trigger] bids.filter(pred)[i] && bids[b]
                    == #[trigger] bids.filter(pred)[j],
        forall|a: int|
            0 <= a < bids.len() && pred(bids[a]) ==> bids.filter(pred).contains(#[trigger] bids[a]),
    decreases bids.len(),
{
    reveal(Seq::filter);
    let chosen = bids.filter(pred);
    if bids.len() > 0 {
        let front = bids.drop_last();
        let last = bids.len() - 1;
        lemma_filter_keeps_order(front, pred);
        let before = front.filter(pred);
        assert forall|i: int| 0 <= i < chosen.len() implies pred(#[trigger] chosen[i]) by {
            if i < before.len() {
                assert(chosen[i] == before[i]);
            }
        }
        assert forall|i: int| 0 <= i < chosen.len() implies exists|a: int|
            0 <= a < bids.len() && bids[a] == #[trigger] chosen[i] by {
            if i < before.len() {
                assert(chosen[i] == before[i]);
                let a = choose|a: int| 0 <= a < front.len() && front[a] == before[i];
                assert(bids[a] == chosen[i]);
            } else {
                assert(bids[last] == chosen[i]);
            }
        }
        assert forall|i: int, j: int| 0 <= i < j < chosen.len() implies exists|a: int, b: int|
            0 <= a < b < bids.len() && bids[a] == #[trigger] chosen[i] && bids[b]
                == #[trigger] chosen[j] by {
            assert(chosen[i] == before[i]);
            if j < before.len() {
                assert(chosen[j] == before[j]);
                let (a, b) = choose|a: int, b: int|
                    0 <= a < b < front.len() && front[a] == before[i] && front[b] == before[j];
                assert(bids[a] == chosen[i] && bids[b] == chosen[j]);
            } else {
                let a = choose|a: int| 0 <= a < front.len() && front[a] == before[i];
                assert(bids[a] == chosen[i] && bids[last] == chosen[j]);
            }
        }
        assert forall|a: int| 0 <= a < bids.len() && pred(bids[a]) implies chosen.contains(
            #[trigger] bids[a],
        ) by {
            if a < last {
                assert(front[a] == bids[a]);
                assert(before.contains(front[a]));
                let i = choose|i: int| 0 <= i < before.len() && before[i] == front[a];
                assert(chosen[i] == bids[a]);
            } else {
                assert(chosen[chosen.len() - 1] == bids[a]);
            }
        }
    }
}

/// A page of the bids of an auction ascends by amount, holds only bids of the
/// auction whose amount lies behind the cursor, and holds no more than the
/// limit.
pub proof fn theorem_auction_page_ascends(
    bids: Seq<BidView>,
    start_after: Option<u128>,
    limit: Option<u32>,
)
    requires
        sorted_by_amount(bids),
    ensures
        sorted_by_amount(auction_page(bids, start_after, limit)),
        limit matches Some(n) ==> auction_page(bids, start_after, limit).len() <= n,
        forall|i: int|
            0 <= i < auction_page(bids, start_after, limit).len() ==> {
                let shown = #[trigger] auction_page(bids, start_after, limit)[i];
                &&& bids.contains(shown)
                &&& after_cursor(shown.amount, start_after)
            },
{
    let pred = amount_after(start_after);
    let chosen = bids.filter(pred);
    let shown = auction_page(bids, start_after, limit);
    lemma_filter_keeps_order(bids, pred);
    assert forall|i: int, j: int| 0 <= i <= j < shown.len() implies shown[i].amount
        <= shown[j].amount by {
        assert(shown[i] == chosen[i] && shown[j] == chosen[j]);
        if i < j {
            let (a, b) = choose|a: int, b: int|
                0 <= a < b < bids.len() && bids[a] == chosen[i] && bids[b] == chosen[j];
            assert(bids[a].amount <= bids[b].amount);
        }
    }
    assert forall|i: int| 0 <= i < shown.len() implies bids.contains(#[trigger] shown[i])
        && after_cursor(shown[i].amount, start_after) by {
        assert(shown[i] == chosen[i]);
        assert(pred(chosen[i]));
        let a = choose|a: int| 0 <= a < bids.len() && bids[a] == chosen[i];
        assert(bids[a] == shown[i]);
    }
}

/// Among bids that ascend by amount, those behind a cursor are the bids from
/// the place of the cursor on, so that a listing resumes where the last one
/// ended; without a cursor they are all the bids.
pub proof fn theorem_auction_page_resumes(bids: Seq<BidView>, cursor: u128)
    requires
        sorted_by_amount(bids),
    ensures
        bids.filter(amount_after(Some(cursor))) == bids.skip(insertion_point(bids, cursor)),
        bids.filter(amount_after(None)) == bids,
    decreases bids.len(),
{
    reveal(Seq::filter);
    lemma_insertion_point_exists(bids, cursor);
    let p = insertion_point(bids, cursor);
    if bids.len() == 0 {
        assert(bids.skip(p) =~= bids);
    } else {
        let front = bids.drop_last();
        let last = bids.len() - 1;
        assert(sorted_by_amount(front)) by {
            assert forall|i: int, j: int| 0 <= i <= j < front.len() implies front[i].amount
                <= front[j].amount by {
                assert(front[i] == bids[i] && front[j] == bids[j]);
            }
        }
        theorem_auction_page_resumes(front, cursor);
        lemma_insertion_point_exists(front, cursor);
        let q = insertion_point(front, cursor);
        assert(front.filter(amount_after(None)).push(bids[last]) =~= bids);
        if bids[last].amount > cursor {
            assert(is_insertion_point(bids, cursor, q)) by {
                assert forall|i: int| 0 <= i < q implies bids[i].amount <= cursor by {
                    assert(front[i] == bids[i]);
                }
                assert forall|i: int| q <= i < bids.len() implies bids[i].amount > cursor by {
                    if i < last {
                        assert(front[i] == bids[i]);
                    }
                }
            }
            lemma_insertion_point_is(bids, cursor, q);
            assert(front.skip(q).push(bids[last]) =~= bids.skip(p));
        } else {
            assert(is_insertion_point(bids, cursor, bids.len() as int));
            lemma_insertion_point_is(bids, cursor, bids.len() as int);
            assert(is_insertion_point(front, cursor, front.len() as int)) by {
                assert forall|i: int| 0 <= i < front.len() implies front[i].amount <= cursor by {
                    assert(front[i] == bids[i]);
                    assert(bids[i].amount <= bids[last].amount);
                }
            }
            lemma_insertion_point_is(front, cursor, front.len() as int);
            assert(front.skip(q) =~= bids.skip(p));
        }
    }
}

/// A page of the bids of a bidder holds only bids of that bidder on auctions
/// whose id lies behind the cursor, one for each auction, ascending by
/// auction id, and no more than the limit.
pub proof fn theorem_bidder_page_ascends(
    bids: Seq<BidView>,
    bidder: Seq<char>,
    start_after: Option<u128>,
    limit: Option<u32>,
)
    requires
        sorted_by_auction(bids),
        one_bid_each(bids),
    ensures
        limit matches Some(n) ==> bidder_page(bids, bidder, start_after, limit).len() <= n,
        forall|i: int|
            0 <= i < bidder_page(bids, bidder, start_after, limit).len() ==> {
                let shown = #[trigger] bidder_page(bids, bidder, start_after, limit)[i];
                &&& bids.contains(shown)
                &&& shown.bidder == bidder
                &&& after_cursor(shown.auction_id as u128, start_after)
            },
        forall|i: int, j: int|
            0 <= i < j < bidder_page(bids, bidder, start_after, limit).len() ==> (
            #[trigger] bidder_page(bids, bidder, start_after, limit)[i]).auction_id < (
            #[trigger] bidder_page(bids, bidder, start_after, limit)[j]).auction_id,
{
    let pred = bidder_after(bidder, start_after);
    let chosen = bids.filter(pred);
    let shown = bidder_page(bids, bidder, start_after, limit);
    lemma_filter_keeps_order(bids, pred);
    assert forall|i: int| 0 <= i < shown.len() implies bids.contains(#[trigger] shown[i])
        && shown[i].bidder == bidder && after_cursor(shown[i].auction_id as u128, start_after) by {
        assert(shown[i] == chosen[i]);
        assert(pred(chosen[i]));
        let a = choose|a: int| 0 <= a < bids.len() && bids[a] == chosen[i];
        assert(bids[a] == shown[i]);
    }
    assert forall|i: int, j: int| 0 <= i < j < shown.len() implies (#[trigger] shown[i]).auction_id
        < (#[trigger] shown[j]).auction_id by {
        assert(shown[i] == chosen[i] && shown[j] == chosen[j]);
        assert(pred(chosen[i]) && pred(chosen[j]));
        let (a, b) = choose|a: int, b: int|
            0 <= a < b < bids.len() && bids[a] == chosen[i] && bids[b] == chosen[j];
        assert(bids[a].auction_id <= bids[b].auction_id);
        assert(!(bids[a].bidder == bids[b].bidder && bids[a].auction_id == bids[b].auction_id));
    }
}

/// A bidder without bids gets an empty page, whatever the cursor and the
/// limit.
pub proof fn theorem_no_bids_empty_page(
    bids: Seq<BidView>,
    bidder: Seq<char>,
    start_after: Option<u128>,
    limit: Option<u32>,
)
    requires
        forall|i: int| 0 <= i < bids.len() ==> (#[trigger] bids[i]).bidder != bidder,
    ensures
        bidder_page(bids, bidder, start_after, limit) == Seq::<BidView>::empty(),
{
    let pred = bidder_after(bidder, start_after);
    let chosen = bids.filter(pred);
    lemma_filter_keeps_order(bids, pred);
    if chosen.len() > 0 {
        assert(pred(chosen[0]));
        let a = choose|a: int| 0 <= a < bids.len() && bids[a] == chosen[0];
        assert(bids[a].bidder != bidder);
    }
    assert(bidder_page(bids, bidder, start_after, limit) =~= Seq::<BidView>::empty());
}

} // verus!
