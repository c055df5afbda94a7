//! The entry points: each request is matched and handed to the engine.

use crate::engine::{Engine, EngineView, IdAllocator};
use crate::error::ContractError;
use crate::model::{auction_page, bidder_page, WinnerView};
use crate::msg::{
    ExecuteMsg, InstantiateMsg, QueryAuctionWinnerResponse, QueryBidsForBidderResponse,
    QueryCurrentAuctionIdResponse, QueryMsg, QueryResponse,
};
use crate::state::bids_view;
use vstd::prelude::*;

verus! {

/// What a request of `sender` at `time` gives. A bid and a closing go to the
/// auction that was started last.
pub open spec fn execute_outcome(state: EngineView, sender: Seq<char>, time: u64, msg: ExecuteMsg)
    -> Result<EngineView, ContractError> {
    match msg {
        ExecuteMsg::ExecuteStartAuction { name, max_num_participants } => {
            state.start_auction_outcome(name@, max_num_participants)
        },
        ExecuteMsg::ExecuteBid { bid_amount } => {
            state.place_bid_outcome(sender, state.current_auction_id, bid_amount, time)
        },
        ExecuteMsg::ExecuteCloseAuction {  } => {
            state.close_auction_outcome(state.current_auction_id)
        },
    }
}

/// Whether `response` is the answer that `state` owes to `msg`.
pub open spec fn is_answer(state: EngineView, msg: QueryMsg, response: QueryResponse) -> bool {
    match msg {
        QueryMsg::QueryGetAuctionWinner { auction_id } => {
            &&& response matches QueryResponse::AuctionWinner(answer)
            &&& state.winner_outcome(auction_id) == Ok::<WinnerView, ContractError>(answer.winner@)
        },
        QueryMsg::QueryGetBidsForBidder { bidder, start_after, limit } => {
            &&& response matches QueryResponse::BidsForBidder(answer)
            &&& bids_view(answer.bids@) == bidder_page(
                state.bidders_to_bids,
                bidder@,
                start_after,
                limit,
            )
        },
        QueryMsg::QueryGetBidsForAuction { auction_id, start_after, limit } => {
            &&& response matches QueryResponse::BidsForAuction(bids)
            &&& state.auctions.dom().contains(auction_id)
            &&& bids_view(bids@) == auction_page(
                state.auctions[auction_id].sorted_bids,
                start_after,
                limit,
            )
        },
        QueryMsg::QueryGetCurrentAuctionId {  } => {
            &&& response matches QueryResponse::CurrentAuctionId(answer)
            &&& answer.auction_id == state.current_auction_id
        },
    }
}

/// Whether `state` refuses `msg` with `error`.
pub open spec fn is_refusal(state: EngineView, msg: QueryMsg, error: ContractError) -> bool {
    match msg {
        QueryMsg::QueryGetAuctionWinner { auction_id } => state.winner_outcome(auction_id)
            == Err::<WinnerView, ContractError>(error),
        QueryMsg::QueryGetBidsForAuction { auction_id, .. } => !state.auctions.dom().contains(
            auction_id,
        ) && error == (ContractError::AuctionNotFound { auction_id }),
        QueryMsg::QueryGetBidsForBidder { .. } => false,
        QueryMsg::QueryGetCurrentAuctionId {  } => false,
    }
}

/// Sets the engine up: no auction, no bid, and the id 0 as the last one.
pub fn instantiate(msg: InstantiateMsg) -> (engine: Engine)
    ensures
        engine@ == EngineView::initial(),
        engine.wf(),
        engine@.consistent(),
{
    Engine::new()
}

/// Hands a request of `sender`, made at `time`, to the engine. A request that
/// is refused changes nothing.
pub fn execute(engine: &mut Engine, sender: String, time: u64, msg: ExecuteMsg) -> (r: Result<
    (),
    ContractError,
>)
    requires
        old(engine).wf(),
        msg is ExecuteStartAuction ==> old(engine)@.current_auction_id < u64::MAX,
    ensures
        match r {
            Ok(()) => execute_outcome(old(engine)@, sender@, time, msg) == Ok::<
                EngineView,
                ContractError,
            >(final(engine)@),
            Err(e) => execute_outcome(old(engine)@, sender@, time, msg) == Err::<
                EngineView,
                ContractError,
            >(e) && final(engine)@ == old(engine)@,
        },
        final(engine).wf(),
        old(engine)@.consistent() ==> final(engine)@.consistent(),
{
    match msg {
        ExecuteMsg::ExecuteStartAuction { name, max_num_participants } => {
            match engine.start_auction(name, max_num_participants) {
                Ok(_) => Ok(()),
                Err(e) => Err(e),
            }
        },
        ExecuteMsg::ExecuteBid { bid_amount } => {
            let auction_id = engine.get_current_auction_id();
            engine.place_bid(sender, auction_id, bid_amount, time)
        },
        ExecuteMsg::ExecuteCloseAuction {  } => {
            let auction_id = engine.get_current_auction_id();
            engine.close_auction(auction_id)
        },
    }
}

/// Answers a request from the state of the engine, which it leaves as it is.
pub fn query(engine: &Engine, msg: QueryMsg) -> (r: Result<QueryResponse, ContractError>)
    requires
        engine.wf(),
    ensures
        match r {
            Ok(response) => is_answer(engine@, msg, response),
            Err(e) => is_refusal(engine@, msg, e),
        },
{
    match msg {
        QueryMsg::QueryGetAuctionWinner { auction_id } => {
            match engine.winner(auction_id) {
                Ok(winner) => Ok(
                    QueryResponse::AuctionWinner(QueryAuctionWinnerResponse { winner }),
                ),
                Err(e) => Err(e),
            }
        },
        QueryMsg::QueryGetBidsForBidder { bidder, start_after, limit } => {
            let bids = engine.get_bids_for_bidder(&bidder, start_after, limit);
            Ok(QueryResponse::BidsForBidder(QueryBidsForBidderResponse { bids }))
        },
        QueryMsg::QueryGetBidsForAuction { auction_id, start_after, limit } => {
            match engine.get_bids_for_auction(auction_id, start_after, limit) {
                Ok(bids) => Ok(QueryResponse::BidsForAuction(bids)),
                Err(e) => Err(e),
            }
        },
        QueryMsg::QueryGetCurrentAuctionId {  } => {
            let auction_id = engine.get_current_auction_id();
            Ok(QueryResponse::CurrentAuctionId(QueryCurrentAuctionIdResponse { auction_id }))
        },
    }
}

/// Hands out the next auction id and returns it.
pub fn get_and_increment_auction_id(ids: &mut IdAllocator) -> (id: u64)
    requires
        old(ids).current_auction_id < u64::MAX,
    ensures
        id == old(ids).current_auction_id + 1,
        final(ids).current_auction_id == id,
{
    ids.next_id()
}

/// Hands out the next auction id.
pub fn increment_auction_id(ids: &mut IdAllocator)
    requires
        old(ids).current_auction_id < u64::MAX,
    ensures
        final(ids).current_auction_id == old(ids).current_auction_id + 1,
{
    let _ = ids.next_id();
}

} // verus!
