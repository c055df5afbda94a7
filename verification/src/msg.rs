//! The requests that the engine takes and the answers that it gives.

use crate::state::{Bid, Winner};
use vstd::prelude::*;

verus! {

/// The request that sets the engine up. It carries nothing.
#[derive(Debug, PartialEq, Eq)]
pub struct InstantiateMsg {}

/// A request that changes the state of the engine.
#[derive(Debug, PartialEq, Eq)]
pub enum ExecuteMsg {
    /// Starts an auction.
    ExecuteStartAuction {
        /// The name of the auction.
        name: String,
        /// The number of participants that the auction admits. Each
        /// participant bids once.
        max_num_participants: u64,
    },
    /// Places a bid of the sender on the auction that was started last.
    ExecuteBid {
        /// The amount offered.
        bid_amount: u128,
    },
    /// Closes the auction that was started last.
    ExecuteCloseAuction {},
}

/// A request that reads the state of the engine.
#[derive(Debug, PartialEq, Eq)]
pub enum QueryMsg {
    /// Asks for the winner of a closed auction.
    QueryGetAuctionWinner { auction_id: u64 },
    /// Asks for one page of the bids of a bidder, ascending by auction id.
    QueryGetBidsForBidder { bidder: String, start_after: Option<u128>, limit: Option<u32> },
    /// Asks for one page of the bids of an auction, ascending by amount.
    QueryGetBidsForAuction { auction_id: u64, start_after: Option<u128>, limit: Option<u32> },
    /// Asks for the id of the auction that was started last.
    QueryGetCurrentAuctionId {},
}

/// The answer to [`QueryMsg::QueryGetCurrentAuctionId`].
#[derive(Debug, PartialEq, Eq)]
pub struct QueryCurrentAuctionIdResponse {
    pub auction_id: u64,
}

/// The answer to [`QueryMsg::QueryGetAuctionWinner`].
#[derive(Debug, PartialEq, Eq)]
pub struct QueryAuctionWinnerResponse {
    pub winner: Winner,
}

/// The answer to [`QueryMsg::QueryGetBidsForBidder`].
#[derive(Debug, PartialEq, Eq)]
pub struct QueryBidsForBidderResponse {
    pub bids: Vec<Bid>,
}

/// The answer to a [`QueryMsg`], one form for each request.
#[derive(Debug, PartialEq, Eq)]
pub enum QueryResponse {
    AuctionWinner(QueryAuctionWinnerResponse),
    BidsForBidder(QueryBidsForBidderResponse),
    BidsForAuction(Vec<Bid>),
    CurrentAuctionId(QueryCurrentAuctionIdResponse),
}

} // verus!
