//! The failures that the engine reports.

use vstd::prelude::*;

verus! {

/// Why an operation was rejected. A rejected operation changes nothing.
#[derive(Debug, Clone, Copy, PartialEq, Eq)]
pub enum ContractError {
    /// An auction with this id is already on record.
    AuctionAlreadyExists { auction_id: u64 },
    /// No auction with this id is on record.
    AuctionNotFound { auction_id: u64 },
    /// The auction no longer accepts bids.
    AuctionNotInProgress,
    /// The auction was closed before.
    AuctionAlreadyClosed,
    /// The auction still accepts bids, so it has no winner yet.
    AuctionInProgress,
    /// A second-price auction needs room for at least two bidders.
    TooFewParticipants,
    /// A bid must be strictly positive.
    InvalidAmount,
    /// The bidder has already placed a bid on this auction.
    DuplicateBid,
    /// The auction already holds as many bids as it admits.
    CapacityExceeded { max_participants: u64 },
    /// The auction was closed without a single bid.
    NoBids,
    /// The auction was closed with one bid, so there is no second price.
    InsufficientBids,
}

impl ContractError {
    /// The text of the message, as a sequence of characters.
    pub open spec fn message_text(self) -> Seq<char> {
        match self {
            ContractError::AuctionAlreadyExists { .. } => "There is already an auction in progress."@,
            ContractError::AuctionNotFound { .. } => "Auction not found"@,
            ContractError::AuctionNotInProgress => "Auction is not in progress"@,
            ContractError::AuctionAlreadyClosed => "Auction is already closed"@,
            ContractError::AuctionInProgress => "Auction in progress"@,
            ContractError::TooFewParticipants => "There must be at least 2 participants"@,
            ContractError::InvalidAmount => "Bid amount must be greater than 0"@,
            ContractError::DuplicateBid => "Participant has already placed a bid for this auction"@,
            ContractError::CapacityExceeded { .. } => "Max number of auction participants has already been reached"@,
            ContractError::NoBids => "Auction has no bids, cannot determine winner"@,
            ContractError::InsufficientBids => "Auction has only one bid, cannot determine winner"@,
        }
    }

    /// The message shown to a caller.
    pub fn message(&self) -> (text: String)
        ensures
            text@ == self.message_text(),
    {
        let text: &str = match self {
            ContractError::AuctionAlreadyExists { .. } => "There is already an auction in progress.",
            ContractError::AuctionNotFound { .. } => "Auction not found",
            ContractError::AuctionNotInProgress => "Auction is not in progress",
            ContractError::AuctionAlreadyClosed => "Auction is already closed",
            ContractError::AuctionInProgress => "Auction in progress",
            ContractError::TooFewParticipants => "There must be at least 2 participants",
            ContractError::InvalidAmount => "Bid amount must be greater than 0",
            ContractError::DuplicateBid => "Participant has already placed a bid for this auction",
            ContractError::CapacityExceeded { .. } => "Max number of auction participants has already been reached",
            ContractError::NoBids => "Auction has no bids, cannot determine winner",
            ContractError::InsufficientBids => "Auction has only one bid, cannot determine winner",
        };
        text.to_owned()
    }
}

} // verus!
