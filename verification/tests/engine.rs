use vcg_auction::contract::{execute, get_and_increment_auction_id, increment_auction_id, query};
use vcg_auction::engine::{Engine, IdAllocator};
use vcg_auction::error::ContractError;
use vcg_auction::index::BidderIndex;
use vcg_auction::msg::{
    ExecuteMsg, QueryAuctionWinnerResponse, QueryBidsForBidderResponse,
    QueryCurrentAuctionIdResponse, QueryMsg, QueryResponse,
};
use vcg_auction::state::{Bid, Winner};
use vcg_auction::store::AuctionStore;

fn bid_of(auction_id: u64, bidder: &str, amount: u128, timestamp: u64) -> Bid {
    Bid { auction_id, amount, bidder: bidder.to_string(), timestamp }
}

fn auction_ids(bids: &[Bid]) -> Vec<u64> {
    bids.iter().map(|b| b.auction_id).collect()
}

fn engine_with_auction(max: u64) -> (Engine, u64) {
    let mut engine = Engine::new();
    let id = engine.start_auction("lot".to_string(), max).unwrap();
    (engine, id)
}

#[test]
fn allocator_hands_out_dense_ids() {
    let mut ids = IdAllocator::new();
    assert_eq!(ids.current(), 0);
    assert_eq!(ids.next_id(), 1);
    assert_eq!(ids.next_id(), 2);
    assert_eq!(ids.current(), 2);
    assert_eq!(get_and_increment_auction_id(&mut ids), 3);
    increment_auction_id(&mut ids);
    assert_eq!(ids.current(), 4);
}

#[test]
fn new_engine_is_empty() {
    let engine = Engine::new();
    assert_eq!(engine.get_current_auction_id(), 0);
    assert!(engine.auctions.auctions.is_empty());
    assert!(engine.bidders_to_bids.entries.is_empty());
    assert!(engine.is_well_formed());
}

#[test]
fn start_auction_hands_out_the_next_id() {
    let mut engine = Engine::new();
    assert_eq!(engine.start_auction("one".to_string(), 2), Ok(1));
    assert_eq!(engine.get_current_auction_id(), 1);
    assert_eq!(engine.start_auction("two".to_string(), 5), Ok(2));
    assert_eq!(engine.get_current_auction_id(), 2);
    let second = engine.auctions.get(2).unwrap();
    assert_eq!(second.id, 2);
    assert_eq!(second.name, "two");
    assert_eq!(second.max_participants, 5);
    assert!(second.in_progress);
    assert!(second.sorted_bids.is_empty());
    assert_eq!(second.winner, None);
    assert!(engine.is_well_formed());
}

#[test]
fn start_auction_for_one_participant_is_refused() {
    let mut engine = Engine::new();
    assert_eq!(engine.start_auction("lot".to_string(), 1), Err(ContractError::TooFewParticipants));
    assert_eq!(engine.start_auction("lot".to_string(), 0), Err(ContractError::TooFewParticipants));
    assert_eq!(engine.get_current_auction_id(), 0);
    assert!(engine.auctions.auctions.is_empty());
    assert_eq!(engine.start_auction("lot".to_string(), 2), Ok(1));
}

#[test]
fn second_bid_of_a_bidder_is_a_duplicate() {
    let (mut engine, id) = engine_with_auction(5);
    assert_eq!(engine.place_bid("A".to_string(), id, 10, 0), Ok(()));
    assert_eq!(engine.place_bid("A".to_string(), id, 10, 0), Err(ContractError::DuplicateBid));
    assert_eq!(engine.place_bid("A".to_string(), id, 999, 7), Err(ContractError::DuplicateBid));
    assert_eq!(engine.place_bid("A".to_string(), id, 0, 7), Err(ContractError::DuplicateBid));
    assert_eq!(engine.auctions.get(id).unwrap().sorted_bids, vec![bid_of(id, "A", 10, 0)]);
    assert_eq!(engine.bidders_to_bids.entries, vec![bid_of(id, "A", 10, 0)]);
}

#[test]
fn bid_beyond_capacity_is_refused() {
    let (mut engine, id) = engine_with_auction(2);
    assert_eq!(engine.place_bid("A".to_string(), id, 10, 0), Ok(()));
    assert_eq!(engine.place_bid("B".to_string(), id, 20, 0), Ok(()));
    assert_eq!(
        engine.place_bid("C".to_string(), id, 30, 0),
        Err(ContractError::CapacityExceeded { max_participants: 2 })
    );
    assert_eq!(engine.auctions.get(id).unwrap().sorted_bids.len(), 2);
    assert!(!engine.bidders_to_bids.has_bid(&"C".to_string(), id));
    assert!(engine.is_well_formed());
}

#[test]
fn bid_of_zero_is_refused() {
    let (mut engine, id) = engine_with_auction(2);
    assert_eq!(engine.place_bid("A".to_string(), id, 0, 0), Err(ContractError::InvalidAmount));
    assert!(engine.auctions.get(id).unwrap().sorted_bids.is_empty());
    assert!(engine.bidders_to_bids.entries.is_empty());
}

#[test]
fn bid_on_unknown_auction_is_refused() {
    let (mut engine, _) = engine_with_auction(2);
    assert_eq!(
        engine.place_bid("A".to_string(), 9, 10, 0),
        Err(ContractError::AuctionNotFound { auction_id: 9 })
    );
}

#[test]
fn bid_on_closed_auction_is_refused() {
    let (mut engine, id) = engine_with_auction(2);
    engine.close_auction(id).unwrap();
    assert_eq!(
        engine.place_bid("A".to_string(), id, 10, 0),
        Err(ContractError::AuctionNotInProgress)
    );
}

#[test]
fn bids_stay_sorted_after_every_bid() {
    let (mut engine, id) = engine_with_auction(50);
    let amounts: [u128; 12] = [7, 3, 9, 3, 1, 12, 7, 7, 2, 100, 5, 1];
    for (i, amount) in amounts.iter().enumerate() {
        engine.place_bid(format!("bidder{}", i), id, *amount, i as u64).unwrap();
        let bids = &engine.auctions.get(id).unwrap().sorted_bids;
        assert_eq!(bids.len(), i + 1);
        assert!(bids.windows(2).all(|w| w[0].amount <= w[1].amount));
        assert!(engine.is_well_formed());
    }
    let sorted: Vec<u128> =
        engine.auctions.get(id).unwrap().sorted_bids.iter().map(|b| b.amount).collect();
    assert_eq!(sorted, vec![1, 1, 2, 3, 3, 5, 7, 7, 7, 9, 12, 100]);
}

#[test]
fn closing_twice_fails_the_second_time() {
    let (mut engine, id) = engine_with_auction(2);
    assert_eq!(engine.close_auction(id), Ok(()));
    assert_eq!(engine.close_auction(id), Err(ContractError::AuctionAlreadyClosed));
    assert_eq!(
        engine.close_auction(77),
        Err(ContractError::AuctionNotFound { auction_id: 77 })
    );
}

#[test]
fn winner_before_closing_is_refused() {
    let (mut engine, id) = engine_with_auction(3);
    engine.place_bid("A".to_string(), id, 10, 0).unwrap();
    engine.place_bid("B".to_string(), id, 30, 0).unwrap();
    assert_eq!(engine.winner(id), Err(ContractError::AuctionInProgress));
    assert_eq!(engine.get_winner(id), Err(ContractError::AuctionInProgress));
    assert_eq!(engine.auctions.get(id).unwrap().winner, None);
}

#[test]
fn winner_of_unknown_auction_is_refused() {
    let mut engine = Engine::new();
    assert_eq!(engine.winner(3), Err(ContractError::AuctionNotFound { auction_id: 3 }));
    assert_eq!(engine.get_winner(3), Err(ContractError::AuctionNotFound { auction_id: 3 }));
}

#[test]
fn scenario_three_bids() {
    let (mut engine, id) = engine_with_auction(3);
    engine.place_bid("A".to_string(), id, 10, 0).unwrap();
    engine.place_bid("B".to_string(), id, 30, 0).unwrap();
    engine.place_bid("C".to_string(), id, 20, 0).unwrap();
    engine.close_auction(id).unwrap();
    let winner = engine.get_winner(id).unwrap();
    assert_eq!(winner, Winner { auction_id: id, amount_owed: 20, bidder: "B".to_string() });
}

#[test]
fn scenario_single_bid() {
    let (mut engine, id) = engine_with_auction(2);
    engine.place_bid("A".to_string(), id, 50, 0).unwrap();
    engine.close_auction(id).unwrap();
    assert_eq!(engine.get_winner(id), Err(ContractError::InsufficientBids));
}

#[test]
fn scenario_no_bids() {
    let (mut engine, id) = engine_with_auction(5);
    engine.close_auction(id).unwrap();
    assert_eq!(engine.get_winner(id), Err(ContractError::NoBids));
}

#[test]
fn get_winner_twice_gives_the_same() {
    let (mut engine, id) = engine_with_auction(3);
    engine.place_bid("A".to_string(), id, 10, 0).unwrap();
    engine.place_bid("B".to_string(), id, 30, 0).unwrap();
    engine.close_auction(id).unwrap();
    let peeked = engine.winner(id);
    let first = engine.get_winner(id);
    let remembered = engine.auctions.get(id).unwrap().winner.clone();
    let second = engine.get_winner(id);
    assert_eq!(first, Ok(Winner { auction_id: id, amount_owed: 10, bidder: "B".to_string() }));
    assert_eq!(first, peeked);
    assert_eq!(first, second);
    assert_eq!(remembered, Some(Winner { auction_id: id, amount_owed: 10, bidder: "B".to_string() }));
    assert_eq!(engine.auctions.get(id).unwrap().winner, remembered);
    assert!(engine.is_well_formed());
}

#[test]
fn bids_for_bidder_without_bids_is_empty() {
    let engine = Engine::new();
    assert_eq!(engine.get_bids_for_bidder(&"nobody".to_string(), None, None), Vec::<Bid>::new());
    let (mut engine, id) = engine_with_auction(3);
    engine.place_bid("A".to_string(), id, 10, 0).unwrap();
    assert_eq!(engine.get_bids_for_bidder(&"nobody".to_string(), None, None), Vec::<Bid>::new());
    assert_eq!(engine.get_bids_for_bidder(&"nobody".to_string(), Some(0), Some(3)), Vec::<Bid>::new());
}

#[test]
fn bids_for_bidder_ascend_by_auction_and_page() {
    let mut engine = Engine::new();
    for round in 1..=5u64 {
        let id = engine.start_auction(format!("lot{}", round), 4).unwrap();
        assert_eq!(id, round);
        engine.place_bid("A".to_string(), id, 10 * round as u128, round).unwrap();
        if round % 2 == 1 {
            engine.place_bid("B".to_string(), id, 7, round).unwrap();
        }
        engine.close_auction(id).unwrap();
    }
    let a = "A".to_string();
    let b = "B".to_string();
    assert_eq!(auction_ids(&engine.get_bids_for_bidder(&a, None, None)), vec![1, 2, 3, 4, 5]);
    assert_eq!(auction_ids(&engine.get_bids_for_bidder(&b, None, None)), vec![1, 3, 5]);
    assert_eq!(auction_ids(&engine.get_bids_for_bidder(&a, Some(2), None)), vec![3, 4, 5]);
    assert_eq!(auction_ids(&engine.get_bids_for_bidder(&a, Some(2), Some(2))), vec![3, 4]);
    assert_eq!(auction_ids(&engine.get_bids_for_bidder(&a, None, Some(1))), vec![1]);
    assert_eq!(auction_ids(&engine.get_bids_for_bidder(&a, None, Some(0))), Vec::<u64>::new());
    assert_eq!(auction_ids(&engine.get_bids_for_bidder(&a, Some(5), None)), Vec::<u64>::new());
    assert_eq!(auction_ids(&engine.get_bids_for_bidder(&b, Some(1), Some(9))), vec![3, 5]);
    assert_eq!(
        engine.get_bids_for_bidder(&a, Some(3), Some(1)),
        vec![bid_of(4, "A", 40, 4)]
    );
}

#[test]
fn bids_for_auction_page() {
    let (mut engine, id) = engine_with_auction(5);
    engine.place_bid("A".to_string(), id, 10, 0).unwrap();
    engine.place_bid("B".to_string(), id, 30, 0).unwrap();
    engine.place_bid("C".to_string(), id, 20, 0).unwrap();
    let all = engine.get_bids_for_auction(id, None, None).unwrap();
    assert_eq!(all, vec![bid_of(id, "A", 10, 0), bid_of(id, "C", 20, 0), bid_of(id, "B", 30, 0)]);
    let page = engine.get_bids_for_auction(id, Some(10), Some(1)).unwrap();
    assert_eq!(page, vec![bid_of(id, "C", 20, 0)]);
    assert_eq!(
        engine.get_bids_for_auction(8, None, None),
        Err(ContractError::AuctionNotFound { auction_id: 8 })
    );
}

#[test]
fn store_create_get_insert_close() {
    let mut store = AuctionStore::new();
    assert_eq!(store.create(5, "five".to_string(), 2), Ok(()));
    assert_eq!(store.create(2, "two".to_string(), 3), Ok(()));
    assert_eq!(store.create(9, "nine".to_string(), 3), Ok(()));
    assert_eq!(
        store.create(5, "again".to_string(), 7),
        Err(ContractError::AuctionAlreadyExists { auction_id: 5 })
    );
    let ids: Vec<u64> = store.auctions.iter().map(|a| a.id).collect();
    assert_eq!(ids, vec![2, 5, 9]);
    assert!(store.is_well_formed());
    assert!(store.contains(2));
    assert!(!store.contains(3));
    assert_eq!(store.locate(5), (1, true));
    assert_eq!(store.locate(6), (2, false));
    assert_eq!(store.locate(10), (3, false));
    assert_eq!(store.get(5).unwrap().name, "five");
    assert_eq!(store.get(4), Err(ContractError::AuctionNotFound { auction_id: 4 }));

    assert_eq!(store.insert_bid(5, bid_of(5, "a", 10, 0)), Ok(()));
    assert_eq!(store.insert_bid(5, bid_of(5, "b", 5, 0)), Ok(()));
    assert_eq!(
        store.insert_bid(5, bid_of(5, "c", 7, 0)),
        Err(ContractError::CapacityExceeded { max_participants: 2 })
    );
    assert_eq!(
        store.insert_bid(4, bid_of(4, "c", 7, 0)),
        Err(ContractError::AuctionNotFound { auction_id: 4 })
    );
    assert_eq!(
        store.get(5).unwrap().sorted_bids,
        vec![bid_of(5, "b", 5, 0), bid_of(5, "a", 10, 0)]
    );
    assert!(store.get(2).unwrap().sorted_bids.is_empty());

    assert_eq!(store.close(2), Ok(()));
    assert_eq!(store.close(2), Err(ContractError::AuctionAlreadyClosed));
    assert_eq!(store.close(3), Err(ContractError::AuctionNotFound { auction_id: 3 }));
    assert_eq!(store.insert_bid(2, bid_of(2, "a", 1, 0)), Err(ContractError::AuctionNotInProgress));
    assert!(store.get(5).unwrap().in_progress);

    assert_eq!(store.settle(5), Err(ContractError::AuctionInProgress));
    assert_eq!(store.close(5), Ok(()));
    assert_eq!(
        store.settle(5),
        Ok(Winner { auction_id: 5, amount_owed: 5, bidder: "a".to_string() })
    );
    assert_eq!(store.settle(2), Err(ContractError::NoBids));
    assert_eq!(store.settle(1), Err(ContractError::AuctionNotFound { auction_id: 1 }));
    assert!(store.is_well_formed());
}

#[test]
fn store_is_well_formed_rejects_bad_records() {
    let mut store = AuctionStore::new();
    store.create(1, "a".to_string(), 2).unwrap();
    store.create(2, "b".to_string(), 2).unwrap();
    store.auctions.swap(0, 1);
    assert!(!store.is_well_formed());
    store.auctions.swap(0, 1);
    assert!(store.is_well_formed());
    store.auctions[1].id = 1;
    assert!(!store.is_well_formed());
}

#[test]
fn index_records_once_for_each_bidder_and_auction() {
    let mut index = BidderIndex::new();
    assert!(!index.has_bid(&"a".to_string(), 1));
    assert_eq!(index.record(bid_of(3, "a", 10, 0)), Ok(()));
    assert_eq!(index.record(bid_of(1, "a", 20, 0)), Ok(()));
    assert_eq!(index.record(bid_of(3, "b", 30, 0)), Ok(()));
    assert_eq!(index.record(bid_of(2, "b", 40, 0)), Ok(()));
    assert_eq!(index.record(bid_of(3, "a", 50, 0)), Err(ContractError::DuplicateBid));
    assert!(index.has_bid(&"a".to_string(), 3));
    assert!(index.has_bid(&"b".to_string(), 2));
    assert!(!index.has_bid(&"b".to_string(), 1));
    assert!(!index.has_bid(&"c".to_string(), 3));
    assert_eq!(
        index.entries,
        vec![bid_of(1, "a", 20, 0), bid_of(2, "b", 40, 0), bid_of(3, "a", 10, 0), bid_of(3, "b", 30, 0)]
    );
    assert_eq!(index.find_entry_point(0), 0);
    assert_eq!(index.find_entry_point(1), 1);
    assert_eq!(index.find_entry_point(3), 4);
    assert!(index.is_well_formed());
    assert_eq!(
        index.list_for_bidder(&"a".to_string(), None, None),
        vec![bid_of(1, "a", 20, 0), bid_of(3, "a", 10, 0)]
    );
    assert_eq!(
        index.list_for_bidder(&"a".to_string(), Some(1), None),
        vec![bid_of(3, "a", 10, 0)]
    );
    assert_eq!(
        index.list_for_bidder(&"a".to_string(), None, Some(1)),
        vec![bid_of(1, "a", 20, 0)]
    );
}

#[test]
fn index_is_well_formed_rejects_bad_records() {
    let mut index = BidderIndex::new();
    index.entries = vec![bid_of(2, "a", 1, 0), bid_of(1, "a", 1, 0)];
    assert!(!index.is_well_formed());
    index.entries = vec![bid_of(1, "a", 1, 0), bid_of(1, "a", 2, 0)];
    assert!(!index.is_well_formed());
    index.entries = vec![bid_of(1, "a", 1, 0), bid_of(1, "b", 2, 0)];
    assert!(index.is_well_formed());
}

#[test]
fn engine_is_well_formed_checks_store_and_index() {
    let (mut engine, id) = engine_with_auction(2);
    engine.place_bid("A".to_string(), id, 10, 0).unwrap();
    assert!(engine.is_well_formed());
    engine.bidders_to_bids.entries.push(bid_of(id, "A", 10, 0));
    assert!(!engine.is_well_formed());
    engine.bidders_to_bids.entries.pop();
    assert!(engine.is_well_formed());
    engine.auctions.auctions[0].max_participants = 0;
    assert!(!engine.is_well_formed());
}

#[test]
fn execute_bids_on_the_auction_started_last() {
    let mut engine = Engine::new();
    let start = |name: &str| ExecuteMsg::ExecuteStartAuction {
        name: name.to_string(),
        max_num_participants: 3,
    };
    assert_eq!(
        execute(&mut engine, "x".to_string(), 0, ExecuteMsg::ExecuteBid { bid_amount: 5 }),
        Err(ContractError::AuctionNotFound { auction_id: 0 })
    );
    assert_eq!(
        execute(&mut engine, "x".to_string(), 0, ExecuteMsg::ExecuteCloseAuction {}),
        Err(ContractError::AuctionNotFound { auction_id: 0 })
    );
    assert_eq!(execute(&mut engine, "admin".to_string(), 0, start("one")), Ok(()));
    assert_eq!(execute(&mut engine, "admin".to_string(), 0, start("two")), Ok(()));
    assert_eq!(
        execute(&mut engine, "x".to_string(), 42, ExecuteMsg::ExecuteBid { bid_amount: 5 }),
        Ok(())
    );
    assert!(engine.auctions.get(1).unwrap().sorted_bids.is_empty());
    assert_eq!(engine.auctions.get(2).unwrap().sorted_bids, vec![bid_of(2, "x", 5, 42)]);
    assert_eq!(execute(&mut engine, "admin".to_string(), 0, ExecuteMsg::ExecuteCloseAuction {}), Ok(()));
    assert!(engine.auctions.get(1).unwrap().in_progress);
    assert!(!engine.auctions.get(2).unwrap().in_progress);
    assert_eq!(
        execute(
            &mut engine,
            "admin".to_string(),
            0,
            ExecuteMsg::ExecuteStartAuction { name: "three".to_string(), max_num_participants: 1 }
        ),
        Err(ContractError::TooFewParticipants)
    );
    assert_eq!(engine.get_current_auction_id(), 2);
}

#[test]
fn query_answers_each_request() {
    let (mut engine, id) = engine_with_auction(3);
    engine.place_bid("A".to_string(), id, 10, 1).unwrap();
    engine.place_bid("B".to_string(), id, 30, 2).unwrap();
    assert_eq!(
        query(&engine, QueryMsg::QueryGetCurrentAuctionId {}),
        Ok(QueryResponse::CurrentAuctionId(QueryCurrentAuctionIdResponse { auction_id: 1 }))
    );
    assert_eq!(
        query(&engine, QueryMsg::QueryGetAuctionWinner { auction_id: id }),
        Err(ContractError::AuctionInProgress)
    );
    assert_eq!(
        query(&engine, QueryMsg::QueryGetAuctionWinner { auction_id: 5 }),
        Err(ContractError::AuctionNotFound { auction_id: 5 })
    );
    engine.close_auction(id).unwrap();
    assert_eq!(
        query(&engine, QueryMsg::QueryGetAuctionWinner { auction_id: id }),
        Ok(QueryResponse::AuctionWinner(QueryAuctionWinnerResponse {
            winner: Winner { auction_id: id, amount_owed: 10, bidder: "B".to_string() }
        }))
    );
    assert_eq!(
        query(
            &engine,
            QueryMsg::QueryGetBidsForBidder { bidder: "B".to_string(), start_after: None, limit: None }
        ),
        Ok(QueryResponse::BidsForBidder(QueryBidsForBidderResponse {
            bids: vec![bid_of(id, "B", 30, 2)]
        }))
    );
    assert_eq!(
        query(
            &engine,
            QueryMsg::QueryGetBidsForAuction { auction_id: id, start_after: Some(10), limit: Some(5) }
        ),
        Ok(QueryResponse::BidsForAuction(vec![bid_of(id, "B", 30, 2)]))
    );
    assert_eq!(
        query(
            &engine,
            QueryMsg::QueryGetBidsForAuction { auction_id: 4, start_after: None, limit: None }
        ),
        Err(ContractError::AuctionNotFound { auction_id: 4 })
    );
}

#[test]
fn every_error_has_its_message() {
    assert_eq!(
        ContractError::AuctionAlreadyExists { auction_id: 1 }.message(),
        "There is already an auction in progress."
    );
    assert_eq!(ContractError::AuctionNotFound { auction_id: 1 }.message(), "Auction not found");
    assert_eq!(ContractError::AuctionNotInProgress.message(), "Auction is not in progress");
    assert_eq!(ContractError::AuctionAlreadyClosed.message(), "Auction is already closed");
    assert_eq!(ContractError::AuctionInProgress.message(), "Auction in progress");
    assert_eq!(
        ContractError::TooFewParticipants.message(),
        "There must be at least 2 participants"
    );
    assert_eq!(ContractError::InvalidAmount.message(), "Bid amount must be greater than 0");
    assert_eq!(
        ContractError::DuplicateBid.message(),
        "Participant has already placed a bid for this auction"
    );
    assert_eq!(
        ContractError::CapacityExceeded { max_participants: 3 }.message(),
        "Max number of auction participants has already been reached"
    );
    assert_eq!(ContractError::NoBids.message(), "Auction has no bids, cannot determine winner");
    assert_eq!(
        ContractError::InsufficientBids.message(),
        "Auction has only one bid, cannot determine winner"
    );
}
