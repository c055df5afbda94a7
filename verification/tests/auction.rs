use vcg_auction::error::ContractError;
use vcg_auction::state::{bid_outranks, is_after_cursor, page_is_full, Auction, Bid, Winner};

fn bid_of(auction_id: u64, bidder: &str, amount: u128, timestamp: u64) -> Bid {
    Bid { auction_id, amount, bidder: bidder.to_string(), timestamp }
}

fn amounts(auction: &Auction) -> Vec<u128> {
    auction.sorted_bids.iter().map(|b| b.amount).collect()
}

fn bidders(bids: &[Bid]) -> Vec<String> {
    bids.iter().map(|b| b.bidder.clone()).collect()
}

fn auction_with(max: u64, bids: &[(&str, u128, u64)]) -> Auction {
    let mut auction = Auction::new(1, max, "lot".to_string());
    for (bidder, amount, timestamp) in bids {
        auction.add_bid(bid_of(1, bidder, *amount, *timestamp)).unwrap();
    }
    auction
}

#[test]
fn new_auction_is_in_progress_and_empty() {
    let auction = Auction::new(7, 3, "lot".to_string());
    assert_eq!(auction.id, 7);
    assert_eq!(auction.name, "lot");
    assert_eq!(auction.max_participants, 3);
    assert!(auction.in_progress);
    assert!(auction.is_in_progress());
    assert!(auction.sorted_bids.is_empty());
    assert_eq!(auction.winner, None);
    assert!(auction.is_well_formed());
}

#[test]
fn add_bid_keeps_bids_ascending_by_amount() {
    let auction = auction_with(10, &[("a", 10, 0), ("b", 30, 0), ("c", 20, 0), ("d", 5, 0), ("e", 40, 0)]);
    assert_eq!(amounts(&auction), vec![5, 10, 20, 30, 40]);
    assert_eq!(bidders(&auction.sorted_bids), vec!["d", "a", "c", "b", "e"]);
    assert!(auction.is_well_formed());
}

#[test]
fn add_bid_puts_equal_amounts_in_the_order_they_came() {
    let auction = auction_with(10, &[("a", 10, 0), ("b", 10, 0), ("c", 5, 0), ("d", 10, 0), ("e", 20, 0)]);
    assert_eq!(amounts(&auction), vec![5, 10, 10, 10, 20]);
    assert_eq!(bidders(&auction.sorted_bids), vec!["c", "a", "b", "d", "e"]);
}

#[test]
fn find_insertion_point_counts_the_bids_that_do_not_exceed() {
    let auction = auction_with(10, &[("a", 10, 0), ("b", 20, 0), ("c", 20, 0), ("d", 30, 0)]);
    assert_eq!(auction.find_insertion_point(0), 0);
    assert_eq!(auction.find_insertion_point(9), 0);
    assert_eq!(auction.find_insertion_point(10), 1);
    assert_eq!(auction.find_insertion_point(20), 3);
    assert_eq!(auction.find_insertion_point(29), 3);
    assert_eq!(auction.find_insertion_point(30), 4);
    assert_eq!(auction.find_insertion_point(u128::MAX), 4);
}

#[test]
fn add_bid_beyond_capacity_is_refused() {
    let mut auction = auction_with(2, &[("a", 10, 0), ("b", 20, 0)]);
    let r = auction.add_bid(bid_of(1, "c", 30, 0));
    assert_eq!(r, Err(ContractError::CapacityExceeded { max_participants: 2 }));
    assert_eq!(amounts(&auction), vec![10, 20]);
}

#[test]
fn add_bid_to_closed_auction_is_refused() {
    let mut auction = auction_with(5, &[("a", 10, 0)]);
    auction.close().unwrap();
    let r = auction.add_bid(bid_of(1, "b", 30, 0));
    assert_eq!(r, Err(ContractError::AuctionNotInProgress));
    assert_eq!(amounts(&auction), vec![10]);
}

#[test]
fn place_bid_checks_in_order() {
    let mut auction = Auction::new(4, 1, "lot".to_string());
    assert_eq!(
        auction.place_bid(true, "a".to_string(), 0, 0),
        Err(ContractError::DuplicateBid)
    );
    assert_eq!(
        auction.place_bid(false, "a".to_string(), 0, 0),
        Err(ContractError::InvalidAmount)
    );
    let bid = auction.place_bid(false, "a".to_string(), 7, 99).unwrap();
    assert_eq!(bid, bid_of(4, "a", 7, 99));
    assert_eq!(auction.sorted_bids, vec![bid_of(4, "a", 7, 99)]);
    assert_eq!(
        auction.place_bid(false, "b".to_string(), 8, 0),
        Err(ContractError::CapacityExceeded { max_participants: 1 })
    );
    assert_eq!(
        auction.place_bid(true, "b".to_string(), 8, 0),
        Err(ContractError::DuplicateBid)
    );
    auction.close().unwrap();
    assert_eq!(
        auction.place_bid(true, "b".to_string(), 0, 0),
        Err(ContractError::AuctionNotInProgress)
    );
    assert_eq!(auction.sorted_bids.len(), 1);
}

#[test]
fn close_succeeds_once() {
    let mut auction = Auction::new(1, 2, "lot".to_string());
    assert_eq!(auction.close(), Ok(()));
    assert!(!auction.is_in_progress());
    assert_eq!(auction.close(), Err(ContractError::AuctionAlreadyClosed));
    assert!(!auction.is_in_progress());
}

#[test]
fn end_stops_the_auction() {
    let mut auction = auction_with(3, &[("a", 10, 0)]);
    auction.end();
    assert!(!auction.is_in_progress());
    assert_eq!(amounts(&auction), vec![10]);
    auction.end();
    assert!(!auction.is_in_progress());
}

#[test]
fn bid_outranks_by_amount_then_timestamp() {
    assert!(bid_outranks(&bid_of(1, "a", 11, 0), &bid_of(1, "b", 10, 9)));
    assert!(!bid_outranks(&bid_of(1, "a", 10, 9), &bid_of(1, "b", 11, 0)));
    assert!(bid_outranks(&bid_of(1, "a", 10, 5), &bid_of(1, "b", 10, 4)));
    assert!(!bid_outranks(&bid_of(1, "a", 10, 4), &bid_of(1, "b", 10, 5)));
    assert!(!bid_outranks(&bid_of(1, "a", 10, 4), &bid_of(1, "b", 10, 4)));
}

#[test]
fn highest_bid_of_no_bids_is_none() {
    let auction = Auction::new(1, 3, "lot".to_string());
    assert_eq!(auction.get_highest_bid(), None);
    assert_eq!(auction.get_second_highest_bid(), None);
}

#[test]
fn second_highest_bid_of_one_bid_is_none() {
    let auction = auction_with(3, &[("a", 10, 0)]);
    assert_eq!(auction.get_highest_bid(), Some(&bid_of(1, "a", 10, 0)));
    assert_eq!(auction.get_second_highest_bid(), None);
}

#[test]
fn highest_and_second_highest_by_amount() {
    let auction = auction_with(3, &[("a", 10, 0), ("b", 30, 0), ("c", 20, 0)]);
    assert_eq!(auction.get_highest_bid(), Some(&bid_of(1, "b", 30, 0)));
    assert_eq!(auction.get_second_highest_bid(), Some(&bid_of(1, "c", 20, 0)));
    assert_eq!(auction.highest_position(), 2);
    assert_eq!(auction.runner_up_position(), 1);
}

#[test]
fn later_timestamp_wins_among_equal_amounts() {
    let auction = auction_with(5, &[("a", 50, 9), ("b", 50, 3), ("c", 50, 7), ("d", 10, 100)]);
    assert_eq!(auction.get_highest_bid(), Some(&bid_of(1, "a", 50, 9)));
    assert_eq!(auction.get_second_highest_bid(), Some(&bid_of(1, "c", 50, 7)));
}

#[test]
fn last_comer_wins_among_equal_amounts_and_timestamps() {
    let auction = auction_with(5, &[("a", 50, 1), ("b", 50, 1), ("c", 50, 1)]);
    assert_eq!(auction.get_highest_bid(), Some(&bid_of(1, "c", 50, 1)));
    assert_eq!(auction.get_second_highest_bid(), Some(&bid_of(1, "b", 50, 1)));
}

#[test]
fn winner_of_three_bids_owes_the_second_price() {
    let mut auction = auction_with(3, &[("A", 10, 0), ("B", 30, 0), ("C", 20, 0)]);
    auction.close().unwrap();
    assert_eq!(
        auction.determine_winner(),
        Ok(Winner { auction_id: 1, amount_owed: 20, bidder: "B".to_string() })
    );
}

#[test]
fn winner_of_one_bid_is_refused() {
    let mut auction = auction_with(2, &[("A", 50, 0)]);
    auction.close().unwrap();
    assert_eq!(auction.determine_winner(), Err(ContractError::InsufficientBids));
}

#[test]
fn winner_of_no_bids_is_refused() {
    let mut auction = Auction::new(1, 5, "lot".to_string());
    auction.close().unwrap();
    assert_eq!(auction.determine_winner(), Err(ContractError::NoBids));
}

#[test]
fn winner_before_close_is_refused() {
    let auction = auction_with(3, &[("A", 10, 0), ("B", 30, 0)]);
    assert_eq!(auction.determine_winner(), Err(ContractError::AuctionInProgress));
}

#[test]
fn winner_of_equal_bids_owes_the_same_amount() {
    let mut auction = auction_with(3, &[("A", 30, 0), ("B", 30, 0)]);
    auction.close().unwrap();
    assert_eq!(
        auction.determine_winner(),
        Ok(Winner { auction_id: 1, amount_owed: 30, bidder: "B".to_string() })
    );
}

#[test]
fn remembered_winner_is_returned_unchanged() {
    let mut auction = auction_with(3, &[("A", 10, 0), ("B", 30, 0)]);
    auction.close().unwrap();
    auction.winner = Some(Winner { auction_id: 1, amount_owed: 1, bidder: "Z".to_string() });
    assert_eq!(
        auction.determine_winner(),
        Ok(Winner { auction_id: 1, amount_owed: 1, bidder: "Z".to_string() })
    );
}

#[test]
fn settle_remembers_the_winner() {
    let mut auction = auction_with(3, &[("A", 10, 0), ("B", 30, 0), ("C", 20, 0)]);
    assert_eq!(auction.settle(), Err(ContractError::AuctionInProgress));
    assert_eq!(auction.winner, None);
    auction.close().unwrap();
    let expected = Winner { auction_id: 1, amount_owed: 20, bidder: "B".to_string() };
    assert_eq!(auction.settle(), Ok(expected.clone()));
    assert_eq!(auction.winner, Some(expected.clone()));
    assert_eq!(auction.settle(), Ok(expected.clone()));
    assert_eq!(auction.winner, Some(expected));
    assert!(auction.is_well_formed());
}

#[test]
fn bids_page_without_cursor_and_limit_gives_all() {
    let auction = auction_with(5, &[("a", 10, 0), ("b", 30, 0), ("c", 20, 0)]);
    let page = auction.bids_page(None, None);
    assert_eq!(page, auction.sorted_bids);
}

#[test]
fn bids_page_resumes_after_the_cursor() {
    let auction = auction_with(5, &[("a", 10, 0), ("b", 30, 0), ("c", 20, 0), ("d", 40, 0)]);
    assert_eq!(bidders(&auction.bids_page(Some(10), None)), vec!["c", "b", "d"]);
    assert_eq!(bidders(&auction.bids_page(Some(15), None)), vec!["c", "b", "d"]);
    assert_eq!(bidders(&auction.bids_page(Some(40), None)), Vec::<String>::new());
    assert_eq!(bidders(&auction.bids_page(Some(0), None)), vec!["a", "c", "b", "d"]);
}

#[test]
fn bids_page_stops_at_the_limit() {
    let auction = auction_with(5, &[("a", 10, 0), ("b", 30, 0), ("c", 20, 0), ("d", 40, 0)]);
    assert_eq!(bidders(&auction.bids_page(None, Some(0))), Vec::<String>::new());
    assert_eq!(bidders(&auction.bids_page(None, Some(2))), vec!["a", "c"]);
    assert_eq!(bidders(&auction.bids_page(Some(10), Some(2))), vec!["c", "b"]);
    assert_eq!(bidders(&auction.bids_page(Some(20), Some(2))), vec!["b", "d"]);
    assert_eq!(bidders(&auction.bids_page(Some(30), Some(2))), vec!["d"]);
    assert_eq!(bidders(&auction.bids_page(None, Some(4))), vec!["a", "c", "b", "d"]);
    assert_eq!(bidders(&auction.bids_page(None, Some(u32::MAX))), vec!["a", "c", "b", "d"]);
}

#[test]
fn cursor_and_limit_helpers() {
    assert!(is_after_cursor(0, None));
    assert!(is_after_cursor(5, Some(4)));
    assert!(!is_after_cursor(5, Some(5)));
    assert!(!is_after_cursor(5, Some(6)));
    assert!(!page_is_full(1000, None));
    assert!(page_is_full(0, Some(0)));
    assert!(!page_is_full(1, Some(2)));
    assert!(page_is_full(2, Some(2)));
}

#[test]
fn is_well_formed_rejects_bad_records() {
    let mut unsorted = Auction::new(1, 5, "lot".to_string());
    unsorted.sorted_bids = vec![bid_of(1, "a", 20, 0), bid_of(1, "b", 10, 0)];
    assert!(!unsorted.is_well_formed());

    let mut crowded = Auction::new(1, 1, "lot".to_string());
    crowded.sorted_bids = vec![bid_of(1, "a", 10, 0), bid_of(1, "b", 20, 0)];
    assert!(!crowded.is_well_formed());

    let mut early = Auction::new(1, 5, "lot".to_string());
    early.winner = Some(Winner { auction_id: 1, amount_owed: 1, bidder: "a".to_string() });
    assert!(!early.is_well_formed());
    early.end();
    assert!(early.is_well_formed());
}

#[test]
fn clones_are_equal() {
    let mut auction = auction_with(3, &[("A", 10, 0), ("B", 30, 0)]);
    auction.close().unwrap();
    auction.settle().unwrap();
    assert_eq!(auction.clone(), auction);
    let bid = bid_of(3, "x", 4, 5);
    assert_eq!(bid.clone(), bid);
}
