//! The mathematical model of bids and auctions, and the rules stated over it.
//!
//! The executable types of the engine are viewed as the values defined here;
//! every contract of the engine speaks of them.

use crate::error::ContractError;
use vstd::prelude::*;

verus! {

/// A bid as a mathematical value.
pub struct BidView {
    pub auction_id: u64,
    pub amount: u128,
    pub bidder: Seq<char>,
    pub timestamp: u64,
}

/// A winner as a mathematical value.
pub struct WinnerView {
    pub auction_id: u64,
    pub amount_owed: u128,
    pub bidder: Seq<char>,
}

/// An auction as a mathematical value.
pub struct AuctionView {
    pub id: u64,
    pub name: Seq<char>,
    pub in_progress: bool,
    pub max_participants: u64,
    pub sorted_bids: Seq<BidView>,
    pub winner: Option<WinnerView>,
}

/// The bids ascend by amount.
pub open spec fn sorted_by_amount(bids: Seq<BidView>) -> bool {
    forall|i: int, j: int| 0 <= i <= j < bids.len() ==> bids[i].amount <= bids[j].amount
}

/// `p` is where a new bid of `amount` belongs among `bids`: behind every bid
/// that does not exceed it, so that equal amounts keep the order in which
/// they came, and before every bid that exceeds it.
pub open spec fn is_insertion_point(bids: Seq<BidView>, amount: u128, p: int) -> bool {
    &&& 0 <= p <= bids.len()
    &&& forall|i: int| 0 <= i < p ==> bids[i].amount <= amount
    &&& forall|i: int| p <= i < bids.len() ==> bids[i].amount > amount
}

/// The place of a new bid of `amount` among bids that ascend by amount.
pub open spec fn insertion_point(bids: Seq<BidView>, amount: u128) -> int {
    choose|p: int| is_insertion_point(bids, amount, p)
}

/// The bids with `bid` added at its place.
pub open spec fn insert_sorted(bids: Seq<BidView>, bid: BidView) -> Seq<BidView> {
    bids.insert(insertion_point(bids, bid.amount), bid)
}

/// `a` ranks strictly above `b`: by amount, and among equal amounts by the
/// later timestamp.
pub open spec fn outranks(a: BidView, b: BidView) -> bool {
    a.amount > b.amount || (a.amount == b.amount && a.timestamp > b.timestamp)
}

/// `h` is the index of the highest bid: no bid outranks it, and it is the
/// last of those that rank equally, which is the one that came last.
pub open spec fn is_highest(bids: Seq<BidView>, h: int) -> bool {
    &&& 0 <= h < bids.len()
    &&& forall|j: int| 0 <= j < bids.len() ==> !outranks(bids[j], bids[h])
    &&& forall|j: int| h < j < bids.len() ==> outranks(bids[h], bids[j])
}

/// The index of the highest bid of a sequence that is not empty.
pub open spec fn highest_index(bids: Seq<BidView>) -> int {
    choose|h: int| is_highest(bids, h)
}

/// `k` is the index of the highest bid once the bid at `h` is set aside: no
/// other bid outranks it, and it is the last of those that rank equally.
pub open spec fn is_runner_up(bids: Seq<BidView>, h: int, k: int) -> bool {
    &&& 0 <= k < bids.len()
    &&& k != h
    &&& forall|j: int| 0 <= j < bids.len() && j != h ==> !outranks(bids[j], bids[k])
    &&& forall|j: int| k < j < bids.len() && j != h ==> outranks(bids[k], bids[j])
}

/// The index of the second-highest bid of a sequence of two bids or more.
pub open spec fn runner_up_index(bids: Seq<BidView>) -> int {
    choose|k: int| is_runner_up(bids, highest_index(bids), k)
}

/// The winner computed from the bids of auction `auction_id`: the highest
/// bidder, who owes the amount of the second-highest bid.
pub open spec fn second_price_winner(auction_id: u64, bids: Seq<BidView>) -> WinnerView {
    WinnerView {
        auction_id,
        amount_owed: bids[runner_up_index(bids)].amount,
        bidder: bids[highest_index(bids)].bidder,
    }
}

impl AuctionView {
    /// The invariant of an auction: its bids ascend by amount, they are no
    /// more than the auction admits, and a winner is only held once the
    /// auction is closed.
    pub open spec fn wf(self) -> bool {
        &&& sorted_by_amount(self.sorted_bids)
        &&& self.sorted_bids.len() <= self.max_participants
        &&& self.winner is Some ==> !self.in_progress
    }

    /// A fresh auction: in progress, without bids, without a winner.
    pub open spec fn fresh(id: u64, max_participants: u64, name: Seq<char>) -> AuctionView {
        AuctionView {
            id,
            name,
            in_progress: true,
            max_participants,
            sorted_bids: Seq::empty(),
            winner: None,
        }
    }

    /// This auction with `bid` added at its place.
    pub open spec fn with_bid(self, bid: BidView) -> AuctionView {
        AuctionView { sorted_bids: insert_sorted(self.sorted_bids, bid), ..self }
    }

    /// This auction, closed.
    pub open spec fn closed(self) -> AuctionView {
        AuctionView { in_progress: false, ..self }
    }

    /// This auction with `winner` remembered.
    pub open spec fn with_winner(self, winner: WinnerView) -> AuctionView {
        AuctionView { winner: Some(winner), ..self }
    }

    /// What adding `bid` gives: the auction must be in progress and must have
    /// room.
    pub open spec fn add_bid_outcome(self, bid: BidView) -> Result<AuctionView, ContractError> {
        if !self.in_progress {
            Err(ContractError::AuctionNotInProgress)
        } else if self.sorted_bids.len() >= self.max_participants {
            Err(ContractError::CapacityExceeded { max_participants: self.max_participants })
        } else {
            Ok(self.with_bid(bid))
        }
    }

    /// What a bid placed by `bid.bidder` gives, where `already_bid` says
    /// whether that bidder has a bid on this auction. The checks come in this
    /// order: the auction is in progress, the bidder has not bid before, the
    /// amount is positive, the auction has room.
    pub open spec fn place_bid_outcome(self, already_bid: bool, bid: BidView) -> Result<
        AuctionView,
        ContractError,
    > {
        if !self.in_progress {
            Err(ContractError::AuctionNotInProgress)
        } else if already_bid {
            Err(ContractError::DuplicateBid)
        } else if bid.amount == 0 {
            Err(ContractError::InvalidAmount)
        } else {
            self.add_bid_outcome(bid)
        }
    }

    /// What closing gives: an auction can be closed once.
    pub open spec fn close_outcome(self) -> Result<AuctionView, ContractError> {
        if !self.in_progress {
            Err(ContractError::AuctionAlreadyClosed)
        } else {
            Ok(self.closed())
        }
    }

    /// The winner of this auction: the one it remembers, else the one
    /// computed from its bids under the second-price rule.
    pub open spec fn winner_outcome(self) -> Result<WinnerView, ContractError> {
        if self.in_progress {
            Err(ContractError::AuctionInProgress)
        } else if self.winner is Some {
            Ok(self.winner->0)
        } else if self.sorted_bids.len() == 0 {
            Err(ContractError::NoBids)
        } else if self.sorted_bids.len() < 2 {
            Err(ContractError::InsufficientBids)
        } else {
            Ok(second_price_winner(self.id, self.sorted_bids))
        }
    }
}

/// Whether a key lies behind the cursor: every key does where there is no
/// cursor, and the keys strictly greater than the cursor do where there is
/// one.
pub open spec fn after_cursor(key: u128, start_after: Option<u128>) -> bool {
    match start_after {
        Some(cursor) => key > cursor,
        None => true,
    }
}

/// The first `limit` bids; all of them where there is no limit.
pub open spec fn page(bids: Seq<BidView>, limit: Option<u32>) -> Seq<BidView> {
    match limit {
        Some(n) => if n < bids.len() {
            bids.take(n as int)
        } else {
            bids
        },
        None => bids,
    }
}

/// Selects the bids whose amount lies behind the cursor.
pub open spec fn amount_after(start_after: Option<u128>) -> spec_fn(BidView) -> bool {
    |bid: BidView| after_cursor(bid.amount as u128, start_after)
}

/// Selects the bids of `bidder` whose auction id lies behind the cursor.
pub open spec fn bidder_after(bidder: Seq<char>, start_after: Option<u128>) -> spec_fn(
    BidView,
) -> bool {
    |bid: BidView| bid.bidder == bidder && after_cursor(bid.auction_id as u128, start_after)
}

/// One page of the bids of an auction: those whose amount lies behind the
/// cursor, in their order, up to the limit.
pub open spec fn auction_page(
    bids: Seq<BidView>,
    start_after: Option<u128>,
    limit: Option<u32>,
) -> Seq<BidView> {
    page(bids.filter(amount_after(start_after)), limit)
}

/// One page of the bids of a bidder: those whose auction id lies behind the
/// cursor, in their order, up to the limit.
pub open spec fn bidder_page(
    bids: Seq<BidView>,
    bidder: Seq<char>,
    start_after: Option<u128>,
    limit: Option<u32>,
) -> Seq<BidView> {
    page(bids.filter(bidder_after(bidder, start_after)), limit)
}

/// The bids ascend by auction id.
pub open spec fn sorted_by_auction(bids: Seq<BidView>) -> bool {
    forall|i: int, j: int| 0 <= i <= j < bids.len() ==> bids[i].auction_id <= bids[j].auction_id
}

/// No two of the bids are of the same bidder on the same auction.
pub open spec fn one_bid_each(bids: Seq<BidView>) -> bool {
    forall|i: int, j: int|
        0 <= i < j < bids.len() ==> !(bids[i].bidder == bids[j].bidder && bids[i].auction_id
            == bids[j].auction_id)
}

/// Whether `bidder` has a bid on auction `auction_id` among the bids.
pub open spec fn has_bid_of(bids: Seq<BidView>, bidder: Seq<char>, auction_id: u64) -> bool {
    exists|i: int|
        0 <= i < bids.len() && bids[i].bidder == bidder && bids[i].auction_id == auction_id
}

/// `p` is where a bid on auction `auction_id` belongs among bids that ascend
/// by auction id: behind every bid on that auction or an earlier one, before
/// every bid on a later one.
pub open spec fn is_entry_point(bids: Seq<BidView>, auction_id: u64, p: int) -> bool {
    &&& 0 <= p <= bids.len()
    &&& forall|i: int| 0 <= i < p ==> bids[i].auction_id <= auction_id
    &&& forall|i: int| p <= i < bids.len() ==> bids[i].auction_id > auction_id
}

/// The place of a bid on auction `auction_id` among bids that ascend by
/// auction id.
pub open spec fn entry_point(bids: Seq<BidView>, auction_id: u64) -> int {
    choose|p: int| is_entry_point(bids, auction_id, p)
}

/// The bids with `bid` added at its place by auction id.
pub open spec fn insert_entry(bids: Seq<BidView>, bid: BidView) -> Seq<BidView> {
    bids.insert(entry_point(bids, bid.auction_id), bid)
}

/// Bids that ascend by amount have exactly one insertion point for each
/// amount.
pub proof fn lemma_insertion_point_unique(bids: Seq<BidView>, amount: u128, p: int, q: int)
    requires
        is_insertion_point(bids, amount, p),
        is_insertion_point(bids, amount, q),
    ensures
        p == q,
{
    if p < q {
        assert(bids[p].amount <= amount);
        assert(bids[p].amount > amount);
    } else if q < p {
        assert(bids[q].amount <= amount);
        assert(bids[q].amount > amount);
    }
}

/// Whoever finds an insertion point has found `insertion_point`.
pub proof fn lemma_insertion_point_is(bids: Seq<BidView>, amount: u128, p: int)
    requires
        is_insertion_point(bids, amount, p),
    ensures
        insertion_point(bids, amount) == p,
{
    lemma_insertion_point_unique(bids, amount, p, insertion_point(bids, amount));
}

/// Among bids that ascend by amount every amount has an insertion point.
pub proof fn lemma_insertion_point_exists(bids: Seq<BidView>, amount: u128)
    requires
        sorted_by_amount(bids),
    ensures
        is_insertion_point(bids, amount, insertion_point(bids, amount)),
    decreases bids.len(),
{
    if bids.len() == 0 {
        assert(is_insertion_point(bids, amount, 0));
    } else if bids.last().amount <= amount {
        assert(is_insertion_point(bids, amount, bids.len() as int));
    } else {
        let front = bids.drop_last();
        assert(sorted_by_amount(front)) by {
            assert forall|i: int, j: int| 0 <= i <= j < front.len() implies front[i].amount
                <= front[j].amount by {
                assert(front[i] == bids[i]);
                assert(front[j] == bids[j]);
            }
        }
        lemma_insertion_point_exists(front, amount);
        let p = insertion_point(front, amount);
        assert forall|i: int| 0 <= i < p implies bids[i].amount <= amount by {
            assert(front[i] == bids[i]);
        }
        assert forall|i: int| p <= i < bids.len() implies bids[i].amount > amount by {
            if i < front.len() {
                assert(front[i] == bids[i]);
            }
        }
        assert(is_insertion_point(bids, amount, p));
    }
}

/// Adding a bid at its place keeps the bids ascending by amount, adds one bid
/// and keeps every bid that was there, in the order they had.
pub proof fn lemma_insert_sorted(bids: Seq<BidView>, bid: BidView)
    requires
        sorted_by_amount(bids),
    ensures
        sorted_by_amount(insert_sorted(bids, bid)),
        insert_sorted(bids, bid).len() == bids.len() + 1,
        insert_sorted(bids, bid)[insertion_point(bids, bid.amount)] == bid,
        insert_sorted(bids, bid).remove(insertion_point(bids, bid.amount)) == bids,
{
    lemma_insertion_point_exists(bids, bid.amount);
    let p = insertion_point(bids, bid.amount);
    let after = insert_sorted(bids, bid);
    assert forall|i: int, j: int| 0 <= i <= j < after.len() implies after[i].amount
        <= after[j].amount by {
        if i < p {
            assert(after[i] == bids[i]);
        } else if i > p {
            assert(after[i] == bids[i - 1]);
        }
        if j < p {
            assert(after[j] == bids[j]);
        } else if j > p {
            assert(after[j] == bids[j - 1]);
        }
    }
    assert(after.remove(p) =~= bids);
}

/// A sequence has at most one highest bid.
pub proof fn lemma_highest_unique(bids: Seq<BidView>, h: int, g: int)
    requires
        is_highest(bids, h),
        is_highest(bids, g),
    ensures
        h == g,
{
    if h < g {
        assert(outranks(bids[h], bids[g]));
    } else if g < h {
        assert(outranks(bids[g], bids[h]));
    }
}

/// Whoever finds the highest bid has found `highest_index`.
pub proof fn lemma_highest_is(bids: Seq<BidView>, h: int)
    requires
        is_highest(bids, h),
    ensures
        highest_index(bids) == h,
{
    lemma_highest_unique(bids, h, highest_index(bids));
}

/// Once the highest bid is set aside, a sequence has at most one runner-up.
pub proof fn lemma_runner_up_unique(bids: Seq<BidView>, h: int, k: int, l: int)
    requires
        is_runner_up(bids, h, k),
        is_runner_up(bids, h, l),
    ensures
        k == l,
{
    if k < l {
        assert(outranks(bids[k], bids[l]));
    } else if l < k {
        assert(outranks(bids[l], bids[k]));
    }
}

/// Whoever finds the highest bid and its runner-up has found
/// `runner_up_index`.
pub proof fn lemma_runner_up_is(bids: Seq<BidView>, h: int, k: int)
    requires
        is_highest(bids, h),
        is_runner_up(bids, h, k),
    ensures
        runner_up_index(bids) == k,
{
    lemma_highest_is(bids, h);
    lemma_runner_up_unique(bids, h, k, runner_up_index(bids));
}

/// Among bids that ascend by auction id every auction id has its place.
pub proof fn lemma_entry_point_exists(bids: Seq<BidView>, auction_id: u64)
    requires
        sorted_by_auction(bids),
    ensures
        is_entry_point(bids, auction_id, entry_point(bids, auction_id)),
    decreases bids.len(),
{
    if bids.len() == 0 {
        assert(is_entry_point(bids, auction_id, 0));
    } else if bids.last().auction_id <= auction_id {
        assert(is_entry_point(bids, auction_id, bids.len() as int));
    } else {
        let front = bids.drop_last();
        assert(sorted_by_auction(front)) by {
            assert forall|i: int, j: int| 0 <= i <= j < front.len() implies front[i].auction_id
                <= front[j].auction_id by {
                assert(front[i] == bids[i]);
                assert(front[j] == bids[j]);
            }
        }
        lemma_entry_point_exists(front, auction_id);
        let p = entry_point(front, auction_id);
        assert forall|i: int| 0 <= i < p implies bids[i].auction_id <= auction_id by {
            assert(front[i] == bids[i]);
        }
        assert forall|i: int| p <= i < bids.len() implies bids[i].auction_id > auction_id by {
            if i < front.len() {
                assert(front[i] == bids[i]);
            }
        }
        assert(is_entry_point(bids, auction_id, p));
    }
}

/// Whoever finds the place of a bid by auction id has found `entry_point`.
pub proof fn lemma_entry_point_is(bids: Seq<BidView>, auction_id: u64, p: int)
    requires
        is_entry_point(bids, auction_id, p),
    ensures
        entry_point(bids, auction_id) == p,
{
    let q = entry_point(bids, auction_id);
    if p < q {
        assert(bids[p].auction_id <= auction_id);
        assert(bids[p].auction_id > auction_id);
    } else if q < p {
        assert(bids[q].auction_id <= auction_id);
        assert(bids[q].auction_id > auction_id);
    }
}

/// Nothing is selected from no bids.
pub proof fn lemma_filter_none(bids: Seq<BidView>, pred: spec_fn(BidView) -> bool)
    requires
        bids.len() == 0,
    ensures
        bids.filter(pred) == Seq::<BidView>::empty(),
{
    reveal(Seq::filter);
    assert(bids =~= Seq::<BidView>::empty());
}

/// Selecting from one more bid adds that bid where it is selected and nothing
/// else.
pub proof fn lemma_filter_take_step(bids: Seq<BidView>, pred: spec_fn(BidView) -> bool, i: int)
    requires
        0 <= i < bids.len(),
    ensures
        bids.take(i + 1).filter(pred) == if pred(bids[i]) {
            bids.take(i).filter(pred).push(bids[i])
        } else {
            bids.take(i).filter(pred)
        },
{
    reveal(Seq::filter);
    assert(bids.take(i + 1).drop_last() =~= bids.take(i));
    assert(bids.take(i + 1).last() == bids[i]);
}

/// A selection from a prefix of the bids that has filled the page is the
/// page, and so is the selection from all of them where it does not exceed
/// the page.
pub proof fn lemma_page_of_prefix(
    bids: Seq<BidView>,
    pred: spec_fn(BidView) -> bool,
    i: int,
    limit: Option<u32>,
)
    requires
        0 <= i <= bids.len(),
        match limit {
            Some(n) => bids.take(i).filter(pred).len() <= n && (i == bids.len() || bids.take(
                i,
            ).filter(pred).len() == n),
            None => i == bids.len(),
        },
    ensures
        page(bids.filter(pred), limit) == bids.take(i).filter(pred),
{
    assert(bids =~= bids.take(i) + bids.skip(i));
    Seq::filter_distributes_over_add(bids.take(i), bids.skip(i), pred);
    let front = bids.take(i).filter(pred);
    let back = bids.skip(i).filter(pred);
    assert(bids.filter(pred) == front + back);
    if i == bids.len() {
        assert(bids.skip(i) =~= Seq::<BidView>::empty());
        assert(back =~= Seq::<BidView>::empty());
        assert(front + back =~= front);
    } else {
        assert((front + back).take(front.len() as int) =~= front);
        if back.len() == 0 {
            assert(front + back =~= front);
        }
    }
}

/// A sequence of bids that is not empty has a highest bid.
pub proof fn lemma_highest_exists(bids: Seq<BidView>)
    requires
        bids.len() > 0,
    ensures
        is_highest(bids, highest_index(bids)),
    decreases bids.len(),
{
    if bids.len() == 1 {
        assert(is_highest(bids, 0));
    } else {
        let front = bids.drop_last();
        lemma_highest_exists(front);
        let h = highest_index(front);
        let last = bids.len() - 1;
        assert(front[h] == bids[h]);
        if !outranks(bids[h], bids[last]) {
            assert forall|j: int| 0 <= j < bids.len() implies !outranks(bids[j], bids[last]) by {
                if j < last {
                    assert(front[j] == bids[j]);
                }
            }
            assert(is_highest(bids, last));
        } else {
            assert forall|j: int| 0 <= j < bids.len() implies !outranks(bids[j], bids[h]) by {
                if j < last {
                    assert(front[j] == bids[j]);
                }
            }
            assert forall|j: int| h < j < bids.len() implies outranks(bids[h], bids[j]) by {
                if j < last {
                    assert(front[j] == bids[j]);
                }
            }
            assert(is_highest(bids, h));
        }
    }
}

/// Where `best` is the runner-up among the bids before index `i`, the bids
/// as a whole have a runner-up.
proof fn lemma_runner_up_scan(bids: Seq<BidView>, h: int, i: int, best: int)
    requires
        0 <= h < bids.len(),
        0 <= best < i <= bids.len(),
        best != h,
        forall|j: int| 0 <= j < i && j != h ==> !outranks(bids[j], bids[best]),
        forall|j: int| best < j < i && j != h ==> outranks(bids[best], bids[j]),
    ensures
        exists|k: int| is_runner_up(bids, h, k),
    decreases bids.len() - i,
{
    if i == bids.len() {
        assert(is_runner_up(bids, h, best));
    } else if i != h && !outranks(bids[best], bids[i]) {
        lemma_runner_up_scan(bids, h, i + 1, i);
    } else {
        lemma_runner_up_scan(bids, h, i + 1, best);
    }
}

/// A sequence of two bids or more has a second-highest bid.
pub proof fn lemma_runner_up_exists(bids: Seq<BidView>)
    requires
        bids.len() >= 2,
    ensures
        is_highest(bids, highest_index(bids)),
        is_runner_up(bids, highest_index(bids), runner_up_index(bids)),
{
    lemma_highest_exists(bids);
    let h = highest_index(bids);
    if h == 0 {
        lemma_runner_up_scan(bids, h, 2, 1);
    } else {
        lemma_runner_up_scan(bids, h, 1, 0);
    }
}

/// The second-price rule on bids that ascend by amount: the winning bid has
/// the amount of the last bid, and the amount owed is that of the bid before
/// the last, which is no more than the winning amount.
pub proof fn lemma_second_price(bids: Seq<BidView>)
    requires
        sorted_by_amount(bids),
        bids.len() >= 2,
    ensures
        bids[highest_index(bids)].amount == bids[bids.len() - 1].amount,
        bids[runner_up_index(bids)].amount == bids[bids.len() - 2].amount,
        bids[runner_up_index(bids)].amount <= bids[highest_index(bids)].amount,
{
    lemma_runner_up_exists(bids);
    let h = highest_index(bids);
    let k = runner_up_index(bids);
    let last = bids.len() - 1;
    assert(!outranks(bids[last], bids[h]));
    assert(bids[h].amount <= bids[last].amount);
    if h != last {
        assert(!outranks(bids[last], bids[k]));
        assert(bids[k].amount <= bids[last].amount);
        assert(bids[h].amount <= bids[last - 1].amount);
        assert(bids[last - 1].amount <= bids[last].amount);
    } else {
        assert(!outranks(bids[last - 1], bids[k]));
        assert(bids[k].amount <= bids[last - 1].amount);
    }
}

} // verus!
