//! The matching engine: one order book per market.
use crate::decimal::Dec;
use crate::engine::matching::error::MatchingEngineErrors;
use crate::engine::matching::limit::Limit;
use crate::engine::matching::orderbook::{
    quote_from, replay_from, side_view, sort_by_time, sorted_for, BookView, OrderRequest, Orderbook, ReplayError,
};
use crate::engine::matching::user::{ScyllaUser, User, Users};
use crate::engine::matching::{lemma_symbol_round_trip, symbol_of, Asset, Exchange, OrderSide, RegisteredSymbols};
use crate::text::same_text;
use vstd::prelude::*;

verus! {

/// Two markets are the same market: same assets, same symbol.
pub open spec fn same_market(a: Exchange, b: Exchange) -> bool {
    a.base == b.base && a.quote == b.quote && a.symbol@ == b.symbol@
}

/// The position of the book of `exchange`, if there is one.
pub open spec fn market_index(books: Seq<Orderbook>, exchange: Exchange) -> Option<int> {
    if exists|i: int| 0 <= i < books.len() && same_market(#[trigger] books[i].exchange, exchange) {
        Some(choose|i: int| 0 <= i < books.len() && same_market(#[trigger] books[i].exchange, exchange))
    } else {
        None
    }
}

/// The assets of the market that a registered symbol names.
pub open spec fn registered_market(s: RegisteredSymbols) -> (Asset, Asset) {
    match s {
        RegisteredSymbols::SOL_USDT => (Asset::SOL, Asset::USDT),
        RegisteredSymbols::BTC_USDT => (Asset::BTC, Asset::USDT),
        RegisteredSymbols::ETH_USDT => (Asset::ETH, Asset::USDT),
    }
}

/// `exchange` is the market of the registered symbol `s`.
pub open spec fn is_registered_market(exchange: Exchange, s: RegisteredSymbols) -> bool {
    exchange.wf() && (exchange.base, exchange.quote) == registered_market(s)
}

/// `exchange` is the market of one of the first `n` registered symbols.
pub open spec fn registered_among(exchange: Exchange, n: int) -> bool {
    exists|j: int| 0 <= j < n && #[trigger] is_registered_market(exchange, RegisteredSymbols::variants()[j])
}

/// What replaying `requests` on an empty book gives, the trade counter
/// starting at `trade_count`.
pub open spec fn replay_result(trade_count: i64, requests: Seq<OrderRequest>) -> (BookView, Result<(), ReplayError>) {
    replay_from(
        BookView { asks: Seq::empty(), bids: Seq::empty(), trade_id: trade_count as u64 as int },
        sort_by_time(requests),
        0,
    )
}

/// A registered symbol is the symbol of its market, and names it.
pub proof fn lemma_registered_symbol(s: RegisteredSymbols)
    ensures
        s.name() == symbol_of(registered_market(s).0, registered_market(s).1),
        Exchange::parse_symbol(s.name()) == Some(registered_market(s)),
{
    let (b, q) = registered_market(s);
    assert(s.name() =~= symbol_of(b, q));
    lemma_symbol_round_trip(b, q);
}

/// In books where no market has two books, the book of a market is the one
/// that carries it.
proof fn lemma_market_index_at(books: Seq<Orderbook>, exchange: Exchange, i: int)
    requires
        0 <= i < books.len(),
        same_market(books[i].exchange, exchange),
        forall|a: int, b: int| 0 <= a < b < books.len() ==> !same_market(#[trigger] books[a].exchange, #[trigger] books[b].exchange),
    ensures
        market_index(books, exchange) == Some(i),
{
    let k = market_index(books, exchange).unwrap();
    assert(same_market(books[k].exchange, exchange));
    if k < i {
        assert(!same_market(books[k].exchange, books[i].exchange));
    } else if i < k {
        assert(!same_market(books[i].exchange, books[k].exchange));
    }
}

/// Two names of one market find the same book.
proof fn lemma_same_market_index(books: Seq<Orderbook>, e1: Exchange, e2: Exchange)
    requires
        same_market(e1, e2),
        market_index(books, e1) is Some,
        forall|a: int, b: int| 0 <= a < b < books.len() ==> !same_market(#[trigger] books[a].exchange, #[trigger] books[b].exchange),
    ensures
        market_index(books, e2) == market_index(books, e1),
{
    let k = market_index(books, e1).unwrap();
    assert(same_market(books[k].exchange, e1));
    lemma_market_index_at(books, e2, k);
}

/// The book that recovery gives for a market: the replayed levels and
/// trade counter, the stored number of orders.
pub open spec fn recovered_book(book: Orderbook, trade_count: i64, order_count: i64, requests: Seq<OrderRequest>) -> bool {
    &&& book.book_view() == replay_result(trade_count, requests).0
    &&& book.order_id == order_count as u64
}

/// Putting `book` at position `i` (the position of its market, or one past
/// the end when there is none) keeps the books apart and every other
/// market's book in place.
proof fn lemma_put_book(before: Seq<Orderbook>, after: Seq<Orderbook>, book: Orderbook, i: int)
    requires
        book.wf(),
        forall|j: int| 0 <= j < before.len() ==> (#[trigger] before[j]).wf(),
        forall|a: int, b: int| 0 <= a < b < before.len() ==> !same_market(#[trigger] before[a].exchange, #[trigger] before[b].exchange),
        0 <= i <= before.len(),
        i < before.len() ==> same_market(before[i].exchange, book.exchange) && after == before.update(i, book),
        i == before.len() ==> market_index(before, book.exchange) is None && after == before.push(book),
    ensures
        forall|j: int| 0 <= j < after.len() ==> (#[trigger] after[j]).wf(),
        forall|a: int, b: int| 0 <= a < b < after.len() ==> !same_market(#[trigger] after[a].exchange, #[trigger] after[b].exchange),
        market_index(after, book.exchange) == Some(i),
        after[i] == book,
        forall|e: Exchange| !same_market(e, book.exchange) ==> {
            &&& (#[trigger] market_index(after, e) is Some) == (market_index(before, e) is Some)
            &&& market_index(before, e) is Some ==> market_index(after, e) == market_index(before, e)
        },
{
    let ex = book.exchange;
    let n = before.len() as int;
    assert(after.len() == if i < n { n } else { n + 1 });
    assert forall|j: int| 0 <= j < after.len() implies (#[trigger] after[j]).wf() by {
        if j != i {
            assert(after[j] == before[j]);
        }
    }
    assert forall|a: int, b: int| 0 <= a < b < after.len() implies !same_market(
        #[trigger] after[a].exchange,
        #[trigger] after[b].exchange,
    ) by {
        if a != i && b != i {
            assert(after[a] == before[a] && after[b] == before[b]);
        } else if a == i {
            assert(after[b] == before[b]);
            assert(!same_market(before[a].exchange, before[b].exchange));
        } else if i < n {
            assert(after[a] == before[a]);
            assert(!same_market(before[a].exchange, before[b].exchange));
        } else {
            assert(after[a] == before[a]);
            if same_market(before[a].exchange, ex) {
                assert(exists|k: int| 0 <= k < before.len() && same_market(#[trigger] before[k].exchange, ex));
            }
        }
    }
    assert(same_market(after[i].exchange, ex));
    lemma_market_index_at(after, ex, i);
    assert forall|e: Exchange| !same_market(e, ex) implies {
        &&& (#[trigger] market_index(after, e) is Some) == (market_index(before, e) is Some)
        &&& market_index(before, e) is Some ==> market_index(after, e) == market_index(before, e)
    } by {
        if market_index(before, e) is Some {
            let k = market_index(before, e).unwrap();
            assert(same_market(before[k].exchange, e));
            assert(k != i);
            assert(after[k] == before[k]);
            lemma_market_index_at(after, e, k);
        }
        if market_index(after, e) is Some {
            let k = market_index(after, e).unwrap();
            assert(same_market(after[k].exchange, e));
            assert(k != i);
            assert(after[k] == before[k]);
            assert(same_market(before[k].exchange, e));
        }
    }
}

/// Distinct registered symbols name distinct markets.
proof fn lemma_registered_distinct(i: int, j: int)
    requires
        0 <= i < RegisteredSymbols::variants().len(),
        0 <= j < RegisteredSymbols::variants().len(),
        i != j,
    ensures
        registered_market(RegisteredSymbols::variants()[i]).0 != registered_market(RegisteredSymbols::variants()[j]).0,
{
}

/// One step of recovery: installing the `i`-th registered market's book
/// keeps what the earlier steps installed and every other market's book.
proof fn lemma_recover_step(
    start: MatchingEngine,
    prev: MatchingEngine,
    cur: MatchingEngine,
    book: Orderbook,
    trade_count: i64,
    order_count: i64,
    all: Seq<Vec<OrderRequest>>,
    i: int,
)
    requires
        0 <= i < RegisteredSymbols::variants().len(),
        is_registered_market(book.exchange, RegisteredSymbols::variants()[i]),
        recovered_book(book, trade_count, order_count, all[i]@),
        forall|j: int, e: Exchange| 0 <= j < i && #[trigger] is_registered_market(e, RegisteredSymbols::variants()[j]) ==> {
            &&& prev.has_market(e)
            &&& recovered_book(prev.book(e), trade_count, order_count, all[j]@)
        },
        forall|e: Exchange| !registered_among(e, i) ==> {
            &&& (#[trigger] prev.has_market(e)) == start.has_market(e)
            &&& start.has_market(e) ==> prev.book(e) == start.book(e)
        },
        cur.wf(),
        cur.has_market(book.exchange),
        cur.book(book.exchange) == book,
        forall|e: Exchange| !same_market(e, book.exchange) ==> {
            &&& (#[trigger] cur.has_market(e)) == prev.has_market(e)
            &&& prev.has_market(e) ==> cur.book(e) == prev.book(e)
        },
    ensures
        forall|j: int, e: Exchange| 0 <= j < i + 1 && #[trigger] is_registered_market(e, RegisteredSymbols::variants()[j]) ==> {
            &&& cur.has_market(e)
            &&& recovered_book(cur.book(e), trade_count, order_count, all[j]@)
        },
        forall|e: Exchange| !registered_among(e, i + 1) ==> {
            &&& (#[trigger] cur.has_market(e)) == start.has_market(e)
            &&& start.has_market(e) ==> cur.book(e) == start.book(e)
        },
{
    let syms = RegisteredSymbols::variants();
    let ex = book.exchange;
    assert forall|j: int, e: Exchange| 0 <= j < i + 1 && #[trigger] is_registered_market(e, syms[j]) implies {
        &&& cur.has_market(e)
        &&& recovered_book(cur.book(e), trade_count, order_count, all[j]@)
    } by {
        if j == i {
            assert(same_market(ex, e));
            lemma_same_market_index(cur.orderbook@, ex, e);
            assert(cur.has_market(e));
            assert(cur.book(e) == book);
        } else {
            lemma_registered_distinct(i, j);
            assert(!same_market(e, ex));
            assert(prev.has_market(e));
            assert(cur.has_market(e));
            assert(cur.book(e) == prev.book(e));
        }
    }
    assert forall|e: Exchange| !registered_among(e, i + 1) implies {
        &&& (#[trigger] cur.has_market(e)) == start.has_market(e)
        &&& start.has_market(e) ==> cur.book(e) == start.book(e)
    } by {
        if is_registered_market(e, syms[i]) {
            assert(registered_among(e, i + 1));
        }
        if same_market(e, ex) {
            assert(e.symbol@ == symbol_of(ex.base, ex.quote));
            assert(e.wf());
            assert(is_registered_market(e, syms[i]));
        }
        assert(!same_market(e, ex));
        assert(!registered_among(e, i));
        assert(prev.has_market(e) == start.has_market(e));
        assert(cur.has_market(e) == prev.has_market(e));
        if start.has_market(e) {
            assert(prev.book(e) == start.book(e));
            assert(cur.book(e) == prev.book(e));
        }
    }
}

/// Every stored user row parses.
pub open spec fn rows_parse(rows: Seq<ScyllaUser>) -> bool {
    forall|i: int| 0 <= i < rows.len() ==> (#[trigger] rows[i]).parses()
}

/// The users after putting each of `loaded` in turn under its id.
pub open spec fn users_loaded(users: Map<u64, User>, loaded: Seq<User>) -> Map<u64, User>
    decreases loaded.len(),
{
    if loaded.len() == 0 {
        users
    } else {
        users_loaded(users, loaded.drop_last()).insert(loaded.last().id, loaded.last())
    }
}

/// The engine: the order books of the markets it runs.
pub struct MatchingEngine {
    pub orderbook: Vec<Orderbook>,
}

impl MatchingEngine {
    /// Every book is well formed and no market has two books.
    pub open spec fn wf(&self) -> bool {
        &&& forall|i: int| 0 <= i < self.orderbook@.len() ==> (#[trigger] self.orderbook@[i]).wf()
        &&& forall|i: int, j: int|
            0 <= i < j < self.orderbook@.len() ==> !same_market(
                #[trigger] self.orderbook@[i].exchange,
                #[trigger] self.orderbook@[j].exchange,
            )
    }

    /// The engine runs a market for `exchange`.
    pub open spec fn has_market(&self, exchange: Exchange) -> bool {
        market_index(self.orderbook@, exchange) is Some
    }

    /// The book of `exchange`.
    pub open spec fn book(&self, exchange: Exchange) -> Orderbook {
        self.orderbook@[market_index(self.orderbook@, exchange).unwrap()]
    }

    /// An engine that runs no market yet.
    pub fn init() -> (e: MatchingEngine)
        ensures
            e.wf(),
            e.orderbook@.len() == 0,
    {
        MatchingEngine { orderbook: Vec::new() }
    }

    /// Finds the book of `exchange`.
    fn find(&self, exchange: &Exchange) -> (r: Option<usize>)
        requires
            self.wf(),
        ensures
            match r {
                None => !self.has_market(*exchange),
                Some(i) => self.has_market(*exchange) && i == market_index(self.orderbook@, *exchange).unwrap()
                    && i < self.orderbook@.len(),
            },
    {
        let mut i: usize = 0;
        while i < self.orderbook.len()
            invariant
                self.wf(),
                i <= self.orderbook@.len(),
                forall|j: int| 0 <= j < i ==> !same_market(#[trigger] self.orderbook@[j].exchange, *exchange),
            decreases self.orderbook@.len() - i,
        {
            let e = &self.orderbook[i].exchange;
            if e.base == exchange.base && e.quote == exchange.quote && same_text(e.symbol.as_str(), exchange.symbol.as_str()) {
                proof {
                    assert(same_market(self.orderbook@[i as int].exchange, *exchange));
                    let k = market_index(self.orderbook@, *exchange).unwrap();
                    assert(same_market(self.orderbook@[k].exchange, *exchange));
                    if k != i {
                        if k < i {
                            assert(!same_market(self.orderbook@[k].exchange, self.orderbook@[i as int].exchange));
                        } else {
                            assert(!same_market(self.orderbook@[i as int].exchange, self.orderbook@[k].exchange));
                        }
                    }
                }
                return Some(i);
            }
            i = i + 1;
        }
        None
    }

    /// Opens a market for `exchange` with an empty book; refused when the
    /// engine already runs that market.
    pub fn add_new_market(&mut self, exchange: Exchange) -> (r: Result<(), MatchingEngineErrors>)
        requires
            old(self).wf(),
        ensures
            final(self).wf(),
            match r {
                Ok(()) => !old(self).has_market(exchange) && final(self).orderbook@.len() == old(self).orderbook@.len() + 1
                    && final(self).orderbook@.take(old(self).orderbook@.len() as int) == old(self).orderbook@
                    && final(self).orderbook@.last().exchange == exchange
                    && final(self).orderbook@.last().trade_id == 0
                    && final(self).orderbook@.last().order_id == 0
                    && final(self).orderbook@.last().asks@.len() == 0
                    && final(self).orderbook@.last().bids@.len() == 0,
                Err(e) => old(self).has_market(exchange) && e == MatchingEngineErrors::ExchangeAlreadyExist
                    && final(self).orderbook@ == old(self).orderbook@,
            },
    {
        if self.find(&exchange).is_some() {
            return Err(MatchingEngineErrors::ExchangeAlreadyExist);
        }
        let book = Orderbook::new(exchange);
        let ghost before = self.orderbook@;
        self.orderbook.push(book);
        proof {
            assert(self.orderbook@.take(before.len() as int) =~= before);
            assert forall|i: int, j: int| 0 <= i < j < self.orderbook@.len() implies !same_market(
                #[trigger] self.orderbook@[i].exchange,
                #[trigger] self.orderbook@[j].exchange,
            ) by {
                if j == before.len() {
                    assert(self.orderbook@[i] == before[i]);
                    assert(!same_market(before[i].exchange, exchange));
                } else {
                    assert(self.orderbook@[i] == before[i] && self.orderbook@[j] == before[j]);
                }
            }
            assert forall|i: int| 0 <= i < self.orderbook@.len() implies (#[trigger] self.orderbook@[i]).wf() by {
                if i < before.len() {
                    assert(self.orderbook@[i] == before[i]);
                }
            }
        }
        Ok(())
    }

    /// Copies of the ask levels of `exchange`, lowest price first.
    pub fn get_asks(&self, exchange: &Exchange) -> (r: Vec<Limit>)
        requires
            self.wf(),
            self.has_market(*exchange),
        ensures
            side_view(r@) == side_view(self.book(*exchange).asks@),
            sorted_for(side_view(r@), OrderSide::Ask),
    {
        match self.find(exchange) {
            Some(i) => {
                proof {
                    lemma_side_sorted(self.orderbook@[i as int], OrderSide::Ask);
                }
                copy_levels(&self.orderbook[i].asks)
            },
            None => Vec::new(),
        }
    }

    /// Copies of the bid levels of `exchange`, highest price first.
    pub fn get_bids(&self, exchange: &Exchange) -> (r: Vec<Limit>)
        requires
            self.wf(),
            self.has_market(*exchange),
        ensures
            side_view(r@) == side_view(self.book(*exchange).bids@),
            sorted_for(side_view(r@), OrderSide::Bid),
    {
        match self.find(exchange) {
            Some(i) => {
                proof {
                    lemma_side_sorted(self.orderbook@[i as int], OrderSide::Bid);
                }
                copy_levels(&self.orderbook[i].bids)
            },
            None => Vec::new(),
        }
    }

    /// The quote for `order_quantity` in the market `exchange` (see
    /// `Orderbook::get_quote`).
    pub fn get_quote(&self, order_side: &OrderSide, order_quantity: Dec, exchange: &Exchange) -> (r: Result<Dec, MatchingEngineErrors>)
        requires
            self.wf(),
            self.has_market(*exchange),
            order_quantity.wf(),
            quote_from(self.book(*exchange).levels(order_side.opposite()), 0, order_quantity, Dec::zero_spec()) is Some,
        ensures
            Some(r) == quote_from(self.book(*exchange).levels(order_side.opposite()), 0, order_quantity, Dec::zero_spec()),
    {
        match self.try_get_quote(order_side, order_quantity, exchange) {
            Some(r) => r,
            None => Err(MatchingEngineErrors::AskedMoreThanTradeable),
        }
    }

    /// `get_quote`, or `None` when the computation overflows.
    pub fn try_get_quote(&self, order_side: &OrderSide, order_quantity: Dec, exchange: &Exchange) -> (r: Option<Result<Dec, MatchingEngineErrors>>)
        requires
            self.wf(),
            self.has_market(*exchange),
            order_quantity.wf(),
        ensures
            r == quote_from(self.book(*exchange).levels(order_side.opposite()), 0, order_quantity, Dec::zero_spec()),
    {
        match self.find(exchange) {
            Some(i) => self.orderbook[i].try_get_quote(order_side, order_quantity),
            None => None,
        }
    }

    /// Installs `book` as the book of its market, in place of the one the
    /// engine held for that market, if any; other markets keep theirs.
    pub fn put_book(&mut self, book: Orderbook)
        requires
            old(self).wf(),
            book.wf(),
        ensures
            final(self).wf(),
            final(self).has_market(book.exchange),
            final(self).book(book.exchange) == book,
            forall|e: Exchange| !same_market(e, book.exchange) ==> {
                &&& (#[trigger] final(self).has_market(e)) == old(self).has_market(e)
                &&& old(self).has_market(e) ==> final(self).book(e) == old(self).book(e)
            },
    {
        let ghost before = self.orderbook@;
        match self.find(&book.exchange) {
            Some(i) => {
                let ghost b = book;
                self.orderbook.set(i, book);
                proof {
                    lemma_put_book(before, self.orderbook@, b, i as int);
                }
            },
            None => {
                let ghost b = book;
                self.orderbook.push(book);
                proof {
                    lemma_put_book(before, self.orderbook@, b, before.len() as int);
                }
            },
        }
    }

    /// Restores the engine after a restart: first every stored user (the
    /// rows `user_rows`) is put into `users` under its id, a later row for
    /// an id replacing an earlier one; then the book of every registered
    /// market is rebuilt (`requests[i]` are the stored requests of the
    /// `i`-th registered symbol, the counters the numbers of trades and
    /// orders stored so far), stopping at the first market whose replay
    /// fails.  A user row that does not parse stops it all before anything
    /// changes, with `UnreadableUser`.
    pub fn recover_all_orderbooks(
        &mut self,
        users: &mut Users,
        user_rows: Vec<ScyllaUser>,
        trade_count: i64,
        order_count: i64,
        requests: Vec<Vec<OrderRequest>>,
    ) -> (r: Result<(), ReplayError>)
        requires
            old(self).wf(),
            old(users).wf(),
            requests@.len() == RegisteredSymbols::variants().len(),
            forall|i: int, j: int|
                0 <= i < requests@.len() && 0 <= j < requests@[i]@.len() ==> (#[trigger] requests@[i]@[j]).wf(),
        ensures
            final(self).wf(),
            final(users).wf(),
            !rows_parse(user_rows@) ==> r == Err::<(), ReplayError>(ReplayError::UnreadableUser)
                && final(self).orderbook@ == old(self).orderbook@ && final(users).users@ == old(users).users@,
            rows_parse(user_rows@) ==> exists|loaded_users: Seq<User>| {
                &&& loaded_users.len() == user_rows@.len()
                &&& forall|i: int| 0 <= i < user_rows@.len() ==> (#[trigger] user_rows@[i]).decodes_to(loaded_users[i])
                &&& final(users).users@ == users_loaded(old(users).users@, loaded_users)
            },
            rows_parse(user_rows@) ==> (r is Ok <==> forall|i: int| 0 <= i < requests@.len() ==> (#[trigger] replay_result(trade_count, requests@[i]@)).1 is Ok),
            rows_parse(user_rows@) ==> (r matches Err(err) ==> exists|k: int| {
                &&& 0 <= k < requests@.len()
                &&& (#[trigger] replay_result(trade_count, requests@[k]@)).1 == Err::<(), ReplayError>(err)
                &&& forall|j: int| 0 <= j < k ==> (#[trigger] replay_result(trade_count, requests@[j]@)).1 is Ok
            }),
            r is Ok ==> forall|i: int, e: Exchange|
                0 <= i < requests@.len() && #[trigger] is_registered_market(e, RegisteredSymbols::variants()[i]) ==> {
                    &&& final(self).has_market(e)
                    &&& recovered_book(final(self).book(e), trade_count, order_count, requests@[i]@)
                },
            r is Ok ==> forall|e: Exchange|
                !registered_among(e, requests@.len() as int)
                    ==> {
                    &&& (#[trigger] final(self).has_market(e)) == old(self).has_market(e)
                    &&& old(self).has_market(e) ==> final(self).book(e) == old(self).book(e)
                },
    {
        let mut loaded: Vec<User> = Vec::new();
        let mut i: usize = 0;
        while i < user_rows.len()
            invariant
                self.wf(),
                users.wf(),
                self.orderbook@ == old(self).orderbook@,
                users.users@ == old(users).users@,
                i <= user_rows@.len(),
                loaded@.len() == i,
                forall|j: int| 0 <= j < i ==> (#[trigger] user_rows@[j]).decodes_to(loaded@[j]),
            decreases user_rows@.len() - i,
        {
            match user_rows[i].try_from_scylla_user() {
                Some(u) => loaded.push(u),
                None => {
                    proof {
                        assert(!user_rows@[i as int].parses());
                    }
                    return Err(ReplayError::UnreadableUser);
                },
            }
            i = i + 1;
        }
        proof {
            assert(rows_parse(user_rows@));
        }
        let ghost all = loaded@;
        let ghost start = users.users@;
        let mut loaded = loaded;
        proof {
            assert(all.take(0) =~= Seq::<User>::empty());
            assert(all.subrange(0, all.len() as int) =~= all);
        }
        let mut k: usize = 0;
        while loaded.len() > 0
            invariant
                self.wf(),
                self.orderbook@ == old(self).orderbook@,
                users.wf(),
                k + loaded@.len() == all.len(),
                loaded@ == all.subrange(k as int, all.len() as int),
                forall|j: int| 0 <= j < user_rows@.len() ==> (#[trigger] user_rows@[j]).decodes_to(all[j]),
                all.len() == user_rows@.len(),
                all.len() <= usize::MAX,
                users.users@ == users_loaded(start, all.take(k as int)),
            decreases loaded@.len(),
        {
            let u = loaded.remove(0);
            proof {
                assert(u == all[k as int]);
                assert(user_rows@[k as int].decodes_to(all[k as int]));
                assert(all.take(k + 1).drop_last() =~= all.take(k as int));
            }
            users.insert(u);
            k = k + 1;
            proof {
                assert(loaded@ =~= all.subrange(k as int, all.len() as int));
            }
        }
        proof {
            assert(all.take(k as int) =~= all);
        }
        let ghost mid = *self;
        let r = self.recover_books(trade_count, order_count, requests);
        proof {
            assert(mid.orderbook@ == old(self).orderbook@);
            if r is Ok {
                assert forall|e: Exchange| !registered_among(e, requests@.len() as int) implies {
                    &&& (#[trigger] self.has_market(e)) == old(self).has_market(e)
                    &&& old(self).has_market(e) ==> self.book(e) == old(self).book(e)
                } by {
                    assert(mid.has_market(e) == old(self).has_market(e));
                    if mid.has_market(e) {
                        assert(mid.book(e) == old(self).book(e));
                    }
                }
            }
        }
        r
    }

    /// Rebuilds the book of every registered market after a restart:
    /// `requests[i]` are the stored requests of the `i`-th registered
    /// symbol, and the counters are the numbers of trades and orders stored
    /// so far. Stops at the first market whose replay fails.
    fn recover_books(
        &mut self,
        trade_count: i64,
        order_count: i64,
        requests: Vec<Vec<OrderRequest>>,
    ) -> (r: Result<(), ReplayError>)
        requires
            old(self).wf(),
            requests@.len() == RegisteredSymbols::variants().len(),
            forall|i: int, j: int|
                0 <= i < requests@.len() && 0 <= j < requests@[i]@.len() ==> (#[trigger] requests@[i]@[j]).wf(),
        ensures
            final(self).wf(),
            r is Ok <==> forall|i: int| 0 <= i < requests@.len() ==> (#[trigger] replay_result(trade_count, requests@[i]@)).1 is Ok,
            r matches Err(err) ==> exists|k: int| {
                &&& 0 <= k < requests@.len()
                &&& (#[trigger] replay_result(trade_count, requests@[k]@)).1 == Err::<(), ReplayError>(err)
                &&& forall|j: int| 0 <= j < k ==> (#[trigger] replay_result(trade_count, requests@[j]@)).1 is Ok
            },
            r is Ok ==> forall|i: int, e: Exchange|
                0 <= i < requests@.len() && #[trigger] is_registered_market(e, RegisteredSymbols::variants()[i]) ==> {
                    &&& final(self).has_market(e)
                    &&& recovered_book(final(self).book(e), trade_count, order_count, requests@[i]@)
                },
            r is Ok ==> forall|e: Exchange|
                !registered_among(e, requests@.len() as int)
                    ==> {
                    &&& (#[trigger] final(self).has_market(e)) == old(self).has_market(e)
                    &&& old(self).has_market(e) ==> final(self).book(e) == old(self).book(e)
                },
    {
        let ghost all = requests@;
        let ghost syms = RegisteredSymbols::variants();
        let mut pending = requests;
        let symbols = RegisteredSymbols::all();
        let mut i: usize = 0;
        while i < symbols.len()
            invariant
                symbols@ == syms,
                syms == RegisteredSymbols::variants(),
                all.len() == syms.len(),
                i <= syms.len(),
                pending@ == all.subrange(i as int, all.len() as int),
                all == requests@,
                forall|a: int, b: int| 0 <= a < all.len() && 0 <= b < all[a]@.len() ==> (#[trigger] all[a]@[b]).wf(),
                self.wf(),
                forall|j: int| 0 <= j < i ==> (#[trigger] replay_result(trade_count, all[j]@)).1 is Ok,
                forall|j: int, e: Exchange| 0 <= j < i && #[trigger] is_registered_market(e, syms[j]) ==> {
                    &&& self.has_market(e)
                    &&& recovered_book(self.book(e), trade_count, order_count, all[j]@)
                },
                forall|e: Exchange| !registered_among(e, i as int) ==> {
                    &&& (#[trigger] self.has_market(e)) == old(self).has_market(e)
                    &&& old(self).has_market(e) ==> self.book(e) == old(self).book(e)
                },
            decreases syms.len() - i,
        {
            let ghost sym = syms[i as int];
            proof {
                lemma_registered_symbol(sym);
            }
            let symbol = symbols[i].to_string();
            let exchange = match Exchange::from_str(symbol.as_str()) {
                Ok(e) => e,
                Err(_) => {
                    proof {
                        assert(false);
                    }
                    return Err(ReplayError::InvalidOrderSide);
                },
            };
            let ghost ex = exchange;
            assert(is_registered_market(ex, sym));
            let reqs = pending.remove(0);
            assert(reqs@ == all[i as int]@);
            let mut book = Orderbook::new(exchange);
            assert(book.book_view() == BookView { asks: Seq::empty(), bids: Seq::empty(), trade_id: 0 }) by {
                assert(side_view(book.asks@) =~~= Seq::empty());
                assert(side_view(book.bids@) =~~= Seq::empty());
            }
            let res = book.recover_orderbook(trade_count, order_count, reqs);
            proof {
                assert(BookView { trade_id: trade_count as u64 as int, ..BookView { asks: Seq::empty(), bids: Seq::empty(), trade_id: 0 } }
                    == BookView { asks: Seq::empty(), bids: Seq::empty(), trade_id: trade_count as u64 as int });
            }
            if res.is_err() {
                proof {
                    assert(replay_result(trade_count, all[i as int]@).1 == res);
                }
                return res;
            }
            let ghost prev = *self;
            let ghost b = book;
            self.put_book(book);
            proof {
                lemma_recover_step(*old(self), prev, *self, b, trade_count, order_count, all, i as int);
                assert(pending@ =~= all.subrange(i + 1, all.len() as int));
            }
            i = i + 1;
        }
        Ok(())
    }

    /// The symbols of the markets that the engine is to run, in
    /// declaration order.
    pub fn registered_exchange(&self) -> (r: Vec<String>)
        ensures
            r@.len() == RegisteredSymbols::variants().len(),
            forall|i: int| 0 <= i < r@.len() ==> #[trigger] r@[i]@ == RegisteredSymbols::variants()[i].name(),
    {
        let symbols = RegisteredSymbols::all();
        let mut out: Vec<String> = Vec::new();
        let mut i: usize = 0;
        while i < symbols.len()
            invariant
                symbols@ == RegisteredSymbols::variants(),
                i <= symbols@.len(),
                out@.len() == i,
                forall|j: int| 0 <= j < i ==> #[trigger] out@[j]@ == symbols@[j].name(),
            decreases symbols@.len() - i,
        {
            out.push(symbols[i].to_string());
            i = i + 1;
        }
        out
    }

    /// Takes the next order id of the market `exchange`.
    pub fn increment_order_id(&mut self, exchange: &Exchange) -> (id: u64)
        requires
            old(self).wf(),
            old(self).has_market(*exchange),
            old(self).book(*exchange).order_id < u64::MAX,
        ensures
            final(self).wf(),
            id == old(self).book(*exchange).order_id + 1,
            ({
                let i = market_index(old(self).orderbook@, *exchange).unwrap();
                &&& final(self).orderbook@.len() == old(self).orderbook@.len()
                &&& forall|j: int| 0 <= j < old(self).orderbook@.len() && j != i ==> #[trigger] final(self).orderbook@[j] == old(self).orderbook@[j]
                &&& final(self).orderbook@[i].order_id == id
                &&& final(self).orderbook@[i].trade_id == old(self).orderbook@[i].trade_id
                &&& final(self).orderbook@[i].exchange == old(self).orderbook@[i].exchange
                &&& final(self).orderbook@[i].asks == old(self).orderbook@[i].asks
                &&& final(self).orderbook@[i].bids == old(self).orderbook@[i].bids
            }),
    {
        match self.find(exchange) {
            Some(i) => {
                let ghost before = self.orderbook@;
                let id = self.orderbook[i].increment_order_id();
                proof {
                    assert forall|j: int| 0 <= j < self.orderbook@.len() implies (#[trigger] self.orderbook@[j]).wf() by {
                        if j != i {
                            assert(self.orderbook@[j] == before[j]);
                        } else {
                            assert(self.orderbook@[j].asks == before[j].asks && self.orderbook@[j].bids == before[j].bids);
                            assert(before[j].wf());
                        }
                    }
                    assert forall|a: int, b: int| 0 <= a < b < self.orderbook@.len() implies !same_market(
                        #[trigger] self.orderbook@[a].exchange,
                        #[trigger] self.orderbook@[b].exchange,
                    ) by {
                        assert(self.orderbook@[a].exchange == before[a].exchange);
                        assert(self.orderbook@[b].exchange == before[b].exchange);
                    }
                }
                id
            },
            None => 0,
        }
    }
}

/// An engine running the SOL/USDT market, that market, an empty book of
/// it, and the ids of eight users.
pub fn setup_engine_and_users() -> (r: (MatchingEngine, Exchange, Orderbook, Vec<u64>))
    ensures
        r.0.wf(),
        r.0.orderbook@.len() == 1,
        r.0.orderbook@[0].exchange.base == Asset::SOL,
        r.0.orderbook@[0].exchange.quote == Asset::USDT,
        r.0.orderbook@[0].asks@.len() == 0,
        r.0.orderbook@[0].bids@.len() == 0,
        r.1.base == Asset::SOL,
        r.1.quote == Asset::USDT,
        r.1.wf(),
        same_market(r.2.exchange, r.1),
        same_market(r.0.orderbook@[0].exchange, r.1),
        r.2.asks@.len() == 0,
        r.2.bids@.len() == 0,
        r.2.trade_id == 0,
        r.2.order_id == 0,
        r.3@ == seq![1u64, 2, 3, 4, 5, 6, 7, 8],
{
    let mut engine = MatchingEngine::init();
    let exchange = Exchange::new(Asset::SOL, Asset::USDT);
    let orderbook = Orderbook::new(exchange.duplicate());
    let _ = engine.add_new_market(exchange.duplicate());
    let ids: Vec<u64> = vec![1, 2, 3, 4, 5, 6, 7, 8];
    proof {
        assert(ids@ =~= seq![1u64, 2, 3, 4, 5, 6, 7, 8]);
    }
    (engine, exchange, orderbook, ids)
}

/// A book that the engine holds last is the book of its market: a market
/// just opened is found, so it cannot be opened again.
pub proof fn law_opened_market_is_found(books: Seq<Orderbook>, exchange: Exchange)
    requires
        books.len() > 0,
        books.last().exchange == exchange,
    ensures
        market_index(books, exchange) is Some,
{
    assert(same_market(books[books.len() - 1].exchange, exchange));
}

/// The levels of a well-formed book's side stand in matching order.
proof fn lemma_side_sorted(book: Orderbook, side: OrderSide)
    requires
        book.wf(),
    ensures
        sorted_for(book.levels(side), side),
{
    let l = book.levels(side);
    assert forall|i: int, j: int| 0 <= i < j < l.len() implies !crate::engine::matching::orderbook::ahead(#[trigger] l[j].price, #[trigger] l[i].price, side) by {
        assert(crate::engine::matching::orderbook::ahead(l[i].price, l[j].price, side));
    }
}

/// A level-for-level copy.
fn copy_levels(levels: &Vec<Limit>) -> (c: Vec<Limit>)
    ensures
        side_view(c@) == side_view(levels@),
{
    let mut c: Vec<Limit> = Vec::new();
    let mut k: usize = 0;
    while k < levels.len()
        invariant
            k <= levels@.len(),
            side_view(c@) == side_view(levels@).take(k as int),
        decreases levels@.len() - k,
    {
        let mut orders = Vec::new();
        let mut j: usize = 0;
        while j < levels[k].orders.len()
            invariant
                k < levels@.len(),
                j <= levels@[k as int].orders@.len(),
                orders@ == levels@[k as int].orders@.take(j as int),
            decreases levels@[k as int].orders@.len() - j,
        {
            orders.push(levels[k].orders[j]);
            j = j + 1;
            proof {
                assert(orders@ =~= levels@[k as int].orders@.take(j as int));
            }
        }
        proof {
            assert(levels@[k as int].orders@.take(j as int) =~= levels@[k as int].orders@);
        }
        let ghost before = side_view(c@);
        c.push(Limit { price: levels[k].price, orders });
        proof {
            assert(side_view(c@) =~~= before.push(levels@[k as int]@));
            assert(side_view(levels@).take(k + 1) =~~= side_view(levels@).take(k as int).push(levels@[k as int]@));
        }
        k = k + 1;
    }
    proof {
        assert(side_view(levels@).take(k as int) =~~= side_view(levels@));
    }
    c
}

} // verus!
