//! A side book: at most one level per venue and no more levels than its
//! capacity, ranked so that either end can be read.
//!
//! The ranks live in the priority queue of `ranked`; the levels themselves
//! are kept beside it, one slot per venue tag. To its callers a side book is
//! a map from venue to level.

use crate::book::{book_views, level_rank, Book, BookKind, BookView};
use crate::decimal::Decimal;
use crate::exchange::{Exchange, VENUES};
use crate::ranked::{
    queue_clone, queue_entries, queue_len, queue_new, queue_peek_max, queue_pop_max, queue_pop_min,
    queue_push, rank_le, Rank, RankQueue,
};
use vstd::prelude::*;

verus! {

/// A level with its texts read as numbers.
struct Level {
    book: Book,
    price: Decimal,
    amount: Decimal,
}

impl Level {
    spec fn ok(self) -> bool {
        &&& self.price.wf()
        &&& self.amount.wf()
        &&& Decimal::read(self.book@.price) == Some(self.price)
        &&& Decimal::read(self.book@.amount) == Some(self.amount)
        &&& self.amount.mantissa >= 0
    }
}

/// One side of the merged book.
pub struct BookQueue {
    cap: usize,
    kind: BookKind,
    books: RankQueue,
    slots: Vec<Option<Level>>,
}

/// Whether `v` holds a level of `m` that no level of `m` outranks.
pub open spec fn is_highest(m: Map<Exchange, BookView>, v: Exchange) -> bool {
    m.dom().contains(v) && forall|w: Exchange| #[trigger]
        m.dom().contains(w) ==> rank_le(m[w].rank(), m[v].rank())
}

/// Whether `v` holds a level of `m` that outranks no level of `m`.
pub open spec fn is_lowest(m: Map<Exchange, BookView>, v: Exchange) -> bool {
    m.dom().contains(v) && forall|w: Exchange| #[trigger]
        m.dom().contains(w) ==> rank_le(m[v].rank(), m[w].rank())
}

/// Whether `out` lists the `n` highest levels of `m`, highest first, and
/// `venues` names the venue of each: as many levels as `m` has if it has
/// fewer than `n`, no venue twice, every level left out ranked no higher
/// than any level listed. Levels of equal rank may come in either order.
pub open spec fn lists_top(
    m: Map<Exchange, BookView>,
    n: nat,
    venues: Seq<Exchange>,
    out: Seq<BookView>,
) -> bool {
    &&& venues.len() == out.len()
    &&& out.len() == if n <= m.dom().len() {
        n
    } else {
        m.dom().len()
    }
    &&& venues.no_duplicates()
    &&& forall|i: int|
        0 <= i < venues.len() ==> m.dom().contains(#[trigger] venues[i]) && out[i] == m[venues[i]]
    &&& forall|i: int, j: int|
        0 <= i < j < out.len() ==> rank_le(#[trigger] out[j].rank(), #[trigger] out[i].rank())
    &&& forall|w: Exchange, i: int|
        m.dom().contains(w) && !venues.contains(w) && 0 <= i < out.len() ==> rank_le(
            #[trigger] m[w].rank(),
            #[trigger] out[i].rank(),
        )
}

/// Whether `after` is what a push of `book` under `venue` makes of the side
/// `m` of a book of capacity `cap`. The level takes the place of the one
/// that the venue had, if it had one. Where the book would then hold more
/// levels than a capacity of at least one allows, a lowest level leaves: the
/// one that leaves ranks no higher than any level that stays, and where
/// several rank lowest, either may leave. A capacity of zero sets no bound.
pub open spec fn pushed(
    m: Map<Exchange, BookView>,
    cap: nat,
    venue: Exchange,
    book: BookView,
    after: Map<Exchange, BookView>,
) -> bool {
    let put = m.insert(venue, book);
    if cap == 0 || put.dom().len() <= cap {
        after == put
    } else {
        exists|gone: Exchange| is_lowest(put, gone) && after == put.remove(gone)
    }
}

/// Whether `price` is the price of a highest level of `m`, or zero where `m`
/// is empty.
pub open spec fn is_max_price(m: Map<Exchange, BookView>, price: Decimal) -> bool {
    if m.dom().len() == 0 {
        price == (Decimal { mantissa: 0, scale: 0 })
    } else {
        exists|v: Exchange| is_highest(m, v) && price == m[v].price_value()
    }
}

/// Whether no two venues of `m` hold levels of the same rank.
pub open spec fn no_ties(m: Map<Exchange, BookView>) -> bool {
    forall|a: Exchange, b: Exchange|
        m.dom().contains(a) && m.dom().contains(b) && a != b ==> (#[trigger] m[a]).rank() != (
        #[trigger] m[b]).rank()
}

/// Two listings of the same side name the same venue at every position, as
/// long as no two levels of the side have the same rank.
pub proof fn lemma_listing_venue(
    m: Map<Exchange, BookView>,
    n: nat,
    v1: Seq<Exchange>,
    o1: Seq<BookView>,
    v2: Seq<Exchange>,
    o2: Seq<BookView>,
    i: int,
)
    requires
        lists_top(m, n, v1, o1),
        lists_top(m, n, v2, o2),
        no_ties(m),
        0 <= i < v1.len(),
    ensures
        v1[i] == v2[i],
    decreases i,
{
    assert forall|j: int| 0 <= j < i implies v1[j] == v2[j] by {
        lemma_listing_venue(m, n, v1, o1, v2, o2, j);
    }
    let a = v1[i];
    let b = v2[i];
    if a != b {
        lemma_outranked(m, n, v1, o1, v2, o2, i);
        lemma_outranked(m, n, v2, o2, v1, o1, i);
        crate::ranked::lemma_rank_total(m[a].rank(), m[b].rank(), m[a].rank());
    }
}

/// Where two listings agree before position `i` and differ at it, the venue
/// that the second names there ranks no higher than the one that the first
/// names there.
proof fn lemma_outranked(
    m: Map<Exchange, BookView>,
    n: nat,
    v1: Seq<Exchange>,
    o1: Seq<BookView>,
    v2: Seq<Exchange>,
    o2: Seq<BookView>,
    i: int,
)
    requires
        lists_top(m, n, v1, o1),
        lists_top(m, n, v2, o2),
        0 <= i < v1.len(),
        forall|j: int| 0 <= j < i ==> v1[j] == v2[j],
        v1[i] != v2[i],
    ensures
        rank_le(m[v2[i]].rank(), m[v1[i]].rank()),
{
    let a = v1[i];
    let b = v2[i];
    assert(m.dom().contains(a) && o1[i] == m[a]);
    assert(m.dom().contains(b) && o2[i] == m[b]);
    if v1.contains(b) {
        let p = choose|p: int| 0 <= p < v1.len() && v1[p] == b;
        if p < i {
            assert(v2[p] == b);
            assert(v2[i] == b);
        } else {
            assert(m.dom().contains(v1[p]) && o1[p] == m[v1[p]]);
            assert(rank_le(o1[p].rank(), o1[i].rank()));
        }
    } else {
        assert(rank_le(m[b].rank(), o1[i].rank()));
    }
}

/// The listing of a side is determined by the side, as long as no two of
/// its levels have the same rank.
pub proof fn lemma_listing_is_determined(
    m: Map<Exchange, BookView>,
    n: nat,
    v1: Seq<Exchange>,
    o1: Seq<BookView>,
    v2: Seq<Exchange>,
    o2: Seq<BookView>,
)
    requires
        lists_top(m, n, v1, o1),
        lists_top(m, n, v2, o2),
        no_ties(m),
    ensures
        v1 == v2,
        o1 == o2,
{
    assert forall|i: int| 0 <= i < v1.len() implies v1[i] == v2[i] && o1[i] == o2[i] by {
        lemma_listing_venue(m, n, v1, o1, v2, o2, i);
        assert(m.dom().contains(v1[i]) && o1[i] == m[v1[i]]);
        assert(m.dom().contains(v2[i]) && o2[i] == m[v2[i]]);
    }
    assert(v1 =~= v2);
    assert(o1 =~= o2);
}

/// The price of a side is determined by the side, as long as no two of its
/// levels have the same rank.
pub proof fn lemma_max_price_is_determined(m: Map<Exchange, BookView>, p1: Decimal, p2: Decimal)
    requires
        is_max_price(m, p1),
        is_max_price(m, p2),
        no_ties(m),
    ensures
        p1 == p2,
{
    if m.dom().len() != 0 {
        let v1 = choose|v: Exchange| is_highest(m, v) && p1 == m[v].price_value();
        let v2 = choose|v: Exchange| is_highest(m, v) && p2 == m[v].price_value();
        assert(rank_le(m[v1].rank(), m[v2].rank()));
        assert(rank_le(m[v2].rank(), m[v1].rank()));
        crate::ranked::lemma_rank_total(m[v1].rank(), m[v2].rank(), m[v1].rank());
    }
}

impl View for BookQueue {
    type V = Map<Exchange, BookView>;

    closed spec fn view(&self) -> Map<Exchange, BookView> {
        Map::new(
            |v: Exchange| self.slots@[v.tag_of() as int] is Some,
            |v: Exchange| self.slots@[v.tag_of() as int].unwrap().book@,
        )
    }
}

impl BookQueue {
    /// The queue ranks exactly the venues that have a level, each by the rank
    /// of its level.
    spec fn consistent(&self) -> bool {
        &&& self.slots@.len() == VENUES
        &&& queue_entries(self.books).dom().finite()
        &&& forall|t: u8| #[trigger]
            queue_entries(self.books).dom().contains(t) <==> (t < VENUES && self.slots@[t as int]
                is Some)
        &&& forall|t: u8|
            t < VENUES && (#[trigger] self.slots@[t as int]) is Some ==> {
                let l = self.slots@[t as int].unwrap();
                l.ok() && queue_entries(self.books)[t] == level_rank(l.price, l.amount)
            }
    }

    /// The invariant of a side book: the queue and the levels agree, and a
    /// book made with a capacity of at least one holds no more levels than
    /// that.
    pub closed spec fn wf(&self) -> bool {
        &&& self.consistent()
        &&& self.cap >= 1 ==> queue_entries(self.books).len() <= self.cap
    }

    /// The capacity that the side book was made with.
    pub closed spec fn capacity(&self) -> usize {
        self.cap
    }

    /// The side that the book holds.
    pub closed spec fn side(&self) -> BookKind {
        self.kind
    }

    /// A side book holds at most one level per venue, hence no more levels
    /// than there are venues; one made with a capacity of at least one holds
    /// no more levels than its capacity; and each level it holds is valid.
    pub proof fn lemma_one_level_per_venue(&self)
        requires
            self.wf(),
        ensures
            self@.dom().finite(),
            self@.dom().len() <= VENUES,
            self.capacity() >= 1 ==> self@.dom().len() <= self.capacity(),
            forall|v: Exchange| #[trigger] self@.dom().contains(v) ==> self@[v].valid(),
    {
        self.lemma_sizes();
    }

    proof fn lemma_sizes(&self)
        requires
            self.consistent(),
        ensures
            self@.dom().finite(),
            self@.dom().len() <= VENUES,
            self@.dom().len() == queue_entries(self.books).len(),
            forall|v: Exchange| #[trigger] self@.dom().contains(v) ==> self@[v].valid(),
    {
        let e = queue_entries(self.books).dom();
        let d = self@.dom();
        let s0 = self.slots@[0] is Some;
        let s1 = self.slots@[1] is Some;
        assert(e.contains(0u8) == s0);
        assert(e.contains(1u8) == s1);
        assert(d.contains(Exchange::Binance) == s0);
        assert(d.contains(Exchange::Bitstamp) == s1);
        if s0 && s1 {
            assert(e =~= set![0u8, 1u8]);
            assert(d =~= set![Exchange::Binance, Exchange::Bitstamp]);
        } else if s0 {
            assert(e =~= set![0u8]);
            assert(d =~= set![Exchange::Binance]);
        } else if s1 {
            assert(e =~= set![1u8]);
            assert(d =~= set![Exchange::Bitstamp]);
        } else {
            assert(e =~= Set::<u8>::empty());
            assert(d =~= Set::<Exchange>::empty());
        }
        assert forall|v: Exchange| #[trigger] self@.dom().contains(v) implies self@[v].valid() by {
            let t = v.tag_of();
            assert(self.slots@[t as int] is Some);
        }
    }

    /// The level of a venue that the queue ranks.
    fn level(&self, tag: u8) -> (l: &Level)
        requires
            self.wf(),
            queue_entries(self.books).dom().contains(tag),
        ensures
            tag < VENUES,
            self.slots@[tag as int] == Some(*l),
    {
        self.slots[tag as usize].as_ref().unwrap()
    }

    /// An empty side book of the given kind, with capacity zero.
    pub fn new(kind: BookKind) -> (r: BookQueue)
        ensures
            r.wf(),
            r@ == Map::<Exchange, BookView>::empty(),
            r.capacity() == 0,
            r.side() == kind,
    {
        BookQueue::with_capacity(kind, 0)
    }

    /// An empty side book of the given kind and capacity.
    pub fn with_capacity(kind: BookKind, capacity: usize) -> (r: BookQueue)
        ensures
            r.wf(),
            r@ == Map::<Exchange, BookView>::empty(),
            r.capacity() == capacity,
            r.side() == kind,
    {
        let mut slots: Vec<Option<Level>> = Vec::new();
        let mut t: u8 = 0;
        while t < VENUES
            invariant
                t <= VENUES,
                slots@.len() == t,
                forall|i: int| 0 <= i < t ==> slots@[i] is None,
            decreases VENUES - t,
        {
            slots.push(None);
            t += 1;
        }
        let r = BookQueue { cap: capacity, kind, books: queue_new(), slots };
        assert(r@ =~= Map::<Exchange, BookView>::empty());
        r
    }

    /// The side that the book holds.
    pub fn kind(&self) -> (r: BookKind)
        ensures
            r == self.side(),
    {
        self.kind
    }

    /// The number of levels in the side book.
    pub fn len(&self) -> (n: usize)
        requires
            self.wf(),
        ensures
            n == self@.dom().len(),
            n <= VENUES,
            self.capacity() >= 1 ==> n <= self.capacity(),
    {
        proof {
            self.lemma_sizes();
        }
        queue_len(&self.books)
    }

    /// Whether the side book holds no level.
    pub fn is_empty(&self) -> (r: bool)
        requires
            self.wf(),
        ensures
            r == (self@.dom().len() == 0),
    {
        self.len() == 0
    }

    /// Puts a level under its venue, whatever the capacity.
    fn insert_level(&mut self, exchange: Exchange, book: Book)
        requires
            old(self).consistent(),
            book@.valid(),
        ensures
            final(self).consistent(),
            final(self)@ == old(self)@.insert(exchange, book@),
            final(self).cap == old(self).cap,
            final(self).kind == old(self).kind,
    {
        let price: Decimal = Decimal::parse(book.price.as_str()).unwrap();
        let amount: Decimal = Decimal::parse(book.amount.as_str()).unwrap();
        let rank: Rank = Book::rank_of(price, amount);
        let tag: u8 = exchange.tag();
        let ghost before = *self;
        let _ = queue_push(&mut self.books, tag, rank);
        self.slots.set(tag as usize, Some(Level { book, price, amount }));
        proof {
            assert forall|t: u8| #[trigger]
                queue_entries(self.books).dom().contains(t) <==> (t < VENUES
                    && self.slots@[t as int] is Some) by {
                assert(queue_entries(before.books).dom().contains(t) <==> (t < VENUES
                    && before.slots@[t as int] is Some));
            }
            assert forall|t: u8|
                t < VENUES && (#[trigger] self.slots@[t as int]) is Some implies {
                    let l = self.slots@[t as int].unwrap();
                    l.ok() && queue_entries(self.books)[t] == level_rank(l.price, l.amount)
                } by {
                if t != tag {
                    assert(before.slots@[t as int] is Some);
                }
            }
            assert(self@ =~= before@.insert(exchange, book@)) by {
                assert forall|v: Exchange| #[trigger]
                    self@.dom().contains(v) == before@.insert(exchange, book@).dom().contains(
                        v,
                    ) by {
                    crate::exchange::lemma_exchange_tags(v, exchange);
                }
                assert forall|v: Exchange| #[trigger] self@.dom().contains(v) implies self@[v]
                    == before@.insert(exchange, book@)[v] by {
                    crate::exchange::lemma_exchange_tags(v, exchange);
                }
            }
        }
    }

    /// Removes a lowest level and returns it with its venue; on an empty book
    /// returns nothing and changes nothing.
    fn drop_lowest(&mut self) -> (r: Option<(Exchange, Book)>)
        requires
            old(self).consistent(),
        ensures
            final(self).consistent(),
            final(self).cap == old(self).cap,
            final(self).kind == old(self).kind,
            r is None <==> old(self)@.dom().len() == 0,
            r is None ==> final(self)@ == old(self)@,
            r is None ==> queue_entries(final(self).books) == queue_entries(old(self).books),
            r matches Some(e) ==> is_lowest(old(self)@, e.0),
            r matches Some(e) ==> e.1@ == old(self)@[e.0],
            r matches Some(e) ==> final(self)@ == old(self)@.remove(e.0),
            r is Some ==> queue_entries(final(self).books).len() + 1 == queue_entries(
                old(self).books,
            ).len(),
    {
        let ghost before = *self;
        proof {
            before.lemma_sizes();
        }
        match queue_pop_min(&mut self.books) {
            None => {
                assert(queue_entries(before.books).dom() =~= Set::<u8>::empty());
                None
            },
            Some((tag, rank)) => {
                assert(queue_entries(before.books).dom().contains(tag));
                assert(queue_entries(before.books).len() > 0) by {
                    if queue_entries(before.books).len() == 0 {
                        assert(queue_entries(before.books).dom() =~= Set::<u8>::empty());
                    }
                }
                let venue: Exchange = Exchange::from_tag(tag).unwrap();
                assert(self.slots@[tag as int] is Some);
                let book: Book = self.slots[tag as usize].as_ref().unwrap().book.duplicate();
                self.slots.set(tag as usize, None);
                proof {
                    assert forall|t: u8| #[trigger]
                        queue_entries(self.books).dom().contains(t) <==> (t < VENUES
                            && self.slots@[t as int] is Some) by {
                        assert(queue_entries(before.books).dom().contains(t) <==> (t < VENUES
                            && before.slots@[t as int] is Some));
                    }
                    assert forall|t: u8|
                        t < VENUES && (#[trigger] self.slots@[t as int]) is Some implies {
                            let l = self.slots@[t as int].unwrap();
                            l.ok() && queue_entries(self.books)[t] == level_rank(l.price, l.amount)
                        } by {
                        assert(before.slots@[t as int] is Some);
                    }
                    assert(self@ =~= before@.remove(venue)) by {
                        assert forall|v: Exchange| #[trigger]
                            self@.dom().contains(v) == before@.remove(venue).dom().contains(
                                v,
                            ) by {
                            crate::exchange::lemma_exchange_tags(v, venue);
                        }
                    }
                    assert(is_lowest(before@, venue)) by {
                        assert forall|w: Exchange| #[trigger]
                            before@.dom().contains(w) implies rank_le(
                            before@[venue].rank(),
                            before@[w].rank(),
                        ) by {
                            let t = w.tag_of();
                            assert(before.slots@[t as int] is Some);
                            assert(queue_entries(before.books).dom().contains(t));
                            assert(before.slots@[tag as int] is Some);
                        }
                    }
                    if before@.dom().len() == 0 {
                        before@.dom().lemma_len0_is_empty();
                        assert(before@.dom().contains(venue));
                    }
                }
                Some((venue, book))
            },
        }
    }

    /// Puts `book` under `exchange`, in place of the level that the venue had
    /// if it had one, and keeps the book within its capacity: see `pushed`.
    /// The level must be valid; `try_push` asks for nothing.
    pub fn push(&mut self, exchange: Exchange, book: Book)
        requires
            old(self).wf(),
            book@.valid(),
        ensures
            final(self).wf(),
            pushed(old(self)@, old(self).capacity() as nat, exchange, book@, final(self)@),
            final(self).capacity() >= 1 ==> final(self)@.dom().len() <= final(self).capacity(),
            final(self).capacity() == old(self).capacity(),
            final(self).side() == old(self).side(),
    {
        let ghost before = *self;
        proof {
            before.lemma_sizes();
        }
        self.insert_level(exchange, book);
        let ghost put = *self;
        proof {
            put.lemma_sizes();
        }
        if self.cap >= 1 && queue_len(&self.books) > self.cap {
            let gone = self.drop_lowest();
            proof {
                let v = gone->Some_0.0;
                assert(is_lowest(put@, v) && self@ == put@.remove(v));
                self.lemma_sizes();
            }
        }
    }

    /// Puts `book` under `exchange` as `push` does if the level is valid, and
    /// says whether it did.
    pub fn try_push(&mut self, exchange: Exchange, book: Book) -> (done: bool)
        requires
            old(self).wf(),
        ensures
            final(self).wf(),
            done == book@.valid(),
            done ==> pushed(
                old(self)@,
                old(self).capacity() as nat,
                exchange,
                book@,
                final(self)@,
            ),
            !done ==> final(self)@ == old(self)@,
            final(self).capacity() >= 1 ==> final(self)@.dom().len() <= final(self).capacity(),
            final(self).capacity() == old(self).capacity(),
            final(self).side() == old(self).side(),
    {
        let valid: bool = book.is_valid();
        if valid {
            self.push(exchange, book);
        } else {
            proof {
                self.lemma_sizes();
            }
        }
        valid
    }

    /// Where the side book holds as many levels as its capacity, removes a
    /// lowest level and returns it with its venue; otherwise, and on an empty
    /// book, returns nothing and changes nothing.
    pub fn pop(&mut self) -> (r: Option<(Exchange, Book)>)
        requires
            old(self).wf(),
        ensures
            final(self).wf(),
            final(self).capacity() == old(self).capacity(),
            final(self).side() == old(self).side(),
            r is Some <==> old(self)@.dom().len() == old(self).capacity() > 0,
            r is None ==> final(self)@ == old(self)@,
            r matches Some(e) ==> is_lowest(old(self)@, e.0),
            r matches Some(e) ==> e.1@ == old(self)@[e.0],
            r matches Some(e) ==> final(self)@ == old(self)@.remove(e.0),
    {
        if self.len() != self.cap {
            return None;
        }
        self.drop_lowest()
    }

    /// The `n` highest levels, highest first; all of them if there are fewer.
    /// The walk pops the greatest rank off a copy of the queue, `n` times
    /// over.
    pub fn take(&self, n: usize) -> (r: Vec<Book>)
        requires
            self.wf(),
        ensures
            exists|venues: Seq<Exchange>| lists_top(self@, n as nat, venues, book_views(r@)),
    {
        let mut work: RankQueue = queue_clone(&self.books);
        let mut out: Vec<Book> = Vec::new();
        let ghost mut venues: Seq<Exchange> = Seq::empty();
        let mut drained: bool = false;
        proof {
            self.lemma_sizes();
        }
        while out.len() < n && !drained
            invariant
                self.wf(),
                out@.len() == venues.len(),
                out@.len() <= n,
                queue_entries(work).dom().finite(),
                forall|t: u8| #[trigger]
                    queue_entries(work).dom().contains(t) <==> (queue_entries(
                        self.books,
                    ).dom().contains(t) && !venues.contains(Exchange::of_tag(t).unwrap())),
                forall|t: u8| #[trigger]
                    queue_entries(work).dom().contains(t) ==> queue_entries(work)[t]
                        == queue_entries(self.books)[t],
                venues.no_duplicates(),
                forall|k: int|
                    0 <= k < venues.len() ==> self@.dom().contains(#[trigger] venues[k])
                        && out@[k]@ == self@[venues[k]],
                forall|k: int, l: int|
                    0 <= k < l < out@.len() ==> rank_le(
                        #[trigger] out@[l]@.rank(),
                        #[trigger] out@[k]@.rank(),
                    ),
                forall|t: u8, k: int|
                    queue_entries(work).dom().contains(t) && 0 <= k < out@.len() ==> rank_le(
                        #[trigger] queue_entries(work)[t],
                        #[trigger] out@[k]@.rank(),
                    ),
                queue_entries(work).len() + out@.len() == queue_entries(self.books).len(),
                drained ==> queue_entries(work).len() == 0,
            decreases n - out@.len() + (if drained { 0int } else { 1int }),
        {
            let ghost prior = queue_entries(work);
            match queue_pop_max(&mut work) {
                None => {
                    assert(prior.dom() =~= Set::<u8>::empty());
                    drained = true;
                },
                Some((tag, rank)) => {
                    assert(prior.dom().contains(tag));
                    assert(queue_entries(self.books).dom().contains(tag));
                    let ghost venue = Exchange::of_tag(tag).unwrap();
                    let book: Book = self.level(tag).book.duplicate();
                    proof {
                        assert(self.slots@[tag as int] is Some);
                        assert(venue.tag_of() == tag);
                        assert(book@ == self@[venue]);
                        assert(book@.rank() == rank);
                        assert(!venues.contains(venue));
                        assert forall|t: u8| #[trigger]
                            queue_entries(work).dom().contains(t) <==> (queue_entries(
                                self.books,
                            ).dom().contains(t) && !venues.push(venue).contains(
                                Exchange::of_tag(t).unwrap(),
                            )) by {
                            assert(prior.dom().contains(t) <==> (queue_entries(
                                self.books,
                            ).dom().contains(t) && !venues.contains(
                                Exchange::of_tag(t).unwrap(),
                            )));
                            if queue_entries(self.books).dom().contains(t) {
                                assert(t < VENUES);
                                let w = Exchange::of_tag(t).unwrap();
                                assert(w.tag_of() == t);
                                if venues.push(venue).contains(w) {
                                    let i = choose|i: int|
                                        0 <= i < venues.push(venue).len() && venues.push(
                                            venue,
                                        )[i] == w;
                                    if i < venues.len() {
                                        assert(venues[i] == w);
                                        assert(venues.contains(w));
                                    }
                                } else {
                                    assert(venues.push(venue)[venues.len() as int] == venue);
                                    if venues.contains(w) {
                                        let i = choose|i: int| 0 <= i < venues.len() && venues[i] == w;
                                        assert(venues.push(venue)[i] == w);
                                    }
                                }
                            }
                        }
                        assert forall|k: int, l: int|
                            0 <= k < l < out@.push(book).len() implies rank_le(
                            #[trigger] out@.push(book)[l]@.rank(),
                            #[trigger] out@.push(book)[k]@.rank(),
                        ) by {
                            if l == out@.len() {
                                assert(rank_le(prior[tag], out@[k]@.rank()));
                            }
                        }
                        assert forall|t: u8, k: int|
                            queue_entries(work).dom().contains(t) && 0 <= k < out@.push(
                                book,
                            ).len() implies rank_le(
                            #[trigger] queue_entries(work)[t],
                            #[trigger] out@.push(book)[k]@.rank(),
                        ) by {
                            assert(prior.dom().contains(t));
                            if k < out@.len() {
                                assert(rank_le(prior[t], out@[k]@.rank()));
                            }
                        }
                        venues = venues.push(venue);
                    }
                    out.push(book);
                },
            }
        }
        proof {
            let views = book_views(out@);
            assert(views.len() == out@.len());
            assert forall|k: int| 0 <= k < out@.len() implies #[trigger] views[k] == out@[k]@ by {}
            if drained {
                assert(queue_entries(work).dom() =~= Set::<u8>::empty()) by {
                    if queue_entries(work).dom().len() == 0 {
                        queue_entries(work).dom().lemma_len0_is_empty();
                    }
                }
            }
            assert forall|w: Exchange, i: int|
                self@.dom().contains(w) && !venues.contains(w) && 0 <= i < views.len() implies rank_le(
                #[trigger] self@[w].rank(),
                #[trigger] views[i].rank(),
            ) by {
                let t = w.tag_of();
                crate::exchange::lemma_exchange_tags(w, w);
                assert(self.slots@[t as int] is Some);
                assert(queue_entries(self.books).dom().contains(t));
                assert(queue_entries(work).dom().contains(t));
                assert(rank_le(queue_entries(work)[t], out@[i]@.rank()));
            }
            assert(lists_top(self@, n as nat, venues, views));
        }
        out
    }

    /// The price of a highest level, or zero where the side book is empty.
    pub fn max_price(&self) -> (r: Decimal)
        requires
            self.wf(),
        ensures
            r.wf(),
            is_max_price(self@, r),
    {
        proof {
            self.lemma_sizes();
        }
        match queue_peek_max(&self.books) {
            None => {
                assert(queue_entries(self.books).dom() =~= Set::<u8>::empty());
                Decimal::zero()
            },
            Some((tag, rank)) => {
                assert(queue_entries(self.books).dom().contains(tag));
                let ghost venue = Exchange::of_tag(tag).unwrap();
                let price: Decimal = self.level(tag).price;
                proof {
                    assert(self.slots@[tag as int] is Some);
                    assert(self@.dom().contains(venue));
                    assert(self@.dom().len() > 0) by {
                        if self@.dom().len() == 0 {
                            self@.dom().lemma_len0_is_empty();
                        }
                    }
                    assert(is_highest(self@, venue)) by {
                        assert forall|w: Exchange| #[trigger] self@.dom().contains(w) implies rank_le(self@[w].rank(), self@[venue].rank()) by {
                            let t = w.tag_of();
                            assert(self.slots@[t as int] is Some);
                            assert(queue_entries(self.books).dom().contains(t));
                        }
                    }
                }
                price
            },
        }
    }
}

} // verus!
