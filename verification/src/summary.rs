//! The merge engine: two side books, the updates applied to them, and the
//! summary sampled after each update.

use crate::book::{book_views, Book, BookKind, BookView};
use crate::book_queue::{
    is_lowest, is_max_price, lemma_listing_is_determined, lemma_max_price_is_determined,
    lists_top, no_ties, pushed, BookQueue,
};
use crate::decimal::{decimal_text, lemma_shortest_keeps_value, unsigned, Decimal};
use crate::error::Error;
use crate::event::{all_valid, DepthUpdate, DepthUpdateView};
use crate::exchange::Exchange;
use crate::ranked::rank_le;
use vstd::prelude::*;
use vstd::string::*;

verus! {

/// The merged view after one update: the spread as a decimal text, the asks
/// lowest-ranked first, the bids highest-ranked first.
#[derive(Debug)]
pub struct Summary {
    pub spread: String,
    pub asks: Vec<Book>,
    pub bids: Vec<Book>,
}

/// The two side books of one subscription and the number of levels that a
/// summary lists per side, which is also the capacity of each side.
pub struct MergeEngine {
    size: usize,
    bids: BookQueue,
    asks: BookQueue,
}

/// Whether `after` is what putting `levels` under `venue`, one after the
/// other, makes of the side `m` of a book of capacity `cap`: each level is
/// pushed onto what the one before it left.
pub open spec fn put_all(
    m: Map<Exchange, BookView>,
    cap: nat,
    venue: Exchange,
    levels: Seq<BookView>,
    after: Map<Exchange, BookView>,
) -> bool
    decreases levels.len(),
{
    if levels.len() == 0 {
        after == m
    } else {
        exists|mid: Map<Exchange, BookView>|
            put_all(m, cap, venue, levels.drop_last(), mid) && pushed(
                mid,
                cap,
                venue,
                levels.last(),
                after,
            )
    }
}

/// A side after the levels of one update were put under the update's venue
/// and none had to leave: the last of them has replaced what the venue had.
pub open spec fn side_after(m: Map<Exchange, BookView>, venue: Exchange, levels: Seq<BookView>) -> Map<
    Exchange,
    BookView,
> {
    if levels.len() == 0 {
        m
    } else {
        m.insert(venue, levels.last())
    }
}

/// The spread between two prices: the distance between them, in its shortest
/// form; none where `rust_decimal` cannot represent the difference.
pub open spec fn spread_value(ask: Decimal, bid: Decimal) -> Option<Decimal> {
    match ask.difference(bid) {
        Some(d) => Some(d.magnitude().shortest()),
        None => None,
    }
}

/// The text of a decimal.
pub open spec fn text_of(d: Decimal) -> Seq<char> {
    decimal_text(d.mantissa, d.scale)
}

/// Whether every level of an update is valid.
pub open spec fn update_valid(u: DepthUpdateView) -> bool {
    all_valid(u.bids) && all_valid(u.asks)
}

/// Whether `r` is the outcome of sampling the two sides, given the prices of
/// a highest ask and a highest bid: the spread between the two prices, the
/// `n` highest bids highest first, and the `n` highest asks in the opposite
/// order. Where the spread cannot be represented the outcome is
/// `Error::Unknown`.
pub open spec fn samples_at(
    bids: Map<Exchange, BookView>,
    asks: Map<Exchange, BookView>,
    n: nat,
    r: Result<Summary, Error>,
    ask: Decimal,
    bid: Decimal,
) -> bool {
    &&& is_max_price(asks, ask)
    &&& is_max_price(bids, bid)
    &&& ask.wf()
    &&& bid.wf()
    &&& match spread_value(ask, bid) {
        None => r matches Err(Error::Unknown(_)),
        Some(d) => {
            &&& r is Ok
            &&& r->Ok_0.spread@ == text_of(d)
            &&& unsigned(r->Ok_0.spread@)
            &&& d.mantissa >= 0
            &&& exists|venues: Seq<Exchange>|
                lists_top(bids, n, venues, book_views(r->Ok_0.bids@))
            &&& exists|venues: Seq<Exchange>|
                lists_top(asks, n, venues, book_views(r->Ok_0.asks@).reverse())
        },
    }
}

/// Whether `r` is the outcome of sampling the two sides. The price of a side
/// is that of a highest level of it, or zero where the side is empty; where
/// several levels rank highest, either may give the price.
pub open spec fn samples(
    bids: Map<Exchange, BookView>,
    asks: Map<Exchange, BookView>,
    n: nat,
    r: Result<Summary, Error>,
) -> bool {
    exists|ask: Decimal, bid: Decimal| samples_at(bids, asks, n, r, ask, bid)
}

/// The spread between an ask price and a bid price, as a text.
pub fn spread(ask: Decimal, bid: Decimal) -> (r: Option<String>)
    requires
        ask.wf(),
        bid.wf(),
    ensures
        match spread_value(ask, bid) {
            Some(d) => r matches Some(s) && s@ == text_of(d) && unsigned(s@) && d.mantissa >= 0
                && d.wf(),
            None => r is None,
        },
{
    match ask.checked_sub(bid) {
        Some(d) => Some(d.abs().normalize().to_text()),
        None => None,
    }
}

/// A spread is never negative.
pub proof fn lemma_spread_not_negative(ask: Decimal, bid: Decimal)
    requires
        ask.difference(bid) matches Some(d) && d.wf(),
    ensures
        spread_value(ask, bid) matches Some(s) && s.mantissa >= 0 && s.units() >= 0,
{
    let d = ask.difference(bid).unwrap();
    let m = d.magnitude();
    lemma_shortest_keeps_value(m);
    crate::decimal::lemma_pow10_positive((28 - m.scale) as nat);
    assert(m.units() >= 0) by (nonlinear_arith)
        requires
            m.mantissa >= 0,
            crate::decimal::pow10((28 - m.scale) as nat) >= 1,
            m.units() == m.mantissa * crate::decimal::pow10((28 - m.scale) as nat),
    ;
}

fn reversed(mut books: Vec<Book>) -> (r: Vec<Book>)
    ensures
        book_views(r@) == book_views(books@).reverse(),
        book_views(r@).reverse() == book_views(books@),
{
    let ghost all = book_views(books@);
    let mut out: Vec<Book> = Vec::new();
    while books.len() > 0
        invariant
            out@.len() + books@.len() == all.len(),
            forall|k: int| 0 <= k < books@.len() ==> (#[trigger] books@[k])@ == all[k],
            forall|k: int| 0 <= k < out@.len() ==> (#[trigger] out@[k])@ == all[all.len() - 1 - k],
        decreases books@.len(),
    {
        match books.pop() {
            Some(b) => out.push(b),
            None => {},
        }
    }
    assert(book_views(out@) =~= all.reverse());
    assert(book_views(out@).reverse() =~= all);
    out
}

fn levels_valid(levels: &Vec<Book>) -> (r: bool)
    ensures
        r == all_valid(book_views(levels@)),
{
    let mut i: usize = 0;
    while i < levels.len()
        invariant
            i <= levels@.len(),
            forall|k: int| 0 <= k < i ==> (#[trigger] book_views(levels@)[k]).valid(),
        decreases levels@.len() - i,
    {
        if !levels[i].is_valid() {
            assert(!book_views(levels@)[i as int].valid());
            return false;
        }
        i += 1;
    }
    true
}

fn put_levels(side: &mut BookQueue, venue: Exchange, levels: &Vec<Book>)
    requires
        old(side).wf(),
        all_valid(book_views(levels@)),
    ensures
        final(side).wf(),
        put_all(old(side)@, old(side).capacity() as nat, venue, book_views(levels@), final(side)@),
        final(side).capacity() == old(side).capacity(),
        final(side).side() == old(side).side(),
{
    let ghost views = book_views(levels@);
    let ghost cap = side.capacity() as nat;
    let mut i: usize = 0;
    assert(views.take(0) =~= Seq::<BookView>::empty());
    while i < levels.len()
        invariant
            i <= levels@.len(),
            views == book_views(levels@),
            all_valid(views),
            side.wf(),
            put_all(old(side)@, cap, venue, views.take(i as int), side@),
            side.capacity() == cap,
            side.side() == old(side).side(),
        decreases levels@.len() - i,
    {
        let ghost before = side@;
        assert(views[i as int].valid());
        side.push(venue, levels[i].duplicate());
        proof {
            let next = views.take(i + 1);
            assert(next.last() == views[i as int]);
            assert(next.drop_last() =~= views.take(i as int));
            assert(put_all(old(side)@, cap, venue, next.drop_last(), before) && pushed(
                before,
                cap,
                venue,
                next.last(),
                side@,
            ));
        }
        i += 1;
    }
    assert(views.take(levels@.len() as int) =~= views);
}

/// Where the book sets no bound, or has room for the venue, putting levels
/// under the venue leaves the last of them in place of what the venue had
/// and nothing else changes.
pub proof fn lemma_put_all_with_room(
    m: Map<Exchange, BookView>,
    cap: nat,
    venue: Exchange,
    levels: Seq<BookView>,
    after: Map<Exchange, BookView>,
)
    requires
        put_all(m, cap, venue, levels, after),
        cap == 0 || m.dom().insert(venue).len() <= cap,
    ensures
        after == side_after(m, venue, levels),
    decreases levels.len(),
{
    if levels.len() > 0 {
        let mid = choose|mid: Map<Exchange, BookView>|
            put_all(m, cap, venue, levels.drop_last(), mid) && pushed(
                mid,
                cap,
                venue,
                levels.last(),
                after,
            );
        lemma_put_all_with_room(m, cap, venue, levels.drop_last(), mid);
        let put = mid.insert(venue, levels.last());
        assert(put.dom() =~= m.dom().insert(venue));
        assert(put =~= m.insert(venue, levels.last()));
    }
}

impl Summary {
    /// The summary made of a spread and of what each side lists, highest
    /// first: the bids as they are listed, the asks in the opposite order,
    /// so that the last ask listed comes first.
    pub fn assemble(spread: String, bids: Vec<Book>, asks: Vec<Book>) -> (s: Summary)
        ensures
            s.spread@ == spread@,
            book_views(s.bids@) == book_views(bids@),
            book_views(s.asks@) == book_views(asks@).reverse(),
            book_views(s.asks@).reverse() == book_views(asks@),
            forall|i: int|
                0 <= i < asks@.len() ==> (#[trigger] s.asks@[i])@ == asks@[asks@.len() - 1 - i]@,
    {
        let ghost listed = book_views(asks@);
        let turned: Vec<Book> = reversed(asks);
        assert forall|i: int| 0 <= i < listed.len() implies (#[trigger] turned@[i])@
            == listed[listed.len() - 1 - i] by {
            assert(book_views(turned@)[i] == listed.reverse()[i]);
        }
        Summary { spread, asks: turned, bids }
    }
}

impl MergeEngine {
    /// The invariant of the engine: both sides are well formed, and each has
    /// the capacity of as many levels as a summary lists.
    pub closed spec fn wf(&self) -> bool {
        &&& self.bids.wf()
        &&& self.asks.wf()
        &&& self.bids.capacity() == self.size
        &&& self.asks.capacity() == self.size
    }

    /// The bid side, by venue.
    pub closed spec fn bids_view(&self) -> Map<Exchange, BookView> {
        self.bids@
    }

    /// The ask side, by venue.
    pub closed spec fn asks_view(&self) -> Map<Exchange, BookView> {
        self.asks@
    }

    /// The number of levels that a summary lists per side.
    pub closed spec fn result_size(&self) -> usize {
        self.size
    }

    /// Whether neither side holds more levels than a summary lists; a size
    /// of zero sets no bound.
    pub open spec fn within_size(&self) -> bool {
        self.result_size() >= 1 ==> self.bids_view().dom().len() <= self.result_size()
            && self.asks_view().dom().len() <= self.result_size()
    }

    /// An engine keeps both sides within as many levels as a summary lists.
    pub proof fn lemma_within_size(&self)
        requires
            self.wf(),
        ensures
            self.within_size(),
    {
        self.bids.lemma_one_level_per_venue();
        self.asks.lemma_one_level_per_venue();
    }

    /// An engine with two empty sides.
    pub fn new(result_size: usize) -> (r: MergeEngine)
        ensures
            r.wf(),
            r.result_size() == result_size,
            r.bids_view() == Map::<Exchange, BookView>::empty(),
            r.asks_view() == Map::<Exchange, BookView>::empty(),
    {
        MergeEngine {
            size: result_size,
            bids: BookQueue::with_capacity(BookKind::Bids, result_size),
            asks: BookQueue::with_capacity(BookKind::Asks, result_size),
        }
    }

    /// The bid side.
    pub fn bids(&self) -> (r: &BookQueue)
        requires
            self.wf(),
        ensures
            r.wf(),
            r@ == self.bids_view(),
    {
        &self.bids
    }

    /// The ask side.
    pub fn asks(&self) -> (r: &BookQueue)
        requires
            self.wf(),
        ensures
            r.wf(),
            r@ == self.asks_view(),
    {
        &self.asks
    }

    /// Samples both sides.
    pub fn summary(&self) -> (r: Result<Summary, Error>)
        requires
            self.wf(),
        ensures
            samples(self.bids_view(), self.asks_view(), self.result_size() as nat, r),
    {
        let ask: Decimal = self.asks.max_price();
        let bid: Decimal = self.bids.max_price();
        match spread(ask, bid) {
            None => {
                let r = Err(Error::Unknown(String::from_str("spread out of range")));
                assert(samples_at(self.bids@, self.asks@, self.size as nat, r, ask, bid));
                r
            },
            Some(text) => {
                let bids: Vec<Book> = self.bids.take(self.size);
                let taken: Vec<Book> = self.asks.take(self.size);
                let ghost taken_views = book_views(taken@);
                let ghost bids_views = book_views(bids@);
                let summary: Summary = Summary::assemble(text, bids, taken);
                let ghost bid_venues = choose|venues: Seq<Exchange>|
                    lists_top(self.bids@, self.size as nat, venues, bids_views);
                let ghost ask_venues = choose|venues: Seq<Exchange>|
                    lists_top(self.asks@, self.size as nat, venues, taken_views);
                let r = Ok(summary);
                proof {
                    assert(lists_top(
                        self.bids@,
                        self.size as nat,
                        bid_venues,
                        book_views(r->Ok_0.bids@),
                    ));
                    assert(book_views(r->Ok_0.asks@).reverse() == taken_views);
                    assert(lists_top(
                        self.asks@,
                        self.size as nat,
                        ask_venues,
                        book_views(r->Ok_0.asks@).reverse(),
                    ));
                    assert(samples_at(self.bids@, self.asks@, self.size as nat, r, ask, bid));
                }
                r
            },
        }
    }

    /// Applies one update and samples both sides. The levels of each side
    /// are pushed under the update's venue in the order of the update, and
    /// each side stays within as many levels as a summary lists. An update
    /// with a level that is not valid changes nothing and gives
    /// `Error::Parse`.
    pub fn apply(&mut self, update: &DepthUpdate) -> (r: Result<Summary, Error>)
        requires
            old(self).wf(),
        ensures
            final(self).wf(),
            final(self).result_size() == old(self).result_size(),
            !update_valid(update@) ==> r matches Err(Error::Parse),
            !update_valid(update@) ==> final(self).bids_view() == old(self).bids_view(),
            !update_valid(update@) ==> final(self).asks_view() == old(self).asks_view(),
            update_valid(update@) ==> put_all(
                old(self).bids_view(),
                old(self).result_size() as nat,
                update@.venue,
                update@.bids,
                final(self).bids_view(),
            ),
            update_valid(update@) ==> put_all(
                old(self).asks_view(),
                old(self).result_size() as nat,
                update@.venue,
                update@.asks,
                final(self).asks_view(),
            ),
            final(self).within_size(),
            update_valid(update@) ==> samples(
                final(self).bids_view(),
                final(self).asks_view(),
                final(self).result_size() as nat,
                r,
            ),
    {
        if !levels_valid(&update.bids) || !levels_valid(&update.asks) {
            proof {
                self.lemma_within_size();
            }
            return Err(Error::Parse);
        }
        put_levels(&mut self.bids, update.venue, &update.bids);
        put_levels(&mut self.asks, update.venue, &update.asks);
        proof {
            self.lemma_within_size();
        }
        self.summary()
    }
}

/// Whether `out` lists levels of `m`, no venue twice.
pub open spec fn each_venue_once(m: Map<Exchange, BookView>, out: Seq<BookView>) -> bool {
    exists|venues: Seq<Exchange>|
        #![auto]
        {
            &&& venues.len() == out.len()
            &&& venues.no_duplicates()
            &&& forall|i: int|
                0 <= i < venues.len() ==> m.dom().contains(#[trigger] venues[i]) && out[i]
                    == m[venues[i]]
        }
}

/// A summary lists at most `n` levels per side, each venue at most once per
/// side, the bids from the highest rank down and the asks from the lowest
/// rank up, and its spread is the text of a decimal that is not negative,
/// without a minus sign.
pub proof fn lemma_summary_shape(
    bids: Map<Exchange, BookView>,
    asks: Map<Exchange, BookView>,
    n: nat,
    s: Summary,
)
    requires
        samples(bids, asks, n, Ok(s)),
    ensures
        s.bids@.len() <= n,
        s.asks@.len() <= n,
        forall|i: int, j: int|
            0 <= i < j < s.bids@.len() ==> crate::ranked::rank_le(
                #[trigger] s.bids@[j]@.rank(),
                #[trigger] s.bids@[i]@.rank(),
            ),
        forall|i: int, j: int|
            0 <= i < j < s.asks@.len() ==> crate::ranked::rank_le(
                #[trigger] s.asks@[i]@.rank(),
                #[trigger] s.asks@[j]@.rank(),
            ),
        exists|d: Decimal| d.mantissa >= 0 && s.spread@ == #[trigger] text_of(d),
        unsigned(s.spread@),
        each_venue_once(bids, book_views(s.bids@)),
        each_venue_once(asks, book_views(s.asks@)),
{
    let r: Result<Summary, Error> = Ok(s);
    let (ask, bid) = choose|ask: Decimal, bid: Decimal| samples_at(bids, asks, n, r, ask, bid);
    let d = spread_value(ask, bid).unwrap();
    assert(s.spread@ == text_of(d));
    let bv = book_views(s.bids@);
    let av = book_views(s.asks@);
    let rv = av.reverse();
    let bid_venues = choose|venues: Seq<Exchange>| lists_top(bids, n, venues, bv);
    let ask_venues = choose|venues: Seq<Exchange>| lists_top(asks, n, venues, rv);
    assert(each_venue_once(bids, bv)) by {
        assert(bid_venues.len() == bv.len() && bid_venues.no_duplicates());
    }
    assert(each_venue_once(asks, av)) by {
        let back = ask_venues.reverse();
        let len = av.len() as int;
        assert(back.len() == av.len());
        assert forall|i: int, j: int| 0 <= i < j < back.len() implies back[i] != back[j] by {
            assert(back[i] == ask_venues[len - 1 - i] && back[j] == ask_venues[len - 1 - j]);
        }
        assert(back.no_duplicates());
        assert forall|i: int| 0 <= i < back.len() implies asks.dom().contains(#[trigger] back[i])
            && av[i] == asks[back[i]] by {
            assert(back[i] == ask_venues[len - 1 - i]);
            assert(rv[len - 1 - i] == av[i]);
            assert(asks.dom().contains(ask_venues[len - 1 - i]));
        }
    }
    assert forall|i: int, j: int| 0 <= i < j < s.bids@.len() implies crate::ranked::rank_le(
        #[trigger] s.bids@[j]@.rank(),
        #[trigger] s.bids@[i]@.rank(),
    ) by {
        assert(bv[i] == s.bids@[i]@ && bv[j] == s.bids@[j]@);
        assert(crate::ranked::rank_le(bv[j].rank(), bv[i].rank()));
    }
    assert forall|i: int, j: int| 0 <= i < j < s.asks@.len() implies crate::ranked::rank_le(
        #[trigger] s.asks@[i]@.rank(),
        #[trigger] s.asks@[j]@.rank(),
    ) by {
        let len = av.len() as int;
        assert(rv[len - 1 - i] == av[i] && rv[len - 1 - j] == av[j]);
        assert(av[i] == s.asks@[i]@ && av[j] == s.asks@[j]@);
        assert(crate::ranked::rank_le(rv[len - 1 - i].rank(), rv[len - 1 - j].rank()));
    }
}

/// The outcome of sampling is determined by the two sides, as long as no
/// two levels of a side have the same rank: two engines that hold the same
/// levels answer with the same spread and the same lists, or both with an
/// error.
pub proof fn lemma_summary_is_determined(
    bids: Map<Exchange, BookView>,
    asks: Map<Exchange, BookView>,
    n: nat,
    r1: Result<Summary, Error>,
    r2: Result<Summary, Error>,
)
    requires
        samples(bids, asks, n, r1),
        samples(bids, asks, n, r2),
        no_ties(bids),
        no_ties(asks),
    ensures
        r1 is Ok <==> r2 is Ok,
        r1 is Ok ==> r1->Ok_0.spread@ == r2->Ok_0.spread@,
        r1 is Ok ==> book_views(r1->Ok_0.bids@) == book_views(r2->Ok_0.bids@),
        r1 is Ok ==> book_views(r1->Ok_0.asks@) == book_views(r2->Ok_0.asks@),
{
    let (a1, b1) = choose|ask: Decimal, bid: Decimal| samples_at(bids, asks, n, r1, ask, bid);
    let (a2, b2) = choose|ask: Decimal, bid: Decimal| samples_at(bids, asks, n, r2, ask, bid);
    lemma_max_price_is_determined(asks, a1, a2);
    lemma_max_price_is_determined(bids, b1, b2);
    if r1 is Ok {
        let s1 = r1->Ok_0;
        let s2 = r2->Ok_0;
        let bv1 = choose|venues: Seq<Exchange>| lists_top(bids, n, venues, book_views(s1.bids@));
        let bv2 = choose|venues: Seq<Exchange>| lists_top(bids, n, venues, book_views(s2.bids@));
        lemma_listing_is_determined(
            bids,
            n,
            bv1,
            book_views(s1.bids@),
            bv2,
            book_views(s2.bids@),
        );
        let x1 = book_views(s1.asks@);
        let x2 = book_views(s2.asks@);
        let av1 = choose|venues: Seq<Exchange>| lists_top(asks, n, venues, x1.reverse());
        let av2 = choose|venues: Seq<Exchange>| lists_top(asks, n, venues, x2.reverse());
        lemma_listing_is_determined(asks, n, av1, x1.reverse(), av2, x2.reverse());
        assert(x1 =~= x2) by {
            assert(x1.len() == x2.len());
            assert forall|i: int| 0 <= i < x1.len() implies x1[i] == x2[i] by {
                let len = x1.len() as int;
                assert(x1.reverse()[len - 1 - i] == x1[i]);
                assert(x2.reverse()[len - 1 - i] == x2[i]);
            }
        }
    }
}

/// Whether no two levels of `m` rank alike and no level that another venue
/// has in `m` ranks as one of `levels`: then pushing `levels` under `venue`
/// never meets two levels of the same rank.
pub open spec fn no_ties_with(
    m: Map<Exchange, BookView>,
    venue: Exchange,
    levels: Seq<BookView>,
) -> bool {
    &&& no_ties(m)
    &&& forall|w: Exchange, i: int|
        m.dom().contains(w) && w != venue && 0 <= i < levels.len() ==> (#[trigger] m[w]).rank()
            != (#[trigger] levels[i]).rank()
}

/// What putting levels under a venue leaves of the other venues is what they
/// had, and what it leaves of the venue itself is the last of the levels.
pub proof fn lemma_put_all_keeps_others(
    m: Map<Exchange, BookView>,
    cap: nat,
    venue: Exchange,
    levels: Seq<BookView>,
    after: Map<Exchange, BookView>,
)
    requires
        put_all(m, cap, venue, levels, after),
    ensures
        forall|w: Exchange|
            w != venue && #[trigger] after.dom().contains(w) ==> m.dom().contains(w) && after[w]
                == m[w],
        levels.len() > 0 && after.dom().contains(venue) ==> after[venue] == levels.last(),
        levels.len() == 0 ==> after == m,
    decreases levels.len(),
{
    if levels.len() > 0 {
        let mid = choose|mid: Map<Exchange, BookView>|
            put_all(m, cap, venue, levels.drop_last(), mid) && pushed(
                mid,
                cap,
                venue,
                levels.last(),
                after,
            );
        lemma_put_all_keeps_others(m, cap, venue, levels.drop_last(), mid);
        let put = mid.insert(venue, levels.last());
        assert forall|w: Exchange| w != venue && #[trigger] after.dom().contains(w) implies m.dom().contains(
            w,
        ) && after[w] == m[w] by {
            assert(put.dom().contains(w) && after[w] == put[w]);
            assert(mid.dom().contains(w));
        }
    }
}

/// Where no two levels can rank alike, what a side holds after levels were
/// put under a venue is determined by what it held before, and again no two
/// of its levels rank alike.
pub proof fn lemma_put_all_is_determined(
    m: Map<Exchange, BookView>,
    cap: nat,
    venue: Exchange,
    levels: Seq<BookView>,
    a1: Map<Exchange, BookView>,
    a2: Map<Exchange, BookView>,
)
    requires
        put_all(m, cap, venue, levels, a1),
        put_all(m, cap, venue, levels, a2),
        no_ties_with(m, venue, levels),
    ensures
        a1 == a2,
        no_ties(a1),
    decreases levels.len(),
{
    if levels.len() > 0 {
        let rest = levels.drop_last();
        let last = levels.last();
        let mid1 = choose|mid: Map<Exchange, BookView>|
            put_all(m, cap, venue, rest, mid) && pushed(mid, cap, venue, last, a1);
        let mid2 = choose|mid: Map<Exchange, BookView>|
            put_all(m, cap, venue, rest, mid) && pushed(mid, cap, venue, last, a2);
        assert(no_ties_with(m, venue, rest)) by {
            assert forall|w: Exchange, i: int|
                m.dom().contains(w) && w != venue && 0 <= i < rest.len() implies (#[trigger] m[w]).rank()
                != (#[trigger] rest[i]).rank() by {
                assert(rest[i] == levels[i]);
            }
        }
        lemma_put_all_is_determined(m, cap, venue, rest, mid1, mid2);
        lemma_put_all_keeps_others(m, cap, venue, rest, mid1);
        let put = mid1.insert(venue, last);
        assert(no_ties(put)) by {
            assert forall|a: Exchange, b: Exchange|
                put.dom().contains(a) && put.dom().contains(b) && a != b implies (#[trigger] put[a]).rank()
                != (#[trigger] put[b]).rank() by {
                let top = levels.len() - 1;
                if a == venue {
                    assert(mid1.dom().contains(b) && m.dom().contains(b));
                    assert(m[b].rank() != levels[top].rank());
                } else if b == venue {
                    assert(mid1.dom().contains(a) && m.dom().contains(a));
                    assert(m[a].rank() != levels[top].rank());
                } else {
                    assert(mid1.dom().contains(a) && mid1.dom().contains(b));
                    assert(m[a].rank() != m[b].rank());
                }
            }
        }
        if !(cap == 0 || put.dom().len() <= cap) {
            let g1 = choose|gone: Exchange| is_lowest(put, gone) && a1 == put.remove(gone);
            let g2 = choose|gone: Exchange| is_lowest(put, gone) && a2 == put.remove(gone);
            assert(rank_le(put[g1].rank(), put[g2].rank()));
            assert(rank_le(put[g2].rank(), put[g1].rank()));
            crate::ranked::lemma_rank_total(put[g1].rank(), put[g2].rank(), put[g1].rank());
            assert(g1 == g2);
        }
        assert(no_ties(a1)) by {
            assert forall|a: Exchange, b: Exchange|
                a1.dom().contains(a) && a1.dom().contains(b) && a != b implies (#[trigger] a1[a]).rank()
                != (#[trigger] a1[b]).rank() by {
                assert(put.dom().contains(a) && put.dom().contains(b));
                assert(a1[a] == put[a] && a1[b] == put[b]);
            }
        }
    }
}

/// Two engines that hold the same levels and are given the same update end
/// with the same levels and answer with the same summary, or both with an
/// error, as long as no two levels can rank alike.
pub proof fn lemma_engines_agree(
    bids: Map<Exchange, BookView>,
    asks: Map<Exchange, BookView>,
    n: nat,
    update: DepthUpdateView,
    bids1: Map<Exchange, BookView>,
    asks1: Map<Exchange, BookView>,
    r1: Result<Summary, Error>,
    bids2: Map<Exchange, BookView>,
    asks2: Map<Exchange, BookView>,
    r2: Result<Summary, Error>,
)
    requires
        put_all(bids, n, update.venue, update.bids, bids1),
        put_all(asks, n, update.venue, update.asks, asks1),
        samples(bids1, asks1, n, r1),
        put_all(bids, n, update.venue, update.bids, bids2),
        put_all(asks, n, update.venue, update.asks, asks2),
        samples(bids2, asks2, n, r2),
        no_ties_with(bids, update.venue, update.bids),
        no_ties_with(asks, update.venue, update.asks),
    ensures
        bids1 == bids2,
        asks1 == asks2,
        r1 is Ok <==> r2 is Ok,
        r1 is Ok ==> r1->Ok_0.spread@ == r2->Ok_0.spread@,
        r1 is Ok ==> book_views(r1->Ok_0.bids@) == book_views(r2->Ok_0.bids@),
        r1 is Ok ==> book_views(r1->Ok_0.asks@) == book_views(r2->Ok_0.asks@),
{
    lemma_put_all_is_determined(bids, n, update.venue, update.bids, bids1, bids2);
    lemma_put_all_is_determined(asks, n, update.venue, update.asks, asks1, asks2);
    lemma_summary_is_determined(bids1, asks1, n, r1, r2);
}

} // verus!