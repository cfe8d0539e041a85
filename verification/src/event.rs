//! The decoder: from a text frame of either dialect to a depth update.
//!
//! A frame of the first dialect is an object with members `b` and `a`; one
//! of the second is an object whose member `data` is an object with members
//! `bids` and `asks`. Either way a side is an array of `[price, amount]`
//! pairs of strings. The first dialect is tried first. Other members are
//! passed over. The venue of an update is the one given by the caller, not
//! one read from the frame.

use crate::book::{book_views, Book, BookView};
use crate::error::Error;
use crate::exchange::Exchange;
use crate::json::{json_from_text, Json};
use vstd::prelude::*;
use vstd::string::*;

verus! {

/// The two sides of a frame, each a list of price and amount texts.
#[derive(Debug)]
pub struct EventData {
    pub bids: Vec<(String, String)>,
    pub asks: Vec<(String, String)>,
}

/// The texts of an `EventData`.
pub struct EventDataView {
    pub bids: Seq<(Seq<char>, Seq<char>)>,
    pub asks: Seq<(Seq<char>, Seq<char>)>,
}

/// A decoded frame, by dialect.
#[derive(Debug)]
#[non_exhaustive]
pub enum Event {
    Binance(EventData),
    Bitstamp { data: EventData },
}

/// The levels that one frame of one venue brings, by side and in the order
/// of the frame.
#[derive(Debug)]
pub struct DepthUpdate {
    pub venue: Exchange,
    pub bids: Vec<Book>,
    pub asks: Vec<Book>,
}

/// The venue and the level texts of a `DepthUpdate`.
pub struct DepthUpdateView {
    pub venue: Exchange,
    pub bids: Seq<BookView>,
    pub asks: Seq<BookView>,
}

/// The texts of a list of pairs.
pub open spec fn pair_texts(pairs: Seq<(String, String)>) -> Seq<(Seq<char>, Seq<char>)> {
    Seq::new(pairs.len(), |i: int| (pairs[i].0@, pairs[i].1@))
}

impl View for EventData {
    type V = EventDataView;

    open spec fn view(&self) -> EventDataView {
        EventDataView { bids: pair_texts(self.bids@), asks: pair_texts(self.asks@) }
    }
}

impl View for DepthUpdate {
    type V = DepthUpdateView;

    open spec fn view(&self) -> DepthUpdateView {
        DepthUpdateView {
            venue: self.venue,
            bids: book_views(self.bids@),
            asks: book_views(self.asks@),
        }
    }
}

/// The dialects, for the model of a decoded frame.
pub enum Dialect {
    Binance,
    Bitstamp,
}

/// The pair that a JSON value stands for: an array of exactly two strings.
pub open spec fn pair_of(j: Json) -> Option<(Seq<char>, Seq<char>)> {
    match j.items() {
        Some(items) => if items.len() == 2 && items[0].text() is Some && items[1].text() is Some {
            Some((items[0].text().unwrap(), items[1].text().unwrap()))
        } else {
            None
        },
        None => None,
    }
}

/// The pairs that a JSON value stands for: an array of pairs, element for
/// element.
pub open spec fn pairs_of(j: Json) -> Option<Seq<(Seq<char>, Seq<char>)>> {
    match j.items() {
        Some(items) => if forall|i: int| 0 <= i < items.len() ==> (#[trigger] pair_of(items[i])) is Some {
            Some(Seq::new(items.len(), |i: int| pair_of(items[i]).unwrap()))
        } else {
            None
        },
        None => None,
    }
}

/// The two sides that an object holds under the given member names.
pub open spec fn sides_of(j: Json, bids_key: Seq<char>, asks_key: Seq<char>) -> Option<
    EventDataView,
> {
    match (j.member(bids_key), j.member(asks_key)) {
        (Some(b), Some(a)) => match (pairs_of(b), pairs_of(a)) {
            (Some(bids), Some(asks)) => Some(EventDataView { bids, asks }),
            _ => None,
        },
        _ => None,
    }
}

/// The dialect and the sides of the frame that a JSON value stands for.
pub open spec fn event_of(j: Json) -> Option<(Dialect, EventDataView)> {
    if sides_of(j, "b"@, "a"@) is Some {
        Some((Dialect::Binance, sides_of(j, "b"@, "a"@).unwrap()))
    } else {
        match j.member("data"@) {
            Some(inner) => match sides_of(inner, "bids"@, "asks"@) {
                Some(sides) => Some((Dialect::Bitstamp, sides)),
                None => None,
            },
            None => None,
        }
    }
}

/// The levels of one side: each pair with the venue's name beside it.
pub open spec fn levels_of(pairs: Seq<(Seq<char>, Seq<char>)>, venue: Exchange) -> Seq<BookView> {
    Seq::new(
        pairs.len(),
        |i: int| BookView { price: pairs[i].0, amount: pairs[i].1, exchange: venue.name() },
    )
}

/// Whether every level is valid: price and amount read as decimals, and the
/// amount is not negative.
pub open spec fn all_valid(levels: Seq<BookView>) -> bool {
    forall|i: int| 0 <= i < levels.len() ==> (#[trigger] levels[i]).valid()
}

/// The update that the sides of a frame give for a venue: none where a
/// level is not valid.
pub open spec fn update_of(sides: EventDataView, venue: Exchange) -> Option<DepthUpdateView> {
    if all_valid(levels_of(sides.bids, venue)) && all_valid(levels_of(sides.asks, venue)) {
        Some(
            DepthUpdateView {
                venue,
                bids: levels_of(sides.bids, venue),
                asks: levels_of(sides.asks, venue),
            },
        )
    } else {
        None
    }
}

/// The update that a JSON value gives for a venue.
pub open spec fn decoded(j: Json, venue: Exchange) -> Option<DepthUpdateView> {
    match event_of(j) {
        Some(e) => update_of(e.1, venue),
        None => None,
    }
}

/// The update that a text frame gives for a venue.
pub open spec fn decoded_text(text: Seq<char>, venue: Exchange) -> Option<DepthUpdateView> {
    match json_from_text(text) {
        Some(j) => decoded(j, venue),
        None => None,
    }
}

fn read_pair(j: &Json) -> (r: Option<(String, String)>)
    ensures
        match r {
            Some(p) => pair_of(*j) == Some((p.0@, p.1@)),
            None => pair_of(*j) is None,
        },
{
    match j.as_array() {
        Some(items) => {
            if items.len() != 2 {
                return None;
            }
            match (items[0].as_str(), items[1].as_str()) {
                (Some(price), Some(amount)) => Some(
                    (String::from_str(price), String::from_str(amount)),
                ),
                _ => None,
            }
        },
        None => None,
    }
}

fn read_pairs(j: &Json) -> (r: Option<Vec<(String, String)>>)
    ensures
        match r {
            Some(pairs) => pairs_of(*j) == Some(pair_texts(pairs@)),
            None => pairs_of(*j) is None,
        },
{
    match j.as_array() {
        Some(items) => {
            let mut pairs: Vec<(String, String)> = Vec::new();
            let mut i: usize = 0;
            while i < items.len()
                invariant
                    i <= items@.len(),
                    j.items() == Some(items@),
                    pairs@.len() == i,
                    forall|k: int| 0 <= k < i ==> (#[trigger] pair_of(items@[k])) == Some((pairs@[k].0@, pairs@[k].1@)),
                decreases items@.len() - i,
            {
                match read_pair(&items[i]) {
                    Some(p) => {
                        pairs.push(p);
                    },
                    None => {
                        assert(pair_of(items@[i as int]) is None);
                        return None;
                    },
                }
                i += 1;
            }
            assert(pair_texts(pairs@) =~= Seq::new(items@.len(), |k: int| pair_of(items@[k]).unwrap()));
            Some(pairs)
        },
        None => None,
    }
}

fn read_sides(j: &Json, bids_key: &str, asks_key: &str) -> (r: Option<EventData>)
    ensures
        match r {
            Some(d) => sides_of(*j, bids_key@, asks_key@) == Some(d@),
            None => sides_of(*j, bids_key@, asks_key@) is None,
        },
{
    match (j.get(bids_key), j.get(asks_key)) {
        (Some(b), Some(a)) => match (read_pairs(b), read_pairs(a)) {
            (Some(bids), Some(asks)) => Some(EventData { bids, asks }),
            _ => None,
        },
        _ => None,
    }
}

fn read_levels(pairs: &Vec<(String, String)>, venue: Exchange) -> (r: Option<Vec<Book>>)
    ensures
        match r {
            Some(levels) => all_valid(levels_of(pair_texts(pairs@), venue)) && book_views(levels@)
                == levels_of(pair_texts(pairs@), venue),
            None => !all_valid(levels_of(pair_texts(pairs@), venue)),
        },
{
    let ghost want = levels_of(pair_texts(pairs@), venue);
    let mut levels: Vec<Book> = Vec::new();
    let mut i: usize = 0;
    while i < pairs.len()
        invariant
            i <= pairs@.len(),
            want == levels_of(pair_texts(pairs@), venue),
            want.len() == pairs@.len(),
            levels@.len() == i,
            forall|k: int| 0 <= k < i ==> (#[trigger] levels@[k])@ == want[k],
            forall|k: int| 0 <= k < i ==> (#[trigger] want[k]).valid(),
        decreases pairs@.len() - i,
    {
        let price: &str = pairs[i].0.as_str();
        let amount: &str = pairs[i].1.as_str();
        if !Book::texts_valid(price, amount) {
            assert(!want[i as int].valid());
            return None;
        }
        levels.push(Book::new(price, amount, venue.as_str()));
        i += 1;
    }
    assert(book_views(levels@) =~= want);
    Some(levels)
}

impl Event {
    /// The sides of the frame, whatever its dialect.
    pub open spec fn sides(self) -> EventDataView {
        match self {
            Event::Binance(data) => data@,
            Event::Bitstamp { data } => data@,
        }
    }

    /// The dialect of the frame.
    pub open spec fn dialect(self) -> Dialect {
        match self {
            Event::Binance(_) => Dialect::Binance,
            Event::Bitstamp { .. } => Dialect::Bitstamp,
        }
    }

    /// Reads a frame from a JSON value: of the first dialect that fits, with
    /// its pairs element for element and text for text; `Error::Parse` where
    /// neither fits.
    pub fn from_json(json: &Json) -> (r: Result<Event, Error>)
        ensures
            match event_of(*json) {
                Some(e) => r matches Ok(ev) && ev.dialect() == e.0 && ev.sides() == e.1,
                None => r matches Err(Error::Parse),
            },
    {
        match read_sides(json, "b", "a") {
            Some(data) => Ok(Event::Binance(data)),
            None => match json.get("data") {
                Some(inner) => match read_sides(inner, "bids", "asks") {
                    Some(data) => Ok(Event::Bitstamp { data }),
                    None => Err(Error::Parse),
                },
                None => Err(Error::Parse),
            },
        }
    }

    /// The update that the frame brings for `venue`: its levels in the order
    /// of the frame, each with the texts of the frame; `Error::Parse` where a
    /// price or an amount does not read as a decimal, or an amount is
    /// negative.
    pub fn into_update(self, venue: Exchange) -> (r: Result<DepthUpdate, Error>)
        ensures
            match update_of(self.sides(), venue) {
                Some(u) => r matches Ok(upd) && upd@ == u,
                None => r matches Err(Error::Parse),
            },
    {
        let data: EventData = match self {
            Event::Binance(data) => data,
            Event::Bitstamp { data } => data,
        };
        match (read_levels(&data.bids, venue), read_levels(&data.asks, venue)) {
            (Some(bids), Some(asks)) => Ok(DepthUpdate { venue, bids, asks }),
            _ => Err(Error::Parse),
        }
    }
}

/// Decodes a frame that was already read as JSON.
pub fn decode_json(json: &Json, venue: Exchange) -> (r: Result<DepthUpdate, Error>)
    ensures
        match decoded(*json, venue) {
            Some(u) => r matches Ok(upd) && upd@ == u,
            None => r matches Err(Error::Parse),
        },
{
    match Event::from_json(json) {
        Ok(event) => event.into_update(venue),
        Err(e) => Err(e),
    }
}

/// Decodes a text frame received from `venue`. A frame that is not JSON, fits
/// neither dialect, or holds a price or an amount that is no decimal, or a
/// negative amount, gives `Error::Parse`.
pub fn decode(text: &str, venue: Exchange) -> (r: Result<DepthUpdate, Error>)
    ensures
        match decoded_text(text@, venue) {
            Some(u) => r matches Ok(upd) && upd@ == u,
            None => r matches Err(Error::Parse),
        },
{
    match Json::parse(text) {
        Some(json) => decode_json(&json, venue),
        None => Err(Error::Parse),
    }
}

/// An update that a frame gives has only valid levels.
pub proof fn lemma_decoded_is_valid(text: Seq<char>, venue: Exchange)
    ensures
        decoded_text(text, venue) matches Some(u) ==> all_valid(u.bids) && all_valid(u.asks),
{
}

} // verus!
