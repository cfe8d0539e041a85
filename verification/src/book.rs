//! One price level of one venue, as it arrives and as it is published, and
//! the rank by which levels are ordered.

use crate::decimal::{lemma_key_order, Decimal};
use crate::exchange::Exchange;
use crate::ranked::{rank_lt, Rank};
use vstd::prelude::*;
use vstd::string::*;

verus! {

/// Which side of the book a queue holds.
#[derive(Clone, Copy, Debug, PartialEq, Eq, Structural)]
pub enum BookKind {
    Asks,
    Bids,
}

impl BookKind {
    /// The upper-case name of the side.
    pub open spec fn name(self) -> Seq<char> {
        match self {
            BookKind::Asks => "ASKS"@,
            BookKind::Bids => "BIDS"@,
        }
    }

    /// The lower-case name of the side, under which its levels are listed.
    pub open spec fn label(self) -> Seq<char> {
        match self {
            BookKind::Asks => "asks"@,
            BookKind::Bids => "bids"@,
        }
    }

    /// The upper-case name of the side.
    pub fn as_str(&self) -> (r: &'static str)
        ensures
            r@ == self.name(),
    {
        match self {
            BookKind::Asks => "ASKS",
            BookKind::Bids => "BIDS",
        }
    }

    /// The lower-case name of the side.
    pub fn field_name(&self) -> (r: &'static str)
        ensures
            r@ == self.label(),
    {
        match self {
            BookKind::Asks => "asks",
            BookKind::Bids => "bids",
        }
    }
}

impl AsRef<str> for BookKind {
    fn as_ref(&self) -> (r: &str)
        ensures
            r@ == self.name(),
    {
        self.as_str()
    }
}

/// A price level: price and amount as the texts that the venue sent, and
/// the venue's name.
#[derive(Debug)]
pub struct Book {
    pub price: String,
    pub amount: String,
    pub exchange: String,
}

/// The texts of a `Book`.
pub struct BookView {
    pub price: Seq<char>,
    pub amount: Seq<char>,
    pub exchange: Seq<char>,
}

impl View for Book {
    type V = BookView;

    open spec fn view(&self) -> BookView {
        BookView { price: self.price@, amount: self.amount@, exchange: self.exchange@ }
    }
}

impl BookView {
    /// Whether the level can stand in a book: price and amount both read as
    /// decimals, and the amount is not negative.
    pub open spec fn valid(self) -> bool {
        valid_texts(self.price, self.amount)
    }

    /// The price as a number.
    pub open spec fn price_value(self) -> Decimal {
        Decimal::read(self.price).unwrap()
    }

    /// The amount as a number.
    pub open spec fn amount_value(self) -> Decimal {
        Decimal::read(self.amount).unwrap()
    }

    /// The rank of the level.
    pub open spec fn rank(self) -> Rank {
        level_rank(self.price_value(), self.amount_value())
    }
}

/// Whether a price text and an amount text both read as decimals, and the
/// amount is not negative.
pub open spec fn valid_texts(price: Seq<char>, amount: Seq<char>) -> bool {
    &&& Decimal::read(price) is Some
    &&& Decimal::read(amount) is Some
    &&& Decimal::read(amount).unwrap().mantissa >= 0
}

/// The rank of a level: the key of the negated amount, then the key of the
/// price. A larger amount therefore ranks lower, and among equal amounts a
/// larger price ranks higher.
pub open spec fn level_rank(price: Decimal, amount: Decimal) -> Rank {
    (
        amount.opposite().key_of().0,
        amount.opposite().key_of().1,
        price.key_of().0,
        price.key_of().1,
    )
}

/// The views of a list of books, in order.
pub open spec fn book_views(books: Seq<Book>) -> Seq<BookView> {
    books.map_values(|b: Book| b@)
}

impl Book {
    /// A level with the given price, amount and venue name.
    pub fn new(price: &str, amount: &str, exchange: &str) -> (r: Book)
        ensures
            r@ == (BookView { price: price@, amount: amount@, exchange: exchange@ }),
    {
        Book {
            price: String::from_str(price),
            amount: String::from_str(amount),
            exchange: String::from_str(exchange),
        }
    }

    /// A level with the given price and amount, under the name of a venue.
    pub fn with_exchange(price: &str, amount: &str, exchange: &Exchange) -> (r: Book)
        ensures
            r@ == (BookView { price: price@, amount: amount@, exchange: exchange.name() }),
    {
        Book::new(price, amount, exchange.as_str())
    }

    /// Puts the level under the name of a venue.
    pub fn set_exchange(&mut self, which: Exchange)
        ensures
            final(self)@ == (BookView { exchange: which.name(), ..old(self)@ }),
    {
        self.exchange = String::from_str(which.as_str());
    }

    /// Whether the level can stand in a book.
    pub fn is_valid(&self) -> (r: bool)
        ensures
            r == self@.valid(),
    {
        Book::texts_valid(self.price.as_str(), self.amount.as_str())
    }

    /// Whether a price text and an amount text make a level that can stand
    /// in a book.
    pub fn texts_valid(price: &str, amount: &str) -> (r: bool)
        ensures
            r == valid_texts(price@, amount@),
    {
        match (Decimal::parse(price), Decimal::parse(amount)) {
            (Some(_), Some(a)) => a.mantissa >= 0,
            _ => false,
        }
    }

    /// A copy of the level.
    pub fn duplicate(&self) -> (r: Book)
        ensures
            r@ == self@,
    {
        Book {
            price: self.price.clone(),
            amount: self.amount.clone(),
            exchange: self.exchange.clone(),
        }
    }

    /// The rank of a level with this price and amount.
    pub fn rank_of(price: Decimal, amount: Decimal) -> (r: Rank)
        requires
            price.wf(),
            amount.wf(),
        ensures
            r == level_rank(price, amount),
    {
        let a: (i128, u128) = amount.neg().key();
        let p: (i128, u128) = price.key();
        (a.0, a.1, p.0, p.1)
    }
}

impl Clone for Book {
    fn clone(&self) -> (r: Book)
        ensures
            r@ == self@,
    {
        self.duplicate()
    }
}

/// The order of levels: a level ranks below another exactly if its amount is
/// larger, or the amounts are equal and its price is smaller; two levels
/// have the same rank exactly if amounts and prices are equal in value.
pub proof fn lemma_rank_order(p1: Decimal, a1: Decimal, p2: Decimal, a2: Decimal)
    requires
        p1.wf(),
        a1.wf(),
        p2.wf(),
        a2.wf(),
    ensures
        rank_lt(level_rank(p1, a1), level_rank(p2, a2)) <==> (a1.units() > a2.units() || (
        a1.units() == a2.units() && p1.units() < p2.units())),
        level_rank(p1, a1) == level_rank(p2, a2) <==> (a1.units() == a2.units() && p1.units()
            == p2.units()),
{
    let n1 = a1.opposite();
    let n2 = a2.opposite();
    assert(n1.units() == -a1.units()) by (nonlinear_arith)
        requires
            n1.mantissa == -a1.mantissa,
            n1.units() == n1.mantissa * crate::decimal::pow10((28 - a1.scale) as nat),
            a1.units() == a1.mantissa * crate::decimal::pow10((28 - a1.scale) as nat),
    ;
    assert(n2.units() == -a2.units()) by (nonlinear_arith)
        requires
            n2.mantissa == -a2.mantissa,
            n2.units() == n2.mantissa * crate::decimal::pow10((28 - a2.scale) as nat),
            a2.units() == a2.mantissa * crate::decimal::pow10((28 - a2.scale) as nat),
    ;
    lemma_key_order(n1, n2);
    lemma_key_order(p1, p2);
}

} // verus!
