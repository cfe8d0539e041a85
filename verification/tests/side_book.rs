use orderbook::book::{Book, BookKind};
use orderbook::book_queue::BookQueue;
use orderbook::decimal::Decimal;
use orderbook::exchange::Exchange;

fn texts(books: &[Book]) -> Vec<(String, String, String)> {
    books
        .iter()
        .map(|b| (b.price.clone(), b.amount.clone(), b.exchange.clone()))
        .collect()
}

fn triple(price: &str, amount: &str, exchange: &str) -> (String, String, String) {
    (price.to_string(), amount.to_string(), exchange.to_string())
}

#[test]
fn push_one_level_gives_length_one() {
    let mut order_book = BookQueue::with_capacity(BookKind::Asks, 1);
    let book = Book::new("2.1", "0.4", "bitstamp");
    order_book.push(Exchange::Bitstamp, book);
    assert_eq!(order_book.len(), 1);
    assert!(!order_book.is_empty());
}

#[test]
fn new_side_book_is_empty() {
    let order_book = BookQueue::new(BookKind::Bids);
    assert_eq!(order_book.len(), 0);
    assert!(order_book.is_empty());
    assert_eq!(order_book.kind(), BookKind::Bids);
    assert!(order_book.take(3).is_empty());
    assert_eq!(order_book.max_price(), Decimal { mantissa: 0, scale: 0 });
}

#[test]
fn serde_can_serialize_orderbook() {
    let mut order_book = BookQueue::with_capacity(BookKind::Asks, 2);
    let book = Book::new("2.1", "0.4", "bitstamp");
    order_book.push(Exchange::Bitstamp, book);
    let book = Book::new("3.1", "0.1", "binance");
    order_book.push(Exchange::Binance, book);
    assert_eq!(order_book.kind().field_name(), "asks");
    let listed = order_book.take(order_book.len());
    assert_eq!(
        texts(&listed),
        vec![triple("3.1", "0.1", "binance"), triple("2.1", "0.4", "bitstamp")]
    );
}

#[test]
fn take_lists_smaller_amount_first() {
    let mut order_book = BookQueue::with_capacity(BookKind::Asks, 2);
    order_book.push(Exchange::Bitstamp, Book::new("2.1", "0.4", "bitstamp"));
    order_book.push(Exchange::Binance, Book::new("3.1", "0.1", "binance"));
    let one = order_book.take(1);
    assert_eq!(texts(&one), vec![triple("3.1", "0.1", "binance")]);
    let none = order_book.take(0);
    assert!(none.is_empty());
    let more = order_book.take(7);
    assert_eq!(more.len(), 2);
}

#[test]
fn equal_amounts_list_higher_price_first() {
    let mut order_book = BookQueue::with_capacity(BookKind::Bids, 2);
    order_book.push(Exchange::Binance, Book::new("10", "1.0", "binance"));
    order_book.push(Exchange::Bitstamp, Book::new("11", "1.00", "bitstamp"));
    let listed = order_book.take(2);
    assert_eq!(
        texts(&listed),
        vec![triple("11", "1.00", "bitstamp"), triple("10", "1.0", "binance")]
    );
    assert_eq!(order_book.max_price(), Decimal { mantissa: 11, scale: 0 });
}

#[test]
fn push_replaces_the_level_of_the_venue() {
    let mut order_book = BookQueue::with_capacity(BookKind::Bids, 3);
    for price in ["1", "2", "3", "4", "5"] {
        order_book.push(Exchange::Binance, Book::new(price, "1", "binance"));
    }
    assert_eq!(order_book.len(), 1);
    assert_eq!(texts(&order_book.take(3)), vec![triple("5", "1", "binance")]);
}

#[test]
fn try_push_refuses_what_is_no_decimal() {
    let mut order_book = BookQueue::with_capacity(BookKind::Bids, 2);
    assert!(!order_book.try_push(Exchange::Binance, Book::new("abc", "1", "binance")));
    assert!(!order_book.try_push(Exchange::Binance, Book::new("1", "", "binance")));
    assert_eq!(order_book.len(), 0);
    assert!(order_book.try_push(Exchange::Binance, Book::new("1.5", "2", "binance")));
    assert_eq!(order_book.len(), 1);
}

#[test]
fn a_full_book_lets_its_lowest_level_go() {
    let mut order_book = BookQueue::with_capacity(BookKind::Bids, 1);
    order_book.push(Exchange::Binance, Book::new("10", "1", "binance"));
    order_book.push(Exchange::Bitstamp, Book::new("11", "2", "bitstamp"));
    assert_eq!(order_book.len(), 1);
    assert_eq!(texts(&order_book.take(2)), vec![triple("10", "1", "binance")]);
    order_book.push(Exchange::Bitstamp, Book::new("11", "0.5", "bitstamp"));
    assert_eq!(order_book.len(), 1);
    assert_eq!(texts(&order_book.take(2)), vec![triple("11", "0.5", "bitstamp")]);
    order_book.push(Exchange::Bitstamp, Book::new("12", "0.7", "bitstamp"));
    assert_eq!(order_book.len(), 1);
    assert_eq!(texts(&order_book.take(2)), vec![triple("12", "0.7", "bitstamp")]);
}

#[test]
fn a_book_of_capacity_zero_sets_no_bound() {
    let mut order_book = BookQueue::new(BookKind::Bids);
    order_book.push(Exchange::Binance, Book::new("10", "1", "binance"));
    order_book.push(Exchange::Bitstamp, Book::new("11", "2", "bitstamp"));
    assert_eq!(order_book.len(), 2);
}

#[test]
fn a_negative_amount_is_refused() {
    let mut order_book = BookQueue::with_capacity(BookKind::Bids, 2);
    assert!(!order_book.try_push(Exchange::Binance, Book::new("1", "-1", "binance")));
    assert!(!order_book.try_push(Exchange::Binance, Book::new("1", "-0.0001", "binance")));
    assert_eq!(order_book.len(), 0);
    assert!(order_book.try_push(Exchange::Binance, Book::new("-1", "0", "binance")));
    assert_eq!(order_book.len(), 1);
    assert!(Book::new("1", "0", "binance").is_valid());
    assert!(!Book::new("1", "-2", "binance").is_valid());
    assert!(!Book::new("x", "2", "binance").is_valid());
    assert!(Book::texts_valid("1.5", "2"));
    assert!(!Book::texts_valid("1.5", "-2"));
}

#[test]
fn pop_removes_the_lowest_level_of_a_full_book() {
    let mut order_book = BookQueue::with_capacity(BookKind::Bids, 2);
    order_book.push(Exchange::Binance, Book::new("1.9", "3.7", "binance"));
    assert!(order_book.pop().is_none());
    assert_eq!(order_book.len(), 1);
    order_book.push(Exchange::Bitstamp, Book::new("2.5", "4.1", "bitstamp"));
    let popped = order_book.pop();
    let (venue, book) = popped.expect("a full book gives its lowest level");
    assert_eq!(venue, Exchange::Bitstamp);
    assert_eq!(texts(&[book]), vec![triple("2.5", "4.1", "bitstamp")]);
    assert_eq!(order_book.len(), 1);
    assert!(order_book.pop().is_none());
}

#[test]
fn pop_on_an_empty_book_of_capacity_zero_gives_nothing() {
    let mut order_book = BookQueue::new(BookKind::Asks);
    assert!(order_book.pop().is_none());
    assert_eq!(order_book.len(), 0);
}

#[test]
fn max_price_is_the_price_of_the_highest_level() {
    let mut order_book = BookQueue::with_capacity(BookKind::Asks, 2);
    order_book.push(Exchange::Bitstamp, Book::new("19.50", "2", "bitstamp"));
    order_book.push(Exchange::Binance, Book::new("20", "1", "binance"));
    assert_eq!(order_book.max_price(), Decimal { mantissa: 20, scale: 0 });
    order_book.push(Exchange::Binance, Book::new("20", "3", "binance"));
    assert_eq!(order_book.max_price(), Decimal { mantissa: 1950, scale: 2 });
}

#[test]
fn book_kind_names() {
    assert_eq!(BookKind::Asks.as_str(), "ASKS");
    assert_eq!(BookKind::Bids.as_str(), "BIDS");
    assert_eq!(BookKind::Asks.field_name(), "asks");
    assert_eq!(BookKind::Bids.field_name(), "bids");
}

#[test]
fn a_book_is_put_under_the_name_of_a_venue() {
    let mut book = Book::with_exchange("1.0", "2.0", &Exchange::Bitstamp);
    assert_eq!(texts(&[book.clone()]), vec![triple("1.0", "2.0", "bitstamp")]);
    book.set_exchange(Exchange::Binance);
    assert_eq!(texts(&[book]), vec![triple("1.0", "2.0", "binance")]);
}

#[test]
fn a_copy_of_a_book_has_the_same_texts() {
    let book = Book::new("1.0", "2.0", "binance");
    let copy = book.clone();
    assert_eq!(texts(&[copy]), texts(&[book]));
}
