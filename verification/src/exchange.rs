//! The venues whose feeds are merged.

use crate::error::Error;
use crate::text::{eq_ignore_case, same_folded};
use vstd::prelude::*;
use vstd::string::*;

verus! {

/// A venue. Each has a lower-case name, used on the wire, and a small tag,
/// used as its key inside a side book.
#[derive(Clone, Copy, Debug, PartialEq, Eq, Hash, Structural)]
pub enum Exchange {
    Binance,
    Bitstamp,
}

/// The number of venues; every tag is below it.
pub const VENUES: u8 = 2;

impl Exchange {
    /// The venue's tag.
    pub open spec fn tag_of(self) -> u8 {
        match self {
            Exchange::Binance => 0,
            Exchange::Bitstamp => 1,
        }
    }

    /// The venue that carries `tag`, if any does.
    pub open spec fn of_tag(tag: u8) -> Option<Exchange> {
        if tag == 0 {
            Some(Exchange::Binance)
        } else if tag == 1 {
            Some(Exchange::Bitstamp)
        } else {
            None
        }
    }

    /// The venue's lower-case name.
    pub open spec fn name(self) -> Seq<char> {
        match self {
            Exchange::Binance => "binance"@,
            Exchange::Bitstamp => "bitstamp"@,
        }
    }

    /// The venue that `text` names, letter case aside.
    pub open spec fn named(text: Seq<char>) -> Option<Exchange> {
        if same_folded(text, Exchange::Binance.name()) {
            Some(Exchange::Binance)
        } else if same_folded(text, Exchange::Bitstamp.name()) {
            Some(Exchange::Bitstamp)
        } else {
            None
        }
    }

    /// The text of the error that `parse` returns for `text`.
    pub open spec fn unsupported(text: Seq<char>) -> Seq<char> {
        "unsupported exchange: "@ + text
    }

    /// The venue's tag.
    pub fn tag(self) -> (t: u8)
        ensures
            t == self.tag_of(),
            t < VENUES,
            Exchange::of_tag(t) == Some(self),
    {
        match self {
            Exchange::Binance => 0,
            Exchange::Bitstamp => 1,
        }
    }

    /// The venue that carries `tag`.
    pub fn from_tag(tag: u8) -> (r: Option<Exchange>)
        ensures
            r == Exchange::of_tag(tag),
            r is Some <==> tag < VENUES,
            r matches Some(v) ==> v.tag_of() == tag,
    {
        if tag == 0 {
            Some(Exchange::Binance)
        } else if tag == 1 {
            Some(Exchange::Bitstamp)
        } else {
            None
        }
    }

    /// The venue's lower-case name.
    pub fn as_str(&self) -> (r: &'static str)
        ensures
            r@ == self.name(),
    {
        match self {
            Exchange::Binance => "binance",
            Exchange::Bitstamp => "bitstamp",
        }
    }

    /// Reads a venue name without regard to letter case. Any other text is
    /// refused with `Error::Unknown`, whose detail quotes the text.
    pub fn parse(text: &str) -> (r: Result<Exchange, Error>)
        ensures
            match Exchange::named(text@) {
                Some(v) => r == Ok::<Exchange, Error>(v),
                None => r matches Err(Error::Unknown(m)) && m@ == Exchange::unsupported(text@),
            },
    {
        if eq_ignore_case(text, "binance") {
            Ok(Exchange::Binance)
        } else if eq_ignore_case(text, "bitstamp") {
            Ok(Exchange::Bitstamp)
        } else {
            Err(Error::Unknown(String::from_str("unsupported exchange: ").concat(text)))
        }
    }
}

impl AsRef<str> for Exchange {
    fn as_ref(&self) -> (r: &str)
        ensures
            r@ == self.name(),
    {
        self.as_str()
    }
}

impl core::str::FromStr for Exchange {
    type Err = Error;

    fn from_str(s: &str) -> (r: Result<Exchange, Error>)
        ensures
            match Exchange::named(s@) {
                Some(v) => r == Ok::<Exchange, Error>(v),
                None => r matches Err(Error::Unknown(m)) && m@ == Exchange::unsupported(s@),
            },
    {
        Exchange::parse(s)
    }
}

/// Distinct venues carry distinct tags, and a name read back gives the venue
/// it came from.
pub proof fn lemma_exchange_tags(a: Exchange, b: Exchange)
    ensures
        a.tag_of() == b.tag_of() ==> a == b,
        Exchange::of_tag(a.tag_of()) == Some(a),
        Exchange::named(a.name()) == Some(a),
{
    reveal_strlit("binance");
    reveal_strlit("bitstamp");
    assert(same_folded(Exchange::Binance.name(), Exchange::Binance.name()));
    assert(same_folded(Exchange::Bitstamp.name(), Exchange::Bitstamp.name()));
    assert(!same_folded(Exchange::Bitstamp.name(), Exchange::Binance.name()));
}

} // verus!
