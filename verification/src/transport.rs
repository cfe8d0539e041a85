//! What a connector says and when it stops: the subscribe frame of each
//! venue, and the single-shot stop request.

use crate::configuration::ExchangeConfig;
use crate::error::Error;
use crate::exchange::Exchange;
use crate::json::{json_quoted, Json};
use vstd::prelude::*;
use vstd::string::*;

verus! {

/// The name of the channel that a venue is asked for.
pub open spec fn channel_name(venue: Exchange, channel: Seq<char>) -> Seq<char> {
    match venue {
        Exchange::Binance => channel + "@depth"@,
        Exchange::Bitstamp => "order_book_"@ + channel,
    }
}

/// The subscribe frame of a venue around a channel name that is already a
/// JSON string literal.
pub open spec fn frame_around(venue: Exchange, quoted: Seq<char>) -> Seq<char> {
    match venue {
        Exchange::Binance => "{\"method\":\"SUBSCRIBE\",\"params\":["@ + quoted + "],\"id\":1}"@,
        Exchange::Bitstamp => "{\"event\":\"bts:subscribe\",\"data\":{\"channel\":"@ + quoted
            + "}}"@,
    }
}

/// The subscribe frame that a venue is sent for a channel.
pub open spec fn subscribe_text(venue: Exchange, channel: Seq<char>) -> Seq<char> {
    frame_around(venue, json_quoted(channel_name(venue, channel)))
}

/// The subscribe frame of a venue around a channel name that is already a
/// JSON string literal.
pub fn subscribe_frame(venue: Exchange, quoted: &str) -> (r: String)
    ensures
        r@ == frame_around(venue, quoted@),
{
    match venue {
        Exchange::Binance => String::from_str("{\"method\":\"SUBSCRIBE\",\"params\":[").concat(
            quoted,
        ).concat("],\"id\":1}"),
        Exchange::Bitstamp => String::from_str(
            "{\"event\":\"bts:subscribe\",\"data\":{\"channel\":",
        ).concat(quoted).concat("}}"),
    }
}

/// The subscribe frame that `venue` is sent for `channel`.
pub fn subscribe_request(venue: Exchange, channel: &str) -> (r: String)
    ensures
        r@ == subscribe_text(venue, channel@),
{
    let name: String = match venue {
        Exchange::Binance => String::from_str(channel).concat("@depth"),
        Exchange::Bitstamp => String::from_str("order_book_").concat(channel),
    };
    let quoted: String = Json::quote(name.as_str());
    subscribe_frame(venue, quoted.as_str())
}

/// The subscribe frame for a configured venue; `Error::Unknown` where the
/// entry names no known venue.
pub fn subscribe_message(config: &ExchangeConfig) -> (r: Result<String, Error>)
    ensures
        match config.venue_of() {
            Some(v) => r matches Ok(m) && m@ == subscribe_text(v, config.channel@),
            None => r matches Err(Error::Unknown(m)) && m@ == Exchange::unsupported(
                config.exchange@,
            ),
        },
{
    match Exchange::parse(config.exchange.as_str()) {
        Ok(venue) => Ok(subscribe_request(venue, config.channel.as_str())),
        Err(e) => Err(e),
    }
}

/// A stop request that fires once. The signal itself is sent by the owner
/// of the channel; this records whether it may still be sent.
#[derive(Debug)]
pub struct StopSender {
    armed: bool,
}

impl StopSender {
    /// Whether the request was not made yet.
    pub closed spec fn is_armed(&self) -> bool {
        self.armed
    }

    /// The detail of the error of a signal that nobody received.
    pub open spec fn not_delivered() -> Seq<char> {
        "failed to stop transport"@
    }

    /// A stop request that was not made yet.
    pub fn new() -> (r: StopSender)
        ensures
            r.is_armed(),
    {
        StopSender { armed: true }
    }

    /// Whether the request was not made yet.
    pub fn armed(&self) -> (r: bool)
        ensures
            r == self.is_armed(),
    {
        self.armed
    }

    /// Makes the request, and says whether the signal is to be sent now. The
    /// first call says so; every later call changes nothing and asks for
    /// nothing, so the signal is sent at most once. No call fails.
    pub fn try_stop(&mut self) -> (fire: bool)
        ensures
            !final(self).is_armed(),
            fire == old(self).is_armed(),
    {
        let fire: bool = self.armed;
        self.armed = false;
        fire
    }

    /// The outcome of a request whose signal was sent: `Ok` where it was
    /// received, `Error::Unknown` where the receiver was gone.
    pub fn delivered(received: bool) -> (r: Result<(), Error>)
        ensures
            received ==> r is Ok,
            !received ==> (r matches Err(Error::Unknown(m)) && m@ == StopSender::not_delivered()),
    {
        if received {
            Ok(())
        } else {
            Err(Error::Unknown(String::from_str("failed to stop transport")))
        }
    }
}

} // verus!
