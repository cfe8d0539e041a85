//! The error kinds of the aggregation pipeline.

use vstd::prelude::*;
use vstd::string::*;

verus! {

/// What can go wrong between a venue socket and a subscriber.
#[derive(Debug)]
pub enum Error {
    /// A socket could not be opened, read or written.
    Transport(String),
    /// A frame matched no known dialect.
    Parse,
    /// The configuration is missing or malformed.
    Config(String),
    /// No venue could be connected for a subscription.
    NoVenues,
    /// The receiver of a channel is gone.
    ChannelClosed,
    /// Anything else.
    Unknown(String),
}

impl Error {
    /// Whether the error ends the whole subscription rather than one frame
    /// or one connector.
    pub open spec fn fatal(self) -> bool {
        self is NoVenues || self is Config
    }

    /// Whether the error ends the whole subscription.
    pub fn is_fatal(&self) -> (r: bool)
        ensures
            r == self.fatal(),
    {
        match self {
            Error::NoVenues => true,
            Error::Config(_) => true,
            _ => false,
        }
    }

    /// The text that stands for the error: the text it carries, or a fixed
    /// text where the kind carries none.
    pub open spec fn text(self) -> Seq<char> {
        match self {
            Error::Transport(m) => m@,
            Error::Parse => "no dialect matches the frame"@,
            Error::Config(m) => m@,
            Error::NoVenues => "no connection was established"@,
            Error::ChannelClosed => "channel closed"@,
            Error::Unknown(m) => m@,
        }
    }

    /// The text that stands for the error, for display.
    pub fn message(&self) -> (r: String)
        ensures
            r@ == self.text(),
    {
        match self {
            Error::Transport(m) => m.clone(),
            Error::Parse => String::from_str("no dialect matches the frame"),
            Error::Config(m) => m.clone(),
            Error::NoVenues => String::from_str("no connection was established"),
            Error::ChannelClosed => String::from_str("channel closed"),
            Error::Unknown(m) => m.clone(),
        }
    }
}

} // verus!
