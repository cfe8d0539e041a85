//! The configuration record that the pipeline is started from, and the
//! checks that it must pass. Reading it from files and the environment is
//! left to the program.

use crate::error::Error;
use crate::exchange::Exchange;
use crate::text::{eq_ignore_case, number_text, same_folded, write_number};
use vstd::prelude::*;
use vstd::string::*;

verus! {

/// Where the server listens.
#[derive(Debug)]
pub struct Server {
    pub hostname: String,
    pub port: u16,
}

/// One venue to connect to: its name, the channel to subscribe to, and the
/// address of its socket.
#[derive(Debug)]
pub struct ExchangeConfig {
    pub exchange: String,
    pub channel: String,
    pub url: String,
}

/// The whole configuration.
#[derive(Debug)]
pub struct Configuration {
    pub result_size: usize,
    pub exchanges: Vec<ExchangeConfig>,
    pub server: Server,
}

/// The environment that selects the overlay document.
#[derive(Clone, Copy, Debug, PartialEq, Eq, Structural)]
pub enum Environment {
    Local,
    Production,
}

impl Environment {
    /// The lower-case name of the environment.
    pub open spec fn name(self) -> Seq<char> {
        match self {
            Environment::Local => "local"@,
            Environment::Production => "production"@,
        }
    }

    /// The environment that `text` names, letter case aside.
    pub open spec fn named(text: Seq<char>) -> Option<Environment> {
        if same_folded(text, Environment::Local.name()) {
            Some(Environment::Local)
        } else if same_folded(text, Environment::Production.name()) {
            Some(Environment::Production)
        } else {
            None
        }
    }

    /// The text of the error that `parse` returns for `text`.
    pub open spec fn unsupported(text: Seq<char>) -> Seq<char> {
        "unsupported environment `"@ + text + "`, please use `local` or `production`"@
    }

    /// The lower-case name of the environment.
    pub fn as_str(&self) -> (r: &'static str)
        ensures
            r@ == self.name(),
    {
        match self {
            Environment::Local => "local",
            Environment::Production => "production",
        }
    }

    /// Reads an environment name without regard to letter case. Any other
    /// text is refused with `Error::Unknown`, whose detail quotes the text.
    pub fn parse(value: &str) -> (r: Result<Environment, Error>)
        ensures
            match Environment::named(value@) {
                Some(e) => r == Ok::<Environment, Error>(e),
                None => r matches Err(Error::Unknown(m)) && m@ == Environment::unsupported(value@),
            },
    {
        if eq_ignore_case(value, "local") {
            Ok(Environment::Local)
        } else if eq_ignore_case(value, "production") {
            Ok(Environment::Production)
        } else {
            Err(
                Error::Unknown(
                    String::from_str("unsupported environment `").concat(value).concat(
                        "`, please use `local` or `production`",
                    ),
                ),
            )
        }
    }
}

impl AsRef<str> for Environment {
    fn as_ref(&self) -> (r: &str)
        ensures
            r@ == self.name(),
    {
        self.as_str()
    }
}

impl ExchangeConfig {
    /// A venue entry with the given name, channel and address.
    pub fn new(exchange: &str, channel: &str, url: &str) -> (r: ExchangeConfig)
        ensures
            r.exchange@ == exchange@,
            r.channel@ == channel@,
            r.url@ == url@,
    {
        ExchangeConfig {
            exchange: String::from_str(exchange),
            channel: String::from_str(channel),
            url: String::from_str(url),
        }
    }

    /// The venue that the entry names, if it names one.
    pub open spec fn venue_of(self) -> Option<Exchange> {
        Exchange::named(self.exchange@)
    }

    /// A copy of the entry.
    pub fn duplicate(&self) -> (r: ExchangeConfig)
        ensures
            r == *self,
    {
        ExchangeConfig {
            exchange: self.exchange.clone(),
            channel: self.channel.clone(),
            url: self.url.clone(),
        }
    }
}

impl Clone for Server {
    fn clone(&self) -> (r: Server)
        ensures
            r == *self,
    {
        Server { hostname: self.hostname.clone(), port: self.port }
    }
}

impl Clone for ExchangeConfig {
    fn clone(&self) -> (r: ExchangeConfig)
        ensures
            r == *self,
    {
        self.duplicate()
    }
}

/// The first venue entry from `from` on that names no known venue.
pub open spec fn first_unknown(entries: Seq<ExchangeConfig>, from: int) -> Option<int>
    decreases entries.len() - from,
{
    if from < 0 || from >= entries.len() {
        None
    } else if entries[from].venue_of() is None {
        Some(from)
    } else {
        first_unknown(entries, from + 1)
    }
}

/// `first_unknown` finds an entry exactly if there is one.
pub proof fn lemma_first_unknown(entries: Seq<ExchangeConfig>, from: int)
    requires
        0 <= from,
    ensures
        first_unknown(entries, from) is None <==> forall|i: int|
            from <= i < entries.len() ==> (#[trigger] entries[i]).venue_of() is Some,
        first_unknown(entries, from) matches Some(k) ==> from <= k < entries.len()
            && entries[k].venue_of() is None,
    decreases entries.len() - from,
{
    if from < entries.len() {
        lemma_first_unknown(entries, from + 1);
        if entries[from].venue_of() is Some {
            assert forall|i: int| from <= i < entries.len() && (forall|j: int|
                from + 1 <= j < entries.len() ==> (#[trigger] entries[j]).venue_of() is Some)
                implies (#[trigger] entries[i]).venue_of() is Some by {
                if i > from {
                    assert(entries[i].venue_of() is Some);
                }
            }
        }
    }
}

impl Configuration {
    /// Whether the configuration can start a pipeline: it asks for at least
    /// one level per side, and every venue entry names a known venue.
    pub open spec fn valid(self) -> bool {
        self.result_size >= 1 && forall|i: int|
            0 <= i < self.exchanges@.len() ==> (#[trigger] self.exchanges@[i]).venue_of() is Some
    }

    /// What is wrong with the configuration, if anything: the size first,
    /// then the first venue entry that names no known venue.
    pub open spec fn fault(self) -> Option<Seq<char>> {
        if self.result_size < 1 {
            Some("result_size must be at least 1"@)
        } else {
            match first_unknown(self.exchanges@, 0) {
                Some(k) => Some(Exchange::unsupported(self.exchanges@[k].exchange@)),
                None => None,
            }
        }
    }

    /// A configuration is valid exactly if nothing is wrong with it.
    pub proof fn lemma_valid_has_no_fault(self)
        ensures
            self.valid() <==> self.fault() is None,
    {
        lemma_first_unknown(self.exchanges@, 0);
    }

    /// The address of the server: host name, a colon, the port in decimal.
    pub open spec fn address(self) -> Seq<char> {
        self.server.hostname@ + ":"@ + number_text(self.server.port as nat)
    }

    /// Whether `venues` holds the venue that each entry names, in order.
    pub open spec fn names(self, venues: Seq<Exchange>) -> bool {
        venues.len() == self.exchanges@.len() && forall|i: int|
            0 <= i < self.exchanges@.len() ==> (#[trigger] self.exchanges@[i]).venue_of() == Some(
                venues[i],
            )
    }

    /// Checks the configuration and reads the venue of every entry; a
    /// configuration that is not valid gives `Error::Config` with what is
    /// wrong as its detail.
    pub fn venues(&self) -> (r: Result<Vec<Exchange>, Error>)
        ensures
            self.valid() <==> r is Ok,
            match self.fault() {
                None => r matches Ok(v) && self.names(v@),
                Some(d) => r matches Err(Error::Config(m)) && m@ == d,
            },
    {
        proof {
            self.lemma_valid_has_no_fault();
        }
        if self.result_size < 1 {
            return Err(Error::Config(String::from_str("result_size must be at least 1")));
        }
        let mut venues: Vec<Exchange> = Vec::new();
        let mut i: usize = 0;
        while i < self.exchanges.len()
            invariant
                i <= self.exchanges@.len(),
                self.result_size >= 1,
                first_unknown(self.exchanges@, 0) == first_unknown(self.exchanges@, i as int),
                venues@.len() == i,
                forall|k: int|
                    0 <= k < i ==> (#[trigger] self.exchanges@[k]).venue_of() == Some(venues@[k]),
            decreases self.exchanges@.len() - i,
        {
            match Exchange::parse(self.exchanges[i].exchange.as_str()) {
                Ok(venue) => {
                    venues.push(venue);
                },
                Err(e) => {
                    assert(self.exchanges@[i as int].venue_of() is None);
                    let detail: String = match e {
                        Error::Unknown(m) => m,
                        _ => String::new(),
                    };
                    return Err(Error::Config(detail));
                },
            }
            i += 1;
        }
        Ok(venues)
    }

    /// Checks the configuration; one that is not valid gives `Error::Config`
    /// with what is wrong as its detail.
    pub fn validate(&self) -> (r: Result<(), Error>)
        ensures
            self.valid() <==> r is Ok,
            match self.fault() {
                None => r is Ok,
                Some(d) => r matches Err(Error::Config(m)) && m@ == d,
            },
    {
        match self.venues() {
            Ok(_) => Ok(()),
            Err(e) => Err(e),
        }
    }

    /// The address of the server.
    pub fn server_addr(&self) -> (r: String)
        ensures
            r@ == self.address(),
    {
        let port: String = write_number(self.server.port as u64);
        self.server.hostname.clone().concat(":").concat(port.as_str())
    }
}

} // verus!
