//! The life of one subscription, as a state machine.
//!
//! The program opens sockets, sends frames and waits; after each of these
//! it reports what happened, and is told what to do next. A subscription
//! connects to every configured venue in turn, subscribes on every socket
//! that opened, and then turns frames into summaries until it is stopped.

use crate::book::BookView;
use crate::configuration::{Configuration, ExchangeConfig};
use crate::error::Error;
use crate::event::{decode, decoded_text};
use crate::exchange::Exchange;
use crate::summary::{put_all, samples, MergeEngine, Summary};
use crate::transport::{subscribe_request, subscribe_text};
use vstd::prelude::*;

verus! {

/// Where a subscription stands.
#[derive(Clone, Copy, Debug, PartialEq, Eq, Structural)]
pub enum Phase {
    /// Waiting for the outcome of opening a socket.
    Connecting,
    /// Waiting for the outcome of sending a subscribe frame.
    Subscribing,
    /// Waiting for frames.
    Streaming,
    /// Over.
    Closed,
}

/// What the program reports, frames aside.
#[derive(Clone, Copy, Debug, PartialEq, Eq, Structural)]
pub enum Signal {
    /// The socket asked for is open.
    Connected,
    /// The socket asked for could not be opened.
    ConnectFailed,
    /// The subscribe frame asked for was sent.
    Subscribed,
    /// The subscribe frame asked for could not be sent.
    SubscribeFailed,
    /// The summary to emit was handed to the subscriber.
    Delivered,
    /// A socket failed while it was read, or handed over what is no text
    /// frame.
    ReadFailed,
    /// Every socket has ended.
    Drained,
    /// The subscriber is gone, or the stop request was made.
    Stop,
}

/// What the program is told to do.
#[derive(Debug)]
pub enum Action {
    /// Open a socket to this address, for the venue entry of this index.
    Connect { exchange: usize, url: String },
    /// Send this frame on the socket of the service of this index.
    Subscribe { service: usize, message: String },
    /// Wait for a frame or for the stop request.
    Listen,
    /// Hand this summary to the subscriber, and report how that went.
    Emit(Summary),
    /// Drop the frame, and go on waiting.
    Skip,
    /// End the call with this error.
    Fail(Error),
    /// Wait for the stop request alone: no socket is left to read.
    AwaitStop,
    /// Close every socket and end the stream.
    Close,
    /// Nothing.
    Idle,
}

/// The part of a subscription that decides what comes next: the phase, the
/// position within it, the number of venue entries, and the entries whose
/// socket opened, in the order in which they opened.
pub struct Control {
    pub phase: Phase,
    pub cursor: nat,
    pub total: nat,
    pub connected: Seq<nat>,
}

/// What the program is told to do, without the texts.
pub enum Command {
    Connect(nat),
    Subscribe(nat),
    Listen,
    AwaitStop,
    Abort,
    Close,
    Idle,
}

/// The state that a signal leads to, and the command that goes with it.
///
/// While connecting, either outcome moves on to the next venue entry; after
/// the last one the subscription subscribes on the first open socket, or
/// ends with an error if none opened. While subscribing, either outcome
/// moves on to the next open socket; after the last one the subscription
/// listens. While it listens, it listens on after a summary was delivered
/// and after a socket failed, which ends that socket only; when every socket
/// has ended it waits for the stop. A stop closes it from any phase. Once closed, it stays closed and
/// asks for nothing. A signal that the phase does not wait for changes
/// nothing.
pub open spec fn advance(c: Control, s: Signal) -> (Control, Command) {
    match c.phase {
        Phase::Closed => (c, Command::Idle),
        _ => if s is Stop {
            (Control { phase: Phase::Closed, ..c }, Command::Close)
        } else {
            match c.phase {
                Phase::Connecting => if s is Connected || s is ConnectFailed {
                    let connected = if s is Connected {
                        c.connected.push(c.cursor)
                    } else {
                        c.connected
                    };
                    if c.cursor + 1 < c.total {
                        (
                            Control { cursor: c.cursor + 1, connected, ..c },
                            Command::Connect(c.cursor + 1),
                        )
                    } else if connected.len() == 0 {
                        (Control { phase: Phase::Closed, connected, ..c }, Command::Abort)
                    } else {
                        (
                            Control { phase: Phase::Subscribing, cursor: 0, connected, ..c },
                            Command::Subscribe(0),
                        )
                    }
                } else {
                    (c, Command::Idle)
                },
                Phase::Subscribing => if s is Subscribed || s is SubscribeFailed {
                    if c.cursor + 1 < c.connected.len() {
                        (Control { cursor: c.cursor + 1, ..c }, Command::Subscribe(c.cursor + 1))
                    } else {
                        (Control { phase: Phase::Streaming, cursor: 0, ..c }, Command::Listen)
                    }
                } else {
                    (c, Command::Idle)
                },
                _ => if s is ReadFailed || s is Delivered {
                    (c, Command::Listen)
                } else if s is Drained {
                    (c, Command::AwaitStop)
                } else {
                    (c, Command::Idle)
                },
            }
        },
    }
}

/// The state after a run of signals.
pub open spec fn run(c: Control, signals: Seq<Signal>) -> Control
    decreases signals.len(),
{
    if signals.len() == 0 {
        c
    } else {
        run(advance(c, signals[0]).0, signals.drop_first())
    }
}

/// The action that the outcome of applying an update leads to: the summary
/// is emitted; where there is none the frame is dropped.
pub open spec fn emitted(r: Result<Summary, Error>) -> Action {
    match r {
        Ok(s) => Action::Emit(s),
        Err(_) => Action::Skip,
    }
}

impl Action {
    /// The action without its texts; a summary or a dropped frame asks
    /// nothing of the sockets.
    pub open spec fn command(self) -> Command {
        match self {
            Action::Connect { exchange, url } => Command::Connect(exchange as nat),
            Action::Subscribe { service, message } => Command::Subscribe(service as nat),
            Action::Listen => Command::Listen,
            Action::AwaitStop => Command::AwaitStop,
            Action::Fail(_) => Command::Abort,
            Action::Close => Command::Close,
            _ => Command::Idle,
        }
    }
}

/// One subscription: the venue entries, the sockets that opened, the phase,
/// and the merge engine.
pub struct Subscription {
    phase: Phase,
    exchanges: Vec<ExchangeConfig>,
    venues: Vec<Exchange>,
    services: Vec<usize>,
    cursor: usize,
    engine: MergeEngine,
}

impl Subscription {
    /// The invariant of a subscription.
    pub closed spec fn wf(&self) -> bool {
        &&& self.engine.wf()
        &&& self.venues@.len() == self.exchanges@.len()
        &&& forall|i: int|
            0 <= i < self.exchanges@.len() ==> (#[trigger] self.exchanges@[i]).venue_of() == Some(
                self.venues@[i],
            )
        &&& forall|k: int|
            0 <= k < self.services@.len() ==> (#[trigger] self.services@[k])
                < self.exchanges@.len()
        &&& self.services@.len() <= self.exchanges@.len()
        &&& (self.phase is Connecting ==> self.cursor < self.exchanges@.len() && self.services@.len()
            <= self.cursor)
        &&& (self.phase is Subscribing ==> self.cursor < self.services@.len())
    }

    /// The deciding part of the state.
    pub closed spec fn control(&self) -> Control {
        Control {
            phase: self.phase,
            cursor: self.cursor as nat,
            total: self.exchanges@.len(),
            connected: Seq::new(self.services@.len(), |k: int| self.services@[k] as nat),
        }
    }

    /// The venue entries that the subscription was started with.
    pub closed spec fn entries(&self) -> Seq<ExchangeConfig> {
        self.exchanges@
    }

    /// The bid side of the merge engine.
    pub closed spec fn bids_view(&self) -> Map<Exchange, BookView> {
        self.engine.bids_view()
    }

    /// The ask side of the merge engine.
    pub closed spec fn asks_view(&self) -> Map<Exchange, BookView> {
        self.engine.asks_view()
    }

    /// The number of levels that a summary lists per side.
    pub closed spec fn result_size(&self) -> usize {
        self.engine.result_size()
    }

    /// Whether neither side holds more levels than a summary lists; a size
    /// of zero sets no bound.
    pub open spec fn within_size(&self) -> bool {
        self.result_size() >= 1 ==> self.bids_view().dom().len() <= self.result_size()
            && self.asks_view().dom().len() <= self.result_size()
    }

    /// A subscription keeps both sides within as many levels as a summary
    /// lists.
    pub proof fn lemma_within_size(&self)
        requires
            self.wf(),
        ensures
            self.within_size(),
    {
        self.engine.lemma_within_size();
    }

    /// The venue of the service of index `service`, where there is one.
    pub open spec fn venue_of_service(&self, service: int) -> Option<Exchange> {
        let c = self.control();
        if 0 <= service < c.connected.len() && c.connected[service] < self.entries().len() {
            self.entries()[c.connected[service] as int].venue_of()
        } else {
            None
        }
    }

    /// Whether `action` carries the texts that go with its command: the
    /// address of the venue entry to connect to, or the subscribe frame for
    /// the venue and channel of the service to subscribe on.
    pub open spec fn well_addressed(&self, action: Action) -> bool {
        match action {
            Action::Connect { exchange, url } => exchange < self.entries().len() && url@
                == self.entries()[exchange as int].url@,
            Action::Subscribe { service, message } => {
                let c = self.control();
                &&& service < c.connected.len()
                &&& c.connected[service as int] < self.entries().len()
                &&& self.venue_of_service(service as int) is Some
                &&& message@ == subscribe_text(
                    self.venue_of_service(service as int).unwrap(),
                    self.entries()[c.connected[service as int] as int].channel@,
                )
            },
            Action::Fail(e) => e is NoVenues,
            _ => true,
        }
    }

    /// The phase of the subscription.
    pub fn phase(&self) -> (r: Phase)
        ensures
            r == self.control().phase,
    {
        self.phase
    }

    /// Starts a subscription. A configuration that is not valid ends it at
    /// once with `Error::Config`, one without venue entries with
    /// `Error::NoVenues`; otherwise the first entry is to be connected.
    pub fn start(config: Configuration) -> (r: (Subscription, Action))
        ensures
            r.0.wf(),
            r.0.bids_view() == Map::<Exchange, BookView>::empty(),
            r.0.asks_view() == Map::<Exchange, BookView>::empty(),
            !config.valid() ==> r.0.control().phase is Closed,
            !config.valid() ==> (r.1 matches Action::Fail(Error::Config(m)) && Some(m@)
                == config.fault()),
            config.valid() ==> r.0.entries() == config.exchanges@ && r.0.result_size()
                == config.result_size,
            config.valid() && config.exchanges@.len() == 0 ==> r.0.control().phase is Closed
                && r.1 matches Action::Fail(Error::NoVenues),
            config.valid() && config.exchanges@.len() > 0 ==> r.0.control() == (Control {
                phase: Phase::Connecting,
                cursor: 0,
                total: config.exchanges@.len(),
                connected: Seq::empty(),
            }) && r.1.command() == Command::Connect(0) && r.0.well_addressed(r.1),
    {
        let read = config.venues();
        let Configuration { result_size, exchanges, .. } = config;
        let engine = MergeEngine::new(result_size);
        match read {
            Err(e) => {
                let s = Subscription {
                    phase: Phase::Closed,
                    exchanges: Vec::new(),
                    venues: Vec::new(),
                    services: Vec::new(),
                    cursor: 0,
                    engine,
                };
                (s, Action::Fail(e))
            },
            Ok(venues) => {
                if exchanges.len() == 0 {
                    let s = Subscription {
                        phase: Phase::Closed,
                        exchanges,
                        venues,
                        services: Vec::new(),
                        cursor: 0,
                        engine,
                    };
                    (s, Action::Fail(Error::NoVenues))
                } else {
                    let url: String = exchanges[0].url.clone();
                    let s = Subscription {
                        phase: Phase::Connecting,
                        exchanges,
                        venues,
                        services: Vec::new(),
                        cursor: 0,
                        engine,
                    };
                    assert(s.control().connected =~= Seq::<nat>::empty());
                    (s, Action::Connect { exchange: 0, url })
                }
            },
        }
    }

    /// Takes a signal and says what to do next: see `advance`. The texts of
    /// the action come from the venue entries; the merge engine is not
    /// touched.
    pub fn step(&mut self, signal: Signal) -> (action: Action)
        requires
            old(self).wf(),
        ensures
            final(self).wf(),
            final(self).control() == advance(old(self).control(), signal).0,
            action.command() == advance(old(self).control(), signal).1,
            final(self).well_addressed(action),
            final(self).entries() == old(self).entries(),
            final(self).bids_view() == old(self).bids_view(),
            final(self).asks_view() == old(self).asks_view(),
            final(self).result_size() == old(self).result_size(),
    {
        let ghost before = old(self).control();
        match self.phase {
            Phase::Closed => Action::Idle,
            Phase::Connecting => match signal {
                Signal::Stop => self.close(),
                Signal::Connected => self.after_connect(true),
                Signal::ConnectFailed => self.after_connect(false),
                _ => Action::Idle,
            },
            Phase::Subscribing => match signal {
                Signal::Stop => self.close(),
                Signal::Subscribed | Signal::SubscribeFailed => {
                    let open_sockets: usize = self.services.len();
                    if self.cursor + 1 < open_sockets {
                        self.cursor = self.cursor + 1;
                        assert(self.control().connected =~= before.connected);
                        self.subscribe_at(self.cursor)
                    } else {
                        self.phase = Phase::Streaming;
                        self.cursor = 0;
                        assert(self.control().connected =~= before.connected);
                        Action::Listen
                    }
                },
                _ => Action::Idle,
            },
            Phase::Streaming => match signal {
                Signal::Stop => self.close(),
                Signal::ReadFailed | Signal::Delivered => Action::Listen,
                Signal::Drained => Action::AwaitStop,
                _ => Action::Idle,
            },
        }
    }

    fn close(&mut self) -> (action: Action)
        requires
            old(self).wf(),
            !(old(self).phase is Closed),
        ensures
            final(self).wf(),
            final(self).control() == (Control { phase: Phase::Closed, ..old(self).control() }),
            action is Close,
            final(self).exchanges == old(self).exchanges,
            final(self).engine == old(self).engine,
    {
        self.phase = Phase::Closed;
        Action::Close
    }

    fn after_connect(&mut self, opened: bool) -> (action: Action)
        requires
            old(self).wf(),
            old(self).phase is Connecting,
        ensures
            final(self).wf(),
            final(self).exchanges == old(self).exchanges,
            final(self).engine == old(self).engine,
            final(self).well_addressed(action),
            final(self).control() == advance(
                old(self).control(),
                if opened {
                    Signal::Connected
                } else {
                    Signal::ConnectFailed
                },
            ).0,
            action.command() == advance(
                old(self).control(),
                if opened {
                    Signal::Connected
                } else {
                    Signal::ConnectFailed
                },
            ).1,
    {
        let ghost before = self.control();
        let ghost connected = if opened {
            before.connected.push(before.cursor)
        } else {
            before.connected
        };
        if opened {
            self.services.push(self.cursor);
        }
        assert(self.control().connected =~= connected);
        let total: usize = self.exchanges.len();
        if self.cursor + 1 < total {
            self.cursor = self.cursor + 1;
            let url: String = self.exchanges[self.cursor].url.clone();
            assert(self.control().connected =~= connected);
            Action::Connect { exchange: self.cursor, url }
        } else if self.services.len() == 0 {
            self.phase = Phase::Closed;
            assert(self.control().connected =~= connected);
            Action::Fail(Error::NoVenues)
        } else {
            self.phase = Phase::Subscribing;
            self.cursor = 0;
            assert(self.control().connected =~= connected);
            self.subscribe_at(0)
        }
    }

    fn subscribe_at(&self, service: usize) -> (action: Action)
        requires
            self.wf(),
            service < self.services@.len(),
        ensures
            action.command() == Command::Subscribe(service as nat),
            self.well_addressed(action),
    {
        let entry: usize = self.services[service];
        let message: String = subscribe_request(
            self.venues[entry],
            self.exchanges[entry].channel.as_str(),
        );
        Action::Subscribe { service, message }
    }

    /// Takes a frame that arrived on the socket of a service. While
    /// streaming, a frame that decodes is applied to the merge engine under
    /// the venue of that service, and the summary sampled afterwards is
    /// emitted; a frame that does not decode is dropped and changes nothing.
    /// In any other phase, and for a service that does not exist, the frame
    /// is ignored.
    pub fn frame(&mut self, service: usize, text: &str) -> (action: Action)
        requires
            old(self).wf(),
        ensures
            final(self).wf(),
            final(self).control() == old(self).control(),
            final(self).entries() == old(self).entries(),
            final(self).result_size() == old(self).result_size(),
            match old(self).frame_venue(service as int) {
                None => {
                    &&& action is Idle
                    &&& final(self).bids_view() == old(self).bids_view()
                    &&& final(self).asks_view() == old(self).asks_view()
                },
                Some(venue) => match decoded_text(text@, venue) {
                    None => {
                        &&& action is Skip
                        &&& final(self).bids_view() == old(self).bids_view()
                        &&& final(self).asks_view() == old(self).asks_view()
                    },
                    Some(u) => {
                        &&& put_all(
                            old(self).bids_view(),
                            old(self).result_size() as nat,
                            venue,
                            u.bids,
                            final(self).bids_view(),
                        )
                        &&& put_all(
                            old(self).asks_view(),
                            old(self).result_size() as nat,
                            venue,
                            u.asks,
                            final(self).asks_view(),
                        )
                        &&& exists|r: Result<Summary, Error>|
                            samples(
                                final(self).bids_view(),
                                final(self).asks_view(),
                                final(self).result_size() as nat,
                                r,
                            ) && action == #[trigger] emitted(r)
                    },
                },
            },
    {
        if !matches!(self.phase, Phase::Streaming) || service >= self.services.len() {
            return Action::Idle;
        }
        let venue: Exchange = self.venues[self.services[service]];
        assert(self.control().connected[service as int] == self.services@[service as int]);
        assert(self.frame_venue(service as int) == Some(venue));
        match decode(text, venue) {
            Err(_) => Action::Skip,
            Ok(update) => {
                proof {
                    crate::event::lemma_decoded_is_valid(text@, venue);
                }
                let r = self.engine.apply(&update);
                let action = match r {
                    Ok(s) => Action::Emit(s),
                    Err(_) => Action::Skip,
                };
                assert(action == emitted(r));
                action
            },
        }
    }

    /// The venue under which a frame of a service is applied: that of the
    /// service, while the subscription is streaming.
    pub open spec fn frame_venue(&self, service: int) -> Option<Exchange> {
        if self.control().phase is Streaming {
            self.venue_of_service(service)
        } else {
            None
        }
    }
}

/// Once closed, a subscription stays closed whatever is reported, and asks
/// for nothing.
pub proof fn lemma_closed_is_final(c: Control, signals: Seq<Signal>)
    requires
        c.phase is Closed,
    ensures
        run(c, signals) == c,
        forall|s: Signal| #[trigger] advance(c, s) == (c, Command::Idle),
    decreases signals.len(),
{
    if signals.len() > 0 {
        lemma_closed_is_final(c, signals.drop_first());
    }
}

/// A stop closes a subscription in one step from any phase: the sockets are
/// told to close unless it was closed already, and whatever is reported
/// afterwards, it stays closed.
pub proof fn lemma_stop_closes(c: Control, later: Seq<Signal>)
    ensures
        advance(c, Signal::Stop).0.phase is Closed,
        !(c.phase is Closed) ==> advance(c, Signal::Stop).1 is Close,
        run(c, seq![Signal::Stop] + later).phase is Closed,
{
    let stopped = advance(c, Signal::Stop).0;
    let all = seq![Signal::Stop] + later;
    assert(all[0] == Signal::Stop);
    assert(all.drop_first() =~= later);
    lemma_closed_is_final(stopped, later);
}

/// Where no socket opens the subscription ends with an error: from the
/// start, as many failures as there are venue entries close it, and the last
/// of them is answered by the command to abort.
pub proof fn lemma_no_venue_aborts(c: Control)
    requires
        c.phase is Connecting,
        c.cursor < c.total,
        c.connected.len() == 0,
    ensures
        run(c, Seq::new((c.total - c.cursor) as nat, |i: int| Signal::ConnectFailed)).phase
            is Closed,
        c.cursor + 1 == c.total ==> advance(c, Signal::ConnectFailed).1 is Abort,
    decreases c.total - c.cursor,
{
    let fails = Seq::new((c.total - c.cursor) as nat, |i: int| Signal::ConnectFailed);
    let next = advance(c, Signal::ConnectFailed).0;
    assert(fails[0] == Signal::ConnectFailed);
    if c.cursor + 1 < c.total {
        lemma_no_venue_aborts(next);
        assert(fails.drop_first() =~= Seq::new(
            (next.total - next.cursor) as nat,
            |i: int| Signal::ConnectFailed,
        ));
    } else {
        assert(fails.drop_first() =~= Seq::<Signal>::empty());
        assert(run(next, fails.drop_first()) == next);
    }
}

} // verus!
