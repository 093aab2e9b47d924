//! Decisions of the feed-ingestion side: what to ask the exchange for, how to read its
//! subscription answers, when a book message is a snapshot and when a delta, and how to
//! retry a lost connection.
use vstd::prelude::*;
use vstd::string::StringExecFns;

verus! {

/// Address of the exchange's streaming endpoint.
pub const KRAKEN_WS_URL: &'static str = "wss://ws.kraken.com/";

/// Trading pair followed when none is configured.
pub const DEFAULT_TRADING_PAIR: &'static str = "ZEC/USD";

/// Book depth asked for when none is configured.
pub const DEFAULT_BOOK_DEPTH: u32 = 1000;

/// Seconds to wait before connecting again after a lost or refused connection.
pub const RECONNECT_DELAY_SECS: u64 = 5;

/// Where the exchange is reached.
pub struct KrakenClient {
    url: String,
}

impl KrakenClient {
    pub closed spec fn url_view(&self) -> Seq<char> {
        self.url@
    }

    /// A client of the exchange's public endpoint.
    pub fn new() -> (r: KrakenClient)
        ensures
            r.url_view() == KRAKEN_WS_URL@,
    {
        KrakenClient { url: KRAKEN_WS_URL.to_owned() }
    }

    /// A client of another endpoint.
    pub fn with_url(url: String) -> (r: KrakenClient)
        ensures
            r.url_view() == url@,
    {
        KrakenClient { url }
    }

    pub fn url(&self) -> (r: &str)
        ensures
            r@ == self.url_view(),
    {
        self.url.as_str()
    }
}

/// Details of a subscription request.
#[derive(Debug)]
pub struct SubscriptionDetails {
    pub name: String,
    pub depth: Option<u32>,
}

/// A subscription request to the exchange.
#[derive(Debug)]
pub struct SubscriptionRequest {
    pub event: String,
    pub pair: Vec<String>,
    pub subscription: SubscriptionDetails,
}

/// Details of a subscription as the exchange confirms it.
#[derive(Debug)]
pub struct SubscriptionDetailsResponse {
    pub name: String,
    pub depth: Option<u32>,
}

/// The exchange's answer to a subscription request.
#[derive(Debug)]
pub struct SubscriptionStatus {
    pub event: String,
    pub status: String,
    pub channel_id: Option<u64>,
    pub pair: Option<String>,
    pub subscription: Option<SubscriptionDetailsResponse>,
    pub error_message: Option<String>,
}

/// Why the exchange refused a subscription.
#[derive(Clone, Debug)]
pub enum SubscriptionRefusal {
    /// The answer carried an error message.
    ErrorMessage(String),
    /// The answer's status was `"error"`, with no message.
    Rejected,
}

/// The request for the book of `pair`, to `depth` levels where one is given.
pub fn book_subscription(pair: &str, depth: Option<u32>) -> (r: SubscriptionRequest)
    ensures
        r.event@ == "subscribe"@,
        r.pair@.len() == 1,
        r.pair@[0]@ == pair@,
        r.subscription.name@ == "book"@,
        r.subscription.depth == depth,
{
    let mut pairs: Vec<String> = Vec::new();
    pairs.push(pair.to_owned());
    SubscriptionRequest {
        event: "subscribe".to_owned(),
        pair: pairs,
        subscription: SubscriptionDetails { name: "book".to_owned(), depth },
    }
}

/// Reads a subscription answer: a refusal where it carries an error message or its status
/// is `"error"`.
pub fn check_subscription_status(status: &SubscriptionStatus) -> (r: Result<(), SubscriptionRefusal>)
    ensures
        match status.error_message {
            Some(m) => r matches Err(SubscriptionRefusal::ErrorMessage(e)) && e@ == m@,
            None => (r is Err <==> status.status@ == "error"@) && (r is Err ==> r matches Err(
                SubscriptionRefusal::Rejected,
            )),
        },
{
    match &status.error_message {
        Some(m) => Err(SubscriptionRefusal::ErrorMessage(m.clone())),
        None => {
            let error_text = "error".to_owned();
            if status.status == error_text {
                Err(SubscriptionRefusal::Rejected)
            } else {
                Ok(())
            }
        },
    }
}

/// The exchange's name of the pair that follows `ticker` against the US dollar.
pub open spec fn pair_of(ticker: Seq<char>) -> Seq<char> {
    ticker + "/USD"@
}

/// The trading pair of an instrument: `"BTC"` is followed as `"BTC/USD"`.
pub fn ticker_to_pair(ticker: &str) -> (r: String)
    ensures
        r@ == pair_of(ticker@),
{
    String::from_str(ticker).concat("/USD")
}

/// Where a feed connection stands.
#[derive(Clone, Copy, Debug, PartialEq, Eq, Structural)]
pub enum FeedState {
    /// No connection; one is to be made.
    Disconnected,
    /// Connected and subscribed; the next book message is the full snapshot.
    AwaitingSnapshot,
    /// The snapshot is applied; book messages are deltas.
    Live,
}

/// What happened on a feed connection.
#[derive(Clone, Copy, Debug, PartialEq, Eq, Structural)]
pub enum FeedEvent {
    /// A connection was opened.
    Connected,
    /// Opening a connection failed.
    ConnectFailed,
    /// The subscription request was sent.
    Subscribed,
    /// Sending the subscription request failed.
    SubscribeFailed,
    /// A book message arrived.
    BookMessage,
    /// A subscription answer arrived that does not refuse.
    StatusAccepted,
    /// The connection was closed or failed.
    ConnectionLost,
    /// A message arrived that is neither a book message nor a subscription answer.
    Ignored,
}

/// What the ingestion loop does next.
#[derive(Clone, Copy, Debug, PartialEq, Eq, Structural)]
pub enum FeedAction {
    /// Open a connection.
    Connect,
    /// Send the subscription request.
    Subscribe,
    /// Wait this many seconds, then open a connection.
    ReconnectAfter(u64),
    /// Apply the book message as a snapshot.
    ApplySnapshot,
    /// Apply the book message as a delta.
    ApplyDelta,
    /// Read the next message.
    Continue,
}

/// The ingestion loop's rule: the first book message after a subscription replaces the book,
/// every later one is merged into it; a lost connection, or a failed connect or subscribe,
/// waits and connects again, which asks for a fresh snapshot.
pub open spec fn feed_transition(state: FeedState, event: FeedEvent) -> (FeedState, FeedAction) {
    match event {
        FeedEvent::Connected => (FeedState::Disconnected, FeedAction::Subscribe),
        FeedEvent::ConnectFailed => (
            FeedState::Disconnected,
            FeedAction::ReconnectAfter(RECONNECT_DELAY_SECS),
        ),
        FeedEvent::Subscribed => (FeedState::AwaitingSnapshot, FeedAction::Continue),
        FeedEvent::SubscribeFailed => (
            FeedState::Disconnected,
            FeedAction::ReconnectAfter(RECONNECT_DELAY_SECS),
        ),
        FeedEvent::BookMessage => match state {
            FeedState::AwaitingSnapshot => (FeedState::Live, FeedAction::ApplySnapshot),
            FeedState::Live => (FeedState::Live, FeedAction::ApplyDelta),
            FeedState::Disconnected => (FeedState::Disconnected, FeedAction::Connect),
        },
        FeedEvent::StatusAccepted => (state, FeedAction::Continue),
        FeedEvent::ConnectionLost => (
            FeedState::Disconnected,
            FeedAction::ReconnectAfter(RECONNECT_DELAY_SECS),
        ),
        FeedEvent::Ignored => (state, FeedAction::Continue),
    }
}

/// One step of the ingestion loop.
pub fn feed_step(state: FeedState, event: FeedEvent) -> (r: (FeedState, FeedAction))
    ensures
        r == feed_transition(state, event),
{
    match event {
        FeedEvent::Connected => (FeedState::Disconnected, FeedAction::Subscribe),
        FeedEvent::ConnectFailed => (
            FeedState::Disconnected,
            FeedAction::ReconnectAfter(RECONNECT_DELAY_SECS),
        ),
        FeedEvent::Subscribed => (FeedState::AwaitingSnapshot, FeedAction::Continue),
        FeedEvent::SubscribeFailed => (
            FeedState::Disconnected,
            FeedAction::ReconnectAfter(RECONNECT_DELAY_SECS),
        ),
        FeedEvent::BookMessage => match state {
            FeedState::AwaitingSnapshot => (FeedState::Live, FeedAction::ApplySnapshot),
            FeedState::Live => (FeedState::Live, FeedAction::ApplyDelta),
            FeedState::Disconnected => (FeedState::Disconnected, FeedAction::Connect),
        },
        FeedEvent::StatusAccepted => (state, FeedAction::Continue),
        FeedEvent::ConnectionLost => (
            FeedState::Disconnected,
            FeedAction::ReconnectAfter(RECONNECT_DELAY_SECS),
        ),
        FeedEvent::Ignored => (state, FeedAction::Continue),
    }
}

/// What to do after a failed connection attempt under exponential backoff.
#[derive(Clone, Copy, Debug, PartialEq, Eq, Structural)]
pub enum RetryDecision {
    /// Wait `delay_secs`, then make attempt number `attempt`; a later failure waits
    /// `next_delay_secs`.
    RetryAfter { delay_secs: u64, attempt: usize, next_delay_secs: u64 },
    /// Give up after `max_retries` retries.
    GiveUp,
}

/// The backoff rule: after `retries` retries, give up once `max_retries` is reached;
/// otherwise wait the current delay and double it (up to the largest `u64`).
pub fn retry_after_failure(retries: usize, delay_secs: u64, max_retries: usize) -> (r:
    RetryDecision)
    ensures
        retries >= max_retries ==> r == RetryDecision::GiveUp,
        retries < max_retries ==> r == (RetryDecision::RetryAfter {
            delay_secs,
            attempt: (retries + 1) as usize,
            next_delay_secs: if 2 * delay_secs <= u64::MAX {
                (2 * delay_secs) as u64
            } else {
                u64::MAX
            },
        }),
{
    if retries >= max_retries {
        RetryDecision::GiveUp
    } else {
        let next = match delay_secs.checked_mul(2) {
            Some(d) => d,
            None => u64::MAX,
        };
        RetryDecision::RetryAfter { delay_secs, attempt: retries + 1, next_delay_secs: next }
    }
}

} // verus!
