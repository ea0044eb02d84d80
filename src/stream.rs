//! The streaming client's logic: symbol translation for the reference-price
//! query, applying reference prices and ticks to the price store, and the
//! connection state machine that the I/O loop drives.

use crate::config::CoinConfig;
use crate::decimal::{price_units, push_char, parse_price};
use crate::ticker::{with_open, with_price, CoinData, TickerState};
use vstd::prelude::*;

verus! {

/// What `str::to_uppercase` returns for the characters `s`.
pub uninterp spec fn upper_of(s: Seq<char>) -> Seq<char>;

/// Relies on `str::to_uppercase`: the result depends on the characters alone.
#[verifier::external_body]
fn to_upper(s: &str) -> (r: String)
    ensures
        r@ == upper_of(s@),
{
    s.to_uppercase()
}

/// `s` without its `/` characters.
pub open spec fn without_slashes(s: Seq<char>) -> Seq<char>
    decreases s.len(),
{
    if s.len() == 0 {
        Seq::empty()
    } else if s.last() == '/' {
        without_slashes(s.drop_last())
    } else {
        without_slashes(s.drop_last()).push(s.last())
    }
}

/// The reference-query name of a stream symbol: a fixed name for the pairs
/// whose names differ, else the symbol without `/`, upper-cased.
pub open spec fn rest_symbol(s: Seq<char>) -> Seq<char> {
    if s == "BTC/USD"@ {
        "XXBTZUSD"@
    } else if s == "ETH/USD"@ {
        "XETHZUSD"@
    } else if s == "XRP/USD"@ {
        "XXRPZUSD"@
    } else {
        upper_of(without_slashes(s))
    }
}

/// The reference-query name of the stream symbol `ws_symbol`.
pub fn ws_to_rest_symbol(ws_symbol: &str) -> (r: String)
    ensures
        r@ == rest_symbol(ws_symbol@),
{
    let s = String::from_str(ws_symbol);
    if s == String::from_str("BTC/USD") {
        return String::from_str("XXBTZUSD");
    } else if s == String::from_str("ETH/USD") {
        return String::from_str("XETHZUSD");
    } else if s == String::from_str("XRP/USD") {
        return String::from_str("XXRPZUSD");
    }
    let n = ws_symbol.unicode_len();
    let mut out = String::new();
    let mut i: usize = 0;
    while i < n
        invariant
            n == ws_symbol@.len(),
            i <= n,
            out@ == without_slashes(ws_symbol@.take(i as int)),
        decreases n - i,
    {
        let c = ws_symbol.get_char(i);
        assert(ws_symbol@.take(i as int + 1).drop_last() =~= ws_symbol@.take(i as int));
        if c != '/' {
            push_char(&mut out, c);
        }
        i += 1;
    }
    assert(ws_symbol@.take(n as int) =~= ws_symbol@);
    to_upper(out.as_str())
}

/// The reference names of `coins`, joined by commas.
pub open spec fn joined_rest_symbols(coins: Seq<CoinConfig>) -> Seq<char>
    decreases coins.len(),
{
    if coins.len() == 0 {
        Seq::empty()
    } else if coins.len() == 1 {
        rest_symbol(coins[0].symbol@)
    } else {
        joined_rest_symbols(coins.drop_last()) + seq![','] + rest_symbol(coins.last().symbol@)
    }
}

/// The address of the reference-price query for `coins`.
pub open spec fn reference_query_text(coins: Seq<CoinConfig>) -> Seq<char> {
    "https://api.kraken.com/0/public/Ticker?pair="@ + joined_rest_symbols(coins)
}

/// The address of the reference-price query: the ticker endpoint with the
/// comma-joined reference names of all configured instruments.
pub fn reference_query_url(coins: &Vec<CoinConfig>) -> (r: String)
    ensures
        r@ == reference_query_text(coins@),
{
    let mut url = String::from_str("https://api.kraken.com/0/public/Ticker?pair=");
    let ghost base = url@;
    let mut i: usize = 0;
    while i < coins.len()
        invariant
            i <= coins.len(),
            base == "https://api.kraken.com/0/public/Ticker?pair="@,
            url@ == base + joined_rest_symbols(coins@.take(i as int)),
        decreases coins.len() - i,
    {
        let ghost prev = url@;
        assert(coins@.take(i as int + 1).drop_last() =~= coins@.take(i as int));
        if i > 0 {
            push_char(&mut url, ',');
        }
        let r = ws_to_rest_symbol(coins[i].symbol.as_str());
        url.append(r.as_str());
        i += 1;
        assert(url@ =~= base + joined_rest_symbols(coins@.take(i as int)));
    }
    assert(coins@.take(coins.len() as int) =~= coins@);
    url
}

/// One entry of the reference-price answer: a reference name and the text
/// of its open price, where it has one.
pub struct RestTicker {
    pub pair: String,
    pub open: Option<String>,
}

/// The open-price text of the first entry named `pair`.
pub open spec fn lookup_open(results: Seq<RestTicker>, pair: Seq<char>) -> Option<Seq<char>>
    decreases results.len(),
{
    if results.len() == 0 {
        None
    } else if results[0].pair@ == pair {
        match results[0].open {
            Some(o) => Some(o@),
            None => None,
        }
    } else {
        lookup_open(results.drop_first(), pair)
    }
}

/// The reference open that `results` give the stream symbol `sym`: present,
/// a decimal number, and within range.
pub open spec fn reference_open(results: Seq<RestTicker>, sym: Seq<char>) -> Option<u64> {
    match lookup_open(results, rest_symbol(sym)) {
        Some(t) => match price_units(t) {
            Some(v) => if v <= u64::MAX {
                Some(v as u64)
            } else {
                None
            },
            None => None,
        },
        None => None,
    }
}

/// The store after the reference opens of `results` for `coins`, in order.
pub open spec fn opens_applied(
    store: Map<Seq<char>, CoinData>,
    coins: Seq<CoinConfig>,
    results: Seq<RestTicker>,
) -> Map<Seq<char>, CoinData>
    decreases coins.len(),
{
    if coins.len() == 0 {
        store
    } else {
        let s = opens_applied(store, coins.drop_last(), results);
        match reference_open(results, coins.last().symbol@) {
            Some(v) => with_open(s, coins.last().symbol@, v),
            None => s,
        }
    }
}

fn find_open(results: &Vec<RestTicker>, pair: &String) -> (r: Option<u64>)
    ensures
        r == match lookup_open(results@, pair@) {
            Some(t) => match price_units(t) {
                Some(v) => if v <= u64::MAX {
                    Some(v as u64)
                } else {
                    None
                },
                None => None,
            },
            None => None,
        },
{
    let mut i: usize = 0;
    assert(results@.skip(0) =~= results@);
    while i < results.len()
        invariant
            i <= results.len(),
            lookup_open(results@.skip(i as int), pair@) == lookup_open(results@, pair@),
        decreases results.len() - i,
    {
        assert(results@.skip(i as int).drop_first() =~= results@.skip(i as int + 1));
        assert(results@.skip(i as int)[0] == results@[i as int]);
        if results[i].pair == *pair {
            return match &results[i].open {
                Some(o) => parse_price(o.as_str()),
                None => None,
            };
        }
        i += 1;
    }
    None
}

/// Applies the reference-price answer `results` to the store, instrument by
/// instrument in configured order; entries that are missing or that do not
/// hold a number are passed over.
pub fn apply_open_prices(state: &mut TickerState, coins: &Vec<CoinConfig>, results: &Vec<RestTicker>)
    requires
        old(state).wf(),
    ensures
        final(state).wf(),
        final(state).coins() == old(state).coins(),
        final(state).store() == opens_applied(old(state).store(), coins@, results@),
{
    let mut i: usize = 0;
    while i < coins.len()
        invariant
            i <= coins.len(),
            state.wf(),
            state.coins() == old(state).coins(),
            state.store() == opens_applied(old(state).store(), coins@.take(i as int), results@),
        decreases coins.len() - i,
    {
        assert(coins@.take(i as int + 1).drop_last() =~= coins@.take(i as int));
        let rest = ws_to_rest_symbol(coins[i].symbol.as_str());
        if let Some(open) = find_open(results, &rest) {
            state.set_open_price(coins[i].symbol.as_str(), open);
        }
        i += 1;
    }
    assert(coins@.take(coins.len() as int) =~= coins@);
}

/// One entry of a ticker-channel message, in price units.
pub struct TickerUpdate {
    pub symbol: Option<String>,
    pub last: Option<u64>,
    pub change: Option<i128>,
}

/// The store after one ticker entry: the price is set when symbol and last
/// price are present, and the reference open becomes `last - change` when a
/// change is present and that value is positive (and fits in a `u64`).
pub open spec fn tick_applied(store: Map<Seq<char>, CoinData>, u: TickerUpdate) -> Map<
    Seq<char>,
    CoinData,
> {
    match (u.symbol, u.last) {
        (Some(sym), Some(p)) => {
            let s1 = with_price(store, sym@, p);
            match u.change {
                Some(c) => if 0 < p - c <= u64::MAX {
                    with_open(s1, sym@, (p - c) as u64)
                } else {
                    s1
                },
                None => s1,
            }
        },
        _ => store,
    }
}

/// The store after the ticker entries `us`, in order.
pub open spec fn ticks_applied(store: Map<Seq<char>, CoinData>, us: Seq<TickerUpdate>) -> Map<
    Seq<char>,
    CoinData,
>
    decreases us.len(),
{
    if us.len() == 0 {
        store
    } else {
        tick_applied(ticks_applied(store, us.drop_last()), us.last())
    }
}

/// Applies the entries of a ticker-channel message to the store, in order.
pub fn apply_ticker_updates(state: &mut TickerState, updates: &Vec<TickerUpdate>)
    requires
        old(state).wf(),
    ensures
        final(state).wf(),
        final(state).coins() == old(state).coins(),
        final(state).store() == ticks_applied(old(state).store(), updates@),
{
    let mut i: usize = 0;
    while i < updates.len()
        invariant
            i <= updates.len(),
            state.wf(),
            state.coins() == old(state).coins(),
            state.store() == ticks_applied(old(state).store(), updates@.take(i as int)),
        decreases updates.len() - i,
    {
        assert(updates@.take(i as int + 1).drop_last() =~= updates@.take(i as int));
        let u = &updates[i];
        match (&u.symbol, u.last) {
            (Some(sym), Some(p)) => {
                state.update_price(sym.as_str(), p);
                match u.change {
                    Some(c) => {
                        if c < p as i128 && c >= -(u64::MAX as i128) {
                            let open: i128 = p as i128 - c;
                            if open <= u64::MAX as i128 {
                                state.set_open_price(sym.as_str(), open as u64);
                            }
                        }
                    },
                    None => {},
                }
            },
            _ => {},
        }
        i += 1;
    }
    assert(updates@.take(updates.len() as int) =~= updates@);
}

/// Whether a message names the ticker channel.
pub open spec fn is_ticker(channel: Option<String>) -> bool {
    channel matches Some(c) && c@ == "ticker"@
}

/// Handles one decoded stream message: only a ticker-channel message with
/// data changes the store; every other message is passed over.
pub fn handle_message(
    state: &mut TickerState,
    channel: &Option<String>,
    data: &Option<Vec<TickerUpdate>>,
)
    requires
        old(state).wf(),
    ensures
        final(state).wf(),
        final(state).coins() == old(state).coins(),
        final(state).store() == match data {
            Some(us) => if is_ticker(*channel) {
                ticks_applied(old(state).store(), us@)
            } else {
                old(state).store()
            },
            None => old(state).store(),
        },
{
    let ticker = match channel {
        Some(c) => *c == String::from_str("ticker"),
        None => false,
    };
    if ticker {
        if let Some(us) = data {
            apply_ticker_updates(state, us);
        }
    }
}

/// Pause before the client starts over after the stream fails, in
/// milliseconds.
pub const RECONNECT_DELAY_MS: u64 = 5000;

/// Where the streaming client stands.
#[derive(Clone, Copy, PartialEq, Eq, Structural, Debug)]
pub enum ClientState {
    Disconnected,
    FetchingReference,
    Connecting,
    Subscribing,
    Streaming,
}

/// What the I/O loop reports back to the client.
#[derive(Clone, Copy, PartialEq, Eq, Structural, Debug)]
pub enum ClientEvent {
    /// The loop begins.
    Start,
    /// The pause asked for by `Wait` is over.
    DelayElapsed,
    /// The reference-price query finished, successful or not.
    ReferenceFetched,
    Connected,
    SubscribeSent,
    /// A text or other non-ping message arrived.
    Message,
    Ping,
    /// Connecting, reading or sending failed.
    TransportError,
    /// The server closed the stream.
    StreamEnded,
}

/// What the client asks the I/O loop to do next.
#[derive(Clone, Copy, PartialEq, Eq, Structural, Debug)]
pub enum ClientAction {
    FetchReference,
    Connect,
    SendSubscribe,
    ReadNext,
    /// Answer the ping with its payload, then read the next message.
    SendPong,
    /// Pause for the given number of milliseconds.
    Wait(u64),
    /// The event does not apply in this state: nothing to do.
    Idle,
}

/// The client's transition: from a state and an event to the next state and
/// the action to perform.
pub open spec fn transition(s: ClientState, e: ClientEvent) -> (ClientState, ClientAction) {
    match (s, e) {
        (ClientState::Disconnected, ClientEvent::Start)
        | (ClientState::Disconnected, ClientEvent::DelayElapsed) => (
            ClientState::FetchingReference,
            ClientAction::FetchReference,
        ),
        (ClientState::FetchingReference, ClientEvent::ReferenceFetched) => (
            ClientState::Connecting,
            ClientAction::Connect,
        ),
        (ClientState::Connecting, ClientEvent::Connected) => (
            ClientState::Subscribing,
            ClientAction::SendSubscribe,
        ),
        (ClientState::Subscribing, ClientEvent::SubscribeSent) => (
            ClientState::Streaming,
            ClientAction::ReadNext,
        ),
        (ClientState::Streaming, ClientEvent::Message) => (
            ClientState::Streaming,
            ClientAction::ReadNext,
        ),
        (ClientState::Streaming, ClientEvent::Ping) => (
            ClientState::Streaming,
            ClientAction::SendPong,
        ),
        (ClientState::Connecting, ClientEvent::TransportError)
        | (ClientState::Subscribing, ClientEvent::TransportError)
        | (ClientState::Streaming, ClientEvent::TransportError)
        | (ClientState::Streaming, ClientEvent::StreamEnded) => (
            ClientState::Disconnected,
            ClientAction::Wait(RECONNECT_DELAY_MS),
        ),
        _ => (s, ClientAction::Idle),
    }
}

/// Performs one transition of the client.
pub fn step(s: ClientState, e: ClientEvent) -> (r: (ClientState, ClientAction))
    ensures
        r == transition(s, e),
{
    match (s, e) {
        (ClientState::Disconnected, ClientEvent::Start)
        | (ClientState::Disconnected, ClientEvent::DelayElapsed) => (
            ClientState::FetchingReference,
            ClientAction::FetchReference,
        ),
        (ClientState::FetchingReference, ClientEvent::ReferenceFetched) => (
            ClientState::Connecting,
            ClientAction::Connect,
        ),
        (ClientState::Connecting, ClientEvent::Connected) => (
            ClientState::Subscribing,
            ClientAction::SendSubscribe,
        ),
        (ClientState::Subscribing, ClientEvent::SubscribeSent) => (
            ClientState::Streaming,
            ClientAction::ReadNext,
        ),
        (ClientState::Streaming, ClientEvent::Message) => (
            ClientState::Streaming,
            ClientAction::ReadNext,
        ),
        (ClientState::Streaming, ClientEvent::Ping) => (
            ClientState::Streaming,
            ClientAction::SendPong,
        ),
        (ClientState::Connecting, ClientEvent::TransportError)
        | (ClientState::Subscribing, ClientEvent::TransportError)
        | (ClientState::Streaming, ClientEvent::TransportError)
        | (ClientState::Streaming, ClientEvent::StreamEnded) => (
            ClientState::Disconnected,
            ClientAction::Wait(RECONNECT_DELAY_MS),
        ),
        _ => (s, ClientAction::Idle),
    }
}

/// The state reached and the actions asked for when `events` arrive in
/// state `s`.
pub open spec fn run(s: ClientState, events: Seq<ClientEvent>) -> (ClientState, Seq<ClientAction>)
    decreases events.len(),
{
    if events.len() == 0 {
        (s, Seq::empty())
    } else {
        let (s1, acts) = run(s, events.drop_last());
        let (s2, a) = transition(s1, events.last());
        (s2, acts.push(a))
    }
}

/// A transport failure while streaming leads to one pause of the fixed
/// delay, then a reference refetch, then one connection attempt, and only
/// then a subscribe. In general: every failure once connected pauses for the
/// fixed delay; a connection attempt comes only right after a refetch, and a
/// subscribe only right after a successful connection; leaving the
/// disconnected state always starts with a refetch.
pub proof fn lemma_reconnect_after_failure()
    ensures
        run(
            ClientState::Streaming,
            seq![
                ClientEvent::TransportError,
                ClientEvent::DelayElapsed,
                ClientEvent::ReferenceFetched,
                ClientEvent::Connected,
            ],
        ) == (
            ClientState::Subscribing,
            seq![
                ClientAction::Wait(RECONNECT_DELAY_MS),
                ClientAction::FetchReference,
                ClientAction::Connect,
                ClientAction::SendSubscribe,
            ],
        ),
        forall|s: ClientState|
            s != ClientState::Disconnected && s != ClientState::FetchingReference ==> #[trigger] transition(
                s,
                ClientEvent::TransportError,
            ) == (ClientState::Disconnected, ClientAction::Wait(RECONNECT_DELAY_MS)),
        forall|s: ClientState, e: ClientEvent|
            #[trigger] transition(s, e).1 == ClientAction::Connect ==> s
                == ClientState::FetchingReference && transition(s, e).0 == ClientState::Connecting,
        forall|s: ClientState, e: ClientEvent|
            #[trigger] transition(s, e).1 == ClientAction::SendSubscribe ==> s
                == ClientState::Connecting && e == ClientEvent::Connected,
        forall|e: ClientEvent|
            #![trigger transition(ClientState::Disconnected, e)]
            transition(ClientState::Disconnected, e).0 != ClientState::Disconnected ==> transition(
                ClientState::Disconnected,
                e,
            ) == (ClientState::FetchingReference, ClientAction::FetchReference),
{
    let evs = seq![
        ClientEvent::TransportError,
        ClientEvent::DelayElapsed,
        ClientEvent::ReferenceFetched,
        ClientEvent::Connected,
    ];
    assert(evs.drop_last().drop_last().drop_last().drop_last() =~= Seq::<ClientEvent>::empty());
    assert(evs.drop_last().drop_last().drop_last() =~= seq![ClientEvent::TransportError]);
    assert(evs.drop_last().drop_last() =~= seq![
        ClientEvent::TransportError,
        ClientEvent::DelayElapsed,
    ]);
    assert(evs.drop_last() =~= seq![
        ClientEvent::TransportError,
        ClientEvent::DelayElapsed,
        ClientEvent::ReferenceFetched,
    ]);
    reveal_with_fuel(run, 5);
    assert(run(ClientState::Streaming, evs).1 =~= seq![
        ClientAction::Wait(RECONNECT_DELAY_MS),
        ClientAction::FetchReference,
        ClientAction::Connect,
        ClientAction::SendSubscribe,
    ]);
}

/// No action in `acts[from..to]` is a pause.
pub open spec fn no_wait_in(acts: Seq<ClientAction>, from: int, to: int) -> bool {
    forall|w: int| from <= w < to ==> !(#[trigger] acts[w] is Wait)
}

/// Between any two connection attempts of `acts` lies a pause.
pub open spec fn one_connect_per_pause(acts: Seq<ClientAction>) -> bool {
    forall|j1: int, j2: int|
        0 <= j1 < j2 < acts.len() && #[trigger] acts[j1] == ClientAction::Connect && #[trigger] acts[j2]
            == ClientAction::Connect ==> !no_wait_in(acts, j1 + 1, j2)
}

/// Every subscribe in `acts` follows a refetch and then a connection attempt,
/// with no pause since that refetch.
pub open spec fn subscribe_after_refetch(acts: Seq<ClientAction>) -> bool {
    forall|j: int|
        0 <= j < acts.len() && #[trigger] acts[j] == ClientAction::SendSubscribe ==> exists|i: int, k: int|
            0 <= i < k < j && acts[i] == ClientAction::FetchReference && acts[k]
                == ClientAction::Connect && no_wait_in(acts, i, j)
}

/// Every connection attempt in `acts[..upto]` is followed by a pause before `upto`.
spec fn connects_closed(acts: Seq<ClientAction>, upto: int) -> bool {
    forall|c: int| 0 <= c < upto && #[trigger] acts[c] == ClientAction::Connect ==> !no_wait_in(acts, c + 1, upto)
}

spec fn trace_inv(s: ClientState, acts: Seq<ClientAction>) -> bool {
    &&& one_connect_per_pause(acts)
    &&& subscribe_after_refetch(acts)
    &&& match s {
        ClientState::Disconnected => connects_closed(acts, acts.len() as int),
        ClientState::FetchingReference => connects_closed(acts, acts.len() as int) && exists|i: int|
            0 <= i < acts.len() && acts[i] == ClientAction::FetchReference && no_wait_in(acts, i, acts.len() as int),
        _ => exists|i: int, k: int|
            0 <= i < k < acts.len() && acts[i] == ClientAction::FetchReference && acts[k] == ClientAction::Connect
                && no_wait_in(acts, i, acts.len() as int) && connects_closed(acts, k)
                && forall|c: int| k < c < acts.len() ==> #[trigger] acts[c] != ClientAction::Connect,
    }
}

proof fn lemma_trace_step(s: ClientState, acts: Seq<ClientAction>, e: ClientEvent)
    requires
        trace_inv(s, acts),
    ensures
        trace_inv(transition(s, e).0, acts.push(transition(s, e).1)),
{
    let (s2, a) = transition(s, e);
    let n = acts.len() as int;
    let acts2 = acts.push(a);
    assert forall|x: int, y: int| 0 <= x <= y <= n && no_wait_in(acts2, x, y) implies no_wait_in(acts, x, y) by {
        assert forall|w: int| x <= w < y implies !(#[trigger] acts[w] is Wait) by {
            assert(acts2[w] == acts[w]);
        }
    }
    assert forall|x: int, y: int| 0 <= x <= y <= n && no_wait_in(acts, x, y) implies no_wait_in(acts2, x, y) by {
        assert forall|w: int| x <= w < y implies !(#[trigger] acts2[w] is Wait) by {
            assert(acts2[w] == acts[w]);
        }
    }
    assert forall|x: int| 0 <= x <= n && no_wait_in(acts, x, n) && !(a is Wait) implies no_wait_in(acts2, x, n + 1) by {
        assert forall|w: int| x <= w < n + 1 implies !(#[trigger] acts2[w] is Wait) by {
            if w < n {
                assert(acts2[w] == acts[w]);
            }
        }
    }
    assert(subscribe_after_refetch(acts2)) by {
        assert forall|j: int| 0 <= j < acts2.len() && #[trigger] acts2[j] == ClientAction::SendSubscribe implies exists|i: int, k: int|
            0 <= i < k < j && acts2[i] == ClientAction::FetchReference && acts2[k]
                == ClientAction::Connect && no_wait_in(acts2, i, j) by {
            if j < n {
                assert(acts2[j] == acts[j]);
                let (i, k) = choose|i: int, k: int|
                    0 <= i < k < j && acts[i] == ClientAction::FetchReference && acts[k]
                        == ClientAction::Connect && no_wait_in(acts, i, j);
                assert(acts2[i] == acts[i] && acts2[k] == acts[k]);
                assert(no_wait_in(acts2, i, j));
            } else {
                let (i, k) = choose|i: int, k: int|
                    0 <= i < k < n && acts[i] == ClientAction::FetchReference && acts[k] == ClientAction::Connect
                        && no_wait_in(acts, i, n) && connects_closed(acts, k)
                        && forall|c: int| k < c < n ==> #[trigger] acts[c] != ClientAction::Connect;
                assert(acts2[i] == acts[i] && acts2[k] == acts[k]);
                assert(no_wait_in(acts2, i, n));
            }
        }
    }
    assert(one_connect_per_pause(acts2)) by {
        assert forall|j1: int, j2: int|
            0 <= j1 < j2 < acts2.len() && #[trigger] acts2[j1] == ClientAction::Connect && #[trigger] acts2[j2]
                == ClientAction::Connect implies !no_wait_in(acts2, j1 + 1, j2) by {
            assert(acts2[j1] == acts[j1]);
            if j2 < n {
                assert(acts2[j2] == acts[j2]);
            } else {
                assert(connects_closed(acts, n));
            }
        }
    }
    match s {
        ClientState::Disconnected => {
            if a == ClientAction::FetchReference {
                assert(acts2[n] == ClientAction::FetchReference);
                assert(no_wait_in(acts2, n, n + 1));
                assert forall|c: int| 0 <= c < n + 1 && #[trigger] acts2[c] == ClientAction::Connect implies !no_wait_in(acts2, c + 1, n + 1) by {
                    assert(acts2[c] == acts[c]);
                }
            } else {
                assert forall|c: int| 0 <= c < n + 1 && #[trigger] acts2[c] == ClientAction::Connect implies !no_wait_in(acts2, c + 1, n + 1) by {
                    assert(acts2[c] == acts[c]);
                }
            }
        },
        ClientState::FetchingReference => {
            let i = choose|i: int|
                0 <= i < n && acts[i] == ClientAction::FetchReference && no_wait_in(acts, i, n);
            assert(acts2[i] == acts[i]);
            if a == ClientAction::Connect {
                assert(acts2[n] == ClientAction::Connect);
                assert(no_wait_in(acts2, i, n + 1));
                assert(connects_closed(acts2, n)) by {
                    assert forall|c: int| 0 <= c < n && #[trigger] acts2[c] == ClientAction::Connect implies !no_wait_in(acts2, c + 1, n) by {
                        assert(acts2[c] == acts[c]);
                    }
                }
            } else {
                assert(no_wait_in(acts2, i, n + 1));
                assert forall|c: int| 0 <= c < n + 1 && #[trigger] acts2[c] == ClientAction::Connect implies !no_wait_in(acts2, c + 1, n + 1) by {
                    assert(acts2[c] == acts[c]);
                }
            }
        },
        _ => {
            let (i, k) = choose|i: int, k: int|
                0 <= i < k < n && acts[i] == ClientAction::FetchReference && acts[k] == ClientAction::Connect
                    && no_wait_in(acts, i, n) && connects_closed(acts, k)
                    && forall|c: int| k < c < n ==> #[trigger] acts[c] != ClientAction::Connect;
            assert(acts2[i] == acts[i] && acts2[k] == acts[k]);
            if a is Wait {
                assert(acts2[n] is Wait);
                assert forall|c: int| 0 <= c < n + 1 && #[trigger] acts2[c] == ClientAction::Connect implies !no_wait_in(acts2, c + 1, n + 1) by {
                    assert(acts2[c] == acts[c]);
                    assert(!(no_wait_in(acts2, c + 1, n + 1))) by {
                        assert(acts2[n] is Wait);
                    }
                }
            } else {
                assert(no_wait_in(acts2, i, n + 1));
                assert(connects_closed(acts2, k)) by {
                    assert forall|c: int| 0 <= c < k && #[trigger] acts2[c] == ClientAction::Connect implies !no_wait_in(acts2, c + 1, k) by {
                        assert(acts2[c] == acts[c]);
                    }
                }
                assert forall|c: int| k < c < n + 1 implies #[trigger] acts2[c] != ClientAction::Connect by {
                    if c < n {
                        assert(acts2[c] == acts[c]);
                    }
                }
            }
        },
    }
}

proof fn lemma_trace_inv(evs: Seq<ClientEvent>)
    ensures
        trace_inv(run(ClientState::Disconnected, evs).0, run(ClientState::Disconnected, evs).1),
    decreases evs.len(),
{
    if evs.len() > 0 {
        lemma_trace_inv(evs.drop_last());
        let (s1, acts) = run(ClientState::Disconnected, evs.drop_last());
        lemma_trace_step(s1, acts, evs.last());
    }
}

proof fn lemma_run_first(s: ClientState, e: ClientEvent, evs: Seq<ClientEvent>)
    ensures
        run(s, seq![e] + evs) == (
            run(transition(s, e).0, evs).0,
            seq![transition(s, e).1] + run(transition(s, e).0, evs).1,
        ),
    decreases evs.len(),
{
    let (s1, a) = transition(s, e);
    if evs.len() == 0 {
        assert(seq![e] + evs =~= seq![e]);
        assert(seq![e].drop_last() =~= Seq::<ClientEvent>::empty());
        assert(run(s, Seq::<ClientEvent>::empty()) == (s, Seq::<ClientAction>::empty()));
        assert(run(s, seq![e]) == (s1, Seq::<ClientAction>::empty().push(a)));
        assert(Seq::<ClientAction>::empty().push(a) =~= seq![a] + Seq::<ClientAction>::empty());
        assert(run(s1, evs) == (s1, Seq::<ClientAction>::empty()));
    } else {
        lemma_run_first(s, e, evs.drop_last());
        let all = seq![e] + evs;
        assert(all.drop_last() =~= seq![e] + evs.drop_last());
        assert(all.last() == evs.last());
        let r = run(s1, evs.drop_last());
        let t = transition(r.0, evs.last());
        assert(run(s, all.drop_last()) == (r.0, seq![a] + r.1));
        assert(run(s, all) == (t.0, (seq![a] + r.1).push(t.1)));
        assert(run(s1, evs) == (t.0, r.1.push(t.1)));
        assert(seq![a] + r.1.push(t.1) =~= (seq![a] + r.1).push(t.1));
    }
}

proof fn lemma_prepend_wait(rest: Seq<ClientAction>, acts: Seq<ClientAction>)
    requires
        one_connect_per_pause(rest),
        subscribe_after_refetch(rest),
        acts == seq![ClientAction::Wait(RECONNECT_DELAY_MS)] + rest,
    ensures
        one_connect_per_pause(acts),
        subscribe_after_refetch(acts),
{
    assert forall|j1: int, j2: int|
        0 <= j1 < j2 < acts.len() && #[trigger] acts[j1] == ClientAction::Connect && #[trigger] acts[j2]
            == ClientAction::Connect implies !no_wait_in(acts, j1 + 1, j2) by {
        assert(acts[j1] == rest[j1 - 1] && acts[j2] == rest[j2 - 1]);
        assert(!no_wait_in(rest, j1, j2 - 1));
        let w = choose|w: int| j1 <= w < j2 - 1 && #[trigger] rest[w] is Wait;
        assert(acts[w + 1] == rest[w]);
    }
    assert forall|j: int| 0 <= j < acts.len() && #[trigger] acts[j] == ClientAction::SendSubscribe implies exists|i: int, k: int|
        0 <= i < k < j && acts[i] == ClientAction::FetchReference && acts[k]
            == ClientAction::Connect && no_wait_in(acts, i, j) by {
        assert(acts[j] == rest[j - 1]);
        let (i, k) = choose|i: int, k: int|
            0 <= i < k < j - 1 && rest[i] == ClientAction::FetchReference && rest[k]
                == ClientAction::Connect && no_wait_in(rest, i, j - 1);
        assert(acts[i + 1] == rest[i] && acts[k + 1] == rest[k]);
        assert forall|w: int| i + 1 <= w < j implies !(#[trigger] acts[w] is Wait) by {
            assert(acts[w] == rest[w - 1]);
        }
    }
}

/// Whatever happens after a transport failure while streaming: the client
/// first pauses for the fixed delay; from then on it makes at most one
/// connection attempt between two pauses, and it sends a subscribe only after
/// a reference refetch and a connection attempt with no pause since the
/// refetch.
pub proof fn lemma_failure_trace(evs: Seq<ClientEvent>)
    ensures
        run(ClientState::Streaming, seq![ClientEvent::TransportError] + evs).1[0] == ClientAction::Wait(
            RECONNECT_DELAY_MS,
        ),
        one_connect_per_pause(run(ClientState::Streaming, seq![ClientEvent::TransportError] + evs).1),
        subscribe_after_refetch(run(ClientState::Streaming, seq![ClientEvent::TransportError] + evs).1),
{
    lemma_run_first(ClientState::Streaming, ClientEvent::TransportError, evs);
    lemma_trace_inv(evs);
    let rest = run(ClientState::Disconnected, evs).1;
    lemma_prepend_wait(rest, seq![ClientAction::Wait(RECONNECT_DELAY_MS)] + rest);
}

} // verus!
