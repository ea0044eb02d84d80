use waybar_crypto_ticker::config::{anchor_from_name, clamp_fps, parse_hex_color, Anchor, CoinConfig};
use waybar_crypto_ticker::decimal::PRICE_SCALE;
use waybar_crypto_ticker::stream::{
    apply_open_prices, apply_ticker_updates, handle_message, reference_query_url, step,
    ws_to_rest_symbol, ClientAction, ClientEvent, ClientState, RestTicker, TickerUpdate,
    RECONNECT_DELAY_MS,
};
use waybar_crypto_ticker::ticker::TickerState;

fn coin(symbol: &str) -> CoinConfig {
    CoinConfig { symbol: symbol.to_string(), name: symbol.to_string(), icon: String::new() }
}

fn update(symbol: &str, last: u64, change: Option<i128>) -> TickerUpdate {
    TickerUpdate { symbol: Some(symbol.to_string()), last: Some(last), change }
}

#[test]
fn rest_symbols() {
    assert_eq!(ws_to_rest_symbol("BTC/USD"), "XXBTZUSD");
    assert_eq!(ws_to_rest_symbol("ETH/USD"), "XETHZUSD");
    assert_eq!(ws_to_rest_symbol("XRP/USD"), "XXRPZUSD");
    assert_eq!(ws_to_rest_symbol("SOL/USD"), "SOLUSD");
    assert_eq!(ws_to_rest_symbol("ada/eur"), "ADAEUR");
    assert_eq!(ws_to_rest_symbol("a/b/c"), "ABC");
}

#[test]
fn reference_query_names_all_instruments() {
    let coins = vec![coin("BTC/USD"), coin("sol/usd")];
    assert_eq!(
        reference_query_url(&coins),
        "https://api.kraken.com/0/public/Ticker?pair=XXBTZUSD,SOLUSD"
    );
    assert_eq!(reference_query_url(&vec![]), "https://api.kraken.com/0/public/Ticker?pair=");
}

#[test]
fn reference_prices_applied_where_readable() {
    let coins = vec![coin("BTC/USD"), coin("SOL/USD"), coin("ADA/USD")];
    let mut t = TickerState::new(coins.clone());
    t.update_price("BTC/USD", 105 * PRICE_SCALE);
    t.update_price("SOL/USD", 10 * PRICE_SCALE);
    t.update_price("ADA/USD", PRICE_SCALE);
    let results = vec![
        RestTicker { pair: "XXBTZUSD".to_string(), open: Some("100.0".to_string()) },
        RestTicker { pair: "SOLUSD".to_string(), open: Some("garbage".to_string()) },
        RestTicker { pair: "ADAUSD".to_string(), open: None },
    ];
    apply_open_prices(&mut t, &coins, &results);
    assert_eq!(t.get_change("BTC/USD").0, "+5.0%\u{25b2}");
    assert_eq!(t.get_change("SOL/USD").0, "0.0%");
    assert_eq!(t.get_change("ADA/USD").0, "0.0%");
}

#[test]
fn ticks_set_price_and_derive_reference() {
    let mut t = TickerState::new(vec![coin("BTC/USD")]);
    apply_ticker_updates(&mut t, &vec![update("BTC/USD", 95 * PRICE_SCALE, Some(-5 * PRICE_SCALE as i128))]);
    assert_eq!(t.segments[0].text, "$95.00 -5.0%\u{25bc}");
    apply_ticker_updates(&mut t, &vec![update("BTC/USD", 95 * PRICE_SCALE, Some(95 * PRICE_SCALE as i128))]);
    assert_eq!(t.segments[0].text, "$95.00 -5.0%\u{25bc}");
    apply_ticker_updates(
        &mut t,
        &vec![TickerUpdate { symbol: None, last: Some(1), change: None }, update("BTC/USD", 110 * PRICE_SCALE, None)],
    );
    assert_eq!(t.segments[0].text, "$110.00 +10.0%\u{25b2}");
}

#[test]
fn only_ticker_channel_messages_apply() {
    let mut t = TickerState::new(vec![coin("BTC/USD")]);
    let data = Some(vec![update("BTC/USD", 2 * PRICE_SCALE, None)]);
    handle_message(&mut t, &Some("heartbeat".to_string()), &data);
    assert_eq!(t.segments.len(), 0);
    handle_message(&mut t, &None, &data);
    assert_eq!(t.segments.len(), 0);
    handle_message(&mut t, &Some("ticker".to_string()), &None);
    assert_eq!(t.segments.len(), 0);
    handle_message(&mut t, &Some("ticker".to_string()), &data);
    assert_eq!(t.segments[0].text, "$2.00 0.0%");
}

#[test]
fn reconnect_after_transport_failure() {
    let (s, a) = step(ClientState::Streaming, ClientEvent::TransportError);
    assert_eq!((s, a), (ClientState::Disconnected, ClientAction::Wait(RECONNECT_DELAY_MS)));
    assert_eq!(RECONNECT_DELAY_MS, 5000);
    let (s, a) = step(s, ClientEvent::DelayElapsed);
    assert_eq!(a, ClientAction::FetchReference);
    let (s, a) = step(s, ClientEvent::ReferenceFetched);
    assert_eq!(a, ClientAction::Connect);
    let (s, a) = step(s, ClientEvent::Connected);
    assert_eq!(a, ClientAction::SendSubscribe);
    let (s, a) = step(s, ClientEvent::SubscribeSent);
    assert_eq!((s, a), (ClientState::Streaming, ClientAction::ReadNext));
    assert_eq!(step(s, ClientEvent::Ping).1, ClientAction::SendPong);
    assert_eq!(step(s, ClientEvent::StreamEnded).1, ClientAction::Wait(RECONNECT_DELAY_MS));
    assert_eq!(step(ClientState::Disconnected, ClientEvent::Connected).1, ClientAction::Idle);
    assert_eq!(step(ClientState::Connecting, ClientEvent::TransportError).0, ClientState::Disconnected);
}

#[test]
fn config_values() {
    assert_eq!(anchor_from_name("top-left"), Anchor::TopLeft);
    assert_eq!(anchor_from_name("top-right"), Anchor::TopRight);
    assert_eq!(anchor_from_name("bottom-left"), Anchor::BottomLeft);
    assert_eq!(anchor_from_name("bottom-right"), Anchor::BottomRight);
    assert_eq!(anchor_from_name("middle"), Anchor::TopRight);
    assert_eq!(clamp_fps(0), 1);
    assert_eq!(clamp_fps(60), 60);
    assert_eq!(clamp_fps(500), 120);
    assert_eq!(parse_hex_color("#4ec970"), Some((0x4e, 0xc9, 0x70)));
    assert_eq!(parse_hex_color("##E05555"), Some((0xe0, 0x55, 0x55)));
    assert_eq!(parse_hex_color("+f+f+f"), Some((15, 15, 15)));
    assert_eq!(parse_hex_color("#88888"), None);
    assert_eq!(parse_hex_color("#88888g"), None);
}
