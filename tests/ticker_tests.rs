use waybar_crypto_ticker::config::{default_coins, CoinConfig};
use waybar_crypto_ticker::decimal::{parse_price, parse_signed, PRICE_SCALE};
use waybar_crypto_ticker::ticker::{take_snapshot, Direction, Segment, TickerState};

fn coin(symbol: &str, icon: &str) -> CoinConfig {
    CoinConfig { symbol: symbol.to_string(), name: symbol.to_string(), icon: icon.to_string() }
}

fn three_coins() -> TickerState {
    TickerState::new(vec![coin("BTC/USD", "btc.svg"), coin("ETH/USD", "eth.svg"), coin("SOL/USD", "sol.svg")])
}

fn units(whole: u64) -> u64 {
    whole * PRICE_SCALE
}

#[test]
fn change_up_five_percent() {
    let mut t = three_coins();
    t.update_price("BTC/USD", units(105));
    t.set_open_price("BTC/USD", units(100));
    let (text, dir) = t.get_change("BTC/USD");
    assert_eq!(text, "+5.0%\u{25b2}");
    assert_eq!(dir, Direction::Up);
}

#[test]
fn change_down_five_percent() {
    let mut t = three_coins();
    t.update_price("BTC/USD", units(95));
    t.set_open_price("BTC/USD", units(100));
    let (text, dir) = t.get_change("BTC/USD");
    assert_eq!(text, "-5.0%\u{25bc}");
    assert_eq!(dir, Direction::Down);
}

#[test]
fn change_within_dead_zone_is_neutral() {
    let mut t = three_coins();
    t.update_price("BTC/USD", 10_000_500_000);
    t.set_open_price("BTC/USD", units(100));
    let (text, dir) = t.get_change("BTC/USD");
    assert_eq!(text, "0.0%");
    assert_eq!(dir, Direction::Neutral);
}

#[test]
fn change_without_reference_is_placeholder() {
    let mut t = three_coins();
    let (text, dir) = t.get_change("BTC/USD");
    assert_eq!(text, "--");
    assert_eq!(dir, Direction::Neutral);
    t.set_open_price("BTC/USD", 0);
    t.update_price("BTC/USD", units(3));
    assert_eq!(t.get_change("BTC/USD").0, "--");
}

#[test]
fn small_fall_shows_negative_zero() {
    let mut t = three_coins();
    t.update_price("BTC/USD", 9_999_900_000);
    t.set_open_price("BTC/USD", units(100));
    let (text, dir) = t.get_change("BTC/USD");
    assert_eq!(text, "-0.0%");
    assert_eq!(dir, Direction::Neutral);
}

#[test]
fn price_format_tiers() {
    assert_eq!(TickerState::format_price(4_523_170_000_000), "$45232");
    assert_eq!(TickerState::format_price(314_159_000), "$3.14");
    assert_eq!(TickerState::format_price(3_456_000), "$0.0346");
    assert_eq!(TickerState::format_price(1_230), "$0.000012");
}

#[test]
fn price_format_tier_edges_and_ties() {
    assert_eq!(TickerState::format_price(units(1000)), "$1000");
    assert_eq!(TickerState::format_price(units(1)), "$1.00");
    assert_eq!(TickerState::format_price(1_000_000), "$0.0100");
    assert_eq!(TickerState::format_price(0), "$0.000000");
    assert_eq!(TickerState::format_price(250_000_000_000), "$2500");
    assert_eq!(TickerState::format_price(99_999_999_999), "$1000.00");
    assert_eq!(TickerState::format_price(units(1000) + PRICE_SCALE / 2), "$1000");
    assert_eq!(TickerState::format_price(units(1001) + PRICE_SCALE / 2), "$1002");
}

#[test]
fn segment_count_follows_active_instruments() {
    let mut t = three_coins();
    assert_eq!(t.segments.len(), 0);
    t.update_price("ETH/USD", units(2000));
    assert_eq!(t.segments.len(), 1);
    assert_eq!(t.segments[0].text, "$2000 0.0%");
    assert_eq!(t.segments[0].icon.as_deref(), Some("eth.svg"));
    t.update_price("BTC/USD", units(50000));
    assert_eq!(t.segments.len(), 3);
    assert_eq!(t.segments[0].icon.as_deref(), Some("btc.svg"));
    assert_eq!(t.segments[1].text, "     \u{b7}     ");
    assert_eq!(t.segments[1].icon, None);
    assert_eq!(t.segments[1].direction, Direction::Neutral);
    assert_eq!(t.segments[2].icon.as_deref(), Some("eth.svg"));
    t.update_price("SOL/USD", units(150));
    assert_eq!(t.segments.len(), 5);
    t.update_price("BTC/USD", 0);
    assert_eq!(t.segments.len(), 3);
    t.update_price("DOGE/USD", units(1));
    assert_eq!(t.segments.len(), 3);
}

#[test]
fn same_price_twice_gives_same_segments() {
    let mut t = three_coins();
    t.set_open_price("BTC/USD", units(100));
    t.update_price("BTC/USD", units(101));
    let first: Vec<(String, Direction)> = t.segments.iter().map(|s| (s.text.clone(), s.direction)).collect();
    t.update_price("BTC/USD", units(101));
    let second: Vec<(String, Direction)> = t.segments.iter().map(|s| (s.text.clone(), s.direction)).collect();
    assert_eq!(first, second);
    assert_eq!(first[0].0, "$101.00 +1.0%\u{25b2}");
}

#[test]
fn new_symbol_seeding() {
    let mut t = TickerState::new(vec![coin("X", "x.svg"), coin("Y", "y.svg")]);
    t.update_price("X", units(50));
    assert_eq!(t.get_change("X"), ("0.0%".to_string(), Direction::Neutral));
    assert_eq!(t.segments.len(), 1);
    assert_eq!(t.segments[0].text, "$50.00 0.0%");
    t.set_open_price("Y", units(10));
    assert_eq!(t.segments.len(), 1);
    t.update_price("Y", units(11));
    assert_eq!(t.segments.len(), 3);
    assert_eq!(t.segments[2].text, "$11.00 +10.0%\u{25b2}");
    assert_eq!(t.segments[2].direction, Direction::Up);
}

#[test]
fn default_coin_list() {
    let coins = default_coins();
    let symbols: Vec<&str> = coins.iter().map(|c| c.symbol.as_str()).collect();
    assert_eq!(symbols, vec!["BTC/USD", "ETH/USD", "SOL/USD", "ADA/USD", "XRP/USD"]);
    assert_eq!(coins[3].icon, "ada.svg");
    assert_eq!(coins[4].name, "XRP");
}

#[test]
fn parse_price_texts() {
    assert_eq!(parse_price("45231.7"), Some(4_523_170_000_000));
    assert_eq!(parse_price("0.0000123"), Some(1_230));
    assert_eq!(parse_price("+3"), Some(300_000_000));
    assert_eq!(parse_price(".5"), Some(50_000_000));
    assert_eq!(parse_price("7."), Some(700_000_000));
    assert_eq!(parse_price("0.123456789"), Some(12_345_678));
    assert_eq!(parse_price(""), None);
    assert_eq!(parse_price("."), None);
    assert_eq!(parse_price("1.2.3"), None);
    assert_eq!(parse_price("abc"), None);
    assert_eq!(parse_price("-1"), None);
    assert_eq!(parse_price("1e5"), None);
    assert_eq!(parse_price("184467440737.09551615"), Some(u64::MAX));
    assert_eq!(parse_price("184467440737.09551616"), None);
    assert_eq!(parse_price("99999999999999999999999"), None);
}

#[test]
fn parse_signed_texts() {
    assert_eq!(parse_signed("-12.5"), Some(-1_250_000_000));
    assert_eq!(parse_signed("3"), Some(300_000_000));
    assert_eq!(parse_signed("-"), None);
    assert_eq!(parse_signed("--1"), None);
}

#[test]
fn snapshot_falls_back_to_last_one() {
    let mut t = three_coins();
    t.update_price("BTC/USD", units(5));
    let mut last: Vec<Segment> = Vec::new();
    let drawn = take_snapshot(Some(&t.segments), &mut last);
    assert_eq!(drawn.len(), 1);
    assert_eq!(drawn[0].text, "$5.00 0.0%");
    assert_eq!(last[0].text, "$5.00 0.0%");
    let stale = take_snapshot(None, &mut last);
    assert_eq!(stale[0].text, "$5.00 0.0%");
    assert_eq!(last.len(), 1);
}
