//! The configuration values that the ticker's logic reads: the instrument
//! list, window placement, colours and the animation rate.

use vstd::prelude::*;

verus! {

/// One configured instrument: its stream symbol, display name and icon key.
#[derive(Clone, Debug)]
pub struct CoinConfig {
    pub symbol: String,
    pub name: String,
    pub icon: String,
}

/// Placement of the ticker window: the corner it is anchored to, its margins
/// and its size, in pixels.
#[derive(Clone, Copy, Debug)]
pub struct Position {
    pub anchor: Anchor,
    pub margin_top: i32,
    pub margin_right: i32,
    pub margin_bottom: i32,
    pub margin_left: i32,
    pub width: i32,
    pub height: i32,
}

/// The screen corner the window is anchored to.
#[derive(Clone, Copy, Debug, PartialEq, Eq, Structural)]
pub enum Anchor {
    TopLeft,
    TopRight,
    BottomLeft,
    BottomRight,
}

/// The anchor a configuration name stands for; unknown names mean top right.
pub open spec fn anchor_named(name: Seq<char>) -> Anchor {
    if name == "top-left"@ {
        Anchor::TopLeft
    } else if name == "bottom-left"@ {
        Anchor::BottomLeft
    } else if name == "bottom-right"@ {
        Anchor::BottomRight
    } else {
        Anchor::TopRight
    }
}

/// The anchor named `name` (`top-left`, `top-right`, `bottom-left`,
/// `bottom-right`); any other name gives top right.
pub fn anchor_from_name(name: &str) -> (r: Anchor)
    ensures
        r == anchor_named(name@),
{
    let n = String::from_str(name);
    if n == String::from_str("top-left") {
        Anchor::TopLeft
    } else if n == String::from_str("bottom-left") {
        Anchor::BottomLeft
    } else if n == String::from_str("bottom-right") {
        Anchor::BottomRight
    } else {
        Anchor::TopRight
    }
}

/// The animation tick rate, clamped to 1 ..= 120 per second.
pub fn clamp_fps(fps: u32) -> (r: u32)
    ensures
        1 <= r <= 120,
        1 <= fps <= 120 ==> r == fps,
        fps < 1 ==> r == 1,
        fps > 120 ==> r == 120,
{
    if fps < 1 {
        1
    } else if fps > 120 {
        120
    } else {
        fps
    }
}

fn coin(symbol: &str, name: &str, icon: &str) -> (r: CoinConfig)
    ensures
        r.symbol@ == symbol@,
        r.name@ == name@,
        r.icon@ == icon@,
{
    CoinConfig {
        symbol: String::from_str(symbol),
        name: String::from_str(name),
        icon: String::from_str(icon),
    }
}

/// The instruments shown when the configuration names none.
pub fn default_coins() -> (r: Vec<CoinConfig>)
    ensures
        r@.len() == 5,
        r@[0].symbol@ == "BTC/USD"@ && r@[0].name@ == "BTC"@ && r@[0].icon@ == "btc.svg"@,
        r@[1].symbol@ == "ETH/USD"@ && r@[1].name@ == "ETH"@ && r@[1].icon@ == "eth.svg"@,
        r@[2].symbol@ == "SOL/USD"@ && r@[2].name@ == "SOL"@ && r@[2].icon@ == "sol.svg"@,
        r@[3].symbol@ == "ADA/USD"@ && r@[3].name@ == "ADA"@ && r@[3].icon@ == "ada.svg"@,
        r@[4].symbol@ == "XRP/USD"@ && r@[4].name@ == "XRP"@ && r@[4].icon@ == "xrp.svg"@,
{
    let mut v: Vec<CoinConfig> = Vec::new();
    v.push(coin("BTC/USD", "BTC", "btc.svg"));
    v.push(coin("ETH/USD", "ETH", "eth.svg"));
    v.push(coin("SOL/USD", "SOL", "sol.svg"));
    v.push(coin("ADA/USD", "ADA", "ada.svg"));
    v.push(coin("XRP/USD", "XRP", "xrp.svg"));
    v
}

/// The value of a hexadecimal digit, either case.
pub open spec fn hex_value(c: char) -> Option<nat> {
    if '0' <= c && c <= '9' {
        Some((c as u32 - 48) as nat)
    } else if 'a' <= c && c <= 'f' {
        Some((c as u32 - 87) as nat)
    } else if 'A' <= c && c <= 'F' {
        Some((c as u32 - 55) as nat)
    } else {
        None
    }
}

/// The byte that two characters spell in base 16: two hex digits, or `+`
/// and one hex digit, as `u8::from_str_radix` reads them.
pub open spec fn hex_byte(a: char, b: char) -> Option<u8> {
    match (hex_value(a), hex_value(b)) {
        (Some(x), Some(y)) => Some((16 * x + y) as u8),
        (None, Some(y)) => if a == '+' {
            Some(y as u8)
        } else {
            None
        },
        _ => None,
    }
}

/// `s` without its leading `#` characters.
pub open spec fn trim_hashes(s: Seq<char>) -> Seq<char>
    decreases s.len(),
{
    if s.len() > 0 && s[0] == '#' {
        trim_hashes(s.drop_first())
    } else {
        s
    }
}

/// The red, green and blue bytes of a colour written `#rrggbb`.
pub open spec fn hex_color(s: Seq<char>) -> Option<(u8, u8, u8)> {
    let h = trim_hashes(s);
    if h.len() != 6 {
        None
    } else {
        match (hex_byte(h[0], h[1]), hex_byte(h[2], h[3]), hex_byte(h[4], h[5])) {
            (Some(r), Some(g), Some(b)) => Some((r, g, b)),
            _ => None,
        }
    }
}

fn hex_digit(c: char) -> (r: Option<u8>)
    ensures
        match hex_value(c) {
            Some(v) => r == Some(v as u8),
            None => r is None,
        },
{
    if '0' <= c && c <= '9' {
        Some((c as u32 - 48) as u8)
    } else if 'a' <= c && c <= 'f' {
        Some((c as u32 - 87) as u8)
    } else if 'A' <= c && c <= 'F' {
        Some((c as u32 - 55) as u8)
    } else {
        None
    }
}

fn byte_of(a: char, b: char) -> (r: Option<u8>)
    ensures
        r == hex_byte(a, b),
{
    match (hex_digit(a), hex_digit(b)) {
        (Some(x), Some(y)) => Some(16 * x + y),
        (None, Some(y)) => if a == '+' {
            Some(y)
        } else {
            None
        },
        _ => None,
    }
}

/// Reads a colour written `#rrggbb` (any number of leading `#`) into its red,
/// green and blue bytes; `None` where the rest is not six hex digits.
pub fn parse_hex_color(hex: &str) -> (r: Option<(u8, u8, u8)>)
    ensures
        r == hex_color(hex@),
{
    let n = hex.unicode_len();
    let mut start: usize = 0;
    assert(hex@.skip(0) =~= hex@);
    while start < n && hex.get_char(start) == '#'
        invariant
            n == hex@.len(),
            start <= n,
            trim_hashes(hex@.skip(start as int)) == trim_hashes(hex@),
        decreases n - start,
    {
        assert(hex@.skip(start as int).drop_first() =~= hex@.skip(start as int + 1));
        start += 1;
    }
    proof {
        if start < n {
            assert(hex@.skip(start as int)[0] == hex@[start as int]);
        }
        assert(trim_hashes(hex@.skip(start as int)) == hex@.skip(start as int));
    }
    if n - start != 6 {
        return None;
    }
    let r = byte_of(hex.get_char(start), hex.get_char(start + 1));
    let g = byte_of(hex.get_char(start + 2), hex.get_char(start + 3));
    let b = byte_of(hex.get_char(start + 4), hex.get_char(start + 5));
    match (r, g, b) {
        (Some(r), Some(g), Some(b)) => Some((r, g, b)),
        _ => None,
    }
}

} // verus!
