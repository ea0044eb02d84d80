//! Price store and display segment builder.

use crate::config::CoinConfig;
use crate::decimal::{
    digits, fixed_text, padded, pow10, pow10_exec, push_char, push_fixed, round_div, round_div_exec,
    PRICE_PLACES, PRICE_SCALE,
};
use vstd::prelude::*;

verus! {

/// Price movement direction, used to colour a segment.
#[derive(Clone, Copy, PartialEq, Eq, Structural, Debug)]
pub enum Direction {
    Up,
    Down,
    Neutral,
}

/// One rendered unit of the ticker display.
#[derive(Clone, Debug)]
pub struct Segment {
    pub text: String,
    pub direction: Direction,
    pub icon: Option<String>,
}

/// The mathematical value of a segment: text, direction and icon key.
pub type SegmentView = (Seq<char>, Direction, Option<Seq<char>>);

impl View for Segment {
    type V = SegmentView;

    open spec fn view(&self) -> SegmentView {
        (
            self.text@,
            self.direction,
            match self.icon {
                Some(i) => Some(i@),
                None => None,
            },
        )
    }
}

/// Latest price and reference open of one instrument, in price units.
#[derive(Clone, Copy, PartialEq, Eq, Structural, Debug)]
pub struct CoinData {
    pub price: u64,
    pub open_24h: u64,
}

struct PriceEntry {
    symbol: String,
    data: CoinData,
}

/// Holds the price of each instrument seen so far and the display segments
/// derived from them.
pub struct TickerState {
    prices: Vec<PriceEntry>,
    coins: Vec<CoinConfig>,
    store: Ghost<Map<Seq<char>, CoinData>>,
    pub segments: Vec<Segment>,
}

/// The text that stands between two instrument segments.
pub open spec fn separator_text() -> Seq<char> {
    seq![' ', ' ', ' ', ' ', ' ', '\u{b7}', ' ', ' ', ' ', ' ', ' ']
}

pub open spec fn separator_view() -> SegmentView {
    (separator_text(), Direction::Neutral, None)
}

/// Decimal places shown for a price: none from 1000 up, two from 1, four
/// from 0.01, six below.
pub open spec fn price_places(p: nat) -> nat {
    if p >= 1000 * PRICE_SCALE {
        0
    } else if p >= PRICE_SCALE {
        2
    } else if p >= PRICE_SCALE / 100 {
        4
    } else {
        6
    }
}

/// The display text of a price: `$` and the price rounded to its places.
pub open spec fn price_text(p: nat) -> Seq<char> {
    let places = price_places(p);
    seq!['$'] + fixed_text(round_div(p, pow10((PRICE_PLACES - places) as nat)), places)
}

/// Direction of the change from the reference open: up above +0.01 %, down
/// below -0.01 %, neutral in between or without a reference.
pub open spec fn change_direction(d: CoinData) -> Direction {
    if d.open_24h == 0 {
        Direction::Neutral
    } else if d.price * 10000 > d.open_24h * 10001 {
        Direction::Up
    } else if d.price * 10000 < d.open_24h * 9999 {
        Direction::Down
    } else {
        Direction::Neutral
    }
}

/// Size of the change in tenths of a percent, rounded to nearest, ties to even.
pub open spec fn change_tenths(d: CoinData) -> nat {
    let diff = if d.price >= d.open_24h {
        d.price - d.open_24h
    } else {
        d.open_24h - d.price
    };
    round_div((diff * 1000) as nat, d.open_24h as nat)
}

/// The change text: `+5.0%▲`, `-5.0%▼`, `0.0%` (with `-` below the
/// reference), or `--` without a reference.
pub open spec fn change_text(d: CoinData) -> Seq<char> {
    let t = fixed_text(change_tenths(d), 1);
    if d.open_24h == 0 {
        seq!['-', '-']
    } else if change_direction(d) == Direction::Up {
        seq!['+'] + t + seq!['%', '\u{25b2}']
    } else if change_direction(d) == Direction::Down {
        seq!['-'] + t + seq!['%', '\u{25bc}']
    } else if d.price < d.open_24h {
        seq!['-'] + t + seq!['%']
    } else {
        t + seq!['%']
    }
}

/// The segment of an active instrument.
pub open spec fn coin_segment(c: CoinConfig, d: CoinData) -> SegmentView {
    (price_text(d.price as nat) + seq![' '] + change_text(d), change_direction(d), Some(c.icon@))
}

/// An instrument is active once it has a positive price.
pub open spec fn is_active(store: Map<Seq<char>, CoinData>, sym: Seq<char>) -> bool {
    store.contains_key(sym) && store[sym].price > 0
}

/// The segments for `coins` in order: one per active instrument, with a
/// separator between each two of them.
pub open spec fn segments_for(coins: Seq<CoinConfig>, store: Map<Seq<char>, CoinData>) -> Seq<
    SegmentView,
>
    decreases coins.len(),
{
    if coins.len() == 0 {
        Seq::empty()
    } else {
        let prev = segments_for(coins.drop_last(), store);
        let c = coins.last();
        if is_active(store, c.symbol@) {
            let seg = coin_segment(c, store[c.symbol@]);
            if prev.len() == 0 {
                seq![seg]
            } else {
                prev.push(separator_view()).push(seg)
            }
        } else {
            prev
        }
    }
}

/// Number of active instruments among `coins`.
pub open spec fn active_count(coins: Seq<CoinConfig>, store: Map<Seq<char>, CoinData>) -> nat
    decreases coins.len(),
{
    if coins.len() == 0 {
        0
    } else {
        active_count(coins.drop_last(), store) + if is_active(store, coins.last().symbol@) {
            1nat
        } else {
            0nat
        }
    }
}

/// The store after a new price for `sym`; a new symbol gets the price as its
/// reference open too.
pub open spec fn with_price(store: Map<Seq<char>, CoinData>, sym: Seq<char>, price: u64) -> Map<
    Seq<char>,
    CoinData,
> {
    if store.contains_key(sym) {
        store.insert(sym, CoinData { price, open_24h: store[sym].open_24h })
    } else {
        store.insert(sym, CoinData { price, open_24h: price })
    }
}

/// The store after a new reference open for `sym`; a new symbol gets price 0.
pub open spec fn with_open(store: Map<Seq<char>, CoinData>, sym: Seq<char>, open: u64) -> Map<
    Seq<char>,
    CoinData,
> {
    if store.contains_key(sym) {
        store.insert(sym, CoinData { price: store[sym].price, open_24h: open })
    } else {
        store.insert(sym, CoinData { price: 0, open_24h: open })
    }
}

pub open spec fn segment_views(s: Seq<Segment>) -> Seq<SegmentView> {
    s.map_values(|x: Segment| x@)
}

fn separator_segment() -> (r: Segment)
    ensures
        r@ == separator_view(),
{
    let mut t = String::new();
    let mut i: usize = 0;
    while i < 5
        invariant
            i <= 5,
            t@ == separator_text().take(i as int),
        decreases 5 - i,
    {
        push_char(&mut t, ' ');
        i += 1;
        assert(t@ =~= separator_text().take(i as int));
    }
    push_char(&mut t, '\u{b7}');
    while i < 10
        invariant
            5 <= i <= 10,
            t@ == separator_text().take(i as int + 1),
        decreases 10 - i,
    {
        push_char(&mut t, ' ');
        i += 1;
        assert(t@ =~= separator_text().take(i as int + 1));
    }
    assert(t@ =~= separator_text());
    Segment { text: t, direction: Direction::Neutral, icon: None }
}

fn change_of(d: CoinData) -> (r: (String, Direction))
    ensures
        r.0@ == change_text(d),
        r.1 == change_direction(d),
{
    let mut t = String::new();
    if d.open_24h == 0 {
        push_char(&mut t, '-');
        push_char(&mut t, '-');
        assert(t@ =~= change_text(d));
        return (t, Direction::Neutral);
    }
    let p = d.price as u128;
    let o = d.open_24h as u128;
    let diff = if p >= o {
        p - o
    } else {
        o - p
    };
    let tenths = round_div_exec(diff * 1000, o);
    let dir = if p * 10000 > o * 10001 {
        Direction::Up
    } else if p * 10000 < o * 9999 {
        Direction::Down
    } else {
        Direction::Neutral
    };
    if dir == Direction::Up {
        push_char(&mut t, '+');
    } else if dir == Direction::Down || p < o {
        push_char(&mut t, '-');
    }
    push_fixed(&mut t, tenths, 1);
    push_char(&mut t, '%');
    if dir == Direction::Up {
        push_char(&mut t, '\u{25b2}');
    } else if dir == Direction::Down {
        push_char(&mut t, '\u{25bc}');
    }
    assert(t@ =~= change_text(d));
    (t, dir)
}

impl TickerState {
    /// The price store: latest price and reference open of each symbol seen.
    pub closed spec fn store(&self) -> Map<Seq<char>, CoinData> {
        self.store@
    }

    /// The displayed segments.
    pub closed spec fn segments_view(&self) -> Seq<SegmentView> {
        segment_views(self.segments@)
    }

    /// The configured instruments, in display order.
    pub closed spec fn coins(&self) -> Seq<CoinConfig> {
        self.coins@
    }

    /// Symbols are unique in the store, the ghost map mirrors it, and the
    /// segments are those of the current prices.
    pub closed spec fn wf(&self) -> bool {
        &&& self.wf_store()
        &&& segment_views(self.segments@) == segments_for(self.coins@, self.store@)
    }

    /// An empty store for the instruments `coins`.
    pub fn new(coins: Vec<CoinConfig>) -> (r: Self)
        ensures
            r.wf(),
            r.store() == Map::<Seq<char>, CoinData>::empty(),
            r.coins() == coins@,
            r.segments_view().len() == 0,
    {
        let r = TickerState {
            prices: Vec::new(),
            coins,
            store: Ghost(Map::empty()),
            segments: Vec::new(),
        };
        proof {
            lemma_no_segments_without_prices(r.coins@, r.store@);
        }
        assert(segment_views(r.segments@) =~= Seq::<SegmentView>::empty());
        r
    }

    fn find(&self, sym: &String) -> (r: Option<usize>)
        requires
            self.wf_store(),
        ensures
            match r {
                Some(j) => j < self.prices.len() && self.prices[j as int].symbol@ == sym@,
                None => !self.store@.contains_key(sym@),
            },
    {
        let mut i: usize = 0;
        while i < self.prices.len()
            invariant
                i <= self.prices.len(),
                forall|j: int| 0 <= j < i ==> self.prices[j].symbol@ != sym@,
            decreases self.prices.len() - i,
        {
            if self.prices[i].symbol == *sym {
                return Some(i);
            }
            i += 1;
        }
        None
    }

    /// Sets the latest price of `symbol`. A symbol seen for the first time
    /// gets the price as its reference open too. The segments are rebuilt.
    pub fn update_price(&mut self, symbol: &str, price: u64)
        requires
            old(self).wf(),
        ensures
            final(self).wf(),
            final(self).store() == with_price(old(self).store(), symbol@, price),
            final(self).coins() == old(self).coins(),
            final(self).segments_view() == segments_for(final(self).coins(), final(self).store()),
    {
        let sym = String::from_str(symbol);
        match self.find(&sym) {
            Some(j) => {
                let d = CoinData { price, open_24h: self.prices[j].data.open_24h };
                self.set_entry(j, d);
            },
            None => {
                self.push_entry(sym, CoinData { price, open_24h: price });
            },
        }
        self.rebuild_segments();
    }

    /// Sets the reference open of `symbol`. A symbol seen for the first time
    /// gets price 0, which keeps it off the display. The segments are rebuilt.
    pub fn set_open_price(&mut self, symbol: &str, open: u64)
        requires
            old(self).wf(),
        ensures
            final(self).wf(),
            final(self).store() == with_open(old(self).store(), symbol@, open),
            final(self).coins() == old(self).coins(),
            final(self).segments_view() == segments_for(final(self).coins(), final(self).store()),
    {
        let sym = String::from_str(symbol);
        match self.find(&sym) {
            Some(j) => {
                let d = CoinData { price: self.prices[j].data.price, open_24h: open };
                self.set_entry(j, d);
            },
            None => {
                self.push_entry(sym, CoinData { price: 0, open_24h: open });
            },
        }
        self.rebuild_segments();
    }

    fn set_entry(&mut self, j: usize, d: CoinData)
        requires
            old(self).wf(),
            j < old(self).prices.len(),
        ensures
            final(self).store@ == old(self).store@.insert(old(self).prices[j as int].symbol@, d),
            final(self).coins@ == old(self).coins@,
            final(self).wf_store(),
    {
        let ghost k = self.prices[j as int].symbol@;
        let sym = self.prices[j].symbol.clone();
        let entry = PriceEntry { symbol: sym, data: d };
        self.prices.set(j, entry);
        self.store = Ghost(self.store@.insert(k, d));
        assert forall|x: Seq<char>|
            self.store@.contains_key(x) implies exists|i: int|
                0 <= i < self.prices.len() && #[trigger] self.prices[i].symbol@ == x by {
            if x != k {
                let i = choose|i: int| 0 <= i < old(self).prices.len() && #[trigger] old(self).prices[i].symbol@ == x;
                assert(self.prices[i].symbol@ == x);
            } else {
                assert(self.prices[j as int].symbol@ == x);
            }
        }
    }

    fn push_entry(&mut self, sym: String, d: CoinData)
        requires
            old(self).wf(),
            !old(self).store@.contains_key(sym@),
        ensures
            final(self).store@ == old(self).store@.insert(sym@, d),
            final(self).coins@ == old(self).coins@,
            final(self).wf_store(),
    {
        let ghost k = sym@;
        self.prices.push(PriceEntry { symbol: sym, data: d });
        self.store = Ghost(self.store@.insert(k, d));
        let ghost n = self.prices.len() - 1;
        assert(self.prices[n].symbol@ == k);
        assert forall|x: Seq<char>|
            self.store@.contains_key(x) implies exists|i: int|
                0 <= i < self.prices.len() && #[trigger] self.prices[i].symbol@ == x by {
            if x != k {
                let i = choose|i: int| 0 <= i < old(self).prices.len() && #[trigger] old(self).prices[i].symbol@ == x;
                assert(self.prices[i].symbol@ == x);
            }
        }
        assert forall|i: int, j: int|
            0 <= i < j < self.prices.len() implies self.prices[i].symbol@ != self.prices[j].symbol@ by {
            if j == n {
                assert(old(self).store@.contains_key(self.prices[i].symbol@));
            }
        }
    }

    /// The store part of `wf`, without the segments.
    closed spec fn wf_store(&self) -> bool {
        store_ok(self.prices@, self.store@)
    }

    /// The change text and direction of `symbol` against its reference open;
    /// `--` and neutral where it has none.
    pub fn get_change(&self, symbol: &str) -> (r: (String, Direction))
        requires
            self.wf(),
        ensures
            self.store().contains_key(symbol@) ==> r.0@ == change_text(self.store()[symbol@])
                && r.1 == change_direction(self.store()[symbol@]),
            !self.store().contains_key(symbol@) ==> r.0@ == seq!['-', '-'] && r.1
                == Direction::Neutral,
    {
        let sym = String::from_str(symbol);
        match self.find(&sym) {
            Some(j) => change_of(self.prices[j].data),
            None => {
                let mut t = String::new();
                push_char(&mut t, '-');
                push_char(&mut t, '-');
                (t, Direction::Neutral)
            },
        }
    }

    /// The display text of a price given in price units.
    pub fn format_price(price: u64) -> (r: String)
        ensures
            r@ == price_text(price as nat),
    {
        let places: u64 = if price >= 1000 * PRICE_SCALE {
            0
        } else if price >= PRICE_SCALE {
            2
        } else if price >= PRICE_SCALE / 100 {
            4
        } else {
            6
        };
        let v = round_div_exec(price as u128, pow10_exec(PRICE_PLACES - places));
        let mut t = String::new();
        push_char(&mut t, '$');
        push_fixed(&mut t, v, places);
        assert(t@ =~= price_text(price as nat));
        t
    }

    /// Rebuilds the segments from the current prices.
    fn rebuild_segments(&mut self)
        requires
            old(self).wf_store(),
        ensures
            final(self).wf(),
            final(self).store@ == old(self).store@,
            final(self).coins@ == old(self).coins@,
            final(self).prices@ == old(self).prices@,
    {
        let mut segs: Vec<Segment> = Vec::new();
        let mut i: usize = 0;
        while i < self.coins.len()
            invariant
                self.wf_store(),
                i <= self.coins.len(),
                segment_views(segs@) == segments_for(self.coins@.take(i as int), self.store@),
            decreases self.coins.len() - i,
        {
            let ghost before = segs@;
            let ghost c = self.coins@[i as int];
            assert(self.coins@.take(i as int + 1).drop_last() =~= self.coins@.take(i as int));
            assert(self.coins@.take(i as int + 1).last() == c);
            match self.find(&self.coins[i].symbol) {
                Some(j) => {
                    let d = self.prices[j].data;
                    if d.price > 0 {
                        if segs.len() > 0 {
                            let sep = separator_segment();
                            proof {
                                lemma_views_push(segs@, sep);
                            }
                            segs.push(sep);
                        }
                        let mut text = Self::format_price(d.price);
                        push_char(&mut text, ' ');
                        let (change, dir) = change_of(d);
                        text.append(change.as_str());
                        let icon = self.coins[i].icon.clone();
                        let seg = Segment { text, direction: dir, icon: Some(icon) };
                        proof {
                            lemma_views_push(segs@, seg);
                        }
                        segs.push(seg);
                        assert(seg@ == coin_segment(c, d));
                    }
                    assert(self.store@.contains_key(c.symbol@));
                    assert(self.store@[c.symbol@] == d);
                },
                None => {},
            }
            assert(segments_for(self.coins@.take(i as int + 1), self.store@) == if is_active(self.store@, c.symbol@) {
                if before.len() == 0 { seq![coin_segment(c, self.store@[c.symbol@])] }
                else { segment_views(before).push(separator_view()).push(coin_segment(c, self.store@[c.symbol@])) }
            } else { segment_views(before) });
            i += 1;
            assert(segment_views(segs@) =~= segments_for(self.coins@.take(i as int), self.store@));
        }
        assert(self.coins@.take(self.coins.len() as int) =~= self.coins@);
        assert(segment_views(segs@) == segments_for(self.coins@, self.store@));
        self.segments = segs;
    }
}

/// Symbols are unique among the entries, and `store` maps each to its data.
spec fn store_ok(prices: Seq<PriceEntry>, store: Map<Seq<char>, CoinData>) -> bool {
    &&& forall|i: int, j: int| 0 <= i < j < prices.len() ==> prices[i].symbol@ != prices[j].symbol@
    &&& forall|k: Seq<char>|
        store.contains_key(k) <==> exists|i: int| 0 <= i < prices.len() && #[trigger] prices[i].symbol@ == k
    &&& forall|i: int| 0 <= i < prices.len() ==> store[#[trigger] prices[i].symbol@] == prices[i].data
}

/// A copy of `segs`, segment by segment.
pub fn copy_segments(segs: &Vec<Segment>) -> (r: Vec<Segment>)
    ensures
        segment_views(r@) == segment_views(segs@),
{
    let mut out: Vec<Segment> = Vec::new();
    let mut i: usize = 0;
    while i < segs.len()
        invariant
            i <= segs.len(),
            segment_views(out@) == segment_views(segs@.take(i as int)),
        decreases segs.len() - i,
    {
        let s = &segs[i];
        let icon = match &s.icon {
            Some(name) => Some(name.clone()),
            None => None,
        };
        let seg = Segment { text: s.text.clone(), direction: s.direction, icon };
        proof {
            lemma_views_push(out@, seg);
            lemma_views_push(segs@.take(i as int), segs@[i as int]);
            assert(segs@.take(i as int + 1) =~= segs@.take(i as int).push(segs@[i as int]));
        }
        out.push(seg);
        i += 1;
    }
    assert(segs@.take(segs.len() as int) =~= segs@);
    out
}

/// The segments a frame draws. With a fresh snapshot (the lock was free)
/// they are that snapshot, which also becomes the last one kept; without one
/// (the lock was busy) they are the last snapshot kept.
pub fn take_snapshot(fresh: Option<&Vec<Segment>>, last: &mut Vec<Segment>) -> (r: Vec<Segment>)
    ensures
        match fresh {
            Some(f) => segment_views(r@) == segment_views(f@) && segment_views(final(last)@)
                == segment_views(f@),
            None => segment_views(r@) == segment_views(old(last)@) && final(last)@ == old(last)@,
        },
{
    match fresh {
        Some(f) => {
            *last = copy_segments(f);
            copy_segments(f)
        },
        None => copy_segments(last),
    }
}

proof fn lemma_views_push(s: Seq<Segment>, x: Segment)
    ensures
        segment_views(s.push(x)) == segment_views(s).push(x@),
        segment_views(s).len() == s.len(),
{
    assert(segment_views(s.push(x)) =~= segment_views(s).push(x@));
}

proof fn lemma_no_segments_without_prices(coins: Seq<CoinConfig>, store: Map<Seq<char>, CoinData>)
    requires
        store == Map::<Seq<char>, CoinData>::empty(),
    ensures
        segments_for(coins, store) == Seq::<SegmentView>::empty(),
    decreases coins.len(),
{
    if coins.len() > 0 {
        lemma_no_segments_without_prices(coins.drop_last(), store);
    }
}

proof fn lemma_segments_shape(coins: Seq<CoinConfig>, store: Map<Seq<char>, CoinData>)
    ensures
        segments_for(coins, store).len() == if active_count(coins, store) == 0 {
            0
        } else {
            2 * active_count(coins, store) - 1
        },
        forall|i: int|
            0 <= i < segments_for(coins, store).len() ==> (#[trigger] segments_for(coins, store)[i]
                == separator_view() <==> i % 2 == 1),
    decreases coins.len(),
{
    if coins.len() > 0 {
        lemma_segments_shape(coins.drop_last(), store);
    }
}

/// Whatever updates came before, the segments are one per instrument with a
/// positive price, in configured order, with a separator between each two of
/// them and none where fewer than two are active.
pub proof fn lemma_segment_count(t: &TickerState)
    requires
        t.wf(),
    ensures
        t.segments_view().len() == if active_count(t.coins(), t.store()) <= 1 {
            active_count(t.coins(), t.store()) as int
        } else {
            active_count(t.coins(), t.store()) + (active_count(t.coins(), t.store()) - 1)
        },
        forall|i: int|
            0 <= i < t.segments_view().len() ==> (#[trigger] t.segments_view()[i]
                == separator_view() <==> i % 2 == 1),
{
    lemma_segments_shape(t.coins(), t.store());
}

/// Setting the same price twice leaves the store, and so the segments, as
/// the first call left them.
pub proof fn lemma_update_price_idempotent(
    coins: Seq<CoinConfig>,
    store: Map<Seq<char>, CoinData>,
    sym: Seq<char>,
    price: u64,
)
    ensures
        with_price(with_price(store, sym, price), sym, price) == with_price(store, sym, price),
        segments_for(coins, with_price(with_price(store, sym, price), sym, price))
            == segments_for(coins, with_price(store, sym, price)),
{
    let once = with_price(store, sym, price);
    assert(with_price(once, sym, price) =~= once);
}

/// A price for an unseen symbol shows a change of `0.0%`, neutral; a
/// reference open for an unseen symbol leaves it inactive.
pub proof fn lemma_new_symbol_seeding(
    store: Map<Seq<char>, CoinData>,
    sym: Seq<char>,
    price: u64,
    open: u64,
)
    requires
        !store.contains_key(sym),
    ensures
        price > 0 ==> change_direction(with_price(store, sym, price)[sym]) == Direction::Neutral,
        price > 0 ==> change_text(with_price(store, sym, price)[sym]) == seq!['0', '.', '0', '%'],
        !is_active(with_open(store, sym, open), sym),
{
    let d = with_price(store, sym, price)[sym];
    if price > 0 {
        assert(d.price == d.open_24h);
        assert(change_tenths(d) == 0) by {
            assert((0nat * 1000) as nat == 0);
            assert(0nat / (d.open_24h as nat) == 0);
            assert(0nat % (d.open_24h as nat) == 0);
        }
        reveal_with_fuel(digits, 2);
        reveal_with_fuel(padded, 2);
        assert(fixed_text(0, 1) =~= seq!['0', '.', '0']) by {
            assert(pow10(1) == 10) by {
                reveal_with_fuel(pow10, 2);
            }
            assert(digits(0) =~= seq!['0']);
            assert(padded(0, 1) =~= seq!['0']) by {
                assert(padded(0, 0) =~= Seq::<char>::empty());
            }
        }
        assert(change_text(d) =~= seq!['0', '.', '0', '%']);
    }
}

} // verus!
