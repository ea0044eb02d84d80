use waybar_crypto_ticker::icon::rgba_to_premultiplied_bgra;
use waybar_crypto_ticker::scroll::{
    advance_offset, effective_offset, frame_layout, next_cached_width, pass_layout, segment_width,
    total_width, UNITS_PER_PX,
};

fn px(n: u64) -> u64 {
    n * UNITS_PER_PX
}

#[test]
fn scroll_wraparound() {
    let offset = advance_offset(px(290), px(20), px(300));
    assert_eq!(offset, px(10));
    assert_eq!(effective_offset(offset, px(300)), px(10));
    let widths = vec![px(100), px(100), px(100)];
    let f = frame_layout(&widths, offset, px(300), px(320)).unwrap();
    assert_eq!(f.effective_offset, px(10));
    assert_eq!(f.first.start, -(px(10) as i128));
    assert_eq!(f.second.unwrap().start, px(290) as i128);
}

#[test]
fn advance_below_width_keeps_adding() {
    assert_eq!(advance_offset(px(10), px(5), px(300)), px(15));
    assert_eq!(advance_offset(px(10), px(5), 0), px(15));
    assert_eq!(advance_offset(px(295), px(5), px(300)), 0);
}

#[test]
fn second_pass_only_when_it_reaches_viewport() {
    let widths = vec![px(500), px(500)];
    let f = frame_layout(&widths, px(100), 0, px(320)).unwrap();
    assert_eq!(f.cached_width, px(1000));
    assert!(f.second.is_none());
    let f = frame_layout(&widths, px(900), px(1000), px(320)).unwrap();
    assert_eq!(f.second.as_ref().unwrap().start, px(100) as i128);
}

#[test]
fn empty_or_zero_width_frame_has_nothing_to_draw() {
    assert!(frame_layout(&vec![], 0, 0, px(320)).is_none());
    assert!(frame_layout(&vec![0, 0], 0, 0, px(320)).is_none());
}

#[test]
fn cached_width_hysteresis() {
    assert_eq!(next_cached_width(0, px(300)), px(300));
    assert_eq!(next_cached_width(px(300), px(300) + 500), px(300));
    assert_eq!(next_cached_width(px(300), px(301)), px(300));
    assert_eq!(next_cached_width(px(300), px(301) + 1), px(301) + 1);
    assert_eq!(next_cached_width(px(300), px(299) - 1), px(299) - 1);
}

#[test]
fn pass_positions_and_visibility() {
    let widths = vec![px(50), px(50), px(50), px(50)];
    let p = pass_layout(&widths, -(px(60) as i128), px(80));
    assert_eq!(p.positions, vec![-60_000, -10_000, 40_000, 90_000]);
    assert_eq!(p.visible, vec![false, true, true, false]);
}

#[test]
fn widths_with_and_without_icon() {
    assert_eq!(segment_width(true, px(40), px(20)), px(60));
    assert_eq!(segment_width(false, px(40), px(20)), px(40));
    assert_eq!(total_width(&vec![px(1), px(2), px(3)]), Some(px(6)));
    assert_eq!(total_width(&vec![u64::MAX, 1]), None);
}

#[test]
fn icon_pixels_premultiplied() {
    let rgba = vec![255, 128, 0, 255, 200, 100, 50, 0, 255, 255, 255, 128];
    let out = rgba_to_premultiplied_bgra(&rgba);
    assert_eq!(out, vec![0, 128, 255, 255, 0, 0, 0, 0, 128, 128, 128, 128]);
}
