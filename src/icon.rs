//! Pixel conversion for icons: straight RGBA to premultiplied BGRA.

use vstd::prelude::*;

verus! {

/// A colour channel premultiplied by alpha, rounded down.
pub open spec fn premultiplied(c: u8, a: u8) -> u8 {
    ((c as nat * a as nat) / 255) as u8
}

/// Pixel `p` of `out` is pixel `p` of `rgba`, premultiplied and in blue,
/// green, red, alpha order.
pub open spec fn pixel_converted(out: Seq<u8>, rgba: Seq<u8>, p: int) -> bool {
    let a = rgba[4 * p + 3];
    &&& out[4 * p] == premultiplied(rgba[4 * p + 2], a)
    &&& out[4 * p + 1] == premultiplied(rgba[4 * p + 1], a)
    &&& out[4 * p + 2] == premultiplied(rgba[4 * p], a)
    &&& out[4 * p + 3] == a
}

/// Whether `out` is `rgba` with every pixel converted.
pub open spec fn is_bgra_of(out: Seq<u8>, rgba: Seq<u8>) -> bool {
    &&& out.len() == rgba.len()
    &&& forall|p: int| 0 <= p < rgba.len() / 4 ==> #[trigger] pixel_converted(out, rgba, p)
}

fn premultiply(c: u8, a: u8) -> (r: u8)
    ensures
        r == premultiplied(c, a),
{
    assert((c as nat) * (a as nat) <= 255 * 255) by (nonlinear_arith)
        requires
            c <= 255,
            a <= 255,
    ;
    let prod: u32 = c as u32 * a as u32;
    (prod / 255) as u8
}

/// Converts straight RGBA pixels to premultiplied BGRA, pixel by pixel.
pub fn rgba_to_premultiplied_bgra(rgba: &Vec<u8>) -> (r: Vec<u8>)
    requires
        rgba@.len() % 4 == 0,
    ensures
        is_bgra_of(r@, rgba@),
{
    let n = rgba.len();
    let mut out: Vec<u8> = Vec::new();
    let mut p: usize = 0;
    while p < n / 4
        invariant
            n == rgba@.len(),
            n % 4 == 0,
            p <= n / 4,
            out@.len() == 4 * p,
            forall|q: int| 0 <= q < p ==> #[trigger] pixel_converted(out@, rgba@, q),
        decreases n / 4 - p,
    {
        let i = 4 * p;
        let a = rgba[i + 3];
        let ghost before = out@;
        out.push(premultiply(rgba[i + 2], a));
        out.push(premultiply(rgba[i + 1], a));
        out.push(premultiply(rgba[i], a));
        out.push(a);
        assert forall|q: int| 0 <= q < p + 1 implies #[trigger] pixel_converted(out@, rgba@, q) by {
            if q < p {
                assert(pixel_converted(before, rgba@, q));
                assert(before[4 * q] == out@[4 * q]);
                assert(before[4 * q + 1] == out@[4 * q + 1]);
                assert(before[4 * q + 2] == out@[4 * q + 2]);
                assert(before[4 * q + 3] == out@[4 * q + 3]);
            }
        }
        p += 1;
    }
    out
}

} // verus!
