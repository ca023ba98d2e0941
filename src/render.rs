//! The two-pass render.
//!
//! The first pass evaluates every pixel and gathers the histogram of escape
//! counts. From the histogram the hue table is built, once. The second
//! pass colors every escaped pixel from that table and paints the others black.

use vstd::prelude::*;
use crate::histogram::{count_in, histogram_of, lemma_count_member, lemma_histogram_push, Histogram};
use crate::pixel::{black_bytes, pixel_bytes, push_black, push_pixel, PixelFormat};

verus! {

/// Column and row of the pixel at position `p` of an image `width` pixels wide,
/// rows top first and pixels left to right.
pub open spec fn pixel_coords(width: nat, p: int) -> (u32, u32) {
    ((p % (width as int)) as u32, (p / (width as int)) as u32)
}

/// The buckets (whole parts of the escape values) of a sequence of evaluations.
pub open spec fn floors<V>(evals: Seq<(V, u16, u16)>) -> Seq<u16> {
    evals.map_values(|e: (V, u16, u16)| e.1)
}

/// Index into the hue table of the upper end of an escape value's interval.
pub open spec fn upper_index(hi: u16, cap: nat) -> int {
    if hi as int > cap {
        cap as int
    } else {
        hi as int
    }
}

/// `hues` is the hue table of the buckets `fl` under cap `cap`: each entry
/// adds to the one before it (to `zero` for the first) the count of its bucket
/// over the number of escapes, and the entry at the cap is `zero`.
#[verifier::opaque]
pub open spec fn is_hue_table<H, A: Fn(H, usize, usize) -> H>(
    accumulate: A,
    zero: H,
    fl: Seq<u16>,
    cap: nat,
    hues: Seq<H>,
) -> bool {
    let hist = histogram_of(fl, cap);
    &&& hues.len() == cap + 1
    &&& forall|i: int|
        0 <= i < cap ==> call_ensures(
            accumulate,
            (if i == 0 { zero } else { hues[i - 1] }, hist.0[i] as usize, hist.1 as usize),
            #[trigger] hues[i],
        )
    &&& hues[cap as int] == zero
}

/// `bytes` encode the evaluation `e`: opaque black where the point never
/// escaped, else a color that `color` gives for the value and the hue table
/// entries at both ends of its interval.
pub open spec fn pixel_ok<V, H, C: Fn(V, H, H) -> (u8, u8, u8)>(
    color: C,
    format: PixelFormat,
    cap: nat,
    hues: Seq<H>,
    e: (V, u16, u16),
    bytes: Seq<u8>,
) -> bool {
    if e.1 as int >= cap {
        bytes == black_bytes()
    } else {
        exists|rgb: (u8, u8, u8)|
            #[trigger] call_ensures(color, (e.0, hues[e.1 as int], hues[upper_index(e.2, cap)]), rgb)
                && bytes == pixel_bytes(format, rgb)
    }
}

/// `image` is the render of a `width` by `height` image, where `evals` holds the
/// evaluation of each pixel and `hues` the hue table built from them.
pub open spec fn rendered<V, H, E, A, C>(
    escape: E,
    accumulate: A,
    zero: H,
    color: C,
    width: nat,
    height: nat,
    cap: nat,
    format: PixelFormat,
    evals: Seq<(V, u16, u16)>,
    hues: Seq<H>,
    image: Seq<u8>,
) -> bool where
    E: Fn(u32, u32) -> (V, u16, u16),
    A: Fn(H, usize, usize) -> H,
    C: Fn(V, H, H) -> (u8, u8, u8),
 {
    let n = width * height;
    &&& image.len() == 4 * n
    &&& evals.len() == n
    &&& forall|p: int|
        0 <= p < n ==> call_ensures(escape, pixel_coords(width, p), #[trigger] evals[p])
    &&& count_in(floors(evals), 0, cap as int) > 0 ==> is_hue_table(
        accumulate,
        zero,
        floors(evals),
        cap,
        hues,
    )
    &&& forall|p: int|
        0 <= p < n ==> pixel_ok(
            color,
            format,
            cap,
            hues,
            #[trigger] evals[p],
            image.subrange(4 * p, 4 * p + 4),
        )
}

/// Renders a `width` by `height` image in `format`, four bytes per pixel, rows
/// top first.
///
/// `escape(x, y)` evaluates the pixel in column `x` and row `y` and returns its
/// escape value with the whole parts below and above it; a lower whole part at
/// or above `cap` means the point never escaped. The hue table is built only
/// when some pixel escaped: `accumulate(h, k, total)` is the entry after `h`
/// for a bucket of `k` escapes out of `total`, the first entry follows `zero`,
/// and the entry at the cap is `zero`. `color(v, lo, hi)` colors an escaped
/// pixel from its value and the hue table entries at both ends of its interval.
pub fn render<V: Copy, H: Copy, E, A, C>(
    width: u32,
    height: u32,
    cap: u16,
    format: PixelFormat,
    escape: E,
    accumulate: A,
    zero: H,
    color: C,
) -> (image: Vec<u8>) where
    E: Fn(u32, u32) -> (V, u16, u16),
    A: Fn(H, usize, usize) -> H,
    C: Fn(V, H, H) -> (u8, u8, u8),

    requires
        4 * width * height <= usize::MAX,
        forall|x: u32, y: u32| call_requires(escape, (x, y)),
        forall|h: H, k: usize, t: usize| call_requires(accumulate, (h, k, t)),
        forall|v: V, lo: H, hi: H| call_requires(color, (v, lo, hi)),
    ensures
        image@.len() == 4 * width * height,
        exists|evals: Seq<(V, u16, u16)>, hues: Seq<H>|
            rendered(
                escape,
                accumulate,
                zero,
                color,
                width as nat,
                height as nat,
                cap as nat,
                format,
                evals,
                hues,
                image@,
            ),
{
    let ghost w = width as nat;
    let ghost capn = cap as nat;
    assert(width * height <= 4 * width * height) by (nonlinear_arith);
    let n: usize = width as usize * height as usize;
    // First pass: evaluate every pixel and gather the histogram.
    let mut evals: Vec<(V, u16, u16)> = Vec::new();
    let mut hist = Histogram::new(cap);
    assert(floors(evals@) =~= Seq::<u16>::empty());
    let mut p: usize = 0;
    while p < n
        invariant
            n == width * height,
            n <= usize::MAX,
            w == width as nat,
            capn == cap as nat,
            p <= n,
            evals@.len() == p,
            hist.wf(),
            hist@ == histogram_of(floors(evals@), capn),
            hist@.1 <= p,
            forall|x: u32, y: u32| call_requires(escape, (x, y)),
            forall|q: int| 0 <= q < p ==> call_ensures(escape, pixel_coords(w, q), #[trigger] evals@[q]),
        decreases n - p,
    {
        assert(p / (width as usize) < height) by (nonlinear_arith)
            requires
                p < width * height,
        ;
        assert(width > 0) by (nonlinear_arith)
            requires
                p < width * height,
        ;
        let x: u32 = (p % width as usize) as u32;
        let y: u32 = (p / width as usize) as u32;
        let e = escape(x, y);
        proof {
            assert(pixel_coords(w, p as int) == (x, y));
            lemma_count_bound(floors(evals@), capn);
            lemma_histogram_push(floors(evals@), capn, e.1);
            assert(floors(evals@.push(e)) =~= floors(evals@).push(e.1));
        }
        hist.record(e.1);
        evals.push(e);
        p += 1;
    }
    let ghost fl = floors(evals@);
    // The hue table, built only when some pixel escaped.
    let total = hist.escaped();
    let mut hues: Vec<H> = Vec::new();
    if total > 0 {
        let mut entry: H = zero;
        let mut i: usize = 0;
        while i < hist.buckets()
            invariant
                capn == cap as nat,
                hist@ == histogram_of(fl, capn),
                hist@.1 == total,
                i <= capn,
                hues@.len() == i,
                i == 0 ==> entry == zero,
                i > 0 ==> entry == hues@[i - 1],
                forall|h: H, k: usize, t: usize| call_requires(accumulate, (h, k, t)),
                forall|j: int|
                    0 <= j < i ==> call_ensures(
                        accumulate,
                        (if j == 0 { zero } else { hues@[j - 1] }, hist@.0[j] as usize, total),
                        #[trigger] hues@[j],
                    ),
            decreases capn - i,
        {
            entry = accumulate(entry, hist.count(i), total);
            hues.push(entry);
            i += 1;
        }
        hues.push(zero);
        proof {
            reveal(is_hue_table);
            assert(is_hue_table(accumulate, zero, fl, capn, hues@));
        }
    }
    // Second pass: paint every pixel.
    let mut image: Vec<u8> = Vec::new();
    let mut p: usize = 0;
    while p < n
        invariant
            n == width * height,
            capn == cap as nat,
            p <= n,
            evals@.len() == n,
            fl == floors(evals@),
            total == count_in(fl, 0, capn as int),
            total > 0 ==> is_hue_table(accumulate, zero, fl, capn, hues@),
            total > 0 ==> hues@.len() == capn + 1,
            image@.len() == 4 * p,
            forall|v: V, lo: H, hi: H| call_requires(color, (v, lo, hi)),
            forall|q: int|
                0 <= q < p ==> pixel_ok(
                    color,
                    format,
                    capn,
                    hues@,
                    #[trigger] evals@[q],
                    image@.subrange(4 * q, 4 * q + 4),
                ),
        decreases n - p,
    {
        let e = evals[p];
        let ghost before = image@;
        if e.1 >= cap {
            push_black(&mut image);
            assert(image@.subrange(4 * p as int, 4 * p as int + 4) =~= black_bytes());
        } else {
            proof {
                assert(e == evals@[p as int]);
                assert(fl[p as int] == e.1);
                lemma_count_member(fl, p as int, 0, capn as int);
            }
            let lo = e.1 as usize;
            let hi = if e.2 > cap { cap as usize } else { e.2 as usize };
            let rgb = color(e.0, hues[lo], hues[hi]);
            push_pixel(&mut image, format, rgb);
            proof {
                assert(hi as int == upper_index(e.2, capn));
                assert(image@.subrange(4 * p as int, 4 * p as int + 4) =~= pixel_bytes(format, rgb));
                assert(call_ensures(color, (e.0, hues@[e.1 as int], hues@[upper_index(e.2, capn)]), rgb));
                assert(pixel_ok(color, format, capn, hues@, e, image@.subrange(4 * p as int, 4 * p as int + 4)));
            }
        }
        proof {
            assert forall|q: int| 0 <= q < p implies pixel_ok(
                color,
                format,
                capn,
                hues@,
                #[trigger] evals@[q],
                image@.subrange(4 * q, 4 * q + 4),
            ) by {
                assert(image@.subrange(4 * q, 4 * q + 4) =~= before.subrange(4 * q, 4 * q + 4));
            }
        }
        p += 1;
    }
    proof {
        assert(4 * (width * height) == 4 * width * height) by (nonlinear_arith);
        assert(rendered(escape, accumulate, zero, color, w, height as nat, capn, format, evals@, hues@, image@));
    }
    image
}

/// No sequence has more entries below the cap than it has entries.
proof fn lemma_count_bound(s: Seq<u16>, cap: nat)
    ensures
        count_in(s, 0, cap as int) <= s.len(),
    decreases s.len(),
{
    if s.len() > 0 {
        lemma_count_bound(s.drop_last(), cap);
    }
}

} // verus!
