//! Chebyshev distance-field transforms.
//!
//! A binary seed mask is derived from a frame by thresholding; a two-pass
//! raster relaxation (forward sweep, then the same sweep over the reversed
//! buffer) yields per-pixel Chebyshev distances to the seed set. Distances
//! are then normalized into bytes, either as a single-sided magnitude field
//! or as a dual-sided signed field.
use vstd::prelude::*;

use crate::error::ImplError;
use crate::monoframe::MonoFrame;

verus! {

/// The per-pixel buffer as mathematical integers.
pub open spec fn ints(s: Seq<usize>) -> Seq<int> {
    s.map_values(|u: usize| u as int)
}

pub open spec fn spec_min(a: int, b: int) -> int {
    if a <= b {
        a
    } else {
        b
    }
}

/// The initial distance field: cost 0 at seed pixels (above the threshold
/// when `above` is set, at or below it otherwise), the sentinel `w + h`
/// everywhere else.
pub open spec fn seeded_field(pixels: Seq<u8>, w: nat, h: nat, threshold: u8, above: bool) -> Seq<
    int,
> {
    Seq::new(
        w * h,
        |i: int|
            if (above && pixels[i] > threshold) || (!above && pixels[i] <= threshold) {
                0
            } else {
                (w + h) as int
            },
    )
}

/// One raster relaxation step at cell `(x, y)`: the cell's cost lowered to
/// `min(self, neighbor + 1)` over the already-visited neighbors in reading
/// order (left, up-right, up, up-left).
pub open spec fn relaxed_cell(f: Seq<int>, w: nat, x: nat, y: nat) -> int {
    let i = y * w + x;
    let v0 = f[i as int];
    let v1 = if x != 0 {
        spec_min(v0, f[i - 1] + 1)
    } else {
        v0
    };
    let v2 = if x != w - 1 && y != 0 {
        spec_min(v1, f[i - w + 1] + 1)
    } else {
        v1
    };
    let v3 = if y != 0 {
        spec_min(v2, f[i - w] + 1)
    } else {
        v2
    };
    if x != 0 && y != 0 {
        spec_min(v3, f[i - w - 1] + 1)
    } else {
        v3
    }
}

/// The field after relaxing the first `x` cells of row `y` in raster order.
pub open spec fn fwd_row(f: Seq<int>, w: nat, y: nat, x: nat) -> Seq<int>
    decreases x,
{
    if x == 0 {
        f
    } else {
        let g = fwd_row(f, w, y, (x - 1) as nat);
        g.update(y * w + x - 1, relaxed_cell(g, w, (x - 1) as nat, y))
    }
}

/// The field after relaxing rows `0 .. y` completely, in raster order.
pub open spec fn fwd_rows(f: Seq<int>, w: nat, y: nat) -> Seq<int>
    decreases y,
{
    if y == 0 {
        f
    } else {
        fwd_row(fwd_rows(f, w, (y - 1) as nat), w, (y - 1) as nat, w)
    }
}

/// One full forward raster pass over a `w` by `h` field.
pub open spec fn forward_pass(f: Seq<int>, w: nat, h: nat) -> Seq<int> {
    fwd_rows(f, w, h)
}

/// The two-pass Chebyshev transform: seed, forward sweep, then the same
/// sweep over the reversed buffer (the backward sweep), reversed back.
pub open spec fn chebyshev_field(
    pixels: Seq<u8>,
    w: nat,
    h: nat,
    threshold: u8,
    above: bool,
) -> Seq<int> {
    forward_pass(forward_pass(seeded_field(pixels, w, h, threshold, above), w, h).reverse(), w, h)
        .reverse()
}

proof fn lemma_fwd_row_len(f: Seq<int>, w: nat, y: nat, x: nat)
    requires
        y * w + x <= f.len(),
    ensures
        fwd_row(f, w, y, x).len() == f.len(),
    decreases x,
{
    if x != 0 {
        lemma_fwd_row_len(f, w, y, (x - 1) as nat);
    }
}

proof fn lemma_fwd_rows_len(f: Seq<int>, w: nat, y: nat)
    requires
        y * w <= f.len(),
    ensures
        fwd_rows(f, w, y).len() == f.len(),
    decreases y,
{
    if y != 0 {
        assert((y - 1) * w + w == y * w) by (nonlinear_arith);
        lemma_fwd_rows_len(f, w, (y - 1) as nat);
        lemma_fwd_row_len(fwd_rows(f, w, (y - 1) as nat), w, (y - 1) as nat, w);
    }
}

proof fn lemma_ints_update(s: Seq<usize>, i: int, v: usize)
    requires
        0 <= i < s.len(),
    ensures
        ints(s.update(i, v)) == ints(s).update(i, v as int),
{
    assert(ints(s.update(i, v)) =~= ints(s).update(i, v as int));
}

proof fn lemma_ints_reverse(s: Seq<usize>)
    ensures
        ints(s.reverse()) == ints(s).reverse(),
{
    assert(ints(s.reverse()) =~= ints(s).reverse());
}

/// Reverses the buffer in place.
fn reverse_vec(v: &mut Vec<usize>)
    ensures
        final(v)@ == old(v)@.reverse(),
{
    let len: usize = v.len();
    let mut i: usize = 0;
    while i < len / 2
        invariant
            len == v@.len(),
            len == old(v)@.len(),
            i <= len / 2,
            forall|j: int| 0 <= j < i ==> v@[j] == old(v)@[len - 1 - j],
            forall|j: int| len - i <= j < len ==> v@[j] == old(v)@[len - 1 - j],
            forall|j: int| i <= j < len - i ==> v@[j] == old(v)@[j],
        decreases len / 2 - i,
    {
        let a: usize = v[i];
        let b: usize = v[len - 1 - i];
        v[i] = b;
        v[len - 1 - i] = a;
        i = i + 1;
    }
    proof {
        assert(v@ =~= old(v)@.reverse());
    }
}

/// The forward raster relaxation pass; run over a reversed buffer it
/// implements the backward sweep.
pub fn chebyshev_sdf_forward_pass(distance_field: &mut Vec<usize>, width: usize, height: usize)
    requires
        old(distance_field)@.len() == width * height,
        width <= u16::MAX,
        height <= u16::MAX,
        forall|i: int| 0 <= i < old(distance_field)@.len() ==> old(distance_field)@[i] <= width
            + height,
    ensures
        final(distance_field)@.len() == width * height,
        ints(final(distance_field)@) == forward_pass(ints(old(distance_field)@), width as nat,
            height as nat),
        forall|i: int| 0 <= i < final(distance_field)@.len() ==> final(distance_field)@[i] <= width
            + height,
{
    let ghost f0: Seq<int> = ints(old(distance_field)@);
    let mut idx: usize = 0;
    let mut y: usize = 0;
    while y < height
        invariant
            y <= height,
            idx == y * width,
            width <= u16::MAX,
            height <= u16::MAX,
            distance_field@.len() == width * height,
            f0.len() == width * height,
            ints(distance_field@) == fwd_rows(f0, width as nat, y as nat),
            forall|i: int| 0 <= i < distance_field@.len() ==> distance_field@[i] <= width + height,
        decreases height - y,
    {
        let ghost row_base: Seq<int> = fwd_rows(f0, width as nat, y as nat);
        let mut x: usize = 0;
        while x < width
            invariant
                x <= width,
                y < height,
                idx == y * width + x,
                width <= u16::MAX,
                height <= u16::MAX,
                distance_field@.len() == width * height,
                f0.len() == width * height,
                row_base == fwd_rows(f0, width as nat, y as nat),
                ints(distance_field@) == fwd_row(row_base, width as nat, y as nat, x as nat),
                forall|i: int| 0 <= i < distance_field@.len() ==> distance_field@[i] <= width
                    + height,
            decreases width - x,
        {
            proof {
                assert(idx < width * height && width * height <= usize::MAX && y * width + width
                    <= width * height && (y != 0 ==> idx >= width + x)) by (nonlinear_arith)
                    requires
                        idx == y * width + x && x < width && y < height && width <= u16::MAX
                            && height <= u16::MAX,
                ;
            }
            let mut curr_dist: usize = distance_field[idx];
            if x != 0 {
                let n: usize = distance_field[idx - 1];
                if n + 1 < curr_dist {
                    curr_dist = n + 1;
                }
            }
            if x != width - 1 && y != 0 {
                let n: usize = distance_field[idx - width + 1];
                if n + 1 < curr_dist {
                    curr_dist = n + 1;
                }
            }
            if y != 0 {
                let n: usize = distance_field[idx - width];
                if n + 1 < curr_dist {
                    curr_dist = n + 1;
                }
            }
            if x != 0 && y != 0 {
                let n: usize = distance_field[idx - width - 1];
                if n + 1 < curr_dist {
                    curr_dist = n + 1;
                }
            }
            proof {
                assert(curr_dist as int == relaxed_cell(ints(distance_field@), width as nat,
                    x as nat, y as nat));
            }
            let ghost pre: Seq<usize> = distance_field@;
            distance_field[idx] = curr_dist;
            proof {
                lemma_ints_update(pre, idx as int, curr_dist);
            }
            idx = idx + 1;
            x = x + 1;
        }
        y = y + 1;
        proof {
            assert((y - 1) * width + width == y * width) by (nonlinear_arith);
        }
    }
}

/// The shared two-pass transform: seed by thresholding, forward sweep,
/// reverse, forward sweep again, reverse back.
fn chebyshev_sdf_core(image: &Vec<u8>, width: usize, height: usize, threshold: u8, above: bool) -> (
    r: Vec<usize>)
    requires
        image@.len() == width * height,
        width <= u16::MAX,
        height <= u16::MAX,
    ensures
        r@.len() == width * height,
        ints(r@) == chebyshev_field(image@, width as nat, height as nat, threshold, above),
        forall|i: int| 0 <= i < r@.len() ==> r@[i] <= width + height,
{
    let ghost seeded: Seq<int> = seeded_field(image@, width as nat, height as nat, threshold,
        above);
    proof {
        assert(width * height <= usize::MAX) by (nonlinear_arith)
            requires
                width <= u16::MAX && height <= u16::MAX,
        ;
    }
    let max_dist: usize = width + height;
    let total: usize = width * height;
    let mut distance_field: Vec<usize> = Vec::new();
    let mut i: usize = 0;
    while i < total
        invariant
            i <= total,
            total == width * height,
            image@.len() == total,
            max_dist == width + height,
            distance_field@.len() == i,
            seeded == seeded_field(image@, width as nat, height as nat, threshold, above),
            forall|j: int| 0 <= j < i ==> distance_field@[j] as int == seeded[j],
            forall|j: int| 0 <= j < i ==> distance_field@[j] <= max_dist,
        decreases total - i,
    {
        if (above && image[i] > threshold) || (!above && image[i] <= threshold) {
            distance_field.push(0);
        } else {
            distance_field.push(max_dist);
        }
        i = i + 1;
    }
    proof {
        assert(ints(distance_field@) =~= seeded);
    }
    chebyshev_sdf_forward_pass(&mut distance_field, width, height);
    let ghost once: Seq<int> = ints(distance_field@);
    reverse_vec(&mut distance_field);
    proof {
        lemma_ints_reverse(distance_field@.reverse());
        assert(distance_field@.reverse().reverse() =~= distance_field@);
        assert(ints(distance_field@) == once.reverse());
        assert forall|j: int| 0 <= j < distance_field@.len() implies distance_field@[j] <= width
            + height by {
            assert(distance_field@[j] == distance_field@.reverse().reverse()[j]);
        }
    }
    chebyshev_sdf_forward_pass(&mut distance_field, width, height);
    let ghost twice: Seq<int> = ints(distance_field@);
    reverse_vec(&mut distance_field);
    proof {
        lemma_ints_reverse(distance_field@.reverse());
        assert(distance_field@.reverse().reverse() =~= distance_field@);
        assert(ints(distance_field@) == twice.reverse());
    }
    distance_field
}

/// Per-pixel Chebyshev distance to the nearest pixel strictly above the
/// threshold, by the two-pass relaxation.
pub fn chebyshev_sdf_above(image: &Vec<u8>, width: usize, height: usize, threshold: u8) -> (r: Vec<
    usize,
>)
    requires
        image@.len() == width * height,
        width <= u16::MAX,
        height <= u16::MAX,
    ensures
        r@.len() == width * height,
        ints(r@) == chebyshev_field(image@, width as nat, height as nat, threshold, true),
        forall|i: int| 0 <= i < r@.len() ==> r@[i] <= width + height,
{
    chebyshev_sdf_core(image, width, height, threshold, true)
}

/// Per-pixel Chebyshev distance to the nearest pixel at or below the
/// threshold, by the two-pass relaxation.
pub fn chebyshev_sdf_below(image: &Vec<u8>, width: usize, height: usize, threshold: u8) -> (r: Vec<
    usize,
>)
    requires
        image@.len() == width * height,
        width <= u16::MAX,
        height <= u16::MAX,
    ensures
        r@.len() == width * height,
        ints(r@) == chebyshev_field(image@, width as nat, height as nat, threshold, false),
        forall|i: int| 0 <= i < r@.len() ==> r@[i] <= width + height,
{
    chebyshev_sdf_core(image, width, height, threshold, false)
}

/// The largest entry of a non-empty field (`0` for an empty one).
pub open spec fn seq_max(s: Seq<int>) -> int
    decreases s.len(),
{
    if s.len() == 0 {
        0
    } else if s.len() == 1 {
        s[0]
    } else {
        let m = seq_max(s.drop_last());
        if s.last() >= m {
            s.last()
        } else {
            m
        }
    }
}

pub proof fn lemma_seq_max_props(s: Seq<int>)
    requires
        s.len() > 0,
    ensures
        forall|i: int| 0 <= i < s.len() ==> s[i] <= seq_max(s),
        exists|i: int| 0 <= i < s.len() && s[i] == seq_max(s),
    decreases s.len(),
{
    if s.len() == 1 {
        assert(s[0] == seq_max(s));
    } else {
        lemma_seq_max_props(s.drop_last());
        assert(s.last() == s[s.len() - 1]);
        assert forall|i: int| 0 <= i < s.len() implies s[i] <= seq_max(s) by {
            if i < s.len() - 1 {
                assert(s.drop_last()[i] == s[i]);
            }
        }
        if seq_max(s) == s.last() {
            assert(s[s.len() - 1] == seq_max(s));
        } else {
            let i = choose|i: int| 0 <= i < s.drop_last().len() && s.drop_last()[i] == seq_max(
                s.drop_last());
            assert(s.drop_last()[i] == s[i]);
            assert(s[i] == seq_max(s));
        }
    }
}

/// The largest distance observed in the field.
fn vec_max(v: &Vec<usize>) -> (r: usize)
    requires
        v@.len() > 0,
    ensures
        r as int == seq_max(ints(v@)),
{
    let mut m: usize = v[0];
    let mut i: usize = 1;
    while i < v.len()
        invariant
            1 <= i <= v@.len(),
            m as int == seq_max(ints(v@).subrange(0, i as int)),
        decreases v@.len() - i,
    {
        let x: usize = v[i];
        proof {
            assert(ints(v@).subrange(0, i + 1).drop_last() =~= ints(v@).subrange(0, i as int));
            assert(ints(v@).subrange(0, i + 1).last() == x as int);
        }
        if x > m {
            m = x;
        }
        i = i + 1;
    }
    proof {
        assert(ints(v@).subrange(0, v@.len() as int) =~= ints(v@));
    }
    m
}

/// The low-half byte of the dual-sided encoding: `round((1 - d/m) * 127)`,
/// computed exactly over the rationals; `0` when the field has no spread.
pub open spec fn above_code(d: int, m: int) -> int {
    if m == 0 {
        0
    } else {
        (254 * (m - d) + m) / (2 * m)
    }
}

/// The high-half byte of the dual-sided encoding: `128 + round((d/m) * 127)`;
/// `255` (the deepest "below" value) when every pixel is a below-side seed.
pub open spec fn below_code(d: int, m: int) -> int {
    if m == 0 {
        255
    } else {
        128 + (254 * d + m) / (2 * m)
    }
}

/// The single-sided magnitude byte: `round((1 - d/m) * 255)`; `255` when
/// every pixel is a seed.
pub open spec fn magnitude_code(d: int, m: int) -> int {
    if m == 0 {
        255
    } else {
        (510 * (m - d) + m) / (2 * m)
    }
}

/// The dual-sided tie-break: the below-derived byte wins unless it is
/// exactly 128, the boundary value a below-side seed produces, in which
/// case the above-derived byte is used.
pub open spec fn combined_code(below: int, above: int) -> int {
    if below == 128 {
        above
    } else {
        below
    }
}

/// The byte that the dual-sided signed transform assigns to pixel `i`.
pub open spec fn dual_sdf_byte(pixels: Seq<u8>, w: nat, h: nat, i: int) -> int {
    let af = chebyshev_field(pixels, w, h, 127, true);
    let bf = chebyshev_field(pixels, w, h, 127, false);
    combined_code(below_code(bf[i], seq_max(bf)), above_code(af[i], seq_max(af)))
}

/// The byte that the single-sided magnitude transform assigns to pixel `i`.
pub open spec fn magnitude_sdf_byte(pixels: Seq<u8>, w: nat, h: nat, i: int) -> int {
    let af = chebyshev_field(pixels, w, h, 127, true);
    magnitude_code(af[i], seq_max(af))
}

fn above_byte(d: usize, m: usize) -> (r: u8)
    requires
        d <= m,
        m <= 131070,
    ensures
        r as int == above_code(d as int, m as int),
{
    if m == 0 {
        0
    } else {
        let num: usize = 254 * (m - d) + m;
        proof {
            assert(num as int / (2 * m as int) <= 127) by (nonlinear_arith)
                requires
                    1 <= m && num <= 255 * m,
            ;
        }
        (num / (2 * m)) as u8
    }
}

fn below_byte(d: usize, m: usize) -> (r: u8)
    requires
        d <= m,
        m <= 131070,
    ensures
        r as int == below_code(d as int, m as int),
{
    if m == 0 {
        255
    } else {
        let num: usize = 254 * d + m;
        proof {
            assert(num as int / (2 * m as int) <= 127) by (nonlinear_arith)
                requires
                    1 <= m && num <= 255 * m,
            ;
        }
        128 + (num / (2 * m)) as u8
    }
}

fn magnitude_byte(d: usize, m: usize) -> (r: u8)
    requires
        d <= m,
        m <= 131070,
    ensures
        r as int == magnitude_code(d as int, m as int),
{
    if m == 0 {
        255
    } else {
        let num: usize = 510 * (m - d) + m;
        proof {
            assert(num as int / (2 * m as int) <= 255) by (nonlinear_arith)
                requires
                    1 <= m && num <= 511 * m,
            ;
        }
        (num / (2 * m)) as u8
    }
}

/// The dual-sided signed transform: the below-distance field is packed into
/// the high half of the byte range, the above-distance field into the low
/// half, combined by the 128 tie-break. A zero-area frame is rejected.
pub fn binary_sdf(frame: &MonoFrame) -> (r: Result<MonoFrame, ImplError>)
    requires
        frame.well_formed(),
    ensures
        r is Err <==> frame.width == 0 || frame.height == 0,
        r is Err ==> r->Err_0 is EmptyDistanceField,
        r matches Ok(out) ==> {
            &&& out.width == frame.width
            &&& out.height == frame.height
            &&& out.well_formed()
            &&& forall|i: int|
                0 <= i < out.data@.len() ==> out.data@[i] as int == dual_sdf_byte(frame.data@,
                    frame.width as nat, frame.height as nat, i)
        },
{
    if frame.width == 0 || frame.height == 0 {
        return Err(ImplError::EmptyDistanceField);
    }
    let w: usize = frame.width as usize;
    let h: usize = frame.height as usize;
    proof {
        assert(w * h >= 1 && w * h <= usize::MAX) by (nonlinear_arith)
            requires
                1 <= w <= u16::MAX && 1 <= h <= u16::MAX,
        ;
    }
    let above_distances: Vec<usize> = chebyshev_sdf_above(&frame.data, w, h, 127);
    let below_distances: Vec<usize> = chebyshev_sdf_below(&frame.data, w, h, 127);
    let above_max: usize = vec_max(&above_distances);
    let below_max: usize = vec_max(&below_distances);
    let ghost af: Seq<int> = chebyshev_field(frame.data@, w as nat, h as nat, 127, true);
    let ghost bf: Seq<int> = chebyshev_field(frame.data@, w as nat, h as nat, 127, false);
    proof {
        lemma_seq_max_props(af);
        lemma_seq_max_props(bf);
        assert forall|j: int| 0 <= j < above_distances@.len() implies above_distances@[j]
            <= above_max by {
            assert(ints(above_distances@)[j] == above_distances@[j] as int);
        }
        assert forall|j: int| 0 <= j < below_distances@.len() implies below_distances@[j]
            <= below_max by {
            assert(ints(below_distances@)[j] == below_distances@[j] as int);
        }
    }
    let total: usize = w * h;
    let mut combined_bytes: Vec<u8> = Vec::new();
    let mut i: usize = 0;
    while i < total
        invariant
            i <= total,
            total == w * h,
            w == frame.width,
            h == frame.height,
            1 <= w && 1 <= h,
            above_distances@.len() == total,
            below_distances@.len() == total,
            af == chebyshev_field(frame.data@, w as nat, h as nat, 127, true),
            bf == chebyshev_field(frame.data@, w as nat, h as nat, 127, false),
            ints(above_distances@) == af,
            ints(below_distances@) == bf,
            above_max as int == seq_max(af),
            below_max as int == seq_max(bf),
            above_max <= w + h,
            below_max <= w + h,
            forall|j: int| 0 <= j < total ==> above_distances@[j] <= above_max,
            forall|j: int| 0 <= j < total ==> below_distances@[j] <= below_max,
            combined_bytes@.len() == i,
            forall|j: int| 0 <= j < i ==> combined_bytes@[j] as int == dual_sdf_byte(frame.data@,
                w as nat, h as nat, j),
        decreases total - i,
    {
        let a: u8 = above_byte(above_distances[i], above_max);
        let b: u8 = below_byte(below_distances[i], below_max);
        if b == 128 {
            combined_bytes.push(a);
        } else {
            combined_bytes.push(b);
        }
        i = i + 1;
    }
    Ok(MonoFrame::new(combined_bytes, frame.width, frame.height))
}

/// The single-sided magnitude transform: per-pixel distance to the nearest
/// above-threshold pixel, normalized, inverted and scaled to the full byte
/// range. A zero-area frame is rejected.
pub fn magnitude_sdf(frame: &MonoFrame) -> (r: Result<MonoFrame, ImplError>)
    requires
        frame.well_formed(),
    ensures
        r is Err <==> frame.width == 0 || frame.height == 0,
        r is Err ==> r->Err_0 is EmptyDistanceField,
        r matches Ok(out) ==> {
            &&& out.width == frame.width
            &&& out.height == frame.height
            &&& out.well_formed()
            &&& forall|i: int|
                0 <= i < out.data@.len() ==> out.data@[i] as int == magnitude_sdf_byte(
                    frame.data@, frame.width as nat, frame.height as nat, i)
        },
{
    if frame.width == 0 || frame.height == 0 {
        return Err(ImplError::EmptyDistanceField);
    }
    let w: usize = frame.width as usize;
    let h: usize = frame.height as usize;
    proof {
        assert(w * h >= 1 && w * h <= usize::MAX) by (nonlinear_arith)
            requires
                1 <= w <= u16::MAX && 1 <= h <= u16::MAX,
        ;
    }
    let above_distances: Vec<usize> = chebyshev_sdf_above(&frame.data, w, h, 127);
    let above_max: usize = vec_max(&above_distances);
    let ghost af: Seq<int> = chebyshev_field(frame.data@, w as nat, h as nat, 127, true);
    proof {
        lemma_seq_max_props(af);
        assert forall|j: int| 0 <= j < above_distances@.len() implies above_distances@[j]
            <= above_max by {
            assert(ints(above_distances@)[j] == above_distances@[j] as int);
        }
    }
    let total: usize = w * h;
    let mut bytes: Vec<u8> = Vec::new();
    let mut i: usize = 0;
    while i < total
        invariant
            i <= total,
            total == w * h,
            w == frame.width,
            h == frame.height,
            1 <= w && 1 <= h,
            above_distances@.len() == total,
            af == chebyshev_field(frame.data@, w as nat, h as nat, 127, true),
            ints(above_distances@) == af,
            above_max as int == seq_max(af),
            above_max <= w + h,
            forall|j: int| 0 <= j < total ==> above_distances@[j] <= above_max,
            bytes@.len() == i,
            forall|j: int| 0 <= j < i ==> bytes@[j] as int == magnitude_sdf_byte(frame.data@,
                w as nat, h as nat, j),
        decreases total - i,
    {
        let v: u8 = magnitude_byte(above_distances[i], above_max);
        bytes.push(v);
        i = i + 1;
    }
    Ok(MonoFrame::new(bytes, frame.width, frame.height))
}

pub open spec fn all_zero(f: Seq<int>) -> bool {
    forall|i: int| 0 <= i < f.len() ==> f[i] == 0
}

proof fn lemma_relaxed_cell_zero(f: Seq<int>, w: nat, x: nat, y: nat)
    requires
        all_zero(f),
        x < w,
        y * w + x < f.len(),
    ensures
        relaxed_cell(f, w, x, y) == 0,
{
    let i = y * w + x;
    assert(y != 0 ==> i >= w + x) by (nonlinear_arith)
        requires
            i == y * w + x,
    ;
    assert(f[i as int] == 0);
}

proof fn lemma_fwd_row_zero(f: Seq<int>, w: nat, y: nat, x: nat)
    requires
        all_zero(f),
        x <= w,
        y * w + w <= f.len(),
    ensures
        fwd_row(f, w, y, x).len() == f.len(),
        all_zero(fwd_row(f, w, y, x)),
    decreases x,
{
    if x != 0 {
        lemma_fwd_row_zero(f, w, y, (x - 1) as nat);
        let g = fwd_row(f, w, y, (x - 1) as nat);
        lemma_relaxed_cell_zero(g, w, (x - 1) as nat, y);
    }
}

proof fn lemma_fwd_rows_zero(f: Seq<int>, w: nat, y: nat)
    requires
        all_zero(f),
        y * w <= f.len(),
    ensures
        fwd_rows(f, w, y).len() == f.len(),
        all_zero(fwd_rows(f, w, y)),
    decreases y,
{
    if y != 0 {
        assert((y - 1) * w + w == y * w) by (nonlinear_arith);
        lemma_fwd_rows_zero(f, w, (y - 1) as nat);
        lemma_fwd_row_zero(fwd_rows(f, w, (y - 1) as nat), w, (y - 1) as nat, w);
    }
}

/// When every pixel is a seed of the requested side, the whole two-pass
/// field is zero.
proof fn lemma_chebyshev_all_seed(pixels: Seq<u8>, w: nat, h: nat, threshold: u8, above: bool)
    requires
        pixels.len() == w * h,
        forall|i: int|
            0 <= i < pixels.len() ==> if above {
                pixels[i] > threshold
            } else {
                pixels[i] <= threshold
            },
    ensures
        chebyshev_field(pixels, w, h, threshold, above).len() == w * h,
        all_zero(chebyshev_field(pixels, w, h, threshold, above)),
{
    let s = seeded_field(pixels, w, h, threshold, above);
    assert(all_zero(s));
    assert(h * w == w * h) by (nonlinear_arith);
    lemma_fwd_rows_zero(s, w, h);
    let p1 = forward_pass(s, w, h);
    assert(all_zero(p1.reverse())) by {
        assert forall|i: int| 0 <= i < p1.reverse().len() implies p1.reverse()[i] == 0 by {
            assert(p1.reverse()[i] == p1[p1.len() - 1 - i]);
        }
    }
    lemma_fwd_rows_zero(p1.reverse(), w, h);
    let p2 = forward_pass(p1.reverse(), w, h);
    assert(all_zero(p2.reverse())) by {
        assert forall|i: int| 0 <= i < p2.reverse().len() implies p2.reverse()[i] == 0 by {
            assert(p2.reverse()[i] == p2[p2.len() - 1 - i]);
        }
    }
}

proof fn lemma_seq_max_zero(s: Seq<int>)
    requires
        all_zero(s),
    ensures
        seq_max(s) == 0,
{
    if s.len() > 0 {
        lemma_seq_max_props(s);
        let i = choose|i: int| 0 <= i < s.len() && s[i] == seq_max(s);
        assert(s[i] == 0);
    }
}

proof fn lemma_fwd_row_bounds(f: Seq<int>, w: nat, y: nat, x: nat)
    requires
        x <= w,
        y * w + w <= f.len(),
        forall|i: int| 0 <= i < f.len() ==> f[i] >= 0,
    ensures
        fwd_row(f, w, y, x).len() == f.len(),
        forall|i: int|
            0 <= i < f.len() ==> spec_min(f[i], 1) <= #[trigger] fwd_row(f, w, y, x)[i] <= f[i],
    decreases x,
{
    if x != 0 {
        lemma_fwd_row_bounds(f, w, y, (x - 1) as nat);
        let g = fwd_row(f, w, y, (x - 1) as nat);
        let cx = (x - 1) as nat;
        let i = y * w + cx;
        assert(y != 0 ==> i >= w + cx) by (nonlinear_arith)
            requires
                i == y * w + cx,
        ;
        assert(spec_min(f[i as int], 1) <= relaxed_cell(g, w, cx, y) <= g[i as int]);
    }
}

proof fn lemma_fwd_rows_bounds(f: Seq<int>, w: nat, y: nat)
    requires
        y * w <= f.len(),
        forall|i: int| 0 <= i < f.len() ==> f[i] >= 0,
    ensures
        fwd_rows(f, w, y).len() == f.len(),
        forall|i: int|
            0 <= i < f.len() ==> spec_min(f[i], 1) <= #[trigger] fwd_rows(f, w, y)[i] <= f[i],
    decreases y,
{
    if y != 0 {
        assert((y - 1) * w + w == y * w) by (nonlinear_arith);
        lemma_fwd_rows_bounds(f, w, (y - 1) as nat);
        lemma_fwd_row_bounds(fwd_rows(f, w, (y - 1) as nat), w, (y - 1) as nat, w);
    }
}

/// A pixel's two-pass field value is zero exactly when the pixel is a
/// seed of the requested side: relaxation never lowers a cell past its
/// neighbors' costs plus one.
pub proof fn lemma_chebyshev_zero_iff_seed(
    pixels: Seq<u8>,
    w: nat,
    h: nat,
    threshold: u8,
    above: bool,
)
    requires
        pixels.len() == w * h,
        w >= 1,
        h >= 1,
    ensures
        chebyshev_field(pixels, w, h, threshold, above).len() == w * h,
        forall|i: int|
            0 <= i < w * h ==> (#[trigger] chebyshev_field(pixels, w, h, threshold, above)[i] == 0
                <==> (if above {
                pixels[i] > threshold
            } else {
                pixels[i] <= threshold
            })),
{
    let s = seeded_field(pixels, w, h, threshold, above);
    let len = s.len() as int;
    assert(h * w == w * h) by (nonlinear_arith);
    lemma_fwd_rows_bounds(s, w, h);
    let p1 = forward_pass(s, w, h);
    let p1r = p1.reverse();
    assert(forall|i: int| 0 <= i < len ==> #[trigger] p1r[i] == p1[len - 1 - i]);
    assert(forall|i: int| 0 <= i < len ==> #[trigger] p1r[i] >= 0);
    lemma_fwd_rows_bounds(p1r, w, h);
    let p2 = forward_pass(p1r, w, h);
    let cf = p2.reverse();
    assert forall|i: int| 0 <= i < len implies spec_min(s[i], 1) <= #[trigger] cf[i] <= s[i] by {
        assert(cf[i] == p2[len - 1 - i]);
        assert(spec_min(p1r[len - 1 - i], 1) <= p2[len - 1 - i] <= p1r[len - 1 - i]);
        assert(p1r[len - 1 - i] == p1[i]);
        assert(spec_min(s[i], 1) <= p1[i] <= s[i]);
    }
    assert forall|i: int| 0 <= i < w * h implies (#[trigger] chebyshev_field(pixels, w, h,
        threshold, above)[i] == 0 <==> (if above {
        pixels[i] > threshold
    } else {
        pixels[i] <= threshold
    })) by {
        if (above && pixels[i] > threshold) || (!above && pixels[i] <= threshold) {
            assert(s[i] == 0);
        } else {
            assert(s[i] == (w + h) as int);
            assert(spec_min(s[i], 1) == 1);
        }
    }
}

/// For a fully-above-threshold frame every pixel is already a seed, so the
/// single-sided magnitude transform is uniformly 255.
pub proof fn lemma_magnitude_all_above(pixels: Seq<u8>, w: nat, h: nat)
    requires
        pixels.len() == w * h,
        forall|i: int| 0 <= i < pixels.len() ==> pixels[i] > 127,
    ensures
        forall|i: int| 0 <= i < w * h ==> magnitude_sdf_byte(pixels, w, h, i) == 255,
{
    lemma_chebyshev_all_seed(pixels, w, h, 127, true);
    lemma_seq_max_zero(chebyshev_field(pixels, w, h, 127, true));
}

/// For a fully-below-threshold frame every pixel is a below-side seed, so
/// the dual-sided signed transform is uniformly 255, the deepest "below"
/// encoding.
pub proof fn lemma_dual_all_below(pixels: Seq<u8>, w: nat, h: nat)
    requires
        pixels.len() == w * h,
        forall|i: int| 0 <= i < pixels.len() ==> pixels[i] <= 127,
    ensures
        forall|i: int| 0 <= i < w * h ==> dual_sdf_byte(pixels, w, h, i) == 255,
{
    lemma_chebyshev_all_seed(pixels, w, h, 127, false);
    lemma_seq_max_zero(chebyshev_field(pixels, w, h, 127, false));
}

} // verus!
