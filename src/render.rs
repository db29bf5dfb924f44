use image::ImageEncoder;
use vstd::prelude::*;

verus! {

/// The fixed-point unit of a normalised sample: a sample `n` stands for
/// `n / SAMPLE_ONE` of the way from the layer's minimum to its maximum.
pub const SAMPLE_ONE: u32 = 65536;

/// A colour with straight alpha.
#[derive(Debug, Clone, Copy, PartialEq, Eq, Structural)]
pub struct Rgba {
    pub red: u8,
    pub green: u8,
    pub blue: u8,
    pub alpha: u8,
}

/// The colour of no-data pixels: fully transparent.
pub open spec fn transparent() -> Rgba {
    Rgba { red: 0, green: 0, blue: 0, alpha: 0 }
}

/// A colour stop placed in the normalised sample range: `position` is where the
/// stop's value falls between the first and the last stop, in units of
/// `1 / SAMPLE_ONE` (0 for the first stop, `SAMPLE_ONE` for the last).
#[derive(Debug, Clone, Copy, PartialEq, Eq, Structural)]
pub struct PlacedStop {
    pub position: i64,
    pub colour: Rgba,
}

/// How a layer's samples become colours.
#[derive(Debug, Clone)]
pub enum Palette {
    /// A built-in gradient, sampled at evenly spaced points from 0 to 1.
    Gradient(Vec<Rgba>),
    /// Grey levels from black at the minimum to white at the maximum.
    Grayscale,
    /// Piecewise-linear interpolation between colour stops, in file order.
    Stops(Vec<PlacedStop>),
}

/// The first segment `[stops[k], stops[k + 1]]`, from `k` on, that holds `n`.
pub open spec fn segment_from(stops: Seq<PlacedStop>, n: int, k: int) -> Option<int>
    decreases stops.len() - k,
{
    if k < 0 || k + 1 >= stops.len() {
        None
    } else if stops[k].position <= n && n <= stops[k + 1].position {
        Some(k)
    } else {
        segment_from(stops, n, k + 1)
    }
}

/// A channel between two stops at `pa < pb`, for a sample `pa <= n <= pb`,
/// rounded down.
pub open spec fn lerp_channel(ca: u8, cb: u8, pa: int, pb: int, n: int) -> u8 {
    ((ca * (pb - n) + cb * (n - pa)) / (pb - pa)) as u8
}

/// The colour of sample `n` under colour stops: interpolated in the first
/// segment that holds it; transparent when no segment holds it, and when that
/// segment has no width.
pub open spec fn stops_colour(stops: Seq<PlacedStop>, n: int) -> Rgba {
    match segment_from(stops, n, 0) {
        None => transparent(),
        Some(k) => {
            let a = stops[k];
            let b = stops[k + 1];
            if a.position == b.position {
                transparent()
            } else {
                Rgba {
                    red: lerp_channel(a.colour.red, b.colour.red, a.position as int, b.position as int, n),
                    green: lerp_channel(a.colour.green, b.colour.green, a.position as int, b.position as int, n),
                    blue: lerp_channel(a.colour.blue, b.colour.blue, a.position as int, b.position as int, n),
                    alpha: lerp_channel(a.colour.alpha, b.colour.alpha, a.position as int, b.position as int, n),
                }
            }
        },
    }
}

/// The grey level of sample `n`, rounded down.
pub open spec fn grey_colour(n: int) -> Rgba {
    let l = (n * 255 / SAMPLE_ONE as int) as u8;
    Rgba { red: l, green: l, blue: l, alpha: 255 }
}

/// The gradient sample nearest below `n`.
pub open spec fn gradient_colour(table: Seq<Rgba>, n: int) -> Rgba {
    table[n * (table.len() - 1) / SAMPLE_ONE as int]
}

/// Whether a palette can colour samples: a gradient is sampled at 1 to
/// `SAMPLE_ONE + 1` points.
pub open spec fn palette_ok(p: Palette) -> bool {
    match p {
        Palette::Gradient(t) => 1 <= t@.len() <= SAMPLE_ONE + 1,
        _ => true,
    }
}

/// The colour of one pixel: no-data (`None`) is transparent.
pub open spec fn pixel_colour(p: Palette, sample: Option<u32>) -> Rgba {
    match sample {
        None => transparent(),
        Some(n) => match p {
            Palette::Gradient(t) => gradient_colour(t@, n as int),
            Palette::Grayscale => grey_colour(n as int),
            Palette::Stops(s) => stops_colour(s@, n as int),
        },
    }
}

/// Whether every sample lies in `[0, SAMPLE_ONE]`.
pub open spec fn samples_ok(samples: Seq<Option<u32>>) -> bool {
    forall|i: int| 0 <= i < samples.len() ==> (#[trigger] samples[i] matches Some(n) ==> n <= SAMPLE_ONE)
}

/// The RGBA bytes of the pixels, four per pixel, in the pixels' order.
pub open spec fn rgba_bytes(p: Palette, samples: Seq<Option<u32>>) -> Seq<u8> {
    Seq::new(
        (4 * samples.len()) as nat,
        |i: int|
            {
                let c = pixel_colour(p, samples[i / 4]);
                if i % 4 == 0 {
                    c.red
                } else if i % 4 == 1 {
                    c.green
                } else if i % 4 == 2 {
                    c.blue
                } else {
                    c.alpha
                }
            },
    )
}

/// The samples of a `width`-wide tile in row-major order with the pixels whose
/// column or row lies outside the data's envelope set to no-data.
pub open spec fn clipped(
    samples: Seq<Option<u32>>,
    width: int,
    cols: Seq<bool>,
    rows: Seq<bool>,
) -> Seq<Option<u32>> {
    Seq::new(
        samples.len(),
        |i: int|
            if cols[i % width] && rows[i / width] {
                samples[i]
            } else {
                None
            },
    )
}

/// Sets to no-data every pixel of a `width` x `height` tile, stored row by row,
/// whose column `x` has `cols[x]` false or whose row `y` has `rows[y]` false:
/// those pixel centres lie outside the envelope of the layer's data.
pub fn clip_to_envelope(
    samples: &mut Vec<Option<u32>>,
    width: usize,
    height: usize,
    cols: &Vec<bool>,
    rows: &Vec<bool>,
)
    requires
        old(samples)@.len() == width * height,
        cols@.len() == width,
        rows@.len() == height,
    ensures
        final(samples)@ == clipped(old(samples)@, width as int, cols@, rows@),
{
    let ghost orig = samples@;
    let total = samples.len();
    let mut y: usize = 0;
    while y < height
        invariant
            total == orig.len(),
            orig.len() == width * height,
            samples@.len() == orig.len(),
            cols@.len() == width,
            rows@.len() == height,
            y <= height,
            forall|i: int| 0 <= i < y * width ==> samples@[i] == #[trigger] clipped(orig, width as int, cols@, rows@)[i],
            forall|i: int| y * width <= i < orig.len() ==> samples@[i] == #[trigger] orig[i],
        decreases height - y,
    {
        let mut x: usize = 0;
        proof { lemma_mul_step(y as int, height as int, width as int); }
        while x < width
            invariant
                orig.len() == width * height,
                samples@.len() == orig.len(),
                cols@.len() == width,
                rows@.len() == height,
                y < height,
                x <= width,
                (y + 1) * width <= width * height,
                forall|i: int| 0 <= i < y * width + x ==> samples@[i] == #[trigger] clipped(orig, width as int, cols@, rows@)[i],
                forall|i: int| y * width + x <= i < orig.len() ==> samples@[i] == #[trigger] orig[i],
                total == orig.len(),
            decreases width - x,
        {
            proof {
                lemma_row_col(y as int, x as int, width as int);
                assert((y + 1) * width == y * width + width) by (nonlinear_arith);
            }
            let i = y * width + x;
            if !cols[x] || !rows[y] {
                samples.set(i, None);
            }
            x = x + 1;
        }
        y = y + 1;
        assert(y * width == (y - 1) * width + width) by (nonlinear_arith);
    }
    assert(samples@ =~= clipped(orig, width as int, cols@, rows@));
}

proof fn lemma_mul_step(y: int, h: int, w: int)
    requires
        0 <= y < h,
        0 <= w,
    ensures
        (y + 1) * w <= w * h,
{
    assert((y + 1) * w <= h * w) by (nonlinear_arith)
        requires
            y + 1 <= h,
            0 <= w,
    ;
    assert(h * w == w * h) by (nonlinear_arith);
}

proof fn lemma_row_col(y: int, x: int, w: int)
    requires
        0 <= y,
        0 <= x < w,
    ensures
        (y * w + x) % w == x,
        (y * w + x) / w == y,
{
    vstd::arithmetic::div_mod::lemma_fundamental_div_mod_converse(y * w + x, w, y, x);
}

/// The colour of one sample.
fn colour_of(p: &Palette, sample: Option<u32>) -> (r: Rgba)
    requires
        palette_ok(*p),
        sample matches Some(n) ==> n <= SAMPLE_ONE,
    ensures
        r == pixel_colour(*p, sample),
{
    match sample {
        None => Rgba { red: 0, green: 0, blue: 0, alpha: 0 },
        Some(n) => match p {
            Palette::Gradient(t) => {
                let last = (t.len() - 1) as u64;
                proof {
                    let ni = n as int;
                    let li = last as int;
                    assert(ni * li <= 65536 * li) by (nonlinear_arith)
                        requires
                            ni <= 65536,
                            li >= 0,
                    ;
                    vstd::arithmetic::div_mod::lemma_div_is_ordered(ni * li, 65536int * li, 65536int);
                    vstd::arithmetic::div_mod::lemma_div_multiples_vanish(li, 65536int);
                }
                let k = (n as u64) * last / (SAMPLE_ONE as u64);
                t[k as usize]
            },
            Palette::Grayscale => {
                proof {
                    let ni = n as int;
                    assert(ni * 255 <= 65536 * 255) by (nonlinear_arith)
                        requires
                            ni <= 65536,
                    ;
                    vstd::arithmetic::div_mod::lemma_div_is_ordered(ni * 255, 65536int * 255, 65536int);
                }
                let l = ((n as u64) * 255 / (SAMPLE_ONE as u64)) as u8;
                Rgba { red: l, green: l, blue: l, alpha: 255 }
            },
            Palette::Stops(s) => stop_colour(s, n),
        },
    }
}

/// The colour of sample `n` under colour stops.
fn stop_colour(stops: &Vec<PlacedStop>, n: u32) -> (r: Rgba)
    ensures
        r == stops_colour(stops@, n as int),
{
    let len = stops.len();
    if len < 2 {
        assert(segment_from(stops@, n as int, 0) is None);
        return Rgba { red: 0, green: 0, blue: 0, alpha: 0 };
    }
    let mut k: usize = 0;
    while k + 1 < len
        invariant
            len == stops@.len(),
            k + 1 <= len,
            segment_from(stops@, n as int, 0) == segment_from(stops@, n as int, k as int),
        decreases len - k,
    {
        let a = stops[k];
        let b = stops[k + 1];
        if a.position <= n as i64 && n as i64 <= b.position {
            if a.position == b.position {
                return Rgba { red: 0, green: 0, blue: 0, alpha: 0 };
            }
            let pa = a.position as i128;
            let pb = b.position as i128;
            let m = n as i128;
            return Rgba {
                red: lerp(a.colour.red, b.colour.red, pa, pb, m),
                green: lerp(a.colour.green, b.colour.green, pa, pb, m),
                blue: lerp(a.colour.blue, b.colour.blue, pa, pb, m),
                alpha: lerp(a.colour.alpha, b.colour.alpha, pa, pb, m),
            };
        }
        k = k + 1;
    }
    Rgba { red: 0, green: 0, blue: 0, alpha: 0 }
}

/// One channel between two stops.
fn lerp(ca: u8, cb: u8, pa: i128, pb: i128, n: i128) -> (r: u8)
    requires
        pa <= n <= pb,
        pa < pb,
        -0x8000_0000_0000_0000 <= pa,
        pb <= 0x7fff_ffff_ffff_ffff,
    ensures
        r == lerp_channel(ca, cb, pa as int, pb as int, n as int),
{
    let w = pb - pa;
    proof {
        let x = pb - n;
        let y = n - pa;
        assert((ca as int) * x <= 255 * x && 0 <= (ca as int) * x) by (nonlinear_arith)
            requires
                ca <= 255,
                x >= 0,
        ;
        assert((cb as int) * y <= 255 * y && 0 <= (cb as int) * y) by (nonlinear_arith)
            requires
                cb <= 255,
                y >= 0,
        ;
    }
    let num = (ca as i128) * (pb - n) + (cb as i128) * (n - pa);
    proof {
        vstd::arithmetic::div_mod::lemma_div_is_ordered(num as int, 255 * (w as int), w as int);
        vstd::arithmetic::div_mod::lemma_div_multiples_vanish(255int, w as int);
        vstd::arithmetic::div_mod::lemma_div_pos_is_pos(num as int, w as int);
    }
    (num / w) as u8
}

/// Colours the samples of a tile, stored row by row, into RGBA bytes: four per
/// pixel, in the same order.
pub fn colourise(samples: &Vec<Option<u32>>, palette: &Palette) -> (r: Vec<u8>)
    requires
        palette_ok(*palette),
        samples_ok(samples@),
        4 * samples@.len() <= usize::MAX,
    ensures
        r@ == rgba_bytes(*palette, samples@),
{
    let mut out: Vec<u8> = Vec::new();
    let mut i: usize = 0;
    while i < samples.len()
        invariant
            palette_ok(*palette),
            samples_ok(samples@),
            i <= samples@.len(),
            out@.len() == 4 * i,
            forall|j: int| 0 <= j < 4 * i ==> out@[j] == #[trigger] rgba_bytes(*palette, samples@)[j],
        decreases samples@.len() - i,
    {
        let c = colour_of(palette, samples[i]);
        out.push(c.red);
        out.push(c.green);
        out.push(c.blue);
        out.push(c.alpha);
        proof {
            assert forall|j: int| 4 * i <= j < 4 * i + 4 implies out@[j] == #[trigger] rgba_bytes(
                *palette,
                samples@,
            )[j] by {
                assert(j / 4 == i) by (nonlinear_arith)
                    requires
                        4 * i <= j < 4 * i + 4,
                ;
                assert(j % 4 == j - 4 * i) by (nonlinear_arith)
                    requires
                        4 * i <= j < 4 * i + 4,
                ;
            }
        }
        i = i + 1;
    }
    assert(out@ =~= rgba_bytes(*palette, samples@));
    out
}

/// The PNG file that `image`'s encoder writes for an RGBA8 image of the given
/// size; it depends on the pixels and the size alone.
pub uninterp spec fn png_rgba8_of(width: u32, height: u32, rgba: Seq<u8>) -> Seq<u8>;

/// Relies on `image::codecs::png::PngEncoder::write_image` with
/// `ExtendedColorType::Rgba8`: it writes the PNG file of the image into the
/// vector, and fails only for an image of zero width or height. It panics unless
/// the buffer holds four bytes per pixel.
#[verifier::external_body]
fn encode_png(rgba: &Vec<u8>, width: u32, height: u32) -> (r: Option<Vec<u8>>)
    requires
        rgba@.len() == 4 * width * height,
    ensures
        r matches Some(bytes) ==> bytes@ == png_rgba8_of(width, height, rgba@),
        width > 0 && height > 0 ==> r is Some,
{
    let mut out: Vec<u8> = Vec::new();
    let encoder = image::codecs::png::PngEncoder::new(std::io::Cursor::new(&mut out));
    match encoder.write_image(rgba, width, height, image::ExtendedColorType::Rgba8) {
        Ok(()) => Some(out),
        Err(_) => None,
    }
}

/// Why a tile could not be drawn.
#[derive(Debug, Clone, Copy, PartialEq, Eq, Structural)]
pub enum RenderError {
    /// The tile has no pixels.
    EmptyTile,
    /// The PNG encoder failed.
    EncodeFailed,
}

/// Draws a `width` x `height` tile from its normalised samples, stored row by
/// row: pixels whose column or row lies outside the layer's envelope become
/// no-data, no-data pixels become transparent, the others take the palette's
/// colour, and the image is encoded as an RGBA8 PNG.
pub fn render_tile(
    samples: Vec<Option<u32>>,
    width: u32,
    height: u32,
    cols: &Vec<bool>,
    rows: &Vec<bool>,
    palette: &Palette,
) -> (r: Result<Vec<u8>, RenderError>)
    requires
        samples@.len() == width * height,
        cols@.len() == width,
        rows@.len() == height,
        samples_ok(samples@),
        palette_ok(*palette),
        4 * samples@.len() <= usize::MAX,
    ensures
        width == 0 || height == 0 <==> r == Err::<Vec<u8>, RenderError>(RenderError::EmptyTile),
        width > 0 && height > 0 ==> r is Ok,
        r matches Ok(png) ==> png@ == png_rgba8_of(
            width,
            height,
            rgba_bytes(*palette, clipped(samples@, width as int, cols@, rows@)),
        ),
        r matches Err(e) ==> e == RenderError::EmptyTile || e == RenderError::EncodeFailed,
{
    if width == 0 || height == 0 {
        return Err(RenderError::EmptyTile);
    }
    let mut samples = samples;
    let ghost orig = samples@;
    clip_to_envelope(&mut samples, width as usize, height as usize, cols, rows);
    proof {
        assert forall|i: int| 0 <= i < samples@.len() implies (#[trigger] samples@[i] matches Some(n)
            ==> n <= SAMPLE_ONE) by {
            assert(samples@[i] == clipped(orig, width as int, cols@, rows@)[i]);
            assert(orig[i] matches Some(n) ==> n <= SAMPLE_ONE);
        }
    }
    let rgba = colourise(&samples, palette);
    assert(4 * (width * height) == 4 * width * height) by (nonlinear_arith);
    match encode_png(&rgba, width, height) {
        Some(png) => Ok(png),
        None => Err(RenderError::EncodeFailed),
    }
}

/// No-data is transparent whatever the palette; a grey pixel that holds data is
/// opaque, and so is a gradient pixel when the gradient is opaque.
pub proof fn lemma_nodata_transparent(p: Palette, n: u32)
    requires
        palette_ok(p),
        n <= SAMPLE_ONE,
    ensures
        pixel_colour(p, None).alpha == 0,
        p is Grayscale ==> pixel_colour(p, Some(n)).alpha == 255,
        (p matches Palette::Gradient(t) && forall|k: int| 0 <= k < t@.len() ==> (#[trigger] t@[k]).alpha
            == 255) ==> pixel_colour(p, Some(n)).alpha == 255,
{
    if let Palette::Gradient(t) = p {
        let li = t@.len() - 1;
        let ni = n as int;
        assert(ni * li <= 65536 * li) by (nonlinear_arith)
            requires
                ni <= 65536,
                li >= 0,
        ;
        vstd::arithmetic::div_mod::lemma_div_is_ordered(ni * li, 65536int * li, 65536int);
        vstd::arithmetic::div_mod::lemma_div_multiples_vanish(li, 65536int);
        vstd::arithmetic::div_mod::lemma_div_pos_is_pos(ni * li, 65536int);
    }
}

/// Stops whose positions rise strictly from 0 to `SAMPLE_ONE`: they cover every
/// sample.
pub open spec fn stops_cover(stops: Seq<PlacedStop>) -> bool {
    &&& stops.len() >= 2
    &&& stops[0].position == 0
    &&& stops.last().position == SAMPLE_ONE
    &&& forall|k: int| 0 <= k < stops.len() - 1 ==> #[trigger] stops[k].position < stops[k + 1].position
}

proof fn lemma_segment_found(stops: Seq<PlacedStop>, n: int, k: int)
    requires
        stops_cover(stops),
        0 <= k < stops.len() - 1,
        stops[k].position <= n <= SAMPLE_ONE,
    ensures
        segment_from(stops, n, k) matches Some(j) && k <= j < stops.len() - 1
            && stops[j].position <= n <= stops[j + 1].position,
    decreases stops.len() - k,
{
    if !(n <= stops[k + 1].position) {
        if k + 1 == stops.len() - 1 {
            assert(stops[k + 1] == stops.last());
        } else {
            lemma_segment_found(stops, n, k + 1);
        }
    }
}

/// With stops that cover the samples and are all opaque, every sample that holds
/// data is drawn opaque: only no-data is transparent.
pub proof fn lemma_opaque_stops(stops: Seq<PlacedStop>, n: u32)
    requires
        stops_cover(stops),
        forall|k: int| 0 <= k < stops.len() ==> (#[trigger] stops[k]).colour.alpha == 255,
        n <= SAMPLE_ONE,
    ensures
        stops_colour(stops, n as int).alpha == 255,
{
    lemma_segment_found(stops, n as int, 0);
    let j = segment_from(stops, n as int, 0)->Some_0;
    let pa = stops[j].position as int;
    let pb = stops[j + 1].position as int;
    assert(255 * (pb - n) + 255 * (n - pa) == 255 * (pb - pa)) by (nonlinear_arith);
    vstd::arithmetic::div_mod::lemma_div_multiples_vanish(255int, pb - pa);
}

/// Between two stops at either end of the range, the sample halfway between
/// them takes, in each channel, the mean of the two colours rounded down.
pub proof fn lemma_stop_midpoint(c0: Rgba, c1: Rgba)
    ensures
        ({
            let stops = seq![
                PlacedStop { position: 0, colour: c0 },
                PlacedStop { position: SAMPLE_ONE as i64, colour: c1 },
            ];
            let c = stops_colour(stops, (SAMPLE_ONE / 2) as int);
            &&& c.red == (c0.red + c1.red) / 2
            &&& c.green == (c0.green + c1.green) / 2
            &&& c.blue == (c0.blue + c1.blue) / 2
            &&& c.alpha == (c0.alpha + c1.alpha) / 2
        }),
{
    let stops = seq![
        PlacedStop { position: 0, colour: c0 },
        PlacedStop { position: SAMPLE_ONE as i64, colour: c1 },
    ];
    assert(segment_from(stops, 32768, 0) == Some(0int));
    assert forall|a: u8, b: u8| #[trigger] lerp_channel(a, b, 0, 65536, 32768) == (a + b) / 2 by {
        assert(a * (65536 - 32768) + b * (32768 - 0) == (a + b) * 32768) by (nonlinear_arith);
        vstd::arithmetic::div_mod::lemma_div_denominator((a + b) as int, 2, 32768);
        assert((a + b) * 32768 / 65536 == (a + b) / 2) by (nonlinear_arith);
    }
}

} // verus!
