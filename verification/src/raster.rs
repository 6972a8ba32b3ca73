//! Owned RGBA rasters, the PNG codec boundary, and the 2x2 merge that the
//! pyramid builder uses.
//!
//! A [`Raster`] holds its pixels as plain values, so everything that reads
//! or writes them is verified; only PNG encoding, PNG decoding and the
//! resampling filters are calls into the raster library behind trusted
//! wrappers.

use vstd::prelude::*;

use crate::color::calculate::Rgba;

verus! {

use vstd::pervasive::VecAdditionalExecFns;

/// The resampling filter used when a merged canvas is scaled back down.
#[derive(Clone, Copy, Debug)]
pub enum Filter {
    Nearest,
    Triangle,
    Gaussian,
    CatmullRom,
    Lanczos3,
}

impl Filter {
    /// A stable numeric code for each filter, used to name resampling
    /// results.
    pub open spec fn code(self) -> int {
        match self {
            Filter::Nearest => 0,
            Filter::Triangle => 1,
            Filter::Gaussian => 2,
            Filter::CatmullRom => 3,
            Filter::Lanczos3 => 4,
        }
    }
}

/// An owned raster: `width * height` RGBA pixels in row-major order.
pub struct Raster {
    pub width: u32,
    pub height: u32,
    pub pixels: Vec<Rgba>,
}

impl Raster {
    /// A usable raster has one pixel per cell.
    pub open spec fn wf(self) -> bool {
        self.pixels@.len() == self.width * self.height
    }

    /// A fresh, fully transparent raster.
    #[verifier::loop_isolation(false)]
    pub fn new(width: u32, height: u32) -> (r: Self)
        requires
            width * height <= usize::MAX,
        ensures
            r.wf(),
            r.width == width,
            r.height == height,
            forall|i: int|
                0 <= i < r.pixels@.len() ==> (#[trigger] r.pixels@[i]) == (Rgba {
                    r: 0,
                    g: 0,
                    b: 0,
                    a: 0,
                }),
    {
        let n = (width as usize) * (height as usize);
        let mut pixels: Vec<Rgba> = Vec::new();
        let mut i: usize = 0;
        while i < n
            invariant
                0 <= i <= n,
                pixels@.len() == i,
                forall|j: int|
                    0 <= j < i ==> (#[trigger] pixels@[j]) == (Rgba { r: 0, g: 0, b: 0, a: 0 }),
            decreases n - i,
        {
            pixels.push(Rgba { r: 0, g: 0, b: 0, a: 0 });
            i = i + 1;
        }
        Raster { width, height, pixels }
    }

    /// The pixel at `(x, y)`.
    pub fn get_pixel(&self, x: u32, y: u32) -> (c: Rgba)
        requires
            self.wf(),
            x < self.width,
            y < self.height,
        ensures
            c == self.pixels@[y * self.width + x],
    {
        let n = self.pixels.len();
        proof {
            lemma_rowmajor_index(self.width as int, self.height as int, x as int, y as int);
        }
        let i = (y as usize) * (self.width as usize) + (x as usize);
        self.pixels[i]
    }

    /// Overwrites the pixel at `(x, y)`.
    pub fn put_pixel(&mut self, x: u32, y: u32, c: Rgba)
        requires
            old(self).wf(),
            x < old(self).width,
            y < old(self).height,
        ensures
            final(self).wf(),
            final(self).width == old(self).width,
            final(self).height == old(self).height,
            final(self).pixels@ == old(self).pixels@.update(y * old(self).width + x, c),
    {
        let n = self.pixels.len();
        proof {
            lemma_rowmajor_index(self.width as int, self.height as int, x as int, y as int);
        }
        let i = (y as usize) * (self.width as usize) + (x as usize);
        self.pixels.set(i, c);
    }

    /// Whether every pixel is fully opaque.
    #[verifier::loop_isolation(false)]
    pub fn is_fully_opaque(&self) -> (r: bool)
        ensures
            r == forall|i: int| 0 <= i < self.pixels@.len() ==> (#[trigger] self.pixels@[i]).a == 255,
    {
        let mut i: usize = 0;
        while i < self.pixels.len()
            invariant
                0 <= i <= self.pixels@.len(),
                forall|j: int| 0 <= j < i ==> (#[trigger] self.pixels@[j]).a == 255,
            decreases self.pixels@.len() - i,
        {
            if self.pixels[i].a < 255 {
                return false;
            }
            i = i + 1;
        }
        true
    }
}

/// Row-major indexing stays inside the pixel buffer.
pub proof fn lemma_rowmajor_index(w: int, h: int, x: int, y: int)
    requires
        0 <= x < w,
        0 <= y < h,
    ensures
        0 <= y * w + x < w * h,
        y * w <= y * w + x,
{
    assert(0 <= y * w + x < w * h) by (nonlinear_arith)
        requires
            0 <= x < w,
            0 <= y < h,
    ;
}

/// The pixel a flattened RGBA byte sequence holds at index `i`.
pub open spec fn px_at(d: Seq<u8>, i: int) -> Rgba {
    Rgba { r: d[4 * i], g: d[4 * i + 1], b: d[4 * i + 2], a: d[4 * i + 3] }
}

/// The pixel sequence of a flattened RGBA byte sequence.
pub open spec fn px_seq(d: Seq<u8>) -> Seq<Rgba> {
    Seq::new(d.len() / 4, |i: int| px_at(d, i))
}

/// The flattened bytes of a pixel sequence, 4 bytes per pixel.
pub open spec fn px_bytes(s: Seq<Rgba>) -> Seq<u8>
    decreases s.len(),
{
    if s.len() == 0 {
        Seq::empty()
    } else {
        px_bytes(s.drop_last()) + seq![s.last().r, s.last().g, s.last().b, s.last().a]
    }
}

/// Flattened pixels take 4 bytes each, and unflattening recovers them.
pub proof fn lemma_px_bytes_len(s: Seq<Rgba>)
    ensures
        px_bytes(s).len() == 4 * s.len(),
        forall|i: int| 0 <= i < s.len() ==> px_at(px_bytes(s), i) == s[i],
    decreases s.len(),
{
    if s.len() > 0 {
        lemma_px_bytes_len(s.drop_last());
        assert forall|i: int| 0 <= i < s.len() implies px_at(px_bytes(s), i) == s[i] by {
            if i < s.len() - 1 {
                assert(px_at(px_bytes(s.drop_last()), i) == s.drop_last()[i]);
                assert(px_bytes(s)[4 * i] == px_bytes(s.drop_last())[4 * i]);
                assert(px_bytes(s)[4 * i + 1] == px_bytes(s.drop_last())[4 * i + 1]);
                assert(px_bytes(s)[4 * i + 2] == px_bytes(s.drop_last())[4 * i + 2]);
                assert(px_bytes(s)[4 * i + 3] == px_bytes(s.drop_last())[4 * i + 3]);
            }
        }
    }
}

/// Flattens pixels into RGBA bytes.
#[verifier::loop_isolation(false)]
pub fn flatten_pixels(s: &Vec<Rgba>) -> (r: Vec<u8>)
    ensures
        r@ == px_bytes(s@),
        r@.len() == 4 * s@.len(),
{
    proof {
        lemma_px_bytes_len(s@);
    }
    let mut r: Vec<u8> = Vec::new();
    let mut i: usize = 0;
    while i < s.len()
        invariant
            0 <= i <= s@.len(),
            r@ =~= px_bytes(s@.take(i as int)),
            r@.len() == 4 * i,
        decreases s@.len() - i,
    {
        let c = s[i];
        r.push(c.r);
        r.push(c.g);
        r.push(c.b);
        r.push(c.a);
        proof {
            assert(s@.take(i + 1).drop_last() =~= s@.take(i as int));
            assert(s@.take(i + 1).last() == s@[i as int]);
            assert(r@ =~= px_bytes(s@.take(i + 1)));
        }
        i = i + 1;
    }
    proof {
        assert(s@.take(i as int) =~= s@);
    }
    r
}

/// Unflattens RGBA bytes into pixels.
#[verifier::loop_isolation(false)]
pub fn unflatten_pixels(d: &Vec<u8>) -> (r: Vec<Rgba>)
    requires
        d@.len() % 4 == 0,
    ensures
        r@ == px_seq(d@),
{
    let n = d.len() / 4;
    let mut r: Vec<Rgba> = Vec::new();
    let mut i: usize = 0;
    while i < n
        invariant
            0 <= i <= n,
            n == d@.len() / 4,
            d@.len() % 4 == 0,
            r@.len() == i,
            forall|j: int| 0 <= j < i ==> (#[trigger] r@[j]) == px_at(d@, j),
        decreases n - i,
    {
        let c = Rgba { r: d[4 * i], g: d[4 * i + 1], b: d[4 * i + 2], a: d[4 * i + 3] };
        r.push(c);
        i = i + 1;
    }
    proof {
        assert(r@ =~= px_seq(d@));
    }
    r
}

/// What the raster library's PNG decoder makes of a byte stream: the
/// dimensions and flattened pixels when it is a PNG with an 8-bit RGBA
/// layout, nothing otherwise. It depends on the bytes alone.
pub uninterp spec fn png_decode_rgba(bytes: Seq<u8>) -> Option<(u32, u32, Seq<u8>)>;

/// What the raster library's PNG encoder emits for flattened RGBA pixels.
pub uninterp spec fn png_encode_rgba(w: u32, h: u32, data: Seq<u8>) -> Option<Seq<u8>>;

/// What the raster library's PNG encoder emits for flattened RGB pixels.
pub uninterp spec fn png_encode_rgb(w: u32, h: u32, data: Seq<u8>) -> Option<Seq<u8>>;

/// What the raster library's resampler produces for a flattened RGBA image
/// and a filter code; it depends on its arguments alone.
pub uninterp spec fn resize_px(w: u32, h: u32, data: Seq<u8>, nw: u32, nh: u32, filter: int) -> Seq<
    u8,
>;

/// Relies on `image::load_from_memory_with_format` with the PNG format:
/// decoding is a function of the bytes; a decoded 8-bit RGBA image carries
/// exactly `4 * width * height` raw bytes.
#[verifier::external_body]
fn decode_png_rgba(bytes: &[u8]) -> (r: Option<(u32, u32, Vec<u8>)>)
    ensures
        match r {
            Some(t) => png_decode_rgba(bytes@) == Some((t.0, t.1, t.2@)) && t.2@.len() == 4 * t.0
                * t.1,
            None => png_decode_rgba(bytes@) is None,
        },
{
    match image::load_from_memory_with_format(bytes, image::ImageFormat::Png) {
        Ok(image::DynamicImage::ImageRgba8(img)) => {
            let w = img.width();
            let h = img.height();
            Some((w, h, img.into_raw()))
        },
        _ => None,
    }
}

/// Relies on `image::DynamicImage::write_to` with the PNG format over an
/// 8-bit RGBA buffer: encoding is a function of the dimensions and bytes.
#[verifier::external_body]
fn encode_rgba(w: u32, h: u32, data: &Vec<u8>) -> (r: Option<Vec<u8>>)
    requires
        data@.len() == 4 * w * h,
    ensures
        match r {
            Some(v) => png_encode_rgba(w, h, data@) == Some(v@),
            None => png_encode_rgba(w, h, data@) is None,
        },
{
    let img = image::RgbaImage::from_raw(w, h, data.clone())?;
    let mut buf = std::io::Cursor::new(Vec::new());
    image::DynamicImage::ImageRgba8(img).write_to(&mut buf, image::ImageFormat::Png).ok()?;
    Some(buf.into_inner())
}

/// Relies on `image::DynamicImage::write_to` with the PNG format over an
/// 8-bit RGB buffer.
#[verifier::external_body]
fn encode_rgb(w: u32, h: u32, data: &Vec<u8>) -> (r: Option<Vec<u8>>)
    requires
        data@.len() == 3 * w * h,
    ensures
        match r {
            Some(v) => png_encode_rgb(w, h, data@) == Some(v@),
            None => png_encode_rgb(w, h, data@) is None,
        },
{
    let img = image::RgbImage::from_raw(w, h, data.clone())?;
    let mut buf = std::io::Cursor::new(Vec::new());
    image::DynamicImage::ImageRgb8(img).write_to(&mut buf, image::ImageFormat::Png).ok()?;
    Some(buf.into_inner())
}

/// Relies on `image::imageops::resize`: resampling is a function of the
/// image, the target dimensions and the filter; the result holds one pixel
/// per target cell, and the nearest filter only selects existing pixels.
#[verifier::external_body]
fn resize_rgba(w: u32, h: u32, data: &Vec<u8>, nw: u32, nh: u32, filter: Filter) -> (r: Vec<u8>)
    requires
        data@.len() == 4 * w * h,
        w >= 1,
        h >= 1,
        nw >= 1,
        nh >= 1,
        4 * nw * nh <= usize::MAX,
    ensures
        r@.len() == 4 * nw * nh,
        r@ == resize_px(w, h, data@, nw, nh, filter.code()),
        filter is Nearest ==> forall|i: int|
            #![trigger px_at(r@, i)]
            0 <= i < nw * nh ==> exists|j: int|
                0 <= j < w * h && px_at(r@, i) == (#[trigger] px_at(data@, j)),
{
    let ft = match filter {
        Filter::Nearest => image::imageops::FilterType::Nearest,
        Filter::Triangle => image::imageops::FilterType::Triangle,
        Filter::Gaussian => image::imageops::FilterType::Gaussian,
        Filter::CatmullRom => image::imageops::FilterType::CatmullRom,
        Filter::Lanczos3 => image::imageops::FilterType::Lanczos3,
    };
    let img = image::RgbaImage::from_raw(w, h, data.clone()).unwrap();
    image::imageops::resize(&img, nw, nh, ft).into_raw()
}

/// The flattened bytes of a pixel sequence with the alpha channel dropped,
/// 3 bytes per pixel.
pub open spec fn rgb_bytes(s: Seq<Rgba>) -> Seq<u8>
    decreases s.len(),
{
    if s.len() == 0 {
        Seq::empty()
    } else {
        rgb_bytes(s.drop_last()) + seq![s.last().r, s.last().g, s.last().b]
    }
}

/// Dropping alpha takes 3 bytes per pixel.
pub proof fn lemma_rgb_bytes_len(s: Seq<Rgba>)
    ensures
        rgb_bytes(s).len() == 3 * s.len(),
    decreases s.len(),
{
    if s.len() > 0 {
        lemma_rgb_bytes_len(s.drop_last());
    }
}

/// Flattens pixels into RGB bytes, dropping the alpha channel.
#[verifier::loop_isolation(false)]
pub fn flatten_rgb(s: &Vec<Rgba>) -> (r: Vec<u8>)
    ensures
        r@ == rgb_bytes(s@),
        r@.len() == 3 * s@.len(),
{
    proof {
        lemma_rgb_bytes_len(s@);
    }
    let mut r: Vec<u8> = Vec::new();
    let mut i: usize = 0;
    while i < s.len()
        invariant
            0 <= i <= s@.len(),
            r@ =~= rgb_bytes(s@.take(i as int)),
            r@.len() == 3 * i,
        decreases s@.len() - i,
    {
        let c = s[i];
        r.push(c.r);
        r.push(c.g);
        r.push(c.b);
        proof {
            assert(s@.take(i + 1).drop_last() =~= s@.take(i as int));
            assert(s@.take(i + 1).last() == s@[i as int]);
            assert(r@ =~= rgb_bytes(s@.take(i + 1)));
        }
        i = i + 1;
    }
    proof {
        assert(s@.take(i as int) =~= s@);
    }
    r
}

/// A lazily loaded tile raster: a filesystem reference not read yet, a
/// decoded raster, or the marker for an absent tile.
pub enum LoadableImage {
    Unloaded(String),
    Image(Raster),
    Empty,
}

/// Whether `r` is what decoding `bytes` into a tile raster yields: a raster
/// only for a square 8-bit RGBA PNG, the absence marker otherwise.
pub open spec fn is_from_png(r: LoadableImage, bytes: Seq<u8>) -> bool {
    match png_decode_rgba(bytes) {
        Some(t) => if t.0 == t.1 {
            r matches LoadableImage::Image(img) && img.width == t.0 && img.height == t.1
                && img.pixels@ == px_seq(t.2)
        } else {
            r is Empty
        },
        None => r is Empty,
    }
}

impl Default for LoadableImage {
    /// The absence marker.
    fn default() -> (r: Self)
        ensures
            r is Empty,
    {
        LoadableImage::Empty
    }
}

impl LoadableImage {
    /// A not-yet-loaded reference to a file.
    pub fn new(path: String) -> (r: Self)
        ensures
            r matches LoadableImage::Unloaded(p) && p@ == path@,
    {
        LoadableImage::Unloaded(path)
    }

    /// Whether a decoded raster is present.
    pub fn is_image(&self) -> (r: bool)
        ensures
            r == (*self is Image),
    {
        match self {
            LoadableImage::Image(_) => true,
            _ => false,
        }
    }

    /// Every raster this value can hold is well-formed.
    pub open spec fn wf(self) -> bool {
        self matches LoadableImage::Image(img) ==> img.wf()
    }

    /// Resolves an unloaded reference against the file's bytes, when the
    /// caller could read them: a loaded or absent value stays untouched.
    pub fn ensure(&mut self, file: Option<Vec<u8>>)
        ensures
            *old(self) is Unloaded ==> (match file {
                Some(b) => is_from_png(*final(self), b@),
                None => *final(self) is Empty,
            }),
            !(*old(self) is Unloaded) ==> *final(self) == *old(self),
    {
        match self {
            LoadableImage::Unloaded(_) => {
                let img = match file {
                    Some(b) => Self::from_png_bytes(b.as_slice()),
                    None => LoadableImage::Empty,
                };
                *self = img;
            },
            _ => {
            },
        }
    }

    /// Decodes PNG bytes, as [`is_from_png`] describes; any failure or a
    /// non-square image degrades to the absence marker.
    pub fn from_png_bytes(bytes: &[u8]) -> (r: Self)
        ensures
            is_from_png(r, bytes@),
            r.wf(),
    {
        match decode_png_rgba(bytes) {
            Some((w, h, data)) => {
                if w != h {
                    LoadableImage::Empty
                } else {
                    proof {
                        assert(data@.len() == 4 * (w as int * h as int) && data@.len() % 4 == 0
                            && data@.len() / 4 == w as int * h as int) by (nonlinear_arith)
                            requires
                                data@.len() == 4 * w * h,
                        ;
                    }
                    let pixels = unflatten_pixels(&data);
                    proof {
                        assert(pixels@.len() == w * h);
                    }
                    LoadableImage::Image(Raster { width: w, height: h, pixels })
                }
            },
            None => LoadableImage::Empty,
        }
    }

    /// The PNG bytes of a held raster: RGB when every pixel is fully opaque
    /// (the alpha channel stores nothing), RGBA otherwise; `None` when the
    /// value holds no raster or encoding fails.
    pub fn png_bytes(&self) -> (r: Option<Vec<u8>>)
        requires
            self.wf(),
        ensures
            match *self {
                LoadableImage::Image(img) => ({
                    let enc = if forall|i: int|
                        0 <= i < img.pixels@.len() ==> (#[trigger] img.pixels@[i]).a == 255 {
                        png_encode_rgb(img.width, img.height, rgb_bytes(img.pixels@))
                    } else {
                        png_encode_rgba(img.width, img.height, px_bytes(img.pixels@))
                    };
                    match r {
                        Some(v) => enc == Some(v@),
                        None => enc is None,
                    }
                }),
                _ => r is None,
            },
    {
        match self {
            LoadableImage::Image(img) => {
                proof {
                    assert(3 * (img.width as int * img.height as int) == 3 * img.width
                        * img.height && 4 * (img.width as int * img.height as int) == 4 * img.width
                        * img.height) by (nonlinear_arith);
                }
                if img.is_fully_opaque() {
                    let data = flatten_rgb(&img.pixels);
                    encode_rgb(img.width, img.height, &data)
                } else {
                    let data = flatten_pixels(&img.pixels);
                    proof {
                        lemma_px_bytes_len(img.pixels@);
                    }
                    encode_rgba(img.width, img.height, &data)
                }
            },
            _ => None,
        }
    }
}

/// One image pasted over a canvas at an offset, clipped to the canvas, as
/// the raster library's `replace` does: inside the pasted window the image's
/// pixel, outside it the canvas pixel.
pub open spec fn spec_paste(
    cv: Seq<Rgba>,
    cw: int,
    img: Raster,
    ox: int,
    oy: int,
) -> Seq<Rgba> {
    Seq::new(
        cv.len(),
        |idx: int|
            {
                let xx = idx % cw;
                let yy = idx / cw;
                if ox <= xx < ox + img.width && oy <= yy < oy + img.height {
                    img.pixels@[(yy - oy) * img.width + (xx - ox)]
                } else {
                    cv[idx]
                }
            },
    )
}

/// Pastes `img` into `canvas` at `(ox, oy)`, clipping at the canvas edges.
#[verifier::loop_isolation(false)]
pub fn paste_into(canvas: &mut Raster, img: &Raster, ox: u32, oy: u32)
    requires
        old(canvas).wf(),
        img.wf(),
        old(canvas).width >= 1,
        ox <= old(canvas).width,
        oy <= old(canvas).height,
    ensures
        final(canvas).wf(),
        final(canvas).width == old(canvas).width,
        final(canvas).height == old(canvas).height,
        final(canvas).pixels@ == spec_paste(
            old(canvas).pixels@,
            old(canvas).width as int,
            *img,
            ox as int,
            oy as int,
        ),
{
    let ghost cv0 = canvas.pixels@;
    let ghost cw = canvas.width as int;
    let ghost ch = canvas.height as int;
    let ghost target = spec_paste(cv0, cw, *img, ox as int, oy as int);
    let xmax: u32 = if img.width <= canvas.width - ox {
        img.width
    } else {
        canvas.width - ox
    };
    let ymax: u32 = if img.height <= canvas.height - oy {
        img.height
    } else {
        canvas.height - oy
    };
    let mut yy: u32 = 0;
    proof {
        lemma_paste_frame(cv0, cw, old(canvas).height as int, *img, ox as int, oy as int);
    }
    while yy < ymax
        invariant
            0 <= yy <= img.height,
            canvas.wf(),
            canvas.width == old(canvas).width,
            canvas.height == old(canvas).height,
            canvas.pixels@.len() == cv0.len(),
            forall|idx: int|
                0 <= idx < cv0.len() ==> #[trigger] canvas.pixels@[idx] == (if oy <= idx / cw < oy
                    + yy && ox <= idx % cw < ox + img.width {
                    target[idx]
                } else {
                    cv0[idx]
                }),
        decreases ymax - yy,
    {
        let mut xx: u32 = 0;
        while xx < xmax
            invariant
                0 <= yy < ymax <= img.height,
                0 <= xx <= xmax <= img.width,
                oy + ymax <= ch,
                ox + xmax <= cw,
                canvas.wf(),
                canvas.width == old(canvas).width,
                canvas.height == old(canvas).height,
                canvas.pixels@.len() == cv0.len(),
                forall|idx: int|
                    0 <= idx < cv0.len() ==> #[trigger] canvas.pixels@[idx] == (if (oy <= idx / cw
                        < oy + yy && ox <= idx % cw < ox + img.width) || (idx / cw == oy + yy && ox
                        <= idx % cw < ox + xx) {
                        target[idx]
                    } else {
                        cv0[idx]
                    }),
            decreases xmax - xx,
        {
            let c = img.get_pixel(xx, yy);
            let cx = ox + xx;
            let cy = oy + yy;
            let ghost idx0 = cy as int * cw + cx as int;
            proof {
                vstd::arithmetic::div_mod::lemma_fundamental_div_mod_converse(
                    idx0,
                    cw,
                    cy as int,
                    cx as int,
                );
                lemma_rowmajor_index(cw, old(canvas).height as int, cx as int, cy as int);
                assert(target[idx0] == img.pixels@[yy as int * img.width + xx as int]);
            }
            let ghost before = canvas.pixels@;
            canvas.put_pixel(cx, cy, c);
            proof {
                assert(canvas.pixels@ == before.update(idx0, c));
                assert forall|idx: int| 0 <= idx < cv0.len() implies #[trigger] canvas.pixels@[idx]
                    == (if (oy <= idx / cw < oy + yy && ox <= idx % cw < ox + img.width) || (idx
                    / cw == oy + yy && ox <= idx % cw < ox + xx + 1) {
                    target[idx]
                } else {
                    cv0[idx]
                }) by {
                    vstd::arithmetic::div_mod::lemma_fundamental_div_mod(idx, cw);
                    if idx == idx0 {
                        assert(canvas.pixels@[idx] == c);
                        assert(target[idx0] == c);
                    } else {
                        assert(canvas.pixels@[idx] == before[idx]);
                        if oy <= idx / cw < oy + yy && ox <= idx % cw < ox + img.width {
                            assert(before[idx] == target[idx]);
                        } else if idx / cw == oy + yy && ox <= idx % cw < ox + xx + 1 {
                            assert(idx == cw * (idx / cw) + idx % cw);
                            assert(idx / cw == cy as int);
                            assert(cw * (cy as int) == (cy as int) * cw) by (nonlinear_arith);
                            assert(idx == (cy as int) * cw + idx % cw);
                            assert(idx % cw != cx as int);
                            assert(idx % cw != ox + xx);
                            assert(before[idx] == target[idx]);
                        } else {
                            assert(before[idx] == cv0[idx]);
                        }
                    }
                }
            }
            xx = xx + 1;
        }
        proof {
            assert forall|idx: int| 0 <= idx < cv0.len() implies #[trigger] canvas.pixels@[idx]
                == (if oy <= idx / cw < oy + (yy + 1) && ox <= idx % cw < ox + img.width {
                target[idx]
            } else {
                cv0[idx]
            }) by {
                vstd::arithmetic::div_mod::lemma_fundamental_div_mod(idx, cw);
            }
        }
        yy = yy + 1;
    }
    proof {
        assert forall|idx: int| 0 <= idx < cv0.len() implies #[trigger] canvas.pixels@[idx]
            == target[idx] by {
            vstd::arithmetic::div_mod::lemma_fundamental_div_mod(idx, cw);
            assert(idx / cw < ch) by (nonlinear_arith)
                requires
                    0 <= idx < cw * ch,
                    cw >= 1,
            ;
        }
        assert(canvas.pixels@ =~= target);
    }
}

/// The tile side a merge works at: the dimensions of the first present
/// raster among the four quadrants, in visiting order.
pub open spec fn spec_merge_dims(
    tl: LoadableImage,
    tr: LoadableImage,
    bl: LoadableImage,
    br: LoadableImage,
) -> (u32, u32) {
    if tl is Image {
        (tl->Image_0.width, tl->Image_0.height)
    } else if tr is Image {
        (tr->Image_0.width, tr->Image_0.height)
    } else if bl is Image {
        (bl->Image_0.width, bl->Image_0.height)
    } else if br is Image {
        (br->Image_0.width, br->Image_0.height)
    } else {
        (0, 0)
    }
}

/// The merge canvas: a transparent double-size canvas with each present
/// quadrant pasted at its offset, in visiting order.
pub open spec fn spec_merge_canvas(
    tl: LoadableImage,
    tr: LoadableImage,
    bl: LoadableImage,
    br: LoadableImage,
    w: int,
    h: int,
) -> Seq<Rgba> {
    let c0 = Seq::new((4 * w * h) as nat, |i: int| Rgba { r: 0, g: 0, b: 0, a: 0 });
    let c1 = match tl {
        LoadableImage::Image(img) => spec_paste(c0, 2 * w, img, 0, 0),
        _ => c0,
    };
    let c2 = match tr {
        LoadableImage::Image(img) => spec_paste(c1, 2 * w, img, w, 0),
        _ => c1,
    };
    let c3 = match bl {
        LoadableImage::Image(img) => spec_paste(c2, 2 * w, img, 0, h),
        _ => c2,
    };
    match br {
        LoadableImage::Image(img) => spec_paste(c3, 2 * w, img, w, h),
        _ => c3,
    }
}

impl LoadableImage {
    /// Merges four quadrant rasters into one tile of the coarser scale: the
    /// present quadrants are pasted into a double-size canvas which is then
    /// resampled back down to one tile; with no quadrant present, or a
    /// degenerate first quadrant, the result is absent.
    pub fn merge(
        topleft: &LoadableImage,
        topright: &LoadableImage,
        bottomleft: &LoadableImage,
        bottomright: &LoadableImage,
        filter: Filter,
    ) -> (r: LoadableImage)
        requires
            topleft.wf(),
            topright.wf(),
            bottomleft.wf(),
            bottomright.wf(),
            16 * spec_merge_dims(*topleft, *topright, *bottomleft, *bottomright).0 * spec_merge_dims(
                *topleft,
                *topright,
                *bottomleft,
                *bottomright,
            ).1 <= usize::MAX,
            spec_merge_dims(*topleft, *topright, *bottomleft, *bottomright).0 <= 0x7FFF_FFFF,
            spec_merge_dims(*topleft, *topright, *bottomleft, *bottomright).1 <= 0x7FFF_FFFF,
        ensures
            ({
                let (w, h) = spec_merge_dims(*topleft, *topright, *bottomleft, *bottomright);
                let canvas = spec_merge_canvas(
                    *topleft,
                    *topright,
                    *bottomleft,
                    *bottomright,
                    w as int,
                    h as int,
                );
                &&& (w == 0 || h == 0) ==> r is Empty
                &&& w > 0 && h > 0 ==> (r matches LoadableImage::Image(out) && out.wf()
                    && out.width == w && out.height == h && out.pixels@ == px_seq(
                    resize_px((2 * w) as u32, (2 * h) as u32, px_bytes(canvas), w, h, filter.code()),
                ) && (filter is Nearest ==> forall|i: int|
                    0 <= i < out.pixels@.len() ==> exists|j: int|
                        0 <= j < canvas.len() && (#[trigger] out.pixels@[i]) == canvas[j]))
            }),
    {
        let ghost dims = spec_merge_dims(*topleft, *topright, *bottomleft, *bottomright);
        let mut w: u32 = 0;
        let mut h: u32 = 0;
        match topleft {
            LoadableImage::Image(img) => {
                w = img.width;
                h = img.height;
            },
            _ => {
                match topright {
                    LoadableImage::Image(img) => {
                        w = img.width;
                        h = img.height;
                    },
                    _ => {
                        match bottomleft {
                            LoadableImage::Image(img) => {
                                w = img.width;
                                h = img.height;
                            },
                            _ => {
                                match bottomright {
                                    LoadableImage::Image(img) => {
                                        w = img.width;
                                        h = img.height;
                                    },
                                    _ => {
                                    },
                                }
                            },
                        }
                    },
                }
            },
        }
        proof {
            assert((w, h) == dims);
        }
        if w == 0 || h == 0 {
            return LoadableImage::Empty;
        }
        proof {
            assert(4 * (w as int * h as int) <= usize::MAX && (2 * w as int) * (2 * h as int) == 4
                * (w as int * h as int) && (2 * w as int) * (2 * h as int) == 4 * w as int * h as int
                && 4 * ((2 * w as int) * (2 * h as int)) == 16 * w as int
                * h as int) by (nonlinear_arith)
                requires
                    16 * w as int * h as int <= usize::MAX,
                    w >= 1,
                    h >= 1,
            ;
        }
        let mut canvas = Raster::new(2 * w, 2 * h);
        proof {
            assert(canvas.pixels@ =~= Seq::new(
                (4 * w as int * h as int) as nat,
                |i: int| Rgba { r: 0, g: 0, b: 0, a: 0 },
            ));
        }
        match topleft {
            LoadableImage::Image(img) => {
                paste_into(&mut canvas, img, 0, 0);
            },
            _ => {
            },
        }
        match topright {
            LoadableImage::Image(img) => {
                paste_into(&mut canvas, img, w, 0);
            },
            _ => {
            },
        }
        match bottomleft {
            LoadableImage::Image(img) => {
                paste_into(&mut canvas, img, 0, h);
            },
            _ => {
            },
        }
        match bottomright {
            LoadableImage::Image(img) => {
                paste_into(&mut canvas, img, w, h);
            },
            _ => {
            },
        }
        proof {
            assert(canvas.pixels@ == spec_merge_canvas(
                *topleft,
                *topright,
                *bottomleft,
                *bottomright,
                w as int,
                h as int,
            ));
        }
        let data = flatten_pixels(&canvas.pixels);
        proof {
            assert(data@.len() == 4 * ((2 * w) as int * (2 * h) as int) && data@.len() == 4 * (2
                * w as int) * (2 * h as int)) by (nonlinear_arith)
                requires
                    data@.len() == 4 * canvas.pixels@.len(),
                    canvas.pixels@.len() == (2 * w as int) * (2 * h as int),
            ;
        }
        let out_bytes = resize_rgba(2 * w, 2 * h, &data, w, h, filter);
        proof {
            assert(out_bytes@.len() == 4 * (w as int * h as int) && 4 * (w as int * h as int) == (w
                as int * h as int) * 4) by (nonlinear_arith)
                requires
                    out_bytes@.len() == 4 * (w as int) * (h as int),
            ;
            vstd::arithmetic::div_mod::lemma_mod_multiples_basic(w as int * h as int, 4);
            vstd::arithmetic::div_mod::lemma_div_multiples_vanish(w as int * h as int, 4);
        }
        let pixels = unflatten_pixels(&out_bytes);
        let out = Raster { width: w, height: h, pixels };
        proof {
            lemma_px_bytes_len(canvas.pixels@);
            assert forall|i: int| 0 <= i < out.pixels@.len() implies out.pixels@[i] == px_at(
                out_bytes@,
                i,
            ) by {}
            if filter is Nearest {
                assert forall|i: int| 0 <= i < out.pixels@.len() implies exists|j: int|
                    0 <= j < canvas.pixels@.len() && (#[trigger] out.pixels@[i])
                        == canvas.pixels@[j] by {
                    assert(0 <= i < w as int * h as int);
                    assert((2 * w as int) * (2 * h as int) == 4 * (w as int * h as int)) by (nonlinear_arith);
                    let j = choose|j: int|
                        0 <= j < (2 * w) as int * (2 * h) as int && px_at(out_bytes@, i) == (
                        #[trigger] px_at(data@, j));
                    assert(px_at(data@, j) == canvas.pixels@[j]);
                }
            }
        }
        LoadableImage::Image(out)
    }
}

/// A canvas built from four same-size quadrants of one uniform color is that
/// color everywhere.
pub proof fn lemma_merge_canvas_uniform(
    tl: LoadableImage,
    tr: LoadableImage,
    bl: LoadableImage,
    br: LoadableImage,
    w: int,
    h: int,
    c: Rgba,
)
    requires
        w >= 1,
        h >= 1,
        tl matches LoadableImage::Image(img) && img.wf() && img.width == w && img.height == h
            && (forall|i: int| 0 <= i < img.pixels@.len() ==> (#[trigger] img.pixels@[i]) == c),
        tr matches LoadableImage::Image(img) && img.wf() && img.width == w && img.height == h
            && (forall|i: int| 0 <= i < img.pixels@.len() ==> (#[trigger] img.pixels@[i]) == c),
        bl matches LoadableImage::Image(img) && img.wf() && img.width == w && img.height == h
            && (forall|i: int| 0 <= i < img.pixels@.len() ==> (#[trigger] img.pixels@[i]) == c),
        br matches LoadableImage::Image(img) && img.wf() && img.width == w && img.height == h
            && (forall|i: int| 0 <= i < img.pixels@.len() ==> (#[trigger] img.pixels@[i]) == c),
    ensures
        forall|j: int|
            0 <= j < spec_merge_canvas(tl, tr, bl, br, w, h).len() ==> (
            #[trigger] spec_merge_canvas(tl, tr, bl, br, w, h)[j]) == c,
{
    let canvas = spec_merge_canvas(tl, tr, bl, br, w, h);
    let cw = 2 * w;
    assert forall|j: int| 0 <= j < canvas.len() implies canvas[j] == c by {
        vstd::arithmetic::div_mod::lemma_fundamental_div_mod(j, cw);
        assert(0 <= j % cw < cw);
        assert(0 <= j / cw < 2 * h) by (nonlinear_arith)
            requires
                0 <= j < 4 * w * h,
                j == cw * (j / cw) + j % cw,
                0 <= j % cw < cw,
                cw == 2 * w,
                w >= 1,
                h >= 1,
        ;
        let col = j % cw;
        let row = j / cw;
        let img = br->Image_0;
        if col >= w && row >= h {
            lemma_rowmajor_index(w, h, col - w, row - h);
        } else if col < w && row >= h {
            lemma_rowmajor_index(w, h, col, row - h);
        } else if col >= w {
            lemma_rowmajor_index(w, h, col - w, row);
        } else {
            lemma_rowmajor_index(w, h, col, row);
        }
    }
}

/// A raster whose pixels are all selected out of a uniform canvas is itself
/// uniform: with the nearest filter, merging four same-color quadrants can
/// only reproduce that color.
pub proof fn lemma_nearest_selection_uniform(out: Seq<Rgba>, canvas: Seq<Rgba>, c: Rgba)
    requires
        forall|i: int|
            0 <= i < out.len() ==> exists|j: int| 0 <= j < canvas.len() && (#[trigger] out[i])
                == canvas[j],
        forall|j: int| 0 <= j < canvas.len() ==> (#[trigger] canvas[j]) == c,
    ensures
        forall|i: int| 0 <= i < out.len() ==> (#[trigger] out[i]) == c,
{
    assert forall|i: int| 0 <= i < out.len() implies (#[trigger] out[i]) == c by {
        let j = choose|j: int| 0 <= j < canvas.len() && out[i] == canvas[j];
        assert(canvas[j] == c);
    }
}

/// Outside the pasted window, `spec_paste` leaves the canvas untouched; and
/// every index decomposes uniquely into its row and column.
proof fn lemma_paste_frame(cv: Seq<Rgba>, cw: int, ch: int, img: Raster, ox: int, oy: int)
    requires
        cw > 0,
    ensures
        forall|idx: int|
            0 <= idx < cv.len() ==> #[trigger] spec_paste(cv, cw, img, ox, oy)[idx] == (if ox <= idx
                % cw < ox + img.width && oy <= idx / cw < oy + img.height {
                img.pixels@[(idx / cw - oy) * img.width + (idx % cw - ox)]
            } else {
                cv[idx]
            }),
{
}

} // verus!

