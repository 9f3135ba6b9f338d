//! The raster of a tile: its colours, its pixel buffer, its encoding as an
//! image, and the response that carries it.

use vstd::prelude::*;
use vstd::string::StrSliceExecFns;
use vstd::utf8::encode_utf8;

verus! {

/// The width of a tile, in pixels.
pub const TILE_WIDTH: u32 = 256;

/// The height of a tile, in pixels.
pub const TILE_HEIGHT: u32 = 256;

/// The number of bytes in the pixel buffer of a tile: three for each pixel.
pub const TILE_BYTES: usize = 196608;

/// The number of bits in each of the three channels of a pixel.
pub const CHANNEL_BITS: u8 = 8;

/// The zoom level up to which a tile has no detail at all.
pub const BASE_ZOOM: u32 = 1;

/// The number of octaves of noise that are summed at a zoom level: one for
/// each level above the base zoom.
pub open spec fn octaves_at(zoom: u32) -> nat {
    if zoom <= BASE_ZOOM {
        0
    } else {
        (zoom - BASE_ZOOM) as nat
    }
}

/// The number of octaves of noise that are summed at a zoom level. There is
/// none at the levels zero and one, where every height is the middle height.
pub fn octave_count(zoom: u32) -> (count: u32)
    ensures
        count as nat == octaves_at(zoom),
        zoom <= 1 ==> count == 0,
{
    if zoom <= BASE_ZOOM {
        0
    } else {
        zoom - BASE_ZOOM
    }
}

/// The band that a height falls in.
#[derive(Clone, Copy, Debug, PartialEq, Eq)]
pub enum HeightBand {
    /// Below the sea level.
    Ocean,
    /// Between the sea level and the snow line. The number is the place of
    /// the height within the band, from 0 at the sea to 255 at the snow line.
    Land(u8),
    /// Above the snow line.
    Snow,
}

/// The green channel of every land colour.
pub const LAND_GREEN: u8 = 200;

/// The colour of a band, as red, green and blue: one blue for the whole
/// ocean, one white for the snow, and on land a fixed green with as much
/// red and blue as the land is high.
pub open spec fn band_color(band: HeightBand) -> (u8, u8, u8) {
    match band {
        HeightBand::Ocean => (59, 131, 255),
        HeightBand::Land(level) => (level, LAND_GREEN, level),
        HeightBand::Snow => (241, 241, 241),
    }
}

/// The colour of a band.
pub fn color_for_band(band: HeightBand) -> (color: (u8, u8, u8))
    ensures
        color == band_color(band),
{
    match band {
        HeightBand::Ocean => (59, 131, 255),
        HeightBand::Land(level) => (level, LAND_GREEN, level),
        HeightBand::Snow => (241, 241, 241),
    }
}

/// Where the first byte of the pixel in column `x` of row `y` stands in a
/// pixel buffer.
pub open spec fn pixel_offset(x: int, y: int) -> int {
    (y * TILE_WIDTH + x) * 3
}

/// Where the first byte of the pixel in column `x` of row `y` stands.
pub fn pixel_index(x: u32, y: u32) -> (at: usize)
    requires
        x < TILE_WIDTH,
        y < TILE_HEIGHT,
    ensures
        at == pixel_offset(x as int, y as int),
        at + 2 < TILE_BYTES,
{
    let pixel: u32 = y * TILE_WIDTH + x;
    (pixel * 3) as usize
}

/// The pixels of one tile: rows from the top, in each row the columns from
/// the left, for each pixel its red, green and blue byte.
pub struct PixelBuffer {
    data: Vec<u8>,
}

impl PixelBuffer {
    /// The bytes of the buffer.
    pub closed spec fn view(&self) -> Seq<u8> {
        self.data@
    }

    /// The buffer has the bytes of a whole tile.
    pub open spec fn wf(&self) -> bool {
        self@.len() == TILE_BYTES
    }

    /// The colour of the pixel in column `x` of row `y`.
    pub open spec fn pixel(&self, x: int, y: int) -> (u8, u8, u8) {
        let at = pixel_offset(x, y);
        (self@[at], self@[at + 1], self@[at + 2])
    }

    /// A tile of which every pixel is black.
    pub fn new() -> (out: Self)
        ensures
            out.wf(),
            forall|i: int| 0 <= i < TILE_BYTES ==> out@[i] == 0,
    {
        PixelBuffer { data: vec![0u8; TILE_BYTES] }
    }

    /// Gives the pixel in column `x` of row `y` the colour `color`; every
    /// other pixel keeps its colour.
    pub fn put_pixel(&mut self, x: u32, y: u32, color: (u8, u8, u8))
        requires
            old(self).wf(),
            x < TILE_WIDTH,
            y < TILE_HEIGHT,
        ensures
            final(self).wf(),
            final(self)@ == old(self)@.update(pixel_offset(x as int, y as int), color.0).update(
                pixel_offset(x as int, y as int) + 1,
                color.1,
            ).update(pixel_offset(x as int, y as int) + 2, color.2),
            final(self).pixel(x as int, y as int) == color,
    {
        let at: usize = pixel_index(x, y);
        self.data.set(at, color.0);
        self.data.set(at + 1, color.1);
        self.data.set(at + 2, color.2);
    }

    /// The colour of the pixel in column `x` of row `y`.
    pub fn get_pixel(&self, x: u32, y: u32) -> (color: (u8, u8, u8))
        requires
            self.wf(),
            x < TILE_WIDTH,
            y < TILE_HEIGHT,
        ensures
            color == self.pixel(x as int, y as int),
    {
        let at: usize = pixel_index(x, y);
        (self.data[at], self.data[at + 1], self.data[at + 2])
    }
}

/// Writing one pixel leaves every other pixel as it was.
pub proof fn lemma_put_pixel_keeps_others(
    before: PixelBuffer,
    after: PixelBuffer,
    x: int,
    y: int,
    color: (u8, u8, u8),
    other_x: int,
    other_y: int,
)
    requires
        before.wf(),
        0 <= x < TILE_WIDTH,
        0 <= y < TILE_HEIGHT,
        0 <= other_x < TILE_WIDTH,
        0 <= other_y < TILE_HEIGHT,
        other_x != x || other_y != y,
        after@ == before@.update(pixel_offset(x, y), color.0).update(
            pixel_offset(x, y) + 1,
            color.1,
        ).update(pixel_offset(x, y) + 2, color.2),
    ensures
        after.pixel(other_x, other_y) == before.pixel(other_x, other_y),
{
}

/// The number of pixels in a tile.
pub const TILE_PIXELS: usize = 65536;

/// Whether `tile` is the tile that is painted from `bands`, which are given
/// row by row from the top, in each row from the left: every pixel has the
/// colour of its band.
pub open spec fn painted(tile: PixelBuffer, bands: Seq<HeightBand>) -> bool {
    &&& tile.wf()
    &&& forall|x: int, y: int|
        0 <= x < TILE_WIDTH && 0 <= y < TILE_HEIGHT ==> #[trigger] tile.pixel(x, y) == band_color(
            bands[y * TILE_WIDTH + x],
        )
}

/// The same bands give the same tile, byte for byte, and with it the same
/// outcome of the encoder: painting and encoding a tile twice gives the same
/// image.
pub proof fn lemma_same_bands_same_image(
    first: PixelBuffer,
    second: PixelBuffer,
    bands: Seq<HeightBand>,
)
    requires
        painted(first, bands),
        painted(second, bands),
    ensures
        first@ == second@,
        png_stream(first@, TILE_WIDTH, TILE_HEIGHT, CHANNEL_BITS) == png_stream(
            second@,
            TILE_WIDTH,
            TILE_HEIGHT,
            CHANNEL_BITS,
        ),
{
    assert forall|i: int| 0 <= i < TILE_BYTES implies first@[i] == second@[i] by {
        let pixel = i / 3;
        let x = pixel % (TILE_WIDTH as int);
        let y = pixel / (TILE_WIDTH as int);
        assert(pixel_offset(x, y) == pixel * 3);
        assert(first.pixel(x, y) == second.pixel(x, y));
    }
    assert(first@ =~= second@);
}

/// A tile without detail is one colour: where every height is the lowest
/// land, every pixel of the painted tile is the green (0, 200, 0).
pub proof fn lemma_flat_tile_is_green(tile: PixelBuffer, bands: Seq<HeightBand>)
    requires
        painted(tile, bands),
        bands.len() == TILE_PIXELS,
        forall|i: int| 0 <= i < bands.len() ==> bands[i] == HeightBand::Land(0),
    ensures
        forall|x: int, y: int|
            0 <= x < TILE_WIDTH && 0 <= y < TILE_HEIGHT ==> #[trigger] tile.pixel(x, y) == (
                0u8,
                200u8,
                0u8,
            ),
{
    assert forall|x: int, y: int| 0 <= x < TILE_WIDTH && 0 <= y < TILE_HEIGHT implies #[trigger] tile.pixel(
        x,
        y,
    ) == (0u8, 200u8, 0u8) by {
        assert(bands[y * TILE_WIDTH + x] == HeightBand::Land(0));
    }
}

/// Paints a tile from the bands of its heights, which are given row by row
/// from the top, in each row from the left: every pixel gets the colour of
/// its band.
pub fn paint_tile(bands: &Vec<HeightBand>) -> (out: PixelBuffer)
    requires
        bands.len() == TILE_PIXELS,
    ensures
        painted(out, bands@),
{
    let mut out = PixelBuffer::new();
    let mut y: u32 = 0;
    while y < TILE_HEIGHT
        invariant
            y <= TILE_HEIGHT,
            out.wf(),
            bands.len() == TILE_PIXELS,
            forall|px: int, py: int|
                0 <= px < TILE_WIDTH && 0 <= py < y ==> #[trigger] out.pixel(px, py) == band_color(
                    bands@[py * TILE_WIDTH + px],
                ),
        decreases TILE_HEIGHT - y,
    {
        let mut x: u32 = 0;
        while x < TILE_WIDTH
            invariant
                x <= TILE_WIDTH,
                y < TILE_HEIGHT,
                out.wf(),
                bands.len() == TILE_PIXELS,
                forall|px: int, py: int|
                    0 <= px < TILE_WIDTH && 0 <= py < y ==> #[trigger] out.pixel(px, py)
                        == band_color(bands@[py * TILE_WIDTH + px]),
                forall|px: int|
                    0 <= px < x ==> #[trigger] out.pixel(px, y as int) == band_color(
                        bands@[y * TILE_WIDTH + px],
                    ),
            decreases TILE_WIDTH - x,
        {
            let ghost before = out;
            let band = bands[(y * TILE_WIDTH + x) as usize];
            let color = color_for_band(band);
            out.put_pixel(x, y, color);
            proof {
                assert forall|px: int, py: int|
                    0 <= px < TILE_WIDTH && 0 <= py < y implies #[trigger] out.pixel(px, py)
                    == band_color(bands@[py * TILE_WIDTH + px]) by {
                    lemma_put_pixel_keeps_others(before, out, x as int, y as int, color, px, py);
                }
                assert forall|px: int| 0 <= px < x implies #[trigger] out.pixel(px, y as int)
                    == band_color(bands@[y * TILE_WIDTH + px]) by {
                    lemma_put_pixel_keeps_others(
                        before,
                        out,
                        x as int,
                        y as int,
                        color,
                        px,
                        y as int,
                    );
                }
            }
            x += 1;
        }
        y += 1;
    }
    out
}

/// Why a tile could not be encoded.
#[derive(Debug, PartialEq, Eq)]
pub struct EncodeError {
    /// What the encoder said.
    pub message: String,
}

/// What the PNG encoder of the `image` crate makes of a raster of `width`
/// by `height` pixels of three channels, `bits` bits each, given as `pixels`:
/// the bytes of the image, or nothing where the encoder gives up.
pub uninterp spec fn png_stream(pixels: Seq<u8>, width: u32, height: u32, bits: u8) -> Option<
    Seq<u8>,
>;

/// Encodes `pixels` with `image::png::PNGEncoder::encode`, as an RGB image,
/// into a fresh vector. An error of the encoder comes back as its message.
/// The encoder writes into memory and reads neither clock nor chance, so
/// the contract claims that the arguments alone decide whether it succeeds
/// and which bytes it gives; it does not claim that it succeeds.
#[verifier::external_body]
fn png_encode(pixels: &Vec<u8>, width: u32, height: u32, bits: u8) -> (out: Result<
    Vec<u8>,
    String,
>)
    requires
        width > 0,
        height > 0,
        bits == 8,
        pixels.len() == width * height * 3,
    ensures
        out is Ok <==> png_stream(pixels@, width, height, bits) is Some,
        out matches Ok(bytes) ==> Some(bytes@) == png_stream(pixels@, width, height, bits),
{
    let mut bytes = Vec::new();
    let encoder = image::png::PNGEncoder::new(&mut bytes);
    match encoder.encode(pixels, width, height, image::ColorType::RGB(bits)) {
        Ok(()) => Ok(bytes),
        Err(error) => Err(error.to_string()),
    }
}

/// What the encoding of a tile comes to, given what the encoder handed
/// back: its bytes, or its message as an `EncodeError`.
pub fn encoded_tile(outcome: Result<Vec<u8>, String>) -> (out: Result<Vec<u8>, EncodeError>)
    ensures
        match outcome {
            Ok(bytes) => out == Ok::<Vec<u8>, EncodeError>(bytes),
            Err(message) => out == Err::<Vec<u8>, EncodeError>(EncodeError { message }),
        },
{
    match outcome {
        Ok(bytes) => Ok(bytes),
        Err(message) => Err(EncodeError { message }),
    }
}

/// Encodes a tile as a PNG image. Whether the encoder succeeds, and with
/// which bytes, is decided by the pixels alone; a failure of the encoder is
/// handed on, not swallowed.
pub fn encode_png(buffer: &PixelBuffer) -> (out: Result<Vec<u8>, EncodeError>)
    requires
        buffer.wf(),
    ensures
        out is Ok <==> png_stream(buffer@, TILE_WIDTH, TILE_HEIGHT, CHANNEL_BITS) is Some,
        out matches Ok(bytes) ==> Some(bytes@) == png_stream(
            buffer@,
            TILE_WIDTH,
            TILE_HEIGHT,
            CHANNEL_BITS,
        ),
{
    encoded_tile(png_encode(&buffer.data, TILE_WIDTH, TILE_HEIGHT, CHANNEL_BITS))
}

/// The head of a response that carries a PNG image.
pub open spec fn image_header_text() -> Seq<char> {
    "HTTP/1.1 200 OK\r\nContent-type: image/png\r\nTransfer-Encoding: identity\r\n\r\n"@
}

/// The head of a response that carries a PNG image, as bytes.
pub fn get_image_header() -> (out: Vec<u8>)
    ensures
        out@ == encode_utf8(image_header_text()),
{
    "HTTP/1.1 200 OK\r\nContent-type: image/png\r\nTransfer-Encoding: identity\r\n\r\n".as_bytes_vec()
}

/// The response that carries `image`: the image head, then the bytes of the
/// image as they are.
pub fn image_response(image: Vec<u8>) -> (out: Vec<u8>)
    ensures
        out@ == encode_utf8(image_header_text()) + image@,
{
    let mut out = get_image_header();
    let mut image = image;
    out.append(&mut image);
    out
}

} // verus!
