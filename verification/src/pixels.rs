//! Pixels: bands of samples put side by side, and their PNG form.

use vstd::prelude::*;

use crate::error::Error;
use crate::sam::SamBands;
use crate::text::push_decimal;

verus! {

// ----------------------------------------------------------------------------
// RGB
// ----------------------------------------------------------------------------

/// The first `count` samples of three bands, pixel by pixel.
pub open spec fn interleaved(red: Seq<u8>, green: Seq<u8>, blue: Seq<u8>, count: nat) -> Seq<u8> {
    Seq::new(
        3 * count,
        |i: int|
            if i % 3 == 0 {
                red[i / 3]
            } else if i % 3 == 1 {
                green[i / 3]
            } else {
                blue[i / 3]
            },
    )
}

proof fn lemma_interleaved_grows(red: Seq<u8>, green: Seq<u8>, blue: Seq<u8>, count: nat)
    ensures
        interleaved(red, green, blue, count + 1) == interleaved(red, green, blue, count).push(
            red[count as int],
        ).push(green[count as int]).push(blue[count as int]),
{
    let longer = interleaved(red, green, blue, count + 1);
    let shorter = interleaved(red, green, blue, count).push(red[count as int]).push(
        green[count as int],
    ).push(blue[count as int]);
    assert forall|i: int| 0 <= i < longer.len() implies longer[i] == shorter[i] by {
        if i >= 3 * count {
            assert(i == 3 * count || i == 3 * count + 1 || i == 3 * count + 2);
        }
    }
    assert(longer =~= shorter);
}

/// Puts the first `count` samples of three bands together, pixel by pixel.
pub fn interleave(red: &Vec<u8>, green: &Vec<u8>, blue: &Vec<u8>, count: usize) -> (rgb: Vec<u8>)
    requires
        count <= red@.len(),
        count <= green@.len(),
        count <= blue@.len(),
    ensures
        rgb@ == interleaved(red@, green@, blue@, count as nat),
{
    let mut rgb: Vec<u8> = Vec::new();
    let mut i: usize = 0;
    assert(rgb@ =~= interleaved(red@, green@, blue@, 0));
    while i < count
        invariant
            i <= count,
            count <= red@.len(),
            count <= green@.len(),
            count <= blue@.len(),
            rgb@ == interleaved(red@, green@, blue@, i as nat),
        decreases count - i,
    {
        proof {
            lemma_interleaved_grows(red@, green@, blue@, i as nat);
        }
        rgb.push(red[i]);
        rgb.push(green[i]);
        rgb.push(blue[i]);
        i = i + 1;
    }
    rgb
}

/// What is put together of an image's bands: the first three, or the only one
/// thrice.
pub open spec fn rgb_of(bands: Seq<Vec<u8>>, pixels: nat) -> Seq<u8> {
    if bands.len() >= 3 {
        interleaved(bands[0]@, bands[1]@, bands[2]@, pixels)
    } else {
        interleaved(bands[0]@, bands[0]@, bands[0]@, bands[0]@.len())
    }
}

/// The RGB pixels of an image for inference, from its bands as bytes: the first
/// three bands, or the only one as grey. Other numbers of bands are refused.
pub fn load_image_rgb(bands: &Vec<Vec<u8>>, width: u32, height: u32) -> (r: Result<Vec<u8>, Error>)
    requires
        width * height <= u32::MAX,
        bands@.len() >= 3 ==> forall|b: int|
            0 <= b < 3 ==> width * height <= (#[trigger] bands@[b])@.len(),
    ensures
        match r {
            Ok(rgb) => (bands@.len() == 1 || bands@.len() >= 3) && rgb@ == rgb_of(
                bands@,
                (width * height) as nat,
            ),
            Err(error) => bands@.len() != 1 && bands@.len() < 3 && crate::error::is_internal(
                error,
                "Image has "@ + crate::text::decimal(bands@.len()) + " bands, expected 1 or 3+"@,
            ),
        },
{
    let pixels: usize = (width * height) as usize;
    if bands.len() >= 3 {
        assert(pixels <= bands@[0]@.len() && pixels <= bands@[1]@.len() && pixels
            <= bands@[2]@.len());
        Ok(interleave(&bands[0], &bands[1], &bands[2], pixels))
    } else if bands.len() == 1 {
        let count: usize = bands[0].len();
        Ok(interleave(&bands[0], &bands[0], &bands[0], count))
    } else {
        let mut message = "Image has ".to_owned();
        push_decimal(&mut message, bands.len() as u64);
        message.append(" bands, expected 1 or 3+");
        Err(Error::Internal(message))
    }
}

/// The RGB pixels of selected bands for inference, each selection held at the
/// image's last band, and the selection that was used.
pub fn load_image_rgb_with_bands(
    bands: &Vec<Vec<u8>>,
    width: u32,
    height: u32,
    selected: SamBands,
) -> (r: (Vec<u8>, SamBands))
    requires
        bands@.len() > 0,
        bands@.len() <= u32::MAX,
        width * height <= u32::MAX,
        forall|b: int|
            0 <= b < bands@.len() ==> width * height <= (#[trigger] bands@[b])@.len(),
    ensures
        r.1 == selected.clamped(bands@.len()),
        r.0@ == interleaved(
            bands@[r.1.red as int]@,
            bands@[r.1.green as int]@,
            bands@[r.1.blue as int]@,
            (width * height) as nat,
        ),
{
    let used = selected.clamp_to_num_bands(bands.len());
    let pixels: usize = (width * height) as usize;
    let rgb = interleave(
        &bands[used.red as usize],
        &bands[used.green as usize],
        &bands[used.blue as usize],
        pixels,
    );
    (rgb, used)
}

/// Where the selected bands are the first three, selecting them or none gives the
/// same pixels.
pub proof fn lemma_default_bands_agree(bands: Seq<Vec<u8>>, pixels: nat)
    requires
        3 <= bands.len() <= u32::MAX,
    ensures
        ({
            let used = (SamBands { red: 0, green: 1, blue: 2 }).clamped(bands.len());
            interleaved(
                bands[used.red as int]@,
                bands[used.green as int]@,
                bands[used.blue as int]@,
                pixels,
            ) == rgb_of(bands, pixels)
        }),
{
}

// ----------------------------------------------------------------------------
// RGBA
// ----------------------------------------------------------------------------

/// The first `count` samples of three bands, pixel by pixel, with full opacity.
pub open spec fn opaque(red: Seq<u8>, green: Seq<u8>, blue: Seq<u8>, count: nat) -> Seq<u8> {
    Seq::new(
        4 * count,
        |i: int|
            if i % 4 == 0 {
                red[i / 4]
            } else if i % 4 == 1 {
                green[i / 4]
            } else if i % 4 == 2 {
                blue[i / 4]
            } else {
                255
            },
    )
}

proof fn lemma_opaque_grows(red: Seq<u8>, green: Seq<u8>, blue: Seq<u8>, count: nat)
    ensures
        opaque(red, green, blue, count + 1) == opaque(red, green, blue, count).push(
            red[count as int],
        ).push(green[count as int]).push(blue[count as int]).push(255),
{
    let longer = opaque(red, green, blue, count + 1);
    let shorter = opaque(red, green, blue, count).push(red[count as int]).push(
        green[count as int],
    ).push(blue[count as int]).push(255);
    assert forall|i: int| 0 <= i < longer.len() implies longer[i] == shorter[i] by {
        if i >= 4 * count {
            assert(i == 4 * count || i == 4 * count + 1 || i == 4 * count + 2 || i == 4 * count
                + 3);
        }
    }
    assert(longer =~= shorter);
}

/// The pixels of a thumbnail: the first three bands, or the first one as grey
/// where there are fewer.
pub open spec fn thumbnail_pixels(bands: Seq<Vec<u8>>, count: nat) -> Seq<u8> {
    if bands.len() >= 3 {
        opaque(bands[0]@, bands[1]@, bands[2]@, count)
    } else {
        opaque(bands[0]@, bands[0]@, bands[0]@, count)
    }
}

/// The pixels of a thumbnail from its bands as bytes.
pub fn thumbnail_rgba(bands: &Vec<Vec<u8>>, count: usize) -> (rgba: Vec<u8>)
    requires
        bands@.len() > 0,
        forall|b: int|
            0 <= b < bands@.len() && b < 3 ==> count <= (#[trigger] bands@[b])@.len(),
    ensures
        rgba@ == thumbnail_pixels(bands@, count as nat),
{
    let colors = bands.len() >= 3;
    let green_at: usize = if colors {
        1
    } else {
        0
    };
    let blue_at: usize = if colors {
        2
    } else {
        0
    };
    let mut rgba: Vec<u8> = Vec::new();
    let mut i: usize = 0;
    let ghost red = bands@[0]@;
    let ghost green = bands@[green_at as int]@;
    let ghost blue = bands@[blue_at as int]@;
    assert(rgba@ =~= opaque(red, green, blue, 0));
    while i < count
        invariant
            i <= count,
            green_at < bands@.len(),
            blue_at < bands@.len(),
            red == bands@[0]@,
            green == bands@[green_at as int]@,
            blue == bands@[blue_at as int]@,
            count <= red.len(),
            count <= green.len(),
            count <= blue.len(),
            rgba@ == opaque(red, green, blue, i as nat),
        decreases count - i,
    {
        proof {
            lemma_opaque_grows(red, green, blue, i as nat);
        }
        rgba.push(bands[0][i]);
        rgba.push(bands[green_at][i]);
        rgba.push(bands[blue_at][i]);
        rgba.push(255);
        i = i + 1;
    }
    rgba
}

// ----------------------------------------------------------------------------
// PNG
// ----------------------------------------------------------------------------

/// What `image` makes of RGBA pixels as a PNG: its bytes, or why there are none.
pub uninterp spec fn png_of(width: u32, height: u32, rgba: Seq<u8>) -> Result<Seq<u8>, Seq<char>>;

/// Trusted: `image::RgbaImage::from_raw` takes pixels of exactly the size, as long as
/// the bytes of a row can be counted, and `write_to` encodes them as PNG. What the
/// bytes are, or the error's text, is named, not described.
#[verifier::external_body]
fn write_png(width: u32, height: u32, rgba: Vec<u8>) -> (r: Result<Vec<u8>, String>)
    requires
        4 * width <= usize::MAX,
        rgba@.len() == 4 * width * height,
    ensures
        match r {
            Ok(png) => png_of(width, height, rgba@) == Ok::<Seq<u8>, Seq<char>>(png@),
            Err(cause) => png_of(width, height, rgba@) == Err::<Seq<u8>, Seq<char>>(cause@),
        },
{
    let image = image::RgbaImage::from_raw(width, height, rgba).unwrap();
    let mut out = std::io::Cursor::new(Vec::new());
    match image.write_to(&mut out, image::ImageFormat::Png) {
        Ok(()) => Ok(out.into_inner()),
        Err(e) => Err(e.to_string()),
    }
}

/// Why pixels have no PNG form.
#[derive(Debug)]
pub enum PngError {
    /// The pixels are too few for the size, or the bytes of a row cannot be counted.
    TooFew,
    /// Encoding failed.
    Failed(String),
}

/// Whether there are pixels for an image of this size, the bytes of whose rows can be
/// counted.
pub open spec fn has_pixels(width: u32, height: u32, rgba: Seq<u8>) -> bool {
    4 * width <= usize::MAX && rgba.len() >= 4 * width * height
}

/// The PNG form of RGBA pixels. Of more pixels than the size takes the first are
/// encoded.
pub fn encode_png(width: u32, height: u32, rgba: Vec<u8>) -> (r: Result<Vec<u8>, PngError>)
    ensures
        match r {
            Ok(png) => has_pixels(width, height, rgba@) && png_of(
                width,
                height,
                rgba@.take(4 * width * height),
            ) == Ok::<Seq<u8>, Seq<char>>(png@),
            Err(PngError::TooFew) => !has_pixels(width, height, rgba@),
            Err(PngError::Failed(cause)) => has_pixels(width, height, rgba@) && png_of(
                width,
                height,
                rgba@.take(4 * width * height),
            ) == Err::<Seq<u8>, Seq<char>>(cause@),
        },
{
    proof {
        assert(4 * width * height <= 4 * u32::MAX * u32::MAX) by (nonlinear_arith)
            requires
                width <= u32::MAX,
                height <= u32::MAX,
        ;
    }
    let size: u128 = 4 * (width as u128) * (height as u128);
    if 4 * (width as u128) > usize::MAX as u128 || (rgba.len() as u128) < size {
        return Err(PngError::TooFew);
    }
    let mut pixels = rgba;
    pixels.truncate(size as usize);
    assert(pixels@ =~= rgba@.take(4 * width * height));
    match write_png(width, height, pixels) {
        Ok(png) => Ok(png),
        Err(cause) => Err(PngError::Failed(cause)),
    }
}

/// The PNG of a thumbnail from its bands as bytes.
pub fn thumbnail_png(bands: &Vec<Vec<u8>>, width: u32, height: u32) -> (r: Result<Vec<u8>, Error>)
    requires
        bands@.len() > 0,
        width * height <= u32::MAX,
        forall|b: int|
            0 <= b < bands@.len() && b < 3 ==> width * height <= (#[trigger] bands@[b])@.len(),
    ensures
        if 4 * width > usize::MAX {
            r matches Err(error) && crate::error::is_internal(
                error,
                "Failed to create image buffer"@,
            )
        } else {
            match png_of(width, height, thumbnail_pixels(bands@, (width * height) as nat)) {
                Ok(bytes) => r matches Ok(png) && png@ == bytes,
                Err(cause) => r matches Err(error) && crate::error::is_internal(
                    error,
                    "PNG encode failed: "@ + cause,
                ),
            }
        },
{
    let count: usize = (width * height) as usize;
    let rgba = thumbnail_rgba(bands, count);
    proof {
        assert(4 * width * height == 4 * (width * height)) by (nonlinear_arith);
        assert(rgba@.take(4 * width * height) =~= rgba@);
    }
    match encode_png(width, height, rgba) {
        Ok(png) => Ok(png),
        Err(PngError::TooFew) => Err(
            Error::Internal("Failed to create image buffer".to_owned()),
        ),
        Err(PngError::Failed(cause)) => {
            let mut message = "PNG encode failed: ".to_owned();
            message.append(cause.as_str());
            Err(Error::Internal(message))
        },
    }
}

// ----------------------------------------------------------------------------
// Laws
// ----------------------------------------------------------------------------

/// Each pixel holds the sample of each band at its place, red first and blue last.
pub proof fn lemma_pixels_hold_samples(
    red: Seq<u8>,
    green: Seq<u8>,
    blue: Seq<u8>,
    count: nat,
    i: int,
)
    requires
        0 <= i < count,
    ensures
        interleaved(red, green, blue, count).len() == 3 * count,
        interleaved(red, green, blue, count)[3 * i] == red[i],
        interleaved(red, green, blue, count)[3 * i + 1] == green[i],
        interleaved(red, green, blue, count)[3 * i + 2] == blue[i],
        opaque(red, green, blue, count).len() == 4 * count,
        opaque(red, green, blue, count)[4 * i] == red[i],
        opaque(red, green, blue, count)[4 * i + 1] == green[i],
        opaque(red, green, blue, count)[4 * i + 2] == blue[i],
        opaque(red, green, blue, count)[4 * i + 3] == 255,
{
}

/// Splitting opaque pixels into their channels gives the bands back.
pub proof fn lemma_channels_of_opaque(red: Seq<u8>, green: Seq<u8>, blue: Seq<u8>)
    requires
        red.len() == green.len() == blue.len(),
    ensures
        ({
            let pixels = opaque(red, green, blue, red.len());
            &&& crate::loaders::channel(pixels, 0) == red
            &&& crate::loaders::channel(pixels, 1) == green
            &&& crate::loaders::channel(pixels, 2) == blue
        }),
{
    let pixels = opaque(red, green, blue, red.len());
    assert(crate::loaders::channel(pixels, 0) =~= red);
    assert(crate::loaders::channel(pixels, 1) =~= green);
    assert(crate::loaders::channel(pixels, 2) =~= blue);
}

/// An image is seen in the colours of its first three bands. A thumbnail of an image
/// with fewer is grey, as is the only band for inference.
pub proof fn lemma_colours_of_an_image(bands: Seq<Vec<u8>>, pixels: nat, i: int)
    requires
        bands.len() > 0,
        0 <= i < pixels,
        bands.len() < 3 ==> pixels == bands[0]@.len(),
    ensures
        ({
            let green = if bands.len() >= 3 { bands[1]@[i] } else { bands[0]@[i] };
            let blue = if bands.len() >= 3 { bands[2]@[i] } else { bands[0]@[i] };
            &&& rgb_of(bands, pixels).len() == 3 * pixels
            &&& rgb_of(bands, pixels)[3 * i] == bands[0]@[i]
            &&& rgb_of(bands, pixels)[3 * i + 1] == green
            &&& rgb_of(bands, pixels)[3 * i + 2] == blue
            &&& thumbnail_pixels(bands, pixels).len() == 4 * pixels
            &&& thumbnail_pixels(bands, pixels)[4 * i] == bands[0]@[i]
            &&& thumbnail_pixels(bands, pixels)[4 * i + 1] == green
            &&& thumbnail_pixels(bands, pixels)[4 * i + 2] == blue
            &&& thumbnail_pixels(bands, pixels)[4 * i + 3] == 255
        }),
{
}

/// Opaque pixels of an image are as many as its size asks for, and no fewer would do.
pub proof fn lemma_opaque_images_have_their_pixels(
    red: Seq<u8>,
    green: Seq<u8>,
    blue: Seq<u8>,
    width: u32,
    height: u32,
    n: int,
)
    requires
        4 * width <= usize::MAX,
        0 <= n < 4 * width * height,
    ensures
        has_pixels(width, height, opaque(red, green, blue, (width * height) as nat)),
        !has_pixels(width, height, opaque(red, green, blue, (width * height) as nat).take(n)),
{
    assert(4 * width * height == 4 * (width * height)) by (nonlinear_arith);
    assert(width * height >= 0) by (nonlinear_arith);
}

} // verus!
