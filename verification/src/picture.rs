//! Work on decoded pixels: resizing, and cutting out a rectangle.
use crate::face_detector::CropRegion;
use crate::metadata::DecodedImage;
use image::imageops::FilterType;
use image::{ImageBuffer, Rgb};
use vstd::prelude::*;

verus! {

/// How neighbouring pixels are weighed when an image is resized.
#[derive(Clone, Copy, Debug, PartialEq, Eq, Structural)]
pub enum ResizeFilter {
    /// The nearest pixel, unweighed.
    Nearest,
    /// Linear interpolation.
    Triangle,
    /// Cubic interpolation after Catmull and Rom.
    CatmullRom,
}

/// The pixels of an image of `width` by `height` pixels after a resize
/// to `nwidth` by `nheight` pixels with `filter`.
pub uninterp spec fn resized_pixels(
    pixels: Seq<u8>,
    width: u32,
    height: u32,
    nwidth: u32,
    nheight: u32,
    filter: ResizeFilter,
) -> Seq<u8>;

/// Whether the buffers of a resize fit into memory: the rows in between
/// hold four floating-point values per pixel, the result three bytes.
pub open spec fn resize_fits(width: u32, nwidth: u32, nheight: u32) -> bool {
    32 * width * nheight <= usize::MAX && 6 * nwidth * nheight <= usize::MAX
}

/// Resizes red-green-blue pixels with `image::imageops::resize`, the
/// function behind `DynamicImage::resize_exact`. The contract claims that
/// the result has three bytes for each of the `nwidth * nheight` pixels
/// asked for, that it depends on nothing but the arguments, and that a
/// resize to the size the image already has copies the pixels.
#[verifier::external_body]
fn resize_rgb(
    pixels: &Vec<u8>,
    width: u32,
    height: u32,
    nwidth: u32,
    nheight: u32,
    filter: ResizeFilter,
) -> (resized: Vec<u8>)
    requires
        pixels@.len() == 3 * width * height,
        resize_fits(width, nwidth, nheight),
    ensures
        resized@ == resized_pixels(pixels@, width, height, nwidth, nheight, filter),
        resized@.len() == 3 * nwidth * nheight,
        width == nwidth && height == nheight && width > 0 && height > 0 ==> resized@ == pixels@,
{
    let source = ImageBuffer::<Rgb<u8>, &[u8]>::from_raw(width, height, pixels.as_slice()).unwrap();
    let kind = match filter {
        ResizeFilter::Nearest => FilterType::Nearest,
        ResizeFilter::Triangle => FilterType::Triangle,
        ResizeFilter::CatmullRom => FilterType::CatmullRom,
    };
    image::imageops::resize(&source, nwidth, nheight, kind).into_raw()
}

/// What a resize gives: nothing for an image whose buffer does not match
/// its size or when the buffers do not fit into memory, else the resized
/// pixels.
pub open spec fn resize_spec(
    image: DecodedImage,
    nwidth: u32,
    nheight: u32,
    filter: ResizeFilter,
) -> Option<Seq<u8>> {
    if image.well_formed() && resize_fits(image.width, nwidth, nheight) {
        Some(resized_pixels(image.pixels@, image.width, image.height, nwidth, nheight, filter))
    } else {
        None
    }
}

fn fits(width: u32, nwidth: u32, nheight: u32) -> (ok: bool)
    ensures
        ok == resize_fits(width, nwidth, nheight),
{
    assert(0 <= width * nheight <= 0xffff_ffff * 0xffff_ffff) by (nonlinear_arith)
        requires
            0 <= width <= 0xffff_ffff,
            0 <= nheight <= 0xffff_ffff,
    ;
    assert(0 <= nwidth * nheight <= 0xffff_ffff * 0xffff_ffff) by (nonlinear_arith)
        requires
            0 <= nwidth <= 0xffff_ffff,
            0 <= nheight <= 0xffff_ffff,
    ;
    let rows: u128 = 32 * ((width as u128) * (nheight as u128));
    let out: u128 = 6 * ((nwidth as u128) * (nheight as u128));
    assert(32 * (width * nheight) == 32 * width * nheight) by (nonlinear_arith);
    assert(6 * (nwidth * nheight) == 6 * nwidth * nheight) by (nonlinear_arith);
    rows <= usize::MAX as u128 && out <= usize::MAX as u128
}

/// Whether the buffer of an image holds three bytes for every pixel.
pub fn matches_size(image: &DecodedImage) -> (ok: bool)
    ensures
        ok == image.well_formed(),
{
    assert(0 <= image.width * image.height <= 0xffff_ffff * 0xffff_ffff) by (nonlinear_arith)
        requires
            0 <= image.width <= 0xffff_ffff,
            0 <= image.height <= 0xffff_ffff,
    ;
    let wanted: u128 = 3 * ((image.width as u128) * (image.height as u128));
    assert(3 * (image.width * image.height) == 3 * image.width * image.height)
        by (nonlinear_arith);
    image.pixels.len() as u128 == wanted
}

/// Resizes an image to exactly `nwidth` by `nheight` pixels, whatever its
/// aspect ratio.
pub fn resize_exact(image: &DecodedImage, nwidth: u32, nheight: u32, filter: ResizeFilter) -> (resized:
    Option<DecodedImage>)
    ensures
        resized.is_some() == resize_spec(*image, nwidth, nheight, filter).is_some(),
        resized.is_some() ==> {
            &&& resized.unwrap().width == nwidth
            &&& resized.unwrap().height == nheight
            &&& resized.unwrap().well_formed()
            &&& resized.unwrap().pixels@ == resize_spec(*image, nwidth, nheight, filter).unwrap()
            &&& (image.width == nwidth && image.height == nheight && nwidth > 0 && nheight > 0
                ==> resized.unwrap().pixels@ == image.pixels@)
        },
{
    if !matches_size(image) || !fits(image.width, nwidth, nheight) {
        return None;
    }
    let pixels = resize_rgb(&image.pixels, image.width, image.height, nwidth, nheight, filter);
    Some(DecodedImage { width: nwidth, height: nheight, pixels })
}

/// The smaller of two numbers.
pub open spec fn lesser(a: int, b: int) -> int {
    if a <= b {
        a
    } else {
        b
    }
}

/// The part of `region` that lies within an image of `width` by `height`
/// pixels: the corner is moved onto the image, then the size is cut down
/// to what is left from there.
pub open spec fn clamped_region(width: u32, height: u32, region: CropRegion) -> CropRegion {
    let x = lesser(region.x as int, width as int);
    let y = lesser(region.y as int, height as int);
    CropRegion {
        x: x as u32,
        y: y as u32,
        width: lesser(region.width as int, width - x) as u32,
        height: lesser(region.height as int, height - y) as u32,
    }
}

/// Row `row` of a region of an image that is `width` pixels wide.
pub open spec fn region_row(pixels: Seq<u8>, width: int, region: CropRegion, row: int) -> Seq<u8> {
    pixels.subrange(
        ((region.y + row) * width + region.x) * 3,
        ((region.y + row) * width + region.x + region.width) * 3,
    )
}

/// The first `rows` rows of a region, one after the other.
pub open spec fn region_rows(pixels: Seq<u8>, width: int, region: CropRegion, rows: int) -> Seq<u8>
    decreases rows,
{
    if rows <= 0 {
        Seq::empty()
    } else {
        region_rows(pixels, width, region, rows - 1) + region_row(pixels, width, region, rows - 1)
    }
}

/// The pixels of the part of `region` that lies within the image.
pub open spec fn cropped_pixels(image: DecodedImage, region: CropRegion) -> Seq<u8> {
    let within = clamped_region(image.width, image.height, region);
    region_rows(image.pixels@, image.width as int, within, within.height as int)
}

/// A row of a region within an image lies within the pixels of the image.
proof fn lemma_row_within(width: int, height: int, region: CropRegion, row: int)
    requires
        0 <= width,
        0 <= height,
        region.x + region.width <= width,
        region.y + region.height <= height,
        0 <= row < region.height,
    ensures
        0 <= ((region.y + row) * width + region.x) * 3,
        ((region.y + row) * width + region.x + region.width) * 3 <= 3 * width * height,
{
    let r = region.y + row;
    assert(0 <= r * width) by (nonlinear_arith)
        requires
            0 <= r,
            0 <= width,
    ;
    assert((r + 1) * width <= height * width) by (nonlinear_arith)
        requires
            r + 1 <= height,
            0 <= width,
    ;
    assert((r + 1) * width == r * width + width) by (nonlinear_arith);
    assert(3 * width * height == 3 * (height * width)) by (nonlinear_arith);
}

/// Rows of a region have three bytes per pixel of the region's width.
proof fn lemma_region_rows_len(
    pixels: Seq<u8>,
    width: int,
    height: int,
    region: CropRegion,
    rows: int,
)
    requires
        pixels.len() == 3 * width * height,
        0 <= width,
        0 <= height,
        region.x + region.width <= width,
        region.y + region.height <= height,
        0 <= rows <= region.height,
    ensures
        region_rows(pixels, width, region, rows).len() == 3 * region.width * rows,
    decreases rows,
{
    if rows > 0 {
        lemma_region_rows_len(pixels, width, height, region, rows - 1);
        lemma_row_within(width, height, region, rows - 1);
        assert(3 * region.width * rows == 3 * region.width * (rows - 1) + 3 * region.width)
            by (nonlinear_arith);
    } else {
        assert(3 * region.width * rows == 0) by (nonlinear_arith)
            requires
                rows == 0,
        ;
    }
}

/// Cuts a rectangle out of an image. A rectangle that reaches beyond the
/// image is cut down to the part within it.
pub fn crop(image: &DecodedImage, region: &CropRegion) -> (cut: DecodedImage)
    requires
        image.well_formed(),
    ensures
        cut.width == clamped_region(image.width, image.height, *region).width,
        cut.height == clamped_region(image.width, image.height, *region).height,
        cut.pixels@ == cropped_pixels(*image, *region),
        cut.well_formed(),
{
    let x = if region.x <= image.width {
        region.x
    } else {
        image.width
    };
    let y = if region.y <= image.height {
        region.y
    } else {
        image.height
    };
    let width = if region.width <= image.width - x {
        region.width
    } else {
        image.width - x
    };
    let height = if region.height <= image.height - y {
        region.height
    } else {
        image.height - y
    };
    let ghost within = clamped_region(image.width, image.height, *region);
    assert(within == (CropRegion { x, y, width, height }));
    let total = image.pixels.len();
    let mut pixels: Vec<u8> = Vec::new();
    let mut row: u32 = 0;
    while row < height
        invariant
            row <= height,
            total == image.pixels@.len(),
            image.well_formed(),
            within == (CropRegion { x, y, width, height }),
            x + width <= image.width,
            y + height <= image.height,
            pixels@ == region_rows(image.pixels@, image.width as int, within, row as int),
        decreases height - row,
    {
        proof {
            lemma_row_within(image.width as int, image.height as int, within, row as int);
            let r = y + row;
            let w = image.width as int;
            assert(0 <= r * w) by (nonlinear_arith)
                requires
                    0 <= r,
                    0 <= w,
            ;
        }
        let start: usize = ((y as usize + row as usize) * (image.width as usize) + x as usize) * 3;
        let bytes: usize = 3 * (width as usize);
        let ghost before = pixels@;
        let ghost wanted = region_row(image.pixels@, image.width as int, within, row as int);
        let mut i: usize = 0;
        while i < bytes
            invariant
                i <= bytes,
                bytes == 3 * width,
                start == ((y + row) * image.width + x) * 3,
                start + bytes <= total,
                total == image.pixels@.len(),
                wanted == image.pixels@.subrange(start as int, start + bytes),
                pixels@ == before + wanted.take(i as int),
            decreases bytes - i,
        {
            pixels.push(image.pixels[start + i]);
            proof {
                assert(wanted.take(i + 1) =~= wanted.take(i as int).push(
                    image.pixels@[start + i],
                ));
                assert(pixels@ =~= before + wanted.take(i + 1));
            }
            i += 1;
        }
        proof {
            assert(wanted.take(bytes as int) =~= wanted);
        }
        row += 1;
    }
    proof {
        lemma_region_rows_len(
            image.pixels@,
            image.width as int,
            image.height as int,
            within,
            height as int,
        );
        assert(3 * width * height == 3 * within.width * (height as int)) by (nonlinear_arith)
            requires
                within.width == width,
        ;
    }
    DecodedImage { width, height, pixels }
}

} // verus!
