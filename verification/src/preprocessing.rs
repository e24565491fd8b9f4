//! Turning decoded pixels into model input: value scaling and the change
//! from interleaved colours to one plane per colour.
//!
//! Pixels come as red, green, blue bytes, pixel by pixel. Model input is
//! in millionths.
use crate::face_detector::{ResizedImage, MODEL_INPUT_SIZE};
use crate::fixed_point::floor_div;
use crate::metadata::DecodedImage;
use crate::picture::{resize_exact, resize_spec, ResizeFilter};
use vstd::prelude::*;

verus! {

/// Edge length of the input of the embedding models, in pixels.
pub const EMBEDDING_INPUT_SIZE: u32 = 224;

/// Edge length of the input of the face embedding model, in pixels.
pub const FACE_INPUT_SIZE: u32 = 112;

/// Mean of a colour channel over the reference image collection, in
/// thousandths.
pub open spec fn channel_mean(channel: int) -> int {
    if channel == 0 {
        485
    } else if channel == 1 {
        456
    } else {
        406
    }
}

/// Standard deviation of a colour channel over the reference image
/// collection, in thousandths.
pub open spec fn channel_deviation(channel: int) -> int {
    if channel == 0 {
        229
    } else if channel == 1 {
        224
    } else {
        225
    }
}

/// A byte as a fraction of 255, in millionths, rounded down.
pub open spec fn unit_value(byte: u8) -> int {
    ((byte as int) * 1_000_000) / 255
}

/// A byte as a fraction of 255, less the channel mean, over the channel
/// deviation; in millionths, rounded down.
pub open spec fn standardised_value(byte: u8, channel: int) -> int {
    (1_000_000 * (1000 * (byte as int) - 255 * channel_mean(channel))) / (255 * channel_deviation(
        channel,
    ))
}

/// A byte centred on 127.5 and divided by 128; in millionths, rounded
/// down.
pub open spec fn centred_value(byte: u8) -> int {
    (1_000_000 * (2 * (byte as int) - 255)) / 256
}

/// One colour plane of `pixels` interleaved pixels, unit-scaled.
pub open spec fn unit_plane(rgb: Seq<u8>, pixels: int, channel: int) -> Seq<i32> {
    Seq::new(pixels as nat, |i: int| unit_value(rgb[i * 3 + channel]) as i32)
}

/// One colour plane of `pixels` interleaved pixels, standardised.
pub open spec fn standardised_plane(rgb: Seq<u8>, pixels: int, channel: int) -> Seq<i32> {
    Seq::new(pixels as nat, |i: int| standardised_value(rgb[i * 3 + channel], channel) as i32)
}

/// The detector's input: the red plane, then the green, then the blue, each
/// value a fraction of 255.
pub open spec fn tensor_spec(rgb: Seq<u8>, pixels: int) -> Seq<i32> {
    unit_plane(rgb, pixels, 0) + unit_plane(rgb, pixels, 1) + unit_plane(rgb, pixels, 2)
}

/// The embedding models' input: the red plane, then the green, then the
/// blue, each value standardised for its channel.
pub open spec fn resnet_spec(rgb: Seq<u8>, pixels: int) -> Seq<i32> {
    standardised_plane(rgb, pixels, 0) + standardised_plane(rgb, pixels, 1) + standardised_plane(
        rgb,
        pixels,
        2,
    )
}

/// The face embedding model's input: the bytes in their order, centred.
pub open spec fn arcface_spec(rgb: Seq<u8>) -> Seq<i32> {
    Seq::new(rgb.len(), |k: int| centred_value(rgb[k]) as i32)
}

fn unit_of(byte: u8) -> (value: i32)
    ensures
        value == unit_value(byte),
{
    ((byte as u32) * 1_000_000 / 255) as i32
}

fn standardised_of(byte: u8, channel: usize) -> (value: i32)
    requires
        channel < 3,
    ensures
        value == standardised_value(byte, channel as int),
{
    let (mean, deviation): (i128, i128) = if channel == 0 {
        (485, 229)
    } else if channel == 1 {
        (456, 224)
    } else {
        (406, 225)
    };
    let numerator: i128 = 1_000_000 * (1000 * (byte as i128) - 255 * mean);
    let q = floor_div(numerator, 255 * deviation);
    proof {
        let d = 255 * deviation as int;
        vstd::arithmetic::div_mod::lemma_div_is_ordered(-0x7000_0000 * d, numerator as int, d);
        vstd::arithmetic::div_mod::lemma_div_is_ordered(numerator as int, 0x7000_0000 * d, d);
        vstd::arithmetic::div_mod::lemma_div_multiples_vanish(-0x7000_0000, d);
        vstd::arithmetic::div_mod::lemma_div_multiples_vanish(0x7000_0000, d);
    }
    q as i32
}

fn centred_of(byte: u8) -> (value: i32)
    ensures
        value == centred_value(byte),
{
    let numerator: i128 = 1_000_000 * (2 * (byte as i128) - 255);
    let q = floor_div(numerator, 256);
    q as i32
}

/// The detector's input for an image of `width` by `height` pixels.
pub fn image_to_tensor(rgb: &Vec<u8>, width: usize, height: usize) -> (data: Vec<i32>)
    requires
        rgb@.len() == 3 * width * height,
    ensures
        data@ == tensor_spec(rgb@, width * height),
{
    proof {
        assert(3 * width * height == 3 * (width * height)) by (nonlinear_arith);
        assert(0 <= width * height) by (nonlinear_arith);
    }
    let pixels = rgb.len() / 3;
    let mut data: Vec<i32> = Vec::new();
    let mut channel: usize = 0;
    while channel < 3
        invariant
            channel <= 3,
            rgb@.len() == 3 * pixels,
            pixels == width * height,
            channel == 0 ==> data@ == Seq::<i32>::empty(),
            channel == 1 ==> data@ == unit_plane(rgb@, pixels as int, 0),
            channel == 2 ==> data@ == unit_plane(rgb@, pixels as int, 0) + unit_plane(
                rgb@,
                pixels as int,
                1,
            ),
            channel == 3 ==> data@ == tensor_spec(rgb@, pixels as int),
        decreases 3 - channel,
    {
        let ghost before = data@;
        let ghost plane = unit_plane(rgb@, pixels as int, channel as int);
        let mut i: usize = 0;
        while i < pixels
            invariant
                i <= pixels,
                channel < 3,
                rgb.len() == 3 * pixels,
                plane == unit_plane(rgb@, pixels as int, channel as int),
                data@ == before + plane.take(i as int),
            decreases pixels - i,
        {
            data.push(unit_of(rgb[i * 3 + channel]));
            proof {
                assert(plane.take(i + 1) =~= plane.take(i as int).push(plane[i as int]));
                assert(data@ =~= before + plane.take(i + 1));
            }
            i += 1;
        }
        proof {
            assert(plane.take(pixels as int) =~= plane);
            assert(Seq::<i32>::empty() + plane =~= plane);
        }
        channel += 1;
    }
    data
}

/// The embedding models' input for the pixels of an image already resized
/// to `EMBEDDING_INPUT_SIZE` pixels each way.
pub fn resnet_input(rgb: &Vec<u8>) -> (data: Vec<i32>)
    requires
        rgb@.len() == 3 * EMBEDDING_INPUT_SIZE * EMBEDDING_INPUT_SIZE,
    ensures
        data@ == resnet_spec(rgb@, EMBEDDING_INPUT_SIZE * EMBEDDING_INPUT_SIZE),
{
    let pixels: usize = 224 * 224;
    let mut data: Vec<i32> = Vec::new();
    let mut channel: usize = 0;
    while channel < 3
        invariant
            channel <= 3,
            rgb@.len() == 3 * pixels,
            pixels == EMBEDDING_INPUT_SIZE * EMBEDDING_INPUT_SIZE,
            channel == 0 ==> data@ == Seq::<i32>::empty(),
            channel == 1 ==> data@ == standardised_plane(rgb@, pixels as int, 0),
            channel == 2 ==> data@ == standardised_plane(rgb@, pixels as int, 0)
                + standardised_plane(rgb@, pixels as int, 1),
            channel == 3 ==> data@ == resnet_spec(rgb@, pixels as int),
        decreases 3 - channel,
    {
        let ghost before = data@;
        let ghost plane = standardised_plane(rgb@, pixels as int, channel as int);
        let mut i: usize = 0;
        while i < pixels
            invariant
                i <= pixels,
                channel < 3,
                rgb.len() == 3 * pixels,
                plane == standardised_plane(rgb@, pixels as int, channel as int),
                data@ == before + plane.take(i as int),
            decreases pixels - i,
        {
            data.push(standardised_of(rgb[i * 3 + channel], channel));
            proof {
                assert(plane.take(i + 1) =~= plane.take(i as int).push(plane[i as int]));
                assert(data@ =~= before + plane.take(i + 1));
            }
            i += 1;
        }
        proof {
            assert(plane.take(pixels as int) =~= plane);
            assert(Seq::<i32>::empty() + plane =~= plane);
        }
        channel += 1;
    }
    data
}

/// The face embedding model's input for the pixels of a face already
/// resized to `FACE_INPUT_SIZE` pixels each way: pixel by pixel, colour by
/// colour.
pub fn arcface_input(rgb: &Vec<u8>) -> (data: Vec<i32>)
    requires
        rgb@.len() == 3 * FACE_INPUT_SIZE * FACE_INPUT_SIZE,
    ensures
        data@ == arcface_spec(rgb@),
{
    let mut data: Vec<i32> = Vec::new();
    let mut k: usize = 0;
    while k < rgb.len()
        invariant
            k <= rgb.len(),
            data@ == arcface_spec(rgb@).take(k as int),
        decreases rgb.len() - k,
    {
        data.push(centred_of(rgb[k]));
        proof {
            assert(arcface_spec(rgb@).take(k + 1) =~= arcface_spec(rgb@).take(k as int).push(
                centred_value(rgb@[k as int]) as i32,
            ));
        }
        k += 1;
    }
    proof {
        assert(arcface_spec(rgb@).take(rgb.len() as int) =~= arcface_spec(rgb@));
    }
    data
}

/// `made` with the values it holds, if any.
pub open spec fn input_view(made: Option<Vec<i32>>) -> Option<Seq<i32>> {
    match made {
        Some(data) => Some(data@),
        None => None,
    }
}

/// The embedding models' input for an image: the image resized to
/// `EMBEDDING_INPUT_SIZE` each way by cubic interpolation, then one plane
/// per colour, each value standardised for its channel.
pub open spec fn image_to_resnet_spec(img: DecodedImage) -> Option<Seq<i32>> {
    match resize_spec(img, EMBEDDING_INPUT_SIZE, EMBEDDING_INPUT_SIZE, ResizeFilter::CatmullRom) {
        Some(rgb) => Some(resnet_spec(rgb, EMBEDDING_INPUT_SIZE * EMBEDDING_INPUT_SIZE)),
        None => None,
    }
}

/// The face embedding model's input for a face: the face resized to
/// `FACE_INPUT_SIZE` each way by linear interpolation, then every byte
/// centred.
pub open spec fn preprocess_arcface_spec(img: DecodedImage) -> Option<Seq<i32>> {
    match resize_spec(img, FACE_INPUT_SIZE, FACE_INPUT_SIZE, ResizeFilter::Triangle) {
        Some(rgb) => Some(arcface_spec(rgb)),
        None => None,
    }
}

/// The detector's input for an image: the image resized to
/// `MODEL_INPUT_SIZE` each way by linear interpolation, then one plane per
/// colour, each value a fraction of 255.
pub open spec fn detector_input_spec(img: DecodedImage) -> Option<Seq<i32>> {
    match resize_spec(img, MODEL_INPUT_SIZE, MODEL_INPUT_SIZE, ResizeFilter::Triangle) {
        Some(rgb) => Some(tensor_spec(rgb, MODEL_INPUT_SIZE * MODEL_INPUT_SIZE)),
        None => None,
    }
}

/// The plain-fraction input for an image: the image resized to
/// `EMBEDDING_INPUT_SIZE` each way by taking the nearest pixel, then one
/// plane per colour, each value a fraction of 255.
pub open spec fn preprocess_spec(img: DecodedImage) -> Option<Seq<i32>> {
    match resize_spec(img, EMBEDDING_INPUT_SIZE, EMBEDDING_INPUT_SIZE, ResizeFilter::Nearest) {
        Some(rgb) => Some(tensor_spec(rgb, EMBEDDING_INPUT_SIZE * EMBEDDING_INPUT_SIZE)),
        None => None,
    }
}

/// The embedding models' input for an image, or nothing for an image that
/// cannot be resized.
pub fn image_to_resnet(img: &DecodedImage) -> (data: Option<Vec<i32>>)
    ensures
        input_view(data) == image_to_resnet_spec(*img),
{
    match resize_exact(img, 224, 224, ResizeFilter::CatmullRom) {
        Some(resized) => Some(resnet_input(&resized.pixels)),
        None => None,
    }
}

/// The face embedding model's input for a face, or nothing for a face
/// that cannot be resized.
pub fn preprocess_arcface(img: &DecodedImage) -> (data: Option<Vec<i32>>)
    ensures
        input_view(data) == preprocess_arcface_spec(*img),
{
    match resize_exact(img, 112, 112, ResizeFilter::Triangle) {
        Some(resized) => Some(arcface_input(&resized.pixels)),
        None => None,
    }
}

/// The detector's input for an image with the sizes before and after the
/// resize, or nothing for an image that cannot be resized.
pub fn detector_input(img: &DecodedImage) -> (made: Option<(ResizedImage, Vec<i32>)>)
    ensures
        made.is_some() == detector_input_spec(*img).is_some(),
        made.is_some() ==> {
            &&& made.unwrap().0 == (ResizedImage {
                scaled_width: MODEL_INPUT_SIZE,
                scaled_height: MODEL_INPUT_SIZE,
                base_x: img.width,
                base_y: img.height,
            })
            &&& made.unwrap().1@ == detector_input_spec(*img).unwrap()
        },
{
    match resize_exact(img, 640, 640, ResizeFilter::Triangle) {
        Some(resized) => {
            let data = image_to_tensor(&resized.pixels, 640, 640);
            Some(
                (
                    ResizedImage {
                        scaled_width: 640,
                        scaled_height: 640,
                        base_x: img.width,
                        base_y: img.height,
                    },
                    data,
                ),
            )
        },
        None => None,
    }
}

/// Prepares images for a model that takes plain colour fractions.
#[derive(Clone, Copy, Debug)]
pub struct Preprocessor;

impl Preprocessor {
    pub fn new() -> (preprocessor: Self) {
        Preprocessor
    }

    /// The model input for an image, or nothing for an image that cannot
    /// be resized. An image that already has `EMBEDDING_INPUT_SIZE` pixels
    /// each way goes in as it is.
    pub fn preprocess(&self, img: &DecodedImage) -> (data: Option<Vec<i32>>)
        ensures
            input_view(data) == preprocess_spec(*img),
            data.is_some() ==> data.unwrap()@.len() == 3 * EMBEDDING_INPUT_SIZE
                * EMBEDDING_INPUT_SIZE,
            data.is_some() && img.width == EMBEDDING_INPUT_SIZE && img.height
                == EMBEDDING_INPUT_SIZE ==> data.unwrap()@ == tensor_spec(
                img.pixels@,
                EMBEDDING_INPUT_SIZE * EMBEDDING_INPUT_SIZE,
            ),
    {
        match resize_exact(img, 224, 224, ResizeFilter::Nearest) {
            Some(resized) => Some(image_to_tensor(&resized.pixels, 224, 224)),
            None => None,
        }
    }
}

/// Every value of the detector's input is a fraction between zero and
/// one, and the value of colour `channel` of pixel `pixel` stands at
/// `channel * pixels + pixel`.
pub proof fn lemma_tensor_layout(rgb: Seq<u8>, pixels: int, channel: int, pixel: int)
    requires
        rgb.len() == 3 * pixels,
        0 <= channel < 3,
        0 <= pixel < pixels,
    ensures
        tensor_spec(rgb, pixels).len() == 3 * pixels,
        tensor_spec(rgb, pixels)[channel * pixels + pixel] == unit_value(
            rgb[pixel * 3 + channel],
        ),
        0 <= unit_value(rgb[pixel * 3 + channel]) <= 1_000_000,
{
    assert(channel * pixels == if channel == 0 {
        0
    } else if channel == 1 {
        pixels
    } else {
        2 * pixels
    }) by (nonlinear_arith)
        requires
            0 <= channel < 3,
    ;
}

} // verus!
