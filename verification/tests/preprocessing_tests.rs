use media_indexer::face_age_and_gender_estimator::FaceAgeAndGenderEstimator;
use media_indexer::face_detector::{CropRegion, ResizedImage};
use media_indexer::face_embedder::FaceEmbedder;
use media_indexer::image_embedder::ImageEmbedder;
use media_indexer::metadata::DecodedImage;
use media_indexer::picture::{crop, matches_size, resize_exact, ResizeFilter};
use media_indexer::preprocessing::{
    arcface_input, detector_input, image_to_resnet, image_to_tensor, resnet_input, Preprocessor,
};

fn black(width: u32, height: u32) -> DecodedImage {
    DecodedImage { width, height, pixels: vec![0; (3 * width * height) as usize] }
}

fn put_pixel(img: &mut DecodedImage, x: u32, y: u32, colour: [u8; 3]) {
    let at = ((y * img.width + x) * 3) as usize;
    img.pixels[at] = colour[0];
    img.pixels[at + 1] = colour[1];
    img.pixels[at + 2] = colour[2];
}

/// An image whose pixel at (x, y) is (x, y, x + y), each modulo 256.
fn gradient(width: u32, height: u32) -> DecodedImage {
    let mut img = black(width, height);
    for y in 0..height {
        for x in 0..width {
            put_pixel(&mut img, x, y, [x as u8, y as u8, (x + y) as u8]);
        }
    }
    img
}

#[test]
fn test_preprocessor() {
    let preprocessor = Preprocessor::new();
    let img = gradient(300, 200);
    let result = preprocessor.preprocess(&img).unwrap();
    assert_eq!(result.len(), 3 * 224 * 224);
}

#[test]
fn test_shader_logic_and_pixel_values() {
    // a 224x224 image, so the resize doesn't alter the test pixels
    let mut img = black(224, 224);
    put_pixel(&mut img, 0, 0, [255, 0, 0]);
    put_pixel(&mut img, 223, 0, [0, 255, 0]);
    put_pixel(&mut img, 0, 223, [0, 0, 255]);
    put_pixel(&mut img, 223, 223, [128, 128, 128]);
    put_pixel(&mut img, 112, 112, [255, 255, 255]);

    let preprocessor = Preprocessor::new();
    let result = preprocessor.preprocess(&img).unwrap();

    let expected_size = 3 * 224 * 224;
    assert_eq!(result.len(), expected_size);

    let min_val = result.iter().cloned().min().unwrap();
    let max_val = result.iter().cloned().max().unwrap();
    assert!(min_val >= 0, "Minimum value {} is below 0.0", min_val);
    assert!(max_val <= 1_000_000, "Maximum value {} is above 1.0", max_val);

    let pixels_per_channel = 224 * 224;
    assert_eq!(result.len(), 3 * pixels_per_channel);

    let get_pixel = |x: u32, y: u32| -> (i32, i32, i32) {
        let idx = (y * 224 + x) as usize;
        (result[idx], result[pixels_per_channel + idx], result[2 * pixels_per_channel + idx])
    };
    let near = |value: i32, wanted: i32| (value - wanted).abs() < 10_000;

    let (r, g, b) = get_pixel(0, 0);
    assert!(near(r, 1_000_000), "Red pixel: R channel should be ~1.0, got {}", r);
    assert!(near(g, 0), "Red pixel: G channel should be ~0.0, got {}", g);
    assert!(near(b, 0), "Red pixel: B channel should be ~0.0, got {}", b);

    let (r, g, b) = get_pixel(223, 0);
    assert!(near(r, 0), "Green pixel: R channel should be ~0.0, got {}", r);
    assert!(near(g, 1_000_000), "Green pixel: G channel should be ~1.0, got {}", g);
    assert!(near(b, 0), "Green pixel: B channel should be ~0.0, got {}", b);

    let (r, g, b) = get_pixel(0, 223);
    assert!(near(r, 0), "Blue pixel: R channel should be ~0.0, got {}", r);
    assert!(near(g, 0), "Blue pixel: G channel should be ~0.0, got {}", g);
    assert!(near(b, 1_000_000), "Blue pixel: B channel should be ~1.0, got {}", b);

    let (r, g, b) = get_pixel(223, 223);
    let expected_gray = 128 * 1_000_000 / 255;
    assert!(near(r, expected_gray), "Gray pixel: R channel should be ~{:.3}, got {}", expected_gray, r);
    assert!(near(g, expected_gray), "Gray pixel: G channel should be ~{:.3}, got {}", expected_gray, g);
    assert!(near(b, expected_gray), "Gray pixel: B channel should be ~{:.3}, got {}", expected_gray, b);

    let (r, g, b) = get_pixel(112, 112);
    assert!(near(r, 1_000_000), "White pixel: R channel should be ~1.0, got {}", r);
    assert!(near(g, 1_000_000), "White pixel: G channel should be ~1.0, got {}", g);
    assert!(near(b, 1_000_000), "White pixel: B channel should be ~1.0, got {}", b);

    let (r, g, b) = get_pixel(50, 50);
    assert!(near(r, 0), "Black pixel: R channel should be ~0.0, got {}", r);
    assert!(near(g, 0), "Black pixel: G channel should be ~0.0, got {}", g);
    assert!(near(b, 0), "Black pixel: B channel should be ~0.0, got {}", b);
}

#[test]
fn tensor_has_one_plane_per_colour() {
    // two pixels wide, one high
    let rgb: Vec<u8> = vec![255, 128, 0, 1, 2, 3];
    assert_eq!(image_to_tensor(&rgb, 2, 1), vec![1_000_000, 3_921, 501_960, 7_843, 0, 11_764]);
    assert_eq!(image_to_tensor(&vec![], 0, 5), Vec::<i32>::new());
    assert_eq!(image_to_tensor(&vec![], 7, 0), Vec::<i32>::new());
}

#[test]
fn resnet_input_is_standardised_per_channel() {
    let mut img = black(224, 224);
    put_pixel(&mut img, 1, 0, [255, 255, 255]);
    put_pixel(&mut img, 223, 223, [128, 128, 128]);
    let data = resnet_input(&img.pixels);
    let plane = 224 * 224;
    assert_eq!(data.len(), 3 * plane);
    assert_eq!((data[0], data[plane], data[2 * plane]), (-2_117_904, -2_035_715, -1_804_445));
    assert_eq!((data[1], data[plane + 1], data[2 * plane + 1]), (2_248_908, 2_428_571, 2_640_000));
    assert_eq!((data[plane - 1], data[2 * plane - 1], data[3 * plane - 1]), (74_064, 205_182, 426_492));
    // an image of the input size goes through the resize as it is
    assert_eq!(image_to_resnet(&img), Some(data.clone()));
    assert_eq!(ImageEmbedder::preprocess_clip(&img), Some(data.clone()));
    assert_eq!(FaceAgeAndGenderEstimator::preprocess_clip(&img), Some(data));
}

#[test]
fn arcface_input_keeps_the_pixel_order() {
    let mut img = black(112, 112);
    img.pixels[0] = 255;
    img.pixels[1] = 128;
    img.pixels[2] = 127;
    let data = arcface_input(&img.pixels);
    assert_eq!(data.len(), 3 * 112 * 112);
    assert_eq!(&data[0..4], &[996_093, 3_906, -3_907, -996_094]);
    assert_eq!(data[3 * 112 * 112 - 1], -996_094);
    assert_eq!(FaceEmbedder::preprocess_arcface(&img), Some(data));
}

#[test]
fn inputs_have_the_size_the_models_take() {
    let img = gradient(37, 91);
    assert_eq!(image_to_resnet(&img).unwrap().len(), 3 * 224 * 224);
    assert_eq!(FaceEmbedder::preprocess_arcface(&img).unwrap().len(), 3 * 112 * 112);
    let (resized, input) = detector_input(&img).unwrap();
    assert_eq!(resized, ResizedImage { scaled_width: 640, scaled_height: 640, base_x: 37, base_y: 91 });
    assert_eq!(input.len(), 3 * 640 * 640);
    assert!(input.iter().all(|v| (0..=1_000_000).contains(v)));
}

#[test]
fn an_image_whose_buffer_does_not_match_its_size_is_not_prepared() {
    let mut img = gradient(10, 10);
    img.pixels.pop();
    assert!(!matches_size(&img));
    assert_eq!(image_to_resnet(&img), None);
    assert_eq!(FaceEmbedder::preprocess_arcface(&img), None);
    assert!(detector_input(&img).is_none());
    assert_eq!(Preprocessor::new().preprocess(&img), None);
    assert!(resize_exact(&img, 5, 5, ResizeFilter::Triangle).is_none());
    img.pixels.push(0);
    img.pixels.push(0);
    assert!(resize_exact(&img, 5, 5, ResizeFilter::Triangle).is_none());
}

#[test]
fn resize_gives_the_size_asked_for() {
    let img = gradient(40, 30);
    for filter in [ResizeFilter::Nearest, ResizeFilter::Triangle, ResizeFilter::CatmullRom] {
        let smaller = resize_exact(&img, 20, 10, filter).unwrap();
        assert_eq!((smaller.width, smaller.height, smaller.pixels.len()), (20, 10, 600));
        assert_ne!(smaller.pixels, img.pixels);
        let larger = resize_exact(&img, 50, 70, filter).unwrap();
        assert_eq!((larger.width, larger.height, larger.pixels.len()), (50, 70, 10_500));
        let same = resize_exact(&img, 40, 30, filter).unwrap();
        assert_eq!(same.pixels, img.pixels);
        let none = resize_exact(&img, 0, 7, filter).unwrap();
        assert_eq!((none.width, none.height, none.pixels.len()), (0, 7, 0));
    }
    let empty = black(0, 0);
    let filled = resize_exact(&empty, 4, 2, ResizeFilter::Triangle).unwrap();
    assert_eq!((filled.width, filled.height, filled.pixels), (4, 2, vec![0; 24]));
}

#[test]
fn resize_is_the_same_for_the_same_image() {
    let img = gradient(64, 48);
    let once = resize_exact(&img, 224, 224, ResizeFilter::CatmullRom).unwrap();
    let twice = resize_exact(&gradient(64, 48), 224, 224, ResizeFilter::CatmullRom).unwrap();
    assert_eq!(once.pixels, twice.pixels);
    // a flat image stays flat
    let mut flat = black(9, 5);
    flat.pixels.iter_mut().for_each(|p| *p = 200);
    let resized = resize_exact(&flat, 17, 3, ResizeFilter::Triangle).unwrap();
    assert!(resized.pixels.iter().all(|p| *p == 200));
}

#[test]
fn crop_cuts_out_rows_of_the_region() {
    let img = gradient(5, 4);
    let cut = crop(&img, &CropRegion { x: 1, y: 2, width: 3, height: 2 });
    assert_eq!((cut.width, cut.height), (3, 2));
    assert_eq!(cut.pixels, vec![1, 2, 3, 2, 2, 4, 3, 2, 5, 1, 3, 4, 2, 3, 5, 3, 3, 6]);
    assert!(matches_size(&cut));
    let whole = crop(&img, &CropRegion { x: 0, y: 0, width: 5, height: 4 });
    assert_eq!(whole.pixels, img.pixels);
}

#[test]
fn crop_is_cut_down_to_the_image() {
    let img = gradient(5, 4);
    let corner = crop(&img, &CropRegion { x: 3, y: 3, width: 10, height: 10 });
    assert_eq!((corner.width, corner.height), (2, 1));
    assert_eq!(corner.pixels, vec![3, 3, 6, 4, 3, 7]);
    let outside = crop(&img, &CropRegion { x: 9, y: 1, width: 2, height: 2 });
    assert_eq!((outside.width, outside.height, outside.pixels.len()), (0, 2, 0));
    let below = crop(&img, &CropRegion { x: 1, y: u32::MAX, width: u32::MAX, height: u32::MAX });
    assert_eq!((below.width, below.height, below.pixels.len()), (4, 0, 0));
    let nothing = crop(&img, &CropRegion { x: 0, y: 0, width: 0, height: 0 });
    assert_eq!((nothing.width, nothing.height, nothing.pixels.len()), (0, 0, 0));
}
