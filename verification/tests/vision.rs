use image::{ImageFormat, Rgb, RgbImage};
use lettering_core::ml::TesseractService;
use lettering_core::vision::{
    color_sums, convert_to_webp, count_edges, extract_dominant_colors, extract_palette,
    format_color, palette_of, sample_positions, style_features, thumbnail_webp, Pixels,
};
use std::io::Cursor;

fn png(img: &RgbImage) -> Vec<u8> {
    let mut buf = Cursor::new(Vec::new());
    img.write_to(&mut buf, ImageFormat::Png).unwrap();
    buf.into_inner()
}

fn two_tone(width: u32, height: u32) -> RgbImage {
    RgbImage::from_fn(width, height, |x, _| {
        if x < width / 2 {
            Rgb([250, 10, 10])
        } else {
            Rgb([10, 10, 250])
        }
    })
}

#[test]
fn colors_are_formatted_in_upper_case_hex() {
    assert_eq!(format_color((255, 0, 171)), "#FF00AB");
    assert_eq!(format_color((1, 2, 3)), "#010203");
}

#[test]
fn sampling_grid_positions() {
    assert_eq!(sample_positions(3, 2, 2, 1), vec![0, 2, 3, 5]);
    assert_eq!(sample_positions(0, 5, 1, 1), Vec::<usize>::new());
}

#[test]
fn palette_counts_quantized_colours() {
    // 20 by 20: sampled at x, y in {0, 10}; left half red, right half blue.
    let bytes = png(&two_tone(20, 20));
    let colors = extract_palette(&bytes).unwrap();
    assert_eq!(colors.len(), 2);
    assert!(colors.contains(&"#E00000".to_string()));
    assert!(colors.contains(&"#0000E0".to_string()));
}

#[test]
fn palette_keeps_the_five_most_frequent() {
    let p = Pixels {
        width: 70,
        height: 1,
        data: (0..70u32)
            .flat_map(|x| {
                let c = if x < 30 { 0u8 } else { (x / 10 * 32) as u8 };
                vec![c, c, c]
            })
            .collect(),
    };
    // Samples at x = 0, 10, ..., 60: black three times, then four others once.
    let colors = palette_of(&p);
    assert_eq!(colors.len(), 5);
    assert_eq!(colors[0], "#000000");
}

#[test]
fn dominant_colours_in_order_met() {
    let bytes = png(&two_tone(20, 20));
    assert_eq!(
        extract_dominant_colors(&bytes).unwrap(),
        vec!["#FA0A0A".to_string(), "#0A0AFA".to_string()]
    );
    let small = png(&two_tone(5, 20));
    assert_eq!(
        extract_dominant_colors(&small).unwrap_err(),
        "image is smaller than ten pixels across or down"
    );
    let service = TesseractService::new(false);
    assert_eq!(service.extract_colors(&bytes).unwrap(), Vec::<String>::new());
    let service = TesseractService::new(true);
    assert_eq!(service.extract_colors(&bytes).unwrap().len(), 2);
}

#[test]
fn undecodable_bytes_are_an_error() {
    assert!(extract_palette(b"not an image").is_err());
    assert!(style_features(b"not an image").is_err());
}

#[test]
fn edges_are_counted_inside_the_border() {
    // A bright vertical line in a 5 by 3 grey image: its middle pixel and
    // its two neighbours in the middle row are edges.
    let mut data = vec![0u8; 15];
    for y in 0..3 {
        data[y * 5 + 2] = 200;
    }
    let p = Pixels { width: 5, height: 3, data };
    assert_eq!(count_edges(&p), 3);
    let flat = Pixels { width: 4, height: 4, data: vec![7; 16] };
    assert_eq!(count_edges(&flat), 0);
    let empty = Pixels { width: 0, height: 0, data: vec![] };
    assert_eq!(count_edges(&empty), 0);
}

#[test]
fn colour_sums_over_every_fifth_pixel() {
    let p = Pixels { width: 6, height: 1, data: (0..18u8).collect() };
    // Samples at x = 0 and x = 5.
    let s = color_sums(&p);
    assert_eq!(s.samples, 2);
    assert_eq!(s.red, 0 + 15);
    assert_eq!(s.green, 1 + 16);
    assert_eq!(s.blue, 2 + 17);
}

#[test]
fn style_features_of_an_image() {
    let bytes = png(&two_tone(20, 20));
    let f = style_features(&bytes).unwrap();
    assert_eq!((f.width, f.height), (20, 20));
    assert_eq!(f.sums.samples, 16);
    assert_eq!(f.sums.red, 8 * 250 + 8 * 10);
    // Red and blue differ by too few grey levels to make edges.
    assert_eq!(f.edge_count, 0);
    // Black against white: the two columns at the boundary are edges in
    // each of the 18 inner rows.
    let stark = RgbImage::from_fn(20, 20, |x, _| if x < 10 { Rgb([0, 0, 0]) } else { Rgb([255, 255, 255]) });
    let f = style_features(&png(&stark)).unwrap();
    assert_eq!(f.edge_count, 36);
}

#[test]
fn wide_images_are_scaled_down_to_webp() {
    let bytes = png(&two_tone(40, 20));
    let webp = convert_to_webp(&bytes, 20).unwrap();
    let decoded = image::load_from_memory_with_format(&webp, ImageFormat::WebP).unwrap();
    assert_eq!((decoded.width(), decoded.height()), (20, 10));
    let kept = convert_to_webp(&bytes, 2048).unwrap();
    let decoded = image::load_from_memory(&kept).unwrap();
    assert_eq!(decoded.width(), 40);
    assert!(convert_to_webp(b"junk", 10).unwrap_err().starts_with("Invalid or corrupted image data: "));
}

#[test]
fn thumbnails_are_scaled_to_their_width() {
    let bytes = png(&two_tone(40, 20));
    let thumb = thumbnail_webp(&bytes, 10).unwrap();
    let decoded = image::load_from_memory(&thumb).unwrap();
    assert_eq!(decoded.width(), 10);
    assert!(thumbnail_webp(b"junk", 10).unwrap_err().starts_with("Invalid image: "));
}
