use imgbundle::codec::{convert_to_jpeg, should_remove_source, ConvertError};
use imgbundle::pdf::{assemble_pdf, PackError};

/// A small PNG image rendered in memory.
fn png_bytes() -> Vec<u8> {
    let img = image::RgbImage::from_fn(8, 8, |x, y| {
        image::Rgb([(x * 30) as u8, (y * 30) as u8, 100])
    });
    let dynimg = image::DynamicImage::from(img);
    let mut cur = std::io::Cursor::new(Vec::new());
    dynimg
        .write_to(&mut cur, image::ImageFormat::Png)
        .expect("png encoding");
    cur.into_inner()
}

#[test]
fn garbage_bytes_fail_with_decode() {
    let garbage = b"this is not an image at all".to_vec();
    let outcome = convert_to_jpeg(&garbage);
    assert_eq!(outcome, Err(ConvertError::Decode));
    assert!(!should_remove_source(&outcome));
}

#[test]
fn png_converts_to_structurally_valid_jpeg() {
    let png = png_bytes();
    let outcome = convert_to_jpeg(&png);
    let jpeg = outcome.clone().expect("png must convert");
    assert_ne!(jpeg, png);
    assert_eq!(
        image::guess_format(&jpeg).expect("recognizable output"),
        image::ImageFormat::Jpeg
    );
    assert!(should_remove_source(&outcome));
}

#[test]
fn conversion_round_trip_keeps_the_picture() {
    let png = png_bytes();
    let jpeg = convert_to_jpeg(&png).expect("png must convert");
    let before = image::load_from_memory(&png).expect("png decodes").to_rgb8();
    let after = image::load_from_memory(&jpeg).expect("jpeg decodes").to_rgb8();
    assert_eq!(before.width(), after.width());
    assert_eq!(before.height(), after.height());
    // Lossy but similar: small mean absolute pixel error.
    let mut total: f64 = 0.0;
    let mut n: f64 = 0.0;
    for (p, q) in before.pixels().zip(after.pixels()) {
        for c in 0..3 {
            total += (p.0[c] as f64 - q.0[c] as f64).abs();
            n += 1.0;
        }
    }
    assert!(total / n < 16.0, "mean abs error {} too large", total / n);
}

#[test]
fn conversion_is_a_function_of_the_bytes() {
    let png = png_bytes();
    let first = convert_to_jpeg(&png).expect("png must convert");
    let second = convert_to_jpeg(&png).expect("png must convert");
    assert_eq!(first, second);
}

#[test]
fn bundle_of_jpegs_is_a_pdf() {
    let jpeg = convert_to_jpeg(&png_bytes()).expect("png must convert");
    let images = vec![jpeg.clone(), jpeg];
    let pdf = assemble_pdf(&images).expect("packing jpegs");
    assert!(pdf.len() > 4);
    assert_eq!(&pdf[0..4], b"%PDF");
}

#[test]
fn bad_page_is_reported_with_its_index() {
    let jpeg = convert_to_jpeg(&png_bytes()).expect("png must convert");
    let images = vec![jpeg, b"not a jpeg".to_vec()];
    match assemble_pdf(&images) {
        Err(PackError::Image(index)) => assert_eq!(index, 1),
        other => panic!("expected a page error, got {:?}", other.map(|v| v.len())),
    }
}
