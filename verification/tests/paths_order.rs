use imgbundle::order::{bytes_le, sort_paths};
use imgbundle::paths::{ascii_lowercase, classify, extension, file_name, parent_dir};
use imgbundle::paths::{jpg_target_path, pdf_target_path, ImageKind};

#[test]
fn lowercase_maps_ascii_letters_only() {
    let s = b"IMG_0042.PnG".to_vec();
    assert_eq!(ascii_lowercase(&s), b"img_0042.png".to_vec());
    let t = b"already lower 123".to_vec();
    assert_eq!(ascii_lowercase(&t), t);
}

#[test]
fn file_name_and_parent_split_at_last_slash() {
    let p = b"root/sub/pic.jpg".to_vec();
    assert_eq!(file_name(&p), b"pic.jpg".to_vec());
    assert_eq!(parent_dir(&p), b"root/sub".to_vec());
    let bare = b"pic.jpg".to_vec();
    assert_eq!(file_name(&bare), b"pic.jpg".to_vec());
    assert_eq!(parent_dir(&bare), b"".to_vec());
}

#[test]
fn extension_is_lowercased_suffix_after_last_dot() {
    assert_eq!(extension(&b"photos/IMG.PNG".to_vec()), Some(b"png".to_vec()));
    assert_eq!(extension(&b"a.tar.gz".to_vec()), Some(b"gz".to_vec()));
    assert_eq!(extension(&b"noext".to_vec()), None);
    assert_eq!(extension(&b"dir.d/noext".to_vec()), None);
    assert_eq!(extension(&b".hidden".to_vec()), None);
    assert_eq!(extension(&b"odd.".to_vec()), Some(b"".to_vec()));
}

#[test]
fn classify_reads_the_four_image_extensions() {
    assert_eq!(classify(&b"a/b.jpg".to_vec()), ImageKind::Jpeg);
    assert_eq!(classify(&b"a/b.JPEG".to_vec()), ImageKind::Jpeg);
    assert_eq!(classify(&b"a/b.png".to_vec()), ImageKind::Png);
    assert_eq!(classify(&b"a/b.AviF".to_vec()), ImageKind::Avif);
    assert_eq!(classify(&b"a/b.gif".to_vec()), ImageKind::NotImage);
    assert_eq!(classify(&b"a/no_extension".to_vec()), ImageKind::NotImage);
    assert_eq!(classify(&b"a/.png".to_vec()), ImageKind::NotImage);
}

#[test]
fn jpg_target_replaces_the_extension() {
    assert_eq!(jpg_target_path(&b"d/pic.avif".to_vec()), b"d/pic.jpg".to_vec());
    assert_eq!(jpg_target_path(&b"d/pic.PNG".to_vec()), b"d/pic.jpg".to_vec());
    assert_eq!(jpg_target_path(&b"d/a.tar.png".to_vec()), b"d/a.tar.jpg".to_vec());
}

#[test]
fn pdf_target_appends_pdf() {
    assert_eq!(pdf_target_path(&b"root/photos".to_vec()), b"root/photos.pdf".to_vec());
}

#[test]
fn byte_order_is_lexicographic_with_prefixes_first() {
    assert!(bytes_le(&b"a.png".to_vec(), &b"b.jpg".to_vec()));
    assert!(!bytes_le(&b"b.jpg".to_vec(), &b"a.png".to_vec()));
    assert!(bytes_le(&b"a".to_vec(), &b"a.png".to_vec()));
    assert!(bytes_le(&b"abc".to_vec(), &b"abc".to_vec()));
}

#[test]
fn sort_paths_orders_lexicographically() {
    let input = vec![
        b"r/c.jpg".to_vec(),
        b"r/a.jpg".to_vec(),
        b"r/b.jpg".to_vec(),
    ];
    let sorted = sort_paths(input);
    assert_eq!(
        sorted,
        vec![b"r/a.jpg".to_vec(), b"r/b.jpg".to_vec(), b"r/c.jpg".to_vec()]
    );
}

#[test]
fn sort_paths_result_does_not_depend_on_arrival_order() {
    let one = sort_paths(vec![b"r/a.jpg".to_vec(), b"r/b.jpg".to_vec(), b"r/c.jpg".to_vec()]);
    let two = sort_paths(vec![b"r/c.jpg".to_vec(), b"r/b.jpg".to_vec(), b"r/a.jpg".to_vec()]);
    assert_eq!(one, two);
}
