use floral_notepaper::images::image_payload_matches_extension;
use floral_notepaper::notes::NoteStore;

const PNG: &[u8] = b"\x89PNG\r\n\x1a\nrest";

#[test]
fn payloads_must_match_their_extension() {
    assert!(image_payload_matches_extension(PNG, "png"));
    assert!(!image_payload_matches_extension(PNG, "jpg"));
    assert!(image_payload_matches_extension(&[0xFF, 0xD8, 0xFF, 0x00], "jpeg"));
    assert!(image_payload_matches_extension(b"GIF89a...", "gif"));
    assert!(image_payload_matches_extension(b"GIF87a", "gif"));
    assert!(image_payload_matches_extension(b"RIFF\0\0\0\0WEBPVP8 ", "webp"));
    assert!(!image_payload_matches_extension(b"RIFF\0\0\0\0WEBX", "webp"));
    assert!(!image_payload_matches_extension(b"RIFF", "webp"));
    assert!(image_payload_matches_extension(b"BM..", "bmp"));
    assert!(!image_payload_matches_extension(PNG, "tiff"));
    assert!(!image_payload_matches_extension(PNG, "PNG"));
}

#[test]
fn svg_must_have_an_svg_root_and_no_script() {
    assert!(image_payload_matches_extension(b"\xef\xbb\xbf  <svg xmlns='x'></svg>", "svg"));
    assert!(image_payload_matches_extension(b"<?xml version='1.0'?>\n<svg></svg>", "svg"));
    assert!(!image_payload_matches_extension(b"<html></html>", "svg"));
    assert!(!image_payload_matches_extension(b"<svg><SCRIPT>alert(1)</SCRIPT></svg>", "svg"));
    assert!(!image_payload_matches_extension(b"<?xml version='1.0'?>", "svg"));
    assert!(!image_payload_matches_extension(&[0xff, 0xfe, 0x3c], "svg"));
}

#[test]
fn images_are_stored_under_a_fresh_name() {
    let store = NoteStore::new("/c".into(), "/d".into());
    let img = store.save_image("n1", PNG, "PNG").unwrap();
    assert!(img.reference.starts_with("images/n1/"));
    assert!(img.reference.ends_with(".png"));
    assert!(img.path.starts_with("/d/images/n1/"));
    assert!(img.path.ends_with(&img.reference["images/n1/".len()..]));
    assert_eq!(store.save_image("n1", PNG, "exe").unwrap_err().message, "不支持的图片格式: exe");
    assert_eq!(store.save_image("n1", PNG, "gif").unwrap_err().code, "invalidImageData");
    assert_eq!(store.save_image("../x", PNG, "png").unwrap_err().code, "invalidNoteId");
    let big = vec![0u8; 50 * 1024 * 1024 + 1];
    assert_eq!(store.save_image("n1", &big, "png").unwrap_err().code, "imageTooLarge");
}

#[test]
fn unused_images_are_those_the_content_no_longer_references() {
    let store = NoteStore::new("/c".into(), "/d".into());
    let files = vec!["a.png".to_string(), "b.png".to_string()];
    let removed = store
        .clean_unused_images("n1", "![x](images/n1/a.png)", &files)
        .unwrap();
    assert_eq!(removed, vec!["b.png".to_string()]);
    assert!(store.clean_unused_images("..", "", &files).is_err());
}
