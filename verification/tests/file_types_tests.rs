use image_sieve::file_types::{is_any, is_heif_image, is_image, is_raw_image, is_video};

#[test]
fn test_extensions() {
    assert!(is_image("/path/to/image.jpg"));
    assert!(is_image("/path/to/image.PNG"));
    assert!(!is_image("/path/to/image"));

    assert!(is_raw_image("/path/to/image.mrw"));
    assert!(is_raw_image("/path/to/image.CR2"));
    assert!(!is_raw_image("/path/to/image.zip"));

    assert!(is_video("path/to/video.mpeg"));
    assert!(is_video("path/to/video.AVI"));
    assert!(!is_video("path/to/video.jpg"));

    assert!(is_heif_image("/path/to/image.heic"));
    assert!(is_heif_image("/path/to/image.HEIF"));
    assert!(!is_heif_image("/path/to/image.png"));

    assert!(is_any("/path/to/image.jpg"));
    assert!(is_any("/path/to/image.CR2"));
    assert!(is_any("/path/to/video.mov"));
    assert!(!is_any("/path/to/video.zip"));
}
