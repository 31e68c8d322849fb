use image_sieve::item_traits::Orientation;
use image_sieve::resize::{get_position, restrict_size};

#[test]
fn test_get_size() {
    let size = restrict_size((100, 100), (100, 100));
    assert_eq!(size, (100, 100));

    let size = restrict_size((1000, 1000), (100, 100));
    assert_eq!(size, (100, 100));

    let size = restrict_size((10, 10), (100, 100));
    assert_eq!(size, (10, 10));

    let size = restrict_size((100, 50), (100, 100));
    assert_eq!(size, (100, 50));

    let size = restrict_size((50, 100), (100, 100));
    assert_eq!(size, (50, 100));

    let size = restrict_size((200, 60), (100, 100));
    assert_eq!(size, (100, 30));

    let size = restrict_size((200, 60), (100, 0));
    assert_eq!(size, (100, 30));

    let size = restrict_size((60, 150), (100, 100));
    assert_eq!(size, (40, 100));

    let size = restrict_size((60, 150), (0, 100));
    assert_eq!(size, (40, 100));

    let size = restrict_size((200, 400), (100, 100));
    assert_eq!(size, (50, 100));

    let size = restrict_size((400, 200), (100, 100));
    assert_eq!(size, (100, 50));

    let size = restrict_size((400, 200), (0, 0));
    assert_eq!(size, (400, 200));
}

#[test]
fn test_positions() {
    assert_eq!(get_position(None, 0, 10, 20), (0, 0));
    assert_eq!(get_position(None, 4, 10, 20), (10, 20));
    assert_eq!(get_position(None, 8, 10, 20), (20, 40));
    assert_eq!(get_position(Some(&Orientation::Landscape), 5, 10, 20), (20, 20));
    assert_eq!(get_position(Some(&Orientation::Portrait90), 1, 10, 20), (0, 20));
    assert_eq!(get_position(Some(&Orientation::Landscape180), 0, 10, 20), (20, 40));
    assert_eq!(get_position(Some(&Orientation::Portrait270), 2, 10, 20), (20, 40));
}
