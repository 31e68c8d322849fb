use image_sieve::file_item::FileItem;
use image_sieve::item_traits::{Orientation, PropertyResolver};

type HashType = img_hash::ImageHash<Vec<u8>>;

struct MockResolver {
    timestamp: i64,
    orientation: Option<Orientation>,
}

impl MockResolver {
    fn new(timestamp: i64, orientation: Option<Orientation>) -> Self {
        MockResolver { timestamp, orientation }
    }
}

impl PropertyResolver for MockResolver {
    fn get_timestamp(&self) -> i64 {
        self.timestamp
    }

    fn get_orientation(&self) -> Option<Orientation> {
        self.orientation
    }
}

#[test]
fn test_new() {
    let resolver = MockResolver::new(10, Some(Orientation::Landscape180));
    let file_item = FileItem::new(String::from("tests/test.jpg"), &resolver, true, "");

    assert_eq!(Some(&Orientation::Landscape180), file_item.get_orientation());
    assert_eq!(10, file_item.get_timestamp());
    assert!(file_item.get_take_over());
    assert_eq!("", file_item.get_encoded_hash());

    let resolver = MockResolver::new(10, Some(Orientation::Landscape180));
    FileItem::new(String::from("tests/not_existing.jpg"), &resolver, true, "");
}

#[test]
fn test_hashes() {
    let resolver = MockResolver::new(10, Some(Orientation::Landscape180));
    let mut file_item =
        FileItem::new(String::from("tests/test.jpg"), &resolver, true, "Wrong_hash");
    assert_eq!("", file_item.get_encoded_hash());
    assert!(!file_item.has_hash());

    let resolver = MockResolver::new(10, Some(Orientation::Landscape180));
    let hash = HashType::from_bytes(&[0x61, 0x62, 0x63]).unwrap().to_base64();
    let mut file_item2 = FileItem::new(String::from("tests/test.jpg"), &resolver, true, &hash);
    assert_eq!(hash, file_item2.get_encoded_hash());
    assert!(file_item2.has_hash());

    let hash = HashType::from_bytes(&[0x64, 0x65, 0x66, 0x67]).unwrap().to_base64();
    file_item2.set_encoded_hash(&hash);
    assert_eq!(hash, file_item2.get_encoded_hash());
    assert!(file_item2.has_hash());

    file_item2.set_hash(vec![0x64, 0x65, 0x66, 0x67]);
    assert_eq!(hash, file_item2.get_encoded_hash());
    assert!(file_item2.has_hash());

    assert_eq!(file_item.get_hash_distance(&file_item2), u32::MAX);
    file_item.set_hash(vec![0x64, 0x65, 0x66, 0x67]);

    assert_eq!(
        file_item.get_hash_distance(&file_item2),
        file_item2.get_hash_distance(&file_item)
    );
    assert_eq!(file_item.get_hash_distance(&file_item2), 0);
}

#[test]
fn test_takeover() {
    let resolver = MockResolver::new(10, Some(Orientation::Landscape180));
    let mut file_item =
        FileItem::new(String::from("tests/test.jpg"), &resolver, true, "Wrong_hash");

    file_item.set_take_over(false);
    assert!(!file_item.get_take_over());
}

#[test]
fn hash_distances_count_differing_bits() {
    let mut a = FileItem::dummy("a.jpg", 0, true);
    let mut b = FileItem::dummy("b.jpg", 0, true);
    a.set_hash(vec![0b0110_0001]);
    b.set_hash(vec![0b0110_0010]);
    assert_eq!(a.get_hash_distance(&b), 2);
    b.set_hash(vec![0b0110_0001, 0xFF]);
    // The distance runs over the common length only.
    assert_eq!(a.get_hash_distance(&b), 0);
}

#[test]
fn item_kinds_follow_the_extension() {
    let image = FileItem::dummy("x/y.JPG", 0, true);
    assert!(image.is_image() && !image.is_video() && !image.is_raw_image());
    let video = FileItem::dummy("x/y.mov", 0, true);
    assert!(video.is_video() && !video.is_image());
    let raw = FileItem::dummy("x/y.nef", 0, true);
    assert!(raw.is_raw_image());
}
