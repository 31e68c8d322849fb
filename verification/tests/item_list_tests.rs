use std::cell::RefCell;
use std::rc::Rc;

use base64::engine::general_purpose;
use base64::Engine as _;

use image_sieve::file_item::FileItem;
use image_sieve::item_list::ItemList;
use image_sieve::item_traits::{Orientation, PropertyResolver};

struct MockResolver {
    call_count: Rc<RefCell<usize>>,
}

impl MockResolver {
    pub fn new(call_count: Rc<RefCell<usize>>) -> Self {
        MockResolver { call_count }
    }
}

impl PropertyResolver for MockResolver {
    fn get_timestamp(&self) -> i64 {
        let return_values: [i64; 6] = [0, 4, 8, 14, 64, 65];
        let call_count = *self.call_count.borrow_mut();
        self.call_count.replace(call_count + 1);
        return_values[call_count]
    }

    fn get_orientation(&self) -> Option<Orientation> {
        None
    }
}

struct FixedResolver {
    timestamp: i64,
}

impl PropertyResolver for FixedResolver {
    fn get_timestamp(&self) -> i64 {
        self.timestamp
    }

    fn get_orientation(&self) -> Option<Orientation> {
        None
    }
}

#[test]
fn find_similar() {
    let call_count = Rc::new(RefCell::new(0));

    let mut items: Vec<FileItem> = vec![];
    for _ in 0..6 {
        let resolver = MockResolver::new(call_count.clone());
        items.push(FileItem::new(String::from("test.jpg"), &resolver, true, ""));
    }
    let mut item_list = ItemList { items, events: vec![], path: String::from("") };

    item_list.find_similar(5);

    assert_eq!(2, item_list.items[0].get_similars().len());
    assert_eq!(2, item_list.items[1].get_similars().len());
    assert_eq!(2, item_list.items[2].get_similars().len());
    assert_eq!(0, item_list.items[3].get_similars().len());
    assert_eq!(1, item_list.items[4].get_similars().len());
    assert_eq!(1, item_list.items[5].get_similars().len());
}

#[test]
fn find_similar_hashes() {
    let call_count = Rc::new(RefCell::new(0));

    let mut items: Vec<FileItem> = vec![];
    let hashes = ["a", "b", "c", "h", "i", "j"];
    for hash in hashes {
        let encoded = general_purpose::STANDARD.encode(hash);
        let resolver = MockResolver::new(call_count.clone());
        items.push(FileItem::new(String::from("test.jpg"), &resolver, true, &encoded));
    }
    let mut item_list = ItemList { items, events: vec![], path: String::from("") };

    item_list.find_similar_hashes(2);

    assert_eq!(2, item_list.items[0].get_similars().len());
    assert_eq!(2, item_list.items[4].get_similars().len());
}

#[test]
fn updating() {
    let resolver = FixedResolver { timestamp: 0 };
    let mut item_list = ItemList { items: vec![], events: vec![], path: String::from("") };

    item_list.check_and_add("tests/test_no_date.jpg", &resolver);
    item_list.check_and_add("tests/test_no_exif.jpg", &resolver);
    item_list.check_and_add("tests/test.jpg", &resolver);
    item_list.check_and_add("tests/test_no_date.jpg", &resolver);
    item_list.check_and_add("tests/test_invalid.jpg", &resolver);
    item_list.check_and_add("tests/test", &resolver);
    assert_eq!(4, item_list.items.len());
    assert_eq!(Some(0), item_list.index_of_path("tests/test_no_date.jpg"));

    item_list.finish_synchronizing("tests");
    assert_eq!("tests", item_list.path);

    item_list.add_item("tests/not_there.jpg", &resolver, true, "");
    assert_eq!(5, item_list.items.len());
    let present = vec![true, true, true, true, false];
    item_list.drain_missing(&present);
    assert_eq!(4, item_list.items.len());
    assert_eq!(None, item_list.index_of_path("tests/not_there.jpg"));
}

#[test]
fn clustering_is_idempotent() {
    // Running either pass again on the unchanged list leaves every
    // similar-set as it is, with no duplicates and no self-references.
    let mut item_list = ItemList { items: vec![], events: vec![], path: String::from("") };
    let stamps: [i64; 6] = [0, 4, 8, 14, 64, 65];
    for ts in stamps {
        let resolver = FixedResolver { timestamp: ts };
        item_list.check_and_add(&format!("t{}.jpg", ts), &resolver);
    }
    item_list.items[0].set_hash(vec![0x10]);
    item_list.items[1].set_hash(vec![0x11]);
    item_list.items[2].set_hash(vec![0x10]);

    item_list.find_similar(5);
    let once: Vec<Vec<usize>> =
        item_list.items.iter().map(|i| i.get_similars().clone()).collect();
    item_list.find_similar(5);
    let twice: Vec<Vec<usize>> =
        item_list.items.iter().map(|i| i.get_similars().clone()).collect();
    assert_eq!(once, twice);

    item_list.find_similar_hashes(2);
    let once_hashed: Vec<Vec<usize>> =
        item_list.items.iter().map(|i| i.get_similars().clone()).collect();
    item_list.find_similar_hashes(2);
    let twice_hashed: Vec<Vec<usize>> =
        item_list.items.iter().map(|i| i.get_similars().clone()).collect();
    assert_eq!(once_hashed, twice_hashed);

    for (index, item) in item_list.items.iter().enumerate() {
        let similars = item.get_similars();
        assert!(!similars.contains(&index));
        for window in similars.windows(2) {
            assert!(window[0] < window[1]);
        }
    }
}

#[test]
fn hash_clusters_report_cluster_size() {
    // Two clusters of mutually close hashes: every member reports the
    // cluster size less one, and nothing across clusters.
    let mut item_list = ItemList { items: vec![], events: vec![], path: String::from("") };
    for k in 0..5u32 {
        let resolver = FixedResolver { timestamp: k as i64 * 1000 };
        item_list.check_and_add(&format!("h{}.jpg", k), &resolver);
    }
    item_list.items[0].set_hash(vec![0x10]);
    item_list.items[1].set_hash(vec![0x11]);
    item_list.items[2].set_hash(vec![0x10]);
    item_list.items[3].set_hash(vec![0xFF]);
    item_list.items[4].set_hash(vec![0xFE]);

    item_list.find_similar_hashes(2);

    assert_eq!(item_list.items[0].get_similars(), &vec![1, 2]);
    assert_eq!(item_list.items[1].get_similars(), &vec![0, 2]);
    assert_eq!(item_list.items[2].get_similars(), &vec![0, 1]);
    assert_eq!(item_list.items[3].get_similars(), &vec![4]);
    assert_eq!(item_list.items[4].get_similars(), &vec![3]);
}

#[test]
fn items_without_hash_never_cluster() {
    let mut item_list = ItemList { items: vec![], events: vec![], path: String::from("") };
    for k in 0..3u32 {
        let resolver = FixedResolver { timestamp: 0 };
        item_list.check_and_add(&format!("n{}.jpg", k), &resolver);
    }
    item_list.items[0].set_hash(vec![0x10]);

    item_list.find_similar_hashes(100);

    assert_eq!(0, item_list.items[0].get_similars().len());
    assert_eq!(0, item_list.items[1].get_similars().len());
    assert_eq!(0, item_list.items[2].get_similars().len());
}

#[test]
fn hash_candidates_are_the_unhashed_images() {
    let mut item_list = ItemList { items: vec![], events: vec![], path: String::from("") };
    let resolver = FixedResolver { timestamp: 0 };
    item_list.check_and_add("a.jpg", &resolver);
    item_list.check_and_add("b.mov", &resolver);
    item_list.check_and_add("c.nef", &resolver);
    item_list.check_and_add("d.jpg", &resolver);
    item_list.items[3].set_hash(vec![0x01]);

    assert_eq!(item_list.hash_candidates(), vec![0, 2]);
}
