use std::cell::RefCell;

use image_sieve::dates::Date;
use image_sieve::event::Event;
use image_sieve::file_item::FileItem;
use image_sieve::item_list::{DirectoryNames, ItemList, SieveMethod};
use image_sieve::sieve::{collision_step, get_sub_path, plan_item, sieve, CollisionStep,
    SieveAction, SieveIO};

struct TestSieveIO {
    pub copies: RefCell<Vec<(String, String)>>,
    pub renames: RefCell<Vec<(String, String)>>,
    pub removes: RefCell<Vec<String>>,
    pub creates: RefCell<Vec<String>>,
}

impl TestSieveIO {
    pub fn new() -> Self {
        TestSieveIO {
            copies: RefCell::new(vec![]),
            renames: RefCell::new(vec![]),
            removes: RefCell::new(vec![]),
            creates: RefCell::new(vec![]),
        }
    }

    pub fn reset(&mut self) {
        self.copies.get_mut().clear();
        self.renames.get_mut().clear();
        self.removes.get_mut().clear();
        self.creates.get_mut().clear();
    }
}

impl SieveIO for TestSieveIO {
    fn copy(&self, src: &str, dest: &str) -> Result<(), String> {
        self.copies.borrow_mut().push((String::from(src), String::from(dest)));
        Ok(())
    }

    fn remove_file(&self, path: &str) -> Result<(), String> {
        self.removes.borrow_mut().push(String::from(path));
        Ok(())
    }

    fn move_file(&self, src: &str, dest: &str) -> Result<(), String> {
        self.renames.borrow_mut().push((String::from(src), String::from(dest)));
        Ok(())
    }

    fn create_dir_all(&self, path: &str) -> Result<(), String> {
        self.creates.borrow_mut().push(String::from(path));
        Ok(())
    }

    fn file_exists(&self, path: &str) -> bool {
        path == "target"
    }

    fn different(&self, _f1: &str, _f2: &str) -> Result<bool, String> {
        Ok(true)
    }
}

fn directory_names_from(index: usize) -> DirectoryNames {
    match index {
        0 => DirectoryNames::YearAndMonth,
        1 => DirectoryNames::Year,
        2 => DirectoryNames::YearMonthAndDay,
        3 => DirectoryNames::YearAndQuarter,
        _ => DirectoryNames::YearAndMonthInSubdirectory,
    }
}

fn stamp(input: &str) -> i64 {
    chrono::NaiveDateTime::parse_from_str(input, "%Y-%m-%d %H:%M")
        .unwrap()
        .and_utc()
        .timestamp()
}

#[test]
fn sieve_test_get_sub_path() {
    let item_list = ItemList {
        items: vec![],
        events: vec![
            Event {
                name: String::from("Test1"),
                start_date: Date { year: 2021, month: 9, day: 14 },
                end_date: Date { year: 2021, month: 9, day: 14 },
            },
            Event {
                name: String::from("Test2"),
                start_date: Date { year: 2021, month: 9, day: 20 },
                end_date: Date { year: 2021, month: 9, day: 21 },
            },
            Event {
                name: String::from("Test3"),
                start_date: Date { year: 2021, month: 9, day: 24 },
                end_date: Date { year: 2022, month: 9, day: 27 },
            },
        ],
        path: String::from(""),
    };
    let test_cases = [
        (
            "2021-09-14 00:00",
            [
                "2021-09-14 Test1",
                "2021-09-14 Test1",
                "2021-09-14 Test1",
                "2021-09-14 Test1",
                "202109-14 Test1",
            ],
        ),
        (
            "2021-09-13 23:59",
            ["2021-09", "2021", "2021-09-13", "2021-Q3", "202109"],
        ),
        (
            "2021-09-15 00:00",
            ["2021-09", "2021", "2021-09-15", "2021-Q3", "202109"],
        ),
        (
            "2021-09-20 00:00",
            [
                "2021-09-20 - 2021-09-21 Test2",
                "2021-09-20 - 2021-09-21 Test2",
                "2021-09-20 - 2021-09-21 Test2",
                "2021-09-20 - 2021-09-21 Test2",
                "202109-20 - 09-21 Test2",
            ],
        ),
        (
            "2021-09-21 16:00",
            [
                "2021-09-20 - 2021-09-21 Test2",
                "2021-09-20 - 2021-09-21 Test2",
                "2021-09-20 - 2021-09-21 Test2",
                "2021-09-20 - 2021-09-21 Test2",
                "202109-20 - 09-21 Test2",
            ],
        ),
        (
            "2021-09-25 16:00",
            [
                "2021-09-24 - 2022-09-27 Test3",
                "2021-09-24 - 2022-09-27 Test3",
                "2021-09-24 - 2022-09-27 Test3",
                "2021-09-24 - 2022-09-27 Test3",
                "202109-24 - 2022-09-27 Test3",
            ],
        ),
        (
            "2020-01-13 23:59",
            ["2020-01", "2020", "2020-01-13", "2020-Q1", "202001"],
        ),
        (
            "2021-04-15 00:00",
            ["2021-04", "2021", "2021-04-15", "2021-Q2", "202104"],
        ),
    ];

    for (input, results) in test_cases {
        for (i, result) in results.into_iter().enumerate() {
            let item = FileItem::dummy("test.jpg", stamp(input), false);
            let sub_path: String =
                get_sub_path(&item_list, &item, &directory_names_from(i)).join("");
            assert_eq!(sub_path, result);
        }
    }
}

#[test]
fn test_sieve_methods() {
    let item_list = ItemList {
        items: vec![
            FileItem::dummy("test/test1.jpg", 0, true),
            FileItem::dummy("test/test2.jpg", 0, false),
        ],
        events: vec![],
        path: String::from(""),
    };
    let mut sieve_io = TestSieveIO::new();

    sieve(
        &item_list,
        "target",
        SieveMethod::Delete,
        DirectoryNames::YearAndMonth,
        &sieve_io,
        |_: String| {},
    );
    assert_eq!(sieve_io.copies.borrow().len(), 0);
    assert_eq!(sieve_io.creates.borrow().len(), 0);
    assert_eq!(sieve_io.renames.borrow().len(), 0);
    assert_eq!(sieve_io.removes.borrow().len(), 1);
    assert_eq!(sieve_io.removes.borrow()[0], "test/test2.jpg");

    sieve_io.reset();
    sieve(
        &item_list,
        "target",
        SieveMethod::Copy,
        DirectoryNames::YearAndMonth,
        &sieve_io,
        |_: String| {},
    );
    assert_eq!(sieve_io.copies.borrow().len(), 1);
    assert_eq!(sieve_io.copies.borrow()[0].0, "test/test1.jpg");
    assert_eq!(sieve_io.copies.borrow()[0].1, "target/1970-01/test1.jpg");
    assert_eq!(sieve_io.creates.borrow().len(), 1);
    assert_eq!(sieve_io.creates.borrow()[0], "target/1970-01");
    assert_eq!(sieve_io.renames.borrow().len(), 0);
    assert_eq!(sieve_io.removes.borrow().len(), 0);

    sieve_io.reset();
    sieve(
        &item_list,
        "target",
        SieveMethod::Move,
        DirectoryNames::YearAndMonth,
        &sieve_io,
        |_: String| {},
    );
    assert_eq!(sieve_io.copies.borrow().len(), 0);
    assert_eq!(sieve_io.creates.borrow().len(), 1);
    assert_eq!(sieve_io.creates.borrow()[0], "target/1970-01");
    assert_eq!(sieve_io.renames.borrow().len(), 1);
    assert_eq!(sieve_io.renames.borrow()[0].0, "test/test1.jpg");
    assert_eq!(sieve_io.renames.borrow()[0].1, "target/1970-01/test1.jpg");
    assert_eq!(sieve_io.removes.borrow().len(), 0);

    sieve_io.reset();
    sieve(
        &item_list,
        "target",
        SieveMethod::MoveAndDelete,
        DirectoryNames::YearAndMonth,
        &sieve_io,
        |_: String| {},
    );
    assert_eq!(sieve_io.copies.borrow().len(), 0);
    assert_eq!(sieve_io.creates.borrow().len(), 1);
    assert_eq!(sieve_io.creates.borrow()[0], "target/1970-01");
    assert_eq!(sieve_io.renames.borrow().len(), 1);
    assert_eq!(sieve_io.renames.borrow()[0].0, "test/test1.jpg");
    assert_eq!(sieve_io.renames.borrow()[0].1, "target/1970-01/test1.jpg");
    assert_eq!(sieve_io.removes.borrow().len(), 1);
    assert_eq!(sieve_io.removes.borrow()[0], "test/test2.jpg");
}

/// A file system stub whose destination files come into being as they are
/// copied or moved, so collisions play out as on a real disk.
struct CollisionIO {
    pub present: RefCell<Vec<String>>,
    pub identical: bool,
    pub transfers: RefCell<Vec<(String, String)>>,
}

impl SieveIO for CollisionIO {
    fn copy(&self, src: &str, dest: &str) -> Result<(), String> {
        self.transfers.borrow_mut().push((String::from(src), String::from(dest)));
        self.present.borrow_mut().push(String::from(dest));
        Ok(())
    }

    fn remove_file(&self, _path: &str) -> Result<(), String> {
        Ok(())
    }

    fn move_file(&self, src: &str, dest: &str) -> Result<(), String> {
        self.transfers.borrow_mut().push((String::from(src), String::from(dest)));
        self.present.borrow_mut().push(String::from(dest));
        Ok(())
    }

    fn create_dir_all(&self, _path: &str) -> Result<(), String> {
        Ok(())
    }

    fn file_exists(&self, path: &str) -> bool {
        self.present.borrow().iter().any(|p| p == path)
    }

    fn different(&self, _f1: &str, _f2: &str) -> Result<bool, String> {
        Ok(!self.identical)
    }
}

#[test]
fn collision_renames_second_file() {
    // Two different source files target the same destination name: the
    // second lands under a suffixed name.
    let item_list = ItemList {
        items: vec![
            FileItem::dummy("a/test.jpg", 0, true),
            FileItem::dummy("b/test.jpg", 0, true),
        ],
        events: vec![],
        path: String::from(""),
    };
    let io = CollisionIO {
        present: RefCell::new(vec![]),
        identical: false,
        transfers: RefCell::new(vec![]),
    };
    sieve(
        &item_list,
        "target",
        SieveMethod::Move,
        DirectoryNames::YearAndMonth,
        &io,
        |_: String| {},
    );
    assert_eq!(io.transfers.borrow().len(), 2);
    assert_eq!(io.transfers.borrow()[0].1, "target/1970-01/test.jpg");
    assert_eq!(io.transfers.borrow()[1].1, "target/1970-01/test_.jpg");
}

#[test]
fn collision_with_identical_content_is_reported() {
    // Two byte-identical files with the same destination name: the second
    // is reported as an error and never copied.
    let item_list = ItemList {
        items: vec![
            FileItem::dummy("a/test.jpg", 0, true),
            FileItem::dummy("b/test.jpg", 0, true),
        ],
        events: vec![],
        path: String::from(""),
    };
    let io = CollisionIO {
        present: RefCell::new(vec![]),
        identical: true,
        transfers: RefCell::new(vec![]),
    };
    let log: RefCell<Vec<String>> = RefCell::new(vec![]);
    sieve(
        &item_list,
        "target",
        SieveMethod::Move,
        DirectoryNames::YearAndMonth,
        &io,
        |line: String| log.borrow_mut().push(line),
    );
    assert_eq!(io.transfers.borrow().len(), 1);
    let log_lines = log.borrow();
    assert!(log_lines.iter().any(|l| l.starts_with("Error moving b/test.jpg: ")
        && l.contains("Destination file already exists: target/1970-01/test.jpg")));
    assert_eq!(log_lines.last().unwrap(), "Done");
}

#[test]
fn collision_steps_decide_each_outcome() {
    assert_eq!(
        collision_step(false, Ok(false), "t/a.jpg"),
        CollisionStep::Take
    );
    assert_eq!(
        collision_step(true, Ok(true), "t/a.jpg"),
        CollisionStep::Retry(String::from("t/a_.jpg"))
    );
    assert_eq!(
        collision_step(true, Ok(false), "t/a.jpg"),
        CollisionStep::Refuse(String::from(
            "Destination file already exists: t/a.jpg"
        ))
    );
    assert_eq!(
        collision_step(true, Err(String::from("unreadable")), "t/a.jpg"),
        CollisionStep::Fail(String::from("unreadable"))
    );
}

#[test]
fn plans_follow_method_and_keep_flag() {
    let item_list = ItemList { items: vec![], events: vec![], path: String::from("") };
    let kept = FileItem::dummy("test/test1.jpg", 0, true);
    let discarded = FileItem::dummy("test/test2.jpg", 0, false);

    assert_eq!(
        plan_item(&item_list, &kept, "target", SieveMethod::Copy, &DirectoryNames::YearAndMonth),
        SieveAction::Transfer {
            directory: String::from("target/1970-01"),
            target: String::from("target/1970-01/test1.jpg"),
        }
    );
    assert_eq!(
        plan_item(&item_list, &kept, "target", SieveMethod::Delete, &DirectoryNames::YearAndMonth),
        SieveAction::Keep
    );
    assert_eq!(
        plan_item(
            &item_list,
            &discarded,
            "target",
            SieveMethod::Delete,
            &DirectoryNames::YearAndMonth,
        ),
        SieveAction::Remove
    );
    assert_eq!(
        plan_item(
            &item_list,
            &discarded,
            "target",
            SieveMethod::MoveAndDelete,
            &DirectoryNames::YearAndMonth,
        ),
        SieveAction::Remove
    );
    assert_eq!(
        plan_item(&item_list, &discarded, "target", SieveMethod::Move, &DirectoryNames::YearAndMonth),
        SieveAction::Keep
    );
}
