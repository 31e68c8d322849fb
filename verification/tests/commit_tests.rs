use std::cell::RefCell;

use image_sieve::commit::{commit, get_sub_path, plan_item, CommitAction, CommitIO};
use image_sieve::dates::Date;
use image_sieve::event::Event;
use image_sieve::file_item::FileItem;
use image_sieve::item_list::{ItemList, SieveMethod};

struct TestCommitIO {
    pub copies: RefCell<Vec<(String, String)>>,
    pub renames: RefCell<Vec<(String, String)>>,
    pub removes: RefCell<Vec<String>>,
    pub creates: RefCell<Vec<String>>,
}

impl TestCommitIO {
    pub fn new() -> Self {
        TestCommitIO {
            copies: RefCell::new(vec![]),
            renames: RefCell::new(vec![]),
            removes: RefCell::new(vec![]),
            creates: RefCell::new(vec![]),
        }
    }

    pub fn reset(&mut self) {
        self.copies.get_mut().clear();
        self.renames.get_mut().clear();
        self.removes.get_mut().clear();
        self.creates.get_mut().clear();
    }
}

impl CommitIO for TestCommitIO {
    fn copy(&self, src: &str, dest: &str) -> Result<(), String> {
        self.copies.borrow_mut().push((String::from(src), String::from(dest)));
        Ok(())
    }

    fn remove_file(&self, path: &str) -> Result<(), String> {
        self.removes.borrow_mut().push(String::from(path));
        Ok(())
    }

    fn move_file(&self, src: &str, dest: &str) -> Result<(), String> {
        self.renames.borrow_mut().push((String::from(src), String::from(dest)));
        Ok(())
    }

    fn create_dir_all(&self, path: &str) -> Result<(), String> {
        self.creates.borrow_mut().push(String::from(path));
        Ok(())
    }

    fn file_exists(&self, path: &str) -> bool {
        path == "target"
    }
}

fn stamp(input: &str) -> i64 {
    chrono::NaiveDateTime::parse_from_str(input, "%Y-%m-%d %H:%M")
        .unwrap()
        .and_utc()
        .timestamp()
}

#[test]
fn commit_test_get_sub_path() {
    let item_list = ItemList {
        items: vec![],
        events: vec![
            Event {
                name: String::from("Test1"),
                start_date: Date { year: 2021, month: 9, day: 14 },
                end_date: Date { year: 2021, month: 9, day: 14 },
            },
            Event {
                name: String::from("Test2"),
                start_date: Date { year: 2021, month: 9, day: 20 },
                end_date: Date { year: 2021, month: 9, day: 21 },
            },
            Event {
                name: String::from("Test3"),
                start_date: Date { year: 2021, month: 9, day: 24 },
                end_date: Date { year: 2021, month: 9, day: 27 },
            },
        ],
        path: String::from(""),
    };
    let test_cases = [
        ("2021-09-14 00:00", "2021-09-14 Test1"),
        ("2021-09-13 23:59", "2021-09"),
        ("2021-09-15 00:00", "2021-09"),
        ("2021-09-20 00:00", "2021-09-20 - 2021-09-21 Test2"),
        ("2021-09-21 16:00", "2021-09-20 - 2021-09-21 Test2"),
        ("2021-09-25 16:00", "2021-09-24 - 2021-09-27 Test3"),
    ];

    for (input, result) in test_cases {
        assert_eq!(
            get_sub_path(&item_list, &FileItem::dummy("", stamp(input), false)),
            result
        );
    }
}

#[test]
fn test_commit_methods() {
    let item_list = ItemList {
        items: vec![
            FileItem::dummy("test/test1", 0, true),
            FileItem::dummy("test/test2", 0, false),
        ],
        events: vec![],
        path: String::from(""),
    };
    let mut commit_io = TestCommitIO::new();

    commit(&item_list, "target", SieveMethod::Delete, &commit_io, |_: String| {});
    assert_eq!(commit_io.copies.borrow().len(), 0);
    assert_eq!(commit_io.creates.borrow().len(), 0);
    assert_eq!(commit_io.renames.borrow().len(), 0);
    assert_eq!(commit_io.removes.borrow().len(), 1);
    assert_eq!(commit_io.removes.borrow()[0], "test/test2");

    commit_io.reset();
    commit(&item_list, "target", SieveMethod::Copy, &commit_io, |_: String| {});
    assert_eq!(commit_io.copies.borrow().len(), 1);
    assert_eq!(commit_io.copies.borrow()[0].0, "test/test1");
    assert_eq!(commit_io.copies.borrow()[0].1, "target/1970-01/test1");
    assert_eq!(commit_io.creates.borrow().len(), 1);
    assert_eq!(commit_io.creates.borrow()[0], "target/1970-01");
    assert_eq!(commit_io.renames.borrow().len(), 0);
    assert_eq!(commit_io.removes.borrow().len(), 0);

    commit_io.reset();
    commit(&item_list, "target", SieveMethod::Move, &commit_io, |_: String| {});
    assert_eq!(commit_io.copies.borrow().len(), 0);
    assert_eq!(commit_io.creates.borrow().len(), 1);
    assert_eq!(commit_io.creates.borrow()[0], "target/1970-01");
    assert_eq!(commit_io.renames.borrow().len(), 1);
    assert_eq!(commit_io.renames.borrow()[0].0, "test/test1");
    assert_eq!(commit_io.renames.borrow()[0].1, "target/1970-01/test1");
    assert_eq!(commit_io.removes.borrow().len(), 0);

    commit_io.reset();
    commit(&item_list, "target", SieveMethod::MoveAndDelete, &commit_io, |_: String| {});
    assert_eq!(commit_io.copies.borrow().len(), 0);
    assert_eq!(commit_io.creates.borrow().len(), 1);
    assert_eq!(commit_io.creates.borrow()[0], "target/1970-01");
    assert_eq!(commit_io.renames.borrow().len(), 1);
    assert_eq!(commit_io.renames.borrow()[0].0, "test/test1");
    assert_eq!(commit_io.renames.borrow()[0].1, "target/1970-01/test1");
    assert_eq!(commit_io.removes.borrow().len(), 1);
    assert_eq!(commit_io.removes.borrow()[0], "test/test2");
}

#[test]
fn commit_plans_follow_method_and_keep_flag() {
    let item_list = ItemList { items: vec![], events: vec![], path: String::from("") };
    let kept = FileItem::dummy("test/test1", 0, true);
    let discarded = FileItem::dummy("test/test2", 0, false);

    assert_eq!(
        plan_item(&item_list, &kept, "target", SieveMethod::Copy),
        CommitAction::Transfer {
            directory: String::from("target/1970-01"),
            target: String::from("target/1970-01/test1"),
        }
    );
    assert_eq!(
        plan_item(&item_list, &kept, "target", SieveMethod::Delete),
        CommitAction::Keep
    );
    assert_eq!(
        plan_item(&item_list, &discarded, "target", SieveMethod::MoveAndDelete),
        CommitAction::Remove
    );
    assert_eq!(
        plan_item(&item_list, &discarded, "target", SieveMethod::Copy),
        CommitAction::Keep
    );
}
