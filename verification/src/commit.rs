//! The commit engine: the plain precursor of the sieve.  It files kept
//! items under the event span or a year-month folder, refuses to
//! overwrite an existing destination, and reports progress through a
//! callback, closed by a final `Done` line.

use vstd::prelude::*;

use crate::dates::Date;
use crate::event::Event;
use crate::file_item::FileItem;
use crate::item_list::{first_containing, ItemList, SieveMethod};
use crate::timestamp::{timestamp_chars, Format};

verus! {

/// The file system operations the commit needs.  Implementations do the
/// real work; nothing is assumed of their outcomes.
pub trait CommitIO {
    /// Copy `src` to `dest`.
    fn copy(&self, src: &str, dest: &str) -> Result<(), String>;

    /// Remove the file at `path`.
    fn remove_file(&self, path: &str) -> Result<(), String>;

    /// Move `src` to `dest`.
    fn move_file(&self, src: &str, dest: &str) -> Result<(), String>;

    /// Create the directory at `path`, with its parents.
    fn create_dir_all(&self, path: &str) -> Result<(), String>;

    /// Whether a file exists at `path`.
    fn file_exists(&self, path: &str) -> bool;
}

/// The folder a file item is committed into: its event's span and name,
/// or its capture month.
pub open spec fn spec_commit_sub_path(events: Seq<Event>, item: FileItem) -> Seq<char> {
    let ei = match Date::spec_from_timestamp(item.timestamp as int) {
        Some(d) => first_containing(events, d, 0),
        None => -1,
    };
    if ei >= 0 {
        crate::sieve::event_dir_chars(events[ei])
    } else {
        timestamp_chars(item.timestamp as int, Format::YearAndMonth)
    }
}

/// The folder an item is committed into, as `spec_commit_sub_path` states.
pub fn get_sub_path(item_list: &ItemList, item: &FileItem) -> (r: String)
    requires
        item_list.events_wf(),
    ensures
        r@ == spec_commit_sub_path(item_list.events@, *item),
{
    let event_ref: Option<&Event> = item_list.get_event(item);
    match event_ref {
        Some(event) => {
            let mut out: String = String::new();
            event.start_date.push_ymd(&mut out);
            if event.start_date.year == event.end_date.year && event.start_date.month
                == event.end_date.month && event.start_date.day == event.end_date.day {
                out.append(" ");
                out.append(event.name.as_str());
                proof {
                    reveal_strlit(" ");
                    assert(out@ =~= spec_commit_sub_path(item_list.events@, *item));
                }
            } else {
                out.append(" - ");
                event.end_date.push_ymd(&mut out);
                out.append(" ");
                out.append(event.name.as_str());
                proof {
                    reveal_strlit(" ");
                    reveal_strlit(" - ");
                    assert(" - "@ =~= seq![' ', '-', ' ']);
                    assert(out@ =~= spec_commit_sub_path(item_list.events@, *item));
                }
            }
            out
        },
        None => {
            crate::timestamp::timestamp_to_string(item.get_timestamp(), Format::YearAndMonth)
        },
    }
}

/// What the commit does with one item.
#[derive(Debug, PartialEq)]
pub enum CommitAction {
    /// Copy or move the file into `directory`, under the final `target`
    /// path.
    Transfer { directory: String, target: String },
    /// Delete the file.
    Remove,
    /// Leave the file untouched.
    Keep,
}

/// Plan what the commit does with one item: under `Delete` only
/// discarded files are removed; otherwise a kept file is transferred
/// into its event or year-month folder under its own file name, and a
/// discarded file is removed exactly under `MoveAndDelete`.
pub fn plan_item(
    item_list: &ItemList,
    item: &FileItem,
    root: &str,
    method: SieveMethod,
) -> (r: CommitAction)
    requires
        item_list.events_wf(),
    ensures
        method == SieveMethod::Delete ==> r == (if item.take_over {
            CommitAction::Keep
        } else {
            CommitAction::Remove
        }),
        method != SieveMethod::Delete && !item.take_over ==> r == (if method
            == SieveMethod::MoveAndDelete {
            CommitAction::Remove
        } else {
            CommitAction::Keep
        }),
        method != SieveMethod::Delete && item.take_over ==> (r matches CommitAction::Transfer {
            directory,
            target,
        } && directory@ == root@ + seq!['/'] + spec_commit_sub_path(item_list.events@, *item)
            && target@ == directory@ + seq!['/'] + crate::paths::spec_file_name(item.path@)),
{
    if matches!(method, SieveMethod::Delete) {
        if item.get_take_over() {
            CommitAction::Keep
        } else {
            CommitAction::Remove
        }
    } else if item.get_take_over() {
        let sub_path: String = get_sub_path(item_list, item);
        let directory: String = crate::paths::join(root, sub_path.as_str());
        let name: &str = crate::paths::file_name(item.path.as_str());
        let target: String = crate::paths::join(directory.as_str(), name);
        CommitAction::Transfer { directory, target }
    } else if matches!(method, SieveMethod::MoveAndDelete) {
        CommitAction::Remove
    } else {
        CommitAction::Keep
    }
}

/// Commit a collection into the target folder: kept items are copied or
/// moved into their event or year-month folder, discarded items are
/// deleted where the method says so, and every step and failure is
/// reported through the progress callback, closed by a final `Done`
/// line.  Each item's fate is the verified `plan_item`; this driver only
/// executes the plan.
pub fn commit<T: CommitIO, F: Fn(String)>(
    item_list: &ItemList,
    path: &str,
    commit_method: SieveMethod,
    commit_io: &T,
    progress_callback: F,
)
    requires
        item_list.events_wf(),
        forall|s: String| #[trigger] progress_callback.requires((s,)),
{
    let n: usize = item_list.items.len();
    if !matches!(commit_method, SieveMethod::Delete) {
        prepare_path(path, commit_io, &progress_callback);
    }
    let mut idx: usize = 0;
    while idx < n
        invariant
            0 <= idx <= n,
            n == item_list.items@.len(),
            item_list.events_wf(),
            forall|s: String| #[trigger] progress_callback.requires((s,)),
        decreases n - idx,
    {
        let item: &FileItem = &item_list.items[idx];
        match plan_item(item_list, item, path, commit_method) {
            CommitAction::Keep => (),
            CommitAction::Remove => {
                progress_callback(delete_line(item.path.as_str()));
                match commit_io.remove_file(item.path.as_str()) {
                    Ok(_) => (),
                    Err(e) => progress_callback(
                        op_error_line("Error deleting ", item.path.as_str(), e.as_str()),
                    ),
                }
            },
            CommitAction::Transfer { directory, target } => {
                prepare_path(directory.as_str(), commit_io, &progress_callback);
                progress_callback(transfer_line(item.path.as_str(), target.as_str()));
                let moved: Result<(), String> = if matches!(commit_method, SieveMethod::Copy) {
                    commit_io.copy(item.path.as_str(), target.as_str())
                } else {
                    commit_io.move_file(item.path.as_str(), target.as_str())
                };
                match moved {
                    Ok(_) => (),
                    Err(e) => progress_callback(
                        op_error_line(
                            if matches!(commit_method, SieveMethod::Copy) {
                                "Error copying "
                            } else {
                                "Error moving "
                            },
                            item.path.as_str(),
                            e.as_str(),
                        ),
                    ),
                }
            },
        }
        idx = idx + 1;
    }
    progress_callback(String::from_str("Done"));
}

/// `"src" -> "target"`.
fn transfer_line(src: &str, target: &str) -> (r: String)
    ensures
        r@ == seq!['"'] + src@ + "\" -> \""@ + target@ + seq!['"'],
{
    let mut out: String = String::from_str("\"");
    out.append(src);
    out.append("\" -> \"");
    out.append(target);
    out.append("\"");
    proof {
        reveal_strlit("\"");
        assert("\""@ =~= seq!['"']);
        assert(out@ =~= seq!['"'] + src@ + "\" -> \""@ + target@ + seq!['"']);
    }
    out
}

/// `Delete "path"`.
fn delete_line(path: &str) -> (r: String)
    ensures
        r@ == "Delete \""@ + path@ + seq!['"'],
{
    let mut out: String = String::from_str("Delete \"");
    out.append(path);
    out.append("\"");
    proof {
        reveal_strlit("\"");
        assert("\""@ =~= seq!['"']);
        assert(out@ =~= "Delete \""@ + path@ + seq!['"']);
    }
    out
}

/// `<op><path>: <detail>`.
fn op_error_line(op: &str, path: &str, detail: &str) -> (r: String)
    ensures
        r@ == op@ + path@ + seq![':', ' '] + detail@,
{
    let mut out: String = String::from_str(op);
    out.append(path);
    out.append(": ");
    out.append(detail);
    proof {
        reveal_strlit(": ");
        assert(": "@ =~= seq![':', ' ']);
        assert(out@ =~= op@ + path@ + seq![':', ' '] + detail@);
    }
    out
}

/// Create the directory when it does not exist yet; a failure is reported
/// through the progress callback.
fn prepare_path<T: CommitIO, F: Fn(String)>(path: &str, commit_io: &T, progress_callback: &F)
    requires
        forall|s: String| #[trigger] progress_callback.requires((s,)),
{
    if !commit_io.file_exists(path) {
        match commit_io.create_dir_all(path) {
            Ok(_) => (),
            Err(e) => (progress_callback)(
                op_error_line("Error creating path ", path, e.as_str()),
            ),
        }
    }
}

} // verus!
