//! The sieve engine: it files every kept item of a collection into a
//! target folder named after its capture date or its event, with
//! collision-safe renaming, and deletes discarded items where the method
//! asks for it.  All file system work goes through the `SieveIO`
//! capability, so the planning and naming logic is verified for every
//! behaviour of the file system.

use vstd::prelude::*;

use crate::dates::{md_chars, ymd_chars, Date};
use crate::event::Event;
use crate::file_item::FileItem;
use crate::item_list::{first_containing, DirectoryNames, ItemList, SieveMethod};
use crate::paths::spec_suffixed;
use crate::timestamp::{timestamp_chars, Format};

verus! {

/// The file system operations the sieve needs.  Implementations do the
/// real work; nothing is assumed of their outcomes.
pub trait SieveIO {
    /// Copy `src` to `dest`.
    fn copy(&self, src: &str, dest: &str) -> Result<(), String>;

    /// Remove the file at `path`.
    fn remove_file(&self, path: &str) -> Result<(), String>;

    /// Move `src` to `dest`.
    fn move_file(&self, src: &str, dest: &str) -> Result<(), String>;

    /// Create the directory at `path`, with its parents.
    fn create_dir_all(&self, path: &str) -> Result<(), String>;

    /// Whether a file exists at `path`.
    fn file_exists(&self, path: &str) -> bool;

    /// Whether the files at `f1` and `f2` differ in content.
    fn different(&self, f1: &str, f2: &str) -> Result<bool, String>;
}

/// How often a collision is retried with a further suffixed name before
/// the engine gives up on the file.
pub const COLLISION_RETRY_LIMIT: u64 = 1000;

/// The path after `k` rounds of collision suffixing.
pub open spec fn suffixed_iter(p: Seq<char>, k: int) -> Seq<char>
    decreases k,
{
    if k <= 0 {
        p
    } else {
        spec_suffixed(suffixed_iter(p, k - 1))
    }
}

/// What one round of collision probing decides for a destination name.
#[derive(Debug, PartialEq)]
pub enum CollisionStep {
    /// The destination is free: take this name.
    Take,
    /// A different file sits there: retry under this suffixed name.
    Retry(String),
    /// An identical file sits there: refuse with this report.
    Refuse(String),
    /// The content comparison failed with this error.
    Fail(String),
}

/// The already-exists report for a destination name.
pub open spec fn already_exists_chars(dest: Seq<char>) -> Seq<char> {
    "Destination file already exists: "@ + dest
}

/// Decide one round of collision handling from what the file system
/// answered about the candidate name `dest`: a free destination is taken;
/// an occupied one with different content is dodged by suffixing the
/// name; one with identical content is refused with the already-exists
/// report; a failed comparison hands its error back.
pub fn collision_step(exists: bool, differs: Result<bool, String>, dest: &str) -> (r:
    CollisionStep)
    ensures
        !exists ==> r == CollisionStep::Take,
        exists ==> (differs matches Ok(true) ==> (r matches CollisionStep::Retry(n) && n@
            == spec_suffixed(dest@))),
        exists ==> (differs matches Ok(false) ==> (r matches CollisionStep::Refuse(m) && m@
            == already_exists_chars(dest@))),
        exists ==> (differs matches Err(e) ==> r == CollisionStep::Fail(e)),
{
    if !exists {
        return CollisionStep::Take;
    }
    match differs {
        Ok(true) => CollisionStep::Retry(crate::paths::suffixed_name(dest)),
        Ok(false) => {
            let mut msg: String = String::from_str("Destination file already exists: ");
            msg.append(dest);
            CollisionStep::Refuse(msg)
        },
        Err(e) => CollisionStep::Fail(e),
    }
}

/// Evidence that round `j` of collision probing hit an occupied
/// destination with different content: the file system reported the
/// `j`-fold suffixed candidate present, and its content different from
/// the source.
pub open spec fn collided_round<T: SieveIO>(io: &T, src: Seq<char>, base: Seq<char>, j: int) -> bool {
    &&& (exists|s: &str| s@ == suffixed_iter(base, j) && call_ensures(T::file_exists, (io, s), true))
    &&& (exists|s1: &str, s2: &str|
        s1@ == src && s2@ == suffixed_iter(base, j) && call_ensures(
            T::different,
            (io, s1, s2),
            Ok::<bool, String>(true),
        ))
}

/// Settle the destination name for a copy or move: while a different file
/// already sits at the destination, dodge it by suffixing the name.  A
/// destination holding identical content is reported as an error, as is a
/// content comparison failure.  Each round's decision is `collision_step`,
/// which fixes the outcome for every answer the file system can give; the
/// contract here ties the result to those answers: the settled name is the
/// first candidate not dodged, every earlier candidate was reported
/// present with different content, success means the settled candidate
/// was reported absent, and failure names the identical-content report,
/// the comparison's own error, or an exhausted retry budget.
pub fn check_target<T: SieveIO>(io: &T, src: &str, dest: &mut String) -> (r: Result<(), String>)
    ensures
        (exists|k: int|
            {
                &&& 0 <= k <= COLLISION_RETRY_LIMIT
                &&& final(dest)@ == suffixed_iter(old(dest)@, k)
                &&& forall|j: int| 0 <= j < k ==> collided_round(io, src@, old(dest)@, j)
            }),
        (r is Ok ==> exists|s: &str|
            s@ == final(dest)@ && call_ensures(T::file_exists, (io, s), false)),
        (r matches Err(m) ==> ({
            ||| (exists|s1: &str, s2: &str|
                s1@ == src@ && s2@ == final(dest)@ && call_ensures(
                    T::different,
                    (io, s1, s2),
                    Ok::<bool, String>(false),
                )) && m@ == already_exists_chars(final(dest)@)
            ||| (exists|s1: &str, s2: &str|
                s1@ == src@ && s2@ == final(dest)@ && call_ensures(
                    T::different,
                    (io, s1, s2),
                    Err::<bool, String>(m),
                ))
            ||| final(dest)@ == suffixed_iter(old(dest)@, COLLISION_RETRY_LIMIT as int) && m@
                == already_exists_chars(final(dest)@)
        })),
{
    let mut tries: u64 = 0;
    while tries < COLLISION_RETRY_LIMIT
        invariant
            0 <= tries <= COLLISION_RETRY_LIMIT,
            dest@ == suffixed_iter(old(dest)@, tries as int),
            forall|j: int| 0 <= j < tries ==> collided_round(io, src@, old(dest)@, j),
        ensures
            dest@ == suffixed_iter(old(dest)@, COLLISION_RETRY_LIMIT as int),
            forall|j: int|
                0 <= j < COLLISION_RETRY_LIMIT ==> collided_round(io, src@, old(dest)@, j),
        decreases COLLISION_RETRY_LIMIT - tries,
    {
        let exists_here: bool = io.file_exists(dest.as_str());
        let differs: Result<bool, String> = if exists_here {
            io.different(src, dest.as_str())
        } else {
            Ok(false)
        };
        match collision_step(exists_here, differs, dest.as_str()) {
            CollisionStep::Take => {
                proof {
                    assert(dest@ == suffixed_iter(old(dest)@, tries as int));
                }
                return Ok(());
            },
            CollisionStep::Retry(next) => {
                proof {
                    assert(collided_round(io, src@, old(dest)@, tries as int));
                }
                *dest = next;
                tries = tries + 1;
            },
            CollisionStep::Refuse(msg) => {
                return Err(msg);
            },
            CollisionStep::Fail(msg) => {
                return Err(msg);
            },
        }
    }
    let mut msg: String = String::from_str("Destination file already exists: ");
    msg.append(dest.as_str());
    proof {
        assert(msg@ == already_exists_chars(dest@));
    }
    Err(msg)
}

/// The event folder name: the event's date span and its name.
pub open spec fn event_dir_chars(e: Event) -> Seq<char> {
    if e.start_date == e.end_date {
        ymd_chars(e.start_date) + seq![' '] + e.name@
    } else {
        ymd_chars(e.start_date) + seq![' ', '-', ' '] + ymd_chars(e.end_date) + seq![' ']
            + e.name@
    }
}

/// The event folder name inside a year folder: month and day only, with
/// the end date's year kept when it differs.
pub open spec fn event_subdir_chars(e: Event) -> Seq<char> {
    if e.start_date == e.end_date {
        md_chars(e.start_date) + seq![' '] + e.name@
    } else {
        md_chars(e.start_date) + seq![' ', '-', ' '] + (if e.start_date.year == e.end_date.year {
            md_chars(e.end_date)
        } else {
            ymd_chars(e.end_date)
        }) + seq![' '] + e.name@
    }
}

/// The folder fragments a file item is filed under: the first event whose
/// range holds its capture date wins; otherwise the date is bucketed by
/// the directory-naming policy.
pub open spec fn spec_sub_path(events: Seq<Event>, item: FileItem, dn: DirectoryNames) -> Seq<
    Seq<char>,
> {
    let ei = match Date::spec_from_timestamp(item.timestamp as int) {
        Some(d) => first_containing(events, d, 0),
        None => -1,
    };
    if ei >= 0 {
        let e = events[ei];
        if dn == DirectoryNames::YearAndMonthInSubdirectory {
            seq![crate::text::dec4_chars(e.start_date.year as int), event_subdir_chars(e)]
        } else {
            seq![event_dir_chars(e)]
        }
    } else {
        let fmt = match dn {
            DirectoryNames::YearAndMonth => Format::YearAndMonth,
            DirectoryNames::Year => Format::Year,
            DirectoryNames::YearMonthAndDay => Format::Date,
            DirectoryNames::YearAndQuarter => Format::YearAndQuarter,
            DirectoryNames::YearAndMonthInSubdirectory => Format::Year,
        };
        if dn == DirectoryNames::YearAndMonthInSubdirectory {
            seq![
                timestamp_chars(item.timestamp as int, fmt),
                timestamp_chars(item.timestamp as int, Format::Month),
            ]
        } else {
            seq![timestamp_chars(item.timestamp as int, fmt)]
        }
    }
}

/// The folder fragments an item is filed under, as `spec_sub_path` states.
pub fn get_sub_path(
    item_list: &ItemList,
    item: &FileItem,
    directory_names: &DirectoryNames,
) -> (r: Vec<String>)
    requires
        item_list.events_wf(),
    ensures
        r@.map_values(|s: String| s@) == spec_sub_path(
            item_list.events@,
            *item,
            *directory_names,
        ),
{
    let mut directories: Vec<String> = Vec::new();
    let event_ref: Option<&Event> = item_list.get_event(item);
    match event_ref {
        Some(event) => {
            proof {
                assert(event.wf());
            }
            if matches!(directory_names, DirectoryNames::YearAndMonthInSubdirectory) {
                let mut year: String = String::new();
                crate::text::push_dec4(&mut year, event.start_date.year as u32);
                directories.push(year);
                directories.push(event_subdir_string(event));
            } else {
                directories.push(event_dir_string(event));
            }
        },
        None => {
            let fmt: Format = match directory_names {
                DirectoryNames::YearAndMonth => Format::YearAndMonth,
                DirectoryNames::Year => Format::Year,
                DirectoryNames::YearMonthAndDay => Format::Date,
                DirectoryNames::YearAndQuarter => Format::YearAndQuarter,
                DirectoryNames::YearAndMonthInSubdirectory => Format::Year,
            };
            directories.push(crate::timestamp::timestamp_to_string(item.get_timestamp(), fmt));
            if matches!(directory_names, DirectoryNames::YearAndMonthInSubdirectory) {
                directories.push(
                    crate::timestamp::timestamp_to_string(item.get_timestamp(), Format::Month),
                );
            }
        },
    }
    proof {
        assert(directories@.map_values(|s: String| s@) =~= spec_sub_path(
            item_list.events@,
            *item,
            *directory_names,
        ));
    }
    directories
}

/// The event folder name, as `event_dir_chars` states.
fn event_dir_string(e: &Event) -> (r: String)
    requires
        e.wf(),
    ensures
        r@ == event_dir_chars(*e),
{
    let mut out: String = String::new();
    e.start_date.push_ymd(&mut out);
    if e.start_date.year == e.end_date.year && e.start_date.month == e.end_date.month
        && e.start_date.day == e.end_date.day {
        out.append(" ");
        out.append(e.name.as_str());
        proof {
            reveal_strlit(" ");
            assert(out@ =~= event_dir_chars(*e));
        }
    } else {
        out.append(" - ");
        e.end_date.push_ymd(&mut out);
        out.append(" ");
        out.append(e.name.as_str());
        proof {
            reveal_strlit(" ");
            reveal_strlit(" - ");
            assert(" - "@ =~= seq![' ', '-', ' ']);
            assert(out@ =~= event_dir_chars(*e));
        }
    }
    out
}

/// The event folder name inside a year folder, as `event_subdir_chars`
/// states.
fn event_subdir_string(e: &Event) -> (r: String)
    requires
        e.wf(),
    ensures
        r@ == event_subdir_chars(*e),
{
    let mut out: String = String::new();
    e.start_date.push_md(&mut out);
    if e.start_date.year == e.end_date.year && e.start_date.month == e.end_date.month
        && e.start_date.day == e.end_date.day {
        out.append(" ");
        out.append(e.name.as_str());
        proof {
            reveal_strlit(" ");
            assert(out@ =~= event_subdir_chars(*e));
        }
    } else {
        out.append(" - ");
        if e.start_date.year == e.end_date.year {
            e.end_date.push_md(&mut out);
        } else {
            e.end_date.push_ymd(&mut out);
        }
        out.append(" ");
        out.append(e.name.as_str());
        proof {
            reveal_strlit(" ");
            reveal_strlit(" - ");
            assert(" - "@ =~= seq![' ', '-', ' ']);
            assert(out@ =~= event_subdir_chars(*e));
        }
    }
    out
}

/// The full target directory for an item: the root joined with each
/// folder fragment.
pub open spec fn spec_target_dir(root: Seq<char>, dirs: Seq<Seq<char>>) -> Seq<char>
    decreases dirs.len(),
{
    if dirs.len() == 0 {
        root
    } else {
        spec_target_dir(root + seq!['/'] + dirs[0], dirs.drop_first())
    }
}

/// Join the root with each folder fragment.
fn target_dir(root: &str, dirs: &Vec<String>) -> (r: String)
    ensures
        r@ == spec_target_dir(root@, dirs@.map_values(|s: String| s@)),
{
    let mut out: String = String::from_str(root);
    let mut i: usize = 0;
    proof {
        assert(dirs@.map_values(|s: String| s@).skip(0) =~= dirs@.map_values(|s: String| s@));
    }
    while i < dirs.len()
        invariant
            0 <= i <= dirs@.len(),
            spec_target_dir(root@, dirs@.map_values(|s: String| s@)) == spec_target_dir(
                out@,
                dirs@.map_values(|s: String| s@).skip(i as int),
            ),
        decreases dirs@.len() - i,
    {
        let ghost pre: Seq<Seq<char>> = dirs@.map_values(|s: String| s@).skip(i as int);
        let ghost prev_out: Seq<char> = out@;
        out.append("/");
        out.append(dirs[i].as_str());
        proof {
            reveal_strlit("/");
            assert(out@ =~= prev_out + seq!['/'] + pre[0]);
            assert(pre[0] == dirs@.map_values(|s: String| s@)[i as int]);
            assert(pre.drop_first() =~= dirs@.map_values(|s: String| s@).skip(i as int + 1));
        }
        i = i + 1;
    }
    proof {
        assert(dirs@.map_values(|s: String| s@).skip(i as int).len() == 0);
    }
    out
}

/// What the sieve does with one item.
#[derive(Debug, PartialEq)]
pub enum SieveAction {
    /// Copy or move the file into `directory`, under the final `target`
    /// path.
    Transfer { directory: String, target: String },
    /// Delete the file.
    Remove,
    /// Leave the file untouched.
    Keep,
}

/// Plan what the sieve does with one item: under `Delete` only discarded
/// files are removed; otherwise a kept file is transferred into its
/// dated or event-named folder under its own file name, and a discarded
/// file is removed exactly under `MoveAndDelete`.
pub fn plan_item(
    item_list: &ItemList,
    item: &FileItem,
    root: &str,
    method: SieveMethod,
    directory_names: &DirectoryNames,
) -> (r: SieveAction)
    requires
        item_list.events_wf(),
    ensures
        method == SieveMethod::Delete ==> r == (if item.take_over {
            SieveAction::Keep
        } else {
            SieveAction::Remove
        }),
        method != SieveMethod::Delete && !item.take_over ==> r == (if method
            == SieveMethod::MoveAndDelete {
            SieveAction::Remove
        } else {
            SieveAction::Keep
        }),
        method != SieveMethod::Delete && item.take_over ==> (r matches SieveAction::Transfer {
            directory,
            target,
        } && directory@ == spec_target_dir(
            root@,
            spec_sub_path(item_list.events@, *item, *directory_names),
        ) && target@ == directory@ + seq!['/'] + crate::paths::spec_file_name(item.path@)),
{
    if matches!(method, SieveMethod::Delete) {
        if item.get_take_over() {
            SieveAction::Keep
        } else {
            SieveAction::Remove
        }
    } else if item.get_take_over() {
        let sub_path: Vec<String> = get_sub_path(item_list, item, directory_names);
        let directory: String = target_dir(root, &sub_path);
        let name: &str = crate::paths::file_name(item.path.as_str());
        let target: String = crate::paths::join(directory.as_str(), name);
        SieveAction::Transfer { directory, target }
    } else if matches!(method, SieveMethod::MoveAndDelete) {
        SieveAction::Remove
    } else {
        SieveAction::Keep
    }
}

/// Sieve a collection into the target folder: kept items are copied or
/// moved into their dated or event-named folder with collision-safe
/// naming, discarded items are deleted where the method says so, and
/// every step and failure is reported through the progress callback,
/// closed by a final `Done` line.  Each item's fate is the verified
/// `plan_item`; this driver only executes the plan.
pub fn sieve<T: SieveIO, F: Fn(String)>(
    item_list: &ItemList,
    path: &str,
    sieve_method: SieveMethod,
    sieve_directory_names: DirectoryNames,
    sieve_io: &T,
    progress_callback: F,
)
    requires
        item_list.events_wf(),
        forall|s: String| #[trigger] progress_callback.requires((s,)),
{
    let n: usize = item_list.items.len();
    if !matches!(sieve_method, SieveMethod::Delete) {
        prepare_path(path, sieve_io, &progress_callback);
    }
    let mut idx: usize = 0;
    while idx < n
        invariant
            0 <= idx <= n,
            n == item_list.items@.len(),
            item_list.events_wf(),
            forall|s: String| #[trigger] progress_callback.requires((s,)),
        decreases n - idx,
    {
        let item: &FileItem = &item_list.items[idx];
        match plan_item(item_list, item, path, sieve_method, &sieve_directory_names) {
            SieveAction::Keep => (),
            SieveAction::Remove => {
                progress_callback(delete_line(item.path.as_str()));
                match sieve_io.remove_file(item.path.as_str()) {
                    Ok(_) => (),
                    Err(e) => progress_callback(
                        op_error_line("Error deleting ", item.path.as_str(), e.as_str()),
                    ),
                }
            },
            SieveAction::Transfer { directory, target } => {
                prepare_path(directory.as_str(), sieve_io, &progress_callback);
                let mut target: String = target;
                match check_target(sieve_io, item.path.as_str(), &mut target) {
                    Ok(_) => {
                        let moved: Result<(), String> = if matches!(sieve_method,
                            SieveMethod::Copy) {
                            sieve_io.copy(item.path.as_str(), target.as_str())
                        } else {
                            sieve_io.move_file(item.path.as_str(), target.as_str())
                        };
                        match moved {
                            Ok(_) => (),
                            Err(e) => progress_callback(
                                op_error_line(
                                    if matches!(sieve_method, SieveMethod::Copy) {
                                        "Error copying "
                                    } else {
                                        "Error moving "
                                    },
                                    item.path.as_str(),
                                    e.as_str(),
                                ),
                            ),
                        }
                    },
                    Err(e) => progress_callback(
                        op_error_line(
                            if matches!(sieve_method, SieveMethod::Copy) {
                                "Error copying "
                            } else {
                                "Error moving "
                            },
                            item.path.as_str(),
                            e.as_str(),
                        ),
                    ),
                }
                progress_callback(transfer_line(item.path.as_str(), target.as_str()));
            },
        }
        idx = idx + 1;
    }
    progress_callback(String::from_str("Done"));
}

/// `"src" -> "target"`.
fn transfer_line(src: &str, target: &str) -> (r: String)
    ensures
        r@ == seq!['"'] + src@ + "\" -> \""@ + target@ + seq!['"'],
{
    let mut out: String = String::from_str("\"");
    out.append(src);
    out.append("\" -> \"");
    out.append(target);
    out.append("\"");
    proof {
        reveal_strlit("\"");
        assert("\""@ =~= seq!['"']);
        assert(out@ =~= seq!['"'] + src@ + "\" -> \""@ + target@ + seq!['"']);
    }
    out
}

/// `Delete "path"`.
fn delete_line(path: &str) -> (r: String)
    ensures
        r@ == "Delete \""@ + path@ + seq!['"'],
{
    let mut out: String = String::from_str("Delete \"");
    out.append(path);
    out.append("\"");
    proof {
        reveal_strlit("\"");
        assert("\""@ =~= seq!['"']);
        assert(out@ =~= "Delete \""@ + path@ + seq!['"']);
    }
    out
}

/// `<op><path>: <detail>`.
fn op_error_line(op: &str, path: &str, detail: &str) -> (r: String)
    ensures
        r@ == op@ + path@ + seq![':', ' '] + detail@,
{
    let mut out: String = String::from_str(op);
    out.append(path);
    out.append(": ");
    out.append(detail);
    proof {
        reveal_strlit(": ");
        assert(": "@ =~= seq![':', ' ']);
        assert(out@ =~= op@ + path@ + seq![':', ' '] + detail@);
    }
    out
}

/// Create the directory when it does not exist yet; a failure is reported
/// through the progress callback.
fn prepare_path<T: SieveIO, F: Fn(String)>(path: &str, sieve_io: &T, progress_callback: &F)
    requires
        forall|s: String| #[trigger] progress_callback.requires((s,)),
{
    if !sieve_io.file_exists(path) {
        match sieve_io.create_dir_all(path) {
            Ok(_) => (),
            Err(e) => (progress_callback)(
                op_error_line("Error creating path ", path, e.as_str()),
            ),
        }
    }
}

} // verus!
