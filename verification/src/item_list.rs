//! The list of tracked file items together with the user's events and the
//! base path it was scanned from, and the two similarity-clustering passes
//! over it: by capture time and by perceptual-hash distance.

use vstd::prelude::*;

use crate::dates::Date;
use crate::event::Event;
use crate::file_item::{same_but_similar, sorted_unique, spec_hash_distance, spec_item_type,
    FileItem};
use crate::file_types::spec_is_any;
use crate::item_traits::PropertyResolver;
use crate::text::str_eq;

verus! {

/// How a sieved collection is committed to the target folder.
#[derive(PartialEq, Eq, Structural, Clone, Copy, Debug)]
pub enum SieveMethod {
    /// Copy the kept files to the target directory.
    Copy,
    /// Move the kept files to the target directory.
    Move,
    /// Move the kept files and delete the discarded files.
    MoveAndDelete,
    /// Delete the discarded files only.
    Delete,
}

/// How target directories are named from a capture date.
#[derive(PartialEq, Eq, Structural, Clone, Copy, Debug)]
pub enum DirectoryNames {
    /// Directories are named by year and month.
    YearAndMonth,
    /// Directories are named by year.
    Year,
    /// Directories are named by year, month and day.
    YearMonthAndDay,
    /// Directories are named by year and quarter.
    YearAndQuarter,
    /// Directories are named by year, with the month as a subdirectory.
    YearAndMonthInSubdirectory,
}

/// All file items, the events, and the base path of the collection.
#[derive(Debug, Clone)]
pub struct ItemList {
    /// The tracked file items.
    pub items: Vec<FileItem>,
    /// The events, used to name target folders.
    pub events: Vec<Event>,
    /// The base path the collection was scanned from.
    pub path: String,
}

/// The first index whose item has the given path, or -1.
pub open spec fn find_path(s: Seq<FileItem>, p: Seq<char>, i: int) -> int
    decreases s.len() - i,
{
    if i < 0 || i >= s.len() {
        -1
    } else if s[i].path@ == p {
        i
    } else {
        find_path(s, p, i + 1)
    }
}

/// Items are ordered by capture timestamp.
pub open spec fn sorted_by_timestamp(s: Seq<FileItem>) -> bool {
    forall|i: int, j: int| 0 <= i <= j < s.len() ==> s[i].timestamp <= s[j].timestamp
}

/// The items kept by a sequence of flags, in order.
pub open spec fn keep_flagged(s: Seq<FileItem>, p: Seq<bool>) -> Seq<FileItem>
    decreases s.len(),
{
    if s.len() == 0 {
        Seq::empty()
    } else {
        keep_flagged(s.drop_last(), p.drop_last()) + (if p[s.len() - 1] {
            seq![s.last()]
        } else {
            Seq::empty()
        })
    }
}

/// The first event whose range contains the date, or -1.
pub open spec fn first_containing(events: Seq<Event>, d: Date, i: int) -> int
    decreases events.len() - i,
{
    if i < 0 || i >= events.len() {
        -1
    } else if events[i].start_date.spec_day_number() <= d.spec_day_number()
        <= events[i].end_date.spec_day_number() {
        i
    } else {
        first_containing(events, d, i + 1)
    }
}

impl ItemList {
    /// Every event carries valid dates.
    pub open spec fn events_wf(self) -> bool {
        forall|i: int| 0 <= i < self.events@.len() ==> (#[trigger] self.events@[i]).wf()
    }

    /// An empty collection.
    pub fn new() -> (r: ItemList)
        ensures
            r.items@ == Seq::<FileItem>::empty(),
            r.events@ == Seq::<Event>::empty(),
            r.path@ == Seq::<char>::empty(),
    {
        ItemList { items: Vec::new(), events: Vec::new(), path: String::new() }
    }

    /// The index of the item with the same path, if any.
    pub fn index_of_item(&self, item: &FileItem) -> (r: Option<usize>)
        ensures
            r matches Some(i) ==> find_path(self.items@, item.path@, 0) == i as int,
            r is None ==> find_path(self.items@, item.path@, 0) == -1,
    {
        self.index_of_path(item.path.as_str())
    }

    /// The index of the item with the given path, if any.
    pub fn index_of_path(&self, path: &str) -> (r: Option<usize>)
        ensures
            r matches Some(i) ==> find_path(self.items@, path@, 0) == i as int,
            r is None ==> find_path(self.items@, path@, 0) == -1,
    {
        let n: usize = self.items.len();
        let mut i: usize = 0;
        while i < n
            invariant
                0 <= i <= n,
                n == self.items@.len(),
                find_path(self.items@, path@, 0) == find_path(self.items@, path@, i as int),
            decreases n - i,
        {
            if str_eq(self.items[i].path.as_str(), path) {
                return Some(i);
            }
            i = i + 1;
        }
        None
    }

    /// Add an item for the path when it is a tracked file kind and not yet
    /// listed.
    pub fn check_and_add<R: PropertyResolver>(&mut self, path: &str, resolver: &R)
        ensures
            final(self).events == old(self).events,
            final(self).path == old(self).path,
            !(spec_is_any(path@) && find_path(old(self).items@, path@, 0) == -1)
                ==> final(self).items == old(self).items,
            spec_is_any(path@) && find_path(old(self).items@, path@, 0) == -1 ==> ({
                &&& final(self).items@.len() == old(self).items@.len() + 1
                &&& final(self).items@.subrange(0, old(self).items@.len() as int) == old(
                    self,
                ).items@
                &&& final(self).items@.last().path@ == path@
                &&& final(self).items@.last().take_over == true
                &&& final(self).items@.last().similar@ == Seq::<usize>::empty()
                &&& final(self).items@.last().item_type == spec_item_type(path@)
                &&& (final(self).items@.last().hash is None)
            }),
    {
        if crate::file_types::is_any(path) {
            match self.index_of_path(path) {
                Some(_) => (),
                None => {
                    let item: FileItem = FileItem::new(
                        String::from_str(path),
                        resolver,
                        true,
                        "",
                    );
                    proof {
                        reveal_strlit("");
                        assert(crate::file_item::spec_stored_hash(""@) is None);
                    }
                    self.items.push(item);
                    proof {
                        assert(final(self).items@.subrange(0, old(self).items@.len() as int) =~= old(
                            self,
                        ).items@);
                    }
                },
            }
        }
    }

    /// Add an item for the path with the given keep flag and stored hash.
    pub fn add_item<R: PropertyResolver>(
        &mut self,
        item_path: &str,
        resolver: &R,
        take_over: bool,
        encoded_hash: &str,
    )
        requires
            spec_is_any(item_path@),
        ensures
            final(self).events == old(self).events,
            final(self).path == old(self).path,
            final(self).items@.len() == old(self).items@.len() + 1,
            final(self).items@.subrange(0, old(self).items@.len() as int) == old(self).items@,
            final(self).items@.last().path@ == item_path@,
            final(self).items@.last().take_over == take_over,
            final(self).items@.last().similar@ == Seq::<usize>::empty(),
            final(self).items@.last().item_type == spec_item_type(item_path@),
            crate::file_item::spec_hash_view(final(self).items@.last().hash)
                == crate::file_item::spec_stored_hash(encoded_hash@),
    {
        let item: FileItem = FileItem::new(
            String::from_str(item_path),
            resolver,
            take_over,
            encoded_hash,
        );
        self.items.push(item);
        proof {
            assert(final(self).items@.subrange(0, old(self).items@.len() as int) =~= old(
                self,
            ).items@);
        }
    }

    /// Keep only the items whose flag is set; the flags run parallel to
    /// the items.
    pub fn drain_missing(&mut self, present: &Vec<bool>)
        requires
            present@.len() == old(self).items@.len(),
        ensures
            final(self).events == old(self).events,
            final(self).path == old(self).path,
            final(self).items@ == keep_flagged(old(self).items@, present@),
    {
        let ghost all: Seq<FileItem> = self.items@;
        let mut kept: Vec<FileItem> = Vec::new();
        let mut i: usize = 0;
        let n: usize = self.items.len();
        while i < n
            invariant
                0 <= i <= n,
                n == all.len(),
                present@.len() == all.len(),
                self.items@ == all.skip(i as int),
                self.events == old(self).events,
                self.path == old(self).path,
                kept@ == keep_flagged(all.subrange(0, i as int), present@.subrange(0, i as int)),
            decreases n - i,
        {
            let it: FileItem = self.items.remove(0);
            proof {
                assert(all.skip(i as int).remove(0) =~= all.skip(i as int + 1));
                assert(it == all[i as int]);
                let ta = all.subrange(0, i as int + 1);
                let tp = present@.subrange(0, i as int + 1);
                assert(ta.drop_last() =~= all.subrange(0, i as int));
                assert(tp.drop_last() =~= present@.subrange(0, i as int));
                assert(ta.last() == all[i as int]);
            }
            if present[i] {
                kept.push(it);
                proof {
                    assert(kept@ =~= keep_flagged(
                        all.subrange(0, i as int + 1),
                        present@.subrange(0, i as int + 1),
                    ));
                }
            } else {
                proof {
                    assert(kept@ =~= keep_flagged(
                        all.subrange(0, i as int + 1),
                        present@.subrange(0, i as int + 1),
                    ));
                }
            }
            i = i + 1;
        }
        self.items = kept;
        proof {
            assert(all.subrange(0, all.len() as int) =~= all);
            assert(present@.subrange(0, present@.len() as int) =~= present@);
        }
    }

    /// Sort the items by capture timestamp and remember the base path.
    pub fn finish_synchronizing(&mut self, base_path: &str)
        ensures
            final(self).events == old(self).events,
            final(self).path@ == base_path@,
            sorted_by_timestamp(final(self).items@),
            final(self).items@.to_multiset() == old(self).items@.to_multiset(),
    {
        let ghost all: Seq<FileItem> = self.items@;
        let mut sorted: Vec<FileItem> = Vec::new();
        proof {
            broadcast use vstd::seq_lib::group_to_multiset_ensures;

            assert forall|x: FileItem| sorted@.to_multiset().count(x) == 0 by {
                assert(!sorted@.contains(x));
            }
            assert(sorted@.to_multiset().add(self.items@.to_multiset()) =~= all.to_multiset());
        }
        while self.items.len() > 0
            invariant
                self.events == old(self).events,
                self.path == old(self).path,
                sorted_by_timestamp(sorted@),
                sorted@.to_multiset().add(self.items@.to_multiset()) == all.to_multiset(),
                all == old(self).items@,
            decreases self.items@.len(),
        {
            let it: FileItem = self.items.remove(0);
            proof {
                broadcast use vstd::seq_lib::group_to_multiset_ensures;

                assert(self.items@.to_multiset() =~= old(self).items@.to_multiset().remove(
                    it,
                ).sub(sorted@.to_multiset()).add(sorted@.to_multiset()).sub(
                    sorted@.to_multiset(),
                ));
            }
            insert_by_timestamp(&mut sorted, it);
        }
        self.items = sorted;
        self.path = String::from_str(base_path);
        proof {
            broadcast use vstd::seq_lib::group_to_multiset_ensures;

            assert(final(self).items@.to_multiset() =~= all.to_multiset());
        }
    }

    /// The first event whose date range contains the item's capture date,
    /// or none when no event does or the timestamp lies outside the
    /// supported calendar years.
    pub fn get_event(&self, item: &FileItem) -> (r: Option<&Event>)
        requires
            self.events_wf(),
        ensures
            ({
                match Date::spec_from_timestamp(item.timestamp as int) {
                    Some(d) => {
                        let i = first_containing(self.events@, d, 0);
                        &&& (r matches Some(e) ==> 0 <= i < self.events@.len() && *e
                            == self.events@[i] && e.wf())
                        &&& (r is None ==> i == -1)
                    },
                    None => r is None,
                }
            }),
    {
        let date_opt: Option<Date> = Date::from_timestamp(item.get_timestamp());
        match date_opt {
            None => None,
            Some(d) => {
                let n: usize = self.events.len();
                let mut i: usize = 0;
                while i < n
                    invariant
                        0 <= i <= n,
                        n == self.events@.len(),
                        self.events_wf(),
                        d.wf(),
                        Date::spec_from_timestamp(item.timestamp as int) == Some(d),
                        first_containing(self.events@, d, 0) == first_containing(
                            self.events@,
                            d,
                            i as int,
                        ),
                    decreases n - i,
                {
                    if self.events[i].contains(&d) {
                        return Some(&self.events[i]);
                    }
                    i = i + 1;
                }
                None
            },
        }
    }
}

/// Whether a run of close-in-time items ends at `j`: the gap from item
/// `j - 1` to item `j` exceeds the threshold.
pub open spec fn time_break(s: Seq<FileItem>, max_diff: int, j: int) -> bool {
    s[j - 1].timestamp + max_diff < s[j].timestamp
}

/// The first index of the run item `i` belongs to.
pub open spec fn run_start(s: Seq<FileItem>, max_diff: int, i: int) -> int
    decreases i,
{
    if i <= 0 {
        0
    } else if time_break(s, max_diff, i) {
        i
    } else {
        run_start(s, max_diff, i - 1)
    }
}

/// One past the last index of the run item `i` belongs to.
pub open spec fn run_end(s: Seq<FileItem>, max_diff: int, i: int) -> int
    decreases s.len() - i,
{
    if i + 1 >= s.len() {
        s.len() as int
    } else if time_break(s, max_diff, i + 1) {
        i + 1
    } else {
        run_end(s, max_diff, i + 1)
    }
}

/// The indices of the run item `i` belongs to.
pub open spec fn time_run_set(s: Seq<FileItem>, max_diff: int, i: int) -> Set<usize> {
    Set::new(
        |k: usize| run_start(s, max_diff, i) <= k as int && (k as int) < run_end(s, max_diff, i),
    )
}

/// The similar-set each item holds after a time-clustering pass: what it
/// held before, joined with its run, less its own index.
pub open spec fn time_pass_sets(s: Seq<FileItem>, max_diff: int) -> Seq<Set<usize>> {
    Seq::new(
        s.len(),
        |i: int| s[i].similar@.to_set().union(time_run_set(s, max_diff, i)).remove(i as usize),
    )
}

/// The indices whose hash lies within the threshold of item `i`'s hash.
pub open spec fn hash_neighbor_set(s: Seq<FileItem>, max_diff: int, i: int) -> Set<usize> {
    Set::new(
        |j: usize| j < s.len() && j != i && spec_hash_distance(s[i], s[j as int]) < max_diff,
    )
}

/// The similar-set each item holds after a hash-clustering pass.
pub open spec fn hash_pass_sets(s: Seq<FileItem>, max_diff: int) -> Seq<Set<usize>> {
    Seq::new(
        s.len(),
        |i: int| s[i].similar@.to_set().union(hash_neighbor_set(s, max_diff, i)).remove(
            i as usize,
        ),
    )
}

proof fn lemma_run_start_const(s: Seq<FileItem>, max_diff: int, start: int, k: int)
    requires
        0 <= start <= k < s.len(),
        start == 0 || time_break(s, max_diff, start),
        forall|j: int| start < j <= k ==> !time_break(s, max_diff, j),
    ensures
        run_start(s, max_diff, k) == start,
    decreases k - start,
{
    if k > start {
        lemma_run_start_const(s, max_diff, start, k - 1);
    }
}

proof fn lemma_run_end_const(s: Seq<FileItem>, max_diff: int, end: int, k: int)
    requires
        0 <= k < end <= s.len(),
        end == s.len() || time_break(s, max_diff, end),
        forall|j: int| k < j < end ==> !time_break(s, max_diff, j),
    ensures
        run_end(s, max_diff, k) == end,
    decreases end - k,
{
    if k + 1 < end {
        lemma_run_end_const(s, max_diff, end, k + 1);
    }
}

/// Each run contains its item, starts at zero or after a break, ends at
/// the end of the list or before a break, and has no break inside.
pub proof fn lemma_run_facts(s: Seq<FileItem>, max_diff: int, i: int)
    requires
        0 <= i < s.len(),
    ensures
        0 <= run_start(s, max_diff, i) <= i < run_end(s, max_diff, i) <= s.len(),
        run_start(s, max_diff, i) == 0 || time_break(s, max_diff, run_start(s, max_diff, i)),
        run_end(s, max_diff, i) == s.len() || time_break(s, max_diff, run_end(s, max_diff, i)),
        forall|j: int|
            run_start(s, max_diff, i) < j < run_end(s, max_diff, i) ==> !time_break(
                s,
                max_diff,
                j,
            ),
    decreases s.len() + i,
{
    if i > 0 && !time_break(s, max_diff, i) {
        lemma_run_facts(s, max_diff, i - 1);
    } else {
        if i + 1 < s.len() && !time_break(s, max_diff, i + 1) {
            lemma_run_end_from(s, max_diff, i);
        }
    }
}

proof fn lemma_run_end_from(s: Seq<FileItem>, max_diff: int, i: int)
    requires
        0 <= i < s.len(),
    ensures
        i < run_end(s, max_diff, i) <= s.len(),
        run_end(s, max_diff, i) == s.len() || time_break(s, max_diff, run_end(s, max_diff, i)),
        forall|j: int| i < j < run_end(s, max_diff, i) ==> !time_break(s, max_diff, j),
    decreases s.len() - i,
{
    if !(i + 1 >= s.len()) && !time_break(s, max_diff, i + 1) {
        lemma_run_end_from(s, max_diff, i + 1);
    }
}

/// The indices `a` through `b - 1`, in order.
pub open spec fn range_seq(a: int, b: int) -> Seq<usize> {
    Seq::new((b - a) as nat, |t: int| (a + t) as usize)
}

proof fn lemma_to_set_concat(a: Seq<usize>, b: Seq<usize>)
    ensures
        (a + b).to_set() == a.to_set().union(b.to_set()),
{
    assert forall|y: usize| (a + b).to_set().contains(y) implies a.to_set().union(
        b.to_set(),
    ).contains(y) by {
        let k: int = choose|k: int| 0 <= k < (a + b).len() && (a + b)[k] == y;
        if k < a.len() {
            assert(a[k] == y);
        } else {
            assert(b[k - a.len()] == y);
        }
    }
    assert forall|y: usize| a.to_set().union(b.to_set()).contains(y) implies (a
        + b).to_set().contains(y) by {
        if a.to_set().contains(y) {
            let k: int = choose|k: int| 0 <= k < a.len() && a[k] == y;
            assert((a + b)[k] == y);
        } else {
            let k: int = choose|k: int| 0 <= k < b.len() && b[k] == y;
            assert((a + b)[k + a.len()] == y);
        }
    }
    assert((a + b).to_set() =~= a.to_set().union(b.to_set()));
}

proof fn lemma_range_seq_to_set(a: int, b: int)
    requires
        0 <= a <= b <= usize::MAX,
    ensures
        range_seq(a, b).to_set() == Set::new(|k: usize| a <= k as int && (k as int) < b),
{
    let rs = range_seq(a, b);
    let target = Set::new(|k: usize| a <= k as int && (k as int) < b);
    assert forall|y: usize| rs.to_set().contains(y) implies target.contains(y) by {
        let t: int = choose|t: int| 0 <= t < rs.len() && rs[t] == y;
        assert(y as int == a + t);
    }
    assert forall|y: usize| target.contains(y) implies rs.to_set().contains(y) by {
        let t: int = y as int - a;
        assert(rs[t] == y);
    }
    assert(rs.to_set() =~= target);
}

impl ItemList {
    /// Mark every item of `start..end` as similar to that whole range.
    fn set_similar_range(&mut self, start: usize, end: usize)
        requires
            start <= end <= old(self).items@.len(),
        ensures
            final(self).events == old(self).events,
            final(self).path == old(self).path,
            final(self).items@.len() == old(self).items@.len(),
            forall|k: int|
                0 <= k < old(self).items@.len() && !(start <= k < end) ==> final(self).items@[k]
                    == old(self).items@[k],
            forall|k: int|
                start <= k < end ==> same_but_similar(
                    #[trigger] final(self).items@[k],
                    old(self).items@[k],
                ) && final(self).items@[k].similar@ == old(self).items@[k].similar@ + range_seq(
                    start as int,
                    end as int,
                ),
    {
        let mut k: usize = start;
        while k < end
            invariant
                start <= k <= end,
                end <= self.items@.len(),
                self.items@.len() == old(self).items@.len(),
                self.events == old(self).events,
                self.path == old(self).path,
                forall|j: int|
                    0 <= j < old(self).items@.len() && !(start <= j < k) ==> self.items@[j] == old(
                        self,
                    ).items@[j],
                forall|j: int|
                    start <= j < k ==> same_but_similar(
                        #[trigger] self.items@[j],
                        old(self).items@[j],
                    ) && self.items@[j].similar@ == old(self).items@[j].similar@ + range_seq(
                        start as int,
                        end as int,
                    ),
            decreases end - k,
        {
            let ghost before: Seq<FileItem> = self.items@;
            let mut it: FileItem = self.items.remove(k);
            it.add_similar_range(start, end);
            self.items.insert(k, it);
            proof {
                assert(self.items@ =~= before.update(k as int, self.items@[k as int]));
                assert(self.items@[k as int].similar@ == old(self).items@[k as int].similar@
                    + range_seq(start as int, end as int));
            }
            k = k + 1;
        }
    }

    /// Cluster the items by capture time: items chained by gaps of at most
    /// `max_diff_seconds` form one run, and every item of a run records the
    /// whole run as similar, without duplicates or its own index.
    pub fn find_similar(&mut self, max_diff_seconds: i64)
        ensures
            final(self).events == old(self).events,
            final(self).path == old(self).path,
            final(self).items@.len() == old(self).items@.len(),
            forall|i: int|
                0 <= i < old(self).items@.len() ==> same_but_similar(
                    #[trigger] final(self).items@[i],
                    old(self).items@[i],
                ),
            forall|i: int|
                0 <= i < old(self).items@.len() ==> sorted_unique(
                    (#[trigger] final(self).items@[i]).similar@,
                ),
            forall|i: int|
                0 <= i < old(self).items@.len() ==> (#[trigger] final(self).items@[i]).similar@.to_set()
                    == time_pass_sets(old(self).items@, max_diff_seconds as int)[i],
    {
        let n: usize = self.items.len();
        if n == 0 {
            return ;
        }
        let ghost orig: Seq<FileItem> = self.items@;
        let ghost md: int = max_diff_seconds as int;
        let mut start: usize = 0;
        let mut index: usize = 1;
        while index < n
            invariant
                1 <= index <= n,
                0 <= start < index,
                n == self.items@.len(),
                n == orig.len(),
                self.events == old(self).events,
                self.path == old(self).path,
                orig == old(self).items@,
                md == max_diff_seconds as int,
                start == 0 || time_break(orig, md, start as int),
                forall|j: int| start < j < index ==> !time_break(orig, md, j),
                forall|k: int|
                    0 <= k < start ==> same_but_similar(#[trigger] self.items@[k], orig[k])
                        && self.items@[k].similar@ == orig[k].similar@ + range_seq(
                        run_start(orig, md, k),
                        run_end(orig, md, k),
                    ),
                forall|k: int| start <= k < n ==> #[trigger] self.items@[k] == orig[k],
            decreases n - index,
        {
            let prev: i64 = self.items[index - 1].get_timestamp();
            let cur: i64 = self.items[index].get_timestamp();
            if (prev as i128) + (max_diff_seconds as i128) < (cur as i128) {
                proof {
                    assert(time_break(orig, md, index as int));
                }
                self.set_similar_range(start, index);
                proof {
                    assert forall|k: int|
                        start <= k < index implies run_start(orig, md, k) == start as int
                        && run_end(orig, md, k) == index as int by {
                        lemma_run_start_const(orig, md, start as int, k);
                        lemma_run_end_const(orig, md, index as int, k);
                    }
                }
                start = index;
            }
            index = index + 1;
        }
        self.set_similar_range(start, n);
        proof {
            assert forall|k: int|
                start <= k < n implies run_start(orig, md, k) == start as int && run_end(
                orig,
                md,
                k,
            ) == n as int by {
                lemma_run_start_const(orig, md, start as int, k);
                lemma_run_end_const(orig, md, n as int, k);
            }
        }
        let mut idx: usize = 0;
        while idx < n
            invariant
                0 <= idx <= n,
                n == self.items@.len(),
                n == orig.len(),
                self.events == old(self).events,
                self.path == old(self).path,
                orig == old(self).items@,
                md == max_diff_seconds as int,
                forall|k: int|
                    idx <= k < n ==> same_but_similar(#[trigger] self.items@[k], orig[k])
                        && self.items@[k].similar@ == orig[k].similar@ + range_seq(
                        run_start(orig, md, k),
                        run_end(orig, md, k),
                    ),
                forall|k: int|
                    0 <= k < idx ==> same_but_similar(#[trigger] self.items@[k], orig[k])
                        && sorted_unique(self.items@[k].similar@)
                        && self.items@[k].similar@.to_set() == time_pass_sets(orig, md)[k],
            decreases n - idx,
        {
            let ghost before: Seq<FileItem> = self.items@;
            let mut it: FileItem = self.items.remove(idx);
            it.clean_similars(idx);
            self.items.insert(idx, it);
            proof {
                assert(self.items@ =~= before.update(idx as int, self.items@[idx as int]));
                lemma_run_facts(orig, md, idx as int);
                lemma_to_set_concat(
                    orig[idx as int].similar@,
                    range_seq(run_start(orig, md, idx as int), run_end(orig, md, idx as int)),
                );
                lemma_range_seq_to_set(
                    run_start(orig, md, idx as int),
                    run_end(orig, md, idx as int),
                );
                assert(time_run_set(orig, md, idx as int) =~= range_seq(
                    run_start(orig, md, idx as int),
                    run_end(orig, md, idx as int),
                ).to_set());
                assert(self.items@[idx as int].similar@.to_set() =~= time_pass_sets(orig, md)[
                    idx as int]);
                assert(same_but_similar(self.items@[idx as int], orig[idx as int]));
                assert(forall|k: int| 0 <= k < n && k != idx ==> #[trigger] self.items@[k]
                    == before[k]);
            }
            idx = idx + 1;
        }
    }

    /// Cluster the items by perceptual-hash distance: two items whose
    /// hashes lie strictly within `max_diff_hash` of each other record one
    /// another as similar; items without a hash never cluster.
    pub fn find_similar_hashes(&mut self, max_diff_hash: u32)
        ensures
            final(self).events == old(self).events,
            final(self).path == old(self).path,
            final(self).items@.len() == old(self).items@.len(),
            forall|i: int|
                0 <= i < old(self).items@.len() ==> same_but_similar(
                    #[trigger] final(self).items@[i],
                    old(self).items@[i],
                ),
            forall|i: int|
                0 <= i < old(self).items@.len() ==> sorted_unique(
                    (#[trigger] final(self).items@[i]).similar@,
                ),
            forall|i: int|
                0 <= i < old(self).items@.len() ==> (#[trigger] final(self).items@[i]).similar@.to_set()
                    == hash_pass_sets(old(self).items@, max_diff_hash as int)[i],
    {
        let n: usize = self.items.len();
        let ghost orig: Seq<FileItem> = self.items@;
        let ghost md: int = max_diff_hash as int;
        let mut i: usize = 0;
        while i < n
            invariant
                0 <= i <= n,
                n == self.items@.len(),
                n == orig.len(),
                self.events == old(self).events,
                self.path == old(self).path,
                orig == old(self).items@,
                md == max_diff_hash as int,
                forall|k: int| i <= k < n ==> #[trigger] self.items@[k] == orig[k],
                forall|k: int|
                    0 <= k < i ==> same_but_similar(#[trigger] self.items@[k], orig[k])
                        && sorted_unique(self.items@[k].similar@)
                        && self.items@[k].similar@.to_set() == hash_pass_sets(orig, md)[k],
            decreases n - i,
        {
            let mut nb: Vec<usize> = Vec::new();
            let mut j: usize = 0;
            proof {
                assert forall|k: int| 0 <= k < n implies (#[trigger] self.items@[k]).hash
                    == orig[k].hash by {
                    if k < i {
                        assert(same_but_similar(self.items@[k], orig[k]));
                    } else {
                        assert(self.items@[k] == orig[k]);
                    }
                }
            }
            while j < n
                invariant
                    0 <= j <= n,
                    0 <= i < n,
                    n == self.items@.len(),
                    n == orig.len(),
                    md == max_diff_hash as int,
                    forall|k: int| 0 <= k < n ==> (#[trigger] self.items@[k]).hash == orig[k].hash,
                    nb@.to_set() == Set::new(
                        |y: usize| y < j && y != i && spec_hash_distance(
                            orig[i as int],
                            orig[y as int],
                        ) < md,
                    ),
                decreases n - j,
            {
                let ghost nbpre: Seq<usize> = nb@;
                if j != i {
                    let d: u32 = self.items[i].get_hash_distance(&self.items[j]);
                    proof {
                        assert(spec_hash_distance(self.items@[i as int], self.items@[j as int])
                            == spec_hash_distance(orig[i as int], orig[j as int]));
                    }
                    if d < max_diff_hash {
                        nb.push(j);
                        proof {
                            crate::file_item::lemma_to_set_push(nbpre, j);
                        }
                    }
                }
                proof {
                    assert(nb@.to_set() =~= Set::new(
                        |y: usize| y < j + 1 && y != i && spec_hash_distance(
                            orig[i as int],
                            orig[y as int],
                        ) < md,
                    ));
                }
                j = j + 1;
            }
            let ghost before: Seq<FileItem> = self.items@;
            let mut it: FileItem = self.items.remove(i);
            it.add_similar_vec(&nb);
            it.clean_similars(i);
            self.items.insert(i, it);
            proof {
                assert(self.items@ =~= before.update(i as int, self.items@[i as int]));
                lemma_to_set_concat(orig[i as int].similar@, nb@);
                assert(nb@.to_set() =~= hash_neighbor_set(orig, md, i as int));
                assert(self.items@[i as int].similar@.to_set() =~= hash_pass_sets(orig, md)[
                    i as int]);
                assert(same_but_similar(self.items@[i as int], orig[i as int]));
                assert(forall|k: int| 0 <= k < n && k != i ==> #[trigger] self.items@[k]
                    == before[k]);
            }
            i = i + 1;
        }
    }
}

/// The indices of hash-needing items among the first `n`, in order.
pub open spec fn hash_candidates_upto(s: Seq<FileItem>, n: int) -> Seq<usize>
    decreases n,
{
    if n <= 0 {
        Seq::empty()
    } else {
        hash_candidates_upto(s, n - 1) + (if crate::file_item::spec_hash_candidate(s[n - 1]) {
            seq![(n - 1) as usize]
        } else {
            Seq::empty()
        })
    }
}

impl ItemList {
    /// The indices of the items the hashing pipeline must still feed:
    /// ordinary and raw images without a stored hash, in list order.
    pub fn hash_candidates(&self) -> (r: Vec<usize>)
        ensures
            r@ == hash_candidates_upto(self.items@, self.items@.len() as int),
    {
        let n: usize = self.items.len();
        let mut out: Vec<usize> = Vec::new();
        let mut i: usize = 0;
        while i < n
            invariant
                0 <= i <= n,
                n == self.items@.len(),
                out@ == hash_candidates_upto(self.items@, i as int),
            decreases n - i,
        {
            let candidate: bool = (self.items[i].is_image() || self.items[i].is_raw_image())
                && !self.items[i].has_hash();
            if candidate {
                out.push(i);
            }
            proof {
                assert(out@ =~= hash_candidates_upto(self.items@, i as int + 1));
            }
            i = i + 1;
        }
        out
    }
}

/// Law: time-based similarity is symmetric over any item list.
pub proof fn lemma_time_similarity_symmetric(s: Seq<FileItem>, max_diff: int, i: int, j: int)
    requires
        s.len() <= usize::MAX,
        0 <= i < s.len(),
        0 <= j < s.len(),
    ensures
        time_run_set(s, max_diff, i).contains(j as usize) == time_run_set(
            s,
            max_diff,
            j,
        ).contains(i as usize),
{
    lemma_run_facts(s, max_diff, i);
    lemma_run_facts(s, max_diff, j);
    if run_start(s, max_diff, i) <= j < run_end(s, max_diff, i) {
        lemma_run_start_const(s, max_diff, run_start(s, max_diff, i), j);
        lemma_run_end_const(s, max_diff, run_end(s, max_diff, i), j);
    }
    if run_start(s, max_diff, j) <= i < run_end(s, max_diff, j) {
        lemma_run_start_const(s, max_diff, run_start(s, max_diff, j), i);
        lemma_run_end_const(s, max_diff, run_end(s, max_diff, j), i);
    }
}

/// Law: hash-based similarity is symmetric over any item list.
pub proof fn lemma_hash_similarity_symmetric(s: Seq<FileItem>, max_diff: int, i: int, j: int)
    requires
        s.len() <= usize::MAX,
        0 <= i < s.len(),
        0 <= j < s.len(),
    ensures
        hash_neighbor_set(s, max_diff, i).contains(j as usize) == hash_neighbor_set(
            s,
            max_diff,
            j,
        ).contains(i as usize),
{
    match (s[i].hash, s[j].hash) {
        (Some(a), Some(b)) => {
            crate::file_item::lemma_hamming_symmetric(a@, b@);
        },
        _ => (),
    }
}

/// Law: running the time-clustering pass a second time on the unchanged,
/// once-clustered list leaves every similar-set as it is.
pub proof fn lemma_time_pass_idempotent(s: Seq<FileItem>, t: Seq<FileItem>, max_diff: int)
    requires
        t.len() == s.len(),
        forall|i: int| 0 <= i < s.len() ==> t[i].timestamp == s[i].timestamp,
        forall|i: int|
            0 <= i < s.len() ==> (#[trigger] t[i].similar@).to_set() == time_pass_sets(
                s,
                max_diff,
            )[i],
    ensures
        forall|i: int|
            0 <= i < s.len() ==> time_pass_sets(t, max_diff)[i] == time_pass_sets(s, max_diff)[i],
{
    assert forall|i: int| 0 <= i < s.len() implies time_pass_sets(t, max_diff)[i]
        == time_pass_sets(s, max_diff)[i] by {
        lemma_run_start_eq(s, t, max_diff, i);
        lemma_run_end_eq(s, t, max_diff, i);
        assert(time_run_set(t, max_diff, i) =~= time_run_set(s, max_diff, i));
        assert(time_pass_sets(t, max_diff)[i] =~= time_pass_sets(s, max_diff)[i]);
    }
}

proof fn lemma_run_start_eq(s: Seq<FileItem>, t: Seq<FileItem>, max_diff: int, i: int)
    requires
        t.len() == s.len(),
        forall|k: int| 0 <= k < s.len() ==> t[k].timestamp == s[k].timestamp,
        0 <= i < s.len(),
    ensures
        run_start(t, max_diff, i) == run_start(s, max_diff, i),
    decreases i,
{
    if i > 0 && !time_break(s, max_diff, i) {
        lemma_run_start_eq(s, t, max_diff, i - 1);
    }
}

proof fn lemma_run_end_eq(s: Seq<FileItem>, t: Seq<FileItem>, max_diff: int, i: int)
    requires
        t.len() == s.len(),
        forall|k: int| 0 <= k < s.len() ==> t[k].timestamp == s[k].timestamp,
        0 <= i < s.len(),
    ensures
        run_end(t, max_diff, i) == run_end(s, max_diff, i),
    decreases s.len() - i,
{
    if i + 1 < s.len() && !time_break(s, max_diff, i + 1) {
        lemma_run_end_eq(s, t, max_diff, i + 1);
    }
}

/// Law: running the hash-clustering pass a second time on the unchanged,
/// once-clustered list leaves every similar-set as it is.
pub proof fn lemma_hash_pass_idempotent(s: Seq<FileItem>, t: Seq<FileItem>, max_diff: int)
    requires
        t.len() == s.len(),
        forall|i: int| 0 <= i < s.len() ==> t[i].hash == s[i].hash,
        forall|i: int|
            0 <= i < s.len() ==> (#[trigger] t[i].similar@).to_set() == hash_pass_sets(
                s,
                max_diff,
            )[i],
    ensures
        forall|i: int|
            0 <= i < s.len() ==> hash_pass_sets(t, max_diff)[i] == hash_pass_sets(s, max_diff)[i],
{
    assert forall|i: int| 0 <= i < s.len() implies hash_pass_sets(t, max_diff)[i]
        == hash_pass_sets(s, max_diff)[i] by {
        assert(hash_neighbor_set(t, max_diff, i) =~= hash_neighbor_set(s, max_diff, i));
        assert(hash_pass_sets(t, max_diff)[i] =~= hash_pass_sets(s, max_diff)[i]);
    }
}

impl ItemList {
    /// Sieve this collection into the target folder; see `sieve::sieve`.
    pub fn sieve<T: crate::sieve::SieveIO, F: Fn(String)>(
        &self,
        path: &str,
        sieve_method: SieveMethod,
        sieve_directory_names: DirectoryNames,
        sieve_io: &T,
        progress_callback: F,
    )
        requires
            self.events_wf(),
            forall|s: String| #[trigger] progress_callback.requires((s,)),
    {
        crate::sieve::sieve(
            self,
            path,
            sieve_method,
            sieve_directory_names,
            sieve_io,
            progress_callback,
        );
    }
}

/// Insert an item into a timestamp-sorted vector, after any item with the
/// same timestamp.
fn insert_by_timestamp(v: &mut Vec<FileItem>, it: FileItem)
    requires
        sorted_by_timestamp(old(v)@),
    ensures
        sorted_by_timestamp(final(v)@),
        final(v)@.to_multiset() == old(v)@.to_multiset().insert(it),
{
    let n: usize = v.len();
    let mut i: usize = 0;
    while i < n && v[i].timestamp <= it.timestamp
        invariant
            0 <= i <= n,
            n == v@.len(),
            v == old(v),
            forall|k: int| 0 <= k < i ==> v@[k].timestamp <= it.timestamp,
        decreases n - i,
    {
        i = i + 1;
    }
    v.insert(i, it);
    proof {
        broadcast use vstd::seq_lib::group_to_multiset_ensures;

        let newv = final(v)@;
        let oldv = old(v)@;
        assert(sorted_by_timestamp(newv)) by {
            assert(forall|p: int| 0 <= p < i ==> newv[p] == oldv[p]);
            assert(newv[i as int] == it);
            assert(forall|q: int| i < q < newv.len() ==> newv[q] == oldv[q - 1]);
            assert(forall|q: int| i <= q < oldv.len() ==> oldv[q].timestamp >= it.timestamp);
        }
        assert(newv.remove(i as int) =~= oldv);
        assert(newv.to_multiset().remove(it) =~= oldv.to_multiset());
        assert(newv.to_multiset().count(it) > 0) by {
            assert(newv[i as int] == it);
            assert(newv.contains(it));
        }
        assert(newv.to_multiset() =~= oldv.to_multiset().insert(it));
    }
}

} // verus!
