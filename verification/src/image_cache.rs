//! The queue discipline of the prioritized image loader.  The loader owns
//! two lanes, each a queue of load commands drained by a background
//! worker; this module holds the verified rules for how commands enter
//! and leave a queue, and when a size restriction invalidates the cache.
//! The threads, channels and decoding around it live with the caller.

use vstd::prelude::*;

use crate::text::str_eq;

verus! {

/// Why an image is being loaded; decides the queueing priority.
#[derive(PartialEq, Eq, Structural, Clone, Copy, Debug)]
pub enum Purpose {
    /// The image the user is looking at: it replaces all queued work of
    /// its lane.
    CurrentImage,
    /// An image shown beside the current one: appended to its lane.
    SimilarImage,
    /// An image likely to be viewed next: appended unless an equal
    /// command (same path) is already queued.
    Prefetch,
}

/// One queued load request.  The payload carries whatever the caller
/// wants handed to the worker, typically a completion callback.
pub struct LoadCommand<C> {
    /// The file to decode.
    pub path: String,
    /// Maximum width of the decoded image.
    pub width: u32,
    /// Maximum height of the decoded image.
    pub height: u32,
    /// Opaque caller payload.
    pub payload: C,
}

/// Whether some queued command carries the path.
pub open spec fn has_path<C>(s: Seq<LoadCommand<C>>, p: Seq<char>) -> bool {
    exists|i: int| 0 <= i < s.len() && (#[trigger] s[i]).path@ == p
}

/// A lane's queue of pending load commands.
pub struct LoadQueue<C> {
    commands: Vec<LoadCommand<C>>,
}

impl<C> View for LoadQueue<C> {
    type V = Seq<LoadCommand<C>>;

    closed spec fn view(&self) -> Seq<LoadCommand<C>> {
        self.commands@
    }
}

impl<C> LoadQueue<C> {
    /// An empty queue.
    pub fn new() -> (r: Self)
        ensures
            r@ == Seq::<LoadCommand<C>>::empty(),
    {
        LoadQueue { commands: Vec::new() }
    }

    /// Whether no command is pending.
    pub fn is_empty(&self) -> (r: bool)
        ensures
            r == (self@.len() == 0),
    {
        self.commands.len() == 0
    }

    /// Enqueue a command.  The current image replaces the whole queue;
    /// a similar image is appended; a prefetch is appended only when no
    /// command with its path is queued yet.
    pub fn enqueue(&mut self, command: LoadCommand<C>, purpose: Purpose)
        ensures
            purpose == Purpose::CurrentImage ==> final(self)@ == seq![command],
            purpose == Purpose::SimilarImage ==> final(self)@ == old(self)@.push(command),
            purpose == Purpose::Prefetch && has_path(old(self)@, command.path@) ==> final(self)@
                == old(self)@,
            purpose == Purpose::Prefetch && !has_path(old(self)@, command.path@)
                ==> final(self)@ == old(self)@.push(command),
    {
        match purpose {
            Purpose::CurrentImage => {
                self.commands.clear();
                self.commands.push(command);
                proof {
                    assert(self.commands@ =~= seq![command]);
                }
            },
            Purpose::SimilarImage => {
                self.commands.push(command);
            },
            Purpose::Prefetch => {
                let n: usize = self.commands.len();
                let mut i: usize = 0;
                while i < n
                    invariant
                        0 <= i <= n,
                        n == self.commands@.len(),
                        *self == *old(self),
                        purpose == Purpose::Prefetch,
                        forall|j: int| 0 <= j < i ==> (#[trigger] self.commands@[j]).path@
                            != command.path@,
                    decreases n - i,
                {
                    if str_eq(self.commands[i].path.as_str(), command.path.as_str()) {
                        return ;
                    }
                    i = i + 1;
                }
                proof {
                    assert(!has_path(self.commands@, command.path@));
                }
                self.commands.push(command);
            },
        }
    }

    /// Take the next command to work on, oldest first.
    pub fn pop_front(&mut self) -> (r: Option<LoadCommand<C>>)
        ensures
            old(self)@.len() == 0 ==> r is None && final(self)@ == old(self)@,
            old(self)@.len() > 0 ==> ({
                &&& r matches Some(c) && c == old(self)@[0]
                &&& final(self)@ == old(self)@.drop_first()
            }),
    {
        if self.commands.len() == 0 {
            None
        } else {
            let c: LoadCommand<C> = self.commands.remove(0);
            proof {
                assert(self.commands@ =~= old(self)@.drop_first());
            }
            Some(c)
        }
    }

    /// Discard every pending command.
    pub fn clear(&mut self)
        ensures
            final(self)@ == Seq::<LoadCommand<C>>::empty(),
    {
        self.commands.clear();
    }
}

/// The size bounds the cache was filled under.  Bounds only ever grow;
/// growth makes the cached, smaller decodes stale.
#[derive(PartialEq, Eq, Structural, Clone, Copy, Debug)]
pub struct CacheBounds {
    /// Maximum width of cached images.
    pub max_width: u32,
    /// Maximum height of cached images.
    pub max_height: u32,
}

impl CacheBounds {
    /// Unrestricted bounds.
    pub fn new() -> (r: CacheBounds)
        ensures
            r.max_width == 0 && r.max_height == 0,
    {
        CacheBounds { max_width: 0, max_height: 0 }
    }

    /// Take new size bounds.  The answer says whether the cache must be
    /// invalidated: exactly when either bound grew.
    pub fn restrict_size(&mut self, max_width: u32, max_height: u32) -> (invalidate: bool)
        ensures
            invalidate == (max_width > old(self).max_width || max_height > old(self).max_height),
            invalidate ==> *final(self) == (CacheBounds { max_width, max_height }),
            !invalidate ==> *final(self) == *old(self),
    {
        if max_width > self.max_width || max_height > self.max_height {
            self.max_width = max_width;
            self.max_height = max_height;
            true
        } else {
            false
        }
    }
}

} // verus!
