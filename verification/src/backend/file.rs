//! Files that are watched through notifications.

use crate::backend::poll::PollBackend;
use vstd::prelude::*;

verus! {

/// Watching files.
#[derive(Debug)]
pub struct FileBackend {
    /// The files.
    pub paths: Vec<String>,
    /// How long to wait in between where there are no notifications, in
    /// milliseconds.
    pub interval: u64,
    /// Whether to start at the end of the files.
    pub from_tail: bool,
}

impl FileBackend {
    /// Watching `paths`.
    pub fn new(paths: Vec<String>, from_tail: bool) -> (r: FileBackend)
        ensures
            r == (FileBackend { paths, interval: 1000, from_tail }),
    {
        FileBackend { paths, interval: 1000, from_tail }
    }

    /// With another time to wait in between.
    pub fn with_interval(self, interval: u64) -> (r: FileBackend)
        ensures
            r == (FileBackend { interval, ..self }),
    {
        FileBackend { paths: self.paths, interval, from_tail: self.from_tail }
    }

    /// The name of this way of reading logs.
    pub fn name(&self) -> (r: &'static str)
        ensures
            r@ == "file"@,
    {
        "file"
    }

    /// Looking at the files again and again, where there are no notifications.
    pub fn fallback(self) -> (r: PollBackend)
        ensures
            r == (PollBackend {
                paths: self.paths,
                interval: self.interval,
                from_tail: self.from_tail,
            }),
    {
        PollBackend::new(self.paths, self.interval, self.from_tail)
    }
}

/// A file that is watched.
#[derive(Debug)]
pub struct Watched {
    /// The inode of the file that is read.
    pub inode: u64,
    /// How far the file has been read, or its size at first.
    pub seen: u64,
}

/// Whether a file that looks like this is another one than before, or was cut
/// off.
pub open spec fn is_rotated(w: Watched, inode: u64, size: u64) -> bool {
    inode != w.inode || size < w.seen
}

impl Watched {
    /// A file that was opened, and the position to start reading from.
    pub fn new(inode: u64, size: u64, from_tail: bool) -> (r: (Watched, u64))
        ensures
            r.0 == (Watched { inode, seen: size }),
            r.1 == (if from_tail {
                size
            } else {
                0
            }),
    {
        (
            Watched { inode, seen: size },
            if from_tail {
                size
            } else {
                0
            },
        )
    }

    /// Whether the file has to be opened again.
    pub fn rotated(&self, inode: u64, size: u64) -> (r: bool)
        ensures
            r == is_rotated(*self, inode, size),
    {
        inode != self.inode || size < self.seen
    }

    /// The file was opened again, and is read from its start.
    pub fn reopened(&mut self, inode: u64)
        ensures
            *final(self) == (Watched { inode, seen: 0 }),
    {
        self.inode = inode;
        self.seen = 0;
    }

    /// The file was read up to a position.
    pub fn read_to(&mut self, at: u64)
        ensures
            *final(self) == (Watched { seen: at, ..*old(self) }),
    {
        self.seen = at;
    }
}

/// A log was rotated when another file has its name, or when it is shorter
/// than what was read of it; a log that only grew was not.
pub proof fn law_rotation(w: Watched, inode: u64, size: u64)
    ensures
        inode != w.inode ==> is_rotated(w, inode, size),
        size < w.seen ==> is_rotated(w, inode, size),
        size >= w.seen ==> !is_rotated(w, w.inode, size),
{
}

} // verus!
