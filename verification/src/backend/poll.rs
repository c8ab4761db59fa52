//! Files that are looked at again and again.

use vstd::prelude::*;

verus! {

/// Looking at files again and again.
#[derive(Debug)]
pub struct PollBackend {
    /// The files.
    pub paths: Vec<String>,
    /// How long to wait in between, in milliseconds.
    pub interval: u64,
    /// Whether to start at the end of the files.
    pub from_tail: bool,
}

impl PollBackend {
    /// Looking at `paths` every `interval` milliseconds.
    pub fn new(paths: Vec<String>, interval: u64, from_tail: bool) -> (r: PollBackend)
        ensures
            r == (PollBackend { paths, interval, from_tail }),
    {
        PollBackend { paths, interval, from_tail }
    }

    /// The name of this way of reading logs.
    pub fn name(&self) -> (r: &'static str)
        ensures
            r@ == "poll"@,
    {
        "poll"
    }
}

/// How far a file has been read.
#[derive(Debug)]
pub struct FileState {
    /// The inode of the file that is read, where it is known.
    pub inode: Option<u64>,
    /// The position to go on from; `None` for the end of the file.
    pub at: Option<u64>,
    /// Whether the file is open.
    pub open: bool,
}

/// Whether a file that looks like this is another one than before, or was cut
/// off.
pub open spec fn is_rotated(st: FileState, inode: Option<u64>, size: u64) -> bool {
    st.inode != inode || match st.at {
        Some(p) => size < p,
        None => true,
    }
}

/// Where to read on in a file of a size.
pub open spec fn start_of(at: Option<u64>, size: u64) -> u64 {
    match at {
        None => size,
        Some(p) => if p > size {
            0
        } else {
            p
        },
    }
}

impl FileState {
    /// A file that has not been opened yet.
    pub fn new(from_tail: bool) -> (r: FileState)
        ensures
            r == (FileState {
                inode: None,
                at: if from_tail {
                    None
                } else {
                    Some(0)
                },
                open: false,
            }),
    {
        FileState {
            inode: None,
            at: if from_tail {
                None
            } else {
                Some(0)
            },
            open: false,
        }
    }

    /// The file was opened; the position to read on from comes back.
    pub fn opened(&mut self, inode: Option<u64>, size: u64) -> (r: u64)
        ensures
            r == start_of(old(self).at, size),
            *final(self) == (FileState { inode, at: Some(r), open: true }),
    {
        let start: u64 = match self.at {
            None => size,
            Some(p) => if p > size {
                0
            } else {
                p
            },
        };
        self.inode = inode;
        self.at = Some(start);
        self.open = true;
        start
    }

    /// The file was looked at. One that is another one than before, or was cut
    /// off, has to be opened again and is read from its start.
    pub fn looked_at(&mut self, inode: Option<u64>, size: u64) -> (r: bool)
        ensures
            r == is_rotated(*old(self), inode, size),
            r ==> *final(self) == (FileState { inode, at: Some(0), open: false }),
            !r ==> *final(self) == *old(self),
    {
        let shorter = match self.at {
            Some(p) => size < p,
            None => true,
        };
        let same = match (self.inode, inode) {
            (Some(a), Some(b)) => a == b,
            (None, None) => true,
            _ => false,
        };
        if same && !shorter {
            return false;
        }
        self.inode = inode;
        self.at = Some(0);
        self.open = false;
        true
    }

    /// The file was read up to a position.
    pub fn read_to(&mut self, at: u64)
        ensures
            *final(self) == (FileState { at: Some(at), ..*old(self) }),
    {
        self.at = Some(at);
    }
}

/// A file that was rotated is read from its start, and one that was not is
/// read on from where reading stopped.
pub proof fn law_reading_goes_on(st: FileState, inode: Option<u64>, size: u64)
    ensures
        is_rotated(st, inode, size) ==> start_of(Some(0), size) == 0,
        !is_rotated(st, inode, size) ==> Some(start_of(st.at, size)) == st.at,
{
}

/// A log was rotated when another file has its name, or when it is shorter
/// than what was read of it; a log that only grew is read on from where
/// reading stopped. A log whose end counts is read from its end.
pub proof fn law_rotation(st: FileState, at: u64, inode: Option<u64>, size: u64)
    requires
        st.at == Some(at),
    ensures
        inode != st.inode ==> is_rotated(st, inode, size),
        size < at ==> is_rotated(st, inode, size),
        size >= at ==> !is_rotated(st, st.inode, size) && start_of(st.at, size) == at,
        size < at ==> start_of(st.at, size) == 0,
        start_of(None, size) == size,
{
}

} // verus!
