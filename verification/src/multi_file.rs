//! Several files read as one: which file is opened when, and when the
//! input has ended. To open and to read is left to the caller, who tells
//! this reader how each attempt went and is told what to do next.

use crate::text::chars_of;
use vstd::prelude::*;
use vstd::string::*;

verus! {

/// What happened to the reader.
#[derive(PartialEq, Eq, Debug, Clone, Copy, Structural)]
pub enum ReadEvent {
    /// The caller asks for bytes.
    Begin,
    /// The file that was to be opened is open.
    Opened,
    /// The file that was to be opened could not be opened.
    OpenFailed,
    /// The current file gave this many bytes; none at its end.
    Got(usize),
    /// The current file could not be read.
    ReadFailed,
}

/// What is to be done next.
#[derive(PartialEq, Eq, Debug, Clone, Copy, Structural)]
pub enum ReadAction {
    /// Open the file with this place among the names, through a gzip
    /// decoder where it is compressed, then report `Opened` or `OpenFailed`.
    Open { index: usize, compressed: bool },
    /// Read from the current file, then report `Got` or `ReadFailed`.
    Read,
    /// Hand this many bytes to the one who asked; none at the end of the
    /// last file.
    Return(usize),
    /// Hand the error of the last attempt to the one who asked.
    Fail,
}

/// Where the reader stands: how many names it has used, and whether a file
/// is open.
pub struct Progress {
    pub used: nat,
    pub open: bool,
}

/// `name` is that of a compressed file: it ends in `.gz`.
pub open spec fn is_compressed(name: Seq<char>) -> bool {
    name.len() >= 3 && name.subrange(name.len() - 3, name.len() as int) == seq!['.', 'g', 'z']
}

/// What is done where no file is open: the next name is used, or the input
/// has ended.
pub open spec fn next_file(names: Seq<String>, progress: Progress) -> (Progress, ReadAction) {
    if progress.used < names.len() {
        (
            Progress { used: progress.used + 1, open: false },
            ReadAction::Open {
                index: progress.used as usize,
                compressed: is_compressed(names[progress.used as int]@),
            },
        )
    } else {
        (Progress { used: progress.used, open: false }, ReadAction::Return(0))
    }
}

/// What `event` leads to. A file that has ended is left for the next one; a
/// file that cannot be opened is passed over, and the error is handed on.
pub open spec fn transition(names: Seq<String>, progress: Progress, event: ReadEvent) -> (
    Progress,
    ReadAction,
) {
    match event {
        ReadEvent::Begin => if progress.open {
            (progress, ReadAction::Read)
        } else {
            next_file(names, progress)
        },
        ReadEvent::Opened => (Progress { used: progress.used, open: true }, ReadAction::Read),
        ReadEvent::OpenFailed => (
            Progress { used: progress.used, open: false },
            ReadAction::Fail,
        ),
        ReadEvent::Got(n) => if n == 0 {
            next_file(names, progress)
        } else {
            (progress, ReadAction::Return(n))
        },
        ReadEvent::ReadFailed => (progress, ReadAction::Fail),
    }
}

fn ends_in_gz(name: &str) -> (b: bool)
    ensures
        b == is_compressed(name@),
{
    let chars = chars_of(name);
    let n = chars.len();
    if n < 3 {
        return false;
    }
    let b = chars[n - 3] == '.' && chars[n - 2] == 'g' && chars[n - 1] == 'z';
    proof {
        let end = name@.subrange(n - 3, n as int);
        assert(end[0] == name@[n - 3] && end[1] == name@[n - 2] && end[2] == name@[n - 1]);
        if b {
            assert(end =~= seq!['.', 'g', 'z']);
        }
    }
    b
}

/// Reads the files of the given names one after the other.
pub struct MultiFile {
    filenames: Vec<String>,
    used: usize,
    open: bool,
}

impl MultiFile {
    /// The names of the files, in the order in which they are read.
    pub closed spec fn names(&self) -> Seq<String> {
        self.filenames@
    }

    /// Where the reader stands.
    pub closed spec fn progress(&self) -> Progress {
        Progress { used: self.used as nat, open: self.open }
    }

    /// No more names are used than there are.
    pub open spec fn wf(&self) -> bool {
        self.progress().used <= self.names().len()
    }

    pub fn new(filenames: Vec<String>) -> (files: MultiFile)
        ensures
            files.wf(),
            files.names() == filenames@,
            files.progress() == (Progress { used: 0, open: false }),
    {
        MultiFile { filenames, used: 0, open: false }
    }

    /// The name with the place `index`.
    pub fn filename(&self, index: usize) -> (name: &String)
        requires
            index < self.names().len(),
        ensures
            *name == self.names()[index as int],
    {
        &self.filenames[index]
    }

    fn to_next_file(&mut self) -> (action: ReadAction)
        requires
            old(self).wf(),
        ensures
            final(self).wf(),
            final(self).names() == old(self).names(),
            (final(self).progress(), action) == next_file(old(self).names(), old(self).progress()),
    {
        self.open = false;
        if self.used < self.filenames.len() {
            let index = self.used;
            let compressed = ends_in_gz(self.filenames[index].as_str());
            self.used = self.used + 1;
            ReadAction::Open { index, compressed }
        } else {
            ReadAction::Return(0)
        }
    }

    /// Takes note of `event` and tells what is to be done next.
    pub fn advance(&mut self, event: ReadEvent) -> (action: ReadAction)
        requires
            old(self).wf(),
        ensures
            final(self).wf(),
            final(self).names() == old(self).names(),
            (final(self).progress(), action) == transition(
                old(self).names(),
                old(self).progress(),
                event,
            ),
    {
        match event {
            ReadEvent::Begin => {
                if self.open {
                    ReadAction::Read
                } else {
                    self.to_next_file()
                }
            },
            ReadEvent::Opened => {
                self.open = true;
                ReadAction::Read
            },
            ReadEvent::OpenFailed => {
                self.open = false;
                ReadAction::Fail
            },
            ReadEvent::Got(n) => {
                if n == 0 {
                    self.to_next_file()
                } else {
                    ReadAction::Return(n)
                }
            },
            ReadEvent::ReadFailed => ReadAction::Fail,
        }
    }
}

} // verus!
