//! A walk over files and directories, as a work list: the caller asks the
//! file system, and the work list decides what that means for the walk.
use vstd::prelude::*;
use vstd::string::*;

verus! {

/// What the file system says of a path.
#[derive(Clone, Debug, PartialEq, Eq)]
pub enum Probe {
    /// The path has no metadata to be had.
    NoMetadata,
    /// The path is not a directory.
    File,
    /// The path is a directory with these entries, in the order in which
    /// they were read.
    Directory(Vec<String>),
    /// The path is a directory that cannot be read.
    Unreadable,
    /// The path is a directory of which these entries were read before
    /// one could not be.
    BrokenEntry(Vec<String>),
}

/// Why a walk stumbled.
#[derive(Clone, Debug, PartialEq, Eq)]
pub enum WalkError {
    /// No metadata for the path.
    Metadata(String),
    /// An entry of the directory could not be read.
    Entry(String),
    /// The directory could not be read.
    Directory(String),
}

/// What a probe means for the walk.
#[derive(Clone, Debug, PartialEq, Eq)]
pub enum Step {
    /// The path is a file: the walk hands it out.
    Found(String),
    /// The path was a directory: its entries wait now, and the walk goes on.
    Descended,
    /// The walk stumbled. It can go on with what still waits.
    Failed(WalkError),
}

impl WalkError {
    /// What is said of each stumble.
    pub open spec fn message(self) -> Seq<char> {
        match self {
            WalkError::Metadata(path) => "couldn't get filesystem metadata for "@ + path@,
            WalkError::Entry(path) => "couldn't read an entry from "@ + path@,
            WalkError::Directory(path) => "couldn't read "@ + path@ + " as a directory"@,
        }
    }

    /// What is said of this stumble.
    pub fn to_string(&self) -> (text: String)
        ensures
            text@ == self.message(),
    {
        match self {
            WalkError::Metadata(path) => {
                let mut text = String::from_str("couldn't get filesystem metadata for ");
                text.append(path.as_str());
                text
            },
            WalkError::Entry(path) => {
                let mut text = String::from_str("couldn't read an entry from ");
                text.append(path.as_str());
                text
            },
            WalkError::Directory(path) => {
                let mut text = String::from_str("couldn't read ");
                text.append(path.as_str());
                text.append(" as a directory");
                text
            },
        }
    }
}

/// The paths that wait to be looked at. The last one is looked at next.
pub struct Files {
    waiting: Vec<String>,
}

impl Files {
    /// The paths that wait, the next one last.
    pub closed spec fn pending(self) -> Seq<Seq<char>> {
        self.waiting.deep_view()
    }

    /// A walk that starts from the given paths.
    pub fn new(waiting: Vec<String>) -> (files: Files)
        ensures
            files.pending() == waiting.deep_view(),
    {
        Files { waiting }
    }

    /// Takes the path that is to be looked at next, if any waits.
    pub fn next_path(&mut self) -> (path: Option<String>)
        ensures
            match path {
                Some(path) => {
                    &&& old(self).pending().len() > 0
                    &&& path@ == old(self).pending().last()
                    &&& final(self).pending() == old(self).pending().drop_last()
                },
                None => old(self).pending().len() == 0 && final(self).pending() == old(
                    self,
                ).pending(),
            },
    {
        let ghost before = self.waiting.deep_view();
        let path = self.waiting.pop();
        proof {
            assert(before.len() == old(self).waiting@.len());
            if path is Some {
                assert(self.waiting.deep_view() =~= before.drop_last());
                assert(path.unwrap()@ == before.last());
            } else {
                assert(self.waiting.deep_view() =~= before);
            }
        }
        path
    }

    /// Makes the entries of a directory wait, the last entry next.
    fn wait_for(&mut self, entries: Vec<String>)
        ensures
            final(self).pending() == old(self).pending() + entries.deep_view(),
    {
        let mut i: usize = 0;
        let ghost before = self.waiting.deep_view();
        assert(entries.deep_view().take(0) =~= Seq::<Seq<char>>::empty());
        assert(self.waiting.deep_view() =~= before + entries.deep_view().take(0));
        while i < entries.len()
            invariant
                i <= entries.len(),
                self.waiting.deep_view() == before + entries.deep_view().take(i as int),
            decreases entries.len() - i,
        {
            let ghost so_far = self.waiting.deep_view();
            self.waiting.push(String::from_str(entries[i].as_str()));
            proof {
                assert(self.waiting.deep_view() =~= so_far.push(entries[i as int]@));
                assert(entries.deep_view().take(i + 1) =~= entries.deep_view().take(
                    i as int,
                ).push(entries[i as int]@));
                assert(self.waiting.deep_view() =~= before + entries.deep_view().take(i + 1));
            }
            i = i + 1;
        }
        assert(entries.deep_view().take(i as int) =~= entries.deep_view());
    }

    /// Takes in what the file system said of a path. A file is handed
    /// out. The entries of a directory are made to wait, the last one
    /// next, and the walk goes on; where an entry could not be read, the
    /// entries before it wait all the same. Every refusal of the file
    /// system is a stumble that names the path.
    pub fn advance(&mut self, path: String, probe: Probe) -> (step: Step)
        ensures
            match probe {
                Probe::NoMetadata => {
                    &&& step == Step::Failed(WalkError::Metadata(path))
                    &&& final(self).pending() == old(self).pending()
                },
                Probe::File => {
                    &&& step == Step::Found(path)
                    &&& final(self).pending() == old(self).pending()
                },
                Probe::Directory(entries) => {
                    &&& step == Step::Descended
                    &&& final(self).pending() == old(self).pending() + entries.deep_view()
                },
                Probe::Unreadable => {
                    &&& step == Step::Failed(WalkError::Directory(path))
                    &&& final(self).pending() == old(self).pending()
                },
                Probe::BrokenEntry(entries) => {
                    &&& step == Step::Failed(WalkError::Entry(path))
                    &&& final(self).pending() == old(self).pending() + entries.deep_view()
                },
            },
    {
        match probe {
            Probe::NoMetadata => Step::Failed(WalkError::Metadata(path)),
            Probe::File => Step::Found(path),
            Probe::Directory(entries) => {
                self.wait_for(entries);
                Step::Descended
            },
            Probe::Unreadable => Step::Failed(WalkError::Directory(path)),
            Probe::BrokenEntry(entries) => {
                self.wait_for(entries);
                Step::Failed(WalkError::Entry(path))
            },
        }
    }
}

} // verus!
