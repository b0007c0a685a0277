//! The bookkeeping of a watcher of files: which files are known, with the
//! digest of their contents and the time of their last change, and what a
//! new observation of a file means.
use crate::text::str_eq;
use vstd::prelude::*;
use vstd::string::StringExecFns;

verus! {

/// A time of last change, in nanoseconds since the Unix epoch.
pub type Timestamp = i128;

/// What the watcher keeps of one file.
struct FileMeta {
    sha_hash: String,
    modified: Timestamp,
}

/// The view of what is kept of one file.
pub struct FileRecord {
    pub sha_hash: Seq<char>,
    pub modified: int,
}

/// The view of a [`FileWatcher`].
pub struct FileWatcherState {
    /// The directory that is watched.
    pub path: Seq<char>,
    /// The files that are known, by their paths.
    pub files: Map<Seq<char>, FileRecord>,
}

/// A watcher of the files under one directory.
pub struct FileWatcher {
    file_meta: Vec<(String, FileMeta)>,
    path: String,
}

/// What an observation of a file told the watcher.
#[derive(Debug, Clone, Copy, PartialEq, Eq)]
pub enum FileEvent {
    /// The file was not known, and is now.
    Indexed,
    /// The contents of a known file have changed.
    Modified,
    /// Nothing new: the file is as it was, or its digest could not be had.
    Unchanged,
}

/// What the watcher keeps after it has observed the file `path` with the
/// time of change `modified`; `digest` is the digest of its contents, or
/// `None` where none could be had. An unknown file becomes known. A known
/// file is kept anew where both its time of change and its digest differ
/// from those kept.
pub open spec fn observe(
    files: Map<Seq<char>, FileRecord>,
    path: Seq<char>,
    modified: int,
    digest: Option<Seq<char>>,
) -> Map<Seq<char>, FileRecord> {
    match digest {
        Some(sha_hash) => if !files.contains_key(path) || (files[path].modified != modified
            && files[path].sha_hash != sha_hash) {
            files.insert(path, FileRecord { sha_hash, modified })
        } else {
            files
        },
        None => files,
    }
}

/// The view of a digest that may be missing.
pub open spec fn digest_view(digest: Option<String>) -> Option<Seq<char>> {
    match digest {
        Some(sha_hash) => Some(sha_hash@),
        None => None,
    }
}

/// What the observation of `observe` told.
pub open spec fn event_of(
    files: Map<Seq<char>, FileRecord>,
    path: Seq<char>,
    modified: int,
    digest: Option<Seq<char>>,
) -> FileEvent {
    match digest {
        Some(sha_hash) => if !files.contains_key(path) {
            FileEvent::Indexed
        } else if files[path].modified != modified && files[path].sha_hash != sha_hash {
            FileEvent::Modified
        } else {
            FileEvent::Unchanged
        },
        None => FileEvent::Unchanged,
    }
}

impl View for FileWatcher {
    type V = FileWatcherState;

    closed spec fn view(&self) -> FileWatcherState {
        FileWatcherState {
            path: self.path@,
            files: Map::new(
                |path: Seq<char>| self.slot_of(path) is Some,
                |path: Seq<char>|
                    {
                        let meta = self.file_meta@[self.slot_of(path)->0].1;
                        FileRecord { sha_hash: meta.sha_hash@, modified: meta.modified as int }
                    },
            ),
        }
    }
}

impl FileWatcher {
    /// The place at which the file `path` is kept, if it is known.
    closed spec fn slot_of(&self, path: Seq<char>) -> Option<int> {
        if exists|i: int| 0 <= i < self.file_meta@.len() && self.file_meta@[i].0@ == path {
            Some(choose|i: int| 0 <= i < self.file_meta@.len() && self.file_meta@[i].0@ == path)
        } else {
            None
        }
    }

    /// The invariant of a watcher: no file is kept twice.
    pub closed spec fn wf(&self) -> bool {
        forall|i: int, j: int|
            0 <= i < j < self.file_meta@.len() ==> self.file_meta@[i].0@ != self.file_meta@[j].0@
    }

    /// A watcher of the directory `path` that knows no file yet.
    pub fn create(path: &str) -> (watcher: FileWatcher)
        ensures
            watcher.wf(),
            watcher@ == (FileWatcherState { path: path@, files: Map::empty() }),
    {
        let watcher = FileWatcher { path: path.to_owned(), file_meta: Vec::new() };
        assert(watcher@.files =~= Map::empty());
        watcher
    }

    /// The pattern of the paths that a scan looks at: every file at any
    /// depth under the directory.
    pub fn scan_pattern(&self) -> (pattern: String)
        ensures
            pattern@ == self@.path + "**/*"@,
    {
        self.path.clone().concat("**/*")
    }

    /// Where the file `path` is kept.
    fn position(&self, path: &str) -> (slot: Option<usize>)
        requires
            self.wf(),
        ensures
            (match slot {
                Some(i) => Some(i as int),
                None => None,
            }) == self.slot_of(path@),
            slot matches Some(i) ==> i < self.file_meta@.len() && self.file_meta@[i as int].0@
                == path@,
    {
        let mut i: usize = 0;
        while i < self.file_meta.len()
            invariant
                self.wf(),
                i <= self.file_meta@.len(),
                forall|j: int| 0 <= j < i ==> self.file_meta@[j].0@ != path@,
            decreases self.file_meta@.len() - i,
        {
            if str_eq(self.file_meta[i].0.as_str(), path) {
                assert(self.slot_of(path@) == Some(i as int)) by {
                    let j = self.slot_of(path@)->0;
                    assert(self.file_meta@[i as int].0@ == path@);
                    assert(!(i < j) && !(j < i));
                }
                return Some(i);
            }
            i += 1;
        }
        None
    }

    /// Whether an observation of the file `path` with the time of change
    /// `modified` calls for a digest of its contents: it does for a file
    /// that is not known and for one whose time of change is not the one
    /// kept.
    pub fn needs_digest(&self, path: &str, modified: Timestamp) -> (needed: bool)
        requires
            self.wf(),
        ensures
            needed == (!self@.files.contains_key(path@) || self@.files[path@].modified
                != modified),
    {
        match self.position(path) {
            Some(i) => self.file_meta[i].1.modified != modified,
            None => true,
        }
    }

    /// Takes in an observation of the file `path`: its time of change and
    /// the digest of its contents, or `None` where none could be had.
    pub fn try_push_meta(&mut self, path: String, modified: Timestamp, digest: Option<String>) -> (event:
        FileEvent)
        requires
            old(self).wf(),
        ensures
            final(self).wf(),
            final(self)@.path == old(self)@.path,
            final(self)@.files == observe(
                old(self)@.files,
                path@,
                modified as int,
                digest_view(digest),
            ),
            event == event_of(old(self)@.files, path@, modified as int, digest_view(digest)),
    {
        match self.position(path.as_str()) {
            None => {
                match digest {
                    Some(sha_hash) => {
                        self.insert_meta(path, modified, sha_hash);
                        FileEvent::Indexed
                    },
                    None => FileEvent::Unchanged,
                }
            },
            Some(i) => {
                match digest {
                    Some(sha_hash) => {
                        if self.file_meta[i].1.modified != modified && !str_eq(
                            self.file_meta[i].1.sha_hash.as_str(),
                            sha_hash.as_str(),
                        ) {
                            let ghost before = *self;
                            self.file_meta.set(i, (path, FileMeta { sha_hash, modified }));
                            proof {
                                assert forall|q: Seq<char>|
                                    self.slot_of(q) is Some == before.slot_of(q) is Some by {
                                    if before.slot_of(q) is Some {
                                        assert(self.file_meta@[before.slot_of(q)->0].0@ == q);
                                    }
                                    if self.slot_of(q) is Some {
                                        assert(before.file_meta@[self.slot_of(q)->0].0@ == q);
                                    }
                                }
                                assert(self@.files =~= before@.files.insert(
                                    path@,
                                    FileRecord { sha_hash: sha_hash@, modified: modified as int },
                                ));
                            }
                            FileEvent::Modified
                        } else {
                            FileEvent::Unchanged
                        }
                    },
                    None => FileEvent::Unchanged,
                }
            },
        }
    }

    /// Begins to keep the file `path`, which is not known yet.
    fn insert_meta(&mut self, path: String, modified: Timestamp, sha_hash: String)
        requires
            old(self).wf(),
            !old(self)@.files.contains_key(path@),
        ensures
            final(self).wf(),
            final(self)@.path == old(self)@.path,
            final(self)@.files == old(self)@.files.insert(
                path@,
                (FileRecord { sha_hash: sha_hash@, modified: modified as int }),
            ),
    {
        let ghost before = *self;
        let ghost place = self.file_meta@.len() as int;
        self.file_meta.push((path, FileMeta { sha_hash, modified }));
        proof {
            assert forall|i: int| 0 <= i < place implies before.file_meta@[i].0@ != path@ by {
                if before.file_meta@[i].0@ == path@ {
                    assert(before.slot_of(path@) is Some);
                }
            }
            assert forall|q: Seq<char>|
                self.slot_of(q) is Some == (before.slot_of(q) is Some || q == path@) by {
                if before.slot_of(q) is Some {
                    assert(self.file_meta@[before.slot_of(q)->0].0@ == q);
                }
                if q == path@ {
                    assert(self.file_meta@[place].0@ == q);
                }
            }
            assert(self@.files =~= before@.files.insert(
                path@,
                FileRecord { sha_hash: sha_hash@, modified: modified as int },
            ));
        }
    }
}

} // verus!
